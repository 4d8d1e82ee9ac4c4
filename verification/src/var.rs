//! The VaR post-processor's book: the latest present value of every trade
//! and the latest exposures of the portfolio by risk factor.
//!
//! Reading the payloads, the return history and the VaR figure itself are
//! floating-point work done by the runtime; the functions here keep the book,
//! name the result, and read a risk factor's name in a market payload.
use vstd::prelude::*;
use crate::nav::NavBook;
use crate::portfolio::pairs_to_map;
use crate::strmap::StrMap;

verus! {

/// The VaR processor's record of present values and exposures.
pub struct VarBook<V> {
    pvs: NavBook<V>,
    exposures: StrMap<V>,
}

impl<V: Copy> VarBook<V> {
    pub closed spec fn pvs_view(&self) -> Map<Seq<char>, V> {
        self.pvs.view()
    }

    pub closed spec fn exposures_view(&self) -> Map<Seq<char>, V> {
        self.exposures@
    }

    pub closed spec fn wf(&self) -> bool {
        self.pvs.wf() && self.exposures.wf()
    }

    /// An empty book.
    pub fn new() -> (b: Self)
        ensures
            b.wf(),
            b.pvs_view() == Map::<Seq<char>, V>::empty(),
            b.exposures_view() == Map::<Seq<char>, V>::empty(),
    {
        VarBook { pvs: NavBook::new(), exposures: StrMap::new() }
    }

    /// The exposures, by risk factor.
    pub fn exposures(&self) -> (e: &StrMap<V>)
        requires
            self.wf(),
        ensures
            e.wf(),
            e@ == self.exposures_view(),
    {
        &self.exposures
    }

    /// Present values arrive: each trade's value is replaced.
    pub fn on_present_values(&mut self, updates: &Vec<(String, V)>)
        requires
            old(self).wf(),
        ensures
            final(self).wf(),
            final(self).pvs_view() == old(self).pvs_view().union_prefer_right(pairs_to_map(updates@)),
            final(self).exposures_view() == old(self).exposures_view(),
    {
        let _ = self.pvs.apply(updates);
        proof {
            if updates@.len() == 0 {
                assert(pairs_to_map(updates@) =~= Map::<Seq<char>, V>::empty());
                assert(old(self).pvs_view().union_prefer_right(pairs_to_map(updates@)) =~= old(self).pvs_view());
            }
        }
    }

    /// Exposures arrive: they replace the held ones.
    pub fn on_exposures(&mut self, exposures: StrMap<V>)
        requires
            old(self).wf(),
            exposures.wf(),
        ensures
            final(self).wf(),
            final(self).exposures_view() == exposures@,
            final(self).pvs_view() == old(self).pvs_view(),
    {
        self.exposures = exposures;
    }

    /// A message in the older format: its present values are taken in, and
    /// its exposures replace the held ones unless there are none.
    pub fn on_legacy(&mut self, pv: &Vec<(String, V)>, delta: StrMap<V>)
        requires
            old(self).wf(),
            delta.wf(),
        ensures
            final(self).wf(),
            final(self).pvs_view() == old(self).pvs_view().union_prefer_right(pairs_to_map(pv@)),
            delta@.dom().len() == 0 ==> final(self).exposures_view() == old(self).exposures_view(),
            delta@.dom().len() > 0 ==> final(self).exposures_view() == delta@,
    {
        self.on_present_values(pv);
        if delta.len() > 0 {
            self.exposures = delta;
        }
    }
}

/// A VaR result, ready to publish.
pub struct VarResultMessage<V> {
    pub id: String,
    pub metric: String,
    pub value: V,
    pub kind: String,
    pub ts_ms: u64,
    pub confidence: V,
    pub methodology: String,
}

/// The VaR result for a figure: id "TOTAL_VAR", metric "VaR", kind "var",
/// methodology "delta_normal_full_covariance_from_rolling_returns".
pub fn var_result<V>(value: V, confidence: V, ts_ms: u64) -> (m: VarResultMessage<V>)
    ensures
        m.id@ == "TOTAL_VAR"@,
        m.metric@ == "VaR"@,
        m.kind@ == "var"@,
        m.methodology@ == "delta_normal_full_covariance_from_rolling_returns"@,
        m.value == value,
        m.confidence == confidence,
        m.ts_ms == ts_ms,
{
    VarResultMessage {
        id: String::from_str("TOTAL_VAR"),
        metric: String::from_str("VaR"),
        value,
        kind: String::from_str("var"),
        ts_ms,
        confidence,
        methodology: String::from_str("delta_normal_full_covariance_from_rolling_returns"),
    }
}

/// A risk factor's name as a market payload writes it, as far as the name
/// depends on it.
pub enum FactorNameValue {
    /// A JSON string.
    Text(String),
    /// A JSON object with exactly one entry: its key, and what it holds.
    Tagged(String, TaggedValue),
    /// Any other JSON value.
    Other,
}

/// What the one entry of a tagged factor name holds.
pub enum TaggedValue {
    /// A JSON string.
    Text(String),
    /// A JSON number, with its JSON text.
    Number(String),
    /// A JSON object with exactly one entry, which holds a string (the
    /// string) or a number (its JSON text).
    Inner(String),
    /// JSON null.
    Null,
    /// Anything else.
    Other,
}

/// The factor's name: a string is the name; a one-entry object names the
/// factor by what it holds (a string, a number's text, the string or number
/// inside a one-entry object, or the entry's key when it holds null);
/// anything else is named by its JSON text `json_text`.
pub open spec fn factor_name_of(v: FactorNameValue, json_text: Seq<char>) -> Seq<char> {
    match v {
        FactorNameValue::Text(s) => s@,
        FactorNameValue::Tagged(key, inner) => match inner {
            TaggedValue::Text(s) => s@,
            TaggedValue::Number(n) => n@,
            TaggedValue::Inner(s) => s@,
            TaggedValue::Null => key@,
            TaggedValue::Other => json_text,
        },
        FactorNameValue::Other => json_text,
    }
}

/// The name of the risk factor written as `v`, whose JSON text is
/// `json_text`.
pub fn factor_name(v: FactorNameValue, json_text: String) -> (name: String)
    ensures
        name@ == factor_name_of(v, json_text@),
{
    match v {
        FactorNameValue::Text(s) => s,
        FactorNameValue::Tagged(key, inner) => match inner {
            TaggedValue::Text(s) => s,
            TaggedValue::Number(n) => n,
            TaggedValue::Inner(s) => s,
            TaggedValue::Null => key,
            TaggedValue::Other => json_text,
        },
        FactorNameValue::Other => json_text,
    }
}

} // verus!
