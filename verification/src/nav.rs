//! The NAV post-processor: it keeps the latest present value of every trade
//! and publishes their total.
//!
//! Receiving and publishing are done by the runtime; the functions here read
//! the clock, route the incoming messages and keep the book.
use vstd::prelude::*;
use std::time::{Duration, SystemTime};
use crate::portfolio::pairs_to_map;
use crate::strmap::StrMap;

verus! {

#[verifier::external_type_specification]
#[verifier::external_body]
pub struct ExSystemTime(SystemTime);

/// Calls `SystemTime::now`: the current time of the system clock. Nothing is
/// stated of it: it depends on the clock.
#[verifier::external_body]
fn system_now() -> (t: SystemTime) {
    SystemTime::now()
}

/// Calls `SystemTime::duration_since` with `UNIX_EPOCH`; its `Err` (a time
/// before the epoch) becomes `None`. Nothing is stated of the duration: it
/// depends on the time handed in, which comes from the clock.
#[verifier::external_body]
fn since_unix_epoch(t: &SystemTime) -> (d: Option<Duration>) {
    t.duration_since(std::time::UNIX_EPOCH).ok()
}

/// Calls `Duration::as_secs`: the whole seconds of `d`. Nothing is stated
/// of them: the duration is opaque here.
#[verifier::external_body]
fn whole_secs(d: &Duration) -> (secs: u64) {
    d.as_secs()
}

/// Calls `Duration::subsec_nanos`: the fractional part of `d` in
/// nanoseconds, which its documentation puts below one billion.
#[verifier::external_body]
fn fraction_nanos(d: &Duration) -> (nanos: u32)
    ensures
        nanos < 1_000_000_000,
{
    d.subsec_nanos()
}

/// A reading of the clock against the Unix epoch: the whole seconds and the
/// nanoseconds past them, or `None` for a clock set before the epoch.
pub open spec fn is_clock_reading(reading: Option<(u64, u32)>) -> bool {
    match reading {
        Some((_, nanos)) => nanos < 1_000_000_000,
        None => true,
    }
}

/// The whole milliseconds of a reading, in the low 64 bits; 0 for a clock
/// set before the epoch.
pub open spec fn epoch_millis(reading: Option<(u64, u32)>) -> int {
    match reading {
        Some((secs, nanos)) => (secs * 1000 + nanos / 1_000_000) % 0x1_0000_0000_0000_0000,
        None => 0,
    }
}

/// Reads the system clock: the time since the Unix epoch as whole seconds
/// and nanoseconds, or `None` when the clock is set before the epoch.
pub fn clock_reading() -> (reading: Option<(u64, u32)>)
    ensures
        is_clock_reading(reading),
{
    let t = system_now();
    match since_unix_epoch(&t) {
        Some(d) => Some((whole_secs(&d), fraction_nanos(&d))),
        None => None,
    }
}

/// The low 64 bits of a number of milliseconds.
fn low_bits(ms: u128) -> (r: u64)
    ensures
        r == ms % 0x1_0000_0000_0000_0000,
{
    let r: u64 = #[verifier::truncate] (ms as u64);
    assert(r == ms % 0x1_0000_0000_0000_0000) by (bit_vector)
        requires
            r == #[verifier::truncate] (ms as u64),
    ;
    r
}

/// The milliseconds of a clock reading, as `Duration::as_millis` counts them
/// (whole seconds times 1000 plus whole milliseconds of the fraction), in the
/// low 64 bits; 0 for a clock set before the epoch.
pub fn millis_since_epoch(reading: Option<(u64, u32)>) -> (ms: u64)
    ensures
        ms == epoch_millis(reading),
{
    match reading {
        Some((secs, nanos)) => {
            let whole: u128 = (secs as u128) * 1000 + ((nanos / 1_000_000) as u128);
            low_bits(whole)
        },
        None => 0,
    }
}

/// Milliseconds since the Unix epoch, by the system clock (0 for a clock set
/// before the epoch), in the low 64 bits. The reading depends on the clock;
/// what is made of it is `millis_since_epoch`.
pub fn now_ms() -> (ms: u64)
    ensures
        exists|reading: Option<(u64, u32)>| is_clock_reading(reading) && ms == epoch_millis(reading),
{
    let reading = clock_reading();
    millis_since_epoch(reading)
}

/// What decoding `bytes` as UTF-8 gives: the text, or `None` when the bytes
/// are not valid UTF-8.
pub uninterp spec fn utf8_decoding(bytes: Seq<u8>) -> Option<Seq<char>>;

/// Every byte is ASCII.
pub open spec fn all_ascii(bytes: Seq<u8>) -> bool {
    forall|i: int| 0 <= i < bytes.len() ==> bytes[i] < 128
}

/// The characters whose codes are the bytes.
pub open spec fn ascii_chars(bytes: Seq<u8>) -> Seq<char> {
    bytes.map_values(|b: u8| b as char)
}

/// Calls `std::str::from_utf8` and copies the text into a `String`; an
/// error becomes `None`. The outcome is named; stated is only that ASCII
/// bytes are valid UTF-8 and stand for the characters with their codes.
#[verifier::external_body]
fn utf8_text(bytes: &[u8]) -> (t: Option<String>)
    ensures
        match t {
            Some(s) => utf8_decoding(bytes@) == Some(s@),
            None => utf8_decoding(bytes@) is None,
        },
        t is Some || !all_ascii(bytes@),
        t is Some && all_ascii(bytes@) ==> t->0@ == ascii_chars(bytes@),
{
    match std::str::from_utf8(bytes) {
        Ok(s) => Some(s.to_string()),
        Err(_) => None,
    }
}

/// How the NAV processor reads a risk message, by its key.
#[derive(Clone, Copy, Debug, PartialEq, Eq, Structural)]
pub enum NavRoute {
    /// Key "PV": the payload maps trade ids to present values.
    Pv,
    /// No key: the payload is the older format, with the present values
    /// under "PV".
    Legacy,
    /// Any other key (NAV, VaR, PV01, PnL, ...): not for this processor.
    Ignore,
    /// A key that is not UTF-8: the message is skipped.
    BadKey,
}

/// The route of a message with key `key`.
pub open spec fn nav_route_of(key: Option<Seq<u8>>) -> NavRoute {
    match key {
        None => NavRoute::Legacy,
        Some(b) => match utf8_decoding(b) {
            None => NavRoute::BadKey,
            Some(t) => if t == "PV"@ {
                NavRoute::Pv
            } else {
                NavRoute::Ignore
            },
        },
    }
}

/// How the NAV processor reads a message with key `key`.
pub fn nav_route(key: Option<&[u8]>) -> (r: NavRoute)
    ensures
        r == nav_route_of(match key {
            Some(b) => Some(b@),
            None => None,
        }),
{
    match key {
        None => NavRoute::Legacy,
        Some(b) => match utf8_text(b) {
            None => NavRoute::BadKey,
            Some(t) => if t == String::from_str("PV") {
                NavRoute::Pv
            } else {
                NavRoute::Ignore
            },
        },
    }
}

/// How the VaR processor reads a risk message, by its key.
#[derive(Clone, Copy, Debug, PartialEq, Eq, Structural)]
pub enum VarRiskRoute {
    /// Key "PV": present values by trade.
    Pv,
    /// Key "PV01": the portfolio's exposures by risk factor.
    Exposures,
    /// Keys "VaR", "NAV", "PnL": results of post-processing, ignored.
    PostProcessed,
    /// Any other key: ignored.
    Unsupported,
    /// No key: the older format, present values under "PV" and exposures
    /// under "delta".
    Legacy,
    /// A key that is not UTF-8: the message is skipped.
    BadKey,
}

/// The route of a risk message with key `key` in the VaR processor.
pub open spec fn var_route_of(key: Option<Seq<u8>>) -> VarRiskRoute {
    match key {
        None => VarRiskRoute::Legacy,
        Some(b) => match utf8_decoding(b) {
            None => VarRiskRoute::BadKey,
            Some(t) => if t == "PV"@ {
                VarRiskRoute::Pv
            } else if t == "PV01"@ {
                VarRiskRoute::Exposures
            } else if t == "VaR"@ || t == "NAV"@ || t == "PnL"@ {
                VarRiskRoute::PostProcessed
            } else {
                VarRiskRoute::Unsupported
            },
        },
    }
}

/// How the VaR processor reads a risk message with key `key`.
pub fn var_route(key: Option<&[u8]>) -> (r: VarRiskRoute)
    ensures
        r == var_route_of(match key {
            Some(b) => Some(b@),
            None => None,
        }),
{
    match key {
        None => VarRiskRoute::Legacy,
        Some(b) => match utf8_text(b) {
            None => VarRiskRoute::BadKey,
            Some(t) => if t == String::from_str("PV") {
                VarRiskRoute::Pv
            } else if t == String::from_str("PV01") {
                VarRiskRoute::Exposures
            } else if t == String::from_str("VaR") || t == String::from_str("NAV") || t == String::from_str("PnL") {
                VarRiskRoute::PostProcessed
            } else {
                VarRiskRoute::Unsupported
            },
        },
    }
}

/// `chain` records the running totals of adding `vals` one after the other
/// to `zero`.
pub open spec fn is_total_chain<V, F: Fn(V, V) -> V>(zero: V, vals: Seq<V>, add: F, chain: Seq<V>) -> bool {
    &&& chain.len() == vals.len() + 1
    &&& chain[0] == zero
    &&& forall|i: int| 0 <= i < vals.len() ==> call_ensures(add, (chain[i], #[trigger] vals[i]), chain[i + 1])
}

/// `r` is the total of `vals` added one after the other to `zero`.
pub open spec fn is_total<V, F: Fn(V, V) -> V>(zero: V, vals: Seq<V>, add: F, r: V) -> bool {
    exists|chain: Seq<V>| #[trigger] is_total_chain(zero, vals, add, chain) && chain.last() == r
}

/// The latest present value of every trade.
pub struct NavBook<V> {
    latest: StrMap<V>,
}

impl<V: Copy> NavBook<V> {
    pub closed spec fn view(&self) -> Map<Seq<char>, V> {
        self.latest@
    }

    /// The values in the order in which the book totals them.
    pub closed spec fn value_seq(&self) -> Seq<V> {
        self.latest.key_seq().map_values(|k: Seq<char>| self.latest@[k])
    }

    /// The trades in the order in which the book totals their values.
    pub closed spec fn key_seq(&self) -> Seq<Seq<char>> {
        self.latest.key_seq()
    }

    /// The book totals the value of each trade it holds, once: the order
    /// lists every trade once, and the values follow it.
    pub proof fn lemma_value_seq(&self)
        requires
            self.wf(),
        ensures
            self.key_seq().no_duplicates(),
            self.key_seq().to_set() == self.view().dom(),
            self.view().dom().len() == self.key_seq().len(),
            self.value_seq() == self.key_seq().map_values(|k: Seq<char>| self.view()[k]),
    {
        self.latest.lemma_key_seq();
    }

    pub closed spec fn wf(&self) -> bool {
        self.latest.wf()
    }

    /// An empty book.
    pub fn new() -> (b: Self)
        ensures
            b.wf(),
            b.view() == Map::<Seq<char>, V>::empty(),
    {
        NavBook { latest: StrMap::new() }
    }

    /// Takes in an update of present values. An empty update changes nothing
    /// and gives `false` (nothing to publish); otherwise each trade's value is
    /// replaced by the update's and `true` is given.
    pub fn apply(&mut self, updates: &Vec<(String, V)>) -> (changed: bool)
        requires
            old(self).wf(),
        ensures
            final(self).wf(),
            changed == (updates@.len() > 0),
            !changed ==> final(self).view() == old(self).view(),
            changed ==> final(self).view() == old(self).view().union_prefer_right(pairs_to_map(updates@)),
    {
        if updates.len() == 0 {
            return false;
        }
        let ghost start = self.view();
        for i in 0..updates.len()
            invariant
                self.wf(),
                self.view() == start.union_prefer_right(pairs_to_map(updates@.take(i as int))),
        {
            let (k, v) = (updates[i].0.clone(), updates[i].1);
            self.latest.insert(k, v);
            proof {
                assert(updates@.take(i + 1).drop_last() =~= updates@.take(i as int));
                assert(updates@.take(i + 1).last() == updates@[i as int]);
                assert(self.view() =~= start.union_prefer_right(pairs_to_map(updates@.take(i + 1))));
            }
        }
        proof {
            assert(updates@.take(updates@.len() as int) =~= updates@);
        }
        true
    }

    /// Takes in one risk message, routed by its key, with the present values
    /// its payload was read as (`None` when it could not be read). Present
    /// values under a "PV" key or in the older format update the book; when
    /// there is at least one, the new total is given, to be published.
    /// Anything else leaves the book as it is and gives nothing.
    pub fn on_update<F: Fn(V, V) -> V>(
        &mut self,
        route: NavRoute,
        updates: Option<Vec<(String, V)>>,
        zero: V,
        plus: &F,
    ) -> (published: Option<V>)
        requires
            old(self).wf(),
            forall|a: V, b: V| plus.requires((a, b)),
        ensures
            final(self).wf(),
            match (route, updates) {
                (NavRoute::Pv, Some(u)) | (NavRoute::Legacy, Some(u)) => if u@.len() > 0 {
                    &&& final(self).view() == old(self).view().union_prefer_right(pairs_to_map(u@))
                    &&& published matches Some(t) && is_total(zero, final(self).value_seq(), *plus, t)
                } else {
                    final(self).view() == old(self).view() && published is None
                },
                _ => final(self).view() == old(self).view() && published is None,
            },
    {
        match route {
            NavRoute::Pv | NavRoute::Legacy => match updates {
                Some(u) => {
                    if self.apply(&u) {
                        Some(self.total(zero, plus))
                    } else {
                        None
                    }
                },
                None => None,
            },
            _ => None,
        }
    }

    /// The total of the present values, added one after the other to `zero`
    /// with `plus`.
    pub fn total<F: Fn(V, V) -> V>(&self, zero: V, plus: &F) -> (t: V)
        requires
            self.wf(),
            forall|a: V, b: V| plus.requires((a, b)),
        ensures
            is_total(zero, self.value_seq(), *plus, t),
            self.value_seq().len() == self.view().dom().len(),
    {
        proof {
            self.latest.lemma_key_seq();
        }
        let ghost vals = self.value_seq();
        let mut acc = zero;
        let ghost mut chain: Seq<V> = seq![zero];
        let n = self.latest.len();
        for i in 0..n
            invariant
                n == self.latest.key_seq().len(),
                vals == self.value_seq(),
                vals.len() == n,
                self.wf(),
                forall|a: V, b: V| plus.requires((a, b)),
                is_total_chain(zero, vals.take(i as int), *plus, chain),
                chain.last() == acc,
        {
            let v = *self.latest.value_at(i);
            let next = plus(acc, v);
            proof {
                let c2 = chain.push(next);
                assert(vals[i as int] == v);
                assert forall|j: int| 0 <= j < vals.take(i + 1).len() implies call_ensures(
                    *plus,
                    (c2[j], #[trigger] vals.take(i + 1)[j]),
                    c2[j + 1],
                ) by {
                    if j < i {
                        assert(vals.take(i + 1)[j] == vals.take(i as int)[j]);
                    }
                }
                chain = c2;
            }
            acc = next;
        }
        proof {
            assert(vals.take(n as int) =~= vals);
        }
        acc
    }
}

/// A NAV result, ready to publish.
pub struct NavResultMessage<V> {
    pub id: String,
    pub metric: String,
    pub value: V,
    pub kind: String,
    pub ts_ms: u64,
}

/// The NAV result for a total: id "TOTAL_NAV", metric "NAV", kind "nav".
pub fn nav_result<V>(value: V, ts_ms: u64) -> (m: NavResultMessage<V>)
    ensures
        m.id@ == "TOTAL_NAV"@,
        m.metric@ == "NAV"@,
        m.kind@ == "nav"@,
        m.value == value,
        m.ts_ms == ts_ms,
{
    NavResultMessage {
        id: String::from_str("TOTAL_NAV"),
        metric: String::from_str("NAV"),
        value,
        kind: String::from_str("nav"),
        ts_ms,
    }
}

} // verus!
