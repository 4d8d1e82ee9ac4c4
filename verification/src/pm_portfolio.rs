//! A portfolio per pricing metric.
use vstd::prelude::*;
use crate::decimal::{decimal, u64_to_decimal};
use crate::metric::{metric_label, PricingMetric};
use crate::portfolio::{is_union_with, PortfolioType};
use crate::trade_set::TradeSet;

verus! {

/// The abstract contents: for each metric held, the portfolio's values.
pub type PmView<V> = Map<PricingMetric, Map<Seq<char>, V>>;

/// `a` is behind or level with `b`: every metric of `a` is in `b`, and for each
/// of them the trades of `a` are among those of `b`.
pub open spec fn pm_within<V>(a: PmView<V>, b: PmView<V>) -> bool {
    &&& a.dom().subset_of(b.dom())
    &&& forall|m: PricingMetric| #[trigger] a.contains_key(m) ==> a[m].dom().subset_of(b[m].dom())
}

/// How two metric portfolios are ordered: `Less` when the first is within the
/// second (level ones included), otherwise `Greater` when the second is within
/// the first, otherwise incomparable.
pub open spec fn pm_order<V>(a: PmView<V>, b: PmView<V>) -> Option<std::cmp::Ordering> {
    if pm_within(a, b) {
        Some(std::cmp::Ordering::Less)
    } else if pm_within(b, a) {
        Some(std::cmp::Ordering::Greater)
    } else {
        None
    }
}

/// The summary line of one metric: its label, a colon and its number of trades.
pub open spec fn summary_part<V>(p: PmView<V>, m: PricingMetric) -> Seq<char> {
    if p.contains_key(m) {
        metric_label(m) + ": "@ + decimal(p[m].dom().len()) + " "@
    } else {
        Seq::empty()
    }
}

/// The summary of all metrics, in the order PV, PV01, PnL; "{}" when empty.
pub open spec fn summary<V>(p: PmView<V>) -> Seq<char> {
    if p.dom() == Set::<PricingMetric>::empty() {
        "{}"@
    } else {
        summary_part(p, PricingMetric::PV) + summary_part(p, PricingMetric::PV01)
            + summary_part(p, PricingMetric::PnL)
    }
}

/// The number of trades for each metric held.
#[derive(Clone, Copy, Debug)]
pub struct MetricCounts {
    pub pv: Option<usize>,
    pub pv01: Option<usize>,
    pub pnl: Option<usize>,
}

impl MetricCounts {
    pub open spec fn spec_get(&self, m: PricingMetric) -> Option<usize> {
        match m {
            PricingMetric::PV => self.pv,
            PricingMetric::PV01 => self.pv01,
            PricingMetric::PnL => self.pnl,
        }
    }

    /// The count for metric `m`, if the metric is held.
    pub fn get(&self, m: PricingMetric) -> (r: Option<usize>)
        ensures
            r == self.spec_get(m),
    {
        match m {
            PricingMetric::PV => self.pv,
            PricingMetric::PV01 => self.pv01,
            PricingMetric::PnL => self.pnl,
        }
    }
}

/// A portfolio for each pricing metric that is being computed.
pub struct PmPortfolio<V> {
    pv: Option<PortfolioType<V>>,
    pv01: Option<PortfolioType<V>>,
    pnl: Option<PortfolioType<V>>,
}

impl<V> PmPortfolio<V> {
    pub closed spec fn slot(&self, m: PricingMetric) -> Option<PortfolioType<V>> {
        match m {
            PricingMetric::PV => self.pv,
            PricingMetric::PV01 => self.pv01,
            PricingMetric::PnL => self.pnl,
        }
    }
}

impl<V> View for PmPortfolio<V> {
    type V = PmView<V>;

    closed spec fn view(&self) -> PmView<V> {
        Map::new(|m: PricingMetric| self.slot(m) is Some, |m: PricingMetric| self.slot(m).unwrap()@)
    }
}

impl<V: Copy> PmPortfolio<V> {
    pub closed spec fn wf(&self) -> bool {
        &&& (self.pv matches Some(p) ==> p.wf())
        &&& (self.pv01 matches Some(p) ==> p.wf())
        &&& (self.pnl matches Some(p) ==> p.wf())
    }

    proof fn lemma_slot(&self, m: PricingMetric)
        requires
            self.wf(),
        ensures
            (self.slot(m) is Some) == self@.contains_key(m),
            self.slot(m) matches Some(p) ==> p.wf() && p@ == self@[m],
    {
    }

    /// The empty metric portfolio.
    pub fn new() -> (p: Self)
        ensures
            p.wf(),
            p@ == Map::<PricingMetric, Map<Seq<char>, V>>::empty(),
    {
        let p = PmPortfolio { pv: None, pv01: None, pnl: None };
        assert(p@ =~= Map::<PricingMetric, Map<Seq<char>, V>>::empty());
        p
    }

    /// The portfolio of metric `m`, if held.
    pub fn get(&self, m: PricingMetric) -> (r: Option<&PortfolioType<V>>)
        requires
            self.wf(),
        ensures
            (r is Some) == self@.contains_key(m),
            r matches Some(p) ==> p.wf() && p@ == self@[m],
    {
        proof { self.lemma_slot(m); }
        match m {
            PricingMetric::PV => self.pv.as_ref(),
            PricingMetric::PV01 => self.pv01.as_ref(),
            PricingMetric::PnL => self.pnl.as_ref(),
        }
    }

    /// Whether metric `m` is held.
    pub fn contains_metric(&self, m: PricingMetric) -> (b: bool)
        requires
            self.wf(),
        ensures
            b == self@.contains_key(m),
    {
        self.get(m).is_some()
    }

    /// Removes and returns the portfolio of metric `m`.
    pub fn take(&mut self, m: PricingMetric) -> (r: Option<PortfolioType<V>>)
        requires
            old(self).wf(),
        ensures
            final(self).wf(),
            final(self)@ == old(self)@.remove(m),
            (r is Some) == old(self)@.contains_key(m),
            r matches Some(p) ==> p.wf() && p@ == old(self)@[m],
    {
        proof { self.lemma_slot(m); }
        let r = match m {
            PricingMetric::PV => self.pv.take(),
            PricingMetric::PV01 => self.pv01.take(),
            PricingMetric::PnL => self.pnl.take(),
        };
        assert(self@ =~= old(self)@.remove(m));
        r
    }

    /// Sets the portfolio of metric `m`.
    pub fn insert(&mut self, m: PricingMetric, p: PortfolioType<V>)
        requires
            old(self).wf(),
            p.wf(),
        ensures
            final(self).wf(),
            final(self)@ == old(self)@.insert(m, p@),
    {
        match m {
            PricingMetric::PV => { self.pv = Some(p); },
            PricingMetric::PV01 => { self.pv01 = Some(p); },
            PricingMetric::PnL => { self.pnl = Some(p); },
        }
        assert(self@ =~= old(self)@.insert(m, p@));
    }

    /// The metrics held, in the order PV, PV01, PnL.
    pub fn metrics(&self) -> (v: Vec<PricingMetric>)
        requires
            self.wf(),
        ensures
            v@.to_set() == self@.dom(),
            v@.no_duplicates(),
    {
        let mut v = Vec::new();
        if self.pv.is_some() {
            v.push(PricingMetric::PV);
        }
        if self.pv01.is_some() {
            v.push(PricingMetric::PV01);
        }
        if self.pnl.is_some() {
            v.push(PricingMetric::PnL);
        }
        assert(v@.to_set() =~= self@.dom()) by {
            assert forall|m: PricingMetric| v@.contains(m) <==> self@.contains_key(m) by {
                if self@.contains_key(m) {
                    match m {
                        PricingMetric::PV => { assert(v@[0] == m); },
                        PricingMetric::PV01 => {
                            if self.pv is Some { assert(v@[1] == m); } else { assert(v@[0] == m); }
                        },
                        PricingMetric::PnL => { assert(v@[v@.len() - 1] == m); },
                    }
                }
            }
        }
        v
    }

    /// Adds `portfolio` into the portfolio of `metric`, or sets it when the
    /// metric is not held yet.
    pub fn assign_metric<F: Fn(V, V) -> V>(&mut self, metric: PricingMetric, portfolio: PortfolioType<V>, combine: &F)
        requires
            old(self).wf(),
            portfolio.wf(),
            forall|a: V, b: V| combine.requires((a, b)),
        ensures
            final(self).wf(),
            final(self)@.dom() == old(self)@.dom().insert(metric),
            forall|m: PricingMetric| m != metric && #[trigger] old(self)@.contains_key(m) ==> final(self)@[m] == old(self)@[m],
            !old(self)@.contains_key(metric) ==> final(self)@[metric] == portfolio@,
            old(self)@.contains_key(metric) ==> is_union_with(old(self)@[metric], portfolio@, *combine, final(self)@[metric]),
    {
        match self.take(metric) {
            Some(mut p) => {
                p.add_assign_with(&portfolio, combine);
                self.insert(metric, p);
            },
            None => {
                self.insert(metric, portfolio);
            },
        }
    }

    /// Adds `portfolio` into the portfolio of `metric` if that metric is held,
    /// and says whether it was.
    pub fn add_to_metric<F: Fn(V, V) -> V>(&mut self, metric: PricingMetric, portfolio: &PortfolioType<V>, combine: &F) -> (held: bool)
        requires
            old(self).wf(),
            portfolio.wf(),
            forall|a: V, b: V| combine.requires((a, b)),
        ensures
            final(self).wf(),
            held == old(self)@.contains_key(metric),
            final(self)@.dom() == old(self)@.dom(),
            forall|m: PricingMetric| m != metric && #[trigger] old(self)@.contains_key(m) ==> final(self)@[m] == old(self)@[m],
            held ==> is_union_with(old(self)@[metric], portfolio@, *combine, final(self)@[metric]),
    {
        match self.take(metric) {
            Some(mut p) => {
                p.add_assign_with(portfolio, combine);
                self.insert(metric, p);
                assert(self@.dom() =~= old(self)@.dom());
                true
            },
            None => {
                assert(self@ =~= old(self)@);
                false
            },
        }
    }

    /// Replaces, for every metric of `other`, this portfolio by `other`'s.
    pub fn assign(&mut self, other: &PmPortfolio<V>)
        requires
            old(self).wf(),
            other.wf(),
        ensures
            final(self).wf(),
            final(self)@ == old(self)@.union_prefer_right(other@),
    {
        if let Some(p) = other.get(PricingMetric::PV) {
            self.insert(PricingMetric::PV, p.duplicate());
        }
        if let Some(p) = other.get(PricingMetric::PV01) {
            self.insert(PricingMetric::PV01, p.duplicate());
        }
        if let Some(p) = other.get(PricingMetric::PnL) {
            self.insert(PricingMetric::PnL, p.duplicate());
        }
        proof {
            other.lemma_slot(PricingMetric::PV);
            other.lemma_slot(PricingMetric::PV01);
            other.lemma_slot(PricingMetric::PnL);
        }
        assert(self@ =~= old(self)@.union_prefer_right(other@)) by {
            assert forall|m: PricingMetric| #![auto] self@.contains_key(m) == old(self)@.union_prefer_right(other@).contains_key(m) by {
                match m { PricingMetric::PV => {}, PricingMetric::PV01 => {}, PricingMetric::PnL => {} }
            }
            assert forall|m: PricingMetric| #![auto] self@.contains_key(m) implies self@[m] == old(self)@.union_prefer_right(other@)[m] by {
                match m { PricingMetric::PV => {}, PricingMetric::PV01 => {}, PricingMetric::PnL => {} }
            }
        }
    }

    /// Adds `other` into `self` metric by metric; a metric only in `other` is copied.
    pub fn add_assign_with<F: Fn(V, V) -> V>(&mut self, other: &PmPortfolio<V>, combine: &F)
        requires
            old(self).wf(),
            other.wf(),
            forall|a: V, b: V| combine.requires((a, b)),
        ensures
            final(self).wf(),
            final(self)@.dom() == old(self)@.dom().union(other@.dom()),
            forall|m: PricingMetric| #[trigger] final(self)@.contains_key(m) && !other@.contains_key(m) ==> final(self)@[m] == old(self)@[m],
            forall|m: PricingMetric| #[trigger] final(self)@.contains_key(m) && other@.contains_key(m) && !old(self)@.contains_key(m) ==> final(self)@[m] == other@[m],
            forall|m: PricingMetric| #[trigger] final(self)@.contains_key(m) && other@.contains_key(m) && old(self)@.contains_key(m)
                ==> is_union_with(old(self)@[m], other@[m], *combine, final(self)@[m]),
    {
        if let Some(p) = other.get(PricingMetric::PV) {
            self.assign_metric(PricingMetric::PV, p.duplicate(), combine);
        }
        if let Some(p) = other.get(PricingMetric::PV01) {
            self.assign_metric(PricingMetric::PV01, p.duplicate(), combine);
        }
        if let Some(p) = other.get(PricingMetric::PnL) {
            self.assign_metric(PricingMetric::PnL, p.duplicate(), combine);
        }
        proof {
            other.lemma_slot(PricingMetric::PV);
            other.lemma_slot(PricingMetric::PV01);
            other.lemma_slot(PricingMetric::PnL);
        }
        assert(self@.dom() =~= old(self)@.dom().union(other@.dom())) by {
            assert forall|m: PricingMetric| #![auto] self@.contains_key(m) == old(self)@.dom().union(other@.dom()).contains(m) by {
                match m { PricingMetric::PV => {}, PricingMetric::PV01 => {}, PricingMetric::PnL => {} }
            }
        }
    }

    /// The number of trades held for each metric.
    pub fn count(&self) -> (c: MetricCounts)
        requires
            self.wf(),
        ensures
            forall|m: PricingMetric| #[trigger] c.spec_get(m) == (if self@.contains_key(m) {
                Some(self@[m].dom().len() as usize)
            } else {
                None::<usize>
            }),
    {
        let pv = match &self.pv { Some(p) => Some(p.len()), None => None };
        let pv01 = match &self.pv01 { Some(p) => Some(p.len()), None => None };
        let pnl = match &self.pnl { Some(p) => Some(p.len()), None => None };
        let c = MetricCounts { pv, pv01, pnl };
        assert forall|m: PricingMetric| #[trigger] c.spec_get(m) == (if self@.contains_key(m) {
            Some(self@[m].dom().len() as usize)
        } else {
            None::<usize>
        }) by {
            match m { PricingMetric::PV => {}, PricingMetric::PV01 => {}, PricingMetric::PnL => {} }
        }
        c
    }

    fn summary_part_exec(&self, m: PricingMetric) -> (s: String)
        requires
            self.wf(),
        ensures
            s@ == summary_part(self@, m),
    {
        match self.get(m) {
            Some(p) => {
                let n = p.len();
                let mut s = m.name();
                s.append(": ");
                let d = u64_to_decimal(n as u64);
                s.append(d.as_str());
                s.append(" ");
                s
            },
            None => {
                let s = String::new();
                s
            },
        }
    }

    /// A one-line summary: for each metric held, "label: count ", in the order
    /// PV, PV01, PnL; "{}" when no metric is held.
    pub fn simple(&self) -> (s: String)
        requires
            self.wf(),
        ensures
            s@ == summary(self@),
    {
        let any = self.pv.is_some() || self.pv01.is_some() || self.pnl.is_some();
        if !any {
            assert(self@.dom() =~= Set::<PricingMetric>::empty());
            return String::from_str("{}");
        }
        assert(self@.dom() != Set::<PricingMetric>::empty()) by {
            if self.pv is Some {
                assert(self@.dom().contains(PricingMetric::PV));
            } else if self.pv01 is Some {
                assert(self@.dom().contains(PricingMetric::PV01));
            } else {
                assert(self@.dom().contains(PricingMetric::PnL));
            }
        }
        let mut s = self.summary_part_exec(PricingMetric::PV);
        let b = self.summary_part_exec(PricingMetric::PV01);
        s.append(b.as_str());
        let c = self.summary_part_exec(PricingMetric::PnL);
        s.append(c.as_str());
        s
    }

    /// The trades of the first metric held (PV, then PV01, then PnL); all
    /// metrics are meant to hold the same trades.
    pub fn get_trades(&self) -> (t: TradeSet)
        requires
            self.wf(),
        ensures
            t.wf(),
            self@.contains_key(PricingMetric::PV) ==> t@ == self@[PricingMetric::PV].dom(),
            !self@.contains_key(PricingMetric::PV) && self@.contains_key(PricingMetric::PV01)
                ==> t@ == self@[PricingMetric::PV01].dom(),
            !self@.contains_key(PricingMetric::PV) && !self@.contains_key(PricingMetric::PV01)
                && self@.contains_key(PricingMetric::PnL) ==> t@ == self@[PricingMetric::PnL].dom(),
            self@.dom() == Set::<PricingMetric>::empty() ==> t@ == Set::<Seq<char>>::empty(),
    {
        if let Some(p) = &self.pv {
            assert(self@.contains_key(PricingMetric::PV));
            return p.trade_ids();
        }
        if let Some(p) = &self.pv01 {
            assert(self@.contains_key(PricingMetric::PV01));
            return p.trade_ids();
        }
        if let Some(p) = &self.pnl {
            assert(self@.contains_key(PricingMetric::PnL));
            return p.trade_ids();
        }
        assert(!self@.dom().contains(PricingMetric::PV));
        TradeSet::new()
    }

    /// Whether `self` is within `other` (see `pm_within`).
    pub fn within(&self, other: &PmPortfolio<V>) -> (b: bool)
        requires
            self.wf(),
            other.wf(),
        ensures
            b == pm_within(self@, other@),
    {
        let r = self.metric_within(other, PricingMetric::PV) && self.metric_within(other, PricingMetric::PV01)
            && self.metric_within(other, PricingMetric::PnL);
        proof {
            if r {
                assert forall|m: PricingMetric| #[trigger] self@.contains_key(m) implies other@.contains_key(m)
                    && self@[m].dom().subset_of(other@[m].dom()) by {
                    match m { PricingMetric::PV => {}, PricingMetric::PV01 => {}, PricingMetric::PnL => {} }
                }
            }
        }
        r
    }

    fn metric_within(&self, other: &PmPortfolio<V>, m: PricingMetric) -> (b: bool)
        requires
            self.wf(),
            other.wf(),
        ensures
            b == (self@.contains_key(m) ==> other@.contains_key(m) && self@[m].dom().subset_of(other@[m].dom())),
    {
        match self.get(m) {
            None => true,
            Some(p) => match other.get(m) {
                None => false,
                Some(q) => p.keys_within(q),
            },
        }
    }

    /// Orders two metric portfolios (see `pm_order`): used to decide whether
    /// a proposed portfolio is ahead of the one held.
    pub fn partial_cmp(&self, other: &PmPortfolio<V>) -> (r: Option<std::cmp::Ordering>)
        requires
            self.wf(),
            other.wf(),
        ensures
            r == pm_order(self@, other@),
    {
        if self.within(other) {
            Some(std::cmp::Ordering::Less)
        } else if other.within(self) {
            Some(std::cmp::Ordering::Greater)
        } else {
            None
        }
    }

    /// A copy.
    pub fn duplicate(&self) -> (c: PmPortfolio<V>)
        requires
            self.wf(),
        ensures
            c.wf(),
            c@ == self@,
    {
        let mut c = PmPortfolio::new();
        c.assign(self);
        assert(c@ =~= self@);
        c
    }

    fn sync_metric(&mut self, m: PricingMetric, wanted: bool)
        requires
            old(self).wf(),
        ensures
            final(self).wf(),
            wanted && old(self)@.contains_key(m) ==> final(self)@ == old(self)@,
            wanted && !old(self)@.contains_key(m) ==> final(self)@ == old(self)@.insert(m, Map::<Seq<char>, V>::empty()),
            !wanted ==> final(self)@ == old(self)@.remove(m),
    {
        if !wanted {
            let _ = self.take(m);
        } else if !self.contains_metric(m) {
            self.insert(m, PortfolioType::new());
        }
    }
}

/// Whether `m` occurs in `ms`.
pub fn metric_listed(ms: &Vec<PricingMetric>, m: PricingMetric) -> (b: bool)
    ensures
        b == ms@.contains(m),
{
    let n = ms.len();
    for i in 0..n
        invariant
            n == ms@.len(),
            forall|j: int| 0 <= j < i ==> ms@[j] != m,
    {
        if ms[i] == m {
            return true;
        }
    }
    false
}

/// Brings a metric portfolio in line with a new list of metrics: metrics on
/// the list that are held keep their portfolio, metrics no longer on the list
/// are dropped, and metrics new on the list start with an empty portfolio.
pub fn change_metrics<V: Copy>(present_pm: &mut PmPortfolio<V>, new_metrics: &Vec<PricingMetric>)
    requires
        old(present_pm).wf(),
    ensures
        final(present_pm).wf(),
        final(present_pm)@.dom() == new_metrics@.to_set(),
        forall|m: PricingMetric| #[trigger] final(present_pm)@.contains_key(m) && old(present_pm)@.contains_key(m)
            ==> final(present_pm)@[m] == old(present_pm)@[m],
        forall|m: PricingMetric| #[trigger] final(present_pm)@.contains_key(m) && !old(present_pm)@.contains_key(m)
            ==> final(present_pm)@[m] == Map::<Seq<char>, V>::empty(),
{
    let w_pv = metric_listed(new_metrics, PricingMetric::PV);
    let w_pv01 = metric_listed(new_metrics, PricingMetric::PV01);
    let w_pnl = metric_listed(new_metrics, PricingMetric::PnL);
    present_pm.sync_metric(PricingMetric::PV, w_pv);
    present_pm.sync_metric(PricingMetric::PV01, w_pv01);
    present_pm.sync_metric(PricingMetric::PnL, w_pnl);
    assert(present_pm@.dom() =~= new_metrics@.to_set()) by {
        assert forall|m: PricingMetric| #![auto] present_pm@.contains_key(m) == new_metrics@.contains(m) by {
            match m { PricingMetric::PV => {}, PricingMetric::PV01 => {}, PricingMetric::PnL => {} }
        }
    }
    assert forall|m: PricingMetric| #[trigger] present_pm@.contains_key(m) && old(present_pm)@.contains_key(m)
        implies present_pm@[m] == old(present_pm)@[m] by {
        match m { PricingMetric::PV => {}, PricingMetric::PV01 => {}, PricingMetric::PnL => {} }
    }
    assert forall|m: PricingMetric| #[trigger] present_pm@.contains_key(m) && !old(present_pm)@.contains_key(m)
        implies present_pm@[m] == Map::<Seq<char>, V>::empty() by {
        match m { PricingMetric::PV => {}, PricingMetric::PV01 => {}, PricingMetric::PnL => {} }
    }
}

} // verus!
