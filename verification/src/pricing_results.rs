//! Pricing results: PV01 exposures per trade, and the result of pricing a
//! trade or a portfolio for one metric.
use vstd::prelude::*;
use crate::metric::PricingMetric;
use crate::portfolio::{is_mapped, is_merge, is_scaled_by, is_union_with, pairs_to_map, PortfolioType};
use crate::strmap::StrMap;
use crate::trade::AggregatedTrades;

verus! {

/// `chain` records the running totals of adding the portfolios `ps` one after
/// the other to `start`: it begins at `start` and each step adds one portfolio.
pub open spec fn is_sum_chain<V, F: Fn(V, V) -> V>(
    start: Map<Seq<char>, V>,
    ps: Seq<Map<Seq<char>, V>>,
    combine: F,
    chain: Seq<Map<Seq<char>, V>>,
) -> bool {
    &&& chain.len() == ps.len() + 1
    &&& chain[0] == start
    &&& forall|i: int| 0 <= i < ps.len() ==> #[trigger] is_union_with(chain[i], ps[i], combine, chain[i + 1])
}

/// `r` is what adding the portfolios `ps` one after the other to `start`
/// gives, with `combine` adding two values.
pub open spec fn is_sum_of<V, F: Fn(V, V) -> V>(
    start: Map<Seq<char>, V>,
    ps: Seq<Map<Seq<char>, V>>,
    combine: F,
    r: Map<Seq<char>, V>,
) -> bool {
    exists|chain: Seq<Map<Seq<char>, V>>| #[trigger] is_sum_chain(start, ps, combine, chain) && chain.last() == r
}

/// `chain` records the running results of subtracting the portfolios `ps`
/// one after the other from `start`.
pub open spec fn is_difference_chain<V, F: Fn(V, V) -> V, G: Fn(V) -> V>(
    start: Map<Seq<char>, V>,
    ps: Seq<Map<Seq<char>, V>>,
    sub: F,
    neg: G,
    chain: Seq<Map<Seq<char>, V>>,
) -> bool {
    &&& chain.len() == ps.len() + 1
    &&& chain[0] == start
    &&& forall|i: int| 0 <= i < ps.len() ==> #[trigger] is_merge(chain[i], ps[i], sub, neg, chain[i + 1])
}

/// `r` is what subtracting the portfolios `ps` one after the other from
/// `start` gives.
pub open spec fn is_difference_of<V, F: Fn(V, V) -> V, G: Fn(V) -> V>(
    start: Map<Seq<char>, V>,
    ps: Seq<Map<Seq<char>, V>>,
    sub: F,
    neg: G,
    r: Map<Seq<char>, V>,
) -> bool {
    exists|chain: Seq<Map<Seq<char>, V>>| #[trigger] is_difference_chain(start, ps, sub, neg, chain) && chain.last() == r
}

/// Adding nothing leaves the start.
pub proof fn lemma_sum_empty<V, F: Fn(V, V) -> V>(start: Map<Seq<char>, V>, combine: F)
    ensures
        is_sum_of(start, Seq::empty(), combine, start),
{
    assert(is_sum_chain(start, Seq::empty(), combine, seq![start]));
}

/// Subtracting nothing leaves the start.
pub proof fn lemma_difference_empty<V, F: Fn(V, V) -> V, G: Fn(V) -> V>(start: Map<Seq<char>, V>, sub: F, neg: G)
    ensures
        is_difference_of(start, Seq::empty(), sub, neg, start),
{
    assert(is_difference_chain(start, Seq::empty(), sub, neg, seq![start]));
}

/// One more portfolio added to a sum.
pub proof fn lemma_sum_step<V, F: Fn(V, V) -> V>(
    start: Map<Seq<char>, V>,
    ps: Seq<Map<Seq<char>, V>>,
    combine: F,
    m: Map<Seq<char>, V>,
    r: Map<Seq<char>, V>,
)
    requires
        ps.len() > 0,
        is_sum_of(start, ps.drop_last(), combine, m),
        is_union_with(m, ps.last(), combine, r),
    ensures
        is_sum_of(start, ps, combine, r),
{
    let chain = choose|chain: Seq<Map<Seq<char>, V>>| #[trigger] is_sum_chain(start, ps.drop_last(), combine, chain) && chain.last() == m;
    let c2 = chain.push(r);
    assert forall|i: int| 0 <= i < ps.len() implies #[trigger] is_union_with(c2[i], ps[i], combine, c2[i + 1]) by {
        if i < ps.len() - 1 {
            assert(ps.drop_last()[i] == ps[i]);
            assert(is_union_with(chain[i], ps.drop_last()[i], combine, chain[i + 1]));
        } else {
            assert(c2[i] == m);
        }
    }
    assert(is_sum_chain(start, ps, combine, c2));
}

/// One more portfolio subtracted.
pub proof fn lemma_difference_step<V, F: Fn(V, V) -> V, G: Fn(V) -> V>(
    start: Map<Seq<char>, V>,
    ps: Seq<Map<Seq<char>, V>>,
    sub: F,
    neg: G,
    m: Map<Seq<char>, V>,
    r: Map<Seq<char>, V>,
)
    requires
        ps.len() > 0,
        is_difference_of(start, ps.drop_last(), sub, neg, m),
        is_merge(m, ps.last(), sub, neg, r),
    ensures
        is_difference_of(start, ps, sub, neg, r),
{
    let chain = choose|chain: Seq<Map<Seq<char>, V>>| #[trigger] is_difference_chain(start, ps.drop_last(), sub, neg, chain) && chain.last() == m;
    let c2 = chain.push(r);
    assert forall|i: int| 0 <= i < ps.len() implies #[trigger] is_merge(c2[i], ps[i], sub, neg, c2[i + 1]) by {
        if i < ps.len() - 1 {
            assert(ps.drop_last()[i] == ps[i]);
            assert(is_merge(chain[i], ps.drop_last()[i], sub, neg, chain[i + 1]));
        } else {
            assert(c2[i] == m);
        }
    }
    assert(is_difference_chain(start, ps, sub, neg, c2));
}

/// PV01 exposures: for each trade, its exposure to each risk factor.
pub struct PV01Results<V> {
    trades: StrMap<PortfolioType<V>>,
}

impl<V> View for PV01Results<V> {
    type V = Map<Seq<char>, Map<Seq<char>, V>>;

    closed spec fn view(&self) -> Map<Seq<char>, Map<Seq<char>, V>> {
        self.trades@.map_values(|p: PortfolioType<V>| p@)
    }
}

impl<V: Copy> PV01Results<V> {
    pub closed spec fn wf(&self) -> bool {
        &&& self.trades.wf()
        &&& forall|k: Seq<char>| #[trigger] self.trades@.contains_key(k) ==> self.trades@[k].wf()
    }

    /// The exposures of each trade, in the order in which they are enumerated.
    pub closed spec fn exposure_seq(&self) -> Seq<Map<Seq<char>, V>> {
        self.trades.key_seq().map_values(|k: Seq<char>| self@[k])
    }

    /// The trades in the order in which their exposures are enumerated.
    pub closed spec fn key_seq(&self) -> Seq<Seq<char>> {
        self.trades.key_seq()
    }

    /// The exposures are enumerated once for each trade held: the order lists
    /// every trade once, and the exposures follow it.
    pub proof fn lemma_exposure_seq(&self)
        requires
            self.wf(),
        ensures
            self.key_seq().no_duplicates(),
            self.key_seq().to_set() == self@.dom(),
            self@.dom().len() == self.key_seq().len(),
            self.exposure_seq() == self.key_seq().map_values(|k: Seq<char>| self@[k]),
    {
        self.trades.lemma_key_seq();
        assert(self@.dom() =~= self.trades@.dom());
    }

    pub fn new() -> (r: Self)
        ensures
            r.wf(),
            r@ == Map::<Seq<char>, Map<Seq<char>, V>>::empty(),
    {
        let r = PV01Results { trades: StrMap::new() };
        assert(r@ =~= Map::<Seq<char>, Map<Seq<char>, V>>::empty());
        r
    }

    pub fn len(&self) -> (n: usize)
        requires
            self.wf(),
        ensures
            n == self@.dom().len(),
    {
        proof { assert(self@.dom() =~= self.trades@.dom()); }
        self.trades.len()
    }

    /// Sets the exposures of trade `trade_id`.
    pub fn insert(&mut self, trade_id: String, exposures: PortfolioType<V>)
        requires
            old(self).wf(),
            exposures.wf(),
        ensures
            final(self).wf(),
            final(self)@ == old(self)@.insert(trade_id@, exposures@),
    {
        self.trades.insert(trade_id, exposures);
        assert(self@ =~= old(self)@.insert(trade_id@, exposures@));
    }

    /// The exposures of trade `trade_id`, if held.
    pub fn get(&self, trade_id: &String) -> (r: Option<&PortfolioType<V>>)
        requires
            self.wf(),
        ensures
            (r is Some) == self@.contains_key(trade_id@),
            r matches Some(p) ==> p.wf() && p@ == self@[trade_id@],
    {
        self.trades.get(trade_id)
    }

    /// Adds, for every trade held, the exposures that `rhs` has for the same
    /// trade; trades that `rhs` lacks are left as they are, and trades only in
    /// `rhs` are not added.
    pub fn add_assign_with<F: Fn(V, V) -> V>(&mut self, rhs: &PV01Results<V>, combine: &F)
        requires
            old(self).wf(),
            rhs.wf(),
            forall|a: V, b: V| combine.requires((a, b)),
        ensures
            final(self).wf(),
            final(self)@.dom() == old(self)@.dom(),
            forall|k: Seq<char>| #[trigger] final(self)@.contains_key(k) && !rhs@.contains_key(k) ==> final(self)@[k] == old(self)@[k],
            forall|k: Seq<char>| #[trigger] final(self)@.contains_key(k) && rhs@.contains_key(k)
                ==> is_union_with(old(self)@[k], rhs@[k], *combine, final(self)@[k]),
    {
        let ghost a = self@;
        let n = self.trades.len();
        proof { self.trades.lemma_key_seq(); }
        for i in 0..n
            invariant
                n == self.trades.key_seq().len(),
                self.wf(),
                rhs.wf(),
                forall|x: V, y: V| combine.requires((x, y)),
                self.trades.key_seq().no_duplicates(),
                self.trades.key_seq().to_set() == a.dom(),
                self@.dom() == a.dom(),
                forall|k: Seq<char>| #[trigger] self@.contains_key(k) && (!rhs@.contains_key(k)
                    || !self.trades.key_seq().take(i as int).to_set().contains(k)) ==> self@[k] == a[k],
                forall|k: Seq<char>| #[trigger] self@.contains_key(k) && rhs@.contains_key(k)
                    && self.trades.key_seq().take(i as int).to_set().contains(k)
                    ==> is_union_with(a[k], rhs@[k], *combine, self@[k]),
        {
            let ghost ks = self.trades.key_seq();
            let k = self.trades.key_at(i).clone();
            match rhs.trades.get(&k) {
                Some(q) => {
                    let mut p = self.trades.value_at(i).duplicate();
                    p.add_assign_with(q, combine);
                    self.trades.insert(k, p);
                },
                None => {},
            }
            proof {
                assert(self.trades.key_seq() == ks);
                assert(ks.take(i + 1) =~= ks.take(i as int).push(ks[i as int]));
                ks.take(i as int).lemma_push_to_set_commute(ks[i as int]);
                assert(self@.dom() =~= a.dom());
            }
        }
        proof {
            assert(self.trades.key_seq().take(n as int) =~= self.trades.key_seq());
        }
        assert forall|k: Seq<char>| #[trigger] self@.contains_key(k) && rhs@.contains_key(k)
            implies is_union_with(a[k], rhs@[k], *combine, self@[k]) by {
            assert(self.trades.key_seq().to_set().contains(k));
        }
    }

    /// Multiplies, for every trade that has a position, all its exposures by
    /// that position (`f` does the multiplication); other trades are unchanged.
    pub fn scale_by_positions<F: Fn(V, i64) -> V>(&mut self, positions: &AggregatedTrades, f: &F)
        requires
            old(self).wf(),
            positions.wf(),
            forall|a: V, w: i64| f.requires((a, w)),
        ensures
            final(self).wf(),
            final(self)@.dom() == old(self)@.dom(),
            forall|k: Seq<char>| #[trigger] final(self)@.contains_key(k) && !positions@.contains_key(k) ==> final(self)@[k] == old(self)@[k],
            forall|k: Seq<char>| #[trigger] final(self)@.contains_key(k) && positions@.contains_key(k)
                ==> final(self)@[k].dom() == old(self)@[k].dom()
                && forall|t: Seq<char>| #[trigger] final(self)@[k].contains_key(t)
                    ==> call_ensures(*f, (old(self)@[k][t], positions@[k]), final(self)@[k][t]),
    {
        let ghost a = self@;
        let pos = positions.positions();
        let n = self.trades.len();
        proof { self.trades.lemma_key_seq(); }
        for i in 0..n
            invariant
                n == self.trades.key_seq().len(),
                self.wf(),
                pos.wf(),
                pos@ == positions@,
                forall|x: V, w: i64| f.requires((x, w)),
                self.trades.key_seq().no_duplicates(),
                self.trades.key_seq().to_set() == a.dom(),
                self@.dom() == a.dom(),
                forall|k: Seq<char>| #[trigger] self@.contains_key(k) && (!pos@.contains_key(k)
                    || !self.trades.key_seq().take(i as int).to_set().contains(k)) ==> self@[k] == a[k],
                forall|k: Seq<char>| #[trigger] self@.contains_key(k) && pos@.contains_key(k)
                    && self.trades.key_seq().take(i as int).to_set().contains(k)
                    ==> self@[k].dom() == a[k].dom() && forall|t: Seq<char>| #[trigger] self@[k].contains_key(t)
                        ==> call_ensures(*f, (a[k][t], pos@[k]), self@[k][t]),
        {
            let ghost ks = self.trades.key_seq();
            let k = self.trades.key_at(i).clone();
            match pos.get(&k) {
                Some(w) => {
                    let w = *w;
                    let g = |v: V| -> (r: V)
                        requires f.requires((v, w)),
                        ensures call_ensures(*f, (v, w), r),
                    { f(v, w) };
                    let p = self.trades.value_at(i).map_values_with(&g);
                    self.trades.insert(k, p);
                },
                None => {},
            }
            proof {
                assert(self.trades.key_seq() == ks);
                assert(ks.take(i + 1) =~= ks.take(i as int).push(ks[i as int]));
                ks.take(i as int).lemma_push_to_set_commute(ks[i as int]);
                assert(self@.dom() =~= a.dom());
            }
        }
        proof {
            assert(self.trades.key_seq().take(n as int) =~= self.trades.key_seq());
        }
        assert forall|k: Seq<char>| #[trigger] self@.contains_key(k) && positions@.contains_key(k)
            implies self@[k].dom() == a[k].dom() && forall|t: Seq<char>| #[trigger] self@[k].contains_key(t)
                ==> call_ensures(*f, (a[k][t], positions@[k]), self@[k][t]) by {
            assert(self.trades.key_seq().to_set().contains(k));
        }
    }

    /// All exposures transformed by `f` (negation, or multiplication by a constant).
    pub fn map_values_with<F: Fn(V) -> V>(&self, f: &F) -> (r: Self)
        requires
            self.wf(),
            forall|a: V| f.requires((a,)),
        ensures
            r.wf(),
            r@.dom() == self@.dom(),
            forall|k: Seq<char>| #[trigger] r@.contains_key(k) ==> is_mapped(self@[k], *f, r@[k]),
    {
        let mut r = PV01Results::new();
        let n = self.trades.len();
        proof { self.trades.lemma_key_seq(); }
        for i in 0..n
            invariant
                n == self.trades.key_seq().len(),
                self.wf(),
                forall|x: V| f.requires((x,)),
                self.trades.key_seq().no_duplicates(),
                self.trades.key_seq().to_set() == self@.dom(),
                r.wf(),
                r@.dom() == self.trades.key_seq().take(i as int).to_set(),
                forall|k: Seq<char>| #[trigger] r@.contains_key(k) ==> is_mapped(self@[k], *f, r@[k]),
        {
            let k = self.trades.key_at(i).clone();
            let p = self.trades.value_at(i).map_values_with(f);
            r.insert(k, p);
            proof {
                let ks = self.trades.key_seq();
                assert(ks.take(i + 1) =~= ks.take(i as int).push(ks[i as int]));
                ks.take(i as int).lemma_push_to_set_commute(ks[i as int]);
                assert(r@.dom() =~= ks.take(i + 1).to_set());
            }
        }
        proof {
            assert(self.trades.key_seq().take(n as int) =~= self.trades.key_seq());
        }
        r
    }

    /// Adds the exposures of all trades into `into`, one trade after the other
    /// in enumeration order.
    pub fn add_into<F: Fn(V, V) -> V>(&self, into: &mut PortfolioType<V>, combine: &F)
        requires
            self.wf(),
            old(into).wf(),
            forall|a: V, b: V| combine.requires((a, b)),
        ensures
            final(into).wf(),
            is_sum_of(old(into)@, self.exposure_seq(), *combine, final(into)@),
    {
        let ghost start = into@;
        proof {
            lemma_sum_empty(start, *combine);
            assert(self.exposure_seq().take(0) =~= Seq::<Map<Seq<char>, V>>::empty());
        }
        let n = self.trades.len();
        proof { self.trades.lemma_key_seq(); }
        for i in 0..n
            invariant
                n == self.trades.key_seq().len(),
                self.wf(),
                forall|x: V, y: V| combine.requires((x, y)),
                into.wf(),
                is_sum_of(start, self.exposure_seq().take(i as int), *combine, into@),
        {
            let ghost before = into@;
            let kk = self.trades.key_at(i);
            let p = self.trades.value_at(i);
            assert(self.trades@.contains_key(kk@));
            assert(p.wf());
            into.add_assign_with(p, combine);
            proof {
                let es = self.exposure_seq();
                assert(es.take(i + 1).drop_last() =~= es.take(i as int));
                assert(es.take(i + 1).last() == self@[self.trades.key_seq()[i as int]]);
                assert(es.take(i + 1).last() == p@);
                assert(is_sum_of(start, es.take(i + 1).drop_last(), *combine, before));
                assert(es.take(i + 1).len() > 0);
                assert(is_union_with(before, es.take(i + 1).last(), *combine, into@));
                lemma_sum_step(start, es.take(i + 1), *combine, before, into@);
            }
        }
        assert(self.exposure_seq().take(n as int) =~= self.exposure_seq());
    }

    /// Subtracts the exposures of all trades from `from`, one trade after the
    /// other in enumeration order.
    pub fn sub_from<F: Fn(V, V) -> V, G: Fn(V) -> V>(&self, from: &mut PortfolioType<V>, sub: &F, neg: &G)
        requires
            self.wf(),
            old(from).wf(),
            forall|a: V, b: V| sub.requires((a, b)),
            forall|b: V| neg.requires((b,)),
        ensures
            final(from).wf(),
            is_difference_of(old(from)@, self.exposure_seq(), *sub, *neg, final(from)@),
    {
        let ghost start = from@;
        proof {
            lemma_difference_empty(start, *sub, *neg);
            assert(self.exposure_seq().take(0) =~= Seq::<Map<Seq<char>, V>>::empty());
        }
        let n = self.trades.len();
        proof { self.trades.lemma_key_seq(); }
        for i in 0..n
            invariant
                n == self.trades.key_seq().len(),
                self.wf(),
                forall|x: V, y: V| sub.requires((x, y)),
                forall|y: V| neg.requires((y,)),
                from.wf(),
                is_difference_of(start, self.exposure_seq().take(i as int), *sub, *neg, from@),
        {
            let ghost before = from@;
            let kk = self.trades.key_at(i);
            let p = self.trades.value_at(i);
            assert(self.trades@.contains_key(kk@));
            assert(p.wf());
            from.sub_assign_with(p, sub, neg);
            proof {
                let es = self.exposure_seq();
                assert(es.take(i + 1).drop_last() =~= es.take(i as int));
                assert(es.take(i + 1).last() == self@[self.trades.key_seq()[i as int]]);
                assert(es.take(i + 1).last() == p@);
                assert(is_difference_of(start, es.take(i + 1).drop_last(), *sub, *neg, before));
                assert(es.take(i + 1).len() > 0);
                assert(is_merge(before, es.take(i + 1).last(), *sub, *neg, from@));
                lemma_difference_step(start, es.take(i + 1), *sub, *neg, before, from@);
            }
        }
        assert(self.exposure_seq().take(n as int) =~= self.exposure_seq());
    }

    /// The exposures summed over all trades, irrespective of trade.
    pub fn aggregate<F: Fn(V, V) -> V>(&self, combine: &F) -> (r: PortfolioType<V>)
        requires
            self.wf(),
            forall|a: V, b: V| combine.requires((a, b)),
        ensures
            r.wf(),
            is_sum_of(Map::empty(), self.exposure_seq(), *combine, r@),
    {
        let mut r = PortfolioType::new();
        self.add_into(&mut r, combine);
        r
    }

    /// A copy.
    pub fn duplicate(&self) -> (c: Self)
        requires
            self.wf(),
        ensures
            c.wf(),
            c@ == self@,
    {
        let mut c = PV01Results::new();
        let n = self.trades.len();
        proof { self.trades.lemma_key_seq(); }
        for i in 0..n
            invariant
                n == self.trades.key_seq().len(),
                self.wf(),
                self.trades.key_seq().no_duplicates(),
                self.trades.key_seq().to_set() == self@.dom(),
                c.wf(),
                c@ == self@.restrict(self.trades.key_seq().take(i as int).to_set()),
        {
            let k = self.trades.key_at(i).clone();
            let p = self.trades.value_at(i).duplicate();
            c.insert(k, p);
            proof {
                let ks = self.trades.key_seq();
                assert(ks.take(i + 1) =~= ks.take(i as int).push(ks[i as int]));
                ks.take(i as int).lemma_push_to_set_commute(ks[i as int]);
                assert(c@ =~= self@.restrict(ks.take(i + 1).to_set()));
            }
        }
        assert(self.trades.key_seq().take(n as int) =~= self.trades.key_seq());
        assert(c@ =~= self@);
        c
    }
}

/// The result of pricing for one metric.
pub enum PricingResults<V> {
    PV(PortfolioType<V>),
    PV01(PV01Results<V>),
    PnL(PortfolioType<V>),
}

impl<V: Copy> PricingResults<V> {
    pub open spec fn wf(&self) -> bool {
        match self {
            PricingResults::PV(p) => p.wf(),
            PricingResults::PV01(p) => p.wf(),
            PricingResults::PnL(p) => p.wf(),
        }
    }

    /// The metric of the result.
    pub open spec fn spec_metric(&self) -> PricingMetric {
        match self {
            PricingResults::PV(_) => PricingMetric::PV,
            PricingResults::PV01(_) => PricingMetric::PV01,
            PricingResults::PnL(_) => PricingMetric::PnL,
        }
    }

    /// An empty result for `metric`.
    pub fn new(metric: PricingMetric) -> (r: Self)
        ensures
            r.wf(),
            r.spec_metric() == metric,
            match r {
                PricingResults::PV(p) => p@ == Map::<Seq<char>, V>::empty(),
                PricingResults::PV01(p) => p@ == Map::<Seq<char>, Map<Seq<char>, V>>::empty(),
                PricingResults::PnL(p) => p@ == Map::<Seq<char>, V>::empty(),
            },
    {
        match metric {
            PricingMetric::PV => PricingResults::PV(PortfolioType::new()),
            PricingMetric::PV01 => PricingResults::PV01(PV01Results::new()),
            PricingMetric::PnL => PricingResults::PnL(PortfolioType::new()),
        }
    }

    /// The result as one portfolio: a PV or PnL portfolio as it is, PV01
    /// exposures summed over the trades.
    pub fn aggregate<F: Fn(V, V) -> V>(&self, combine: &F) -> (r: PortfolioType<V>)
        requires
            self.wf(),
            forall|a: V, b: V| combine.requires((a, b)),
        ensures
            r.wf(),
            match self {
                PricingResults::PV(p) => r@ == p@,
                PricingResults::PV01(p) => is_sum_of(Map::empty(), p.exposure_seq(), *combine, r@),
                PricingResults::PnL(p) => r@ == p@,
            },
    {
        match self {
            PricingResults::PV(p) => p.duplicate(),
            PricingResults::PV01(p) => p.aggregate(combine),
            PricingResults::PnL(p) => p.duplicate(),
        }
    }

    /// Every value transformed by `f` (negation, or multiplication by a constant).
    pub fn map_values_with<F: Fn(V) -> V>(&self, f: &F) -> (r: Self)
        requires
            self.wf(),
            forall|a: V| f.requires((a,)),
        ensures
            r.wf(),
            r.spec_metric() == self.spec_metric(),
            match (self, r) {
                (PricingResults::PV(p), PricingResults::PV(q)) => is_mapped(p@, *f, q@),
                (PricingResults::PnL(p), PricingResults::PnL(q)) => is_mapped(p@, *f, q@),
                (PricingResults::PV01(p), PricingResults::PV01(q)) => q@.dom() == p@.dom()
                    && forall|k: Seq<char>| #[trigger] q@.contains_key(k) ==> is_mapped(p@[k], *f, q@[k]),
                _ => false,
            },
    {
        match self {
            PricingResults::PV(p) => PricingResults::PV(p.map_values_with(f)),
            PricingResults::PV01(p) => PricingResults::PV01(p.map_values_with(f)),
            PricingResults::PnL(p) => PricingResults::PnL(p.map_values_with(f)),
        }
    }

    /// Multiplies the results of each trade by its position (`f` does the
    /// multiplication); trades without a position are left as they are.
    pub fn scale_by_positions<F: Fn(V, i64) -> V>(&mut self, positions: &AggregatedTrades, f: &F)
        requires
            old(self).wf(),
            positions.wf(),
            forall|a: V, w: i64| f.requires((a, w)),
        ensures
            final(self).wf(),
            final(self).spec_metric() == old(self).spec_metric(),
            match (*old(self), *final(self)) {
                (PricingResults::PV(p), PricingResults::PV(q)) => is_scaled_by(p@, positions@, *f, q@),
                (PricingResults::PnL(p), PricingResults::PnL(q)) => is_scaled_by(p@, positions@, *f, q@),
                (PricingResults::PV01(p), PricingResults::PV01(q)) => q@.dom() == p@.dom()
                    && (forall|k: Seq<char>| #[trigger] q@.contains_key(k) && !positions@.contains_key(k) ==> q@[k] == p@[k])
                    && (forall|k: Seq<char>| #[trigger] q@.contains_key(k) && positions@.contains_key(k)
                        ==> q@[k].dom() == p@[k].dom() && forall|t: Seq<char>| #[trigger] q@[k].contains_key(t)
                            ==> call_ensures(*f, (p@[k][t], positions@[k]), q@[k][t])),
                _ => false,
            },
    {
        match self {
            PricingResults::PV(p) => p.scale_by(positions.positions(), f),
            PricingResults::PV01(p) => p.scale_by_positions(positions, f),
            PricingResults::PnL(p) => p.scale_by(positions.positions(), f),
        }
    }
}

/// Adds a pricing result into a portfolio: a PV result is added as it is,
/// PV01 exposures are added trade by trade. (A PnL result is not handled.)
pub fn add_results<V: Copy, F: Fn(V, V) -> V>(portfolio: &mut PortfolioType<V>, results: &PricingResults<V>, combine: &F)
    requires
        old(portfolio).wf(),
        results.wf(),
        !(results is PnL),
        forall|a: V, b: V| combine.requires((a, b)),
    ensures
        final(portfolio).wf(),
        match results {
            PricingResults::PV(p) => is_union_with(old(portfolio)@, p@, *combine, final(portfolio)@),
            PricingResults::PV01(p) => is_sum_of(old(portfolio)@, p.exposure_seq(), *combine, final(portfolio)@),
            PricingResults::PnL(_) => false,
        },
{
    match results {
        PricingResults::PV(p) => portfolio.add_assign_with(p, combine),
        PricingResults::PV01(p) => p.add_into(portfolio, combine),
        PricingResults::PnL(_) => {},
    }
}

/// Subtracts a pricing result from a portfolio: PV and PnL results as they
/// are, PV01 exposures trade by trade.
pub fn sub_results<V: Copy, F: Fn(V, V) -> V, G: Fn(V) -> V>(
    portfolio: &mut PortfolioType<V>,
    results: &PricingResults<V>,
    sub: &F,
    neg: &G,
)
    requires
        old(portfolio).wf(),
        results.wf(),
        forall|a: V, b: V| sub.requires((a, b)),
        forall|b: V| neg.requires((b,)),
    ensures
        final(portfolio).wf(),
        match results {
            PricingResults::PV(p) => is_merge(old(portfolio)@, p@, *sub, *neg, final(portfolio)@),
            PricingResults::PV01(p) => is_difference_of(old(portfolio)@, p.exposure_seq(), *sub, *neg, final(portfolio)@),
            PricingResults::PnL(p) => is_merge(old(portfolio)@, p@, *sub, *neg, final(portfolio)@),
        },
{
    match results {
        PricingResults::PV(p) => portfolio.sub_assign_with(p, sub, neg),
        PricingResults::PV01(p) => p.sub_from(portfolio, sub, neg),
        PricingResults::PnL(p) => portfolio.sub_assign_with(p, sub, neg),
    }
}

/// The exposures built by setting, one after the other, each trade's
/// exposures from its (factor, value) pairs (a later trade replaces an
/// earlier one with the same id).
pub open spec fn nested_to_map<V>(pairs: Seq<(String, Vec<(String, V)>)>) -> Map<Seq<char>, Map<Seq<char>, V>>
    decreases pairs.len(),
{
    if pairs.len() == 0 {
        Map::empty()
    } else {
        nested_to_map(pairs.drop_last()).insert(pairs.last().0@, pairs_to_map(pairs.last().1@))
    }
}

/// The PV result of a pricing answer: the answer's trade values, or an
/// empty portfolio when the answer could not be read.
pub fn pv_results<V: Copy>(answer: Option<Vec<(String, V)>>) -> (r: PricingResults<V>)
    ensures
        r.wf(),
        match r {
            PricingResults::PV(p) => match answer {
                Some(pairs) => p@ == pairs_to_map(pairs@),
                None => p@ == Map::<Seq<char>, V>::empty(),
            },
            _ => false,
        },
{
    match answer {
        Some(pairs) => PricingResults::PV(PortfolioType::from_pairs(pairs)),
        None => PricingResults::PV(PortfolioType::new()),
    }
}

/// The PV01 result of a pricing answer: each trade's exposures, or no
/// exposures when the answer could not be read.
pub fn pv01_results<V: Copy>(answer: Option<Vec<(String, Vec<(String, V)>)>>) -> (r: PricingResults<V>)
    ensures
        r.wf(),
        match r {
            PricingResults::PV01(p) => match answer {
                Some(pairs) => p@ == nested_to_map(pairs@),
                None => p@ == Map::<Seq<char>, Map<Seq<char>, V>>::empty(),
            },
            _ => false,
        },
{
    match answer {
        Some(pairs) => {
            let mut pv01 = PV01Results::new();
            let n = pairs.len();
            for i in 0..n
                invariant
                    n == pairs@.len(),
                    pv01.wf(),
                    pv01@ == nested_to_map(pairs@.take(i as int)),
            {
                let trade_id = pairs[i].0.clone();
                let mut inner: Vec<(String, V)> = Vec::new();
                let m = pairs[i].1.len();
                for j in 0..m
                    invariant
                        i < pairs@.len(),
                        m == pairs@[i as int].1@.len(),
                        inner@ == pairs@[i as int].1@.take(j as int),
                {
                    inner.push((pairs[i].1[j].0.clone(), pairs[i].1[j].1));
                    proof {
                        assert(inner@ =~= pairs@[i as int].1@.take(j + 1)) by {
                            assert forall|k: int| 0 <= k < j + 1 implies inner@[k] == pairs@[i as int].1@.take(j + 1)[k] by {
                                if k == j {
                                    assert(inner@[k].0 == pairs@[i as int].1@[k].0);
                                }
                            }
                        }
                    }
                }
                proof {
                    assert(pairs@[i as int].1@.take(m as int) =~= pairs@[i as int].1@);
                }
                pv01.insert(trade_id, PortfolioType::from_pairs(inner));
                proof {
                    assert(pairs@.take(i + 1).drop_last() =~= pairs@.take(i as int));
                    assert(pairs@.take(i + 1).last() == pairs@[i as int]);
                }
            }
            proof {
                assert(pairs@.take(n as int) =~= pairs@);
            }
            PricingResults::PV01(pv01)
        },
        None => PricingResults::PV01(PV01Results::new()),
    }
}

/// The result of valuing one trade for PV or PnL: the trade's value under its
/// name, or an empty portfolio when it could not be valued.
pub fn single_value_result<V: Copy>(trade_name: String, value: Option<V>) -> (r: PricingResults<V>)
    ensures
        r.wf(),
        match r {
            PricingResults::PV(p) => match value {
                Some(v) => p@ == Map::<Seq<char>, V>::empty().insert(trade_name@, v),
                None => p@ == Map::<Seq<char>, V>::empty(),
            },
            _ => false,
        },
{
    match value {
        Some(v) => {
            let mut p = PortfolioType::new();
            p.insert(trade_name, v);
            PricingResults::PV(p)
        },
        None => PricingResults::PV(PortfolioType::new()),
    }
}

} // verus!
