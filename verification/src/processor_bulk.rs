//! The bulk processor: it reprices a batch of trades on one market for the
//! processor that asked, and sends back what it priced and which trades it
//! could not find.
//!
//! Pricing itself is done by the runtime; the functions here register the
//! market, sort out the trades that can be priced, and add up the prices.
use vstd::prelude::*;
use crate::all_markets::{markets_after_repoint, AllMarkets};
use crate::metric::PricingMetric;
use crate::pm_portfolio::PmPortfolio;
use crate::portfolio::{is_union_with, PortfolioType};
use crate::pricing_results::{is_sum_of, lemma_sum_empty, lemma_sum_step};
use crate::processor_msg::ProcessorMiddleMessage;
use crate::trade::TradeRep;
use crate::trade_set::TradeSet;

verus! {

/// How a batch is priced: one trade after the other, all at once on one
/// thread, or spread over tasks.
#[derive(Clone, Copy, Debug, PartialEq, Eq, Structural)]
pub enum PricingStyle {
    Sequential,
    ParallelSingleThread,
    Parallel,
}

/// The bulk processor of a processor is named after it, with `_bulk` added.
pub open spec fn bulk_name_of(processor_name: Seq<char>) -> Seq<char> {
    processor_name + "_bulk"@
}

/// The name of the bulk processor that serves `processor_name`.
pub fn bulk_processor_name(processor_name: &String) -> (name: String)
    ensures
        name@ == bulk_name_of(processor_name@),
{
    let mut name = processor_name.clone();
    name.append("_bulk");
    name
}

/// What to do with a bulk request.
pub enum BulkPlan<M> {
    /// The market is not held: nothing can be priced.
    Abandon,
    /// Price the trades found on this market; the others are listed as
    /// missing.
    Price(M, TradeSet),
}

/// The trades of `new_trades` that the registry does not hold.
pub fn missing_trades<TR: Clone>(new_trades: &TradeSet, all_trades: &TradeRep<TR>) -> (missing: TradeSet)
    requires
        new_trades.wf(),
        all_trades.wf(),
    ensures
        missing.wf(),
        missing@ == new_trades@.difference(all_trades@.dom()),
{
    let mut missing = TradeSet::new();
    let n = new_trades.len();
    proof { new_trades.lemma_id_seq(); }
    for i in 0..n
        invariant
            n == new_trades.id_seq().len(),
            new_trades.wf(),
            all_trades.wf(),
            new_trades.id_seq().to_set() == new_trades@,
            missing.wf(),
            missing@ == new_trades.id_seq().take(i as int).to_set().difference(all_trades@.dom()),
    {
        let id = new_trades.id_at(i);
        if !all_trades.contains(id) {
            missing.insert(id.clone());
        }
        proof {
            assert(new_trades.id_seq().take(i + 1) =~= new_trades.id_seq().take(i as int).push(
                new_trades.id_seq()[i as int],
            ));
            new_trades.id_seq().take(i as int).lemma_push_to_set_commute(new_trades.id_seq()[i as int]);
            assert(missing@ =~= new_trades.id_seq().take(i + 1).to_set().difference(all_trades@.dom()));
        }
    }
    assert(new_trades.id_seq().take(n as int) =~= new_trades.id_seq());
    missing
}

/// The answer to a bulk request whose market is not held: the trades asked
/// for, an empty portfolio, no missing trades, and the market.
pub fn abandoned_reply<V: Copy>(new_trades: TradeSet, market: String) -> (msg: ProcessorMiddleMessage<V>)
    requires
        new_trades.wf(),
    ensures
        msg matches ProcessorMiddleMessage::BulkReceive(t, p, o, m) && t.wf() && t@ == new_trades@ && p.wf()
            && p@ == Map::<PricingMetric, Map<Seq<char>, V>>::empty() && o.wf() && o@ == Set::<Seq<char>>::empty()
            && m == market,
{
    ProcessorMiddleMessage::BulkReceive(new_trades, PmPortfolio::new(), TradeSet::new(), market)
}

/// Adding the value of nothing to nothing gives the portfolio added.
proof fn lemma_union_with_empty<V, F: Fn(V, V) -> V>(p: Map<Seq<char>, V>, combine: F)
    ensures
        is_union_with(Map::<Seq<char>, V>::empty(), p, combine, p),
{
    assert(p.dom() =~= Map::<Seq<char>, V>::empty().dom().union(p.dom()));
}

/// The portfolio that pricing for metric `pm` starts from: what is already
/// held for it, or nothing.
pub open spec fn metric_start<V>(held: Map<PricingMetric, Map<Seq<char>, V>>, pm: PricingMetric) -> Map<Seq<char>, V> {
    if held.contains_key(pm) {
        held[pm]
    } else {
        Map::empty()
    }
}

/// Adds the prices of several trades for metric `pm` into `portfolio`, one
/// after the other. With no prices the portfolio is unchanged; otherwise the
/// metric is held afterwards and its portfolio is the sum of what it held
/// and the prices, the other metrics being unchanged.
pub fn add_priced<V: Copy, F: Fn(V, V) -> V>(
    portfolio: &mut PmPortfolio<V>,
    pm: PricingMetric,
    priced: &Vec<PortfolioType<V>>,
    combine: &F,
)
    requires
        old(portfolio).wf(),
        forall|i: int| 0 <= i < priced.len() ==> (#[trigger] priced[i]).wf(),
        forall|a: V, b: V| combine.requires((a, b)),
    ensures
        final(portfolio).wf(),
        priced.len() == 0 ==> final(portfolio)@ == old(portfolio)@,
        priced.len() > 0 ==> {
            &&& final(portfolio)@.dom() == old(portfolio)@.dom().insert(pm)
            &&& forall|m: PricingMetric| m != pm && #[trigger] old(portfolio)@.contains_key(m)
                ==> final(portfolio)@[m] == old(portfolio)@[m]
            &&& is_sum_of(
                metric_start(old(portfolio)@, pm),
                priced@.map_values(|p: PortfolioType<V>| p@),
                *combine,
                final(portfolio)@[pm],
            )
        },
{
    let ghost start = metric_start(portfolio@, pm);
    let ghost ps = priced@.map_values(|p: PortfolioType<V>| p@);
    let ghost orig = portfolio@;
    let n = priced.len();
    proof {
        lemma_sum_empty(start, *combine);
        assert(ps.take(0) =~= Seq::<Map<Seq<char>, V>>::empty());
    }
    for i in 0..n
        invariant
            n == priced.len(),
            ps == priced@.map_values(|p: PortfolioType<V>| p@),
            start == metric_start(orig, pm),
            forall|j: int| 0 <= j < priced.len() ==> (#[trigger] priced[j]).wf(),
            forall|a: V, b: V| combine.requires((a, b)),
            portfolio.wf(),
            i == 0 ==> portfolio@ == orig,
            i > 0 ==> portfolio@.dom() == orig.dom().insert(pm),
            i > 0 ==> forall|m: PricingMetric| m != pm && #[trigger] orig.contains_key(m) ==> portfolio@[m] == orig[m],
            i > 0 ==> is_sum_of(start, ps.take(i as int), *combine, portfolio@[pm]),
            is_sum_of(start, ps.take(0), *combine, start),
    {
        let ghost before = portfolio@;
        let ghost cur = metric_start(before, pm);
        proof {
            if i == 0 {
                assert(ps.take(0) =~= Seq::<Map<Seq<char>, V>>::empty());
            }
            assert(is_sum_of(start, ps.take(i as int), *combine, cur)) by {
                if i == 0 {
                    assert(cur == start);
                }
            }
        }
        portfolio.assign_metric(pm, priced[i].duplicate(), combine);
        proof {
            if !before.contains_key(pm) {
                lemma_union_with_empty(ps[i as int], *combine);
                assert(cur == Map::<Seq<char>, V>::empty());
            }
            assert(is_union_with(cur, ps[i as int], *combine, portfolio@[pm]));
            assert(ps.take(i + 1).drop_last() =~= ps.take(i as int));
            assert(ps.take(i + 1).last() == ps[i as int]);
            lemma_sum_step(start, ps.take(i + 1), *combine, cur, portfolio@[pm]);
            assert forall|m: PricingMetric| m != pm && #[trigger] orig.contains_key(m) implies portfolio@[m] == orig[m] by {
                assert(before.contains_key(m));
            }
        }
    }
    proof {
        assert(ps.take(n as int) =~= ps);
    }
}

/// The bulk processor serving one processor.
pub struct ProcessorBulk {
    pub processor_name: String,
    pub pricing_mode: PricingStyle,
}

impl ProcessorBulk {
    /// The bulk processor of `processor_name`, named after it.
    pub fn new(processor_name: String, pricing_mode: PricingStyle) -> (b: Self)
        ensures
            b.processor_name@ == bulk_name_of(processor_name@),
            b.pricing_mode == pricing_mode,
    {
        ProcessorBulk { processor_name: bulk_processor_name(&processor_name), pricing_mode }
    }

    pub fn pricing_style(&self) -> (s: PricingStyle)
        ensures
            s == self.pricing_mode,
    {
        self.pricing_mode
    }

    /// A bulk request for `new_trades` on `market`: the bulk processor is
    /// registered as pricing on that market; if the market is held, the plan
    /// is to price on it, with the trades the registry lacks set apart.
    pub fn plan<M: Clone, TR: Clone>(
        &self,
        all_markets: &mut AllMarkets<M>,
        market: &String,
        new_trades: &TradeSet,
        all_trades: &TradeRep<TR>,
    ) -> (plan: BulkPlan<M>)
        requires
            old(all_markets).wf(),
            new_trades.wf(),
            all_trades.wf(),
        ensures
            final(all_markets).wf(),
            final(all_markets).processors() == old(all_markets).processors().insert(
                self.processor_name@,
                *market,
            ),
            final(all_markets).markets() == markets_after_repoint(
                old(all_markets).markets(),
                old(all_markets).processors(),
                self.processor_name@,
                *market,
            ),
            (plan is Abandon) == !final(all_markets).markets().contains_key(market@),
            plan matches BulkPlan::Price(m, missing) ==> cloned(final(all_markets).markets()[market@], m)
                && missing.wf() && missing@ == new_trades@.difference(all_trades@.dom()),
    {
        all_markets.insert_processor(self.processor_name.clone(), market.clone());
        match all_markets.get(market) {
            None => BulkPlan::Abandon,
            Some(m) => BulkPlan::Price(m, missing_trades(new_trades, all_trades)),
        }
    }
}

} // verus!
