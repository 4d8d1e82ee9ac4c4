//! The new processor: it prices trades on the newest market and, when a new
//! market arrives, has the whole book repriced in bulk.
//!
//! Pricing and sending are done by the runtime; the functions here are the
//! processor's decisions and state changes.
use vstd::prelude::*;
use crate::metric::PricingMetric;
use crate::pm_portfolio::{change_metrics, PmPortfolio, PmView};
use crate::portfolio::{is_union_with, PortfolioType};
use crate::processor_msg::ProcessorMiddleMessageStates;
use crate::trade_set::TradeSet;

verus! {

/// What the new processor is doing.
#[derive(Clone, Copy, Debug, PartialEq, Eq, Structural)]
pub enum ProcessorNewState {
    /// New trades arrive, no new market: trades are priced one by one.
    CalculatingSingle,
    /// A new market arrived and the book is being repriced.
    CalculatingBulk,
}

/// What to do with a new market.
#[derive(Debug)]
pub enum NewMarketStep {
    /// A bulk computation is running: the market is ignored.
    Ignore,
    /// Look up the future market and start repricing on it.
    FetchFuture,
}

/// The new processor handles these kinds of message; any other kind is a
/// fault.
pub open spec fn new_processor_handles(k: ProcessorMiddleMessageStates) -> bool {
    match k {
        ProcessorMiddleMessageStates::NewTrade => true,
        ProcessorMiddleMessageStates::NewMarket => true,
        ProcessorMiddleMessageStates::Behind => true,
        ProcessorMiddleMessageStates::BulkReceive => true,
        ProcessorMiddleMessageStates::Metric => true,
        _ => false,
    }
}

/// Whether the new processor handles messages of kind `k`.
pub fn handles(k: ProcessorMiddleMessageStates) -> (b: bool)
    ensures
        b == new_processor_handles(k),
{
    match k {
        ProcessorMiddleMessageStates::NewTrade => true,
        ProcessorMiddleMessageStates::NewMarket => true,
        ProcessorMiddleMessageStates::Behind => true,
        ProcessorMiddleMessageStates::BulkReceive => true,
        ProcessorMiddleMessageStates::Metric => true,
        _ => false,
    }
}

/// The state of the new processor.
pub struct ProcessorNewStateful<V> {
    trades: TradeSet,
    trades_not_pricing: Vec<String>,
    portfolio: PmPortfolio<V>,
    processor_state: ProcessorNewState,
    new_market: Option<String>,
    pricing_metrics: Vec<PricingMetric>,
}

impl<V: Copy> ProcessorNewStateful<V> {
    pub closed spec fn spec_trades(&self) -> Set<Seq<char>> {
        self.trades@
    }

    pub closed spec fn spec_not_pricing(&self) -> Seq<Seq<char>> {
        self.trades_not_pricing@.map_values(|s: String| s@)
    }

    pub closed spec fn spec_portfolio(&self) -> PmView<V> {
        self.portfolio@
    }

    pub closed spec fn spec_state(&self) -> ProcessorNewState {
        self.processor_state
    }

    pub closed spec fn spec_market(&self) -> Option<String> {
        self.new_market
    }

    pub closed spec fn spec_metrics(&self) -> Seq<PricingMetric> {
        self.pricing_metrics@
    }

    pub closed spec fn wf(&self) -> bool {
        self.trades.wf() && self.portfolio.wf()
    }

    /// Calculating single, no trades, no portfolio, no market, no metrics.
    pub fn new() -> (s: Self)
        ensures
            s.wf(),
            s.spec_trades() == Set::<Seq<char>>::empty(),
            s.spec_not_pricing() == Seq::<Seq<char>>::empty(),
            s.spec_portfolio() == Map::<PricingMetric, Map<Seq<char>, V>>::empty(),
            s.spec_state() == ProcessorNewState::CalculatingSingle,
            s.spec_market() is None,
            s.spec_metrics() == Seq::<PricingMetric>::empty(),
    {
        let s = ProcessorNewStateful {
            trades: TradeSet::new(),
            trades_not_pricing: Vec::new(),
            portfolio: PmPortfolio::new(),
            processor_state: ProcessorNewState::CalculatingSingle,
            new_market: None,
            pricing_metrics: Vec::new(),
        };
        assert(s.spec_not_pricing() =~= Seq::<Seq<char>>::empty());
        s
    }

    pub fn trades(&self) -> (t: &TradeSet)
        requires
            self.wf(),
        ensures
            t.wf(),
            t@ == self.spec_trades(),
    {
        &self.trades
    }

    pub fn portfolio(&self) -> (p: &PmPortfolio<V>)
        requires
            self.wf(),
        ensures
            p.wf(),
            p@ == self.spec_portfolio(),
    {
        &self.portfolio
    }

    pub fn processor_state(&self) -> (s: ProcessorNewState)
        ensures
            s == self.spec_state(),
    {
        self.processor_state
    }

    pub fn new_market(&self) -> (m: &Option<String>)
        ensures
            *m == self.spec_market(),
    {
        &self.new_market
    }

    pub fn pricing_metrics(&self) -> (v: &Vec<PricingMetric>)
        ensures
            v@ == self.spec_metrics(),
    {
        &self.pricing_metrics
    }

    pub fn trades_not_pricing(&self) -> (v: &Vec<String>)
        ensures
            v@.map_values(|s: String| s@) == self.spec_not_pricing(),
    {
        &self.trades_not_pricing
    }

    /// A new trade arrives: it is added. While calculating single with metrics
    /// and a market, the market to price it on is returned.
    pub fn on_new_trade(&mut self, new_trade: String) -> (price_on: Option<String>)
        requires
            old(self).wf(),
        ensures
            final(self).wf(),
            final(self).spec_trades() == old(self).spec_trades().insert(new_trade@),
            final(self).spec_portfolio() == old(self).spec_portfolio(),
            final(self).spec_state() == old(self).spec_state(),
            final(self).spec_market() == old(self).spec_market(),
            final(self).spec_metrics() == old(self).spec_metrics(),
            final(self).spec_not_pricing() == old(self).spec_not_pricing(),
            price_on is Some <==> (old(self).spec_state() == ProcessorNewState::CalculatingSingle
                && old(self).spec_metrics().len() > 0 && old(self).spec_market() is Some),
            price_on is Some ==> price_on == old(self).spec_market(),
    {
        self.trades.insert(new_trade);
        if self.processor_state == ProcessorNewState::CalculatingBulk {
            return None;
        }
        if self.pricing_metrics.len() == 0 {
            return None;
        }
        match &self.new_market {
            Some(m) => Some(m.clone()),
            None => None,
        }
    }

    /// Records the price of the new trade for metric `pm`: added into the
    /// metric's portfolio, or set as that portfolio when the metric is new.
    pub fn record_single_price<F: Fn(V, V) -> V>(&mut self, pm: PricingMetric, priced: PortfolioType<V>, combine: &F)
        requires
            old(self).wf(),
            priced.wf(),
            forall|a: V, b: V| combine.requires((a, b)),
        ensures
            final(self).wf(),
            final(self).spec_portfolio().dom() == old(self).spec_portfolio().dom().insert(pm),
            forall|m: PricingMetric| m != pm && #[trigger] old(self).spec_portfolio().contains_key(m)
                ==> final(self).spec_portfolio()[m] == old(self).spec_portfolio()[m],
            !old(self).spec_portfolio().contains_key(pm) ==> final(self).spec_portfolio()[pm] == priced@,
            old(self).spec_portfolio().contains_key(pm)
                ==> is_union_with(old(self).spec_portfolio()[pm], priced@, *combine, final(self).spec_portfolio()[pm]),
            final(self).spec_trades() == old(self).spec_trades(),
            final(self).spec_state() == old(self).spec_state(),
            final(self).spec_market() == old(self).spec_market(),
            final(self).spec_metrics() == old(self).spec_metrics(),
            final(self).spec_not_pricing() == old(self).spec_not_pricing(),
    {
        self.portfolio.assign_metric(pm, priced, combine);
    }

    /// A new market arrives. During a bulk computation it is ignored;
    /// otherwise the portfolio is cleared and the future market is to be
    /// fetched.
    pub fn on_new_market(&mut self) -> (step: NewMarketStep)
        requires
            old(self).wf(),
        ensures
            final(self).wf(),
            old(self).spec_state() == ProcessorNewState::CalculatingBulk ==> step is Ignore && *final(self) == *old(self),
            old(self).spec_state() == ProcessorNewState::CalculatingSingle ==> {
                &&& step is FetchFuture
                &&& final(self).spec_portfolio() == Map::<PricingMetric, Map<Seq<char>, V>>::empty()
                &&& final(self).spec_trades() == old(self).spec_trades()
                &&& final(self).spec_state() == old(self).spec_state()
                &&& final(self).spec_market() == old(self).spec_market()
                &&& final(self).spec_metrics() == old(self).spec_metrics()
                &&& final(self).spec_not_pricing() == old(self).spec_not_pricing()
            },
    {
        if self.processor_state == ProcessorNewState::CalculatingBulk {
            return NewMarketStep::Ignore;
        }
        self.portfolio = PmPortfolio::new();
        NewMarketStep::FetchFuture
    }

    /// The future market was found under the name `future_market_name`: the
    /// processor moves to it and starts a bulk computation of its trades for
    /// its metrics (which are returned for the bulk request).
    pub fn start_bulk(&mut self, future_market_name: String) -> (request: (TradeSet, Vec<PricingMetric>))
        requires
            old(self).wf(),
        ensures
            final(self).wf(),
            final(self).spec_state() == ProcessorNewState::CalculatingBulk,
            final(self).spec_market() == Some(future_market_name),
            final(self).spec_trades() == old(self).spec_trades(),
            final(self).spec_portfolio() == old(self).spec_portfolio(),
            final(self).spec_metrics() == old(self).spec_metrics(),
            final(self).spec_not_pricing() == old(self).spec_not_pricing(),
            request.0.wf(),
            request.0@ == old(self).spec_trades(),
            request.1@ == old(self).spec_metrics(),
    {
        self.new_market = Some(future_market_name);
        self.processor_state = ProcessorNewState::CalculatingBulk;
        (self.trades.duplicate(), self.pricing_metrics.clone())
    }

    /// The bulk result arrives: the computed portfolio replaces the held one
    /// metric by metric, the trades and the trades that could not be priced are
    /// added, the market becomes the bulk market, and the processor is back to
    /// calculating single. The portfolio to send down is then the state's.
    pub fn on_bulk_receive(&mut self, new_trade_l: &TradeSet, computed_portf: &PmPortfolio<V>, offending_trades: &TradeSet, bulk_market: String)
        requires
            old(self).wf(),
            new_trade_l.wf(),
            computed_portf.wf(),
            offending_trades.wf(),
        ensures
            final(self).wf(),
            final(self).spec_portfolio() == old(self).spec_portfolio().union_prefer_right(computed_portf@),
            final(self).spec_trades() == old(self).spec_trades().union(new_trade_l@),
            final(self).spec_not_pricing().to_set() == old(self).spec_not_pricing().to_set().union(offending_trades@),
            final(self).spec_not_pricing().len() == old(self).spec_not_pricing().len() + offending_trades@.len(),
            final(self).spec_market() == Some(bulk_market),
            final(self).spec_state() == ProcessorNewState::CalculatingSingle,
            final(self).spec_metrics() == old(self).spec_metrics(),
    {
        self.portfolio.assign(computed_portf);
        self.trades.extend(new_trade_l);
        let n = offending_trades.len();
        proof { offending_trades.lemma_id_seq(); }
        let ghost before = self.spec_not_pricing();
        let ghost mid = *self;
        for i in 0..n
            invariant
                n == offending_trades.id_seq().len(),
                offending_trades.wf(),
                self.spec_not_pricing() == before + offending_trades.id_seq().take(i as int),
                self.trades == mid.trades,
                self.portfolio == mid.portfolio,
                self.processor_state == mid.processor_state,
                self.new_market == mid.new_market,
                self.pricing_metrics == mid.pricing_metrics,
        {
            let id = offending_trades.id_at(i).clone();
            let ghost prev = self.trades_not_pricing@;
            self.trades_not_pricing.push(id);
            proof {
                assert(self.trades_not_pricing@.map_values(|s: String| s@) =~= prev.map_values(|s: String| s@).push(
                    offending_trades.id_seq()[i as int],
                ));
                assert(offending_trades.id_seq().take(i + 1) =~= offending_trades.id_seq().take(i as int).push(
                    offending_trades.id_seq()[i as int],
                ));
                assert(self.spec_not_pricing() =~= before + offending_trades.id_seq().take(i + 1));
            }
        }
        proof {
            assert(offending_trades.id_seq().take(n as int) =~= offending_trades.id_seq());
            assert((before + offending_trades.id_seq()).to_set() =~= before.to_set().union(offending_trades.id_seq().to_set())) by {
                assert forall|x: Seq<char>| (before + offending_trades.id_seq()).contains(x) <==> (before.contains(x) || offending_trades.id_seq().contains(x)) by {
                    if (before + offending_trades.id_seq()).contains(x) {
                        let j = choose|j: int| 0 <= j < (before + offending_trades.id_seq()).len() && (before + offending_trades.id_seq())[j] == x;
                        if j >= before.len() {
                            assert(offending_trades.id_seq()[j - before.len()] == x);
                        }
                    }
                    if offending_trades.id_seq().contains(x) {
                        let j = choose|j: int| 0 <= j < offending_trades.id_seq().len() && offending_trades.id_seq()[j] == x;
                        assert((before + offending_trades.id_seq())[before.len() + j] == x);
                    }
                    if before.contains(x) {
                        let j = choose|j: int| 0 <= j < before.len() && before[j] == x;
                        assert((before + offending_trades.id_seq())[j] == x);
                    }
                }
            }
        }
        self.new_market = Some(bulk_market);
        self.processor_state = ProcessorNewState::CalculatingSingle;
    }

    /// The processor below is ahead by `trades_behind` (used while
    /// calculating single). With nothing behind there is nothing to do
    /// (`None`). Otherwise the trades are added, the processor takes
    /// `market_behind` as its market if it has none, and the market to
    /// register the processor on and price the lacking trades on is returned.
    pub fn behind_single(&mut self, market_behind: String, trades_behind: &TradeSet) -> (price_on: Option<String>)
        requires
            old(self).wf(),
            trades_behind.wf(),
        ensures
            final(self).wf(),
            trades_behind@.len() == 0 ==> price_on is None && *final(self) == *old(self),
            trades_behind@.len() > 0 ==> {
                &&& final(self).spec_trades() == old(self).spec_trades().union(trades_behind@)
                &&& final(self).spec_market() == (match old(self).spec_market() {
                    Some(m) => Some(m),
                    None => Some(market_behind),
                })
                &&& price_on == final(self).spec_market()
            },
            final(self).spec_portfolio() == old(self).spec_portfolio(),
            final(self).spec_state() == old(self).spec_state(),
            final(self).spec_metrics() == old(self).spec_metrics(),
            final(self).spec_not_pricing() == old(self).spec_not_pricing(),
    {
        proof {
            trades_behind.lemma_id_seq();
            if trades_behind@.len() == 0 {
                trades_behind@.lemma_len0_is_empty();
            }
        }
        if trades_behind.is_empty() {
            return None;
        }
        self.trades.extend(trades_behind);
        if self.new_market.is_none() {
            self.new_market = Some(market_behind);
        }
        self.new_market.clone()
    }

    /// Adds the portfolio of the lacking trades into the held one.
    pub fn add_priced<F: Fn(V, V) -> V>(&mut self, additional: &PmPortfolio<V>, combine: &F)
        requires
            old(self).wf(),
            additional.wf(),
            forall|a: V, b: V| combine.requires((a, b)),
        ensures
            final(self).wf(),
            final(self).spec_portfolio().dom() == old(self).spec_portfolio().dom().union(additional@.dom()),
            forall|m: PricingMetric| #[trigger] final(self).spec_portfolio().contains_key(m) && !additional@.contains_key(m)
                ==> final(self).spec_portfolio()[m] == old(self).spec_portfolio()[m],
            forall|m: PricingMetric| #[trigger] final(self).spec_portfolio().contains_key(m) && additional@.contains_key(m)
                && !old(self).spec_portfolio().contains_key(m) ==> final(self).spec_portfolio()[m] == additional@[m],
            forall|m: PricingMetric| #[trigger] final(self).spec_portfolio().contains_key(m) && additional@.contains_key(m)
                && old(self).spec_portfolio().contains_key(m)
                ==> is_union_with(old(self).spec_portfolio()[m], additional@[m], *combine, final(self).spec_portfolio()[m]),
            final(self).spec_trades() == old(self).spec_trades(),
            final(self).spec_state() == old(self).spec_state(),
            final(self).spec_market() == old(self).spec_market(),
            final(self).spec_metrics() == old(self).spec_metrics(),
            final(self).spec_not_pricing() == old(self).spec_not_pricing(),
    {
        self.portfolio.add_assign_with(additional, combine);
    }

    /// A bulk result arrives while calculating single: it is merged (the
    /// computed portfolio replaces the held one metric by metric, its trades
    /// are added) only if it was computed on the processor's market; says
    /// whether it was.
    pub fn merge_bulk_if_same_market(&mut self, new_trade_l: &TradeSet, computed_portf: &PmPortfolio<V>, bulk_market: &String) -> (merged: bool)
        requires
            old(self).wf(),
            new_trade_l.wf(),
            computed_portf.wf(),
        ensures
            final(self).wf(),
            merged == (old(self).spec_market() matches Some(m) && m@ == bulk_market@),
            merged ==> final(self).spec_portfolio() == old(self).spec_portfolio().union_prefer_right(computed_portf@)
                && final(self).spec_trades() == old(self).spec_trades().union(new_trade_l@),
            !merged ==> *final(self) == *old(self),
            final(self).spec_state() == old(self).spec_state(),
            final(self).spec_market() == old(self).spec_market(),
            final(self).spec_metrics() == old(self).spec_metrics(),
            final(self).spec_not_pricing() == old(self).spec_not_pricing(),
    {
        let same = match &self.new_market {
            Some(m) => *m == *bulk_market,
            None => false,
        };
        if same {
            self.portfolio.assign(computed_portf);
            self.trades.extend(new_trade_l);
        }
        same
    }

    /// New metrics arrive: the portfolio is brought in line with them.
    pub fn on_metric(&mut self, new_pricing_metrics: Vec<PricingMetric>)
        requires
            old(self).wf(),
        ensures
            final(self).wf(),
            final(self).spec_metrics() == new_pricing_metrics@,
            final(self).spec_portfolio().dom() == new_pricing_metrics@.to_set(),
            forall|m: PricingMetric| #[trigger] final(self).spec_portfolio().contains_key(m) && old(self).spec_portfolio().contains_key(m)
                ==> final(self).spec_portfolio()[m] == old(self).spec_portfolio()[m],
            forall|m: PricingMetric| #[trigger] final(self).spec_portfolio().contains_key(m) && !old(self).spec_portfolio().contains_key(m)
                ==> final(self).spec_portfolio()[m] == Map::<Seq<char>, V>::empty(),
            final(self).spec_trades() == old(self).spec_trades(),
            final(self).spec_state() == old(self).spec_state(),
            final(self).spec_market() == old(self).spec_market(),
    {
        change_metrics(&mut self.portfolio, &new_pricing_metrics);
        self.pricing_metrics = new_pricing_metrics;
    }

    /// The trades, portfolio and market to propose to the processor below.
    pub fn proposal(&self) -> (p: Option<(TradeSet, PmPortfolio<V>, String)>)
        requires
            self.wf(),
        ensures
            (p is Some) == (self.spec_market() is Some),
            p matches Some(t) ==> t.0.wf() && t.0@ == self.spec_trades() && t.1.wf()
                && t.1@ == self.spec_portfolio() && Some(t.2) == self.spec_market(),
    {
        match &self.new_market {
            Some(m) => Some((self.trades.duplicate(), self.portfolio.duplicate(), m.clone())),
            None => None,
        }
    }
}

} // verus!
