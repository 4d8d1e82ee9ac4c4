//! A middle processor: it sits between the new processor and the current one,
//! passes portfolios down and tells the processor above what it lacks.
//!
//! Pricing and sending are done by the runtime; the functions here are the
//! processor's decisions and state changes.
use vstd::prelude::*;
use crate::metric::PricingMetric;
use crate::pm_portfolio::{change_metrics, PmPortfolio, PmView};
use crate::portfolio::is_union_with;
use crate::pricing_results::{add_results, is_sum_of, PricingResults};
use crate::trade_set::TradeSet;
use crate::processor_msg::{PNStateDistr, ProcessorMiddleMessage, ProcessorMiddleMessageStates};

verus! {

/// The state a middle processor is in.
#[derive(Clone, Copy, Debug, PartialEq, Eq, Structural)]
pub enum ProcessorMiddleState {
    CalculatingSingle,
}

/// What to do after a `Behind` message.
#[derive(Debug)]
pub enum BehindStep {
    /// The processor below accepted; nothing to do.
    Accepted,
    /// Price the lacking trades on the processor's market and add them.
    PriceOn(String),
    /// The processor has no market: look the processor below's market up.
    NoMarket,
}

/// What the runtime is to do after a message has been taken in.
pub enum MiddleAction {
    /// Price the new trade with this id for the processor's metrics, then
    /// propose the portfolio below.
    PriceNewTrade(String),
    /// The processor below evaluated this market and is behind by these
    /// trades; the step says how to go on.
    Behind(String, TradeSet, BehindStep),
    /// Nothing to do: the message was taken in, or is ignored.
    Nothing,
}

/// The state of a middle processor.
pub struct ProcessorMiddleStateful<V> {
    trades: TradeSet,
    trades_not_pricing: TradeSet,
    pricing_results: PmPortfolio<V>,
    processor_state: ProcessorMiddleState,
    curr_market: Option<String>,
    pricing_metrics: Vec<PricingMetric>,
    trades_since_ntp: u64,
}

impl<V: Copy> ProcessorMiddleStateful<V> {
    pub closed spec fn spec_trades(&self) -> Set<Seq<char>> {
        self.trades@
    }

    pub closed spec fn spec_results(&self) -> PmView<V> {
        self.pricing_results@
    }

    pub closed spec fn spec_market(&self) -> Option<String> {
        self.curr_market
    }

    pub closed spec fn spec_metrics(&self) -> Seq<PricingMetric> {
        self.pricing_metrics@
    }

    pub closed spec fn spec_since_ntp(&self) -> u64 {
        self.trades_since_ntp
    }

    pub closed spec fn wf(&self) -> bool {
        self.trades.wf() && self.trades_not_pricing.wf() && self.pricing_results.wf()
    }

    /// No trades, no portfolio, no market, no metrics.
    pub fn new() -> (s: Self)
        ensures
            s.wf(),
            s.spec_trades() == Set::<Seq<char>>::empty(),
            s.spec_results() == Map::<PricingMetric, Map<Seq<char>, V>>::empty(),
            s.spec_market() is None,
            s.spec_metrics() == Seq::<PricingMetric>::empty(),
            s.spec_since_ntp() == 0,
    {
        ProcessorMiddleStateful {
            trades: TradeSet::new(),
            trades_not_pricing: TradeSet::new(),
            pricing_results: PmPortfolio::new(),
            processor_state: ProcessorMiddleState::CalculatingSingle,
            curr_market: None,
            pricing_metrics: Vec::new(),
            trades_since_ntp: 0,
        }
    }

    pub fn trades(&self) -> (t: &TradeSet)
        requires
            self.wf(),
        ensures
            t.wf(),
            t@ == self.spec_trades(),
    {
        &self.trades
    }

    pub fn pricing_results(&self) -> (p: &PmPortfolio<V>)
        requires
            self.wf(),
        ensures
            p.wf(),
            p@ == self.spec_results(),
    {
        &self.pricing_results
    }

    pub fn curr_market(&self) -> (m: &Option<String>)
        ensures
            *m == self.spec_market(),
    {
        &self.curr_market
    }

    pub fn pricing_metrics(&self) -> (v: &Vec<PricingMetric>)
        ensures
            v@ == self.spec_metrics(),
    {
        &self.pricing_metrics
    }

    pub fn processor_state(&self) -> (s: ProcessorMiddleState)
        ensures
            s == ProcessorMiddleState::CalculatingSingle,
    {
        self.processor_state
    }

    pub fn trades_since_ntp(&self) -> (c: u64)
        ensures
            c == self.spec_since_ntp(),
    {
        self.trades_since_ntp
    }

    /// A new trade arrives: it is added (even if it cannot be priced), and
    /// the answer says whether there are metrics to price it for.
    pub fn on_new_trade(&mut self, new_trade: String) -> (price_it: bool)
        requires
            old(self).wf(),
        ensures
            final(self).wf(),
            final(self).spec_trades() == old(self).spec_trades().insert(new_trade@),
            final(self).spec_results() == old(self).spec_results(),
            final(self).spec_market() == old(self).spec_market(),
            final(self).spec_metrics() == old(self).spec_metrics(),
            final(self).spec_since_ntp() == old(self).spec_since_ntp(),
            price_it == (old(self).spec_metrics().len() > 0),
    {
        self.trades.insert(new_trade);
        self.pricing_metrics.len() > 0
    }

    /// The trade is about to be priced on the processor's market: it is counted.
    pub fn count_priced_trade(&mut self)
        requires
            old(self).wf(),
            old(self).spec_since_ntp() < u64::MAX,
        ensures
            final(self).wf(),
            final(self).spec_since_ntp() == old(self).spec_since_ntp() + 1,
            final(self).spec_trades() == old(self).spec_trades(),
            final(self).spec_results() == old(self).spec_results(),
            final(self).spec_market() == old(self).spec_market(),
            final(self).spec_metrics() == old(self).spec_metrics(),
    {
        self.trades_since_ntp = self.trades_since_ntp + 1;
    }

    /// Adds the result of pricing the new trade for metric `pm`, if the metric
    /// is held; says whether it was.
    pub fn absorb_priced<F: Fn(V, V) -> V>(&mut self, pm: PricingMetric, results: &PricingResults<V>, combine: &F) -> (held: bool)
        requires
            old(self).wf(),
            results.wf(),
            !(results is PnL),
            forall|a: V, b: V| combine.requires((a, b)),
        ensures
            final(self).wf(),
            held == old(self).spec_results().contains_key(pm),
            final(self).spec_results().dom() == old(self).spec_results().dom(),
            forall|m: PricingMetric| m != pm && #[trigger] old(self).spec_results().contains_key(m)
                ==> final(self).spec_results()[m] == old(self).spec_results()[m],
            held ==> match results {
                PricingResults::PV(p) => is_union_with(old(self).spec_results()[pm], p@, *combine, final(self).spec_results()[pm]),
                PricingResults::PV01(p) => is_sum_of(old(self).spec_results()[pm], p.exposure_seq(), *combine, final(self).spec_results()[pm]),
                PricingResults::PnL(_) => false,
            },
            !held ==> final(self).spec_results() == old(self).spec_results(),
            final(self).spec_trades() == old(self).spec_trades(),
            final(self).spec_market() == old(self).spec_market(),
            final(self).spec_metrics() == old(self).spec_metrics(),
            final(self).spec_since_ntp() == old(self).spec_since_ntp(),
    {
        match self.pricing_results.take(pm) {
            Some(mut p) => {
                add_results(&mut p, results, combine);
                self.pricing_results.insert(pm, p);
                assert(self.pricing_results@.dom() =~= old(self).pricing_results@.dom());
                true
            },
            None => {
                assert(self.pricing_results@ =~= old(self).pricing_results@);
                false
            },
        }
    }

    /// The processor below says which trades it is behind. When it is behind
    /// by some trades, they are added; the answer says how to price them.
    pub fn on_behind(&mut self, trades_behind: &TradeSet) -> (step: BehindStep)
        requires
            old(self).wf(),
            trades_behind.wf(),
        ensures
            final(self).wf(),
            trades_behind@ == Set::<Seq<char>>::empty() ==> step is Accepted && final(self).spec_trades() == old(self).spec_trades(),
            trades_behind@ != Set::<Seq<char>>::empty() ==> final(self).spec_trades() == old(self).spec_trades().union(trades_behind@),
            trades_behind@ != Set::<Seq<char>>::empty() ==> match step {
                BehindStep::PriceOn(m) => old(self).spec_market() == Some(m),
                BehindStep::NoMarket => old(self).spec_market() is None,
                BehindStep::Accepted => false,
            },
            final(self).spec_results() == old(self).spec_results(),
            final(self).spec_market() == old(self).spec_market(),
            final(self).spec_metrics() == old(self).spec_metrics(),
            final(self).spec_since_ntp() == old(self).spec_since_ntp(),
    {
        if trades_behind.is_empty() {
            return BehindStep::Accepted;
        }
        self.trades.extend(trades_behind);
        match &self.curr_market {
            Some(m) => BehindStep::PriceOn(m.clone()),
            None => BehindStep::NoMarket,
        }
    }

    /// The processor has no usable market: it takes the market of the
    /// processor below, before that market is looked up.
    pub fn take_market(&mut self, market_behind: String)
        requires
            old(self).wf(),
        ensures
            final(self).wf(),
            final(self).spec_market() == Some(market_behind),
            final(self).spec_results() == old(self).spec_results(),
            final(self).spec_trades() == old(self).spec_trades(),
            final(self).spec_metrics() == old(self).spec_metrics(),
            final(self).spec_since_ntp() == old(self).spec_since_ntp(),
    {
        self.curr_market = Some(market_behind);
    }

    /// The results become `bulk_results`: all the processor's trades priced
    /// on the market it took.
    pub fn replace_results(&mut self, bulk_results: PmPortfolio<V>)
        requires
            old(self).wf(),
            bulk_results.wf(),
        ensures
            final(self).wf(),
            final(self).spec_results() == bulk_results@,
            final(self).spec_market() == old(self).spec_market(),
            final(self).spec_trades() == old(self).spec_trades(),
            final(self).spec_metrics() == old(self).spec_metrics(),
            final(self).spec_since_ntp() == old(self).spec_since_ntp(),
    {
        self.pricing_results = bulk_results;
    }

    /// Adds the portfolio of the lacking trades to the results.
    pub fn add_priced<F: Fn(V, V) -> V>(&mut self, additional: &PmPortfolio<V>, combine: &F)
        requires
            old(self).wf(),
            additional.wf(),
            forall|a: V, b: V| combine.requires((a, b)),
        ensures
            final(self).wf(),
            final(self).spec_results().dom() == old(self).spec_results().dom().union(additional@.dom()),
            forall|m: PricingMetric| #[trigger] final(self).spec_results().contains_key(m) && !additional@.contains_key(m)
                ==> final(self).spec_results()[m] == old(self).spec_results()[m],
            forall|m: PricingMetric| #[trigger] final(self).spec_results().contains_key(m) && additional@.contains_key(m)
                && !old(self).spec_results().contains_key(m) ==> final(self).spec_results()[m] == additional@[m],
            forall|m: PricingMetric| #[trigger] final(self).spec_results().contains_key(m) && additional@.contains_key(m)
                && old(self).spec_results().contains_key(m)
                ==> is_union_with(old(self).spec_results()[m], additional@[m], *combine, final(self).spec_results()[m]),
            final(self).spec_trades() == old(self).spec_trades(),
            final(self).spec_market() == old(self).spec_market(),
            final(self).spec_metrics() == old(self).spec_metrics(),
            final(self).spec_since_ntp() == old(self).spec_since_ntp(),
    {
        self.pricing_results.add_assign_with(additional, combine);
    }

    /// A proposal arrives from above; the trades the processor holds that the
    /// proposal lacks are returned, to be reported upstream. A proposal that
    /// lacks none is ahead: the processor takes it, moving to its market. A
    /// proposal that lacks some is behind and is ignored.
    pub fn accept_ntp(&mut self, ntp_trades: &TradeSet, ntp_portfolio: PmPortfolio<V>, new_market: String) -> (behind: TradeSet)
        requires
            old(self).wf(),
            ntp_trades.wf(),
            ntp_portfolio.wf(),
        ensures
            final(self).wf(),
            behind.wf(),
            behind@ == old(self).spec_trades().difference(ntp_trades@),
            behind@ == Set::<Seq<char>>::empty() ==> {
                &&& final(self).spec_market() == Some(new_market)
                &&& final(self).spec_since_ntp() == 0
                &&& final(self).spec_results() == ntp_portfolio@
                &&& final(self).spec_trades() == old(self).spec_trades().union(ntp_trades@)
            },
            behind@ != Set::<Seq<char>>::empty() ==> {
                &&& final(self).spec_market() == old(self).spec_market()
                &&& final(self).spec_since_ntp() == old(self).spec_since_ntp()
                &&& final(self).spec_results() == old(self).spec_results()
                &&& final(self).spec_trades() == old(self).spec_trades()
            },
            final(self).spec_metrics() == old(self).spec_metrics(),
    {
        let behind = self.trades.difference(ntp_trades);
        if !behind.is_empty() {
            return behind;
        }
        self.curr_market = Some(new_market);
        self.trades_since_ntp = 0;
        self.pricing_results = ntp_portfolio;
        self.trades.extend(ntp_trades);
        behind
    }

    /// Takes in a message: it is counted under its kind, and the state changes
    /// as the message asks. A new trade is added (and priced when there are
    /// metrics), a `Behind` answer is handled as `on_behind` says, new metrics
    /// are taken over; every other message leaves the state as it is.
    pub fn on_message(&mut self, distr: &mut PNStateDistr, msg: ProcessorMiddleMessage<V>) -> (action: MiddleAction)
        requires
            old(self).wf(),
            old(distr).count_of(msg.spec_kind()) < u64::MAX,
            msg matches ProcessorMiddleMessage::Behind(_, t) ==> t.wf(),
        ensures
            final(self).wf(),
            final(distr).count_of(msg.spec_kind()) == old(distr).count_of(msg.spec_kind()) + 1,
            forall|k: ProcessorMiddleMessageStates| k != msg.spec_kind()
                ==> #[trigger] final(distr).count_of(k) == old(distr).count_of(k),
            match msg {
                ProcessorMiddleMessage::NewTrade(t) => {
                    &&& final(self).spec_trades() == old(self).spec_trades().insert(t@)
                    &&& final(self).spec_results() == old(self).spec_results()
                    &&& final(self).spec_market() == old(self).spec_market()
                    &&& final(self).spec_metrics() == old(self).spec_metrics()
                    &&& final(self).spec_since_ntp() == old(self).spec_since_ntp()
                    &&& action == (if old(self).spec_metrics().len() > 0 {
                        MiddleAction::PriceNewTrade(t)
                    } else {
                        MiddleAction::Nothing
                    })
                },
                ProcessorMiddleMessage::Behind(m, tb) => {
                    &&& action matches MiddleAction::Behind(am, at, step) && am == m && at@ == tb@ && at.wf()
                        && (tb@ == Set::<Seq<char>>::empty() ==> step is Accepted)
                        && (tb@ != Set::<Seq<char>>::empty() ==> match step {
                            BehindStep::PriceOn(pm) => old(self).spec_market() == Some(pm),
                            BehindStep::NoMarket => old(self).spec_market() is None,
                            BehindStep::Accepted => false,
                        })
                    &&& final(self).spec_trades() == old(self).spec_trades().union(tb@)
                    &&& final(self).spec_results() == old(self).spec_results()
                    &&& final(self).spec_market() == old(self).spec_market()
                    &&& final(self).spec_metrics() == old(self).spec_metrics()
                    &&& final(self).spec_since_ntp() == old(self).spec_since_ntp()
                },
                ProcessorMiddleMessage::Metric(ms) => {
                    &&& action is Nothing
                    &&& final(self).spec_metrics() == ms@
                    &&& final(self).spec_results().dom() == ms@.to_set()
                    &&& forall|pm: PricingMetric| #[trigger] final(self).spec_results().contains_key(pm)
                        && old(self).spec_results().contains_key(pm)
                        ==> final(self).spec_results()[pm] == old(self).spec_results()[pm]
                    &&& forall|pm: PricingMetric| #[trigger] final(self).spec_results().contains_key(pm)
                        && !old(self).spec_results().contains_key(pm)
                        ==> final(self).spec_results()[pm] == Map::<Seq<char>, V>::empty()
                    &&& final(self).spec_trades() == old(self).spec_trades()
                    &&& final(self).spec_market() == old(self).spec_market()
                    &&& final(self).spec_since_ntp() == old(self).spec_since_ntp()
                },
                _ => {
                    &&& action is Nothing
                    &&& final(self).spec_trades() == old(self).spec_trades()
                    &&& final(self).spec_results() == old(self).spec_results()
                    &&& final(self).spec_market() == old(self).spec_market()
                    &&& final(self).spec_metrics() == old(self).spec_metrics()
                    &&& final(self).spec_since_ntp() == old(self).spec_since_ntp()
                },
            },
    {
        distr.incr_one(msg.kind());
        match msg {
            ProcessorMiddleMessage::NewTrade(t) => {
                if self.on_new_trade(t.clone()) {
                    MiddleAction::PriceNewTrade(t)
                } else {
                    MiddleAction::Nothing
                }
            },
            ProcessorMiddleMessage::Behind(m, tb) => {
                let step = self.on_behind(&tb);
                MiddleAction::Behind(m, tb, step)
            },
            ProcessorMiddleMessage::Metric(ms) => {
                self.on_metric(ms);
                MiddleAction::Nothing
            },
            _ => MiddleAction::Nothing,
        }
    }

    /// New metrics arrive: the results are brought in line with them.
    pub fn on_metric(&mut self, new_pricing_metrics: Vec<PricingMetric>)
        requires
            old(self).wf(),
        ensures
            final(self).wf(),
            final(self).spec_metrics() == new_pricing_metrics@,
            final(self).spec_results().dom() == new_pricing_metrics@.to_set(),
            forall|m: PricingMetric| #[trigger] final(self).spec_results().contains_key(m) && old(self).spec_results().contains_key(m)
                ==> final(self).spec_results()[m] == old(self).spec_results()[m],
            forall|m: PricingMetric| #[trigger] final(self).spec_results().contains_key(m) && !old(self).spec_results().contains_key(m)
                ==> final(self).spec_results()[m] == Map::<Seq<char>, V>::empty(),
            final(self).spec_trades() == old(self).spec_trades(),
            final(self).spec_market() == old(self).spec_market(),
            final(self).spec_since_ntp() == old(self).spec_since_ntp(),
    {
        change_metrics(&mut self.pricing_results, &new_pricing_metrics);
        self.pricing_metrics = new_pricing_metrics;
    }
}

} // verus!
