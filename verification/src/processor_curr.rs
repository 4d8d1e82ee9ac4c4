//! The current processor: it holds the portfolio that is published, and
//! decides whether a portfolio proposed from above replaces it.
//!
//! Pricing a trade and publishing are done by the runtime; the functions here
//! are the processor's decisions and state changes, each taking what the
//! runtime found out as arguments.
use vstd::prelude::*;
use crate::metric::PricingMetric;
use crate::pm_portfolio::{change_metrics, PmPortfolio, PmView};
use crate::portfolio::{is_union_with, PortfolioType};
use crate::pricing_results::{add_results, is_sum_of, PricingResults};
use crate::trade_set::TradeSet;

verus! {

/// Number of trades by which a proposed portfolio may lag the current one
/// and still be accepted.
pub const NTP_ALLOW_BEHIND: u64 = 10;

/// Whether the processors run with the usual double buffering or a single buffer.
#[derive(Clone, Copy, Debug, PartialEq, Eq, Structural)]
pub enum RTOperatingMode {
    DoubleBuffer,
    SingleBuffer,
}

/// The decision on a proposed portfolio.
pub struct NtpDecision {
    /// The current trades that the proposal's PV portfolio lacks.
    pub behind: TradeSet,
    /// Whether the proposal is accepted.
    pub accepted: bool,
}

/// The trades of `trades` that a proposal whose PV portfolio is `pv` lacks.
pub open spec fn ntp_behind<V>(trades: Set<Seq<char>>, proposal: PmView<V>) -> Set<Seq<char>> {
    if proposal.contains_key(PricingMetric::PV) {
        trades.difference(proposal[PricingMetric::PV].dom())
    } else {
        trades
    }
}

/// The state of the current processor.
pub struct ProcessorCurrState<V> {
    trades: TradeSet,
    portfolio: PmPortfolio<V>,
    curr_market: Option<String>,
    pricing_results: Vec<PricingMetric>,
    newtrades_since_last_newmarket: u64,
}

impl<V: Copy> ProcessorCurrState<V> {
    pub closed spec fn spec_trades(&self) -> Set<Seq<char>> {
        self.trades@
    }

    pub closed spec fn spec_portfolio(&self) -> PmView<V> {
        self.portfolio@
    }

    pub closed spec fn spec_market(&self) -> Option<String> {
        self.curr_market
    }

    pub closed spec fn spec_metrics(&self) -> Seq<PricingMetric> {
        self.pricing_results@
    }

    pub closed spec fn spec_count(&self) -> u64 {
        self.newtrades_since_last_newmarket
    }

    pub closed spec fn wf(&self) -> bool {
        self.trades.wf() && self.portfolio.wf()
    }

    /// No trades, no portfolio, no market, no metrics.
    pub fn new() -> (s: Self)
        ensures
            s.wf(),
            s.spec_trades() == Set::<Seq<char>>::empty(),
            s.spec_portfolio() == Map::<PricingMetric, Map<Seq<char>, V>>::empty(),
            s.spec_market() is None,
            s.spec_metrics() == Seq::<PricingMetric>::empty(),
            s.spec_count() == 0,
    {
        ProcessorCurrState {
            trades: TradeSet::new(),
            portfolio: PmPortfolio::new(),
            curr_market: None,
            pricing_results: Vec::new(),
            newtrades_since_last_newmarket: 0,
        }
    }

    pub fn trades(&self) -> (t: &TradeSet)
        requires
            self.wf(),
        ensures
            t.wf(),
            t@ == self.spec_trades(),
    {
        &self.trades
    }

    pub fn portfolio(&self) -> (p: &PmPortfolio<V>)
        requires
            self.wf(),
        ensures
            p.wf(),
            p@ == self.spec_portfolio(),
    {
        &self.portfolio
    }

    pub fn curr_market(&self) -> (m: &Option<String>)
        ensures
            *m == self.spec_market(),
    {
        &self.curr_market
    }

    pub fn pricing_metrics(&self) -> (v: &Vec<PricingMetric>)
        ensures
            v@ == self.spec_metrics(),
    {
        &self.pricing_results
    }

    pub fn newtrades_since_last_newmarket(&self) -> (c: u64)
        ensures
            c == self.spec_count(),
    {
        self.newtrades_since_last_newmarket
    }

    /// A new trade arrives. With a single buffer nothing happens; otherwise
    /// the trade is added and counted, and the market to price it on (if the
    /// processor has one) is returned.
    pub fn on_new_trade(&mut self, trade: String, mode: RTOperatingMode) -> (price_on: Option<String>)
        requires
            old(self).wf(),
            mode == RTOperatingMode::SingleBuffer || old(self).spec_count() < u64::MAX,
        ensures
            final(self).wf(),
            mode == RTOperatingMode::SingleBuffer ==> *final(self) == *old(self) && price_on is None,
            mode == RTOperatingMode::DoubleBuffer ==> {
                &&& final(self).spec_trades() == old(self).spec_trades().insert(trade@)
                &&& final(self).spec_count() == old(self).spec_count() + 1
                &&& final(self).spec_portfolio() == old(self).spec_portfolio()
                &&& final(self).spec_market() == old(self).spec_market()
                &&& final(self).spec_metrics() == old(self).spec_metrics()
                &&& price_on == old(self).spec_market()
            },
    {
        if mode == RTOperatingMode::SingleBuffer {
            return None;
        }
        self.newtrades_since_last_newmarket = self.newtrades_since_last_newmarket + 1;
        self.trades.insert(trade);
        match &self.curr_market {
            Some(m) => Some(m.clone()),
            None => None,
        }
    }

    /// Adds the result of pricing the new trade for metric `pm` into the
    /// portfolio of that metric; says whether the metric was held.
    pub fn absorb_priced<F: Fn(V, V) -> V>(&mut self, pm: PricingMetric, results: &PricingResults<V>, combine: &F) -> (held: bool)
        requires
            old(self).wf(),
            results.wf(),
            !(results is PnL),
            forall|a: V, b: V| combine.requires((a, b)),
        ensures
            final(self).wf(),
            held == old(self).spec_portfolio().contains_key(pm),
            final(self).spec_portfolio().dom() == old(self).spec_portfolio().dom(),
            forall|m: PricingMetric| m != pm && #[trigger] old(self).spec_portfolio().contains_key(m)
                ==> final(self).spec_portfolio()[m] == old(self).spec_portfolio()[m],
            held ==> match results {
                PricingResults::PV(p) => is_union_with(old(self).spec_portfolio()[pm], p@, *combine, final(self).spec_portfolio()[pm]),
                PricingResults::PV01(p) => is_sum_of(old(self).spec_portfolio()[pm], p.exposure_seq(), *combine, final(self).spec_portfolio()[pm]),
                PricingResults::PnL(_) => false,
            },
            !held ==> final(self).spec_portfolio() == old(self).spec_portfolio(),
            final(self).spec_trades() == old(self).spec_trades(),
            final(self).spec_market() == old(self).spec_market(),
            final(self).spec_metrics() == old(self).spec_metrics(),
            final(self).spec_count() == old(self).spec_count(),
    {
        match self.portfolio.take(pm) {
            Some(mut p) => {
                add_results(&mut p, results, combine);
                self.portfolio.insert(pm, p);
                assert(self.portfolio@.dom() =~= old(self).portfolio@.dom());
                true
            },
            None => {
                assert(self.portfolio@ =~= old(self).portfolio@);
                false
            },
        }
    }

    /// Decides on a proposed portfolio. Without metrics there is no decision;
    /// otherwise the current trades that the proposal's PV portfolio lacks are
    /// counted, and the proposal is accepted when fewer than
    /// `NTP_ALLOW_BEHIND` are missing.
    pub fn ntp_plan(&self, ntp_portfolio: &PmPortfolio<V>) -> (d: Option<NtpDecision>)
        requires
            self.wf(),
            ntp_portfolio.wf(),
        ensures
            self.spec_metrics().len() == 0 <==> d is None,
            d matches Some(dec) ==> {
                &&& dec.behind.wf()
                &&& dec.behind@ == ntp_behind(self.spec_trades(), ntp_portfolio@)
                &&& dec.accepted == (dec.behind@.len() < NTP_ALLOW_BEHIND)
            },
    {
        if self.pricing_results.len() == 0 {
            return None;
        }
        let behind = match ntp_portfolio.get(PricingMetric::PV) {
            Some(pv) => {
                let keys = pv.trade_ids();
                self.trades.difference(&keys)
            },
            None => self.trades.duplicate(),
        };
        let n = behind.len();
        let accepted = (n as u64) < NTP_ALLOW_BEHIND;
        Some(NtpDecision { behind, accepted })
    }

    /// Whether pricing the lacking trades priced all of them; when not, the
    /// proposal is abandoned.
    pub fn additional_complete(priced: &TradeSet, behind: &TradeSet) -> (b: bool)
        requires
            priced.wf(),
            behind.wf(),
        ensures
            b == (priced@.len() >= behind@.len()),
    {
        priced.len() >= behind.len()
    }

    /// Takes an accepted proposal: the portfolio becomes the proposal with the
    /// lacking trades' portfolio added, the count restarts, the proposal's
    /// trades are added, and the market becomes the proposal's. Returns whether
    /// the processor moved away from a market it had (so that the market map
    /// is to be updated).
    pub fn accept_ntp<F: Fn(V, V) -> V>(
        &mut self,
        ntp_trades: &TradeSet,
        ntp_portfolio: PmPortfolio<V>,
        additional: &PmPortfolio<V>,
        ntp_market: String,
        combine: &F,
    ) -> (switched: bool)
        requires
            old(self).wf(),
            ntp_trades.wf(),
            ntp_portfolio.wf(),
            additional.wf(),
            forall|a: V, b: V| combine.requires((a, b)),
        ensures
            final(self).wf(),
            final(self).spec_count() == 0,
            final(self).spec_trades() == old(self).spec_trades().union(ntp_trades@),
            final(self).spec_market() == Some(ntp_market),
            final(self).spec_metrics() == old(self).spec_metrics(),
            switched == (old(self).spec_market() matches Some(m) && m@ != ntp_market@),
            final(self).spec_portfolio().dom() == ntp_portfolio@.dom().union(additional@.dom()),
            forall|m: PricingMetric| #[trigger] final(self).spec_portfolio().contains_key(m) && !additional@.contains_key(m)
                ==> final(self).spec_portfolio()[m] == ntp_portfolio@[m],
            forall|m: PricingMetric| #[trigger] final(self).spec_portfolio().contains_key(m) && additional@.contains_key(m)
                && !ntp_portfolio@.contains_key(m) ==> final(self).spec_portfolio()[m] == additional@[m],
            forall|m: PricingMetric| #[trigger] final(self).spec_portfolio().contains_key(m) && additional@.contains_key(m)
                && ntp_portfolio@.contains_key(m) ==> is_union_with(ntp_portfolio@[m], additional@[m], *combine, final(self).spec_portfolio()[m]),
    {
        let mut p = ntp_portfolio;
        p.add_assign_with(additional, combine);
        self.newtrades_since_last_newmarket = 0;
        self.portfolio = p;
        let switched = match &self.curr_market {
            Some(m) => *m != ntp_market,
            None => false,
        };
        self.trades.extend(ntp_trades);
        self.curr_market = Some(ntp_market);
        switched
    }

    /// New metrics arrive: the portfolio is brought in line with them.
    pub fn on_metric(&mut self, new_pricing_metrics: Vec<PricingMetric>)
        requires
            old(self).wf(),
        ensures
            final(self).wf(),
            final(self).spec_metrics() == new_pricing_metrics@,
            final(self).spec_portfolio().dom() == new_pricing_metrics@.to_set(),
            forall|m: PricingMetric| #[trigger] final(self).spec_portfolio().contains_key(m) && old(self).spec_portfolio().contains_key(m)
                ==> final(self).spec_portfolio()[m] == old(self).spec_portfolio()[m],
            forall|m: PricingMetric| #[trigger] final(self).spec_portfolio().contains_key(m) && !old(self).spec_portfolio().contains_key(m)
                ==> final(self).spec_portfolio()[m] == Map::<Seq<char>, V>::empty(),
            final(self).spec_trades() == old(self).spec_trades(),
            final(self).spec_market() == old(self).spec_market(),
            final(self).spec_count() == old(self).spec_count(),
    {
        change_metrics(&mut self.portfolio, &new_pricing_metrics);
        self.pricing_results = new_pricing_metrics;
    }
}

} // verus!
