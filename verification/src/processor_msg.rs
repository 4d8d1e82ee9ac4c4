//! Messages between the processors, and the count of messages of each kind.
use vstd::prelude::*;
use crate::metric::PricingMetric;
use crate::pm_portfolio::PmPortfolio;
use crate::trade_set::TradeSet;

verus! {

/// The kinds of message a processor receives.
#[derive(Clone, Copy, Debug, PartialEq, Eq, Structural)]
pub enum ProcessorMiddleMessageStates {
    NewTrade,
    NewMarket,
    Behind,
    BulkReceive,
    BulkBusy,
    NewTradePortfolio,
    ProcessingStat,
    Metric,
}

/// The name under which a kind of message is shown: the variant's name.
pub open spec fn kind_label(k: ProcessorMiddleMessageStates) -> Seq<char> {
    match k {
        ProcessorMiddleMessageStates::NewTrade => "NewTrade"@,
        ProcessorMiddleMessageStates::NewMarket => "NewMarket"@,
        ProcessorMiddleMessageStates::Behind => "Behind"@,
        ProcessorMiddleMessageStates::BulkReceive => "BulkReceive"@,
        ProcessorMiddleMessageStates::BulkBusy => "BulkBusy"@,
        ProcessorMiddleMessageStates::NewTradePortfolio => "NewTradePortfolio"@,
        ProcessorMiddleMessageStates::ProcessingStat => "ProcessingStat"@,
        ProcessorMiddleMessageStates::Metric => "Metric"@,
    }
}

impl ProcessorMiddleMessageStates {
    /// The name under which the kind is shown.
    pub fn label(&self) -> (s: String)
        ensures
            s@ == kind_label(*self),
    {
        match self {
            ProcessorMiddleMessageStates::NewTrade => String::from_str("NewTrade"),
            ProcessorMiddleMessageStates::NewMarket => String::from_str("NewMarket"),
            ProcessorMiddleMessageStates::Behind => String::from_str("Behind"),
            ProcessorMiddleMessageStates::BulkReceive => String::from_str("BulkReceive"),
            ProcessorMiddleMessageStates::BulkBusy => String::from_str("BulkBusy"),
            ProcessorMiddleMessageStates::NewTradePortfolio => String::from_str("NewTradePortfolio"),
            ProcessorMiddleMessageStates::ProcessingStat => String::from_str("ProcessingStat"),
            ProcessorMiddleMessageStates::Metric => String::from_str("Metric"),
        }
    }
}

/// The kinds of message in counting order.
pub open spec fn kind_at(i: int) -> ProcessorMiddleMessageStates {
    if i == 0 {
        ProcessorMiddleMessageStates::NewTrade
    } else if i == 1 {
        ProcessorMiddleMessageStates::NewMarket
    } else if i == 2 {
        ProcessorMiddleMessageStates::Behind
    } else if i == 3 {
        ProcessorMiddleMessageStates::BulkReceive
    } else if i == 4 {
        ProcessorMiddleMessageStates::BulkBusy
    } else if i == 5 {
        ProcessorMiddleMessageStates::NewTradePortfolio
    } else if i == 6 {
        ProcessorMiddleMessageStates::ProcessingStat
    } else {
        ProcessorMiddleMessageStates::Metric
    }
}

fn kind_of_slot(i: usize) -> (k: ProcessorMiddleMessageStates)
    requires
        i < 8,
    ensures
        k == kind_at(i as int),
{
    if i == 0 {
        ProcessorMiddleMessageStates::NewTrade
    } else if i == 1 {
        ProcessorMiddleMessageStates::NewMarket
    } else if i == 2 {
        ProcessorMiddleMessageStates::Behind
    } else if i == 3 {
        ProcessorMiddleMessageStates::BulkReceive
    } else if i == 4 {
        ProcessorMiddleMessageStates::BulkBusy
    } else if i == 5 {
        ProcessorMiddleMessageStates::NewTradePortfolio
    } else if i == 6 {
        ProcessorMiddleMessageStates::ProcessingStat
    } else {
        ProcessorMiddleMessageStates::Metric
    }
}

/// A message to a processor. (The actor that sent a `NewTradePortfolio`,
/// which the runtime needs for its reply, travels beside the message.)
pub enum ProcessorMiddleMessage<V> {
    /// From the trade producer: the id of a new trade.
    NewTrade(String),
    /// From the market handler: the name under which a new market is kept.
    NewMarket(String),
    /// From the processor below: the market evaluated and the trades that the
    /// sender is behind (empty when its portfolio was accepted).
    Behind(String, TradeSet),
    /// From the bulk processor: all trades, the portfolio of the priced trades,
    /// the trades that could not be priced, and the market priced on.
    BulkReceive(TradeSet, PmPortfolio<V>, TradeSet, String),
    /// The bulk processor is busy.
    BulkBusy,
    /// From the processor above: the trades priced, their portfolio, and the
    /// market they were priced on.
    NewTradePortfolio(TradeSet, PmPortfolio<V>, String),
    /// A processing statistic: processor name, time in milliseconds, number of
    /// trades processed so far.
    ProcessingStat(String, i64, usize),
    /// The metrics to compute from now on.
    Metric(Vec<PricingMetric>),
}

impl<V> ProcessorMiddleMessage<V> {
    pub open spec fn spec_kind(&self) -> ProcessorMiddleMessageStates {
        match self {
            ProcessorMiddleMessage::NewTrade(_) => ProcessorMiddleMessageStates::NewTrade,
            ProcessorMiddleMessage::NewMarket(_) => ProcessorMiddleMessageStates::NewMarket,
            ProcessorMiddleMessage::Behind(_, _) => ProcessorMiddleMessageStates::Behind,
            ProcessorMiddleMessage::BulkReceive(_, _, _, _) => ProcessorMiddleMessageStates::BulkReceive,
            ProcessorMiddleMessage::BulkBusy => ProcessorMiddleMessageStates::BulkBusy,
            ProcessorMiddleMessage::NewTradePortfolio(_, _, _) => ProcessorMiddleMessageStates::NewTradePortfolio,
            ProcessorMiddleMessage::ProcessingStat(_, _, _) => ProcessorMiddleMessageStates::ProcessingStat,
            ProcessorMiddleMessage::Metric(_) => ProcessorMiddleMessageStates::Metric,
        }
    }

    /// The kind of the message.
    pub fn kind(&self) -> (k: ProcessorMiddleMessageStates)
        ensures
            k == self.spec_kind(),
    {
        match self {
            ProcessorMiddleMessage::NewTrade(_) => ProcessorMiddleMessageStates::NewTrade,
            ProcessorMiddleMessage::NewMarket(_) => ProcessorMiddleMessageStates::NewMarket,
            ProcessorMiddleMessage::Behind(_, _) => ProcessorMiddleMessageStates::Behind,
            ProcessorMiddleMessage::BulkReceive(_, _, _, _) => ProcessorMiddleMessageStates::BulkReceive,
            ProcessorMiddleMessage::BulkBusy => ProcessorMiddleMessageStates::BulkBusy,
            ProcessorMiddleMessage::NewTradePortfolio(_, _, _) => ProcessorMiddleMessageStates::NewTradePortfolio,
            ProcessorMiddleMessage::ProcessingStat(_, _, _) => ProcessorMiddleMessageStates::ProcessingStat,
            ProcessorMiddleMessage::Metric(_) => ProcessorMiddleMessageStates::Metric,
        }
    }

    /// The trade id of a `NewTrade` message.
    pub fn get_trade(&self) -> (r: Option<String>)
        ensures
            match self {
                ProcessorMiddleMessage::NewTrade(t) => r == Some(*t),
                _ => r is None,
            },
    {
        match self {
            ProcessorMiddleMessage::NewTrade(t) => Some(t.clone()),
            _ => None,
        }
    }
}

/// A message to a bulk processor.
pub enum ProcessorBulkMessage {
    /// The market to price on, the trades to price, and the metrics; the actor
    /// that wants the result travels beside the message.
    NewBulk(String, TradeSet, Vec<PricingMetric>),
    Abandon,
}

/// The count of kind `k` set by a list of (kind, count) pairs: the last pair
/// for `k`, or 0 when there is none.
pub open spec fn count_from_pairs(pairs: Seq<(ProcessorMiddleMessageStates, u64)>, k: ProcessorMiddleMessageStates) -> u64
    decreases pairs.len(),
{
    if pairs.len() == 0 {
        0
    } else if pairs.last().0 == k {
        pairs.last().1
    } else {
        count_from_pairs(pairs.drop_last(), k)
    }
}

/// How many messages of each kind a processor has received.
pub struct PNStateDistr {
    counts: [u64; 8],
}

pub open spec fn kind_index(k: ProcessorMiddleMessageStates) -> int {
    match k {
        ProcessorMiddleMessageStates::NewTrade => 0,
        ProcessorMiddleMessageStates::NewMarket => 1,
        ProcessorMiddleMessageStates::Behind => 2,
        ProcessorMiddleMessageStates::BulkReceive => 3,
        ProcessorMiddleMessageStates::BulkBusy => 4,
        ProcessorMiddleMessageStates::NewTradePortfolio => 5,
        ProcessorMiddleMessageStates::ProcessingStat => 6,
        ProcessorMiddleMessageStates::Metric => 7,
    }
}

fn kind_slot(k: ProcessorMiddleMessageStates) -> (i: usize)
    ensures
        i == kind_index(k),
{
    match k {
        ProcessorMiddleMessageStates::NewTrade => 0,
        ProcessorMiddleMessageStates::NewMarket => 1,
        ProcessorMiddleMessageStates::Behind => 2,
        ProcessorMiddleMessageStates::BulkReceive => 3,
        ProcessorMiddleMessageStates::BulkBusy => 4,
        ProcessorMiddleMessageStates::NewTradePortfolio => 5,
        ProcessorMiddleMessageStates::ProcessingStat => 6,
        ProcessorMiddleMessageStates::Metric => 7,
    }
}

/// Different kinds count in different slots.
proof fn lemma_kind_index_injective(j: ProcessorMiddleMessageStates, k: ProcessorMiddleMessageStates)
    requires
        j != k,
    ensures
        kind_index(j) != kind_index(k),
{
    match j {
        ProcessorMiddleMessageStates::NewTrade => {},
        ProcessorMiddleMessageStates::NewMarket => {},
        ProcessorMiddleMessageStates::Behind => {},
        ProcessorMiddleMessageStates::BulkReceive => {},
        ProcessorMiddleMessageStates::BulkBusy => {},
        ProcessorMiddleMessageStates::NewTradePortfolio => {},
        ProcessorMiddleMessageStates::ProcessingStat => {},
        ProcessorMiddleMessageStates::Metric => {},
    }
    match k {
        ProcessorMiddleMessageStates::NewTrade => {},
        ProcessorMiddleMessageStates::NewMarket => {},
        ProcessorMiddleMessageStates::Behind => {},
        ProcessorMiddleMessageStates::BulkReceive => {},
        ProcessorMiddleMessageStates::BulkBusy => {},
        ProcessorMiddleMessageStates::NewTradePortfolio => {},
        ProcessorMiddleMessageStates::ProcessingStat => {},
        ProcessorMiddleMessageStates::Metric => {},
    }
}

impl PNStateDistr {
    /// The count of messages of kind `k`.
    pub closed spec fn count_of(&self, k: ProcessorMiddleMessageStates) -> u64 {
        self.counts@[kind_index(k)]
    }

    /// All counts at zero.
    pub fn new() -> (d: Self)
        ensures
            forall|k: ProcessorMiddleMessageStates| #[trigger] d.count_of(k) == 0,
    {
        PNStateDistr { counts: [0u64; 8] }
    }

    /// Counts set from (kind, count) pairs; a kind listed twice takes the
    /// later count, a kind not listed starts at zero.
    pub fn from_counts(pairs: &Vec<(ProcessorMiddleMessageStates, u64)>) -> (d: Self)
        ensures
            forall|k: ProcessorMiddleMessageStates| #[trigger] d.count_of(k) == count_from_pairs(pairs@, k),
    {
        let mut d = PNStateDistr::new();
        for i in 0..pairs.len()
            invariant
                forall|k: ProcessorMiddleMessageStates| #[trigger] d.count_of(k) == count_from_pairs(pairs@.take(i as int), k),
        {
            let (k, c) = pairs[i];
            let slot = kind_slot(k);
            let ghost before = d.counts@;
            let ghost old_d = d;
            d.counts[slot] = c;
            proof {
                assert(d.counts@ == before.update(slot as int, c));
                assert(pairs@[i as int] == (k, c));
                assert(pairs@.take(i + 1).drop_last() =~= pairs@.take(i as int));
                assert(pairs@.take(i + 1).last() == pairs@[i as int]);
                assert forall|j: ProcessorMiddleMessageStates| #[trigger] d.count_of(j) == count_from_pairs(pairs@.take(i + 1), j) by {
                    if j != k {
                        lemma_kind_index_injective(j, k);
                        assert(d.count_of(j) == old_d.count_of(j));
                    }
                }
            }
        }
        proof {
            assert(pairs@.take(pairs@.len() as int) =~= pairs@);
        }
        d
    }

    /// The count of messages of kind `k`.
    pub fn get(&self, k: ProcessorMiddleMessageStates) -> (c: u64)
        ensures
            c == self.count_of(k),
    {
        self.counts[kind_slot(k)]
    }

    /// Every kind's name with its count, in the order of the kinds.
    pub fn snapshot(&self) -> (entries: Vec<(String, u64)>)
        ensures
            entries@.len() == 8,
            forall|i: int| 0 <= i < 8 ==> (#[trigger] entries@[i]).0@ == kind_label(kind_at(i))
                && entries@[i].1 == self.count_of(kind_at(i)),
    {
        let mut entries: Vec<(String, u64)> = Vec::new();
        for i in 0..8usize
            invariant
                entries@.len() == i,
                forall|j: int| 0 <= j < i ==> (#[trigger] entries@[j]).0@ == kind_label(kind_at(j))
                    && entries@[j].1 == self.count_of(kind_at(j)),
        {
            let k = kind_of_slot(i);
            entries.push((k.label(), self.get(k)));
        }
        entries
    }

    /// Counts one more message of kind `k`.
    pub fn incr_one(&mut self, k: ProcessorMiddleMessageStates)
        requires
            old(self).count_of(k) < u64::MAX,
        ensures
            final(self).count_of(k) == old(self).count_of(k) + 1,
            forall|j: ProcessorMiddleMessageStates| j != k ==> #[trigger] final(self).count_of(j) == old(self).count_of(j),
    {
        let i = kind_slot(k);
        let c = self.counts[i];
        self.counts[i] = c + 1;
        assert forall|j: ProcessorMiddleMessageStates| j != k implies #[trigger] self.count_of(j) == old(self).count_of(j) by {
            lemma_kind_index_injective(j, k);
        }
    }
}

} // verus!
