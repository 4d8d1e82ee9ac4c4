//! Trades: their direction, the registry of all trades, and the aggregated
//! positions per trade.
use vstd::prelude::*;
use crate::strmap::StrMap;
use crate::trade_set::TradeSet;

verus! {

/// What a trade message does to a position.
#[derive(Clone, Copy, Debug, PartialEq, Eq, Structural)]
pub enum TradeDirection {
    Create,
    Delete,
    Update,
}

/// What every trade type offers: an identifier and a direction.
pub trait BaseTrade {
    /// The identifier, as a spec value.
    spec fn spec_id(&self) -> Seq<char>;

    /// Whether the trade carries a direction that the library knows.
    spec fn has_direction(&self) -> bool;

    /// The direction, as a spec value.
    spec fn spec_direction(&self) -> TradeDirection;

    fn id(&self) -> (r: String)
        ensures
            r@ == self.spec_id(),
    ;

    fn direction(&self) -> (d: TradeDirection)
        requires
            self.has_direction(),
        ensures
            d == self.spec_direction(),
    ;
}

/// How a trade of the given direction changes the aggregated position.
pub open spec fn direction_delta(d: TradeDirection) -> int {
    match d {
        TradeDirection::Create => 1,
        TradeDirection::Delete => -1,
        TradeDirection::Update => 0,
    }
}

/// The aggregated position after a trade of direction `d` on a position map:
/// an existing position moves by the direction's step and disappears when it
/// reaches zero; a new trade id starts at the step.
pub open spec fn add_position(m: Map<Seq<char>, i64>, id: Seq<char>, d: TradeDirection) -> Map<Seq<char>, i64> {
    if m.contains_key(id) {
        let p = m[id] + direction_delta(d);
        if p == 0 {
            m.remove(id)
        } else if p > i64::MAX {
            m.insert(id, i64::MAX)
        } else if p < i64::MIN {
            m.insert(id, i64::MIN)
        } else {
            m.insert(id, p as i64)
        }
    } else {
        m.insert(id, direction_delta(d) as i64)
    }
}

/// Net positions per trade id: creations count +1, deletions -1.
pub struct AggregatedTrades {
    positions: StrMap<i64>,
}

impl View for AggregatedTrades {
    type V = Map<Seq<char>, i64>;

    closed spec fn view(&self) -> Map<Seq<char>, i64> {
        self.positions@
    }
}

impl AggregatedTrades {
    pub closed spec fn wf(&self) -> bool {
        self.positions.wf()
    }

    pub fn new() -> (a: Self)
        ensures
            a.wf(),
            a@ == Map::<Seq<char>, i64>::empty(),
    {
        AggregatedTrades { positions: StrMap::new() }
    }

    /// The positions, as a map that portfolios can be scaled by.
    pub fn positions(&self) -> (m: &StrMap<i64>)
        requires
            self.wf(),
        ensures
            m.wf(),
            m@ == self@,
    {
        &self.positions
    }

    pub fn get(&self, id: &String) -> (r: Option<i64>)
        requires
            self.wf(),
        ensures
            r == (if self@.contains_key(id@) { Some(self@[id@]) } else { None::<i64> }),
    {
        match self.positions.get(id) {
            Some(v) => Some(*v),
            None => None,
        }
    }

    /// Records a trade of direction `direction` on trade `id`.
    pub fn add_trade(&mut self, id: String, direction: TradeDirection)
        requires
            old(self).wf(),
        ensures
            final(self).wf(),
            final(self)@ == add_position(old(self)@, id@, direction),
    {
        let delta: i64 = match direction {
            TradeDirection::Create => 1,
            TradeDirection::Delete => -1,
            TradeDirection::Update => 0,
        };
        match self.positions.get(&id) {
            Some(p) => {
                let p = *p;
                let np: i64 = if delta == 1 && p == i64::MAX {
                    i64::MAX
                } else if delta == -1 && p == i64::MIN {
                    i64::MIN
                } else {
                    p + delta
                };
                if np == 0 {
                    self.positions.remove(&id);
                } else {
                    self.positions.insert(id, np);
                }
            },
            None => {
                self.positions.insert(id, delta);
            },
        }
    }

    /// Records `trade`.
    pub fn add<T: BaseTrade>(&mut self, trade: &T)
        requires
            old(self).wf(),
            trade.has_direction(),
        ensures
            final(self).wf(),
            final(self)@ == add_position(old(self)@, trade.spec_id(), trade.spec_direction()),
    {
        let id = trade.id();
        let d = trade.direction();
        self.add_trade(id, d);
    }
}

/// The registry built by adding the trades one after the other under their
/// ids (a later trade replaces an earlier one with the same id).
pub open spec fn trades_to_map<TR: BaseTrade>(ts: Seq<TR>) -> Map<Seq<char>, TR>
    decreases ts.len(),
{
    if ts.len() == 0 {
        Map::empty()
    } else {
        trades_to_map(ts.drop_last()).insert(ts.last().spec_id(), ts.last())
    }
}

/// The registry of trades by id; `TR` is the trade representation.
pub struct TradeRep<TR> {
    trades: StrMap<TR>,
}

impl<TR> View for TradeRep<TR> {
    type V = Map<Seq<char>, TR>;

    closed spec fn view(&self) -> Map<Seq<char>, TR> {
        self.trades@
    }
}

impl<TR: Clone> TradeRep<TR> {
    pub closed spec fn wf(&self) -> bool {
        self.trades.wf()
    }

    /// The empty registry.
    pub fn new() -> (r: Self)
        ensures
            r.wf(),
            r@ == Map::<Seq<char>, TR>::empty(),
    {
        TradeRep { trades: StrMap::new() }
    }

    pub fn len(&self) -> (n: usize)
        requires
            self.wf(),
        ensures
            n == self@.dom().len(),
    {
        self.trades.len()
    }

    /// Whether the registry holds trade `trade_id`.
    pub fn contains(&self, trade_id: &String) -> (b: bool)
        requires
            self.wf(),
        ensures
            b == self@.contains_key(trade_id@),
    {
        self.trades.contains_key(trade_id)
    }

    /// A copy of trade `trade_id`, if held.
    pub fn get(&self, trade_id: &String) -> (r: Option<TR>)
        requires
            self.wf(),
        ensures
            match r {
                Some(t) => self@.contains_key(trade_id@) && cloned(self@[trade_id@], t),
                None => !self@.contains_key(trade_id@),
            },
    {
        match self.trades.get(trade_id) {
            Some(t) => Some(t.clone()),
            None => None,
        }
    }

    /// All trade ids held.
    pub fn all_trade_names(&self) -> (names: Vec<String>)
        requires
            self.wf(),
        ensures
            names@.map_values(|s: String| s@).to_set() == self@.dom(),
            names@.map_values(|s: String| s@).no_duplicates(),
    {
        proof { self.trades.lemma_key_seq(); }
        self.trades.keys()
    }

    /// The set of trade ids held.
    pub fn trade_ids(&self) -> (s: TradeSet)
        requires
            self.wf(),
        ensures
            s.wf(),
            s@ == self@.dom(),
    {
        let names = self.all_trade_names();
        TradeSet::from_ids(names)
    }

    /// The registry of the given trades, each under its id.
    pub fn from_trades(trades: Vec<TR>) -> (r: Self)
        where TR: BaseTrade,
        ensures
            r.wf(),
            r@ == trades_to_map(trades@),
    {
        let mut r = TradeRep::new();
        let mut rest = trades;
        let ghost all = rest@;
        let n = rest.len();
        let mut i: usize = 0;
        while i < n
            invariant
                i <= n,
                n == all.len(),
                rest@ == all.skip(i as int),
                r.wf(),
                r@ == trades_to_map(all.take(i as int)),
            decreases n - i,
        {
            let t = rest.remove(0);
            let id = t.id();
            r.upsert(id, t);
            proof {
                assert(all.take(i + 1).drop_last() =~= all.take(i as int));
                assert(all.take(i + 1).last() == all[i as int]);
                assert(rest@ =~= all.skip(i + 1));
            }
            i += 1;
        }
        proof {
            assert(all.take(n as int) =~= all);
        }
        r
    }

    /// Inserts or replaces trade `trade_id`.
    pub fn upsert(&mut self, trade_id: String, trade: TR)
        requires
            old(self).wf(),
        ensures
            final(self).wf(),
            final(self)@ == old(self)@.insert(trade_id@, trade),
    {
        self.trades.insert(trade_id, trade);
    }

    /// Inserts or replaces `trade` under its own id.
    pub fn add_trade(&mut self, trade: &TR)
        where TR: BaseTrade,
        requires
            old(self).wf(),
        ensures
            final(self).wf(),
            final(self)@.dom() == old(self)@.dom().insert(trade.spec_id()),
            cloned(*trade, final(self)@[trade.spec_id()]),
            forall|k: Seq<char>| k != trade.spec_id() && #[trigger] old(self)@.contains_key(k) ==> final(self)@[k] == old(self)@[k],
    {
        let id = trade.id();
        let t = trade.clone();
        self.trades.insert(id, t);
    }

    /// Inserts or replaces every trade of `other`.
    pub fn extend(&mut self, other: &TradeRep<TR>)
        requires
            old(self).wf(),
            other.wf(),
        ensures
            final(self).wf(),
            final(self)@.dom() == old(self)@.dom().union(other@.dom()),
            forall|k: Seq<char>| #[trigger] other@.contains_key(k) ==> cloned(other@[k], final(self)@[k]),
            forall|k: Seq<char>| #[trigger] old(self)@.contains_key(k) && !other@.contains_key(k) ==> final(self)@[k] == old(self)@[k],
    {
        let ghost a = self@;
        let n = other.trades.len();
        proof { other.trades.lemma_key_seq(); }
        for i in 0..n
            invariant
                n == other.trades.key_seq().len(),
                other.wf(),
                other.trades.key_seq().no_duplicates(),
                self.wf(),
                self@.dom() == a.dom().union(other.trades.key_seq().take(i as int).to_set()),
                forall|k: Seq<char>| #[trigger] self@.contains_key(k) && other.trades.key_seq().take(i as int).to_set().contains(k)
                    ==> cloned(other@[k], self@[k]),
                forall|k: Seq<char>| #[trigger] self@.contains_key(k) && !other.trades.key_seq().take(i as int).to_set().contains(k)
                    ==> self@[k] == a[k],
        {
            let k = other.trades.key_at(i).clone();
            let t = other.trades.value_at(i).clone();
            self.trades.insert(k, t);
            proof {
                let ks = other.trades.key_seq();
                assert(ks.take(i + 1) =~= ks.take(i as int).push(ks[i as int]));
                ks.take(i as int).lemma_push_to_set_commute(ks[i as int]);
                assert(self@.dom() =~= a.dom().union(ks.take(i + 1).to_set()));
            }
        }
        proof {
            assert(other.trades.key_seq().take(n as int) =~= other.trades.key_seq());
            other.trades.lemma_key_seq();
        }
        assert forall|k: Seq<char>| #[trigger] other@.contains_key(k) implies cloned(other@[k], self@[k]) by {
            assert(self@.contains_key(k));
        }
        assert forall|k: Seq<char>| #[trigger] a.contains_key(k) && !other@.contains_key(k) implies self@[k] == a[k] by {
            assert(self@.contains_key(k));
        }
    }

    /// Removes every trade whose id is in `other`.
    pub fn remove_all<TR2: Clone>(&mut self, other: &TradeRep<TR2>)
        requires
            old(self).wf(),
            other.wf(),
        ensures
            final(self).wf(),
            final(self)@ == old(self)@.remove_keys(other@.dom()),
    {
        let ghost a = self@;
        let n = other.trades.len();
        proof { other.trades.lemma_key_seq(); }
        for i in 0..n
            invariant
                n == other.trades.key_seq().len(),
                other.wf(),
                self.wf(),
                self@ == a.remove_keys(other.trades.key_seq().take(i as int).to_set()),
        {
            self.trades.remove(other.trades.key_at(i));
            proof {
                let ks = other.trades.key_seq();
                assert(ks.take(i + 1) =~= ks.take(i as int).push(ks[i as int]));
                ks.take(i as int).lemma_push_to_set_commute(ks[i as int]);
                assert(self@ =~= a.remove_keys(ks.take(i + 1).to_set()));
            }
        }
        proof {
            assert(other.trades.key_seq().take(n as int) =~= other.trades.key_seq());
            other.trades.lemma_key_seq();
        }
    }

    /// The trades of `self` whose ids are not in `other`.
    pub fn minus<TR2: Clone>(self, other: &TradeRep<TR2>) -> (r: Self)
        requires
            self.wf(),
            other.wf(),
        ensures
            r.wf(),
            r@ == self@.remove_keys(other@.dom()),
    {
        let mut r = self;
        r.remove_all(other);
        r
    }

    /// Two registries are equal when they hold the same trade ids.
    pub fn same_trades<TR2: Clone>(&self, other: &TradeRep<TR2>) -> (b: bool)
        requires
            self.wf(),
            other.wf(),
        ensures
            b == (self@.dom() == other@.dom()),
    {
        let a = self.trade_ids();
        let c = other.trade_ids();
        let r = a.is_subset_of(&c) && c.is_subset_of(&a);
        proof {
            if a@.subset_of(c@) && c@.subset_of(a@) {
                assert(a@ =~= c@);
            }
        }
        r
    }
}

impl<TR> BaseTrade for TradeRep<TR> {
    /// A registry is known by a fixed name.
    open spec fn spec_id(&self) -> Seq<char> {
        "TradeRep"@
    }

    open spec fn has_direction(&self) -> bool {
        true
    }

    open spec fn spec_direction(&self) -> TradeDirection {
        TradeDirection::Create
    }

    fn id(&self) -> (r: String) {
        String::from_str("TradeRep")
    }

    fn direction(&self) -> (d: TradeDirection) {
        TradeDirection::Create
    }
}

} // verus!
