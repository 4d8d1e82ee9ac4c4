//! The markets in use, and which market each processor prices on.
use vstd::prelude::*;
use crate::strmap::StrMap;

verus! {

/// The name under which the market handler keeps the latest market; it is
/// never pruned.
pub open spec fn future_market_name() -> Seq<char> {
    "future"@
}

/// Some processor prices on market `m`.
pub open spec fn market_referenced(processors: Map<Seq<char>, String>, m: Seq<char>) -> bool {
    exists|p: Seq<char>| #[trigger] processors.contains_key(p) && processors[p]@ == m
}

/// Every market held, except the future market, is priced on by some processor.
pub open spec fn markets_referenced<M>(markets: Map<Seq<char>, M>, processors: Map<Seq<char>, String>) -> bool {
    forall|m: Seq<char>| #[trigger] markets.contains_key(m) && m != future_market_name()
        ==> market_referenced(processors, m)
}

/// The markets kept when processor `processor` is pointed at `new_market`: the
/// market it priced on before is dropped when it is neither the new market
/// nor the future market and no processor prices on it any more.
pub open spec fn markets_after_repoint<M>(
    markets: Map<Seq<char>, M>,
    processors: Map<Seq<char>, String>,
    processor: Seq<char>,
    new_market: String,
) -> Map<Seq<char>, M> {
    match processors.get(processor) {
        Some(old_market) => {
            if old_market@ != new_market@ && old_market@ != future_market_name()
                && !market_referenced(processors.insert(processor, new_market), old_market@) {
                markets.remove(old_market@)
            } else {
                markets
            }
        },
        None => markets,
    }
}

/// The markets held by name, and the market each processor prices on.
pub struct AllMarkets<M> {
    markets: StrMap<M>,
    processor_market_map: StrMap<String>,
}

impl<M: Clone> AllMarkets<M> {
    /// The markets held, by name.
    pub closed spec fn markets(&self) -> Map<Seq<char>, M> {
        self.markets@
    }

    /// The market name of each processor.
    pub closed spec fn processors(&self) -> Map<Seq<char>, String> {
        self.processor_market_map@
    }

    pub closed spec fn wf(&self) -> bool {
        self.markets.wf() && self.processor_market_map.wf()
    }

    /// No markets and no processors.
    pub fn new() -> (a: Self)
        ensures
            a.wf(),
            a.markets() == Map::<Seq<char>, M>::empty(),
            a.processors() == Map::<Seq<char>, String>::empty(),
    {
        AllMarkets { markets: StrMap::new(), processor_market_map: StrMap::new() }
    }

    /// The names of the markets held.
    pub fn list_market_names(&self) -> (names: Vec<String>)
        requires
            self.wf(),
        ensures
            names@.map_values(|s: String| s@).to_set() == self.markets().dom(),
            names@.map_values(|s: String| s@).no_duplicates(),
    {
        proof { self.markets.lemma_key_seq(); }
        self.markets.keys()
    }

    /// The names of the processors that have a market.
    pub fn list_processor_names(&self) -> (names: Vec<String>)
        requires
            self.wf(),
        ensures
            names@.map_values(|s: String| s@).to_set() == self.processors().dom(),
            names@.map_values(|s: String| s@).no_duplicates(),
    {
        proof { self.processor_market_map.lemma_key_seq(); }
        self.processor_market_map.keys()
    }

    /// A copy of market `market_name`, if held.
    pub fn get(&self, market_name: &String) -> (r: Option<M>)
        requires
            self.wf(),
        ensures
            match r {
                Some(m) => self.markets().contains_key(market_name@) && cloned(self.markets()[market_name@], m),
                None => !self.markets().contains_key(market_name@),
            },
    {
        match self.markets.get(market_name) {
            Some(m) => Some(m.clone()),
            None => None,
        }
    }

    /// The market that processor `processor_name` prices on, if any.
    pub fn get_processor(&self, processor_name: &String) -> (r: Option<String>)
        requires
            self.wf(),
        ensures
            match r {
                Some(m) => self.processors().contains_key(processor_name@)
                    && m@ == self.processors()[processor_name@]@,
                None => !self.processors().contains_key(processor_name@),
            },
    {
        match self.processor_market_map.get(processor_name) {
            Some(m) => Some(m.clone()),
            None => None,
        }
    }

    /// Stores `market` under `market_name`, replacing a market of that name.
    pub fn insert(&mut self, market_name: String, market: M)
        requires
            old(self).wf(),
        ensures
            final(self).wf(),
            final(self).markets() == old(self).markets().insert(market_name@, market),
            final(self).processors() == old(self).processors(),
    {
        self.markets.insert(market_name, market);
    }

    /// Whether some processor prices on market `market_name`.
    pub fn is_referenced(&self, market_name: &String) -> (b: bool)
        requires
            self.wf(),
        ensures
            b == market_referenced(self.processors(), market_name@),
    {
        let n = self.processor_market_map.len();
        proof { self.processor_market_map.lemma_key_seq(); }
        for i in 0..n
            invariant
                n == self.processor_market_map.key_seq().len(),
                self.wf(),
                forall|j: int| 0 <= j < i ==> self.processors()[#[trigger] self.processor_market_map.key_seq()[j]]@ != market_name@,
        {
            let k = self.processor_market_map.key_at(i);
            let v = self.processor_market_map.value_at(i);
            if *v == *market_name {
                assert(self.processors().contains_key(k@));
                return true;
            }
        }
        proof {
            self.processor_market_map.lemma_key_seq();
            assert forall|p: Seq<char>| #[trigger] self.processors().contains_key(p) implies self.processors()[p]@ != market_name@ by {
                assert(self.processor_market_map.key_seq().to_set().contains(p));
                let j = choose|j: int| 0 <= j < n && self.processor_market_map.key_seq()[j] == p;
                assert(self.processors()[self.processor_market_map.key_seq()[j]]@ != market_name@);
            }
        }
        false
    }

    /// Points processor `processor_name` at market `new_processor_market`. The
    /// market it priced on before is dropped when no processor prices on it any
    /// more, unless it is the future market or the new market itself.
    pub fn insert_processor(&mut self, processor_name: String, new_processor_market: String)
        requires
            old(self).wf(),
        ensures
            final(self).wf(),
            final(self).processors() == old(self).processors().insert(processor_name@, new_processor_market),
            final(self).markets() == markets_after_repoint(
                old(self).markets(),
                old(self).processors(),
                processor_name@,
                new_processor_market,
            ),
    {
        let previous = self.processor_market_map.get(&processor_name);
        let previous: Option<String> = match previous {
            Some(m) => Some(m.clone()),
            None => None,
        };
        self.processor_market_map.insert(processor_name, new_processor_market.clone());
        if let Some(old_market) = previous {
            let future = String::from_str("future");
            if old_market != new_processor_market && old_market != future && !self.is_referenced(&old_market) {
                self.markets.remove(&old_market);
            }
        }
    }

    /// Stores `market` under `market_name` and points processor
    /// `processor_name` at it.
    pub fn insert_both(&mut self, processor_name: String, market_name: String, market: M)
        requires
            old(self).wf(),
        ensures
            final(self).wf(),
            final(self).processors() == old(self).processors().insert(processor_name@, market_name),
            final(self).markets().contains_key(market_name@),
            final(self).markets()[market_name@] == market,
            final(self).markets().dom().subset_of(old(self).markets().dom().insert(market_name@)),
            forall|m: Seq<char>| #[trigger] final(self).markets().contains_key(m) && m != market_name@
                ==> final(self).markets()[m] == old(self).markets()[m],
    {
        self.insert(market_name.clone(), market);
        let ghost mid = self.markets();
        self.insert_processor(processor_name, market_name);
    }
}

/// The markets held stay limited to those that some processor prices on
/// (and the future market) when a processor is pointed at a market.
pub proof fn lemma_insert_processor_keeps_markets_referenced<M>(
    markets: Map<Seq<char>, M>,
    processors: Map<Seq<char>, String>,
    processor: Seq<char>,
    new_market: String,
    markets_after: Map<Seq<char>, M>,
    processors_after: Map<Seq<char>, String>,
)
    requires
        markets_referenced(markets, processors),
        processors_after == processors.insert(processor, new_market),
        markets_after == markets_after_repoint(markets, processors, processor, new_market),
    ensures
        markets_referenced(markets_after, processors_after),
{
    assert forall|m: Seq<char>| #[trigger] markets_after.contains_key(m) && m != future_market_name()
        implies market_referenced(processors_after, m) by {
        assert(markets.contains_key(m));
        let p = choose|p: Seq<char>| #[trigger] processors.contains_key(p) && processors[p]@ == m;
        if p == processor {
            if m == new_market@ {
                assert(processors_after.contains_key(processor) && processors_after[processor]@ == m);
            } else {
                // the processor left market m; m was kept only if still referenced
                assert(processors.get(processor) == Some(processors[processor]));
            }
        } else {
            assert(processors_after.contains_key(p) && processors_after[p]@ == m);
        }
    }
}

} // verus!
