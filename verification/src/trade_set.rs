//! A set of trade identifiers.
use vstd::prelude::*;
use crate::strmap::StrMap;

verus! {

/// A finite set of trade ids.
pub struct TradeSet {
    ids: StrMap<()>,
}

impl View for TradeSet {
    type V = Set<Seq<char>>;

    closed spec fn view(&self) -> Set<Seq<char>> {
        self.ids@.dom()
    }
}

impl TradeSet {
    /// The ids in the order in which the set enumerates them.
    pub closed spec fn id_seq(&self) -> Seq<Seq<char>> {
        self.ids.key_seq()
    }

    pub closed spec fn wf(&self) -> bool {
        self.ids.wf()
    }

    /// A well-formed set is finite and its enumeration lists each member once.
    pub proof fn lemma_id_seq(&self)
        requires
            self.wf(),
        ensures
            self.id_seq().no_duplicates(),
            self.id_seq().to_set() == self@,
            self@.finite(),
            self@.len() == self.id_seq().len(),
    {
        self.ids.lemma_key_seq();
    }

    pub fn new() -> (s: Self)
        ensures
            s.wf(),
            s@ == Set::<Seq<char>>::empty(),
    {
        let s = TradeSet { ids: StrMap::new() };
        assert(s@ =~= Set::<Seq<char>>::empty());
        s
    }

    pub fn len(&self) -> (n: usize)
        requires
            self.wf(),
        ensures
            n == self@.len(),
            n == self.id_seq().len(),
    {
        self.ids.len()
    }

    pub fn is_empty(&self) -> (b: bool)
        requires
            self.wf(),
        ensures
            b <==> self@ == Set::<Seq<char>>::empty(),
    {
        proof { self.ids.lemma_key_seq(); }
        let n = self.ids.len();
        if n != 0 {
            let k = self.ids.key_at(0);
            assert(self@.contains(k@));
        }
        proof {
            if n == 0 {
                assert(self@ =~= Set::<Seq<char>>::empty());
            }
        }
        n == 0
    }

    pub fn contains(&self, id: &String) -> (b: bool)
        requires
            self.wf(),
        ensures
            b == self@.contains(id@),
    {
        self.ids.contains_key(id)
    }

    /// The id at position `i` of the enumeration order.
    pub fn id_at(&self, i: usize) -> (id: &String)
        requires
            self.wf(),
            i < self.id_seq().len(),
        ensures
            id@ == self.id_seq()[i as int],
            self@.contains(id@),
    {
        self.ids.key_at(i)
    }

    pub fn insert(&mut self, id: String)
        requires
            old(self).wf(),
        ensures
            final(self).wf(),
            final(self)@ == old(self)@.insert(id@),
    {
        self.ids.insert(id, ());
        assert(self@ =~= old(self)@.insert(id@));
    }

    pub fn remove(&mut self, id: &String)
        requires
            old(self).wf(),
        ensures
            final(self).wf(),
            final(self)@ == old(self)@.remove(id@),
    {
        self.ids.remove(id);
        assert(self@ =~= old(self)@.remove(id@));
    }

    /// Adds every id of `other` (set union).
    pub fn extend(&mut self, other: &TradeSet)
        requires
            old(self).wf(),
            other.wf(),
        ensures
            final(self).wf(),
            final(self)@ == old(self)@.union(other@),
    {
        let n = other.len();
        proof { other.lemma_id_seq(); }
        for i in 0..n
            invariant
                n == other.id_seq().len(),
                other.wf(),
                other.id_seq().to_set() == other@,
                self.wf(),
                self@ == old(self)@.union(other.id_seq().take(i as int).to_set()),
        {
            let id = other.id_at(i).clone();
            self.insert(id);
            proof {
                assert(other.id_seq().take(i + 1) =~= other.id_seq().take(i as int).push(
                    other.id_seq()[i as int],
                ));
                other.id_seq().take(i as int).lemma_push_to_set_commute(other.id_seq()[i as int]);
                assert(self@ =~= old(self)@.union(other.id_seq().take(i + 1).to_set()));
            }
        }
        assert(other.id_seq().take(n as int) =~= other.id_seq());
    }

    /// The ids of `self` that are not in `other`.
    pub fn difference(&self, other: &TradeSet) -> (d: TradeSet)
        requires
            self.wf(),
            other.wf(),
        ensures
            d.wf(),
            d@ == self@.difference(other@),
    {
        let mut d = TradeSet::new();
        let n = self.len();
        proof { self.lemma_id_seq(); }
        for i in 0..n
            invariant
                n == self.id_seq().len(),
                self.wf(),
                other.wf(),
                self.id_seq().to_set() == self@,
                d.wf(),
                d@ == self.id_seq().take(i as int).to_set().difference(other@),
        {
            let id = self.id_at(i);
            if !other.contains(id) {
                d.insert(id.clone());
            }
            proof {
                assert(self.id_seq().take(i + 1) =~= self.id_seq().take(i as int).push(
                    self.id_seq()[i as int],
                ));
                self.id_seq().take(i as int).lemma_push_to_set_commute(self.id_seq()[i as int]);
                assert(d@ =~= self.id_seq().take(i + 1).to_set().difference(other@));
            }
        }
        assert(self.id_seq().take(n as int) =~= self.id_seq());
        d
    }

    /// Whether every id of `self` is in `other`.
    pub fn is_subset_of(&self, other: &TradeSet) -> (b: bool)
        requires
            self.wf(),
            other.wf(),
        ensures
            b == self@.subset_of(other@),
    {
        let n = self.len();
        proof { self.lemma_id_seq(); }
        for i in 0..n
            invariant
                n == self.id_seq().len(),
                self.wf(),
                other.wf(),
                self.id_seq().to_set() == self@,
                forall|j: int| 0 <= j < i ==> other@.contains(#[trigger] self.id_seq()[j]),
        {
            let id = self.id_at(i);
            if !other.contains(id) {
                return false;
            }
        }
        assert forall|x: Seq<char>| self@.contains(x) implies other@.contains(x) by {
            assert(self.id_seq().contains(x));
        }
        true
    }

    /// A copy of the set.
    pub fn duplicate(&self) -> (c: TradeSet)
        requires
            self.wf(),
        ensures
            c.wf(),
            c@ == self@,
    {
        let mut c = TradeSet::new();
        c.extend(self);
        assert(c@ =~= self@);
        c
    }

    /// Builds a set from a list of ids.
    pub fn from_ids(ids: Vec<String>) -> (s: TradeSet)
        ensures
            s.wf(),
            s@ == ids@.map_values(|x: String| x@).to_set(),
    {
        let mut s = TradeSet::new();
        let n = ids.len();
        for i in 0..n
            invariant
                n == ids@.len(),
                s.wf(),
                s@ == ids@.map_values(|x: String| x@).take(i as int).to_set(),
        {
            s.insert(ids[i].clone());
            proof {
                let m = ids@.map_values(|x: String| x@);
                assert(m.take(i + 1) =~= m.take(i as int).push(m[i as int]));
                m.take(i as int).lemma_push_to_set_commute(m[i as int]);
                assert(s@ =~= m.take(i + 1).to_set());
            }
        }
        assert(ids@.map_values(|x: String| x@).take(n as int) =~= ids@.map_values(|x: String| x@));
        s
    }
}

} // verus!
