//! A portfolio: the value of each trade, keyed by trade id.
//!
//! The library is generic over the value type `V`; the arithmetic on values
//! (adding two prices, negating one, scaling one) is handed in by the caller
//! as a closure, and the contracts state what the portfolio does with what
//! the closure returns.
use vstd::prelude::*;
use crate::strmap::StrMap;
use crate::trade_set::TradeSet;

verus! {

/// The ordering of two portfolios by their sets of trades: equal sets are
/// `Equal`, a strict subset is `Less`, a strict superset is `Greater`, and
/// two sets of which neither contains the other are incomparable.
pub open spec fn key_set_order(a: Set<Seq<char>>, b: Set<Seq<char>>) -> Option<std::cmp::Ordering> {
    if a.subset_of(b) && b.subset_of(a) {
        Some(std::cmp::Ordering::Equal)
    } else if a.subset_of(b) {
        Some(std::cmp::Ordering::Less)
    } else if b.subset_of(a) {
        Some(std::cmp::Ordering::Greater)
    } else {
        None
    }
}

/// `r` is `a` merged with `b`: keys only in `a` keep their value, keys only in
/// `b` get `lift` of their value, and keys in both get `combine` of the two.
pub open spec fn is_merge<V, F: Fn(V, V) -> V, G: Fn(V) -> V>(
    a: Map<Seq<char>, V>,
    b: Map<Seq<char>, V>,
    combine: F,
    lift: G,
    r: Map<Seq<char>, V>,
) -> bool {
    &&& r.dom() == a.dom().union(b.dom())
    &&& forall|k: Seq<char>| #[trigger] r.contains_key(k) && a.contains_key(k) && !b.contains_key(k) ==> r[k] == a[k]
    &&& forall|k: Seq<char>| #[trigger] r.contains_key(k) && !a.contains_key(k) && b.contains_key(k) ==> call_ensures(lift, (b[k],), r[k])
    &&& forall|k: Seq<char>| #[trigger] r.contains_key(k) && a.contains_key(k) && b.contains_key(k) ==> call_ensures(combine, (a[k], b[k]), r[k])
}

/// `r` is `a` with `b` added: keys only in `b` are copied over unchanged.
pub open spec fn is_union_with<V, F: Fn(V, V) -> V>(
    a: Map<Seq<char>, V>,
    b: Map<Seq<char>, V>,
    combine: F,
    r: Map<Seq<char>, V>,
) -> bool {
    &&& r.dom() == a.dom().union(b.dom())
    &&& forall|k: Seq<char>| #[trigger] r.contains_key(k) && a.contains_key(k) && !b.contains_key(k) ==> r[k] == a[k]
    &&& forall|k: Seq<char>| #[trigger] r.contains_key(k) && !a.contains_key(k) && b.contains_key(k) ==> r[k] == b[k]
    &&& forall|k: Seq<char>| #[trigger] r.contains_key(k) && a.contains_key(k) && b.contains_key(k) ==> call_ensures(combine, (a[k], b[k]), r[k])
}

/// `r` has the keys of `a`, each value transformed by `f`.
pub open spec fn is_mapped<V, F: Fn(V) -> V>(a: Map<Seq<char>, V>, f: F, r: Map<Seq<char>, V>) -> bool {
    &&& r.dom() == a.dom()
    &&& forall|k: Seq<char>| #[trigger] r.contains_key(k) ==> call_ensures(f, (a[k],), r[k])
}

/// `r` has the keys of `a`; a key that has a factor in `factors` gets `f` of its
/// value and the factor, any other key keeps its value.
pub open spec fn is_scaled_by<V, W, F: Fn(V, W) -> V>(
    a: Map<Seq<char>, V>,
    factors: Map<Seq<char>, W>,
    f: F,
    r: Map<Seq<char>, V>,
) -> bool {
    &&& r.dom() == a.dom()
    &&& forall|k: Seq<char>| #[trigger] r.contains_key(k) && factors.contains_key(k) ==> call_ensures(f, (a[k], factors[k]), r[k])
    &&& forall|k: Seq<char>| #[trigger] r.contains_key(k) && !factors.contains_key(k) ==> r[k] == a[k]
}

/// The map built by inserting the pairs one after the other (a later pair
/// with the same key replaces an earlier one).
pub open spec fn pairs_to_map<V>(pairs: Seq<(String, V)>) -> Map<Seq<char>, V>
    decreases pairs.len(),
{
    if pairs.len() == 0 {
        Map::empty()
    } else {
        pairs_to_map(pairs.drop_last()).insert(pairs.last().0@, pairs.last().1)
    }
}

/// The value of each trade, by trade id.
pub struct PortfolioType<V> {
    values: StrMap<V>,
}

impl<V> View for PortfolioType<V> {
    type V = Map<Seq<char>, V>;

    closed spec fn view(&self) -> Map<Seq<char>, V> {
        self.values@
    }
}

impl<V: Copy> PortfolioType<V> {
    /// The trade ids in the order in which the portfolio enumerates them.
    pub closed spec fn key_seq(&self) -> Seq<Seq<char>> {
        self.values.key_seq()
    }

    pub closed spec fn wf(&self) -> bool {
        self.values.wf()
    }

    /// A well-formed portfolio is finite and enumerates each trade once.
    pub proof fn lemma_key_seq(&self)
        requires
            self.wf(),
        ensures
            self.key_seq().no_duplicates(),
            self.key_seq().to_set() == self@.dom(),
            self@.dom().finite(),
            self@.dom().len() == self.key_seq().len(),
    {
        self.values.lemma_key_seq();
    }

    /// The empty portfolio.
    pub fn new() -> (p: Self)
        ensures
            p.wf(),
            p@ == Map::<Seq<char>, V>::empty(),
    {
        PortfolioType { values: StrMap::new() }
    }

    /// Builds a portfolio from (trade id, value) pairs; of two pairs with the
    /// same id the later one wins.
    pub fn from_pairs(pairs: Vec<(String, V)>) -> (p: Self)
        ensures
            p.wf(),
            p@ == pairs_to_map(pairs@),
    {
        let mut p = Self::new();
        let n = pairs.len();
        for i in 0..n
            invariant
                n == pairs@.len(),
                p.wf(),
                p@ == pairs_to_map(pairs@.take(i as int)),
        {
            let (k, v) = (pairs[i].0.clone(), pairs[i].1);
            p.insert(k, v);
            proof {
                assert(pairs@.take(i + 1).drop_last() =~= pairs@.take(i as int));
            }
        }
        assert(pairs@.take(n as int) =~= pairs@);
        p
    }

    /// Number of trades in the portfolio.
    pub fn len(&self) -> (n: usize)
        requires
            self.wf(),
        ensures
            n == self@.dom().len(),
    {
        self.values.len()
    }

    pub fn contains_key(&self, id: &String) -> (b: bool)
        requires
            self.wf(),
        ensures
            b == self@.contains_key(id@),
    {
        self.values.contains_key(id)
    }

    pub fn get(&self, id: &String) -> (r: Option<V>)
        requires
            self.wf(),
        ensures
            r == (if self@.contains_key(id@) { Some(self@[id@]) } else { None::<V> }),
    {
        match self.values.get(id) {
            Some(v) => Some(*v),
            None => None,
        }
    }

    /// Sets the value of trade `id`.
    pub fn insert(&mut self, id: String, value: V)
        requires
            old(self).wf(),
        ensures
            final(self).wf(),
            final(self)@ == old(self)@.insert(id@, value),
    {
        self.values.insert(id, value);
    }

    /// The trade id at position `i` of the enumeration order.
    pub fn key_at(&self, i: usize) -> (id: &String)
        requires
            self.wf(),
            i < self.key_seq().len(),
        ensures
            id@ == self.key_seq()[i as int],
            self@.contains_key(id@),
    {
        self.values.key_at(i)
    }

    /// The value at position `i` of the enumeration order.
    pub fn value_at(&self, i: usize) -> (v: V)
        requires
            self.wf(),
            i < self.key_seq().len(),
        ensures
            v == self@[self.key_seq()[i as int]],
    {
        *self.values.value_at(i)
    }

    /// The set of trade ids held.
    pub fn trade_ids(&self) -> (s: TradeSet)
        requires
            self.wf(),
        ensures
            s.wf(),
            s@ == self@.dom(),
    {
        let mut s = TradeSet::new();
        let n = self.values.len();
        proof { self.values.lemma_key_seq(); }
        for i in 0..n
            invariant
                n == self.key_seq().len(),
                self.wf(),
                self.key_seq().to_set() == self@.dom(),
                s.wf(),
                s@ == self.key_seq().take(i as int).to_set(),
        {
            s.insert(self.values.key_at(i).clone());
            proof {
                assert(self.key_seq().take(i + 1) =~= self.key_seq().take(i as int).push(
                    self.key_seq()[i as int],
                ));
                self.key_seq().take(i as int).lemma_push_to_set_commute(self.key_seq()[i as int]);
            }
        }
        assert(self.key_seq().take(n as int) =~= self.key_seq());
        s
    }

    /// A copy of the portfolio.
    pub fn duplicate(&self) -> (c: Self)
        requires
            self.wf(),
        ensures
            c.wf(),
            c@ == self@,
    {
        let mut c = Self::new();
        let n = self.values.len();
        proof { self.values.lemma_key_seq(); }
        for i in 0..n
            invariant
                n == self.key_seq().len(),
                self.wf(),
                self.key_seq().no_duplicates(),
                c.wf(),
                c@ == self@.restrict(self.key_seq().take(i as int).to_set()),
        {
            let k = self.values.key_at(i).clone();
            let v = *self.values.value_at(i);
            c.insert(k, v);
            proof {
                assert(self.key_seq().take(i + 1) =~= self.key_seq().take(i as int).push(
                    self.key_seq()[i as int],
                ));
                self.key_seq().take(i as int).lemma_push_to_set_commute(self.key_seq()[i as int]);
                assert(c@ =~= self@.restrict(self.key_seq().take(i + 1).to_set()));
            }
        }
        proof {
            assert(self.key_seq().take(n as int) =~= self.key_seq());
            self.values.lemma_key_seq();
        }
        assert(c@ =~= self@);
        c
    }

    /// Whether every trade of `self` is also in `other`.
    pub fn keys_within(&self, other: &Self) -> (b: bool)
        requires
            self.wf(),
            other.wf(),
        ensures
            b == self@.dom().subset_of(other@.dom()),
    {
        let n = self.values.len();
        proof { self.values.lemma_key_seq(); }
        for i in 0..n
            invariant
                n == self.key_seq().len(),
                self.wf(),
                other.wf(),
                self.key_seq().to_set() == self@.dom(),
                forall|j: int| 0 <= j < i ==> other@.contains_key(#[trigger] self.key_seq()[j]),
        {
            if !other.values.contains_key(self.values.key_at(i)) {
                return false;
            }
        }
        assert forall|x: Seq<char>| self@.dom().contains(x) implies other@.dom().contains(x) by {
            assert(self.key_seq().contains(x));
        }
        true
    }

    /// Merges `other` into `self`: a trade in both gets `combine(mine, theirs)`,
    /// a trade only in `other` gets `lift(theirs)`, the rest is unchanged.
    pub fn merge_with<F: Fn(V, V) -> V, G: Fn(V) -> V>(&mut self, other: &Self, combine: &F, lift: &G)
        requires
            old(self).wf(),
            other.wf(),
            forall|a: V, b: V| combine.requires((a, b)),
            forall|b: V| lift.requires((b,)),
        ensures
            final(self).wf(),
            is_merge(old(self)@, other@, *combine, *lift, final(self)@),
    {
        let ghost a = self@;
        let n = other.values.len();
        proof { other.values.lemma_key_seq(); }
        for i in 0..n
            invariant
                n == other.key_seq().len(),
                other.wf(),
                other.key_seq().no_duplicates(),
                other.key_seq().to_set() == other@.dom(),
                forall|x: V, y: V| combine.requires((x, y)),
                forall|y: V| lift.requires((y,)),
                self.wf(),
                self@.dom() == a.dom().union(other.key_seq().take(i as int).to_set()),
                forall|k: Seq<char>| #[trigger] self@.contains_key(k) && a.contains_key(k)
                    && !other.key_seq().take(i as int).to_set().contains(k) ==> self@[k] == a[k],
                forall|k: Seq<char>| #[trigger] self@.contains_key(k) && !a.contains_key(k)
                    && other.key_seq().take(i as int).to_set().contains(k) ==> call_ensures(*lift, (other@[k],), self@[k]),
                forall|k: Seq<char>| #[trigger] self@.contains_key(k) && a.contains_key(k)
                    && other.key_seq().take(i as int).to_set().contains(k) ==> call_ensures(*combine, (a[k], other@[k]), self@[k]),
        {
            let k = other.values.key_at(i);
            let bv = *other.values.value_at(i);
            let cur: Option<V> = match self.values.get(k) {
                Some(v) => Some(*v),
                None => None,
            };
            let ghost before = self@;
            let nv = match cur {
                Some(av) => combine(av, bv),
                None => lift(bv),
            };
            self.values.insert(k.clone(), nv);
            proof {
                let ks = other.key_seq();
                assert(ks.take(i + 1) =~= ks.take(i as int).push(ks[i as int]));
                ks.take(i as int).lemma_push_to_set_commute(ks[i as int]);
                assert(!ks.take(i as int).to_set().contains(ks[i as int]));
                if !a.contains_key(k@) {
                    assert(!before.contains_key(k@));
                }
                assert(self@.dom() =~= a.dom().union(ks.take(i + 1).to_set()));
            }
        }
        assert(other.key_seq().take(n as int) =~= other.key_seq());
        assert(self@.dom() =~= a.dom().union(other@.dom()));
    }

    /// Adds `other` into `self`: a trade in both gets `combine(mine, theirs)`, a
    /// trade only in `other` is copied, the rest is unchanged.
    pub fn add_assign_with<F: Fn(V, V) -> V>(&mut self, other: &Self, combine: &F)
        requires
            old(self).wf(),
            other.wf(),
            forall|a: V, b: V| combine.requires((a, b)),
        ensures
            final(self).wf(),
            is_union_with(old(self)@, other@, *combine, final(self)@),
    {
        let keep = |v: V| -> (r: V) ensures r == v { v };
        self.merge_with(other, combine, &keep);
    }

    /// Subtracts `other` from `self`: a trade in both gets `sub(mine, theirs)`,
    /// a trade only in `other` gets `neg(theirs)`, the rest is unchanged.
    pub fn sub_assign_with<F: Fn(V, V) -> V, G: Fn(V) -> V>(&mut self, other: &Self, sub: &F, neg: &G)
        requires
            old(self).wf(),
            other.wf(),
            forall|a: V, b: V| sub.requires((a, b)),
            forall|b: V| neg.requires((b,)),
        ensures
            final(self).wf(),
            is_merge(old(self)@, other@, *sub, *neg, final(self)@),
    {
        self.merge_with(other, sub, neg);
    }

    /// The sum of two portfolios (consumes `self`).
    pub fn add_with<F: Fn(V, V) -> V>(self, other: &Self, combine: &F) -> (r: Self)
        requires
            self.wf(),
            other.wf(),
            forall|a: V, b: V| combine.requires((a, b)),
        ensures
            r.wf(),
            is_union_with(self@, other@, *combine, r@),
    {
        let mut r = self;
        r.add_assign_with(other, combine);
        r
    }

    /// A portfolio with the same trades, each value transformed by `f`
    /// (negation, or multiplication by a constant).
    pub fn map_values_with<F: Fn(V) -> V>(&self, f: &F) -> (r: Self)
        requires
            self.wf(),
            forall|a: V| f.requires((a,)),
        ensures
            r.wf(),
            is_mapped(self@, *f, r@),
    {
        let mut r = Self::new();
        let n = self.values.len();
        proof { self.values.lemma_key_seq(); }
        for i in 0..n
            invariant
                n == self.key_seq().len(),
                self.wf(),
                self.key_seq().no_duplicates(),
                forall|x: V| f.requires((x,)),
                r.wf(),
                r@.dom() == self.key_seq().take(i as int).to_set(),
                forall|k: Seq<char>| #[trigger] r@.contains_key(k) ==> call_ensures(*f, (self@[k],), r@[k]),
        {
            let k = self.values.key_at(i).clone();
            let v = *self.values.value_at(i);
            let nv = f(v);
            r.insert(k, nv);
            proof {
                let ks = self.key_seq();
                assert(ks.take(i + 1) =~= ks.take(i as int).push(ks[i as int]));
                ks.take(i as int).lemma_push_to_set_commute(ks[i as int]);
                assert(r@.dom() =~= ks.take(i + 1).to_set());
            }
        }
        proof {
            assert(self.key_seq().take(n as int) =~= self.key_seq());
            self.values.lemma_key_seq();
        }
        r
    }

    /// Transforms every value in place by `f`.
    pub fn map_values_in_place<F: Fn(V) -> V>(&mut self, f: &F)
        requires
            old(self).wf(),
            forall|a: V| f.requires((a,)),
        ensures
            final(self).wf(),
            is_mapped(old(self)@, *f, final(self)@),
    {
        let r = self.map_values_with(f);
        *self = r;
    }

    /// Multiplies, in place, the value of each trade that has a factor in
    /// `factors` by that factor (`f` does the multiplication); a trade without
    /// a factor is left as it is.
    pub fn scale_by<W: Copy, F: Fn(V, W) -> V>(&mut self, factors: &StrMap<W>, f: &F)
        requires
            old(self).wf(),
            factors.wf(),
            forall|a: V, w: W| f.requires((a, w)),
        ensures
            final(self).wf(),
            is_scaled_by(old(self)@, factors@, *f, final(self)@),
    {
        let ghost a = self@;
        let mut r = Self::new();
        let n = self.values.len();
        proof { self.values.lemma_key_seq(); }
        for i in 0..n
            invariant
                n == self.key_seq().len(),
                self.wf(),
                self@ == a,
                factors.wf(),
                self.key_seq().no_duplicates(),
                forall|x: V, w: W| f.requires((x, w)),
                r.wf(),
                r@.dom() == self.key_seq().take(i as int).to_set(),
                forall|k: Seq<char>| #[trigger] r@.contains_key(k) && factors@.contains_key(k)
                    ==> call_ensures(*f, (a[k], factors@[k]), r@[k]),
                forall|k: Seq<char>| #[trigger] r@.contains_key(k) && !factors@.contains_key(k)
                    ==> r@[k] == a[k],
        {
            let k = self.values.key_at(i);
            let v = *self.values.value_at(i);
            let nv = match factors.get(k) {
                Some(w) => f(v, *w),
                None => v,
            };
            r.insert(k.clone(), nv);
            proof {
                let ks = self.key_seq();
                assert(ks.take(i + 1) =~= ks.take(i as int).push(ks[i as int]));
                ks.take(i as int).lemma_push_to_set_commute(ks[i as int]);
                assert(r@.dom() =~= ks.take(i + 1).to_set());
            }
        }
        proof {
            assert(self.key_seq().take(n as int) =~= self.key_seq());
            self.values.lemma_key_seq();
        }
        *self = r;
    }

    /// Whether the two portfolios hold the same trades with values that `eq`
    /// finds equal.
    pub fn matches<F: Fn(V, V) -> bool>(&self, other: &Self, eq: &F) -> (b: bool)
        requires
            self.wf(),
            other.wf(),
            forall|a: V, c: V| eq.requires((a, c)),
        ensures
            b ==> self@.dom() == other@.dom(),
            b ==> forall|k: Seq<char>| #[trigger] self@.contains_key(k) ==> call_ensures(*eq, (self@[k], other@[k]), true),
            !b ==> self@.dom() != other@.dom() || exists|k: Seq<char>| #[trigger] self@.contains_key(k)
                && call_ensures(*eq, (self@[k], other@[k]), false),
    {
        if !self.keys_within(other) || !other.keys_within(self) {
            return false;
        }
        assert(self@.dom() =~= other@.dom());
        let n = self.values.len();
        proof { self.values.lemma_key_seq(); }
        for i in 0..n
            invariant
                n == self.key_seq().len(),
                self.wf(),
                other.wf(),
                self.key_seq().to_set() == self@.dom(),
                self@.dom() == other@.dom(),
                forall|x: V, y: V| eq.requires((x, y)),
                forall|j: int| 0 <= j < i ==> call_ensures(*eq, (self@[#[trigger] self.key_seq()[j]], other@[self.key_seq()[j]]), true),
        {
            let k = self.values.key_at(i);
            let v = *self.values.value_at(i);
            let w = match other.values.get(k) {
                Some(w) => *w,
                None => v,
            };
            if !eq(v, w) {
                return false;
            }
        }
        assert forall|k: Seq<char>| #[trigger] self@.contains_key(k) implies call_ensures(*eq, (self@[k], other@[k]), true) by {
            assert(self.key_seq().contains(k));
            let j = choose|j: int| 0 <= j < self.key_seq().len() && self.key_seq()[j] == k;
        }
        true
    }

    /// Compares two portfolios by their sets of trades (values play no part).
    pub fn partial_cmp(&self, other: &Self) -> (r: Option<std::cmp::Ordering>)
        requires
            self.wf(),
            other.wf(),
        ensures
            r == key_set_order(self@.dom(), other@.dom()),
    {
        let self_within = self.keys_within(other);
        let other_within = other.keys_within(self);
        if self_within && other_within {
            Some(std::cmp::Ordering::Equal)
        } else if self_within {
            Some(std::cmp::Ordering::Less)
        } else if other_within {
            Some(std::cmp::Ordering::Greater)
        } else {
            None
        }
    }
}

} // verus!
