//! Positions as the early controller received them: a small trade id and what
//! the message does to the position, and the pruning of positions that offset
//! each other.
use vstd::prelude::*;
use crate::trade::TradeDirection;

verus! {

/// A position message: trade `trade_id` is created, deleted or updated.
#[derive(Clone, Copy, Debug, PartialEq, Eq, Structural)]
pub struct Trade {
    pub trade_id: u8,
    pub direction: TradeDirection,
}

/// The creation of trade `id`.
pub open spec fn creation(id: u8) -> Trade {
    Trade { trade_id: id, direction: TradeDirection::Create }
}

/// The positions left after pruning `trades` in order: a creation or an
/// update is kept; a deletion removes the earliest kept creation of the same
/// trade, and is dropped when there is none.
pub open spec fn pruned(trades: Seq<Trade>) -> Seq<Trade>
    decreases trades.len(),
{
    if trades.len() == 0 {
        Seq::empty()
    } else {
        let kept = pruned(trades.drop_last());
        let t = trades.last();
        if t.direction == TradeDirection::Delete {
            kept.remove_value(creation(t.trade_id))
        } else {
            kept.push(t)
        }
    }
}

/// The index of the first creation of trade `id` in `kept`, if any.
fn first_creation(kept: &Vec<Trade>, id: u8) -> (r: Option<usize>)
    ensures
        match r {
            Some(i) => kept@.index_of_first(creation(id)) == Some(i as int) && i < kept@.len(),
            None => kept@.index_of_first(creation(id)) is None,
        },
{
    proof { kept@.index_of_first_ensures(creation(id)); }
    let target = Trade { trade_id: id, direction: TradeDirection::Create };
    let mut i: usize = 0;
    while i < kept.len()
        invariant
            i <= kept.len(),
            target == creation(id),
            forall|j: int| 0 <= j < i ==> kept@[j] != target,
        decreases kept.len() - i,
    {
        if kept[i] == target {
            proof {
                kept@.index_of_first_ensures(target);
                let k = kept@.index_of_first(target)->0;
                assert(kept@.contains(target));
                assert(k == i as int) by {
                    if k < i {
                        assert(kept@[k] != target);
                    } else if k > i {
                        assert(kept@[i as int] == target);
                    }
                }
            }
            return Some(i);
        }
        i += 1;
    }
    proof {
        assert(!kept@.contains(target));
    }
    None
}

/// Prunes offsetting positions: walks `trades` in order, keeping creations
/// and updates, and letting each deletion cancel the earliest kept creation
/// of its trade.
pub fn prune_offsetting_trades(trades: &Vec<Trade>) -> (kept: Vec<Trade>)
    ensures
        kept@ == pruned(trades@),
{
    let mut kept: Vec<Trade> = Vec::new();
    for k in 0..trades.len()
        invariant
            kept@ == pruned(trades@.take(k as int)),
    {
        let trade = trades[k];
        proof {
            assert(trades@.take(k + 1).drop_last() =~= trades@.take(k as int));
            assert(trades@.take(k + 1).last() == trade);
        }
        match trade.direction {
            TradeDirection::Delete => {
                if let Some(i) = first_creation(&kept, trade.trade_id) {
                    let ghost before = kept@;
                    kept.remove(i);
                    proof {
                        assert(kept@ =~= before.remove(i as int));
                    }
                }
            },
            _ => {
                kept.push(trade);
            },
        }
    }
    proof {
        assert(trades@.take(trades@.len() as int) =~= trades@);
    }
    kept
}

/// Pruning never keeps a deletion.
pub proof fn lemma_pruned_has_no_deletion(trades: Seq<Trade>)
    ensures
        forall|i: int| 0 <= i < pruned(trades).len() ==> (#[trigger] pruned(trades)[i]).direction != TradeDirection::Delete,
    decreases trades.len(),
{
    if trades.len() > 0 {
        let kept = pruned(trades.drop_last());
        lemma_pruned_has_no_deletion(trades.drop_last());
        let t = trades.last();
        if t.direction == TradeDirection::Delete {
            kept.index_of_first_ensures(creation(t.trade_id));
            match kept.index_of_first(creation(t.trade_id)) {
                Some(j) => {
                    let r = kept.remove(j);
                    assert forall|i: int| 0 <= i < r.len() implies (#[trigger] r[i]).direction != TradeDirection::Delete by {
                        if i < j {
                            assert(r[i] == kept[i]);
                        } else {
                            assert(r[i] == kept[i + 1]);
                        }
                    }
                },
                None => {},
            }
        }
    }
}

/// Pruning keeps at most as many positions as it is given.
pub proof fn lemma_pruned_len(trades: Seq<Trade>)
    ensures
        pruned(trades).len() <= trades.len(),
    decreases trades.len(),
{
    if trades.len() > 0 {
        lemma_pruned_len(trades.drop_last());
        let kept = pruned(trades.drop_last());
        let t = trades.last();
        if t.direction == TradeDirection::Delete {
            kept.index_of_first_ensures(creation(t.trade_id));
        }
    }
}

/// A creation of a trade followed at once by its deletion leaves the pruned
/// positions the same, up to order.
pub proof fn lemma_create_then_delete_cancels(trades: Seq<Trade>, id: u8)
    ensures
        pruned(trades.push(creation(id)).push(Trade { trade_id: id, direction: TradeDirection::Delete })).to_multiset()
            == pruned(trades).to_multiset(),
{
    let del = Trade { trade_id: id, direction: TradeDirection::Delete };
    let s1 = trades.push(creation(id));
    let s2 = s1.push(del);
    assert(s2.drop_last() =~= s1);
    assert(s1.drop_last() =~= trades);
    let kept = pruned(trades);
    let with_c = kept.push(creation(id));
    assert(pruned(s1) == with_c);
    with_c.index_of_first_ensures(creation(id));
    let j = with_c.index_of_first(creation(id))->0;
    assert(with_c.contains(creation(id))) by {
        assert(with_c[kept.len() as int] == creation(id));
    }
    let r = with_c.remove(j);
    assert(pruned(s2) == r);
    with_c.to_multiset_ensures();
    kept.to_multiset_ensures();
    assert(with_c[j] == creation(id));
    assert(r.to_multiset() =~= kept.to_multiset().insert(creation(id)).remove(creation(id)));
    assert(kept.to_multiset().insert(creation(id)).remove(creation(id)) =~= kept.to_multiset());
}

} // verus!
