//! What a trade offers beyond its price.
use vstd::prelude::*;

verus! {

/// A trade that can be hedged on a market of type `MT`, giving hedges of
/// type `TR`.
pub trait HedgeTrade<MT, TR> {
    fn hedge(&self, market: MT) -> TR;
}

} // verus!
