//! What every market type offers besides its prices.
use vstd::prelude::*;

verus! {

/// A market whose name can be changed, as the market handler does each time
/// it publishes a new version of the market.
pub trait SetName {
    fn set_name(&mut self, new_name: String);
}

} // verus!
