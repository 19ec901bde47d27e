use vstd::prelude::*;
use crate::resource::ResourceCounts;

verus! {

/// An open proposal of one player to the others: the offerer gives
/// `giving_resources` and receives `receiving_resources`.
#[derive(Clone, Copy, Debug)]
pub struct TradeOffer {
    pub player_offerer_id: usize,
    pub receiving_resources: ResourceCounts,
    pub giving_resources: ResourceCounts,
}

} // verus!
