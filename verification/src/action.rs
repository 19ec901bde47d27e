use vstd::prelude::*;

verus! {

/// What a player asks the game to do.
///
/// `action_metadata` is read by position, depending on `action_type`:
/// - `PlaceRobber`: tile, victim;
/// - `PlaySettlement`, `PlayCity`: node;
/// - `PlayRoad`: edge;
/// - `OfferTrade`: positions 0 to 4 the cards given, 5 to 9 the cards asked,
///   each in the order Ore, Wheat, Sheep, Brick, Lumber;
/// - `AcceptTrade`: the player whose acceptance the offerer takes up;
/// - `Discard`: positions 0 to 4 the cards discarded;
/// - `PlayDevelopmentCard`: the card's tag, then a tile and a victim (Knight),
///   a resource kind (Monopoly), two edges (RoadBuilding) or two resource
///   kinds (YearOfPlenty).
#[derive(Clone, Copy, Debug)]
pub struct Action {
    pub action_type: ActionType,
    pub action_metadata: [usize; 10],
}

#[derive(Clone, Copy, PartialEq, Eq, Structural, Debug)]
pub enum ActionType {
    RollDice,
    PlaceRobber,
    PlaySettlement,
    PlayRoad,
    PlayCity,
    OfferTrade,
    AcceptTrade,
    DeclineTrade,
    PlayDevelopmentCard,
    DrawDevelopmentCard,
    Discard,
    EndTurn,
}

} // verus!
