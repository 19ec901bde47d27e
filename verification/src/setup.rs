use vstd::prelude::*;
use crate::action::{Action, ActionType};
use crate::building::Building;
use crate::game::{next_seat, Game};
use crate::player::Player;

verus! {

#[allow(non_snake_case)]
impl Game {
    /// When an action is taken in the setup phase: a known player, with a
    /// piece of the kind left, places a first settlement or a first road
    /// where the board allows it.
    pub open spec fn can_setup(self, action: Action, player: usize) -> bool {
        &&& player < 4
        &&& match action.action_type {
            ActionType::PlaySettlement => self.players[player as int].num_unplaced_settlements > 0
                && self.board.can_place_initial_settlement(
                Building::Settlement(action.action_metadata[0], player),
            ),
            ActionType::PlayRoad => self.players[player as int].num_unplaced_roads > 0
                && self.board.can_place_initial_road(
                Building::Road(action.action_metadata[0], player),
            ),
            _ => false,
        }
    }

    /// `post` is `self` after `p` placed a first settlement on `node`: it
    /// stands on the board, the player has one settlement fewer to place
    /// and has recorded the node, and one more turn of the setup is over.
    pub open spec fn first_settlement_placed(self, post: Game, node: usize, p: usize) -> bool {
        &&& self.board.node_rebuilt(post.board, node as int, Some(Building::Settlement(node, p)))
        &&& post.bank == self.bank
        &&& post.players[p as int] == (Player {
            num_unplaced_settlements: (self.players[p as int].num_unplaced_settlements
                - 1) as usize,
            settlement_placements: post.players[p as int].settlement_placements,
            ..self.players[p as int]
        })
        &&& post.players[p as int].settlement_placements@
            == self.players[p as int].settlement_placements@.push(node)
        &&& forall|q: int| 0 <= q < 4 && q != p ==> #[trigger] post.players[q] == self.players[q]
        &&& post.turn_number == self.turn_number + 1
        &&& post.current_player_id == self.current_player_id
        &&& post.current_trade_offer == self.current_trade_offer
        &&& post.rolled_dice_this_turn == self.rolled_dice_this_turn
        &&& post.previous_dice_roll == self.previous_dice_roll
        &&& post.players_accepted_trade_offer == self.players_accepted_trade_offer
    }

    /// `post` is `self` after `p` placed a first road on `edge`: it stands
    /// on the board, the player has one road fewer to place and has
    /// recorded the edge, one more turn of the setup is over, and it is the
    /// next player's turn.
    pub open spec fn first_road_placed(self, post: Game, edge: usize, p: usize) -> bool {
        &&& self.board.edge_rebuilt(post.board, edge as int, Some(Building::Road(edge, p)))
        &&& post.bank == self.bank
        &&& post.players[p as int] == (Player {
            num_unplaced_roads: (self.players[p as int].num_unplaced_roads - 1) as usize,
            road_placements: post.players[p as int].road_placements,
            ..self.players[p as int]
        })
        &&& post.players[p as int].road_placements@
            == self.players[p as int].road_placements@.push(edge)
        &&& forall|q: int| 0 <= q < 4 && q != p ==> #[trigger] post.players[q] == self.players[q]
        &&& post.turn_number == self.turn_number + 1
        &&& post.current_player_id == next_seat(self.current_player_id)
        &&& post.current_trade_offer == self.current_trade_offer
        &&& post.rolled_dice_this_turn == self.rolled_dice_this_turn
        &&& post.previous_dice_roll == self.previous_dice_roll
        &&& post.players_accepted_trade_offer == self.players_accepted_trade_offer
    }

    /// What an action of the setup phase does, where it is taken.
    pub open spec fn setup_done(self, post: Game, action: Action, player: usize) -> bool {
        match action.action_type {
            ActionType::PlaySettlement => self.first_settlement_placed(
                post,
                action.action_metadata[0],
                player,
            ),
            ActionType::PlayRoad => self.first_road_placed(post, action.action_metadata[0], player),
            _ => false,
        }
    }

    /// Takes an action of the setup phase: a first settlement or a first
    /// road, free of charge. Anything else is refused.
    pub fn handleInitialTurn(&mut self, action: Action, player_id: usize) -> (taken: bool)
        requires
            old(self).wf(),
            old(self).in_setup(),
        ensures
            final(self).wf(),
            taken == old(self).can_setup(action, player_id),
            taken ==> old(self).setup_done(*final(self), action, player_id),
            !taken ==> *final(self) == *old(self),
            old(self).same_supply(*final(self)),
    {
        if player_id >= 4 {
            return false;
        }
        proof {
            old(self).lemma_wf_parts();
        }
        let position = action.action_metadata[0];
        match action.action_type {
            ActionType::PlaySettlement => {
                if self.players[player_id].num_unplaced_settlements == 0 {
                    return false;
                }
                let new_settlement = Building::Settlement(position, player_id);
                if !self.board.placeInitialSettlement(new_settlement) {
                    return false;
                }
                proof {
                    self.lemma_frame_keeps_wf(*old(self));
                }
                let ghost placed = *self;
                self.record_settlement(player_id, position, false);
                let ghost recorded = *self;
                self.turn_number += 1;
                proof {
                    recorded.lemma_wf_parts();
                    self.lemma_frame_keeps_wf(recorded);
                    assert forall|q: int| 0 <= q < 4 && q != player_id implies #[trigger] self.players[q]
                        == old(self).players[q] by {
                        assert(recorded.players[q] == placed.players[q]);
                    }
                }
                true
            },
            ActionType::PlayRoad => {
                if self.players[player_id].num_unplaced_roads == 0 {
                    return false;
                }
                let new_road = Building::Road(position, player_id);
                if !self.board.placeInitialRoad(new_road) {
                    return false;
                }
                proof {
                    self.lemma_frame_keeps_wf(*old(self));
                }
                let ghost placed = *self;
                self.record_road(player_id, position);
                let ghost recorded = *self;
                self.turn_number += 1;
                self.current_player_id = (self.current_player_id + 1) % 4;
                proof {
                    recorded.lemma_wf_parts();
                    self.lemma_frame_keeps_wf(recorded);
                    assert forall|q: int| 0 <= q < 4 && q != player_id implies #[trigger] self.players[q]
                        == old(self).players[q] by {
                        assert(recorded.players[q] == placed.players[q]);
                    }
                }
                true
            },
            _ => false,
        }
    }
}

} // verus!
