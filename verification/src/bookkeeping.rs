use vstd::prelude::*;
use crate::board::EDGE_COUNT;
use crate::development::DevelopmentCard;
use crate::game::{seat_ok, Game};
use crate::player::Player;

verus! {

impl Game {
    /// Notes that `player` placed a settlement on `node`: one settlement
    /// fewer is left to place, and the placement is worth a point where
    /// `scored` says so.
    pub fn record_settlement(&mut self, player: usize, node: usize, scored: bool)
        requires
            old(self).wf(),
            player < 4,
            old(self).players[player as int].num_unplaced_settlements > 0,
        ensures
            final(self).wf(),
            old(self).only_player_changed(*final(self), player as int),
            old(self).same_supply(*final(self)),
            final(self).players[player as int] == (Player {
                num_unplaced_settlements: (old(self).players[player as int].num_unplaced_settlements
                    - 1) as usize,
                victory_points: (old(self).players[player as int].victory_points + if scored {
                    1int
                } else {
                    0int
                }) as usize,
                settlement_placements: final(self).players[player as int].settlement_placements,
                ..old(self).players[player as int]
            }),
            final(self).players[player as int].settlement_placements@ == old(
                self,
            ).players[player as int].settlement_placements@.push(node),
    {
        proof {
            old(self).lemma_wf_parts();
            old(self).lemma_seat(player as int);
        }
        self.players[player].num_unplaced_settlements -= 1;
        self.players[player].settlement_placements.push(node);
        if scored {
            self.players[player].victory_points += 1;
        }
        proof {
            assert(self.player_ok(player as int)) by {
                reveal(seat_ok);
            }
            self.lemma_player_changed_keeps_wf(*old(self), player as int);
        }
    }

    /// Notes that `player` turned the settlement on `node` into a city: one
    /// city fewer is left to place, one settlement more, and the player
    /// gains a point.
    pub fn record_city(&mut self, player: usize, node: usize)
        requires
            old(self).wf(),
            player < 4,
            old(self).players[player as int].num_unplaced_cities > 0,
        ensures
            final(self).wf(),
            old(self).only_player_changed(*final(self), player as int),
            old(self).same_supply(*final(self)),
            final(self).players[player as int] == (Player {
                num_unplaced_cities: (old(self).players[player as int].num_unplaced_cities
                    - 1) as usize,
                num_unplaced_settlements: (old(self).players[player as int].num_unplaced_settlements
                    + 1) as usize,
                victory_points: (old(self).players[player as int].victory_points + 1) as usize,
                city_placements: final(self).players[player as int].city_placements,
                ..old(self).players[player as int]
            }),
            final(self).players[player as int].city_placements@ == old(
                self,
            ).players[player as int].city_placements@.push(node),
    {
        proof {
            old(self).lemma_wf_parts();
            old(self).lemma_seat(player as int);
        }
        self.players[player].num_unplaced_cities -= 1;
        self.players[player].num_unplaced_settlements += 1;
        self.players[player].victory_points += 1;
        self.players[player].city_placements.push(node);
        proof {
            assert(self.player_ok(player as int)) by {
                reveal(seat_ok);
            }
            self.lemma_player_changed_keeps_wf(*old(self), player as int);
        }
    }

    /// Notes that `player` placed a road on `edge`: one road fewer is left
    /// to place.
    pub fn record_road(&mut self, player: usize, edge: usize)
        requires
            old(self).wf(),
            player < 4,
            edge < EDGE_COUNT,
            old(self).players[player as int].num_unplaced_roads > 0,
        ensures
            final(self).wf(),
            old(self).only_player_changed(*final(self), player as int),
            old(self).same_supply(*final(self)),
            final(self).players[player as int] == (Player {
                num_unplaced_roads: (old(self).players[player as int].num_unplaced_roads
                    - 1) as usize,
                road_placements: final(self).players[player as int].road_placements,
                ..old(self).players[player as int]
            }),
            final(self).players[player as int].road_placements@ == old(
                self,
            ).players[player as int].road_placements@.push(edge),
    {
        proof {
            old(self).lemma_wf_parts();
            old(self).lemma_seat(player as int);
        }
        self.players[player].num_unplaced_roads -= 1;
        self.players[player].road_placements.push(edge);
        proof {
            assert(self.player_ok(player as int)) by {
                reveal(seat_ok);
            }
            self.lemma_player_changed_keeps_wf(*old(self), player as int);
        }
    }

    /// Gives up one playable card of kind `card`.
    pub fn spend_card(&mut self, player: usize, card: DevelopmentCard)
        requires
            old(self).wf(),
            player < 4,
            old(self).players[player as int].development_cards.amount(card) > 0,
        ensures
            final(self).wf(),
            old(self).only_player_changed(*final(self), player as int),
            old(self).same_supply(*final(self)),
            final(self).players[player as int] == (Player {
                development_cards: old(self).players[player as int].development_cards.with_amount(
                    card,
                    (old(self).players[player as int].development_cards.amount(card) - 1) as usize,
                ),
                ..old(self).players[player as int]
            }),
    {
        proof {
            old(self).lemma_wf_parts();
            old(self).lemma_seat(player as int);
        }
        self.players[player].removeDevelopmentCard(card);
        proof {
            assert(self.player_ok(player as int)) by {
                reveal(seat_ok);
            }
            self.lemma_player_changed_keeps_wf(*old(self), player as int);
        }
    }

    /// Gives up one playable knight and counts it as played.
    pub fn spend_knight(&mut self, player: usize)
        requires
            old(self).wf(),
            player < 4,
            old(self).players[player as int].development_cards.amount(DevelopmentCard::Knight) > 0,
        ensures
            final(self).wf(),
            old(self).only_player_changed(*final(self), player as int),
            old(self).same_supply(*final(self)),
            final(self).players[player as int] == (Player {
                development_cards: old(self).players[player as int].development_cards.with_amount(
                    DevelopmentCard::Knight,
                    (old(self).players[player as int].development_cards.amount(
                        DevelopmentCard::Knight,
                    ) - 1) as usize,
                ),
                num_knights_played: (old(self).players[player as int].num_knights_played
                    + 1) as usize,
                ..old(self).players[player as int]
            }),
    {
        proof {
            old(self).lemma_wf_parts();
            old(self).lemma_seat(player as int);
        }
        self.players[player].removeDevelopmentCard(DevelopmentCard::Knight);
        self.players[player].num_knights_played += 1;
        proof {
            assert(self.player_ok(player as int)) by {
                reveal(seat_ok);
            }
            self.lemma_player_changed_keeps_wf(*old(self), player as int);
        }
    }

    /// Makes the cards that `player` drew this turn playable.
    pub fn release_cards(&mut self, player: usize)
        requires
            old(self).wf(),
            player < 4,
        ensures
            final(self).wf(),
            old(self).only_player_changed(*final(self), player as int),
            old(self).same_supply(*final(self)),
            final(self).players[player as int] == (Player {
                development_cards: final(self).players[player as int].development_cards,
                development_cards_drawn_this_turn: crate::development::DevelopmentCounts::none(),
                ..old(self).players[player as int]
            }),
            forall|card: DevelopmentCard|
                final(self).players[player as int].development_cards.amount(card) == old(
                    self,
                ).players[player as int].development_cards.amount(card) + old(
                    self,
                ).players[player as int].development_cards_drawn_this_turn.amount(card),
    {
        proof {
            old(self).lemma_wf_parts();
            old(self).lemma_seat(player as int);
        }
        self.players[player].moveDevelopmentCards();
        proof {
            assert(self.player_ok(player as int)) by {
                reveal(seat_ok);
            }
            self.lemma_player_changed_keeps_wf(*old(self), player as int);
        }
    }
}

} // verus!
