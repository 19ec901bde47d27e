use vstd::prelude::*;
use crate::bank::Bank;
use crate::building::Building;
use crate::game::{Game, LONGEST_ROAD_MINIMUM};
use crate::player::Player;
use crate::resource::ResourceCounts;

verus! {

/// What a road costs: a lumber and a brick.
pub open spec fn road_cost() -> ResourceCounts {
    ResourceCounts { ore: 0, wheat: 0, sheep: 0, brick: 1, lumber: 1 }
}

/// What a settlement costs: a lumber, a brick, a wheat and a sheep.
pub open spec fn settlement_cost() -> ResourceCounts {
    ResourceCounts { ore: 0, wheat: 1, sheep: 1, brick: 1, lumber: 1 }
}

/// What a city costs: three ore and two wheat.
pub open spec fn city_cost() -> ResourceCounts {
    ResourceCounts { ore: 3, wheat: 2, sheep: 0, brick: 0, lumber: 0 }
}

#[allow(non_snake_case)]
impl Game {
    /// `post` is `self` after player `p` paid `cost` to the bank.
    pub open spec fn paid(self, post: Game, p: int, cost: ResourceCounts) -> bool {
        &&& post.bank == (Bank { resource_cards: self.bank.resource_cards.plus(cost), ..self.bank })
        &&& post.players[p].resource_cards == self.players[p].resource_cards.minus(cost)
        &&& forall|q: int| 0 <= q < 4 && q != p ==> #[trigger] post.players[q] == self.players[q]
    }

    /// When `player` may build a settlement on `node`: one is left to
    /// place, the hand covers the cost, and the board allows it.
    pub open spec fn can_play_settlement(self, node: usize, player: usize) -> bool {
        &&& player < 4
        &&& self.players[player as int].num_unplaced_settlements > 0
        &&& self.players[player as int].resource_cards.covers(settlement_cost())
        &&& self.board.can_place_settlement(Building::Settlement(node, player))
    }

    /// `post` is `self` after `p` built a settlement on `node`: it stands
    /// on the board, the bank has the cost, and the player has a point
    /// more, a settlement fewer to place, and has recorded the node.
    pub open spec fn settlement_built(self, post: Game, node: usize, p: usize) -> bool {
        &&& self.same_turn(post)
        &&& self.board.node_rebuilt(post.board, node as int, Some(Building::Settlement(node, p)))
        &&& self.paid(post, p as int, settlement_cost())
        &&& post.players[p as int] == (Player {
            resource_cards: post.players[p as int].resource_cards,
            num_unplaced_settlements: (self.players[p as int].num_unplaced_settlements
                - 1) as usize,
            victory_points: (self.players[p as int].victory_points + 1) as usize,
            settlement_placements: post.players[p as int].settlement_placements,
            ..self.players[p as int]
        })
        &&& post.players[p as int].settlement_placements@
            == self.players[p as int].settlement_placements@.push(node)
    }

    /// Builds a settlement of `player_id` on `node`, if that is allowed.
    pub fn playSettlement(&mut self, node: usize, player_id: usize) -> (built: bool)
        requires
            old(self).wf(),
        ensures
            final(self).wf(),
            built == old(self).can_play_settlement(node, player_id),
            built ==> old(self).settlement_built(*final(self), node, player_id),
            !built ==> *final(self) == *old(self),
            old(self).same_supply(*final(self)),
    {
        if player_id >= 4 {
            return false;
        }
        proof {
            old(self).lemma_wf_parts();
        }
        if !(self.players[player_id].num_unplaced_settlements > 0) {
            return false;
        }
        let settlement_resources = ResourceCounts::new(0, 1, 1, 1, 1);
        if !self.players[player_id].hasResourceCards(settlement_resources) {
            return false;
        }
        if !self.board.placeSettlement(Building::Settlement(node, player_id)) {
            return false;
        }
        proof {
            self.lemma_frame_keeps_wf(*old(self));
        }
        let ghost placed = *self;
        self.collect(player_id, settlement_resources);
        let ghost charged = *self;
        self.record_settlement(player_id, node, true);
        proof {
            assert(charged.players[player_id as int] == placed.players[player_id as int].with_hand(
                charged.players[player_id as int].resource_cards,
            ));
            assert forall|q: int| 0 <= q < 4 && q != player_id implies #[trigger] self.players[q]
                == old(self).players[q] by {
                assert(charged.players[q] == placed.players[q]);
                assert(self.players[q] == charged.players[q]);
            }
        }
        true
    }

    /// When `player` may build a city on `node`: one is left to place, the
    /// hand covers the cost, and the board allows it.
    pub open spec fn can_play_city(self, node: usize, player: usize) -> bool {
        &&& player < 4
        &&& self.players[player as int].num_unplaced_cities > 0
        &&& self.players[player as int].resource_cards.covers(city_cost())
        &&& self.board.can_place_city(Building::City(node, player))
    }

    /// `post` is `self` after `p` built a city on `node`: it stands on the
    /// board, the bank has the cost, and the player has a point more, a
    /// city fewer and a settlement more to place, and has recorded the node.
    pub open spec fn city_built(self, post: Game, node: usize, p: usize) -> bool {
        &&& self.same_turn(post)
        &&& self.board.node_rebuilt(post.board, node as int, Some(Building::City(node, p)))
        &&& self.paid(post, p as int, city_cost())
        &&& post.players[p as int] == (Player {
            resource_cards: post.players[p as int].resource_cards,
            num_unplaced_cities: (self.players[p as int].num_unplaced_cities - 1) as usize,
            num_unplaced_settlements: (self.players[p as int].num_unplaced_settlements
                + 1) as usize,
            victory_points: (self.players[p as int].victory_points + 1) as usize,
            city_placements: post.players[p as int].city_placements,
            ..self.players[p as int]
        })
        &&& post.players[p as int].city_placements@
            == self.players[p as int].city_placements@.push(node)
    }

    /// Turns a settlement on `node` into a city of `player_id`, if that is
    /// allowed.
    pub fn playCity(&mut self, node: usize, player_id: usize) -> (built: bool)
        requires
            old(self).wf(),
        ensures
            final(self).wf(),
            built == old(self).can_play_city(node, player_id),
            built ==> old(self).city_built(*final(self), node, player_id),
            !built ==> *final(self) == *old(self),
            old(self).same_supply(*final(self)),
    {
        if player_id >= 4 {
            return false;
        }
        proof {
            old(self).lemma_wf_parts();
        }
        if !(self.players[player_id].num_unplaced_cities > 0) {
            return false;
        }
        let city_resources = ResourceCounts::new(3, 2, 0, 0, 0);
        if !self.players[player_id].hasResourceCards(city_resources) {
            return false;
        }
        if !self.board.placeCity(Building::City(node, player_id)) {
            return false;
        }
        proof {
            self.lemma_frame_keeps_wf(*old(self));
        }
        let ghost placed = *self;
        self.collect(player_id, city_resources);
        let ghost charged = *self;
        self.record_city(player_id, node);
        proof {
            assert(charged.players[player_id as int] == placed.players[player_id as int].with_hand(
                charged.players[player_id as int].resource_cards,
            ));
            assert forall|q: int| 0 <= q < 4 && q != player_id implies #[trigger] self.players[q]
                == old(self).players[q] by {
                assert(charged.players[q] == placed.players[q]);
                assert(self.players[q] == charged.players[q]);
            }
        }
        true
    }

    /// Length of the longest road of player `p`.
    pub open spec fn road_length(self, p: int) -> nat {
        self.board.longest_road(p as usize, self.players[p].road_placements@)
    }

    /// Player `p` takes the award for the longest road: the road has the
    /// length that the award asks for, the player does not hold the award,
    /// and either nobody does or the holder's road is shorter.
    pub open spec fn takes_longest_road(self, p: int) -> bool {
        &&& self.road_length(p) >= LONGEST_ROAD_MINIMUM
        &&& !self.players[p].longest_road
        &&& forall|h: int|
            0 <= h < 4 && (#[trigger] self.players[h]).longest_road ==> self.road_length(p)
                > self.road_length(h)
    }

    /// `post` is `self` after the award for the longest road was settled
    /// for player `p`. Where `p` takes it, `p` has the award and two points
    /// more, and who held it has lost it and two points. Otherwise nothing
    /// has changed.
    pub open spec fn longest_road_settled(self, post: Game, p: int) -> bool {
        if self.takes_longest_road(p) {
            &&& post.board == self.board
            &&& post.bank == self.bank
            &&& self.same_turn(post)
            &&& post.players[p] == Game::with_longest_road(self.players[p])
            &&& forall|q: int|
                0 <= q < 4 && q != p ==> #[trigger] post.players[q] == if self.players[q].longest_road {
                    Game::without_longest_road(self.players[q])
                } else {
                    self.players[q]
                }
        } else {
            post == self
        }
    }

    /// Length of the longest road of `player_id`.
    pub fn checkLongestRoad(&self, player_id: usize) -> (length: usize)
        requires
            self.wf(),
            player_id < 4,
        ensures
            length == self.road_length(player_id as int),
    {
        proof {
            self.lemma_wf_parts();
            self.lemma_seat(player_id as int);
        }
        self.board.longestRoad(player_id, &self.players[player_id].road_placements)
    }

    /// Settles the award for the longest road after `player_id` has built:
    /// the player takes it with a road of five or more that is longer than
    /// the holder's, or that is the first of that length.
    pub fn settleLongestRoad(&mut self, player_id: usize)
        requires
            old(self).wf(),
            player_id < 4,
        ensures
            final(self).wf(),
            old(self).longest_road_settled(*final(self), player_id as int),
            old(self).same_supply(*final(self)),
    {
        let own = self.checkLongestRoad(player_id);
        if own < 5 || self.players[player_id].longest_road {
            return ;
        }
        match self.longestRoadHolder() {
            None => {
                self.grant_longest_road(player_id);
                proof {
                    assert forall|q: int| 0 <= q < 4 && q != player_id implies #[trigger] self.players[q]
                        == if old(self).players[q].longest_road {
                        Game::without_longest_road(old(self).players[q])
                    } else {
                        old(self).players[q]
                    } by {
                        assert(!old(self).players[q].longest_road);
                    }
                }
            },
            Some(holder) => {
                let theirs = self.checkLongestRoad(holder);
                proof {
                    old(self).lemma_wf_parts();
                    old(self).lemma_sole_road_holder(holder as int);
                }
                if own > theirs {
                    self.strip_longest_road(holder);
                    let ghost stripped = *self;
                    self.grant_longest_road(player_id);
                    proof {
                        assert forall|q: int| 0 <= q < 4 && q != player_id implies #[trigger] self.players[q]
                            == if old(self).players[q].longest_road {
                            Game::without_longest_road(old(self).players[q])
                        } else {
                            old(self).players[q]
                        } by {
                            assert(self.players[q] == stripped.players[q]);
                            if q != holder {
                                assert(stripped.players[q] == old(self).players[q]);
                            }
                        }
                        assert(stripped.players[player_id as int] == old(
                            self,
                        ).players[player_id as int]);
                    }
                }
            },
        }
    }

    /// Where `h` holds the award for the longest road, nobody else does.
    pub proof fn lemma_sole_road_holder(self, h: int)
        requires
            self.awards_single(),
            0 <= h < 4,
            self.players[h].longest_road,
        ensures
            forall|q: int| 0 <= q < 4 && q != h ==> !(#[trigger] self.players[q]).longest_road,
    {
        assert forall|q: int| 0 <= q < 4 && q != h implies !(#[trigger] self.players[q]).longest_road by {
            if q < h {
                assert(!(self.players[q].longest_road && self.players[h].longest_road));
            } else {
                assert(!(self.players[h].longest_road && self.players[q].longest_road));
            }
        }
    }

    /// When `player` may build a road on `edge`: one is left to place, the
    /// hand covers the cost, and the board allows it.
    pub open spec fn can_play_road(self, edge: usize, player: usize) -> bool {
        &&& player < 4
        &&& self.players[player as int].num_unplaced_roads > 0
        &&& self.players[player as int].resource_cards.covers(road_cost())
        &&& self.board.can_place_road(Building::Road(edge, player))
    }

    /// `post` is `self` after `p` built a road on `edge`, before the award
    /// for the longest road is settled: the road stands on the board, the
    /// bank has the cost, and the player has a road fewer to place and has
    /// recorded the edge.
    pub open spec fn road_laid(self, post: Game, edge: usize, p: usize) -> bool {
        &&& self.same_turn(post)
        &&& self.board.edge_rebuilt(post.board, edge as int, Some(Building::Road(edge, p)))
        &&& self.paid(post, p as int, road_cost())
        &&& post.players[p as int] == (Player {
            resource_cards: post.players[p as int].resource_cards,
            num_unplaced_roads: (self.players[p as int].num_unplaced_roads - 1) as usize,
            road_placements: post.players[p as int].road_placements,
            ..self.players[p as int]
        })
        &&& post.players[p as int].road_placements@
            == self.players[p as int].road_placements@.push(edge)
    }

    /// `post` is `self` after `p` built a road on `edge` and the award for
    /// the longest road was settled for `p`.
    pub open spec fn road_built(self, post: Game, edge: usize, p: usize) -> bool {
        exists|laid: Game| #[trigger]
            self.road_laid(laid, edge, p) && laid.longest_road_settled(post, p as int)
    }

    /// Builds a road of `player_id` on `edge`, if that is allowed, and then
    /// settles the award for the longest road.
    pub fn playRoad(&mut self, edge: usize, player_id: usize) -> (built: bool)
        requires
            old(self).wf(),
        ensures
            final(self).wf(),
            built == old(self).can_play_road(edge, player_id),
            built ==> old(self).road_built(*final(self), edge, player_id),
            !built ==> *final(self) == *old(self),
            old(self).same_supply(*final(self)),
    {
        if player_id >= 4 {
            return false;
        }
        proof {
            old(self).lemma_wf_parts();
        }
        if !(self.players[player_id].num_unplaced_roads > 0) {
            return false;
        }
        let road_resources = ResourceCounts::new(0, 0, 0, 1, 1);
        if !self.players[player_id].hasResourceCards(road_resources) {
            return false;
        }
        let (placed_road, _) = self.board.placeRoad(Building::Road(edge, player_id));
        if !placed_road {
            return false;
        }
        proof {
            self.lemma_frame_keeps_wf(*old(self));
        }
        let ghost placed = *self;
        self.collect(player_id, road_resources);
        let ghost charged = *self;
        self.record_road(player_id, edge);
        let ghost laid = *self;
        proof {
            assert(charged.players[player_id as int] == placed.players[player_id as int].with_hand(
                charged.players[player_id as int].resource_cards,
            ));
            assert forall|q: int| 0 <= q < 4 && q != player_id implies #[trigger] laid.players[q]
                == old(self).players[q] by {
                assert(charged.players[q] == placed.players[q]);
                assert(laid.players[q] == charged.players[q]);
            }
            assert(old(self).road_laid(laid, edge, player_id));
        }
        self.settleLongestRoad(player_id);
        true
    }
}

/// Settling the award for the longest road a second time, with no road
/// placed in between, changes nothing.
pub proof fn lemma_longest_road_settled_once(before: Game, settled: Game, again: Game, p: int)
    requires
        0 <= p < 4,
        before.longest_road_settled(settled, p),
        settled.longest_road_settled(again, p),
    ensures
        again == settled,
{
    if before.takes_longest_road(p) {
        assert(settled.players[p].longest_road);
    } else {
        assert(settled == before);
    }
}

/// The length of a player's longest road is the same in two games that
/// agree on the board and on the roads that the player has placed, whatever
/// else differs between them.
pub proof fn lemma_road_length_stable(first: Game, second: Game, p: int)
    requires
        first.board == second.board,
        first.players[p].road_placements@ == second.players[p].road_placements@,
    ensures
        first.road_length(p) == second.road_length(p),
{
}

} // verus!
