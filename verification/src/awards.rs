use vstd::prelude::*;
use crate::game::{seat_ok, Game};
use crate::player::Player;

verus! {

#[allow(non_snake_case)]
impl Game {
    /// Nobody holds the award for the longest road.
    pub open spec fn longest_road_free(self) -> bool {
        forall|q: int| 0 <= q < 4 ==> !(#[trigger] self.players[q]).longest_road
    }

    /// Nobody holds the award for the largest army.
    pub open spec fn largest_army_free(self) -> bool {
        forall|q: int| 0 <= q < 4 ==> !(#[trigger] self.players[q]).largest_army
    }

    /// `player` with the award for the longest road taken away, and its two
    /// points.
    pub open spec fn without_longest_road(player: Player) -> Player {
        Player {
            longest_road: false,
            victory_points: (player.victory_points - 2) as usize,
            ..player
        }
    }

    /// `player` with the award for the longest road, and its two points.
    pub open spec fn with_longest_road(player: Player) -> Player {
        Player { longest_road: true, victory_points: (player.victory_points + 2) as usize, ..player }
    }

    /// `player` with the award for the largest army taken away, and its two
    /// points.
    pub open spec fn without_largest_army(player: Player) -> Player {
        Player {
            largest_army: false,
            victory_points: (player.victory_points - 2) as usize,
            ..player
        }
    }

    /// `player` with the award for the largest army, and its two points.
    pub open spec fn with_largest_army(player: Player) -> Player {
        Player { largest_army: true, victory_points: (player.victory_points + 2) as usize, ..player }
    }

    /// A game stays well formed where one player gains or loses an award
    /// together with its points, and is the only holder afterwards if a
    /// holder at all.
    proof fn lemma_award_moved_keeps_wf(self, pre: Game, p: int)
        requires
            pre.wf(),
            0 <= p < 4,
            pre.only_player_changed(self, p),
            self.players[p] == Game::without_longest_road(pre.players[p])
                && pre.players[p].longest_road || self.players[p] == Game::with_longest_road(
                pre.players[p],
            ) && pre.longest_road_free() || self.players[p] == Game::without_largest_army(
                pre.players[p],
            ) && pre.players[p].largest_army || self.players[p] == Game::with_largest_army(
                pre.players[p],
            ) && pre.largest_army_free(),
        ensures
            self.wf(),
            pre.same_supply(self),
    {
        pre.lemma_wf_parts();
        pre.lemma_seat(p);
        assert(self.player_ok(p)) by {
            reveal(seat_ok);
        }
        self.lemma_seats_kept(pre, p);
        assert(self.awards_single()) by {
            assert forall|a: int, b: int| 0 <= a < b < 4 implies !(
            #[trigger] self.players[a].longest_road && #[trigger] self.players[b].longest_road) by {
                assert(!(pre.players[a].longest_road && pre.players[b].longest_road));
                if a != p {
                    assert(self.players[a] == pre.players[a]);
                }
                if b != p {
                    assert(self.players[b] == pre.players[b]);
                }
                if pre.longest_road_free() {
                    assert(!pre.players[a].longest_road);
                    assert(!pre.players[b].longest_road);
                }
            }
            assert forall|a: int, b: int| 0 <= a < b < 4 implies !(
            #[trigger] self.players[a].largest_army && #[trigger] self.players[b].largest_army) by {
                assert(!(pre.players[a].largest_army && pre.players[b].largest_army));
                if a != p {
                    assert(self.players[a] == pre.players[a]);
                }
                if b != p {
                    assert(self.players[b] == pre.players[b]);
                }
                if pre.largest_army_free() {
                    assert(!pre.players[a].largest_army);
                    assert(!pre.players[b].largest_army);
                }
            }
        }
        assert forall|q: int| 0 <= q < 4 implies (#[trigger] self.players[q]).resource_cards
            == pre.players[q].resource_cards && self.players[q].development_cards
            == pre.players[q].development_cards
            && self.players[q].development_cards_drawn_this_turn
            == pre.players[q].development_cards_drawn_this_turn by {
            if q != p {
                assert(self.players[q] == pre.players[q]);
            }
        }
        self.lemma_circulation_kept(pre);
        self.lemma_plenty_kept(pre);
        self.lemma_supply_kept(pre);
        self.lemma_wf_from_parts();
    }

    /// Who holds the award for the longest road, if anybody: the holder on
    /// the lowest seat.
    pub fn longestRoadHolder(&self) -> (holder: Option<usize>)
        ensures
            holder matches Some(h) ==> h < 4 && self.players[h as int].longest_road && forall|q: int|
                0 <= q < h ==> !(#[trigger] self.players[q]).longest_road,
            holder is None <==> self.longest_road_free(),
    {
        if self.players[0].longest_road {
            Some(0)
        } else if self.players[1].longest_road {
            Some(1)
        } else if self.players[2].longest_road {
            Some(2)
        } else if self.players[3].longest_road {
            Some(3)
        } else {
            None
        }
    }

    /// Who holds the award for the largest army, if anybody: the holder on
    /// the lowest seat.
    pub fn largestArmyHolder(&self) -> (holder: Option<usize>)
        ensures
            holder matches Some(h) ==> h < 4 && self.players[h as int].largest_army && forall|q: int|
                0 <= q < h ==> !(#[trigger] self.players[q]).largest_army,
            holder is None <==> self.largest_army_free(),
    {
        if self.players[0].largest_army {
            Some(0)
        } else if self.players[1].largest_army {
            Some(1)
        } else if self.players[2].largest_army {
            Some(2)
        } else if self.players[3].largest_army {
            Some(3)
        } else {
            None
        }
    }

    /// Takes the award for the longest road, and its two points, from its
    /// holder.
    pub fn strip_longest_road(&mut self, holder: usize)
        requires
            old(self).wf(),
            holder < 4,
            old(self).players[holder as int].longest_road,
        ensures
            final(self).wf(),
            old(self).only_player_changed(*final(self), holder as int),
            old(self).same_supply(*final(self)),
            final(self).players[holder as int] == Game::without_longest_road(
                old(self).players[holder as int],
            ),
            final(self).longest_road_free(),
    {
        proof {
            old(self).lemma_wf_parts();
            old(self).lemma_seat(holder as int);
            reveal(seat_ok);
        }
        self.players[holder].longest_road = false;
        self.players[holder].victory_points -= 2;
        proof {
            self.lemma_award_moved_keeps_wf(*old(self), holder as int);
            assert forall|q: int| 0 <= q < 4 implies !(#[trigger] self.players[q]).longest_road by {
                if q < holder {
                    assert(!(old(self).players[q].longest_road && old(
                        self,
                    ).players[holder as int].longest_road));
                } else if q > holder {
                    assert(!(old(self).players[holder as int].longest_road && old(
                        self,
                    ).players[q].longest_road));
                }
            }
        }
    }

    /// Gives `player` the award for the longest road, which nobody holds,
    /// and its two points.
    pub fn grant_longest_road(&mut self, player: usize)
        requires
            old(self).wf(),
            player < 4,
            old(self).longest_road_free(),
        ensures
            final(self).wf(),
            old(self).only_player_changed(*final(self), player as int),
            old(self).same_supply(*final(self)),
            final(self).players[player as int] == Game::with_longest_road(
                old(self).players[player as int],
            ),
    {
        proof {
            old(self).lemma_wf_parts();
            old(self).lemma_seat(player as int);
            reveal(seat_ok);
            assert(!old(self).players[player as int].longest_road);
        }
        self.players[player].longest_road = true;
        self.players[player].victory_points += 2;
        proof {
            self.lemma_award_moved_keeps_wf(*old(self), player as int);
        }
    }

    /// Takes the award for the largest army, and its two points, from its
    /// holder.
    pub fn strip_largest_army(&mut self, holder: usize)
        requires
            old(self).wf(),
            holder < 4,
            old(self).players[holder as int].largest_army,
        ensures
            final(self).wf(),
            old(self).only_player_changed(*final(self), holder as int),
            old(self).same_supply(*final(self)),
            final(self).players[holder as int] == Game::without_largest_army(
                old(self).players[holder as int],
            ),
            final(self).largest_army_free(),
    {
        proof {
            old(self).lemma_wf_parts();
            old(self).lemma_seat(holder as int);
            reveal(seat_ok);
        }
        self.players[holder].largest_army = false;
        self.players[holder].victory_points -= 2;
        proof {
            self.lemma_award_moved_keeps_wf(*old(self), holder as int);
            assert forall|q: int| 0 <= q < 4 implies !(#[trigger] self.players[q]).largest_army by {
                if q < holder {
                    assert(!(old(self).players[q].largest_army && old(
                        self,
                    ).players[holder as int].largest_army));
                } else if q > holder {
                    assert(!(old(self).players[holder as int].largest_army && old(
                        self,
                    ).players[q].largest_army));
                }
            }
        }
    }

    /// Gives `player` the award for the largest army, which nobody holds,
    /// and its two points.
    pub fn grant_largest_army(&mut self, player: usize)
        requires
            old(self).wf(),
            player < 4,
            old(self).largest_army_free(),
        ensures
            final(self).wf(),
            old(self).only_player_changed(*final(self), player as int),
            old(self).same_supply(*final(self)),
            final(self).players[player as int] == Game::with_largest_army(
                old(self).players[player as int],
            ),
    {
        proof {
            old(self).lemma_wf_parts();
            old(self).lemma_seat(player as int);
            reveal(seat_ok);
            assert(!old(self).players[player as int].largest_army);
        }
        self.players[player].largest_army = true;
        self.players[player].victory_points += 2;
        proof {
            self.lemma_award_moved_keeps_wf(*old(self), player as int);
        }
    }
}

} // verus!
