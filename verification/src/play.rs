use vstd::prelude::*;
use crate::action::Action;
use crate::board::{Board, EDGE_COUNT};
use crate::building::Building;
use crate::development::DevelopmentCard;
use crate::game::{lemma_four_one_changed, Game, LARGEST_ARMY_MINIMUM};
use crate::player::Player;
use crate::resource::{
    lemma_counts_equal, lemma_minus, lemma_plus, lemma_with_amount, ResourceCard, ResourceCounts,
};

verus! {

/// Two boards with the same nodes and the same edges allow the same roads.
pub proof fn lemma_same_roads_allowed(a: Board, b: Board, road: Building)
    requires
        a.edges@ == b.edges@,
        a.nodes@ == b.nodes@,
    ensures
        a.can_place_road(road) == b.can_place_road(road),
{
    if let Building::Road(position, player) = road {
        let e = position as int;
        if a.road_reaches_edge(e, player) {
            let (i, j) = choose|i: int, j: int| #[trigger]
                a.step_from_edge(e, i, j) && a.edge_beside(e, i, j) != e && a.owns_road(
                    a.edge_beside(e, i, j),
                    player,
                );
            assert(b.step_from_edge(e, i, j) && b.edge_beside(e, i, j) != e && b.owns_road(
                b.edge_beside(e, i, j),
                player,
            ));
        }
        if b.road_reaches_edge(e, player) {
            let (i, j) = choose|i: int, j: int| #[trigger]
                b.step_from_edge(e, i, j) && b.edge_beside(e, i, j) != e && b.owns_road(
                    b.edge_beside(e, i, j),
                    player,
                );
            assert(a.step_from_edge(e, i, j) && a.edge_beside(e, i, j) != e && a.owns_road(
                a.edge_beside(e, i, j),
                player,
            ));
        }
    }
}

#[allow(non_snake_case)]
impl Board {
    /// When two roads of `player` may be placed one after the other: the
    /// first may be placed, and the second may be placed once the first
    /// stands.
    pub open spec fn can_place_two_roads(self, first: usize, second: usize, player: usize) -> bool {
        &&& self.can_place_road(Building::Road(first, player))
        &&& exists|between: Board| #[trigger]
            self.edge_rebuilt(between, first as int, Some(Building::Road(first, player)))
                && between.can_place_road(Building::Road(second, player))
    }

    /// `post` is `self` with a road of `player` on `first` and another on
    /// `second`.
    pub open spec fn two_roads_placed(self, post: Board, first: usize, second: usize, player: usize) -> bool {
        exists|between: Board| #[trigger]
            self.edge_rebuilt(between, first as int, Some(Building::Road(first, player)))
                && between.edge_rebuilt(post, second as int, Some(Building::Road(second, player)))
    }

    /// Tries to place two roads of `player`, the second after the first.
    /// Where either cannot be placed, takes away again what it has placed
    /// and leaves the board as it was.
    pub fn placeTwoRoads(&mut self, first: usize, second: usize, player: usize) -> (placed: bool)
        requires
            old(self).wf(),
            first < EDGE_COUNT,
            second < EDGE_COUNT,
        ensures
            final(self).wf(),
            placed == old(self).can_place_two_roads(first, second, player),
            placed ==> old(self).two_roads_placed(*final(self), first, second, player),
            !placed ==> final(self).same_as(*old(self)),
    {
        let road_1 = Building::Road(first, player);
        let road_2 = Building::Road(second, player);
        let (placed_road1, already_road1) = self.placeRoad(road_1);
        let ghost between = *self;
        let (placed_road2, already_road2) = self.placeRoad(road_2);
        let ghost after = *self;
        if !placed_road1 || !placed_road2 {
            if !already_road1 {
                self.removeRoad(road_1);
            }
            let ghost cleared = *self;
            if !already_road2 {
                self.removeRoad(road_2);
            }
            proof {
                assert(self.edges@ =~= old(self).edges@);
                if placed_road1 {
                    assert forall|other: Board| #[trigger]
                        old(self).edge_rebuilt(other, first as int, Some(road_1)) implies !other.can_place_road(
                        road_2,
                    ) by {
                        lemma_same_roads_allowed(other, between, road_2);
                    }
                }
            }
            return false;
        }
        assert(old(self).edge_rebuilt(between, first as int, Some(road_1)));
        true
    }
}

#[allow(non_snake_case)]
impl Game {
    /// `post` is `self` after player `p` gave up one playable card of kind
    /// `card`.
    pub open spec fn card_spent(self, post: Game, p: int, card: DevelopmentCard) -> bool {
        &&& self.only_player_changed(post, p)
        &&& post.players[p] == (Player {
            development_cards: self.players[p].development_cards.with_amount(
                card,
                (self.players[p].development_cards.amount(card) - 1) as usize,
            ),
            ..self.players[p]
        })
    }

    /// `post` is `self` after player `p` played a road building on the
    /// edges `first` and `second`: both roads stand, and the card is spent.
    pub open spec fn roads_built(self, post: Game, first: usize, second: usize, p: usize) -> bool {
        &&& self.board.two_roads_placed(post.board, first, second, p)
        &&& (Game { board: post.board, ..self }).card_spent(
            post,
            p as int,
            DevelopmentCard::RoadBuilding,
        )
    }

    /// Plays a road building of `player` on the edges `first` and `second`.
    /// Where either road cannot be placed, nothing is built and the card
    /// stays in hand.
    pub fn play_road_building(&mut self, first: usize, second: usize, player: usize) -> (played:
        bool)
        requires
            old(self).wf(),
            player < 4,
            old(self).players[player as int].development_cards.amount(
                DevelopmentCard::RoadBuilding,
            ) > 0,
        ensures
            final(self).wf(),
            played == (first < EDGE_COUNT && second < EDGE_COUNT && old(
                self,
            ).board.can_place_two_roads(first, second, player)),
            played ==> old(self).roads_built(*final(self), first, second, player),
            !played ==> final(self).unchanged_from(*old(self)),
            old(self).same_supply(*final(self)),
    {
        if first >= 72 || second >= 72 {
            return false;
        }
        proof {
            old(self).lemma_wf_parts();
        }
        if !self.board.placeTwoRoads(first, second, player) {
            proof {
                self.lemma_frame_keeps_wf(*old(self));
            }
            return false;
        }
        proof {
            self.lemma_frame_keeps_wf(*old(self));
        }
        self.spend_card(player, DevelopmentCard::RoadBuilding);
        true
    }

    /// `post` is `self` after player `p` played a monopoly on `kind`: every
    /// other player has lost the cards of that kind, `p` holds all that
    /// were in hands, and the card is spent.
    pub open spec fn monopoly_played(self, post: Game, kind: ResourceCard, p: int) -> bool {
        &&& self.same_turn(post)
        &&& post.board == self.board
        &&& post.bank == self.bank
        &&& post.players[p] == (Player {
            resource_cards: self.players[p].resource_cards.with_amount(
                kind,
                self.in_hands(kind) as usize,
            ),
            development_cards: self.players[p].development_cards.with_amount(
                DevelopmentCard::Monopoly,
                (self.players[p].development_cards.amount(DevelopmentCard::Monopoly) - 1) as usize,
            ),
            ..self.players[p]
        })
        &&& forall|q: int|
            0 <= q < 4 && q != p ==> #[trigger] post.players[q] == self.players[q].with_hand(
                self.players[q].resource_cards.with_amount(kind, 0),
            )
    }

    /// Moves all cards of `kind` from the hand of `from` to the hand of
    /// another player `to`.
    fn seize(&mut self, from: usize, to: usize, kind: ResourceCard)
        requires
            old(self).wf(),
            from < 4,
            to < 4,
            from != to,
        ensures
            final(self).wf(),
            old(self).only_cards_moved(*final(self)),
            final(self).bank == old(self).bank,
            old(self).same_supply(*final(self)),
            final(self).players[from as int].resource_cards.amount(kind) == 0,
            forall|q: int|
                0 <= q < 4 && q != from && q != to ==> #[trigger] final(self).players[q] == old(
                    self,
                ).players[q],
            forall|q: int, other: ResourceCard|
                0 <= q < 4 && other != kind ==> #[trigger] final(self).players[q].resource_cards.amount(
                    other,
                ) == old(self).players[q].resource_cards.amount(other),
    {
        let amount = self.players[from].resource_cards.get(kind);
        let cards = ResourceCounts::single(kind, amount);
        proof {
            old(self).lemma_wf_parts();
            let hand = old(self).players[to as int].resource_cards;
            assert(hand.fits(cards)) by {
                assert forall|k: ResourceCard| hand.amount(k) + cards.amount(k) <= usize::MAX by {
                    old(self).lemma_supply(k);
                    old(self).lemma_hands_within_circulation(from as int, to as int, k);
                }
            }
            lemma_plus(hand, cards);
            lemma_minus(old(self).players[from as int].resource_cards, cards);
        }
        self.hand_over(from, to, cards);
        proof {
            assert forall|q: int, other: ResourceCard|
                0 <= q < 4 && other != kind implies #[trigger] self.players[q].resource_cards.amount(
                other,
            ) == old(self).players[q].resource_cards.amount(other) by {
                if q != from && q != to {
                    assert(self.players[q] == old(self).players[q]);
                }
            }
        }
    }

    /// Plays a monopoly of `player` on `kind`.
    pub fn play_monopoly(&mut self, kind: ResourceCard, player: usize)
        requires
            old(self).wf(),
            player < 4,
            old(self).players[player as int].development_cards.amount(DevelopmentCard::Monopoly)
                > 0,
        ensures
            final(self).wf(),
            old(self).monopoly_played(*final(self), kind, player as int),
            old(self).same_supply(*final(self)),
    {
        let mut q: usize = 0;
        while q < 4
            invariant
                self.wf(),
                player < 4,
                q <= 4,
                old(self).only_cards_moved(*self),
                self.bank == old(self).bank,
                old(self).same_supply(*self),
                forall|j: int|
                    0 <= j < q && j != player ==> (#[trigger] self.players[j]).resource_cards.amount(
                        kind,
                    ) == 0,
                forall|j: int, other: ResourceCard|
                    0 <= j < 4 && other != kind ==> #[trigger] self.players[j].resource_cards.amount(
                        other,
                    ) == old(self).players[j].resource_cards.amount(other),
            decreases 4 - q,
        {
            if q != player {
                let ghost before = *self;
                self.seize(q, player, kind);
                proof {
                    old(self).lemma_cards_moved_twice(before, *self);
                    assert forall|j: int| 0 <= j < q + 1 && j != player implies (
                    #[trigger] self.players[j]).resource_cards.amount(kind) == 0 by {
                        if j < q {
                            assert(self.players[j] == before.players[j]);
                        }
                    }
                    assert forall|j: int, other: ResourceCard|
                        0 <= j < 4 && other != kind implies #[trigger] self.players[j].resource_cards.amount(
                        other,
                    ) == old(self).players[j].resource_cards.amount(other) by {
                        assert(before.players[j].resource_cards.amount(other) == old(
                            self,
                        ).players[j].resource_cards.amount(other));
                    }
                }
            }
            q += 1;
        }
        let ghost seized = *self;
        proof {
            self.lemma_monopoly_hands(*old(self), kind, player as int);
        }
        self.spend_card(player, DevelopmentCard::Monopoly);
        proof {
            assert forall|j: int| 0 <= j < 4 && j != player implies #[trigger] self.players[j]
                == old(self).players[j].with_hand(
                old(self).players[j].resource_cards.with_amount(kind, 0),
            ) by {
                assert(self.players[j] == seized.players[j]);
                assert(seized.players[j] == old(self).players[j].with_hand(
                    seized.players[j].resource_cards,
                ));
            }
            assert(seized.players[player as int] == old(self).players[player as int].with_hand(
                seized.players[player as int].resource_cards,
            ));
        }
    }

    /// After every other player has handed the cards of `kind` to `p`, the
    /// hands are those that a monopoly leaves.
    proof fn lemma_monopoly_hands(self, pre: Game, kind: ResourceCard, p: int)
        requires
            0 <= p < 4,
            pre.wf(),
            self.bank == pre.bank,
            pre.same_supply(self),
            forall|j: int|
                0 <= j < 4 && j != p ==> (#[trigger] self.players[j]).resource_cards.amount(kind)
                    == 0,
            forall|j: int, other: ResourceCard|
                0 <= j < 4 && other != kind ==> #[trigger] self.players[j].resource_cards.amount(
                    other,
                ) == pre.players[j].resource_cards.amount(other),
        ensures
            self.players[p].resource_cards == pre.players[p].resource_cards.with_amount(
                kind,
                pre.in_hands(kind) as usize,
            ),
            forall|j: int|
                0 <= j < 4 && j != p ==> (#[trigger] self.players[j]).resource_cards
                    == pre.players[j].resource_cards.with_amount(kind, 0),
    {
        pre.lemma_wf_parts();
        pre.lemma_supply(kind);
        assert(self.circulation(kind) == pre.circulation(kind));
        assert(self.in_hands(kind) == pre.in_hands(kind));
        let zero = |q: int| 0int;
        let now = |q: int| self.players[q].resource_cards.amount(kind) as int;
        assert forall|q: int| 0 <= q < 4 && q != p implies #[trigger] now(q) == zero(q) by {
            assert(self.players[q].resource_cards.amount(kind) == 0);
        }
        lemma_four_one_changed(zero, now, p, now(p));
        assert(self.players[p].resource_cards.amount(kind) == pre.in_hands(kind));
        lemma_with_amount(pre.players[p].resource_cards, kind, pre.in_hands(kind) as usize);
        assert forall|k: ResourceCard|
            self.players[p].resource_cards.amount(k) == pre.players[p].resource_cards.with_amount(
                kind,
                pre.in_hands(kind) as usize,
            ).amount(k) by {
            if k != kind {
                assert(self.players[p].resource_cards.amount(k)
                    == pre.players[p].resource_cards.amount(k));
            }
        }
        lemma_counts_equal(
            self.players[p].resource_cards,
            pre.players[p].resource_cards.with_amount(kind, pre.in_hands(kind) as usize),
        );
        assert forall|j: int| 0 <= j < 4 && j != p implies (#[trigger] self.players[j]).resource_cards
            == pre.players[j].resource_cards.with_amount(kind, 0) by {
            lemma_with_amount(pre.players[j].resource_cards, kind, 0);
            assert forall|k: ResourceCard|
                self.players[j].resource_cards.amount(k)
                    == pre.players[j].resource_cards.with_amount(kind, 0).amount(k) by {
                if k != kind {
                    assert(self.players[j].resource_cards.amount(k)
                        == pre.players[j].resource_cards.amount(k));
                }
            }
            lemma_counts_equal(
                self.players[j].resource_cards,
                pre.players[j].resource_cards.with_amount(kind, 0),
            );
        }
    }

    /// Player `p` takes the award for the largest army: `p` has played
    /// three knights or more, and more than any other player.
    pub open spec fn takes_largest_army(self, p: int) -> bool {
        &&& self.players[p].num_knights_played >= LARGEST_ARMY_MINIMUM
        &&& forall|q: int|
            0 <= q < 4 && q != p ==> self.players[p].num_knights_played > (
            #[trigger] self.players[q]).num_knights_played
    }

    /// `post` is `self` after the award for the largest army was settled
    /// for player `p`. Where `p` takes it, `p` holds the award, with two
    /// points more unless `p` held it before, and who else held it has lost
    /// it and two points. Otherwise nothing has changed.
    pub open spec fn largest_army_settled(self, post: Game, p: int) -> bool {
        if self.takes_largest_army(p) && !self.players[p].largest_army {
            &&& post.board == self.board
            &&& post.bank == self.bank
            &&& self.same_turn(post)
            &&& post.players[p] == Game::with_largest_army(self.players[p])
            &&& forall|q: int|
                0 <= q < 4 && q != p ==> #[trigger] post.players[q] == if self.players[q].largest_army {
                    Game::without_largest_army(self.players[q])
                } else {
                    self.players[q]
                }
        } else {
            post == self
        }
    }

    /// Where `h` holds the award for the largest army, nobody else does.
    pub proof fn lemma_sole_army_holder(self, h: int)
        requires
            self.awards_single(),
            0 <= h < 4,
            self.players[h].largest_army,
        ensures
            forall|q: int| 0 <= q < 4 && q != h ==> !(#[trigger] self.players[q]).largest_army,
    {
        assert forall|q: int| 0 <= q < 4 && q != h implies !(#[trigger] self.players[q]).largest_army by {
            if q < h {
                assert(!(self.players[q].largest_army && self.players[h].largest_army));
            } else {
                assert(!(self.players[h].largest_army && self.players[q].largest_army));
            }
        }
    }

    /// Whether `player` has played three knights or more, and more than any
    /// other player.
    pub fn takesLargestArmy(&self, player: usize) -> (takes: bool)
        requires
            player < 4,
        ensures
            takes == self.takes_largest_army(player as int),
    {
        let own = self.players[player].num_knights_played;
        if own < 3 {
            return false;
        }
        let mut q: usize = 0;
        while q < 4
            invariant
                player < 4,
                q <= 4,
                own == self.players[player as int].num_knights_played,
                forall|j: int|
                    0 <= j < q && j != player ==> own > (#[trigger] self.players[j]).num_knights_played,
            decreases 4 - q,
        {
            if q != player && !(own > self.players[q].num_knights_played) {
                return false;
            }
            q += 1;
        }
        true
    }

    /// Settles the award for the largest army after `player_id` has played
    /// a knight.
    pub fn settleLargestArmy(&mut self, player_id: usize)
        requires
            old(self).wf(),
            player_id < 4,
        ensures
            final(self).wf(),
            old(self).largest_army_settled(*final(self), player_id as int),
            old(self).same_supply(*final(self)),
    {
        if !self.takesLargestArmy(player_id) || self.players[player_id].largest_army {
            return ;
        }
        match self.largestArmyHolder() {
            None => {
                self.grant_largest_army(player_id);
                proof {
                    assert forall|q: int| 0 <= q < 4 && q != player_id implies #[trigger] self.players[q]
                        == if old(self).players[q].largest_army {
                        Game::without_largest_army(old(self).players[q])
                    } else {
                        old(self).players[q]
                    } by {
                        assert(!old(self).players[q].largest_army);
                    }
                }
            },
            Some(holder) => {
                proof {
                    old(self).lemma_wf_parts();
                    old(self).lemma_sole_army_holder(holder as int);
                }
                self.strip_largest_army(holder);
                let ghost stripped = *self;
                self.grant_largest_army(player_id);
                proof {
                    assert forall|q: int| 0 <= q < 4 && q != player_id implies #[trigger] self.players[q]
                        == if old(self).players[q].largest_army {
                        Game::without_largest_army(old(self).players[q])
                    } else {
                        old(self).players[q]
                    } by {
                        assert(self.players[q] == stripped.players[q]);
                        if q != holder {
                            assert(stripped.players[q] == old(self).players[q]);
                        }
                    }
                    assert(stripped.players[player_id as int] == old(
                        self,
                    ).players[player_id as int]);
                }
            },
        }
    }

    /// `post` is `self` after player `p` gave up a playable knight and
    /// counted it as played.
    pub open spec fn knight_spent(self, post: Game, p: int) -> bool {
        &&& self.only_player_changed(post, p)
        &&& post.players[p] == (Player {
            development_cards: self.players[p].development_cards.with_amount(
                DevelopmentCard::Knight,
                (self.players[p].development_cards.amount(DevelopmentCard::Knight) - 1) as usize,
            ),
            num_knights_played: (self.players[p].num_knights_played + 1) as usize,
            ..self.players[p]
        })
    }

    /// `post` is `self` after player `p` played a knight: the robber went
    /// to `tile`, `p` took a card from `victim`, the knight is spent and
    /// counted, and the award for the largest army is settled for `p`.
    pub open spec fn knight_played(self, post: Game, tile: usize, victim: usize, p: usize) -> bool {
        exists|robbed: Game, spent: Game| #[trigger]
            self.robber_placed(robbed, tile, victim, p) && #[trigger] robbed.knight_spent(
                spent,
                p as int,
            ) && spent.largest_army_settled(post, p as int)
    }

    /// Plays a knight of `player`: puts the robber on `tile`, takes a card
    /// from `victim`, and settles the award for the largest army. Where the
    /// robber cannot be put there, nothing happens.
    pub fn play_knight(&mut self, tile: usize, victim: usize, player: usize) -> (played: bool)
        requires
            old(self).wf(),
            player < 4,
            old(self).players[player as int].development_cards.amount(DevelopmentCard::Knight) > 0,
        ensures
            final(self).wf(),
            played == old(self).can_place_robber(tile, victim, player),
            played ==> old(self).knight_played(*final(self), tile, victim, player),
            !played ==> *final(self) == *old(self),
            old(self).same_supply(*final(self)),
    {
        if !self.placeRobber(tile, victim, player) {
            return false;
        }
        let ghost robbed = *self;
        proof {
            assert(robbed.players[player as int] == old(self).players[player as int].with_hand(
                robbed.players[player as int].resource_cards,
            ));
        }
        self.spend_knight(player);
        let ghost spent = *self;
        self.settleLargestArmy(player);
        proof {
            assert(old(self).robber_placed(robbed, tile, victim, player));
            assert(robbed.knight_spent(spent, player as int));
        }
        true
    }

    /// When a development card may be played: the action names a card other
    /// than a victory point, the player holds one that is playable, and what
    /// the card is played on is in order: for a knight, the tile and the
    /// victim; for a monopoly, the resource; for a road building, the two
    /// edges; for a year of plenty, the two resources.
    pub open spec fn can_play_card(self, action: Action, player: usize) -> bool {
        &&& player < 4
        &&& DevelopmentCard::with_tag(action.action_metadata[0] as nat) matches Some(card)
        &&& self.players[player as int].development_cards.amount(card) > 0
        &&& match card {
            DevelopmentCard::Knight => self.can_place_robber(
                action.action_metadata[1],
                action.action_metadata[2],
                player,
            ),
            DevelopmentCard::Monopoly => action.action_metadata[1] < 5,
            DevelopmentCard::RoadBuilding => action.action_metadata[1] < EDGE_COUNT
                && action.action_metadata[2] < EDGE_COUNT && self.board.can_place_two_roads(
                action.action_metadata[1],
                action.action_metadata[2],
                player,
            ),
            DevelopmentCard::YearOfPlenty => action.action_metadata[1] < 5
                && action.action_metadata[2] < 5,
            DevelopmentCard::VictoryPoint => false,
        }
    }

    /// What playing a development card does, where it is played.
    pub open spec fn card_played(self, post: Game, action: Action, player: usize) -> bool {
        match DevelopmentCard::with_tag(action.action_metadata[0] as nat) {
            Some(DevelopmentCard::Knight) => self.knight_played(
                post,
                action.action_metadata[1],
                action.action_metadata[2],
                player,
            ),
            Some(DevelopmentCard::Monopoly) => ResourceCard::at(
                action.action_metadata[1] as nat,
            ) matches Some(kind) && self.monopoly_played(post, kind, player as int),
            Some(DevelopmentCard::RoadBuilding) => self.roads_built(
                post,
                action.action_metadata[1],
                action.action_metadata[2],
                player,
            ),
            Some(DevelopmentCard::YearOfPlenty) => ResourceCard::at(
                action.action_metadata[1] as nat,
            ) matches Some(first) && ResourceCard::at(action.action_metadata[2] as nat) matches Some(
                second,
            ) && self.plenty_played(post, player as int, first, second),
            _ => false,
        }
    }

    /// A year of plenty that `action` asks for would bring cards into the
    /// game that the bank does not have.
    pub open spec fn plenty_uncovered(self, action: Action) -> bool {
        &&& action.action_metadata[0] == 4
        &&& ResourceCard::at(action.action_metadata[1] as nat) matches Some(first)
        &&& ResourceCard::at(action.action_metadata[2] as nat) matches Some(second)
        &&& !(self.bank.resource_cards.amount(first) >= 1 && self.bank.resource_cards.less_one(
            first,
        ).amount(second) >= 1)
    }

    /// Plays the development card that `action` names, if the player holds
    /// it and it can be played as asked. The card is spent only then.
    pub fn handleDevelopmentCard(&mut self, action: Action, player_id: usize) -> (played: bool)
        requires
            old(self).wf(),
        ensures
            final(self).wf(),
            played == old(self).can_play_card(action, player_id),
            played ==> old(self).card_played(*final(self), action, player_id),
            !played ==> final(self).unchanged_from(*old(self)),
            !old(self).plenty_uncovered(action) ==> old(self).same_supply(*final(self)),
    {
        if player_id >= 4 {
            return false;
        }
        let card = match DevelopmentCard::from_value(action.action_metadata[0]) {
            Some(card) => card,
            None => {
                return false;
            },
        };
        if !self.players[player_id].hasDevelopmentCard(card) {
            return false;
        }
        match card {
            DevelopmentCard::Knight => self.play_knight(
                action.action_metadata[1],
                action.action_metadata[2],
                player_id,
            ),
            DevelopmentCard::Monopoly => {
                match ResourceCard::from_value(action.action_metadata[1]) {
                    Some(kind) => {
                        self.play_monopoly(kind, player_id);
                        true
                    },
                    None => false,
                }
            },
            DevelopmentCard::RoadBuilding => self.play_road_building(
                action.action_metadata[1],
                action.action_metadata[2],
                player_id,
            ),
            DevelopmentCard::YearOfPlenty => {
                let first = match ResourceCard::from_value(action.action_metadata[1]) {
                    Some(kind) => kind,
                    None => {
                        return false;
                    },
                };
                let second = match ResourceCard::from_value(action.action_metadata[2]) {
                    Some(kind) => kind,
                    None => {
                        return false;
                    },
                };
                self.play_year_of_plenty(player_id, first, second);
                true
            },
            DevelopmentCard::VictoryPoint => false,
        }
    }
}

} // verus!
