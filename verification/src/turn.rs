use vstd::prelude::*;
use crate::action::Action;
use crate::bank::{Bank, DEVELOPMENT_STACK};
use crate::board::TILE_COUNT;
use crate::chance::roll_die;
use crate::development::{DevelopmentCard, DevelopmentCounts};
use crate::game::{next_seat, Game};
use crate::player::Player;
use crate::resource::{ResourceCard, ResourceCounts};
use crate::trade::given;

verus! {

/// What a development card costs: an ore, a wheat and a sheep.
pub open spec fn development_cost() -> ResourceCounts {
    ResourceCounts { ore: 1, wheat: 1, sheep: 1, brick: 0, lumber: 0 }
}

/// A hand of this many cards or more is halved after a seven.
pub const DISCARD_FROM: usize = 8;

#[allow(non_snake_case)]
impl Game {
    /// `post` is `self` after the dice showed `total`: the throw is noted;
    /// on a seven nothing else happens; on any other total every player
    /// receives the `award` of every kind.
    pub open spec fn dice_applied(self, post: Game, total: usize) -> bool {
        &&& post.previous_dice_roll == total
        &&& post.rolled_dice_this_turn
        &&& post.board == self.board
        &&& post.turn_number == self.turn_number
        &&& post.current_player_id == self.current_player_id
        &&& post.current_trade_offer == self.current_trade_offer
        &&& post.players_accepted_trade_offer == self.players_accepted_trade_offer
        &&& post.bank.development_cards == self.bank.development_cards
        &&& post.bank.development_card_pointer == self.bank.development_card_pointer
        &&& forall|p: int|
            0 <= p < 4 ==> #[trigger] post.players[p] == self.players[p].with_hand(
                post.players[p].resource_cards,
            )
        &&& if total == 7 {
            post.players == self.players && post.bank == self.bank
        } else {
            forall|kind: ResourceCard| self.kind_produced(post, total, kind)
        }
    }

    /// Notes that the dice showed `total` and, unless it is a seven, hands
    /// out what the tiles with that chit produce.
    pub fn applyDiceRoll(&mut self, total: usize)
        requires
            old(self).wf(),
        ensures
            final(self).wf(),
            old(self).dice_applied(*final(self), total),
            old(self).same_supply(*final(self)),
    {
        proof {
            old(self).lemma_wf_parts();
        }
        self.previous_dice_roll = total;
        self.rolled_dice_this_turn = true;
        proof {
            self.lemma_frame_keeps_wf(*old(self));
        }
        if total == 7 {
            return ;
        }
        let ghost noted = *self;
        self.produceDiceRoll(total);
        proof {
            assert forall|kind: ResourceCard| old(self).kind_produced(*self, total, kind) by {
                assert(noted.kind_produced(*self, total, kind));
                assert(noted.award(total, 0, kind) == old(self).award(total, 0, kind));
                assert(noted.award(total, 1, kind) == old(self).award(total, 1, kind));
                assert(noted.award(total, 2, kind) == old(self).award(total, 2, kind));
                assert(noted.award(total, 3, kind) == old(self).award(total, 3, kind));
                assert forall|p: int| 0 <= p < 4 implies (
                #[trigger] self.players[p]).resource_cards.amount(kind) == old(
                    self,
                ).players[p].resource_cards.amount(kind) + old(self).award(
                    total,
                    p as usize,
                    kind,
                ) by {
                    assert(noted.award(total, p as usize, kind) == old(self).award(
                        total,
                        p as usize,
                        kind,
                    ));
                }
            }
        }
    }

    /// `post` is `self` after a throw of two dice.
    pub open spec fn dice_rolled(self, post: Game) -> bool {
        exists|total: usize| 2 <= total <= 12 && #[trigger] self.dice_applied(post, total)
    }

    /// Throws two dice, unless they were thrown this turn, and applies
    /// their total.
    pub fn rollDice(&mut self) -> (rolled: bool)
        requires
            old(self).wf(),
        ensures
            final(self).wf(),
            rolled == !old(self).rolled_dice_this_turn,
            rolled ==> old(self).dice_rolled(*final(self)),
            !rolled ==> *final(self) == *old(self),
            old(self).same_supply(*final(self)),
    {
        if self.rolled_dice_this_turn {
            return false;
        }
        let roll_1 = roll_die();
        let roll_2 = roll_die();
        self.applyDiceRoll(roll_1 + roll_2);
        true
    }

    /// `post` is `self` after the turn has ended: the cards that the
    /// player whose turn it was drew have become playable, it is the next
    /// player's turn, and the dice are to be thrown again.
    pub open spec fn turn_ended(self, post: Game) -> bool {
        let p = self.current_player_id as int;
        &&& post == (Game {
            players: post.players,
            current_player_id: next_seat(self.current_player_id),
            rolled_dice_this_turn: false,
            ..self
        })
        &&& post.players[p] == (Player {
            development_cards: post.players[p].development_cards,
            development_cards_drawn_this_turn: DevelopmentCounts::none(),
            ..self.players[p]
        })
        &&& forall|card: DevelopmentCard|
            post.players[p].development_cards.amount(card)
                == self.players[p].development_cards.amount(card)
                + self.players[p].development_cards_drawn_this_turn.amount(card)
        &&& forall|q: int| 0 <= q < 4 && q != p ==> #[trigger] post.players[q] == self.players[q]
    }

    /// Ends the turn of the player whose turn it is, on behalf of
    /// `player_id`.
    pub fn endTurn(&mut self, player_id: usize) -> (ended: bool)
        requires
            old(self).wf(),
        ensures
            final(self).wf(),
            ended == (player_id < 4),
            ended ==> old(self).turn_ended(*final(self)),
            !ended ==> *final(self) == *old(self),
            old(self).same_supply(*final(self)),
    {
        if player_id >= 4 {
            return false;
        }
        proof {
            old(self).lemma_wf_parts();
        }
        self.release_cards(self.current_player_id);
        let ghost released = *self;
        proof {
            released.lemma_wf_parts();
        }
        self.current_player_id = (self.current_player_id + 1) % 4;
        self.rolled_dice_this_turn = false;
        proof {
            self.lemma_frame_keeps_wf(released);
        }
        true
    }

    /// When `player` may discard `cards`: a seven was thrown, the player
    /// holds eight cards or more and holds `cards`, and `cards` are half of
    /// the hand, rounded down.
    pub open spec fn can_discard(self, cards: ResourceCounts, player: usize) -> bool {
        &&& player < 4
        &&& self.previous_dice_roll == 7
        &&& self.players[player as int].resource_cards.covers(cards)
        &&& self.players[player as int].resource_cards.total() >= DISCARD_FROM
        &&& cards.total() == self.players[player as int].resource_cards.total() / 2
    }

    /// Every hand holds of every kind no more than there are cards of it.
    pub proof fn lemma_hand_small(self, p: int)
        requires
            self.wf(),
            0 <= p < 4,
        ensures
            forall|kind: ResourceCard| self.players[p].resource_cards.amount(kind) <= 69,
            self.players[p].resource_cards.total() <= 345,
    {
        self.lemma_wf_parts();
        assert forall|kind: ResourceCard| self.players[p].resource_cards.amount(kind) <= 69 by {
            self.lemma_supply(kind);
            self.lemma_hand_within_circulation(p, kind);
        }
        assert(self.players[p].resource_cards.amount(ResourceCard::Ore) <= 69);
        assert(self.players[p].resource_cards.amount(ResourceCard::Wheat) <= 69);
        assert(self.players[p].resource_cards.amount(ResourceCard::Sheep) <= 69);
        assert(self.players[p].resource_cards.amount(ResourceCard::Brick) <= 69);
        assert(self.players[p].resource_cards.amount(ResourceCard::Lumber) <= 69);
    }

    /// Discards the cards that `action` names from the hand of `player_id`
    /// to the bank, if that is allowed.
    pub fn discard(&mut self, action: Action, player_id: usize) -> (discarded: bool)
        requires
            old(self).wf(),
        ensures
            final(self).wf(),
            discarded == old(self).can_discard(given(action), player_id),
            discarded ==> old(self).only_cards_moved(*final(self)) && old(self).paid(
                *final(self),
                player_id as int,
                given(action),
            ),
            !discarded ==> *final(self) == *old(self),
            old(self).same_supply(*final(self)),
    {
        if player_id >= 4 {
            return false;
        }
        let removed_cards = ResourceCounts::new(
            action.action_metadata[0],
            action.action_metadata[1],
            action.action_metadata[2],
            action.action_metadata[3],
            action.action_metadata[4],
        );
        if !self.players[player_id].hasResourceCards(removed_cards) {
            return false;
        }
        proof {
            old(self).lemma_hand_small(player_id as int);
            let hand = old(self).players[player_id as int].resource_cards;
            assert(hand.amount(ResourceCard::Ore) >= removed_cards.amount(ResourceCard::Ore));
            assert(hand.amount(ResourceCard::Wheat) >= removed_cards.amount(ResourceCard::Wheat));
            assert(hand.amount(ResourceCard::Sheep) >= removed_cards.amount(ResourceCard::Sheep));
            assert(hand.amount(ResourceCard::Brick) >= removed_cards.amount(ResourceCard::Brick));
            assert(hand.amount(ResourceCard::Lumber) >= removed_cards.amount(ResourceCard::Lumber));
        }
        let num_cards = self.players[player_id].resource_cards.count();
        let num_discarded_cards = removed_cards.count();
        if self.previous_dice_roll != 7 || num_cards < 8 || num_cards / 2 != num_discarded_cards {
            return false;
        }
        self.collect(player_id, removed_cards);
        true
    }

    /// When `player` may draw a development card: the hand covers the cost
    /// and a card is left in the stack.
    pub open spec fn can_draw_card(self, player: usize) -> bool {
        &&& player < 4
        &&& self.players[player as int].resource_cards.covers(development_cost())
        &&& self.bank.development_card_pointer < DEVELOPMENT_STACK
    }

    /// `post` is `self` after player `p` bought the next card of the stack:
    /// the bank has the cost, and the card is held back in the player's hand.
    pub open spec fn card_bought(self, post: Game, p: int) -> bool {
        let card = self.bank.development_cards@[self.bank.development_card_pointer as int];
        &&& self.same_turn(post)
        &&& post.board == self.board
        &&& post.bank == (Bank {
            resource_cards: self.bank.resource_cards.plus(development_cost()),
            development_card_pointer: (self.bank.development_card_pointer + 1) as usize,
            ..self.bank
        })
        &&& post.players[p] == (Player {
            resource_cards: self.players[p].resource_cards.minus(development_cost()),
            development_cards_drawn_this_turn: self.players[p].development_cards_drawn_this_turn.with_amount(
                card,
                (self.players[p].development_cards_drawn_this_turn.amount(card) + 1) as usize,
            ),
            ..self.players[p]
        })
        &&& forall|q: int| 0 <= q < 4 && q != p ==> #[trigger] post.players[q] == self.players[q]
    }

    /// Buys the next development card for `player_id`, if that is allowed.
    pub fn drawDevelopmentCard(&mut self, player_id: usize) -> (drawn: bool)
        requires
            old(self).wf(),
        ensures
            final(self).wf(),
            drawn == old(self).can_draw_card(player_id),
            drawn ==> old(self).card_bought(*final(self), player_id as int),
            !drawn ==> *final(self) == *old(self),
            old(self).same_supply(*final(self)),
    {
        if player_id >= 4 {
            return false;
        }
        let development_card_resources = ResourceCounts::new(1, 1, 1, 0, 0);
        if !self.players[player_id].hasResourceCards(development_card_resources) {
            return false;
        }
        if self.bank.development_card_pointer >= 25 {
            return false;
        }
        self.collect(player_id, development_card_resources);
        let ghost charged = *self;
        let card = self.draw_for(player_id);
        proof {
            assert(charged.players[player_id as int] == old(self).players[player_id as int].with_hand(
                charged.players[player_id as int].resource_cards,
            ));
            assert forall|q: int| 0 <= q < 4 && q != player_id implies #[trigger] self.players[q]
                == old(self).players[q] by {
                assert(charged.players[q] == old(self).players[q]);
            }
        }
        true
    }

    /// When the robber may be put on `tile` to rob `victim`: the tile is on
    /// the board and free of the robber, and the victim is a player with a
    /// settlement or city on a corner of the tile.
    pub open spec fn can_place_robber(self, tile: usize, victim: usize, player: usize) -> bool {
        &&& player < 4
        &&& tile < TILE_COUNT
        &&& !self.board.tiles@[tile as int].has_robber
        &&& victim < 4
        &&& self.board.has_building_of(tile as int, victim)
    }

    /// `post` is `self` after `player` put the robber on `tile` and took a
    /// card from `victim`.
    pub open spec fn robber_placed(self, post: Game, tile: usize, victim: usize, player: usize) -> bool {
        &&& self.board.robber_moved(post.board, tile as int)
        &&& (Game { board: post.board, ..self }).robbed(post, victim as int, player as int)
    }

    /// Puts the robber on `tile` and lets `player_id` take a card from
    /// `victim`, if that is allowed.
    pub fn placeRobber(&mut self, tile: usize, victim: usize, player_id: usize) -> (placed: bool)
        requires
            old(self).wf(),
        ensures
            final(self).wf(),
            placed == old(self).can_place_robber(tile, victim, player_id),
            placed ==> old(self).robber_placed(*final(self), tile, victim, player_id),
            !placed ==> *final(self) == *old(self),
            old(self).same_supply(*final(self)),
            forall|p: int|
                0 <= p < 4 ==> #[trigger] final(self).players[p] == old(self).players[p].with_hand(
                    final(self).players[p].resource_cards,
                ),
    {
        if player_id >= 4 || tile >= 19 || victim >= 4 {
            return false;
        }
        proof {
            old(self).lemma_wf_parts();
        }
        if self.board.tiles[tile].has_robber {
            return false;
        }
        if !self.board.hasBuildingOf(tile, victim) {
            return false;
        }
        self.board.moveRobber(tile);
        proof {
            self.lemma_frame_keeps_wf(*old(self));
        }
        self.rob(victim, player_id);
        true
    }
}

} // verus!
