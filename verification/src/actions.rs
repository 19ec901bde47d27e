use vstd::prelude::*;
use crate::action::{Action, ActionType};
use crate::audit::InvariantViolation;
use crate::game::{next_seat, Game};
use crate::trade::{asked, given};

verus! {

#[allow(non_snake_case)]
impl Game {
    /// Holds where the turn allows `player` an action of this type: the
    /// dice have been thrown, or the action throws them; and no offer
    /// stands, or the player made it, or the action answers it.
    pub open spec fn gate_open(self, action: Action, player: usize) -> bool {
        &&& self.rolled_dice_this_turn || action.action_type == ActionType::RollDice
        &&& self.current_trade_offer matches Some(offer) ==> player == offer.player_offerer_id
            || action.action_type == ActionType::AcceptTrade || action.action_type
            == ActionType::DeclineTrade
    }

    /// When an action of `player` is taken after the setup phase.
    pub open spec fn accepts_in_play(self, action: Action, player: usize) -> bool {
        &&& player < 4
        &&& self.gate_open(action, player)
        &&& match action.action_type {
            ActionType::RollDice => !self.rolled_dice_this_turn,
            ActionType::PlaceRobber => self.can_place_robber(
                action.action_metadata[0],
                action.action_metadata[1],
                player,
            ),
            ActionType::PlaySettlement => self.can_play_settlement(
                action.action_metadata[0],
                player,
            ),
            ActionType::PlayRoad => self.can_play_road(action.action_metadata[0], player),
            ActionType::PlayCity => self.can_play_city(action.action_metadata[0], player),
            ActionType::OfferTrade => self.can_trade_at_port(player, given(action), asked(action))
                || self.can_open_offer(action, player),
            ActionType::AcceptTrade => self.can_accept_trade(action, player),
            ActionType::DeclineTrade => self.current_trade_offer is Some,
            ActionType::PlayDevelopmentCard => self.can_play_card(action, player),
            ActionType::DrawDevelopmentCard => self.can_draw_card(player),
            ActionType::Discard => self.can_discard(given(action), player),
            ActionType::EndTurn => true,
        }
    }

    /// When an action of `player` is taken.
    pub open spec fn accepts(self, action: Action, player: usize) -> bool {
        if self.in_setup() {
            self.can_setup(action, player)
        } else {
            self.accepts_in_play(action, player)
        }
    }

    /// What an action of `player` does after the setup phase, where it is
    /// taken.
    pub open spec fn applied_in_play(self, post: Game, action: Action, player: usize) -> bool {
        match action.action_type {
            ActionType::RollDice => self.dice_rolled(post),
            ActionType::PlaceRobber => self.robber_placed(
                post,
                action.action_metadata[0],
                action.action_metadata[1],
                player,
            ),
            ActionType::PlaySettlement => self.settlement_built(
                post,
                action.action_metadata[0],
                player,
            ),
            ActionType::PlayRoad => self.road_built(post, action.action_metadata[0], player),
            ActionType::PlayCity => self.city_built(post, action.action_metadata[0], player),
            ActionType::OfferTrade => if self.can_trade_at_port(
                player,
                given(action),
                asked(action),
            ) {
                self.traded_with_bank(post, player as int, given(action), asked(action))
            } else {
                self.offer_opened(post, action, player)
            },
            ActionType::AcceptTrade => self.trade_accepted(post, action, player),
            ActionType::DeclineTrade => post == (Game {
                current_player_id: next_seat(self.current_player_id),
                ..self
            }),
            ActionType::PlayDevelopmentCard => self.card_played(post, action, player),
            ActionType::DrawDevelopmentCard => self.card_bought(post, player as int),
            ActionType::Discard => self.only_cards_moved(post) && self.paid(
                post,
                player as int,
                given(action),
            ),
            ActionType::EndTurn => self.turn_ended(post),
        }
    }

    /// What an action of `player` does, where it is taken.
    pub open spec fn applied(self, post: Game, action: Action, player: usize) -> bool {
        if self.in_setup() {
            self.setup_done(post, action, player)
        } else {
            self.applied_in_play(post, action, player)
        }
    }

    /// The action would bring cards into the game: it plays, after the
    /// setup phase, a year of plenty for cards that the bank does not have.
    pub open spec fn mints(self, action: Action) -> bool {
        &&& !self.in_setup()
        &&& action.action_type == ActionType::PlayDevelopmentCard
        &&& self.plenty_uncovered(action)
    }

    /// Takes one action of `player_id`, if the rules allow it, and says
    /// whether it did. An action that is not taken changes nothing.
    ///
    /// In the setup phase only first settlements and first roads are
    /// placed. After it, the dice must be thrown before anything else in a
    /// turn; and while an offer stands, players other than the offerer can
    /// only accept or decline. The offer stays open until the game is
    /// reset.
    ///
    /// Of every kind of resource as many cards are in the game afterwards as
    /// before, unless the action `mints`.
    pub fn takeAction(&mut self, action: Action, player_id: usize) -> (taken: bool)
        requires
            old(self).wf(),
        ensures
            final(self).wf(),
            taken == old(self).accepts(action, player_id),
            taken ==> old(self).applied(*final(self), action, player_id),
            !taken ==> final(self).unchanged_from(*old(self)),
            !old(self).mints(action) ==> old(self).same_supply(*final(self)),
            !old(self).mints(action) && old(self).conserved() ==> final(self).conserved(),
    {
        if self.turn_number < 7 {
            return self.handleInitialTurn(action, player_id);
        }
        if player_id >= 4 {
            return false;
        }
        if !self.rolled_dice_this_turn && action.action_type != ActionType::RollDice {
            return false;
        }
        match self.current_trade_offer {
            Some(offer) => {
                if offer.player_offerer_id != player_id && action.action_type
                    != ActionType::AcceptTrade && action.action_type != ActionType::DeclineTrade {
                    return false;
                }
            },
            None => {},
        }
        match action.action_type {
            ActionType::AcceptTrade => self.acceptTrade(action, player_id),
            ActionType::DeclineTrade => self.declineTrade(player_id),
            ActionType::Discard => self.discard(action, player_id),
            ActionType::DrawDevelopmentCard => self.drawDevelopmentCard(player_id),
            ActionType::EndTurn => self.endTurn(player_id),
            ActionType::OfferTrade => self.offerTrade(action, player_id),
            ActionType::PlaceRobber => self.placeRobber(
                action.action_metadata[0],
                action.action_metadata[1],
                player_id,
            ),
            ActionType::PlayCity => self.playCity(action.action_metadata[0], player_id),
            ActionType::PlayDevelopmentCard => self.handleDevelopmentCard(action, player_id),
            ActionType::PlayRoad => self.playRoad(action.action_metadata[0], player_id),
            ActionType::PlaySettlement => self.playSettlement(action.action_metadata[0], player_id),
            ActionType::RollDice => self.rollDice(),
        }
    }

    /// Takes one action of `player_id` as `takeAction` does, on any game:
    /// a game that is not well formed takes no action, stays as it is, and
    /// answers with what is wrong with it.
    pub fn takeActionChecked(&mut self, action: Action, player_id: usize) -> (outcome: Result<
        bool,
        InvariantViolation,
    >)
        ensures
            outcome is Ok <==> old(self).wf(),
            outcome is Err ==> *final(self) == *old(self),
            outcome matches Ok(taken) ==> {
                &&& final(self).wf()
                &&& taken == old(self).accepts(action, player_id)
                &&& taken ==> old(self).applied(*final(self), action, player_id)
                &&& !taken ==> final(self).unchanged_from(*old(self))
                &&& !old(self).mints(action) ==> old(self).same_supply(*final(self))
            },
    {
        match self.audit() {
            Err(violation) => Err(violation),
            Ok(()) => Ok(self.takeAction(action, player_id)),
        }
    }
}

} // verus!
