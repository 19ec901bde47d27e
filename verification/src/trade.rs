use vstd::prelude::*;
use crate::action::Action;
use crate::board::PORT_COUNT;
use crate::game::{next_seat, Game};
use crate::resource::{
    lemma_counts_equal, lemma_minus, lemma_plus, lemma_sole_kind, lemma_with_amount, ResourceCard,
    ResourceCounts,
};
use crate::trade_offer::TradeOffer;

verus! {

/// The cards that an action names at positions `from` to `from + 4`.
pub open spec fn counts_at(action: Action, from: int) -> ResourceCounts {
    ResourceCounts {
        ore: action.action_metadata[from],
        wheat: action.action_metadata[from + 1],
        sheep: action.action_metadata[from + 2],
        brick: action.action_metadata[from + 3],
        lumber: action.action_metadata[from + 4],
    }
}

/// The cards that a trade action gives away.
pub open spec fn given(action: Action) -> ResourceCounts {
    counts_at(action, 0)
}

/// The cards that a trade action asks for.
pub open spec fn asked(action: Action) -> ResourceCounts {
    counts_at(action, 5)
}

#[allow(non_snake_case)]
impl Game {
    /// Player `p` has a settlement or city on one of the two nodes of
    /// port `port`.
    pub open spec fn at_port(self, p: usize, port: int) -> bool {
        ||| self.board.built_by(self.board.port_node_mapping@[port].0 as int, p)
        ||| self.board.built_by(self.board.port_node_mapping@[port].1 as int, p)
    }

    /// Some port at which player `p` has built takes `amount` cards of
    /// `kind` for one card.
    pub open spec fn port_takes(self, p: usize, kind: ResourceCard, amount: nat) -> bool {
        exists|port: int|
            0 <= port < PORT_COUNT && #[trigger] self.at_port(p, port) && self.board.ports@[port].takes(
                kind,
                amount,
            )
    }

    /// When a trade with the bank goes through: the player gives cards of
    /// one kind only, as many as a port at which the player has built takes
    /// for one card, and holds them; and the player asks for one card,
    /// which the bank has.
    pub open spec fn can_trade_at_port(
        self,
        player: usize,
        giving: ResourceCounts,
        asking: ResourceCounts,
    ) -> bool {
        &&& player < 4
        &&& giving.sole_kind() matches Some(offered)
        &&& asking.sole_kind() matches Some(wanted)
        &&& asking.amount(wanted) == 1
        &&& self.port_takes(player, offered, giving.amount(offered))
        &&& self.players[player as int].resource_cards.covers(giving)
        &&& self.bank.resource_cards.amount(wanted) >= 1
    }

    /// `post` is `self` after player `p` gave `giving` to the bank and took
    /// `asking` from it.
    pub open spec fn traded_with_bank(
        self,
        post: Game,
        p: int,
        giving: ResourceCounts,
        asking: ResourceCounts,
    ) -> bool {
        &&& self.only_cards_moved(post)
        &&& post.bank.resource_cards == self.bank.resource_cards.plus(giving).minus(asking)
        &&& post.players[p].resource_cards == self.players[p].resource_cards.minus(giving).plus(
            asking,
        )
        &&& forall|q: int| 0 <= q < 4 && q != p ==> #[trigger] post.players[q] == self.players[q]
    }

    /// Whether `player` has a settlement or city at port `port`.
    pub fn atPort(&self, player: usize, port: usize) -> (there: bool)
        requires
            self.board.wf(),
            port < PORT_COUNT,
        ensures
            there == self.at_port(player, port as int),
    {
        let (first, second) = self.board.port_node_mapping[port];
        assert(self.board.port_ok(port as int));
        self.builtBy(first, player) || self.builtBy(second, player)
    }

    /// Whether a settlement or city of `player` stands on `node`.
    pub fn builtBy(&self, node: usize, player: usize) -> (built: bool)
        requires
            self.board.wf(),
            node < crate::board::NODE_COUNT,
        ensures
            built == self.board.built_by(node as int, player),
    {
        match self.board.nodes[node].building {
            Some(crate::building::Building::Settlement(_, owner)) => owner == player,
            Some(crate::building::Building::City(_, owner)) => owner == player,
            _ => false,
        }
    }

    /// Whether a port at which `player` has built takes `amount` cards of
    /// `kind` for one card.
    pub fn portTakes(&self, player: usize, kind: ResourceCard, amount: usize) -> (taken: bool)
        requires
            self.board.wf(),
        ensures
            taken == self.port_takes(player, kind, amount as nat),
    {
        let mut port: usize = 0;
        while port < 9
            invariant
                self.board.wf(),
                port <= 9,
                forall|a: int|
                    0 <= a < port ==> !(#[trigger] self.at_port(player, a)
                        && self.board.ports@[a].takes(kind, amount as nat)),
            decreases 9 - port,
        {
            if self.atPort(player, port) && self.board.ports[port].accepts(kind, amount) {
                return true;
            }
            port += 1;
        }
        false
    }

    /// Lets `player` give `giving` to the bank and take one card of
    /// `wanted` from it.
    #[verifier::rlimit(30)]
    fn trade_with_bank(&mut self, player: usize, giving: ResourceCounts, wanted: ResourceCard)
        requires
            old(self).wf(),
            player < 4,
            old(self).players[player as int].resource_cards.covers(giving),
            old(self).bank.resource_cards.amount(wanted) >= 1,
        ensures
            final(self).wf(),
            old(self).traded_with_bank(
                *final(self),
                player as int,
                giving,
                ResourceCounts::only(wanted, 1),
            ),
            old(self).same_supply(*final(self)),
    {
        let ghost asking = ResourceCounts::only(wanted, 1);
        proof {
            lemma_with_amount(ResourceCounts::none(), wanted, 1);
            old(self).lemma_wf_parts();
            assert forall|kind: ResourceCard|
                old(self).bank.resource_cards.amount(kind) + giving.amount(kind) <= 69 by {
                old(self).lemma_supply(kind);
                old(self).lemma_hand_within_circulation(player as int, kind);
                assert(old(self).players[player as int].resource_cards.amount(kind)
                    >= giving.amount(kind));
            }
            assert(old(self).bank.resource_cards.fits(giving));
            lemma_plus(old(self).bank.resource_cards, giving);
        }
        self.collect(player, giving);
        let ghost paid = *self;
        assert(paid.bank.resource_cards.amount(wanted) >= 1);
        self.give(player, wanted, 1);
        proof {
            old(self).lemma_cards_moved_twice(paid, *self);
            let bank0 = old(self).bank.resource_cards;
            let hand0 = old(self).players[player as int].resource_cards;
            assert(bank0.fits(giving));
            lemma_plus(bank0, giving);
            lemma_minus(hand0, giving);
            assert(bank0.plus(giving).covers(asking)) by {
                assert forall|kind: ResourceCard| bank0.plus(giving).amount(kind) >= asking.amount(
                    kind,
                ) by {
                }
            }
            lemma_minus(bank0.plus(giving), asking);
            assert(hand0.minus(giving).fits(asking)) by {
                assert forall|kind: ResourceCard|
                    hand0.minus(giving).amount(kind) + asking.amount(kind) <= usize::MAX by {
                    old(self).lemma_supply(kind);
                    old(self).lemma_hand_within_circulation(player as int, kind);
                }
            }
            lemma_plus(hand0.minus(giving), asking);
            assert forall|kind: ResourceCard|
                self.bank.resource_cards.amount(kind) == bank0.plus(giving).minus(asking).amount(
                    kind,
                ) && self.players[player as int].resource_cards.amount(kind) == hand0.minus(
                    giving,
                ).plus(asking).amount(kind) by {
                if kind != wanted {
                    assert(self.bank.resource_cards.amount(kind)
                        == paid.bank.resource_cards.amount(kind));
                    assert(self.players[player as int].resource_cards.amount(kind)
                        == paid.players[player as int].resource_cards.amount(kind));
                }
            }
            lemma_counts_equal(
                self.bank.resource_cards,
                old(self).bank.resource_cards.plus(giving).minus(asking),
            );
            lemma_counts_equal(
                self.players[player as int].resource_cards,
                old(self).players[player as int].resource_cards.minus(giving).plus(asking),
            );
            assert forall|q: int| 0 <= q < 4 && q != player implies #[trigger] self.players[q]
                == old(self).players[q] by {
                assert(paid.players[q] == old(self).players[q]);
            }
        }
    }

    /// Trades with the bank through a port, if the offer is one that a port
    /// of the player takes. Says whether it did.
    pub fn offerPortTrade(&mut self, action: Action, player_id: usize) -> (traded: bool)
        requires
            old(self).wf(),
        ensures
            final(self).wf(),
            traded == old(self).can_trade_at_port(player_id, given(action), asked(action)),
            traded ==> old(self).traded_with_bank(
                *final(self),
                player_id as int,
                given(action),
                asked(action),
            ),
            !traded ==> *final(self) == *old(self),
            old(self).same_supply(*final(self)),
    {
        if player_id >= 4 {
            return false;
        }
        assert(self.board.wf()) by {
            old(self).lemma_wf_parts();
        }
        let giving = ResourceCounts::new(
            action.action_metadata[0],
            action.action_metadata[1],
            action.action_metadata[2],
            action.action_metadata[3],
            action.action_metadata[4],
        );
        let asking = ResourceCounts::new(
            action.action_metadata[5],
            action.action_metadata[6],
            action.action_metadata[7],
            action.action_metadata[8],
            action.action_metadata[9],
        );
        let offered = match giving.only_kind() {
            Some(kind) => kind,
            None => {
                return false;
            },
        };
        let wanted = match asking.only_kind() {
            Some(kind) => kind,
            None => {
                return false;
            },
        };
        if asking.get(wanted) != 1 {
            return false;
        }
        if !self.portTakes(player_id, offered, giving.get(offered)) {
            return false;
        }
        if !self.players[player_id].hasResourceCards(giving) {
            return false;
        }
        if self.bank.amountOfResource(wanted) < 1 {
            return false;
        }
        proof {
            lemma_sole_kind(asking);
        }
        self.trade_with_bank(player_id, giving, wanted);
        true
    }

    /// Makes it the next player's turn.
    pub fn pass_on(&mut self)
        requires
            old(self).wf(),
        ensures
            final(self).wf(),
            *final(self) == (Game {
                current_player_id: next_seat(old(self).current_player_id),
                ..*old(self)
            }),
            old(self).same_supply(*final(self)),
    {
        proof {
            old(self).lemma_wf_parts();
        }
        self.current_player_id = (self.current_player_id + 1) % 4;
        proof {
            self.lemma_frame_keeps_wf(*old(self));
        }
    }

    /// When an offer to the other players is opened: no port takes it, and
    /// the player holds what is given.
    pub open spec fn can_open_offer(self, action: Action, player: usize) -> bool {
        &&& player < 4
        &&& !self.can_trade_at_port(player, given(action), asked(action))
        &&& self.players[player as int].resource_cards.covers(given(action))
    }

    /// `post` is `self` after `player` opened the offer that `action`
    /// describes: the offer stands, and it is the next player's turn.
    pub open spec fn offer_opened(self, post: Game, action: Action, player: usize) -> bool {
        post == (Game {
            current_trade_offer: Some(
                TradeOffer {
                    player_offerer_id: player,
                    giving_resources: given(action),
                    receiving_resources: asked(action),
                },
            ),
            current_player_id: next_seat(self.current_player_id),
            ..self
        })
    }

    /// Offers a trade: with the bank, where a port of the player takes the
    /// offer; otherwise with the other players, where the player holds what
    /// is given.
    pub fn offerTrade(&mut self, action: Action, player_id: usize) -> (offered: bool)
        requires
            old(self).wf(),
        ensures
            final(self).wf(),
            offered == (old(self).can_trade_at_port(player_id, given(action), asked(action))
                || old(self).can_open_offer(action, player_id)),
            old(self).can_trade_at_port(player_id, given(action), asked(action)) ==> old(
                self,
            ).traded_with_bank(*final(self), player_id as int, given(action), asked(action)),
            old(self).can_open_offer(action, player_id) ==> old(self).offer_opened(
                *final(self),
                action,
                player_id,
            ),
            !offered ==> *final(self) == *old(self),
            old(self).same_supply(*final(self)),
    {
        if self.offerPortTrade(action, player_id) {
            return true;
        }
        if player_id >= 4 {
            return false;
        }
        let giving_resources = ResourceCounts::new(
            action.action_metadata[0],
            action.action_metadata[1],
            action.action_metadata[2],
            action.action_metadata[3],
            action.action_metadata[4],
        );
        let receiving_resources = ResourceCounts::new(
            action.action_metadata[5],
            action.action_metadata[6],
            action.action_metadata[7],
            action.action_metadata[8],
            action.action_metadata[9],
        );
        if !self.players[player_id].hasResourceCards(giving_resources) {
            return false;
        }
        proof {
            old(self).lemma_wf_parts();
        }
        self.current_trade_offer = Some(
            TradeOffer { player_offerer_id: player_id, receiving_resources, giving_resources },
        );
        self.current_player_id = (self.current_player_id + 1) % 4;
        proof {
            self.lemma_frame_keeps_wf(*old(self));
        }
        true
    }

    /// When an offer is accepted. Whoever accepts holds what the offer asks
    /// for. The offerer, in addition, names a player who has accepted and
    /// still holds what the offer asks for, and holds what the offer gives.
    pub open spec fn can_accept_trade(self, action: Action, player: usize) -> bool {
        &&& player < 4
        &&& self.current_trade_offer matches Some(offer)
        &&& self.players[player as int].resource_cards.covers(offer.receiving_resources)
        &&& player == offer.player_offerer_id ==> {
            let partner = action.action_metadata[0];
            &&& partner < 4
            &&& self.players_accepted_trade_offer[partner as int]
            &&& self.players[player as int].resource_cards.covers(offer.giving_resources)
            &&& self.players[partner as int].resource_cards.covers(offer.receiving_resources)
        }
    }

    /// `post` is `self` after `player`, who is not the offerer, accepted:
    /// the acceptance is noted, and it is the next player's turn.
    pub open spec fn acceptance_noted(self, post: Game, player: usize) -> bool {
        &&& post == (Game {
            players_accepted_trade_offer: post.players_accepted_trade_offer,
            current_player_id: next_seat(self.current_player_id),
            ..self
        })
        &&& post.players_accepted_trade_offer@ == self.players_accepted_trade_offer@.update(
            player as int,
            true,
        )
    }

    /// `post` is `self` after the offerer `p` and `partner` exchanged what
    /// the offer gives for what it asks.
    pub open spec fn exchanged(
        self,
        post: Game,
        p: int,
        partner: int,
        giving: ResourceCounts,
        asking: ResourceCounts,
    ) -> bool {
        if p == partner {
            post == self
        } else {
            &&& self.only_cards_moved(post)
            &&& post.bank == self.bank
            &&& post.players[p].resource_cards == self.players[p].resource_cards.minus(giving).plus(
                asking,
            )
            &&& post.players[partner].resource_cards == self.players[partner].resource_cards.plus(
                giving,
            ).minus(asking)
            &&& forall|q: int|
                0 <= q < 4 && q != p && q != partner ==> #[trigger] post.players[q]
                    == self.players[q]
        }
    }

    /// What accepting does, where the offer is accepted.
    pub open spec fn trade_accepted(self, post: Game, action: Action, player: usize) -> bool {
        &&& self.current_trade_offer matches Some(offer)
        &&& if player == offer.player_offerer_id {
            self.exchanged(
                post,
                player as int,
                action.action_metadata[0] as int,
                offer.giving_resources,
                offer.receiving_resources,
            )
        } else {
            self.acceptance_noted(post, player)
        }
    }

    /// Accepts the offer that stands: a player other than the offerer notes
    /// the acceptance; the offerer makes the exchange with a player who has
    /// accepted.
    pub fn acceptTrade(&mut self, action: Action, player_id: usize) -> (accepted: bool)
        requires
            old(self).wf(),
        ensures
            final(self).wf(),
            accepted == old(self).can_accept_trade(action, player_id),
            accepted ==> old(self).trade_accepted(*final(self), action, player_id),
            !accepted ==> *final(self) == *old(self),
            old(self).same_supply(*final(self)),
    {
        if player_id >= 4 {
            return false;
        }
        let offer = match self.current_trade_offer {
            Some(offer) => offer,
            None => {
                return false;
            },
        };
        if !self.players[player_id].hasResourceCards(offer.receiving_resources) {
            return false;
        }
        if offer.player_offerer_id != player_id {
            proof {
                old(self).lemma_wf_parts();
            }
            self.current_player_id = (self.current_player_id + 1) % 4;
            self.players_accepted_trade_offer[player_id] = true;
            proof {
                self.lemma_frame_keeps_wf(*old(self));
            }
            return true;
        }
        let player_to_accept_trade_from = action.action_metadata[0];
        if player_to_accept_trade_from >= 4 {
            return false;
        }
        if !self.players_accepted_trade_offer[player_to_accept_trade_from] {
            return false;
        }
        if !self.players[player_id].hasResourceCards(offer.giving_resources) {
            return false;
        }
        if !self.players[player_to_accept_trade_from].hasResourceCards(offer.receiving_resources) {
            return false;
        }
        self.hand_over(player_id, player_to_accept_trade_from, offer.giving_resources);
        let ghost given_over = *self;
        proof {
            if player_id != player_to_accept_trade_from {
                old(self).lemma_wf_parts();
                let hand = old(self).players[player_to_accept_trade_from as int].resource_cards;
                assert(hand.fits(offer.giving_resources)) by {
                    assert forall|kind: ResourceCard|
                        hand.amount(kind) + offer.giving_resources.amount(kind) <= usize::MAX by {
                        old(self).lemma_supply(kind);
                        old(self).lemma_hands_within_circulation(
                            player_id as int,
                            player_to_accept_trade_from as int,
                            kind,
                        );
                    }
                }
                lemma_plus(hand, offer.giving_resources);
            }
        }
        self.hand_over(player_to_accept_trade_from, player_id, offer.receiving_resources);
        proof {
            if player_id != player_to_accept_trade_from {
                old(self).lemma_cards_moved_twice(given_over, *self);
                assert forall|q: int|
                    0 <= q < 4 && q != player_id && q != player_to_accept_trade_from implies #[trigger] self.players[q]
                    == old(self).players[q] by {
                    assert(given_over.players[q] == old(self).players[q]);
                }
            }
        }
        true
    }

    /// Declines the offer that stands: it is the next player's turn.
    pub fn declineTrade(&mut self, player_id: usize) -> (declined: bool)
        requires
            old(self).wf(),
        ensures
            final(self).wf(),
            declined == (player_id < 4 && old(self).current_trade_offer is Some),
            declined ==> *final(self) == (Game {
                current_player_id: next_seat(old(self).current_player_id),
                ..*old(self)
            }),
            !declined ==> *final(self) == *old(self),
            old(self).same_supply(*final(self)),
    {
        if player_id >= 4 {
            return false;
        }
        if self.current_trade_offer.is_none() {
            return false;
        }
        self.pass_on();
        true
    }
}

} // verus!
