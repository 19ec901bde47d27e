use vstd::prelude::*;
use crate::bank::{Bank, DEVELOPMENT_STACK};
use crate::development::DevelopmentCard;
use crate::game::{lemma_four_one_changed, seat_ok, Game};
use crate::player::Player;
use crate::resource::{lemma_with_amount, ResourceCard, ResourceCounts};

verus! {

/// A player who is sound when some cards have left the stack is sound
/// when more have.
pub proof fn lemma_seat_later(player: Player, seat: int, drawn: usize, later: usize)
    requires
        seat_ok(player, seat, drawn),
        drawn <= later,
    ensures
        seat_ok(player, seat, later),
{
    reveal(seat_ok);
}

#[allow(non_snake_case)]
impl Game {
    /// `post` is `self` after player `p` drew `card` from the stack: the
    /// card is held back in the player's hand.
    pub open spec fn card_drawn(self, post: Game, p: int, card: DevelopmentCard) -> bool {
        &&& self.same_turn(post)
        &&& post.board == self.board
        &&& post.bank == (Bank {
            development_card_pointer: (self.bank.development_card_pointer + 1) as usize,
            ..self.bank
        })
        &&& post.players[p] == (Player {
            development_cards_drawn_this_turn: self.players[p].development_cards_drawn_this_turn.with_amount(
                card,
                (self.players[p].development_cards_drawn_this_turn.amount(card) + 1) as usize,
            ),
            ..self.players[p]
        })
        &&& forall|q: int| 0 <= q < 4 && q != p ==> #[trigger] post.players[q] == self.players[q]
    }

    /// A game stays well formed where a player draws a development card.
    proof fn lemma_card_drawn_keeps_wf(self, pre: Game, p: int, card: DevelopmentCard)
        requires
            pre.wf(),
            0 <= p < 4,
            pre.bank.development_card_pointer < DEVELOPMENT_STACK,
            pre.card_drawn(self, p, card),
        ensures
            self.wf(),
            pre.same_supply(self),
    {
        pre.lemma_wf_parts();
        assert forall|q: int| 0 <= q < 4 implies self.player_ok(q) by {
            pre.lemma_seat(q);
            if q == p {
                reveal(seat_ok);
                let staged = pre.players[p].development_cards_drawn_this_turn;
                assert forall|c: DevelopmentCard|
                    self.players[p].development_cards.amount(c)
                        + #[trigger] self.players[p].development_cards_drawn_this_turn.amount(c)
                        <= self.bank.development_card_pointer by {
                    assert(pre.players[p].development_cards.amount(c) + staged.amount(c)
                        <= pre.bank.development_card_pointer);
                }
                assert(pre.players[p].development_cards.amount(DevelopmentCard::Knight)
                    + staged.amount(DevelopmentCard::Knight) <= pre.bank.development_card_pointer);
                assert(seat_ok(self.players[p], p, self.bank.development_card_pointer));
            } else {
                assert(self.players[q] == pre.players[q]);
                lemma_seat_later(
                    pre.players[q],
                    q,
                    pre.bank.development_card_pointer,
                    self.bank.development_card_pointer,
                );
            }
        }
        assert(self.seats_ok());
        assert forall|q: int| 0 <= q < 4 implies (#[trigger] self.players[q]).longest_road
            == pre.players[q].longest_road && self.players[q].largest_army
            == pre.players[q].largest_army && self.players[q].resource_cards
            == pre.players[q].resource_cards by {
            if q != p {
                assert(self.players[q] == pre.players[q]);
            }
        }
        self.lemma_awards_kept(pre);
        self.lemma_circulation_kept(pre);
        assert(self.plenty_to_come() <= pre.plenty_to_come()) by {
            let a = |q: int| pre.plenty_held(q) as int;
            let b = |q: int| self.plenty_held(q) as int;
            let gain: int = if card == DevelopmentCard::YearOfPlenty { 1 } else { 0 };
            assert forall|q: int| 0 <= q < 4 && q != p implies #[trigger] b(q) == a(q) by {
                assert(self.players[q] == pre.players[q]);
            }
            assert(b(p) == a(p) + gain);
            lemma_four_one_changed(a, b, p, gain);
        }
        self.lemma_supply_kept(pre);
        self.lemma_wf_from_parts();
    }

    /// Lets `player` draw the next development card, if one is left.
    pub fn draw_for(&mut self, player: usize) -> (drawn: Option<DevelopmentCard>)
        requires
            old(self).wf(),
            player < 4,
        ensures
            final(self).wf(),
            old(self).same_supply(*final(self)),
            old(self).bank.development_card_pointer == DEVELOPMENT_STACK ==> drawn is None
                && *final(self) == *old(self),
            old(self).bank.development_card_pointer < DEVELOPMENT_STACK ==> drawn == Some(
                old(self).bank.development_cards@[old(self).bank.development_card_pointer as int],
            ) && old(self).card_drawn(*final(self), player as int, drawn->0),
    {
        proof {
            old(self).lemma_wf_parts();
            old(self).lemma_seat(player as int);
        }
        match self.bank.drawDevelopmentCard() {
            None => None,
            Some(card) => {
                self.players[player].addDevelopmentCard(card);
                proof {
                    self.lemma_card_drawn_keeps_wf(*old(self), player as int, card);
                }
                Some(card)
            },
        }
    }

    /// `post` is `self` after player `p` played a year of plenty for one
    /// card of `first` and one of `second`: the player has one such
    /// development card fewer and the two resource cards more; the bank has
    /// given them as far as it had them.
    pub open spec fn plenty_played(
        self,
        post: Game,
        p: int,
        first: ResourceCard,
        second: ResourceCard,
    ) -> bool {
        &&& self.same_turn(post)
        &&& post.board == self.board
        &&& post.bank == (Bank {
            resource_cards: self.bank.resource_cards.less_one(first).less_one(second),
            ..self.bank
        })
        &&& post.players[p] == (Player {
            development_cards: self.players[p].development_cards.with_amount(
                DevelopmentCard::YearOfPlenty,
                (self.players[p].development_cards.amount(DevelopmentCard::YearOfPlenty)
                    - 1) as usize,
            ),
            resource_cards: self.players[p].resource_cards.one_more(first).one_more(second),
            ..self.players[p]
        })
        &&& forall|q: int| 0 <= q < 4 && q != p ==> #[trigger] post.players[q] == self.players[q]
    }

    /// `post` is `self` after the bank gave one card of `kind` if it had
    /// one, and player `p` received one in either case.
    pub open spec fn granted(self, post: Game, p: int, kind: ResourceCard) -> bool {
        &&& self.same_turn(post)
        &&& post.board == self.board
        &&& post.bank == (Bank { resource_cards: self.bank.resource_cards.less_one(kind), ..self.bank })
        &&& post.players[p] == self.players[p].with_hand(
            self.players[p].resource_cards.one_more(kind),
        )
        &&& forall|q: int| 0 <= q < 4 && q != p ==> #[trigger] post.players[q] == self.players[q]
    }

    /// After a card was granted, no more than one card of any kind has come
    /// into the game, and none where the bank had the card.
    proof fn lemma_granted(self, pre: Game, p: int, kind: ResourceCard)
        requires
            0 <= p < 4,
            pre.granted(self, p, kind),
            pre.players[p].resource_cards.amount(kind) < usize::MAX,
        ensures
            forall|k: ResourceCard| self.circulation(k) <= pre.circulation(k) + 1,
            pre.bank.resource_cards.amount(kind) >= 1 ==> pre.same_supply(self),
            self.players[p].resource_cards.amount(kind) == pre.players[p].resource_cards.amount(
                kind,
            ) + 1,
            forall|k: ResourceCard|
                k != kind ==> self.players[p].resource_cards.amount(k)
                    == pre.players[p].resource_cards.amount(k),
    {
        lemma_with_amount(
            pre.bank.resource_cards,
            kind,
            (pre.bank.resource_cards.amount(kind) - 1) as usize,
        );
        lemma_with_amount(
            pre.players[p].resource_cards,
            kind,
            (pre.players[p].resource_cards.amount(kind) + 1) as usize,
        );
        assert forall|k: ResourceCard|
            self.circulation(k) <= pre.circulation(k) + 1 && (pre.bank.resource_cards.amount(kind)
                >= 1 ==> self.circulation(k) == pre.circulation(k)) by {
            let a = |q: int| pre.players[q].resource_cards.amount(k) as int;
            let b = |q: int| self.players[q].resource_cards.amount(k) as int;
            let gain: int = if k == kind { 1 } else { 0 };
            assert forall|q: int| 0 <= q < 4 && q != p implies #[trigger] b(q) == a(q) by {
                assert(self.players[q] == pre.players[q]);
            }
            assert(b(p) == a(p) + gain);
            lemma_four_one_changed(a, b, p, gain);
        }
    }

    /// Lets the bank give one card of `kind` if it has one, and `player`
    /// receive one in either case.
    fn grant(&mut self, player: usize, kind: ResourceCard)
        requires
            player < 4,
            old(self).players[player as int].resource_cards.amount(kind) < usize::MAX,
        ensures
            old(self).granted(*final(self), player as int, kind),
    {
        self.bank.drawNumberOfResourceCards(kind, 1);
        self.players[player].addResourceCard(kind);
    }

    /// Plays a year of plenty of `player` for one card of `first` and one of
    /// `second`. The bank gives each card if it has one; the player receives
    /// it in either case.
    #[verifier::rlimit(30)]
    pub fn play_year_of_plenty(&mut self, player: usize, first: ResourceCard, second: ResourceCard)
        requires
            old(self).wf(),
            player < 4,
            old(self).players[player as int].development_cards.amount(
                DevelopmentCard::YearOfPlenty,
            ) > 0,
        ensures
            final(self).wf(),
            old(self).plenty_played(*final(self), player as int, first, second),
            old(self).bank.resource_cards.amount(first) >= 1 && old(
                self,
            ).bank.resource_cards.less_one(first).amount(second) >= 1 ==> old(self).same_supply(
                *final(self),
            ),
    {
        proof {
            old(self).lemma_hand_small(player as int);
        }
        self.players[player].removeDevelopmentCard(DevelopmentCard::YearOfPlenty);
        let ghost spent = *self;
        self.grant(player, first);
        let ghost once = *self;
        proof {
            once.lemma_granted(spent, player as int, first);
        }
        self.grant(player, second);
        proof {
            self.lemma_granted(once, player as int, second);
            assert(spent.players[player as int].resource_cards == old(
                self,
            ).players[player as int].resource_cards);
            assert forall|q: int| 0 <= q < 4 implies (#[trigger] spent.players[q]).resource_cards
                == old(self).players[q].resource_cards by {}
            spent.lemma_circulation_kept(*old(self));
            assert forall|q: int| 0 <= q < 4 && q != player implies #[trigger] self.players[q]
                == old(self).players[q] by {
                assert(once.players[q] == spent.players[q]);
            }
            self.lemma_plenty_played_keeps_wf(*old(self), spent, once, player as int);
        }
    }

    /// A game stays well formed where a player gives up a year of plenty
    /// and no more than two cards of any kind come into the game.
    proof fn lemma_plenty_played_keeps_wf(self, pre: Game, spent: Game, once: Game, p: int)
        requires
            pre.wf(),
            0 <= p < 4,
            pre.players[p].development_cards.amount(DevelopmentCard::YearOfPlenty) > 0,
            pre.same_turn(self),
            self.board == pre.board,
            self.bank.development_cards == pre.bank.development_cards,
            self.bank.development_card_pointer == pre.bank.development_card_pointer,
            self.players[p] == (Player {
                development_cards: pre.players[p].development_cards.with_amount(
                    DevelopmentCard::YearOfPlenty,
                    (pre.players[p].development_cards.amount(DevelopmentCard::YearOfPlenty)
                        - 1) as usize,
                ),
                resource_cards: self.players[p].resource_cards,
                ..pre.players[p]
            }),
            forall|q: int| 0 <= q < 4 && q != p ==> #[trigger] self.players[q] == pre.players[q],
            forall|k: ResourceCard| spent.circulation(k) == pre.circulation(k),
            forall|k: ResourceCard| once.circulation(k) <= spent.circulation(k) + 1,
            forall|k: ResourceCard| self.circulation(k) <= once.circulation(k) + 1,
        ensures
            self.wf(),
    {
        pre.lemma_wf_parts();
        pre.lemma_seat(p);
        assert(self.player_ok(p)) by {
            reveal(seat_ok);
        }
        self.lemma_seats_kept(pre, p);
        assert forall|q: int| 0 <= q < 4 implies (#[trigger] self.players[q]).longest_road
            == pre.players[q].longest_road && self.players[q].largest_army
            == pre.players[q].largest_army by {
            if q != p {
                assert(self.players[q] == pre.players[q]);
            }
        }
        self.lemma_awards_kept(pre);
        assert(self.plenty_to_come() + 2 == pre.plenty_to_come()) by {
            let a = |q: int| pre.plenty_held(q) as int;
            let b = |q: int| self.plenty_held(q) as int;
            assert forall|q: int| 0 <= q < 4 && q != p implies #[trigger] b(q) == a(q) by {
                assert(self.players[q] == pre.players[q]);
            }
            assert(b(p) == a(p) - 1);
            lemma_four_one_changed(a, b, p, -1);
        }
        assert(self.supply_ok()) by {
            pre.lemma_supply(ResourceCard::Ore);
            pre.lemma_supply(ResourceCard::Wheat);
            pre.lemma_supply(ResourceCard::Sheep);
            pre.lemma_supply(ResourceCard::Brick);
            pre.lemma_supply(ResourceCard::Lumber);
            assert(self.circulation(ResourceCard::Ore) <= once.circulation(ResourceCard::Ore) + 1);
            assert(once.circulation(ResourceCard::Ore) <= spent.circulation(ResourceCard::Ore) + 1);
            assert(self.circulation(ResourceCard::Wheat) <= once.circulation(ResourceCard::Wheat)
                + 1);
            assert(once.circulation(ResourceCard::Wheat) <= spent.circulation(ResourceCard::Wheat)
                + 1);
            assert(self.circulation(ResourceCard::Sheep) <= once.circulation(ResourceCard::Sheep)
                + 1);
            assert(once.circulation(ResourceCard::Sheep) <= spent.circulation(ResourceCard::Sheep)
                + 1);
            assert(self.circulation(ResourceCard::Brick) <= once.circulation(ResourceCard::Brick)
                + 1);
            assert(once.circulation(ResourceCard::Brick) <= spent.circulation(ResourceCard::Brick)
                + 1);
            assert(self.circulation(ResourceCard::Lumber) <= once.circulation(ResourceCard::Lumber)
                + 1);
            assert(once.circulation(ResourceCard::Lumber) <= spent.circulation(
                ResourceCard::Lumber,
            ) + 1);
        }
        self.lemma_wf_from_parts();
    }
}

} // verus!
