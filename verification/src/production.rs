use vstd::prelude::*;
use crate::board::{Board, TILE_COUNT};
use crate::building::Building;
use crate::game::Game;
use crate::resource::ResourceCard;

verus! {

/// `amount`, or the largest number that a count can hold where `amount`
/// is larger.
pub open spec fn capped(amount: nat) -> usize {
    if amount > usize::MAX {
        usize::MAX
    } else {
        amount as usize
    }
}

#[allow(non_snake_case)]
impl Board {
    /// Cards that a producing tile gives `player` for what stands on node
    /// `n`: one for a settlement, two for a city.
    pub open spec fn corner_yield(self, n: int, player: usize) -> nat {
        match self.nodes@[n].building {
            Some(building) => if building.owner() == player {
                building.harvest()
            } else {
                0
            },
            None => 0,
        }
    }

    /// Cards that tile `t` gives `player` for its first `count` corners.
    pub open spec fn tile_yield(self, t: int, player: usize, count: int) -> nat
        decreases count,
    {
        if count <= 0 {
            0
        } else {
            self.tile_yield(t, player, count - 1) + self.corner_yield(
                self.tiles@[t].adjacent_nodes@[count - 1] as int,
                player,
            )
        }
    }

    /// Tile `t` produces `kind` on a throw of `roll`: its chit shows `roll`,
    /// the robber is elsewhere, and its terrain yields `kind`.
    pub open spec fn tile_produces(self, t: int, roll: usize, kind: ResourceCard) -> bool {
        &&& self.tiles@[t].chit == roll
        &&& !self.tiles@[t].has_robber
        &&& self.tiles@[t].terrain.yields() == Some(kind)
    }

    /// Cards of `kind` that the first `count` tiles owe `player` on a throw
    /// of `roll`.
    pub open spec fn demand_among(self, roll: usize, player: usize, kind: ResourceCard, count: int) -> nat
        decreases count,
    {
        if count <= 0 {
            0
        } else {
            self.demand_among(roll, player, kind, count - 1) + if self.tile_produces(
                count - 1,
                roll,
                kind,
            ) {
                self.tile_yield(
                    count - 1,
                    player,
                    self.tiles@[count - 1].adjacent_nodes@.len() as int,
                )
            } else {
                0
            }
        }
    }

    /// Cards of `kind` that the board owes `player` on a throw of `roll`.
    pub open spec fn demand(self, roll: usize, player: usize, kind: ResourceCard) -> nat {
        self.demand_among(roll, player, kind, TILE_COUNT as int)
    }

    /// What tile `tile` gives `player` for all its corners (capped).
    pub fn tileYield(&self, tile: usize, player: usize) -> (cards: usize)
        requires
            self.wf(),
            tile < TILE_COUNT,
        ensures
            cards == capped(
                self.tile_yield(
                    tile as int,
                    player,
                    self.tiles@[tile as int].adjacent_nodes@.len() as int,
                ),
            ),
    {
        assert(self.tile_ok(tile as int));
        let mut cards: usize = 0;
        let mut c: usize = 0;
        while c < self.tiles[tile].adjacent_nodes.len()
            invariant
                self.wf(),
                tile < TILE_COUNT,
                c <= self.tiles@[tile as int].adjacent_nodes@.len(),
                cards == capped(self.tile_yield(tile as int, player, c as int)),
            decreases self.tiles@[tile as int].adjacent_nodes@.len() - c,
        {
            assert(self.tile_ok(tile as int));
            let node = self.tiles[tile].adjacent_nodes[c];
            let gain: usize = match self.nodes[node].building {
                Some(Building::Settlement(_, owner)) => if owner == player {
                    1
                } else {
                    0
                },
                Some(Building::City(_, owner)) => if owner == player {
                    2
                } else {
                    0
                },
                _ => 0,
            };
            assert(gain == self.corner_yield(node as int, player));
            cards = cards.saturating_add(gain);
            c += 1;
        }
        cards
    }

    /// What the board owes `player` of `kind` on a throw of `roll` (capped).
    pub fn demandOf(&self, roll: usize, player: usize, kind: ResourceCard) -> (cards: usize)
        requires
            self.wf(),
        ensures
            cards == capped(self.demand(roll, player, kind)),
    {
        let mut cards: usize = 0;
        let mut t: usize = 0;
        while t < 19
            invariant
                self.wf(),
                t <= 19,
                cards == capped(self.demand_among(roll, player, kind, t as int)),
            decreases 19 - t,
        {
            let tile = &self.tiles[t];
            let shows = tile.chit >= 0 && tile.chit as usize == roll;
            if shows && !tile.has_robber && tile.terrain.resource() == Some(kind) {
                let gain = self.tileYield(t, player);
                cards = cards.saturating_add(gain);
            }
            t += 1;
        }
        cards
    }
}

#[allow(non_snake_case)]
impl Game {
    /// Cards of `kind` that the board owes all players together on a throw
    /// of `roll`.
    pub open spec fn total_demand(self, roll: usize, kind: ResourceCard) -> nat {
        self.board.demand(roll, 0, kind) + self.board.demand(roll, 1, kind) + self.board.demand(
            roll,
            2,
            kind,
        ) + self.board.demand(roll, 3, kind)
    }

    /// Number of players that the board owes cards of `kind` on a throw of
    /// `roll`.
    pub open spec fn demanders(self, roll: usize, kind: ResourceCard) -> nat {
        ((if self.board.demand(roll, 0, kind) > 0 { 1int } else { 0 }) + (if self.board.demand(
            roll,
            1,
            kind,
        ) > 0 { 1int } else { 0 }) + (if self.board.demand(roll, 2, kind) > 0 { 1int } else { 0 })
            + (if self.board.demand(roll, 3, kind) > 0 { 1int } else { 0 })) as nat
    }

    /// Cards of `kind` that `player` receives on a throw of `roll`.
    ///
    /// Where the bank covers what all players are owed, everyone receives
    /// what they are owed. Where it does not and several players are owed
    /// cards, nobody receives any. Where it does not and one player alone is
    /// owed cards, that player receives what the bank has.
    pub open spec fn award(self, roll: usize, player: usize, kind: ResourceCard) -> nat {
        let owed = self.board.demand(roll, player, kind);
        let stock = self.bank.resource_cards.amount(kind);
        if self.total_demand(roll, kind) <= stock {
            owed
        } else if self.demanders(roll, kind) > 1 {
            0
        } else if owed > 0 {
            stock
        } else {
            0
        }
    }

    /// `post` is `self` after the bank has handed out the cards of `kind`
    /// for a throw of `roll`.
    pub open spec fn kind_produced(self, post: Game, roll: usize, kind: ResourceCard) -> bool {
        &&& forall|p: int|
            0 <= p < 4 ==> (#[trigger] post.players[p]).resource_cards.amount(kind)
                == self.players[p].resource_cards.amount(kind) + self.award(roll, p as usize, kind)
        &&& post.bank.resource_cards.amount(kind) == self.bank.resource_cards.amount(kind)
            - self.award(roll, 0, kind) - self.award(roll, 1, kind) - self.award(roll, 2, kind)
            - self.award(roll, 3, kind)
    }

    /// `post` holds as many cards of `kind` as `self`, in each hand and in
    /// the bank.
    pub open spec fn kind_kept(self, post: Game, kind: ResourceCard) -> bool {
        &&& forall|p: int|
            0 <= p < 4 ==> (#[trigger] post.players[p]).resource_cards.amount(kind)
                == self.players[p].resource_cards.amount(kind)
        &&& post.bank.resource_cards.amount(kind) == self.bank.resource_cards.amount(kind)
    }

    /// What each of the four players receives of `kind` on a throw of
    /// `dice_roll`.
    pub fn awardsFor(&self, dice_roll: usize, kind: ResourceCard) -> (awards: [usize; 4])
        requires
            self.wf(),
        ensures
            forall|p: int| 0 <= p < 4 ==> #[trigger] awards[p] == self.award(dice_roll, p as usize, kind),
            awards[0] + awards[1] + awards[2] + awards[3] <= self.bank.resource_cards.amount(kind),
    {
        assert(self.board.wf()) by {
            self.lemma_wf_parts();
        }
        let owed0 = self.board.demandOf(dice_roll, 0, kind);
        let owed1 = self.board.demandOf(dice_roll, 1, kind);
        let owed2 = self.board.demandOf(dice_roll, 2, kind);
        let owed3 = self.board.demandOf(dice_roll, 3, kind);
        let total = owed0.saturating_add(owed1).saturating_add(owed2).saturating_add(owed3);
        let stock = self.bank.amountOfResource(kind);
        assert(stock < usize::MAX) by {
            self.lemma_wf_parts();
            self.lemma_supply(kind);
        }
        if total <= stock {
            return [owed0, owed1, owed2, owed3];
        }
        let mut demanders: usize = 0;
        if owed0 > 0 {
            demanders += 1;
        }
        if owed1 > 0 {
            demanders += 1;
        }
        if owed2 > 0 {
            demanders += 1;
        }
        if owed3 > 0 {
            demanders += 1;
        }
        assert(demanders == self.demanders(dice_roll, kind));
        if demanders > 1 {
            return [0, 0, 0, 0];
        }
        if owed0 > 0 {
            [stock, 0, 0, 0]
        } else if owed1 > 0 {
            [0, stock, 0, 0]
        } else if owed2 > 0 {
            [0, 0, stock, 0]
        } else {
            [0, 0, 0, stock]
        }
    }

    /// Moves `awards[p]` cards of `kind` from the bank to each player `p`.
    fn distribute(&mut self, kind: ResourceCard, awards: [usize; 4])
        requires
            old(self).wf(),
            awards[0] + awards[1] + awards[2] + awards[3] <= old(self).bank.resource_cards.amount(
                kind,
            ),
        ensures
            final(self).wf(),
            old(self).only_cards_moved(*final(self)),
            forall|p: int|
                0 <= p < 4 ==> (#[trigger] final(self).players[p]).resource_cards.amount(kind)
                    == old(self).players[p].resource_cards.amount(kind) + awards[p],
            final(self).bank.resource_cards.amount(kind) == old(self).bank.resource_cards.amount(
                kind,
            ) - awards[0] - awards[1] - awards[2] - awards[3],
            forall|other: ResourceCard|
                other != kind ==> #[trigger] old(self).kind_kept(*final(self), other),
            old(self).same_supply(*final(self)),
    {
        self.give(0, kind, awards[0]);
        let ghost first = *self;
        self.give(1, kind, awards[1]);
        let ghost second = *self;
        proof {
            old(self).lemma_cards_moved_twice(first, second);
        }
        self.give(2, kind, awards[2]);
        let ghost third = *self;
        proof {
            old(self).lemma_cards_moved_twice(second, third);
        }
        self.give(3, kind, awards[3]);
        proof {
            old(self).lemma_cards_moved_twice(third, *self);
            assert forall|other: ResourceCard| other != kind implies #[trigger] old(self).kind_kept(
                *self,
                other,
            ) by {
                assert(first.bank.resource_cards.amount(other) == old(
                    self,
                ).bank.resource_cards.amount(other));
                assert(second.bank.resource_cards.amount(other) == first.bank.resource_cards.amount(
                    other,
                ));
                assert(third.bank.resource_cards.amount(other) == second.bank.resource_cards.amount(
                    other,
                ));
                assert(self.bank.resource_cards.amount(other) == third.bank.resource_cards.amount(
                    other,
                ));
            }
        }
    }

    /// Hands out the cards of one kind for a throw of `dice_roll`.
    fn produce_kind(&mut self, dice_roll: usize, kind: ResourceCard)
        requires
            old(self).wf(),
        ensures
            final(self).wf(),
            old(self).only_cards_moved(*final(self)),
            old(self).kind_produced(*final(self), dice_roll, kind),
            old(self).same_supply(*final(self)),
            forall|other: ResourceCard|
                other != kind ==> #[trigger] old(self).kind_kept(*final(self), other),
    {
        let awards = self.awardsFor(dice_roll, kind);
        self.distribute(kind, awards);
        proof {
            assert(awards[0] == old(self).award(dice_roll, 0, kind));
            assert(awards[1] == old(self).award(dice_roll, 1, kind));
            assert(awards[2] == old(self).award(dice_roll, 2, kind));
            assert(awards[3] == old(self).award(dice_roll, 3, kind));
        }
    }

    /// Carrying on from `self` to `mid`, where the cards of `kind` were
    /// handed out, and from `mid` to `post`, where they were kept, the cards
    /// of `kind` were handed out.
    pub proof fn lemma_produced_then_kept(
        self,
        mid: Game,
        post: Game,
        roll: usize,
        kind: ResourceCard,
    )
        requires
            self.kind_produced(mid, roll, kind),
            mid.kind_kept(post, kind),
        ensures
            self.kind_produced(post, roll, kind),
    {
        assert forall|p: int| 0 <= p < 4 implies (#[trigger] post.players[p]).resource_cards.amount(
            kind,
        ) == self.players[p].resource_cards.amount(kind) + self.award(roll, p as usize, kind) by {
            assert(mid.players[p].resource_cards.amount(kind) == self.players[p].resource_cards.amount(
                kind,
            ) + self.award(roll, p as usize, kind));
        }
    }

    /// What a throw of `roll` hands out of `kind` is the same after cards
    /// of another kind have moved.
    pub proof fn lemma_kept_then_produced(
        self,
        mid: Game,
        post: Game,
        roll: usize,
        kind: ResourceCard,
    )
        requires
            self.only_cards_moved(mid),
            self.kind_kept(mid, kind),
            mid.kind_produced(post, roll, kind),
        ensures
            self.kind_produced(post, roll, kind),
    {
        assert forall|p: int| 0 <= p < 4 implies (#[trigger] post.players[p]).resource_cards.amount(
            kind,
        ) == self.players[p].resource_cards.amount(kind) + self.award(roll, p as usize, kind) by {
            assert(mid.players[p].resource_cards.amount(kind) == self.players[p].resource_cards.amount(
                kind,
            ));
            assert(mid.award(roll, p as usize, kind) == self.award(roll, p as usize, kind));
        }
        assert(mid.award(roll, 0, kind) == self.award(roll, 0, kind));
        assert(mid.award(roll, 1, kind) == self.award(roll, 1, kind));
        assert(mid.award(roll, 2, kind) == self.award(roll, 2, kind));
        assert(mid.award(roll, 3, kind) == self.award(roll, 3, kind));
    }

    /// Where every kind was kept, from `self` to `mid` and from `mid` to
    /// `post`, it was kept from `self` to `post`.
    pub proof fn lemma_kept_twice(self, mid: Game, post: Game, kind: ResourceCard)
        requires
            self.kind_kept(mid, kind),
            mid.kind_kept(post, kind),
        ensures
            self.kind_kept(post, kind),
    {
        assert forall|p: int| 0 <= p < 4 implies (#[trigger] post.players[p]).resource_cards.amount(
            kind,
        ) == self.players[p].resource_cards.amount(kind) by {
            assert(mid.players[p].resource_cards.amount(kind) == self.players[p].resource_cards.amount(
                kind,
            ));
        }
    }

    /// Hands out the cards that a throw of `dice_roll` produces: for every
    /// kind and player the `award`.
    pub fn produceDiceRoll(&mut self, dice_roll: usize)
        requires
            old(self).wf(),
        ensures
            final(self).wf(),
            old(self).only_cards_moved(*final(self)),
            old(self).same_supply(*final(self)),
            forall|kind: ResourceCard| old(self).kind_produced(*final(self), dice_roll, kind),
    {
        let ghost s0 = *self;
        self.produce_kind(dice_roll, ResourceCard::Ore);
        let ghost s1 = *self;
        self.produce_kind(dice_roll, ResourceCard::Wheat);
        let ghost s2 = *self;
        self.produce_kind(dice_roll, ResourceCard::Sheep);
        let ghost s3 = *self;
        self.produce_kind(dice_roll, ResourceCard::Brick);
        let ghost s4 = *self;
        self.produce_kind(dice_roll, ResourceCard::Lumber);
        let ghost s5 = *self;
        proof {
            s0.lemma_cards_moved_twice(s1, s2);
            s0.lemma_cards_moved_twice(s2, s3);
            s0.lemma_cards_moved_twice(s3, s4);
            s0.lemma_cards_moved_twice(s4, s5);
            assert forall|kind: ResourceCard| s0.kind_produced(s5, dice_roll, kind) by {
                match kind {
                    ResourceCard::Ore => {
                        assert(s1.kind_kept(s2, kind));
                        assert(s2.kind_kept(s3, kind));
                        assert(s3.kind_kept(s4, kind));
                        assert(s4.kind_kept(s5, kind));
                        s0.lemma_produced_then_kept(s1, s2, dice_roll, kind);
                        s0.lemma_produced_then_kept(s2, s3, dice_roll, kind);
                        s0.lemma_produced_then_kept(s3, s4, dice_roll, kind);
                        s0.lemma_produced_then_kept(s4, s5, dice_roll, kind);
                    },
                    ResourceCard::Wheat => {
                        assert(s0.kind_kept(s1, kind));
                        assert(s2.kind_kept(s3, kind));
                        assert(s3.kind_kept(s4, kind));
                        assert(s4.kind_kept(s5, kind));
                        s0.lemma_kept_then_produced(s1, s2, dice_roll, kind);
                        s0.lemma_produced_then_kept(s2, s3, dice_roll, kind);
                        s0.lemma_produced_then_kept(s3, s4, dice_roll, kind);
                        s0.lemma_produced_then_kept(s4, s5, dice_roll, kind);
                    },
                    ResourceCard::Sheep => {
                        assert(s0.kind_kept(s1, kind));
                        assert(s1.kind_kept(s2, kind));
                        assert(s3.kind_kept(s4, kind));
                        assert(s4.kind_kept(s5, kind));
                        s0.lemma_kept_twice(s1, s2, kind);
                        s0.lemma_kept_then_produced(s2, s3, dice_roll, kind);
                        s0.lemma_produced_then_kept(s3, s4, dice_roll, kind);
                        s0.lemma_produced_then_kept(s4, s5, dice_roll, kind);
                    },
                    ResourceCard::Brick => {
                        assert(s0.kind_kept(s1, kind));
                        assert(s1.kind_kept(s2, kind));
                        assert(s2.kind_kept(s3, kind));
                        assert(s4.kind_kept(s5, kind));
                        s0.lemma_kept_twice(s1, s2, kind);
                        s0.lemma_kept_twice(s2, s3, kind);
                        s0.lemma_kept_then_produced(s3, s4, dice_roll, kind);
                        s0.lemma_produced_then_kept(s4, s5, dice_roll, kind);
                    },
                    ResourceCard::Lumber => {
                        assert(s0.kind_kept(s1, kind));
                        assert(s1.kind_kept(s2, kind));
                        assert(s2.kind_kept(s3, kind));
                        assert(s3.kind_kept(s4, kind));
                        s0.lemma_kept_twice(s1, s2, kind);
                        s0.lemma_kept_twice(s2, s3, kind);
                        s0.lemma_kept_twice(s3, s4, kind);
                        s0.lemma_kept_then_produced(s4, s5, dice_roll, kind);
                    },
                }
            }
        }
    }
}

} // verus!
