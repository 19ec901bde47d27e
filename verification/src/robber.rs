use vstd::prelude::*;
use crate::board::{Board, EDGE_COUNT, NODE_COUNT, PORT_COUNT, TILE_COUNT};
use crate::building::Building;
use crate::game::Game;
use crate::resource::{ResourceCard, ResourceCounts};
use crate::tile::Tile;

verus! {

#[allow(non_snake_case)]
impl Board {
    /// A settlement or city of `player` stands on a corner of tile `t`.
    pub open spec fn has_building_of(self, t: int, player: usize) -> bool {
        exists|i: int|
            0 <= i < self.tiles@[t].adjacent_nodes@.len() && self.built_by(
                #[trigger] self.tiles@[t].adjacent_nodes@[i] as int,
                player,
            )
    }

    /// A settlement or city of `player` stands on node `n`.
    pub open spec fn built_by(self, n: int, player: usize) -> bool {
        self.nodes@[n].building matches Some(building) && building.on_node() && building.owner()
            == player
    }

    /// `post` is `self` with the robber on tile `tile` and on no other.
    pub open spec fn robber_moved(self, post: Board, tile: int) -> bool {
        &&& post.ports == self.ports
        &&& post.nodes == self.nodes
        &&& post.edges == self.edges
        &&& post.port_node_mapping == self.port_node_mapping
        &&& post.tiles@.len() == self.tiles@.len()
        &&& forall|t: int|
            0 <= t < self.tiles@.len() ==> #[trigger] post.tiles@[t] == (Tile {
                has_robber: t == tile,
                ..self.tiles@[t]
            })
    }

    /// Whether a settlement or city of `player` stands on a corner of `tile`.
    pub fn hasBuildingOf(&self, tile: usize, player: usize) -> (found: bool)
        requires
            self.wf(),
            tile < TILE_COUNT,
        ensures
            found == self.has_building_of(tile as int, player),
    {
        assert(self.tile_ok(tile as int));
        let mut i: usize = 0;
        while i < self.tiles[tile].adjacent_nodes.len()
            invariant
                self.wf(),
                tile < TILE_COUNT,
                i <= self.tiles@[tile as int].adjacent_nodes@.len(),
                forall|a: int|
                    0 <= a < i ==> !self.built_by(
                        #[trigger] self.tiles@[tile as int].adjacent_nodes@[a] as int,
                        player,
                    ),
            decreases self.tiles@[tile as int].adjacent_nodes@.len() - i,
        {
            assert(self.tile_ok(tile as int));
            let node = self.tiles[tile].adjacent_nodes[i];
            let owned = match self.nodes[node].building {
                Some(Building::Settlement(_, owner)) => owner == player,
                Some(Building::City(_, owner)) => owner == player,
                _ => false,
            };
            if owned {
                return true;
            }
            i += 1;
        }
        false
    }

    /// Puts the robber on `tile` and takes it off every other tile.
    pub fn moveRobber(&mut self, tile: usize)
        requires
            old(self).wf(),
            tile < TILE_COUNT,
        ensures
            final(self).wf(),
            final(self).robber_only_on(tile as int),
            old(self).robber_moved(*final(self), tile as int),
    {
        let mut t: usize = 0;
        while t < 19
            invariant
                t <= 19,
                tile < TILE_COUNT,
                self.ports == old(self).ports,
                self.nodes == old(self).nodes,
                self.edges == old(self).edges,
                self.port_node_mapping == old(self).port_node_mapping,
                self.tiles@.len() == TILE_COUNT,
                old(self).tiles@.len() == TILE_COUNT,
                forall|u: int|
                    0 <= u < t ==> #[trigger] self.tiles@[u] == (Tile {
                        has_robber: u == tile,
                        ..old(self).tiles@[u]
                    }),
                forall|u: int| t <= u < TILE_COUNT ==> #[trigger] self.tiles@[u] == old(self).tiles@[u],
            decreases 19 - t,
        {
            self.tiles[t].has_robber = t == tile;
            t += 1;
        }
        proof {
            assert forall|e: int| 0 <= e < EDGE_COUNT implies #[trigger] self.edge_ok(e) by {
                assert(old(self).edge_ok(e));
            }
            assert forall|n: int| 0 <= n < NODE_COUNT implies #[trigger] self.node_ok(n) by {
                assert(old(self).node_ok(n));
            }
            assert forall|u: int| 0 <= u < TILE_COUNT implies #[trigger] self.tile_ok(u) by {
                assert(old(self).tile_ok(u));
                assert(self.tiles@[u] == (Tile { has_robber: u == tile, ..old(self).tiles@[u] }));
            }
            assert forall|p: int| 0 <= p < PORT_COUNT implies #[trigger] self.port_ok(p) by {
                assert(old(self).port_ok(p));
            }
            assert forall|u: int| 0 <= u < self.tiles@.len() implies (
            #[trigger] self.tiles@[u].has_robber <==> u == tile) by {
                assert(self.tiles@[u] == (Tile { has_robber: u == tile, ..old(self).tiles@[u] }));
            }
            assert(self.robber_only_on(tile as int));
        }
    }
}

#[allow(non_snake_case)]
impl Game {
    /// `post` is `self` after `thief` took a card from `victim`: nothing
    /// has changed where the victim had no card; otherwise one card of a
    /// kind that the victim held has passed to the thief.
    pub open spec fn robbed(self, post: Game, victim: int, thief: int) -> bool {
        if self.players[victim].resource_cards.total() == 0 {
            post == self
        } else {
            exists|kind: ResourceCard|
                self.players[victim].resource_cards.amount(kind) > 0 && #[trigger] self.cards_handed(
                    post,
                    victim,
                    thief,
                    ResourceCounts::only(kind, 1),
                )
        }
    }

    /// Lets `thief` take one card from the hand of `victim`, every card of
    /// that hand being as likely as any other.
    pub fn rob(&mut self, victim: usize, thief: usize)
        requires
            old(self).wf(),
            victim < 4,
            thief < 4,
        ensures
            final(self).wf(),
            old(self).robbed(*final(self), victim as int, thief as int),
            old(self).only_cards_moved(*final(self)),
            old(self).same_supply(*final(self)),
    {
        match self.players[victim].pickCard() {
            None => {},
            Some(kind) => {
                let card = ResourceCounts::single(kind, 1);
                self.hand_over(victim, thief, card);
            },
        }
    }
}

} // verus!
