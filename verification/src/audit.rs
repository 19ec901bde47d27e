use vstd::prelude::*;
use crate::board::{Board, EDGE_COUNT, NODE_COUNT, PORT_COUNT, TILE_COUNT};
use crate::building::Building;
use crate::development::DevelopmentCard;
use crate::game::{seat_ok, Game};
use crate::resource::ResourceCard;

verus! {

/// What is wrong with a board that is not well formed.
#[derive(Clone, Copy, PartialEq, Eq, Structural, Debug)]
pub enum BoardFault {
    /// The board has not its 54 nodes, 72 edges, 19 tiles and 9 ports.
    Shape,
    /// The node is out of place, names a neighbour off the map, or holds
    /// something other than a settlement or city of its own.
    Node(usize),
    /// The edge is out of place, names a neighbour off the map, or holds
    /// something other than a road of its own.
    Edge(usize),
    /// The tile is out of place or names a neighbour off the map.
    Tile(usize),
    /// The port serves a node off the map.
    Port(usize),
    /// The robber stands on no tile, or on several.
    Robber,
}

/// What is wrong with a game that is not well formed.
#[derive(Clone, Copy, PartialEq, Eq, Structural, Debug)]
pub enum InvariantViolation {
    /// The board is not well formed.
    Board(BoardFault),
    /// The stack of development cards is incomplete, or the pointer lies
    /// beyond it.
    Bank,
    /// It is the turn of a player who does not exist.
    Turn,
    /// The player is on the wrong seat, has an unsound score, holds or has
    /// played more development cards than were drawn, or has recorded a road
    /// off the map.
    Seat(usize),
    /// Two players hold the same award.
    Awards,
    /// The offer that stands was made by a player who does not exist.
    Offer,
    /// More cards of the kind are in the game than the game allows.
    Supply(ResourceCard),
}

#[allow(non_snake_case)]
impl Board {
    /// Whether every entry of `indices` lies below `bound`.
    fn all_below(indices: &Vec<usize>, bound: usize) -> (below: bool)
        ensures
            below == forall|i: int| 0 <= i < indices@.len() ==> #[trigger] indices@[i] < bound,
    {
        let mut i: usize = 0;
        while i < indices.len()
            invariant
                i <= indices@.len(),
                forall|k: int| 0 <= k < i ==> #[trigger] indices@[k] < bound,
            decreases indices@.len() - i,
        {
            if indices[i] >= bound {
                return false;
            }
            i += 1;
        }
        true
    }

    /// Whether node `n` is in order.
    pub fn nodeSound(&self, n: usize) -> (sound: bool)
        requires
            n < self.nodes@.len(),
        ensures
            sound == self.node_ok(n as int),
    {
        let node = &self.nodes[n];
        let built = match node.building {
            None => true,
            Some(Building::Settlement(position, _)) => position == n,
            Some(Building::City(position, _)) => position == n,
            Some(Building::Road(_, _)) => false,
        };
        node.position == n && built && Board::all_below(&node.adjacent_edges, 72)
            && Board::all_below(&node.adjacent_tiles, 19)
    }

    /// Whether edge `e` is in order.
    pub fn edgeSound(&self, e: usize) -> (sound: bool)
        requires
            e < self.edges@.len(),
        ensures
            sound == self.edge_ok(e as int),
    {
        let edge = &self.edges[e];
        let built = match edge.building {
            None => true,
            Some(Building::Road(position, _)) => position == e,
            _ => false,
        };
        edge.position == e && built && Board::all_below(&edge.adjacent_nodes, 54)
    }

    /// Whether tile `t` is in order.
    pub fn tileSound(&self, t: usize) -> (sound: bool)
        requires
            t < self.tiles@.len(),
        ensures
            sound == self.tile_ok(t as int),
    {
        let tile = &self.tiles[t];
        tile.index == t && Board::all_below(&tile.adjacent_nodes, 54)
    }

    /// Whether the robber stands on exactly one tile.
    pub fn robberAlone(&self) -> (alone: bool)
        ensures
            alone == exists|t: int| self.robber_only_on(t),
    {
        let mut at: usize = 0;
        while at < self.tiles.len() && !self.tiles[at].has_robber
            invariant
                at <= self.tiles@.len(),
                forall|u: int| 0 <= u < at ==> !(#[trigger] self.tiles@[u]).has_robber,
            decreases self.tiles@.len() - at,
        {
            at += 1;
        }
        if at >= self.tiles.len() {
            proof {
                assert forall|t: int| !self.robber_only_on(t) by {
                    if self.robber_only_on(t) {
                        assert(self.tiles@[t].has_robber <==> t == t);
                    }
                }
            }
            return false;
        }
        let mut other = at + 1;
        while other < self.tiles.len()
            invariant
                at < other <= self.tiles@.len(),
                self.tiles@[at as int].has_robber,
                forall|u: int| 0 <= u < at ==> !(#[trigger] self.tiles@[u]).has_robber,
                forall|u: int| at < u < other ==> !(#[trigger] self.tiles@[u]).has_robber,
            decreases self.tiles@.len() - other,
        {
            if self.tiles[other].has_robber {
                proof {
                    assert forall|t: int| !self.robber_only_on(t) by {
                        if self.robber_only_on(t) {
                            assert(self.tiles@[at as int].has_robber <==> at == t);
                            assert(self.tiles@[other as int].has_robber <==> other == t);
                        }
                    }
                }
                return false;
            }
            other += 1;
        }
        assert(self.robber_only_on(at as int));
        true
    }

    /// Says whether the board is well formed, and what is wrong where it is
    /// not.
    ///
    /// The first fault in this order is reported: the shape of the board; a
    /// node, the lowest first; an edge; a tile; a port; the robber.
    pub fn audit(&self) -> (verdict: Result<(), BoardFault>)
        ensures
            verdict is Ok <==> self.wf(),
            verdict == Err::<(), BoardFault>(BoardFault::Shape) <==> !self.shape_ok(),
            verdict matches Err(BoardFault::Node(n)) ==> self.shape_ok() && n < NODE_COUNT
                && !self.node_ok(n as int) && forall|m: int| 0 <= m < n ==> #[trigger] self.node_ok(m),
            verdict matches Err(BoardFault::Edge(e)) ==> self.shape_ok() && e < EDGE_COUNT
                && !self.edge_ok(e as int) && (forall|m: int|
                0 <= m < e ==> #[trigger] self.edge_ok(m)) && forall|n: int|
                0 <= n < NODE_COUNT ==> #[trigger] self.node_ok(n),
            verdict matches Err(BoardFault::Tile(t)) ==> self.shape_ok() && t < TILE_COUNT
                && !self.tile_ok(t as int) && (forall|m: int|
                0 <= m < t ==> #[trigger] self.tile_ok(m)) && (forall|n: int|
                0 <= n < NODE_COUNT ==> #[trigger] self.node_ok(n)) && forall|e: int|
                0 <= e < EDGE_COUNT ==> #[trigger] self.edge_ok(e),
            verdict matches Err(BoardFault::Port(p)) ==> self.shape_ok() && p < PORT_COUNT
                && !self.port_ok(p as int) && (forall|m: int|
                0 <= m < p ==> #[trigger] self.port_ok(m)) && (forall|n: int|
                0 <= n < NODE_COUNT ==> #[trigger] self.node_ok(n)) && (forall|e: int|
                0 <= e < EDGE_COUNT ==> #[trigger] self.edge_ok(e)) && forall|t: int|
                0 <= t < TILE_COUNT ==> #[trigger] self.tile_ok(t),
            verdict == Err::<(), BoardFault>(BoardFault::Robber) ==> self.shape_ok() && !(exists|
                t: int,
            |
                self.robber_only_on(t)) && (forall|n: int|
                0 <= n < NODE_COUNT ==> #[trigger] self.node_ok(n)) && (forall|e: int|
                0 <= e < EDGE_COUNT ==> #[trigger] self.edge_ok(e)) && (forall|t: int|
                0 <= t < TILE_COUNT ==> #[trigger] self.tile_ok(t)) && forall|p: int|
                0 <= p < PORT_COUNT ==> #[trigger] self.port_ok(p),
    {
        if self.ports.len() != 9 || self.tiles.len() != 19 || self.nodes.len() != 54
            || self.edges.len() != 72 || self.port_node_mapping.len() != 9 {
            return Err(BoardFault::Shape);
        }
        let mut n: usize = 0;
        while n < 54
            invariant
                self.shape_ok(),
                n <= 54,
                forall|m: int| 0 <= m < n ==> #[trigger] self.node_ok(m),
            decreases 54 - n,
        {
            if !self.nodeSound(n) {
                return Err(BoardFault::Node(n));
            }
            n += 1;
        }
        let mut e: usize = 0;
        while e < 72
            invariant
                self.shape_ok(),
                e <= 72,
                forall|m: int| 0 <= m < NODE_COUNT ==> #[trigger] self.node_ok(m),
                forall|m: int| 0 <= m < e ==> #[trigger] self.edge_ok(m),
            decreases 72 - e,
        {
            if !self.edgeSound(e) {
                return Err(BoardFault::Edge(e));
            }
            e += 1;
        }
        let mut t: usize = 0;
        while t < 19
            invariant
                self.shape_ok(),
                t <= 19,
                forall|m: int| 0 <= m < NODE_COUNT ==> #[trigger] self.node_ok(m),
                forall|m: int| 0 <= m < EDGE_COUNT ==> #[trigger] self.edge_ok(m),
                forall|m: int| 0 <= m < t ==> #[trigger] self.tile_ok(m),
            decreases 19 - t,
        {
            if !self.tileSound(t) {
                return Err(BoardFault::Tile(t));
            }
            t += 1;
        }
        let mut p: usize = 0;
        while p < 9
            invariant
                self.shape_ok(),
                p <= 9,
                forall|m: int| 0 <= m < NODE_COUNT ==> #[trigger] self.node_ok(m),
                forall|m: int| 0 <= m < EDGE_COUNT ==> #[trigger] self.edge_ok(m),
                forall|m: int| 0 <= m < TILE_COUNT ==> #[trigger] self.tile_ok(m),
                forall|m: int| 0 <= m < p ==> #[trigger] self.port_ok(m),
            decreases 9 - p,
        {
            let (first, second) = self.port_node_mapping[p];
            if first >= 54 || second >= 54 {
                assert(!self.port_ok(p as int));
                return Err(BoardFault::Port(p));
            }
            assert(self.port_ok(p as int));
            p += 1;
        }
        if !self.robberAlone() {
            return Err(BoardFault::Robber);
        }
        Ok(())
    }
}

#[allow(non_snake_case)]
impl Game {
    /// Whether player `p` is sound on seat `p`.
    pub fn seatSound(&self, p: usize) -> (sound: bool)
        requires
            p < 4,
        ensures
            sound == self.player_ok(p as int),
    {
        proof {
            reveal(seat_ok);
        }
        let player = &self.players[p];
        let drawn = self.bank.development_card_pointer;
        if player.id != p {
            return false;
        }
        let awards: usize = (if player.longest_road {
            2usize
        } else {
            0usize
        }) + (if player.largest_army {
            2usize
        } else {
            0usize
        });
        if player.victory_points < awards || player.victory_points > 17
            || player.num_unplaced_settlements > 17 || player.num_unplaced_cities > 8 {
            return false;
        }
        if player.victory_points + player.num_unplaced_settlements + 2 * player.num_unplaced_cities
            > 13 + awards {
            return false;
        }
        let usable = player.development_cards;
        let staged = player.development_cards_drawn_this_turn;
        if usable.knight > drawn || staged.knight > drawn - usable.knight
            || player.num_knights_played > drawn - usable.knight - staged.knight {
            proof {
                assert(usable.amount(DevelopmentCard::Knight) == usable.knight);
                assert(staged.amount(DevelopmentCard::Knight) == staged.knight);
            }
            return false;
        }
        if usable.road_building > drawn || staged.road_building > drawn - usable.road_building {
            proof {
                assert(usable.amount(DevelopmentCard::RoadBuilding) == usable.road_building);
                assert(staged.amount(DevelopmentCard::RoadBuilding) == staged.road_building);
            }
            return false;
        }
        if usable.year_of_plenty > drawn || staged.year_of_plenty > drawn - usable.year_of_plenty {
            proof {
                assert(usable.amount(DevelopmentCard::YearOfPlenty) == usable.year_of_plenty);
                assert(staged.amount(DevelopmentCard::YearOfPlenty) == staged.year_of_plenty);
            }
            return false;
        }
        if usable.monopoly > drawn || staged.monopoly > drawn - usable.monopoly {
            proof {
                assert(usable.amount(DevelopmentCard::Monopoly) == usable.monopoly);
                assert(staged.amount(DevelopmentCard::Monopoly) == staged.monopoly);
            }
            return false;
        }
        if usable.victory_point > drawn || staged.victory_point > drawn - usable.victory_point {
            proof {
                assert(usable.amount(DevelopmentCard::VictoryPoint) == usable.victory_point);
                assert(staged.amount(DevelopmentCard::VictoryPoint) == staged.victory_point);
            }
            return false;
        }
        let mut k: usize = 0;
        while k < player.road_placements.len()
            invariant
                p < 4,
                player == &self.players[p as int],
                k <= player.road_placements@.len(),
                forall|i: int| 0 <= i < k ==> #[trigger] player.road_placements@[i] < EDGE_COUNT,
            decreases player.road_placements@.len() - k,
        {
            if player.road_placements[k] >= 72 {
                proof {
                    reveal(seat_ok);
                }
                return false;
            }
            k += 1;
        }
        true
    }

    /// Whether no award is held by two players.
    pub fn awardsSingle(&self) -> (single: bool)
        ensures
            single == self.awards_single(),
    {
        let r0 = self.players[0].longest_road;
        let r1 = self.players[1].longest_road;
        let r2 = self.players[2].longest_road;
        let r3 = self.players[3].longest_road;
        let a0 = self.players[0].largest_army;
        let a1 = self.players[1].largest_army;
        let a2 = self.players[2].largest_army;
        let a3 = self.players[3].largest_army;
        let roads = !(r0 && r1) && !(r0 && r2) && !(r0 && r3) && !(r1 && r2) && !(r1 && r3) && !(r2
            && r3);
        let armies = !(a0 && a1) && !(a0 && a2) && !(a0 && a3) && !(a1 && a2) && !(a1 && a3) && !(a2
            && a3);
        proof {
            if !roads {
                assert(self.players[0].longest_road == r0 && self.players[1].longest_road == r1
                    && self.players[2].longest_road == r2 && self.players[3].longest_road == r3);
            }
            if !armies {
                assert(self.players[0].largest_army == a0 && self.players[1].largest_army == a1
                    && self.players[2].largest_army == a2 && self.players[3].largest_army == a3);
            }
        }
        roads && armies
    }

    /// Whether no more cards of `kind` are in the game than the game
    /// allows.
    pub fn supplySound(&self, kind: ResourceCard) -> (sound: bool)
        requires
            self.bank.wf(),
            self.seats_ok(),
        ensures
            sound == self.supply_bounded(kind),
    {
        proof {
            self.lemma_seat(0);
            self.lemma_seat(1);
            self.lemma_seat(2);
            self.lemma_seat(3);
        }
        let banked = self.bank.amountOfResource(kind);
        let h0 = self.players[0].resource_cards.get(kind);
        let h1 = self.players[1].resource_cards.get(kind);
        let h2 = self.players[2].resource_cards.get(kind);
        let h3 = self.players[3].resource_cards.get(kind);
        if banked > 69 || h0 > 69 || h1 > 69 || h2 > 69 || h3 > 69 {
            return false;
        }
        let drawn = self.bank.development_card_pointer;
        let plenty = self.plentyHeld(0) + self.plentyHeld(1) + self.plentyHeld(2)
            + self.plentyHeld(3);
        banked + h0 + h1 + h2 + h3 + 2 * plenty + 2 * (25 - drawn) <= 69
    }

    /// Year-of-plenty cards that `player` holds, playable or held back.
    pub fn plentyHeld(&self, player: usize) -> (held: usize)
        requires
            player < 4,
            self.bank.wf(),
            self.player_ok(player as int),
        ensures
            held == self.plenty_held(player as int),
            held <= 25,
    {
        proof {
            reveal(seat_ok);
        }
        self.players[player].development_cards.get(DevelopmentCard::YearOfPlenty)
            + self.players[player].development_cards_drawn_this_turn.get(
            DevelopmentCard::YearOfPlenty,
        )
    }

    /// Says whether the game is well formed, and what is wrong where it is
    /// not.
    ///
    /// The first fault in this order is reported: the board; the bank; the
    /// turn; a player, the lowest seat first; the awards; the offer; the
    /// supply of ore, wheat, sheep, brick and lumber.
    pub fn audit(&self) -> (verdict: Result<(), InvariantViolation>)
        ensures
            verdict is Ok <==> self.wf(),
            verdict matches Err(InvariantViolation::Board(fault)) ==> !self.board.wf(),
            verdict == Err::<(), InvariantViolation>(InvariantViolation::Bank) ==> self.board.wf()
                && !self.bank.wf(),
            verdict == Err::<(), InvariantViolation>(InvariantViolation::Turn) ==> self.board.wf()
                && self.bank.wf() && self.current_player_id >= 4,
            verdict matches Err(InvariantViolation::Seat(p)) ==> self.board.wf() && self.bank.wf()
                && self.current_player_id < 4 && p < 4 && !self.player_ok(p as int) && forall|q: int|
                0 <= q < p ==> self.player_ok(q),
            verdict == Err::<(), InvariantViolation>(InvariantViolation::Awards) ==> self.board.wf()
                && self.bank.wf() && self.current_player_id < 4 && self.seats_ok()
                && !self.awards_single(),
            verdict == Err::<(), InvariantViolation>(InvariantViolation::Offer) ==> self.board.wf()
                && self.bank.wf() && self.current_player_id < 4 && self.seats_ok()
                && self.awards_single() && self.current_trade_offer is Some
                && self.current_trade_offer->0.player_offerer_id >= 4,
            verdict matches Err(InvariantViolation::Supply(kind)) ==> self.board.wf()
                && self.bank.wf() && self.current_player_id < 4 && self.seats_ok()
                && self.awards_single() && !self.supply_bounded(kind) && forall|other: ResourceCard|
                other.index() < kind.index() ==> self.supply_bounded(other),
    {
        proof {
            reveal(Game::wf);
        }
        match self.board.audit() {
            Err(fault) => {
                return Err(InvariantViolation::Board(fault));
            },
            Ok(()) => {},
        }
        if self.bank.development_cards.len() != 25 || self.bank.development_card_pointer > 25 {
            return Err(InvariantViolation::Bank);
        }
        if self.current_player_id >= 4 {
            return Err(InvariantViolation::Turn);
        }
        if !self.seatSound(0) {
            return Err(InvariantViolation::Seat(0));
        }
        if !self.seatSound(1) {
            return Err(InvariantViolation::Seat(1));
        }
        if !self.seatSound(2) {
            return Err(InvariantViolation::Seat(2));
        }
        if !self.seatSound(3) {
            return Err(InvariantViolation::Seat(3));
        }
        if !self.awardsSingle() {
            return Err(InvariantViolation::Awards);
        }
        match self.current_trade_offer {
            Some(offer) => {
                if offer.player_offerer_id >= 4 {
                    return Err(InvariantViolation::Offer);
                }
            },
            None => {},
        }
        if !self.supplySound(ResourceCard::Ore) {
            return Err(InvariantViolation::Supply(ResourceCard::Ore));
        }
        if !self.supplySound(ResourceCard::Wheat) {
            return Err(InvariantViolation::Supply(ResourceCard::Wheat));
        }
        if !self.supplySound(ResourceCard::Sheep) {
            return Err(InvariantViolation::Supply(ResourceCard::Sheep));
        }
        if !self.supplySound(ResourceCard::Brick) {
            return Err(InvariantViolation::Supply(ResourceCard::Brick));
        }
        if !self.supplySound(ResourceCard::Lumber) {
            return Err(InvariantViolation::Supply(ResourceCard::Lumber));
        }
        Ok(())
    }
}

} // verus!
