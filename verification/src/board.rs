use vstd::prelude::*;
use crate::building::Building;
use crate::chance::shuffle;
use crate::edge::Edge;
use crate::node::Node;
use crate::port::Port;
use crate::terrain::Terrain;
use crate::tile::Tile;

verus! {

pub const NODE_COUNT: usize = 54;

pub const EDGE_COUNT: usize = 72;

pub const TILE_COUNT: usize = 19;

pub const PORT_COUNT: usize = 9;

/// The port at `position` before the ports are shuffled: four that take
/// three of anything, then one for each resource.
pub open spec fn unshuffled_port(position: int) -> Port {
    if position < 4 {
        Port::ThreeToOne
    } else if position < 5 {
        Port::Lumber
    } else if position < 6 {
        Port::Ore
    } else if position < 7 {
        Port::Wheat
    } else if position < 8 {
        Port::Sheep
    } else if position < 9 {
        Port::Brick
    } else {
        Port::ThreeToOne
    }
}

/// The ports before they are shuffled.
pub open spec fn unshuffled_ports() -> Seq<Port> {
    Seq::new(PORT_COUNT as nat, |position: int| unshuffled_port(position))
}

/// The terrain at `position` before the tiles are shuffled: four forests,
/// four plains, four fields, three mountains, three hills and the desert.
pub open spec fn unshuffled_terrain(position: int) -> Terrain {
    if position < 4 {
        Terrain::Forest
    } else if position < 8 {
        Terrain::Plains
    } else if position < 12 {
        Terrain::Fields
    } else if position < 15 {
        Terrain::Mountains
    } else if position < 18 {
        Terrain::Hills
    } else {
        Terrain::Desert
    }
}

/// The terrains before they are shuffled.
pub open spec fn unshuffled_terrains() -> Seq<Terrain> {
    Seq::new(TILE_COUNT as nat, |position: int| unshuffled_terrain(position))
}

/// The two nodes that each port serves.
pub open spec fn port_nodes() -> Seq<(usize, usize)> {
    seq![
        (0usize, 3usize),
        (1usize, 5usize),
        (10usize, 15usize),
        (11usize, 16usize),
        (26usize, 32usize),
        (33usize, 38usize),
        (42usize, 46usize),
        (47usize, 51usize),
        (49usize, 52usize),
    ]
}

/// Every pair joins an index below `lefts` to an index below `rights`.
pub open spec fn pairs_within(pairs: Seq<(usize, usize)>, lefts: nat, rights: nat) -> bool {
    forall|k: int| 0 <= k < pairs.len() ==> (#[trigger] pairs[k]).0 < lefts && pairs[k].1 < rights
}

/// The second parts of the pairs whose first part is `left`, in order.
pub open spec fn rights_of(pairs: Seq<(usize, usize)>, left: usize) -> Seq<usize>
    decreases pairs.len(),
{
    if pairs.len() == 0 {
        Seq::empty()
    } else if pairs.last().0 == left {
        rights_of(pairs.drop_last(), left).push(pairs.last().1)
    } else {
        rights_of(pairs.drop_last(), left)
    }
}

/// The first parts of the pairs whose second part is `right`, in order.
pub open spec fn lefts_of(pairs: Seq<(usize, usize)>, right: usize) -> Seq<usize>
    decreases pairs.len(),
{
    if pairs.len() == 0 {
        Seq::empty()
    } else if pairs.last().1 == right {
        lefts_of(pairs.drop_last(), right).push(pairs.last().0)
    } else {
        lefts_of(pairs.drop_last(), right)
    }
}

/// Whether every pair joins an index below `lefts` to one below `rights`.
pub fn pairsWithin(pairs: &Vec<(usize, usize)>, lefts: usize, rights: usize) -> (within: bool)
    ensures
        within == pairs_within(pairs@, lefts as nat, rights as nat),
{
    let mut k: usize = 0;
    while k < pairs.len()
        invariant
            k <= pairs@.len(),
            forall|a: int| 0 <= a < k ==> (#[trigger] pairs@[a]).0 < lefts && pairs@[a].1 < rights,
        decreases pairs@.len() - k,
    {
        if pairs[k].0 >= lefts || pairs[k].1 >= rights {
            return false;
        }
        k += 1;
    }
    true
}

/// Where a value occurs once in a sequence, it stands at one position and
/// at no other.
pub proof fn lemma_single_occurrence<A>(s: Seq<A>, v: A)
    requires
        s.to_multiset().count(v) == 1,
    ensures
        exists|i: int| 0 <= i < s.len() && s[i] == v && forall|j: int| 0 <= j < s.len() && j != i ==> s[j] != v,
{
    broadcast use vstd::seq_lib::group_to_multiset_ensures;

    assert(s.contains(v));
    let i = choose|i: int| 0 <= i < s.len() && s[i] == v;
    let rest = s.remove(i);
    assert(rest.to_multiset() =~= s.to_multiset().remove(v));
    assert(rest.to_multiset().count(v) == 0);
    assert(!rest.contains(v));
    assert forall|j: int| 0 <= j < s.len() && j != i implies s[j] != v by {
        if j < i {
            assert(rest[j] == s[j]);
        } else {
            assert(rest[j - 1] == s[j]);
        }
    }
}

/// Among the unshuffled terrains the desert occurs once.
pub proof fn lemma_one_desert()
    ensures
        unshuffled_terrains().to_multiset().count(Terrain::Desert) == 1,
{
    broadcast use vstd::seq_lib::group_to_multiset_ensures;

    let all = unshuffled_terrains();
    let fertile = all.drop_last();
    assert(all =~= fertile.push(Terrain::Desert));
    assert(!fertile.contains(Terrain::Desert));
    assert(fertile.to_multiset().count(Terrain::Desert) == 0);
    assert(fertile.push(Terrain::Desert).to_multiset() =~= fertile.to_multiset().insert(
        Terrain::Desert,
    ));
}

/// Nodes `0` to `53`, with nothing on them and no neighbours yet.
fn fresh_nodes() -> (nodes: Vec<Node>)
    ensures
        nodes@.len() == NODE_COUNT,
        forall|n: int|
            0 <= n < NODE_COUNT ==> (#[trigger] nodes@[n]).position == n && nodes@[n].building is None
                && nodes@[n].adjacent_edges@.len() == 0 && nodes@[n].adjacent_tiles@.len() == 0,
{
    let mut nodes: Vec<Node> = Vec::new();
    let mut index: usize = 0;
    while index < 54
        invariant
            index <= 54,
            nodes@.len() == index,
            forall|n: int|
                0 <= n < index ==> (#[trigger] nodes@[n]).position == n && nodes@[n].building is None
                    && nodes@[n].adjacent_edges@.len() == 0 && nodes@[n].adjacent_tiles@.len()
                    == 0,
        decreases 54 - index,
    {
        nodes.push(Node::new(index));
        index += 1;
    }
    nodes
}

/// Edges `0` to `71`, with nothing on them and no neighbours yet.
fn fresh_edges() -> (edges: Vec<Edge>)
    ensures
        edges@.len() == EDGE_COUNT,
        forall|e: int|
            0 <= e < EDGE_COUNT ==> (#[trigger] edges@[e]).position == e && edges@[e].building is None
                && edges@[e].adjacent_nodes@.len() == 0,
{
    let mut edges: Vec<Edge> = Vec::new();
    let mut index: usize = 0;
    while index < 72
        invariant
            index <= 72,
            edges@.len() == index,
            forall|e: int|
                0 <= e < index ==> (#[trigger] edges@[e]).position == e && edges@[e].building is None
                    && edges@[e].adjacent_nodes@.len() == 0,
        decreases 72 - index,
    {
        edges.push(Edge::new(index));
        index += 1;
    }
    edges
}

/// The nine ports in their standard order.
fn standard_ports() -> (ports: Vec<Port>)
    ensures
        ports@ == unshuffled_ports(),
{
    let mut ports: Vec<Port> = Vec::new();
    let mut index: usize = 0;
    while index < 9
        invariant
            index <= 9,
            ports@.len() == index,
            forall|i: int| 0 <= i < index ==> ports@[i] == unshuffled_port(i),
        decreases 9 - index,
    {
        let port = if index < 4 {
            Port::ThreeToOne
        } else if index < 5 {
            Port::Lumber
        } else if index < 6 {
            Port::Ore
        } else if index < 7 {
            Port::Wheat
        } else if index < 8 {
            Port::Sheep
        } else {
            Port::Brick
        };
        ports.push(port);
        index += 1;
    }
    assert(ports@ =~= unshuffled_ports());
    ports
}

/// The terrains of a sequence of tiles, tile by tile.
pub open spec fn terrains_of(tiles: Seq<Tile>) -> Seq<Terrain> {
    Seq::new(tiles.len(), |t: int| tiles[t].terrain)
}

/// The desert occurs in `terrains` once.
pub open spec fn one_desert(terrains: Seq<Terrain>) -> bool {
    exists|d: int|
        0 <= d < terrains.len() && terrains[d] == Terrain::Desert && forall|t: int|
            0 <= t < terrains.len() && t != d ==> terrains[t] != Terrain::Desert
}

/// The nineteen terrains in their standard order.
fn standard_terrains() -> (terrains: Vec<Terrain>)
    ensures
        terrains@ == unshuffled_terrains(),
{
    let mut terrains: Vec<Terrain> = Vec::new();
    let mut index: usize = 0;
    while index < 19
        invariant
            index <= 19,
            terrains@.len() == index,
            forall|i: int| 0 <= i < index ==> terrains@[i] == unshuffled_terrain(i),
        decreases 19 - index,
    {
        let terrain = if index < 4 {
            Terrain::Forest
        } else if index < 8 {
            Terrain::Plains
        } else if index < 12 {
            Terrain::Fields
        } else if index < 15 {
            Terrain::Mountains
        } else if index < 18 {
            Terrain::Hills
        } else {
            Terrain::Desert
        };
        terrains.push(terrain);
        index += 1;
    }
    assert(terrains@ =~= unshuffled_terrains());
    terrains
}

/// Nineteen tiles with the given terrains, no chit yet and no neighbours
/// yet. The robber stands on the desert.
fn fresh_tiles(terrains: &Vec<Terrain>) -> (tiles: Vec<Tile>)
    requires
        terrains@.len() == TILE_COUNT,
    ensures
        tiles@.len() == TILE_COUNT,
        terrains_of(tiles@) == terrains@,
        forall|t: int|
            0 <= t < TILE_COUNT ==> (#[trigger] tiles@[t]).index == t && tiles@[t].chit == 0
                && tiles@[t].adjacent_nodes@.len() == 0 && tiles@[t].has_robber == (
            tiles@[t].terrain == Terrain::Desert),
{
    let mut tiles: Vec<Tile> = Vec::new();
    let mut t: usize = 0;
    while t < 19
        invariant
            t <= 19,
            terrains@.len() == 19,
            tiles@.len() == t,
            forall|u: int|
                0 <= u < t ==> (#[trigger] tiles@[u]).index == u && tiles@[u].chit == 0
                    && tiles@[u].adjacent_nodes@.len() == 0 && tiles@[u].terrain == terrains@[u]
                    && tiles@[u].has_robber == (tiles@[u].terrain == Terrain::Desert),
        decreases 19 - t,
    {
        tiles.push(Tile::new(t, terrains[t], 0));
        t += 1;
    }
    assert(terrains_of(tiles@) =~= terrains@);
    tiles
}

/// For every pair `(n, e)`, in order, makes edge `e` a neighbour of node `n`
/// and node `n` a neighbour of edge `e`.
fn link_nodes_and_edges(nodes: &mut Vec<Node>, edges: &mut Vec<Edge>, pairs: &Vec<(usize, usize)>)
    requires
        old(nodes)@.len() == NODE_COUNT,
        old(edges)@.len() == EDGE_COUNT,
        pairs_within(pairs@, NODE_COUNT as nat, EDGE_COUNT as nat),
        forall|n: int| 0 <= n < NODE_COUNT ==> (#[trigger] old(nodes)@[n]).adjacent_edges@.len() == 0,
        forall|e: int| 0 <= e < EDGE_COUNT ==> (#[trigger] old(edges)@[e]).adjacent_nodes@.len() == 0,
    ensures
        final(nodes)@.len() == NODE_COUNT,
        final(edges)@.len() == EDGE_COUNT,
        forall|n: int|
            0 <= n < NODE_COUNT ==> (#[trigger] final(nodes)@[n]).adjacent_edges@ == rights_of(
                pairs@,
                n as usize,
            ) && final(nodes)@[n].position == old(nodes)@[n].position && final(nodes)@[n].building
                == old(nodes)@[n].building && final(nodes)@[n].adjacent_tiles == old(nodes)@[n].adjacent_tiles,
        forall|e: int|
            0 <= e < EDGE_COUNT ==> (#[trigger] final(edges)@[e]).adjacent_nodes@ == lefts_of(
                pairs@,
                e as usize,
            ) && final(edges)@[e].position == old(edges)@[e].position && final(edges)@[e].building
                == old(edges)@[e].building,
{
    let mut k: usize = 0;
    while k < pairs.len()
        invariant
            k <= pairs@.len(),
            nodes@.len() == NODE_COUNT,
            edges@.len() == EDGE_COUNT,
            pairs_within(pairs@, NODE_COUNT as nat, EDGE_COUNT as nat),
            forall|n: int|
                0 <= n < NODE_COUNT ==> (#[trigger] nodes@[n]).adjacent_edges@ == rights_of(
                    pairs@.take(k as int),
                    n as usize,
                ) && nodes@[n].position == old(nodes)@[n].position && nodes@[n].building == old(nodes)@[n].building && nodes@[n].adjacent_tiles == old(nodes)@[n].adjacent_tiles,
            forall|e: int|
                0 <= e < EDGE_COUNT ==> (#[trigger] edges@[e]).adjacent_nodes@ == lefts_of(
                    pairs@.take(k as int),
                    e as usize,
                ) && edges@[e].position == old(edges)@[e].position && edges@[e].building == old(edges)@[e].building,
        decreases pairs@.len() - k,
    {
        let (node, edge) = pairs[k];
        assert(pairs@[k as int].0 < NODE_COUNT && pairs@[k as int].1 < EDGE_COUNT);
        let ghost nodes_before = nodes@;
        let ghost edges_before = edges@;
        nodes[node].adjacent_edges.push(edge);
        edges[edge].adjacent_nodes.push(node);
        proof {
            let before = pairs@.take(k as int);
            let after = pairs@.take(k as int + 1);
            assert(after.drop_last() =~= before);
            assert(after.last() == pairs@[k as int]);
            assert forall|n: int| 0 <= n < NODE_COUNT implies (#[trigger] nodes@[n]).adjacent_edges@
                == rights_of(after, n as usize) by {
                assert(nodes_before[n].adjacent_edges@ == rights_of(before, n as usize));
            }
            assert forall|e: int| 0 <= e < EDGE_COUNT implies (#[trigger] edges@[e]).adjacent_nodes@
                == lefts_of(after, e as usize) by {
                assert(edges_before[e].adjacent_nodes@ == lefts_of(before, e as usize));
            }
        }
        k += 1;
    }
    assert(pairs@.take(k as int) =~= pairs@);
}

/// For every pair `(t, n)`, in order, makes node `n` a neighbour of tile `t`
/// and tile `t` a neighbour of node `n`.
fn link_tiles_and_nodes(tiles: &mut Vec<Tile>, nodes: &mut Vec<Node>, pairs: &Vec<(usize, usize)>)
    requires
        old(tiles)@.len() == TILE_COUNT,
        old(nodes)@.len() == NODE_COUNT,
        pairs_within(pairs@, TILE_COUNT as nat, NODE_COUNT as nat),
        forall|t: int| 0 <= t < TILE_COUNT ==> (#[trigger] old(tiles)@[t]).adjacent_nodes@.len() == 0,
        forall|n: int| 0 <= n < NODE_COUNT ==> (#[trigger] old(nodes)@[n]).adjacent_tiles@.len() == 0,
    ensures
        final(tiles)@.len() == TILE_COUNT,
        final(nodes)@.len() == NODE_COUNT,
        forall|t: int|
            0 <= t < TILE_COUNT ==> (#[trigger] final(tiles)@[t]).adjacent_nodes@ == rights_of(
                pairs@,
                t as usize,
            ) && final(tiles)@[t].index == old(tiles)@[t].index && final(tiles)@[t].terrain == old(tiles)@[t].terrain && final(tiles)@[t].chit == old(tiles)@[t].chit && final(tiles)@[t].has_robber == old(tiles)@[t].has_robber,
        forall|n: int|
            0 <= n < NODE_COUNT ==> (#[trigger] final(nodes)@[n]).adjacent_tiles@ == lefts_of(
                pairs@,
                n as usize,
            ) && final(nodes)@[n].position == old(nodes)@[n].position && final(nodes)@[n].building
                == old(nodes)@[n].building && final(nodes)@[n].adjacent_edges == old(nodes)@[n].adjacent_edges,
{
    let mut k: usize = 0;
    while k < pairs.len()
        invariant
            k <= pairs@.len(),
            tiles@.len() == TILE_COUNT,
            nodes@.len() == NODE_COUNT,
            pairs_within(pairs@, TILE_COUNT as nat, NODE_COUNT as nat),
            forall|t: int|
                0 <= t < TILE_COUNT ==> (#[trigger] tiles@[t]).adjacent_nodes@ == rights_of(
                    pairs@.take(k as int),
                    t as usize,
                ) && tiles@[t].index == old(tiles)@[t].index && tiles@[t].terrain == old(tiles)@[t].terrain && tiles@[t].chit == old(tiles)@[t].chit && tiles@[t].has_robber
                    == old(tiles)@[t].has_robber,
            forall|n: int|
                0 <= n < NODE_COUNT ==> (#[trigger] nodes@[n]).adjacent_tiles@ == lefts_of(
                    pairs@.take(k as int),
                    n as usize,
                ) && nodes@[n].position == old(nodes)@[n].position && nodes@[n].building == old(nodes)@[n].building && nodes@[n].adjacent_edges == old(nodes)@[n].adjacent_edges,
        decreases pairs@.len() - k,
    {
        let (tile, node) = pairs[k];
        assert(pairs@[k as int].0 < TILE_COUNT && pairs@[k as int].1 < NODE_COUNT);
        let ghost tiles_before = tiles@;
        let ghost nodes_before = nodes@;
        tiles[tile].adjacent_nodes.push(node);
        nodes[node].adjacent_tiles.push(tile);
        proof {
            let before = pairs@.take(k as int);
            let after = pairs@.take(k as int + 1);
            assert(after.drop_last() =~= before);
            assert(after.last() == pairs@[k as int]);
            assert forall|t: int| 0 <= t < TILE_COUNT implies (#[trigger] tiles@[t]).adjacent_nodes@
                == rights_of(after, t as usize) by {
                assert(tiles_before[t].adjacent_nodes@ == rights_of(before, t as usize));
            }
            assert forall|n: int| 0 <= n < NODE_COUNT implies (#[trigger] nodes@[n]).adjacent_tiles@
                == lefts_of(after, n as usize) by {
                assert(nodes_before[n].adjacent_tiles@ == lefts_of(before, n as usize));
            }
        }
        k += 1;
    }
    assert(pairs@.take(k as int) =~= pairs@);
}

/// Every second part of pairs that lie within the bounds lies below `rights`.
pub proof fn lemma_rights_within(pairs: Seq<(usize, usize)>, left: usize, lefts: nat, rights: nat)
    requires
        pairs_within(pairs, lefts, rights),
    ensures
        forall|i: int| 0 <= i < rights_of(pairs, left).len() ==> #[trigger] rights_of(pairs, left)[i] < rights,
    decreases pairs.len(),
{
    if pairs.len() > 0 {
        assert(pairs_within(pairs.drop_last(), lefts, rights)) by {
            assert forall|k: int| 0 <= k < pairs.drop_last().len() implies (#[trigger] pairs.drop_last()[k]).0 < lefts
                && pairs.drop_last()[k].1 < rights by {
                assert(pairs.drop_last()[k] == pairs[k]);
            }
        }
        lemma_rights_within(pairs.drop_last(), left, lefts, rights);
        let shorter = rights_of(pairs.drop_last(), left);
        assert(pairs[pairs.len() - 1].1 < rights);
        assert forall|i: int| 0 <= i < rights_of(pairs, left).len() implies #[trigger] rights_of(
            pairs,
            left,
        )[i] < rights by {
            if i < shorter.len() {
                assert(shorter[i] < rights);
            }
        }
    }
}

/// Every first part of pairs that lie within the bounds lies below `lefts`.
pub proof fn lemma_lefts_within(pairs: Seq<(usize, usize)>, right: usize, lefts: nat, rights: nat)
    requires
        pairs_within(pairs, lefts, rights),
    ensures
        forall|i: int| 0 <= i < lefts_of(pairs, right).len() ==> #[trigger] lefts_of(pairs, right)[i] < lefts,
    decreases pairs.len(),
{
    if pairs.len() > 0 {
        assert(pairs_within(pairs.drop_last(), lefts, rights)) by {
            assert forall|k: int| 0 <= k < pairs.drop_last().len() implies (#[trigger] pairs.drop_last()[k]).0 < lefts
                && pairs.drop_last()[k].1 < rights by {
                assert(pairs.drop_last()[k] == pairs[k]);
            }
        }
        lemma_lefts_within(pairs.drop_last(), right, lefts, rights);
        let shorter = lefts_of(pairs.drop_last(), right);
        assert(pairs[pairs.len() - 1].0 < lefts);
        assert forall|i: int| 0 <= i < lefts_of(pairs, right).len() implies #[trigger] lefts_of(
            pairs,
            right,
        )[i] < lefts by {
            if i < shorter.len() {
                assert(shorter[i] < lefts);
            }
        }
    }
}

/// The map: its nodes, edges, tiles and ports, and what is built on them.
///
/// Nodes, edges and tiles name their neighbours by index. Port `p` serves
/// the two nodes of `port_node_mapping[p]`.
#[derive(Clone, Debug)]
pub struct Board {
    pub ports: Vec<Port>,
    pub tiles: Vec<Tile>,
    pub nodes: Vec<Node>,
    pub edges: Vec<Edge>,
    pub port_node_mapping: Vec<(usize, usize)>,
}

#[allow(non_snake_case)]
impl Board {
    /// Node `n` knows its place, names only edges and tiles of the map, and
    /// holds at most a settlement or city that stands there.
    pub open spec fn node_ok(self, n: int) -> bool {
        let node = self.nodes@[n];
        &&& node.position == n
        &&& forall|i: int|
            0 <= i < node.adjacent_edges@.len() ==> #[trigger] node.adjacent_edges@[i] < EDGE_COUNT
        &&& forall|i: int|
            0 <= i < node.adjacent_tiles@.len() ==> #[trigger] node.adjacent_tiles@[i] < TILE_COUNT
        &&& node.building matches Some(building) ==> building.on_node() && building.position() == n
    }

    /// Edge `e` knows its place, names only nodes of the map, and holds at
    /// most a road that stands there.
    pub open spec fn edge_ok(self, e: int) -> bool {
        let edge = self.edges@[e];
        &&& edge.position == e
        &&& forall|i: int|
            0 <= i < edge.adjacent_nodes@.len() ==> #[trigger] edge.adjacent_nodes@[i] < NODE_COUNT
        &&& edge.building matches Some(building) ==> building is Road && building.position() == e
    }

    /// Tile `t` knows its place and names only nodes of the map.
    pub open spec fn tile_ok(self, t: int) -> bool {
        let tile = self.tiles@[t];
        &&& tile.index == t
        &&& forall|i: int|
            0 <= i < tile.adjacent_nodes@.len() ==> #[trigger] tile.adjacent_nodes@[i] < NODE_COUNT
    }

    /// The robber stands on tile `t` and on no other.
    pub open spec fn robber_only_on(self, t: int) -> bool {
        &&& 0 <= t < self.tiles@.len()
        &&& forall|u: int| 0 <= u < self.tiles@.len() ==> (#[trigger] self.tiles@[u].has_robber <==> u == t)
    }

    /// Port `p` serves two nodes of the map.
    pub open spec fn port_ok(self, p: int) -> bool {
        self.port_node_mapping@[p].0 < NODE_COUNT && self.port_node_mapping@[p].1 < NODE_COUNT
    }

    /// The board has its 54 nodes, 72 edges, 19 tiles and 9 ports.
    pub open spec fn shape_ok(self) -> bool {
        &&& self.ports@.len() == PORT_COUNT
        &&& self.tiles@.len() == TILE_COUNT
        &&& self.nodes@.len() == NODE_COUNT
        &&& self.edges@.len() == EDGE_COUNT
        &&& self.port_node_mapping@.len() == PORT_COUNT
    }

    /// The map has its 54 nodes, 72 edges, 19 tiles and 9 ports, all of them
    /// in order, and exactly one tile holds the robber.
    pub open spec fn wf(self) -> bool {
        &&& self.shape_ok()
        &&& forall|n: int| 0 <= n < NODE_COUNT ==> #[trigger] self.node_ok(n)
        &&& forall|e: int| 0 <= e < EDGE_COUNT ==> #[trigger] self.edge_ok(e)
        &&& forall|t: int| 0 <= t < TILE_COUNT ==> #[trigger] self.tile_ok(t)
        &&& forall|p: int| 0 <= p < PORT_COUNT ==> #[trigger] self.port_ok(p)
        &&& exists|t: int| self.robber_only_on(t)
    }

    /// The tile that holds the robber.
    pub open spec fn robber_tile(self) -> int {
        choose|t: int| self.robber_only_on(t)
    }

    /// `post` is `self` with the building on edge `e` replaced by `building`.
    pub open spec fn edge_rebuilt(self, post: Board, e: int, building: Option<Building>) -> bool {
        &&& post.ports == self.ports
        &&& post.tiles == self.tiles
        &&& post.nodes == self.nodes
        &&& post.port_node_mapping == self.port_node_mapping
        &&& post.edges@ == self.edges@.update(e, Edge { building, ..self.edges@[e] })
    }

    /// `post` is `self` with the building on node `n` replaced by `building`.
    pub open spec fn node_rebuilt(self, post: Board, n: int, building: Option<Building>) -> bool {
        &&& post.ports == self.ports
        &&& post.tiles == self.tiles
        &&& post.edges == self.edges
        &&& post.port_node_mapping == self.port_node_mapping
        &&& post.nodes@ == self.nodes@.update(n, Node { building, ..self.nodes@[n] })
    }

    /// The two boards show the same map with the same buildings.
    pub open spec fn same_as(self, other: Board) -> bool {
        &&& self.ports == other.ports
        &&& self.tiles == other.tiles
        &&& self.nodes == other.nodes
        &&& self.port_node_mapping == other.port_node_mapping
        &&& self.edges@ == other.edges@
    }

    /// The pair `(i, j)` names a node one edge away from node `n`: the
    /// `j`-th end of the `i`-th edge at `n`.
    pub open spec fn step_from_node(self, n: int, i: int, j: int) -> bool {
        &&& 0 <= i < self.nodes@[n].adjacent_edges@.len()
        &&& 0 <= j < self.edges@[self.nodes@[n].adjacent_edges@[i] as int].adjacent_nodes@.len()
    }

    /// The node that `step_from_node(n, i, j)` names.
    pub open spec fn node_beside(self, n: int, i: int, j: int) -> int {
        self.edges@[self.nodes@[n].adjacent_edges@[i] as int].adjacent_nodes@[j] as int
    }

    /// Some node at the far or near end of an edge at `n` is built on.
    pub open spec fn crowded(self, n: int) -> bool {
        exists|i: int, j: int| #[trigger]
            self.step_from_node(n, i, j) && self.nodes@[self.node_beside(n, i, j)].building is Some
    }

    /// The pair `(i, j)` names an edge that meets edge `e` in a node: the
    /// `j`-th edge at the `i`-th end of `e`.
    pub open spec fn step_from_edge(self, e: int, i: int, j: int) -> bool {
        &&& 0 <= i < self.edges@[e].adjacent_nodes@.len()
        &&& 0 <= j < self.nodes@[self.edges@[e].adjacent_nodes@[i] as int].adjacent_edges@.len()
    }

    /// The edge that `step_from_edge(e, i, j)` names.
    pub open spec fn edge_beside(self, e: int, i: int, j: int) -> int {
        self.nodes@[self.edges@[e].adjacent_nodes@[i] as int].adjacent_edges@[j] as int
    }

    /// Edge `e` holds a road of `player`.
    pub open spec fn owns_road(self, e: int, player: usize) -> bool {
        self.edges@[e].building matches Some(Building::Road(_, owner)) && owner == player
    }

    /// Some other edge that meets `e` in a node holds a road of `player`.
    pub open spec fn road_reaches_edge(self, e: int, player: usize) -> bool {
        exists|i: int, j: int| #[trigger]
            self.step_from_edge(e, i, j) && self.edge_beside(e, i, j) != e && self.owns_road(
                self.edge_beside(e, i, j),
                player,
            )
    }

    /// Some edge at node `n` holds a road of `player`.
    pub open spec fn road_reaches_node(self, n: int, player: usize) -> bool {
        exists|i: int|
            0 <= i < self.nodes@[n].adjacent_edges@.len() && self.owns_road(
                #[trigger] self.nodes@[n].adjacent_edges@[i] as int,
                player,
            )
    }

    /// Node `n` holds a settlement of `player`.
    pub open spec fn owns_settlement(self, n: int, player: usize) -> bool {
        self.nodes@[n].building matches Some(Building::Settlement(_, owner)) && owner == player
    }

    /// Some end of edge `e` holds a settlement of `player`.
    pub open spec fn settlement_at_end(self, e: int, player: usize) -> bool {
        exists|i: int|
            0 <= i < self.edges@[e].adjacent_nodes@.len() && self.owns_settlement(
                #[trigger] self.edges@[e].adjacent_nodes@[i] as int,
                player,
            )
    }

    /// When a first settlement may be placed: on a free node of the map with
    /// no building one edge away.
    pub open spec fn can_place_initial_settlement(self, settlement: Building) -> bool {
        &&& settlement matches Building::Settlement(position, _)
        &&& position < NODE_COUNT
        &&& self.nodes@[position as int].building is None
        &&& !self.crowded(position as int)
    }

    /// When a first road may be placed: on a free edge of the map, one end of
    /// which holds a settlement of the same player.
    pub open spec fn can_place_initial_road(self, road: Building) -> bool {
        &&& road matches Building::Road(position, player)
        &&& position < EDGE_COUNT
        &&& self.edges@[position as int].building is None
        &&& self.settlement_at_end(position as int, player)
    }

    /// When a settlement may be placed: on a free node of the map that a road
    /// of the same player leads to, with no building one edge away.
    pub open spec fn can_place_settlement(self, settlement: Building) -> bool {
        &&& settlement matches Building::Settlement(position, player)
        &&& position < NODE_COUNT
        &&& self.nodes@[position as int].building is None
        &&& self.road_reaches_node(position as int, player)
        &&& !self.crowded(position as int)
    }

    /// When a city may be placed: on a node of the map that holds a
    /// settlement. The settlement is refused only where it names both
    /// another node and another owner than the city does; a settlement that
    /// stands on its own node is therefore never refused for its owner.
    pub open spec fn can_place_city(self, city: Building) -> bool {
        &&& city matches Building::City(position, player)
        &&& position < NODE_COUNT
        &&& self.nodes@[position as int].building matches Some(Building::Settlement(at, owner))
        &&& !(at != position && owner != player)
    }

    /// Holds where `road` is a road for an edge of the map that is built on.
    pub open spec fn road_site_taken(self, road: Building) -> bool {
        &&& road matches Building::Road(position, _)
        &&& position < EDGE_COUNT
        &&& self.edges@[position as int].building is Some
    }

    /// When a road may be placed: on a free edge of the map that meets, in a
    /// node, another edge with a road of the same player.
    pub open spec fn can_place_road(self, road: Building) -> bool {
        &&& road matches Building::Road(position, player)
        &&& position < EDGE_COUNT
        &&& self.edges@[position as int].building is None
        &&& self.road_reaches_edge(position as int, player)
    }

    /// Holds of a board with the given ports and terrains on which nothing
    /// has happened yet: the ports serve their fixed nodes, nothing is built,
    /// no tile has a chit, the robber stands on the desert, and nodes, edges
    /// and tiles are neighbours as the two mappings say.
    pub open spec fn laid_out(
        self,
        node_edges: Seq<(usize, usize)>,
        tile_nodes: Seq<(usize, usize)>,
        ports: Seq<Port>,
        terrains: Seq<Terrain>,
    ) -> bool {
        &&& self.ports@ == ports
        &&& terrains_of(self.tiles@) == terrains
        &&& self.port_node_mapping@ == port_nodes()
        &&& forall|n: int|
            0 <= n < NODE_COUNT ==> (#[trigger] self.nodes@[n]).building is None
                && self.nodes@[n].adjacent_edges@ == rights_of(node_edges, n as usize)
                && self.nodes@[n].adjacent_tiles@ == lefts_of(tile_nodes, n as usize)
        &&& forall|e: int|
            0 <= e < EDGE_COUNT ==> (#[trigger] self.edges@[e]).building is None
                && self.edges@[e].adjacent_nodes@ == lefts_of(node_edges, e as usize)
        &&& forall|t: int|
            0 <= t < TILE_COUNT ==> (#[trigger] self.tiles@[t]).chit == 0
                && self.tiles@[t].has_robber == (self.tiles@[t].terrain == Terrain::Desert)
                && self.tiles@[t].adjacent_nodes@ == rights_of(tile_nodes, t as usize)
    }

    /// Holds of a board as `new` builds it from the two mappings: it is
    /// laid out with the standard ports and the standard terrains, each in
    /// some order.
    pub open spec fn newly_built(
        self,
        node_edges: Seq<(usize, usize)>,
        tile_nodes: Seq<(usize, usize)>,
    ) -> bool {
        &&& self.laid_out(node_edges, tile_nodes, self.ports@, terrains_of(self.tiles@))
        &&& self.ports@.to_multiset() == unshuffled_ports().to_multiset()
        &&& terrains_of(self.tiles@).to_multiset() == unshuffled_terrains().to_multiset()
    }

    /// A board with the given ports and terrains and nothing built on it.
    ///
    /// `node_edges` joins each node to the edges that end in it, `tile_nodes`
    /// each tile to the nodes at its corners. Port `p` is `ports[p]`, and
    /// tile `t` has the terrain `terrains[t]`.
    pub fn assemble(
        node_edges: &Vec<(usize, usize)>,
        tile_nodes: &Vec<(usize, usize)>,
        ports: Vec<Port>,
        terrains: Vec<Terrain>,
    ) -> (board: Board)
        requires
            pairs_within(node_edges@, NODE_COUNT as nat, EDGE_COUNT as nat),
            pairs_within(tile_nodes@, TILE_COUNT as nat, NODE_COUNT as nat),
            ports@.len() == PORT_COUNT,
            terrains@.len() == TILE_COUNT,
            one_desert(terrains@),
        ensures
            board.wf(),
            board.laid_out(node_edges@, tile_nodes@, ports@, terrains@),
    {
        let mut nodes = fresh_nodes();
        let mut edges = fresh_edges();
        link_nodes_and_edges(&mut nodes, &mut edges, node_edges);
        let mut tiles = fresh_tiles(&terrains);
        link_tiles_and_nodes(&mut tiles, &mut nodes, tile_nodes);
        let mut port_node_mapping: Vec<(usize, usize)> = Vec::new();
        port_node_mapping.push((0, 3));
        port_node_mapping.push((1, 5));
        port_node_mapping.push((10, 15));
        port_node_mapping.push((11, 16));
        port_node_mapping.push((26, 32));
        port_node_mapping.push((33, 38));
        port_node_mapping.push((42, 46));
        port_node_mapping.push((47, 51));
        port_node_mapping.push((49, 52));
        assert(port_node_mapping@ =~= port_nodes());
        let board = Board { ports, tiles, nodes, edges, port_node_mapping };
        proof {
            assert(terrains_of(board.tiles@) =~= terrains@);
            assert forall|n: int| 0 <= n < NODE_COUNT implies #[trigger] board.node_ok(n) by {
                lemma_rights_within(node_edges@, n as usize, NODE_COUNT as nat, EDGE_COUNT as nat);
                lemma_lefts_within(tile_nodes@, n as usize, TILE_COUNT as nat, NODE_COUNT as nat);
            }
            assert forall|e: int| 0 <= e < EDGE_COUNT implies #[trigger] board.edge_ok(e) by {
                lemma_lefts_within(node_edges@, e as usize, NODE_COUNT as nat, EDGE_COUNT as nat);
            }
            assert forall|t: int| 0 <= t < TILE_COUNT implies #[trigger] board.tile_ok(t) by {
                lemma_rights_within(tile_nodes@, t as usize, TILE_COUNT as nat, NODE_COUNT as nat);
            }
            let desert = choose|d: int|
                0 <= d < terrains@.len() && terrains@[d] == Terrain::Desert && forall|t: int|
                    0 <= t < terrains@.len() && t != d ==> terrains@[t] != Terrain::Desert;
            assert forall|u: int| 0 <= u < board.tiles@.len() implies (
            #[trigger] board.tiles@[u].has_robber <==> u == desert) by {
                assert(terrains@[u] == board.tiles@[u].terrain);
            }
            assert(board.robber_only_on(desert));
        }
        board
    }

    /// A board with nothing built on it, with the standard ports and the
    /// standard terrains, each in a random order (see `assemble`).
    pub fn new(node_edges: &Vec<(usize, usize)>, tile_nodes: &Vec<(usize, usize)>) -> (board: Board)
        requires
            pairs_within(node_edges@, NODE_COUNT as nat, EDGE_COUNT as nat),
            pairs_within(tile_nodes@, TILE_COUNT as nat, NODE_COUNT as nat),
        ensures
            board.wf(),
            board.newly_built(node_edges@, tile_nodes@),
    {
        let mut ports = standard_ports();
        shuffle(&mut ports);
        let mut terrains = standard_terrains();
        shuffle(&mut terrains);
        proof {
            ports@.to_multiset_ensures();
            unshuffled_ports().to_multiset_ensures();
            terrains@.to_multiset_ensures();
            unshuffled_terrains().to_multiset_ensures();
            lemma_one_desert();
            lemma_single_occurrence(terrains@, Terrain::Desert);
        }
        Board::assemble(node_edges, tile_nodes, ports, terrains)
    }

    /// Whether a building stands one edge away from `node`, or on it.
    pub fn isCrowded(&self, node: usize) -> (crowded: bool)
        requires
            self.wf(),
            node < NODE_COUNT,
        ensures
            crowded == self.crowded(node as int),
    {
        assert(self.node_ok(node as int));
        let mut i: usize = 0;
        while i < self.nodes[node].adjacent_edges.len()
            invariant
                self.wf(),
                node < NODE_COUNT,
                i <= self.nodes@[node as int].adjacent_edges@.len(),
                forall|a: int, b: int|
                    0 <= a < i && #[trigger] self.step_from_node(node as int, a, b)
                        ==> self.nodes@[self.node_beside(node as int, a, b)].building is None,
            decreases self.nodes@[node as int].adjacent_edges@.len() - i,
        {
            assert(self.node_ok(node as int));
            let edge = self.nodes[node].adjacent_edges[i];
            assert(self.edge_ok(edge as int));
            let mut j: usize = 0;
            while j < self.edges[edge].adjacent_nodes.len()
                invariant
                    self.wf(),
                    node < NODE_COUNT,
                    i < self.nodes@[node as int].adjacent_edges@.len(),
                    edge == self.nodes@[node as int].adjacent_edges@[i as int],
                    edge < EDGE_COUNT,
                    j <= self.edges@[edge as int].adjacent_nodes@.len(),
                    forall|a: int, b: int|
                        0 <= a < i && #[trigger] self.step_from_node(node as int, a, b)
                            ==> self.nodes@[self.node_beside(node as int, a, b)].building is None,
                    forall|b: int|
                        0 <= b < j ==> self.nodes@[#[trigger] self.node_beside(
                            node as int,
                            i as int,
                            b,
                        )].building is None,
                decreases self.edges@[edge as int].adjacent_nodes@.len() - j,
            {
                assert(self.edge_ok(edge as int));
                let other = self.edges[edge].adjacent_nodes[j];
                assert(other == self.node_beside(node as int, i as int, j as int));
                if self.nodes[other].hasBuilding() {
                    assert(self.step_from_node(node as int, i as int, j as int));
                    return true;
                }
                j += 1;
            }
            i += 1;
        }
        false
    }

    /// Whether another edge that meets `edge` in a node holds a road of
    /// `player`.
    pub fn roadReachesEdge(&self, edge: usize, player: usize) -> (reached: bool)
        requires
            self.wf(),
            edge < EDGE_COUNT,
        ensures
            reached == self.road_reaches_edge(edge as int, player),
    {
        assert(self.edge_ok(edge as int));
        let mut i: usize = 0;
        while i < self.edges[edge].adjacent_nodes.len()
            invariant
                self.wf(),
                edge < EDGE_COUNT,
                i <= self.edges@[edge as int].adjacent_nodes@.len(),
                forall|a: int, b: int|
                    0 <= a < i && #[trigger] self.step_from_edge(edge as int, a, b) ==> !(
                    self.edge_beside(edge as int, a, b) != edge && self.owns_road(
                        self.edge_beside(edge as int, a, b),
                        player,
                    )),
            decreases self.edges@[edge as int].adjacent_nodes@.len() - i,
        {
            assert(self.edge_ok(edge as int));
            let node = self.edges[edge].adjacent_nodes[i];
            assert(self.node_ok(node as int));
            let mut j: usize = 0;
            while j < self.nodes[node].adjacent_edges.len()
                invariant
                    self.wf(),
                    edge < EDGE_COUNT,
                    i < self.edges@[edge as int].adjacent_nodes@.len(),
                    node == self.edges@[edge as int].adjacent_nodes@[i as int],
                    node < NODE_COUNT,
                    j <= self.nodes@[node as int].adjacent_edges@.len(),
                    forall|a: int, b: int|
                        0 <= a < i && #[trigger] self.step_from_edge(edge as int, a, b) ==> !(
                        self.edge_beside(edge as int, a, b) != edge && self.owns_road(
                            self.edge_beside(edge as int, a, b),
                            player,
                        )),
                    forall|b: int|
                        0 <= b < j ==> !(#[trigger] self.edge_beside(edge as int, i as int, b)
                            != edge && self.owns_road(
                            self.edge_beside(edge as int, i as int, b),
                            player,
                        )),
                decreases self.nodes@[node as int].adjacent_edges@.len() - j,
            {
                assert(self.node_ok(node as int));
                let other = self.nodes[node].adjacent_edges[j];
                assert(other == self.edge_beside(edge as int, i as int, j as int));
                if other != edge && self.ownsRoad(other, player) {
                    assert(self.step_from_edge(edge as int, i as int, j as int));
                    return true;
                }
                j += 1;
            }
            i += 1;
        }
        false
    }

    /// Whether `edge` holds a road of `player`.
    pub fn ownsRoad(&self, edge: usize, player: usize) -> (owned: bool)
        requires
            edge < self.edges@.len(),
        ensures
            owned == self.owns_road(edge as int, player),
    {
        match self.edges[edge].building {
            Some(Building::Road(_, owner)) => owner == player,
            _ => false,
        }
    }

    /// Whether an edge at `node` holds a road of `player`.
    pub fn roadReachesNode(&self, node: usize, player: usize) -> (reached: bool)
        requires
            self.wf(),
            node < NODE_COUNT,
        ensures
            reached == self.road_reaches_node(node as int, player),
    {
        assert(self.node_ok(node as int));
        let mut i: usize = 0;
        while i < self.nodes[node].adjacent_edges.len()
            invariant
                self.wf(),
                node < NODE_COUNT,
                i <= self.nodes@[node as int].adjacent_edges@.len(),
                forall|a: int|
                    0 <= a < i ==> !self.owns_road(
                        #[trigger] self.nodes@[node as int].adjacent_edges@[a] as int,
                        player,
                    ),
            decreases self.nodes@[node as int].adjacent_edges@.len() - i,
        {
            assert(self.node_ok(node as int));
            let edge = self.nodes[node].adjacent_edges[i];
            if self.ownsRoad(edge, player) {
                return true;
            }
            i += 1;
        }
        false
    }

    /// Whether an end of `edge` holds a settlement of `player`.
    pub fn settlementAtEnd(&self, edge: usize, player: usize) -> (found: bool)
        requires
            self.wf(),
            edge < EDGE_COUNT,
        ensures
            found == self.settlement_at_end(edge as int, player),
    {
        assert(self.edge_ok(edge as int));
        let mut i: usize = 0;
        while i < self.edges[edge].adjacent_nodes.len()
            invariant
                self.wf(),
                edge < EDGE_COUNT,
                i <= self.edges@[edge as int].adjacent_nodes@.len(),
                forall|a: int|
                    0 <= a < i ==> !self.owns_settlement(
                        #[trigger] self.edges@[edge as int].adjacent_nodes@[a] as int,
                        player,
                    ),
            decreases self.edges@[edge as int].adjacent_nodes@.len() - i,
        {
            assert(self.edge_ok(edge as int));
            let node = self.edges[edge].adjacent_nodes[i];
            let owned = match self.nodes[node].building {
                Some(Building::Settlement(_, owner)) => owner == player,
                _ => false,
            };
            if owned {
                return true;
            }
            i += 1;
        }
        false
    }

    /// Writes `building` onto edge `edge`.
    fn set_edge_building(&mut self, edge: usize, building: Option<Building>)
        requires
            old(self).wf(),
            edge < EDGE_COUNT,
            building matches Some(b) ==> b is Road && b.position() == edge,
        ensures
            final(self).wf(),
            old(self).edge_rebuilt(*final(self), edge as int, building),
    {
        self.edges[edge].building = building;
        proof {
            assert forall|e: int| 0 <= e < EDGE_COUNT implies #[trigger] self.edge_ok(e) by {
                assert(old(self).edge_ok(e));
            }
            assert forall|n: int| 0 <= n < NODE_COUNT implies #[trigger] self.node_ok(n) by {
                assert(old(self).node_ok(n));
            }
            assert forall|t: int| 0 <= t < TILE_COUNT implies #[trigger] self.tile_ok(t) by {
                assert(old(self).tile_ok(t));
            }
            assert forall|p: int| 0 <= p < PORT_COUNT implies #[trigger] self.port_ok(p) by {
                assert(old(self).port_ok(p));
            }
            assert(self.robber_only_on(old(self).robber_tile()));
        }
    }

    /// Writes `building` onto node `node`.
    fn set_node_building(&mut self, node: usize, building: Option<Building>)
        requires
            old(self).wf(),
            node < NODE_COUNT,
            building matches Some(b) ==> b.on_node() && b.position() == node,
        ensures
            final(self).wf(),
            old(self).node_rebuilt(*final(self), node as int, building),
    {
        self.nodes[node].building = building;
        proof {
            assert forall|e: int| 0 <= e < EDGE_COUNT implies #[trigger] self.edge_ok(e) by {
                assert(old(self).edge_ok(e));
            }
            assert forall|n: int| 0 <= n < NODE_COUNT implies #[trigger] self.node_ok(n) by {
                assert(old(self).node_ok(n));
            }
            assert forall|t: int| 0 <= t < TILE_COUNT implies #[trigger] self.tile_ok(t) by {
                assert(old(self).tile_ok(t));
            }
            assert forall|p: int| 0 <= p < PORT_COUNT implies #[trigger] self.port_ok(p) by {
                assert(old(self).port_ok(p));
            }
            assert(self.robber_only_on(old(self).robber_tile()));
        }
    }

    /// Tries to place a road. The first flag says whether it was placed, the
    /// second whether the edge was built on already.
    pub fn placeRoad(&mut self, road: Building) -> (outcome: (bool, bool))
        requires
            old(self).wf(),
        ensures
            final(self).wf(),
            outcome.0 == old(self).can_place_road(road),
            outcome.1 == old(self).road_site_taken(road),
            outcome.0 ==> old(self).edge_rebuilt(*final(self), road.position() as int, Some(road)),
            !outcome.0 ==> *final(self) == *old(self),
    {
        if let Building::Road(position, player) = road {
            if position >= 72 {
                return (false, false);
            }
            if self.edges[position].hasRoad() {
                return (false, true);
            }
            if self.roadReachesEdge(position, player) {
                self.set_edge_building(position, Some(road));
                return (true, false);
            }
            return (false, false);
        }
        (false, false)
    }

    /// Tries to place a settlement next to a road of its owner.
    pub fn placeSettlement(&mut self, settlement: Building) -> (placed: bool)
        requires
            old(self).wf(),
        ensures
            final(self).wf(),
            placed == old(self).can_place_settlement(settlement),
            placed ==> old(self).node_rebuilt(
                *final(self),
                settlement.position() as int,
                Some(settlement),
            ),
            !placed ==> *final(self) == *old(self),
    {
        match settlement {
            Building::Settlement(settlement_placement, settlement_player) => {
                if settlement_placement >= 54 {
                    return false;
                }
                if self.nodes[settlement_placement].hasBuilding() {
                    return false;
                }
                if self.isCrowded(settlement_placement) {
                    return false;
                }
                if !self.roadReachesNode(settlement_placement, settlement_player) {
                    return false;
                }
                self.set_node_building(settlement_placement, Some(settlement));
                true
            },
            _ => false,
        }
    }

    /// Tries to turn the settlement on a node into a city.
    pub fn placeCity(&mut self, city: Building) -> (placed: bool)
        requires
            old(self).wf(),
        ensures
            final(self).wf(),
            placed == old(self).can_place_city(city),
            placed ==> old(self).node_rebuilt(*final(self), city.position() as int, Some(city)),
            !placed ==> *final(self) == *old(self),
    {
        match city {
            Building::City(position, player) => {
                if position >= 54 {
                    return false;
                }
                match self.nodes[position].building {
                    Some(Building::Settlement(pos, play)) => {
                        if pos != position && play != player {
                            return false;
                        }
                        self.set_node_building(position, Some(city));
                        true
                    },
                    _ => false,
                }
            },
            _ => false,
        }
    }

    /// Tries to place one of the settlements that open the game.
    pub fn placeInitialSettlement(&mut self, settlement: Building) -> (placed: bool)
        requires
            old(self).wf(),
        ensures
            final(self).wf(),
            placed == old(self).can_place_initial_settlement(settlement),
            placed ==> old(self).node_rebuilt(
                *final(self),
                settlement.position() as int,
                Some(settlement),
            ),
            !placed ==> *final(self) == *old(self),
    {
        match settlement {
            Building::Settlement(position, _) => {
                if position > 53 {
                    return false;
                }
                if self.nodes[position].hasBuilding() {
                    return false;
                }
                if self.isCrowded(position) {
                    return false;
                }
                self.set_node_building(position, Some(settlement));
                true
            },
            _ => false,
        }
    }

    /// Tries to place one of the roads that open the game, beside a
    /// settlement of its owner.
    pub fn placeInitialRoad(&mut self, road: Building) -> (placed: bool)
        requires
            old(self).wf(),
        ensures
            final(self).wf(),
            placed == old(self).can_place_initial_road(road),
            placed ==> old(self).edge_rebuilt(*final(self), road.position() as int, Some(road)),
            !placed ==> *final(self) == *old(self),
    {
        match road {
            Building::Road(position, player) => {
                if position >= 72 {
                    return false;
                }
                if self.edges[position].hasRoad() {
                    return false;
                }
                if !self.settlementAtEnd(position, player) {
                    return false;
                }
                self.set_edge_building(position, Some(road));
                true
            },
            _ => false,
        }
    }

    /// Clears the edge that `road` names, whatever stands there.
    pub fn removeRoad(&mut self, road: Building) -> (removed: bool)
        requires
            old(self).wf(),
        ensures
            final(self).wf(),
            removed == (road is Road && road.position() < EDGE_COUNT),
            removed ==> old(self).edge_rebuilt(*final(self), road.position() as int, None),
            !removed ==> *final(self) == *old(self),
    {
        match road {
            Building::Road(pos, _) => {
                if pos >= 72 {
                    return false;
                }
                self.set_edge_building(pos, None);
                true
            },
            _ => false,
        }
    }
}

/// A well-formed board has 54 nodes, 72 edges, 19 tiles and 9 ports, and
/// the robber stands on exactly one of its tiles.
pub proof fn lemma_board_census(board: Board)
    requires
        board.wf(),
    ensures
        board.nodes@.len() == 54,
        board.edges@.len() == 72,
        board.tiles@.len() == 19,
        board.ports@.len() == 9,
        exists|t: int|
            0 <= t < 19 && board.tiles@[t].has_robber && forall|u: int|
                0 <= u < 19 && u != t ==> !board.tiles@[u].has_robber,
{
    let t = board.robber_tile();
    assert(board.robber_only_on(t));
    assert(board.tiles@[t].has_robber);
    assert forall|u: int| 0 <= u < 19 && u != t implies !board.tiles@[u].has_robber by {
        assert(board.tiles@[u].has_robber <==> u == t);
    }
}

/// On any board, a settlement can be placed only where no node one edge
/// away holds a building, and that holds of a first settlement too.
pub proof fn lemma_settlement_keeps_distance(board: Board, settlement: Building, i: int, j: int)
    requires
        board.can_place_settlement(settlement) || board.can_place_initial_settlement(settlement),
        board.step_from_node(settlement.position() as int, i, j),
    ensures
        board.nodes@[board.node_beside(settlement.position() as int, i, j)].building is None,
{
}

/// On any board, a road can be placed exactly where the edge is an edge of
/// the map with nothing on it, and another edge that meets it in a node
/// holds a road of the same player.
pub proof fn lemma_road_joins_road(board: Board, edge: usize, player: usize)
    ensures
        board.can_place_road(Building::Road(edge, player)) <==> edge < EDGE_COUNT
            && board.edges@[edge as int].building is None && exists|i: int, j: int| #[trigger]
            board.step_from_edge(edge as int, i, j) && board.edge_beside(edge as int, i, j) != edge
                && board.owns_road(board.edge_beside(edge as int, i, j), player),
{
}

} // verus!
