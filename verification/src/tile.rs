use vstd::prelude::*;
use crate::terrain::Terrain;

verus! {

/// A hexagon of the map. It produces when the dice show `chit`, unless the
/// robber stands on it. `adjacent_nodes` holds indices into the board.
#[derive(Clone, Debug)]
pub struct Tile {
    pub index: usize,
    pub terrain: Terrain,
    pub chit: i32,
    pub adjacent_nodes: Vec<usize>,
    pub has_robber: bool,
}

impl Tile {
    /// A tile without neighbours. The robber starts on the desert.
    pub fn new(index: usize, terrain: Terrain, chit: i32) -> (tile: Tile)
        ensures
            tile.index == index,
            tile.terrain == terrain,
            tile.chit == chit,
            tile.adjacent_nodes@.len() == 0,
            tile.has_robber == (terrain == Terrain::Desert),
    {
        if terrain == Terrain::Desert {
            return Tile { index, terrain, chit, adjacent_nodes: Vec::new(), has_robber: true };
        }
        Tile { index, terrain, chit, adjacent_nodes: Vec::new(), has_robber: false }
    }
}

} // verus!
