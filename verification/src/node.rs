use vstd::prelude::*;
use crate::building::Building;

verus! {

/// A corner of the map, where a settlement or a city can stand.
/// `adjacent_edges` and `adjacent_tiles` hold indices into the board.
#[derive(Clone, Debug)]
pub struct Node {
    pub position: usize,
    pub building: Option<Building>,
    pub adjacent_edges: Vec<usize>,
    pub adjacent_tiles: Vec<usize>,
}

#[allow(non_snake_case)]
impl Node {
    pub fn new(position: usize) -> (node: Node)
        ensures
            node.position == position,
            node.building is None,
            node.adjacent_edges@.len() == 0,
            node.adjacent_tiles@.len() == 0,
    {
        Node { position, building: None, adjacent_edges: Vec::new(), adjacent_tiles: Vec::new() }
    }

    pub fn hasBuilding(&self) -> (built: bool)
        ensures
            built == self.building is Some,
    {
        match self.building {
            Some(_) => true,
            None => false,
        }
    }
}

} // verus!
