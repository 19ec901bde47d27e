use vstd::prelude::*;
use crate::building::Building;

verus! {

/// A side of a tile, where a road can stand. `adjacent_nodes` holds indices
/// into the board.
#[derive(Clone, Debug)]
pub struct Edge {
    pub position: usize,
    pub building: Option<Building>,
    pub adjacent_nodes: Vec<usize>,
}

#[allow(non_snake_case)]
impl Edge {
    pub fn new(position: usize) -> (edge: Edge)
        ensures
            edge.position == position,
            edge.building is None,
            edge.adjacent_nodes@.len() == 0,
    {
        Edge { position, building: None, adjacent_nodes: Vec::new() }
    }

    pub fn hasRoad(&self) -> (built: bool)
        ensures
            built == self.building is Some,
    {
        match self.building {
            Some(_) => true,
            _ => false,
        }
    }
}

} // verus!
