use vstd::prelude::*;

verus! {

/// Something built on the board. Each variant holds the position (a node for
/// a settlement or a city, an edge for a road) and then the owning player.
#[derive(Clone, Copy, PartialEq, Eq, Structural, Debug)]
pub enum Building {
    Settlement(usize, usize),
    City(usize, usize),
    Road(usize, usize),
}

impl Building {
    /// Where the building stands.
    pub open spec fn position(self) -> usize {
        match self {
            Building::Settlement(position, _) => position,
            Building::City(position, _) => position,
            Building::Road(position, _) => position,
        }
    }

    /// The player that owns it.
    pub open spec fn owner(self) -> usize {
        match self {
            Building::Settlement(_, owner) => owner,
            Building::City(_, owner) => owner,
            Building::Road(_, owner) => owner,
        }
    }

    /// Holds of a settlement or a city, the buildings that stand on nodes.
    pub open spec fn on_node(self) -> bool {
        self is Settlement || self is City
    }

    /// How many cards a producing tile gives for it: one for a settlement,
    /// two for a city, none for a road.
    pub open spec fn harvest(self) -> nat {
        match self {
            Building::Settlement(_, _) => 1,
            Building::City(_, _) => 2,
            Building::Road(_, _) => 0,
        }
    }
}

} // verus!
