use vstd::prelude::*;
use crate::resource::ResourceCard;

verus! {

/// What a tile is made of.
#[derive(Clone, Copy, PartialEq, Eq, Structural, Debug, Hash)]
pub enum Terrain {
    Plains,
    Forest,
    Mountains,
    Hills,
    Fields,
    Desert,
}

impl Terrain {
    /// The resource that the terrain yields; the desert yields none.
    pub open spec fn yields(self) -> Option<ResourceCard> {
        match self {
            Terrain::Plains => Some(ResourceCard::Sheep),
            Terrain::Forest => Some(ResourceCard::Lumber),
            Terrain::Mountains => Some(ResourceCard::Ore),
            Terrain::Hills => Some(ResourceCard::Brick),
            Terrain::Fields => Some(ResourceCard::Wheat),
            Terrain::Desert => None,
        }
    }

    pub fn resource(&self) -> (kind: Option<ResourceCard>)
        ensures
            kind == self.yields(),
    {
        match *self {
            Terrain::Plains => Some(ResourceCard::Sheep),
            Terrain::Forest => Some(ResourceCard::Lumber),
            Terrain::Mountains => Some(ResourceCard::Ore),
            Terrain::Hills => Some(ResourceCard::Brick),
            Terrain::Fields => Some(ResourceCard::Wheat),
            Terrain::Desert => None,
        }
    }
}

} // verus!
