use vstd::prelude::*;
use crate::resource::ResourceCard;

verus! {

/// The exchange that a port offers: three of anything for one card, or two
/// of one kind for one card.
#[derive(Clone, Copy, PartialEq, Eq, Structural, Debug, Hash)]
pub enum Port {
    ThreeToOne,
    Lumber,
    Ore,
    Wheat,
    Sheep,
    Brick,
}

impl Port {
    /// How many cards of `kind` the port takes for one card, if it takes that kind.
    pub open spec fn price(self, kind: ResourceCard) -> Option<nat> {
        match self {
            Port::ThreeToOne => Some(3),
            Port::Lumber => if kind == ResourceCard::Lumber { Some(2) } else { None },
            Port::Ore => if kind == ResourceCard::Ore { Some(2) } else { None },
            Port::Wheat => if kind == ResourceCard::Wheat { Some(2) } else { None },
            Port::Sheep => if kind == ResourceCard::Sheep { Some(2) } else { None },
            Port::Brick => if kind == ResourceCard::Brick { Some(2) } else { None },
        }
    }

    /// Holds where the port takes exactly `amount` cards of `kind` for one card.
    pub open spec fn takes(self, kind: ResourceCard, amount: nat) -> bool {
        self.price(kind) == Some(amount)
    }

    pub fn accepts(&self, kind: ResourceCard, amount: usize) -> (taken: bool)
        ensures
            taken == self.takes(kind, amount as nat),
    {
        match *self {
            Port::ThreeToOne => amount == 3,
            Port::Lumber => kind == ResourceCard::Lumber && amount == 2,
            Port::Ore => kind == ResourceCard::Ore && amount == 2,
            Port::Wheat => kind == ResourceCard::Wheat && amount == 2,
            Port::Sheep => kind == ResourceCard::Sheep && amount == 2,
            Port::Brick => kind == ResourceCard::Brick && amount == 2,
        }
    }
}

} // verus!
