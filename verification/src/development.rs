use vstd::prelude::*;

verus! {

/// The five kinds of development card.
#[derive(Clone, Copy, PartialEq, Eq, Structural, Debug, Hash)]
pub enum DevelopmentCard {
    Knight,
    RoadBuilding,
    YearOfPlenty,
    Monopoly,
    VictoryPoint,
}

impl DevelopmentCard {
    /// The tag under which an action names the card.
    pub open spec fn tag(self) -> nat {
        match self {
            DevelopmentCard::Knight => 0,
            DevelopmentCard::Monopoly => 1,
            DevelopmentCard::RoadBuilding => 2,
            DevelopmentCard::VictoryPoint => 3,
            DevelopmentCard::YearOfPlenty => 4,
        }
    }

    /// The card that an action names by `tag`, if there is one.
    pub open spec fn with_tag(tag: nat) -> Option<DevelopmentCard> {
        if tag == 0 {
            Some(DevelopmentCard::Knight)
        } else if tag == 1 {
            Some(DevelopmentCard::Monopoly)
        } else if tag == 2 {
            Some(DevelopmentCard::RoadBuilding)
        } else if tag == 3 {
            Some(DevelopmentCard::VictoryPoint)
        } else if tag == 4 {
            Some(DevelopmentCard::YearOfPlenty)
        } else {
            None
        }
    }

    pub fn value(&self) -> (tag: usize)
        ensures
            tag == self.tag(),
    {
        match *self {
            DevelopmentCard::Knight => 0,
            DevelopmentCard::Monopoly => 1,
            DevelopmentCard::RoadBuilding => 2,
            DevelopmentCard::VictoryPoint => 3,
            DevelopmentCard::YearOfPlenty => 4,
        }
    }

    pub fn from_value(tag: usize) -> (card: Option<DevelopmentCard>)
        ensures
            card == DevelopmentCard::with_tag(tag as nat),
    {
        if tag == 0 {
            Some(DevelopmentCard::Knight)
        } else if tag == 1 {
            Some(DevelopmentCard::Monopoly)
        } else if tag == 2 {
            Some(DevelopmentCard::RoadBuilding)
        } else if tag == 3 {
            Some(DevelopmentCard::VictoryPoint)
        } else if tag == 4 {
            Some(DevelopmentCard::YearOfPlenty)
        } else {
            None
        }
    }
}

/// A number of cards of each development kind.
#[derive(Clone, Copy, PartialEq, Eq, Structural, Debug)]
pub struct DevelopmentCounts {
    pub knight: usize,
    pub road_building: usize,
    pub year_of_plenty: usize,
    pub monopoly: usize,
    pub victory_point: usize,
}

impl View for DevelopmentCounts {
    type V = Map<DevelopmentCard, nat>;

    /// The counts as a total map from card to number held.
    open spec fn view(&self) -> Map<DevelopmentCard, nat> {
        Map::new(|card: DevelopmentCard| true, |card: DevelopmentCard| self.amount(card))
    }
}

impl DevelopmentCounts {
    /// Number of cards of kind `card`.
    pub open spec fn amount(self, card: DevelopmentCard) -> nat {
        match card {
            DevelopmentCard::Knight => self.knight as nat,
            DevelopmentCard::RoadBuilding => self.road_building as nat,
            DevelopmentCard::YearOfPlenty => self.year_of_plenty as nat,
            DevelopmentCard::Monopoly => self.monopoly as nat,
            DevelopmentCard::VictoryPoint => self.victory_point as nat,
        }
    }

    /// The counts with the number for `card` replaced by `amount`.
    pub open spec fn with_amount(self, card: DevelopmentCard, amount: usize) -> DevelopmentCounts {
        match card {
            DevelopmentCard::Knight => DevelopmentCounts { knight: amount, ..self },
            DevelopmentCard::RoadBuilding => DevelopmentCounts { road_building: amount, ..self },
            DevelopmentCard::YearOfPlenty => DevelopmentCounts { year_of_plenty: amount, ..self },
            DevelopmentCard::Monopoly => DevelopmentCounts { monopoly: amount, ..self },
            DevelopmentCard::VictoryPoint => DevelopmentCounts { victory_point: amount, ..self },
        }
    }

    /// No card of any kind.
    pub open spec fn none() -> DevelopmentCounts {
        DevelopmentCounts {
            knight: 0,
            road_building: 0,
            year_of_plenty: 0,
            monopoly: 0,
            victory_point: 0,
        }
    }

    /// No cards at all.
    pub fn empty() -> (counts: DevelopmentCounts)
        ensures
            counts == DevelopmentCounts::none(),
    {
        DevelopmentCounts {
            knight: 0,
            road_building: 0,
            year_of_plenty: 0,
            monopoly: 0,
            victory_point: 0,
        }
    }

    pub fn get(&self, card: DevelopmentCard) -> (amount: usize)
        ensures
            amount == self.amount(card),
    {
        match card {
            DevelopmentCard::Knight => self.knight,
            DevelopmentCard::RoadBuilding => self.road_building,
            DevelopmentCard::YearOfPlenty => self.year_of_plenty,
            DevelopmentCard::Monopoly => self.monopoly,
            DevelopmentCard::VictoryPoint => self.victory_point,
        }
    }

    pub fn set(&mut self, card: DevelopmentCard, amount: usize)
        ensures
            *final(self) == old(self).with_amount(card, amount),
            final(self).amount(card) == amount,
            forall|other: DevelopmentCard|
                other != card ==> final(self).amount(other) == old(self).amount(other),
    {
        match card {
            DevelopmentCard::Knight => {
                self.knight = amount;
            },
            DevelopmentCard::RoadBuilding => {
                self.road_building = amount;
            },
            DevelopmentCard::YearOfPlenty => {
                self.year_of_plenty = amount;
            },
            DevelopmentCard::Monopoly => {
                self.monopoly = amount;
            },
            DevelopmentCard::VictoryPoint => {
                self.victory_point = amount;
            },
        }
    }
}

} // verus!
