use vstd::prelude::*;

verus! {

/// The five kinds of resource card.
#[derive(Clone, Copy, PartialEq, Eq, Structural, Debug, Hash)]
pub enum ResourceCard {
    Ore,
    Wheat,
    Sheep,
    Brick,
    Lumber,
}

impl ResourceCard {
    /// Position of the kind in an action's metadata: Ore, Wheat, Sheep, Brick, Lumber.
    pub open spec fn index(self) -> nat {
        match self {
            ResourceCard::Ore => 0,
            ResourceCard::Wheat => 1,
            ResourceCard::Sheep => 2,
            ResourceCard::Brick => 3,
            ResourceCard::Lumber => 4,
        }
    }

    /// The kind that stands at position `index`, if there is one.
    pub open spec fn at(index: nat) -> Option<ResourceCard> {
        if index == 0 {
            Some(ResourceCard::Ore)
        } else if index == 1 {
            Some(ResourceCard::Wheat)
        } else if index == 2 {
            Some(ResourceCard::Sheep)
        } else if index == 3 {
            Some(ResourceCard::Brick)
        } else if index == 4 {
            Some(ResourceCard::Lumber)
        } else {
            None
        }
    }

    pub fn value(&self) -> (position: usize)
        ensures
            position == self.index(),
    {
        match *self {
            ResourceCard::Ore => 0,
            ResourceCard::Wheat => 1,
            ResourceCard::Sheep => 2,
            ResourceCard::Brick => 3,
            ResourceCard::Lumber => 4,
        }
    }

    pub fn from_value(position: usize) -> (kind: Option<ResourceCard>)
        ensures
            kind == ResourceCard::at(position as nat),
    {
        if position == 0 {
            Some(ResourceCard::Ore)
        } else if position == 1 {
            Some(ResourceCard::Wheat)
        } else if position == 2 {
            Some(ResourceCard::Sheep)
        } else if position == 3 {
            Some(ResourceCard::Brick)
        } else if position == 4 {
            Some(ResourceCard::Lumber)
        } else {
            None
        }
    }
}

/// A number of cards of each resource kind: a hand, a price, a demand.
#[derive(Clone, Copy, PartialEq, Eq, Structural, Debug)]
pub struct ResourceCounts {
    pub ore: usize,
    pub wheat: usize,
    pub sheep: usize,
    pub brick: usize,
    pub lumber: usize,
}

impl View for ResourceCounts {
    type V = Map<ResourceCard, nat>;

    /// The counts as a total map from kind to number of cards.
    open spec fn view(&self) -> Map<ResourceCard, nat> {
        Map::new(|kind: ResourceCard| true, |kind: ResourceCard| self.amount(kind))
    }
}

impl ResourceCounts {
    /// Number of cards of `kind`.
    pub open spec fn amount(self, kind: ResourceCard) -> nat {
        match kind {
            ResourceCard::Ore => self.ore as nat,
            ResourceCard::Wheat => self.wheat as nat,
            ResourceCard::Sheep => self.sheep as nat,
            ResourceCard::Brick => self.brick as nat,
            ResourceCard::Lumber => self.lumber as nat,
        }
    }

    /// Number of cards of all kinds together.
    pub open spec fn total(self) -> nat {
        (self.ore + self.wheat + self.sheep + self.brick + self.lumber) as nat
    }

    /// Holds of a hand that has at least `demand` of every kind.
    pub open spec fn covers(self, demand: ResourceCounts) -> bool {
        forall|kind: ResourceCard| self.amount(kind) >= demand.amount(kind)
    }

    /// The counts with the number for `kind` replaced by `amount`.
    #[verifier::opaque]
    pub open spec fn with_amount(self, kind: ResourceCard, amount: usize) -> ResourceCounts {
        match kind {
            ResourceCard::Ore => ResourceCounts { ore: amount, ..self },
            ResourceCard::Wheat => ResourceCounts { wheat: amount, ..self },
            ResourceCard::Sheep => ResourceCounts { sheep: amount, ..self },
            ResourceCard::Brick => ResourceCounts { brick: amount, ..self },
            ResourceCard::Lumber => ResourceCounts { lumber: amount, ..self },
        }
    }

    /// No card of any kind.
    pub open spec fn none() -> ResourceCounts {
        ResourceCounts { ore: 0, wheat: 0, sheep: 0, brick: 0, lumber: 0 }
    }

    /// `amount` cards of `kind` and none of any other.
    pub open spec fn only(kind: ResourceCard, amount: usize) -> ResourceCounts {
        ResourceCounts::none().with_amount(kind, amount)
    }

    /// Holds where adding `other` stays within what a count can hold.
    pub open spec fn fits(self, other: ResourceCounts) -> bool {
        forall|kind: ResourceCard| self.amount(kind) + other.amount(kind) <= usize::MAX
    }

    /// Kind by kind, the sum of the two counts (where it `fits`).
    #[verifier::opaque]
    pub open spec fn plus(self, other: ResourceCounts) -> ResourceCounts {
        ResourceCounts {
            ore: (self.ore + other.ore) as usize,
            wheat: (self.wheat + other.wheat) as usize,
            sheep: (self.sheep + other.sheep) as usize,
            brick: (self.brick + other.brick) as usize,
            lumber: (self.lumber + other.lumber) as usize,
        }
    }

    /// Kind by kind, what is left after taking `other` away (where `self`
    /// `covers` it).
    #[verifier::opaque]
    pub open spec fn minus(self, other: ResourceCounts) -> ResourceCounts {
        ResourceCounts {
            ore: (self.ore - other.ore) as usize,
            wheat: (self.wheat - other.wheat) as usize,
            sheep: (self.sheep - other.sheep) as usize,
            brick: (self.brick - other.brick) as usize,
            lumber: (self.lumber - other.lumber) as usize,
        }
    }

    /// The counts after one card of `kind` was taken away, where there was
    /// one; the counts themselves where there was none.
    pub open spec fn less_one(self, kind: ResourceCard) -> ResourceCounts {
        if self.amount(kind) >= 1 {
            self.with_amount(kind, (self.amount(kind) - 1) as usize)
        } else {
            self
        }
    }

    /// The counts after one card of `kind` was added.
    pub open spec fn one_more(self, kind: ResourceCard) -> ResourceCounts {
        self.with_amount(kind, (self.amount(kind) + 1) as usize)
    }

    /// The single kind of which there are cards, if there is exactly one.
    pub open spec fn sole_kind(self) -> Option<ResourceCard> {
        if self.ore > 0 && self.wheat == 0 && self.sheep == 0 && self.brick == 0 && self.lumber
            == 0 {
            Some(ResourceCard::Ore)
        } else if self.ore == 0 && self.wheat > 0 && self.sheep == 0 && self.brick == 0
            && self.lumber == 0 {
            Some(ResourceCard::Wheat)
        } else if self.ore == 0 && self.wheat == 0 && self.sheep > 0 && self.brick == 0
            && self.lumber == 0 {
            Some(ResourceCard::Sheep)
        } else if self.ore == 0 && self.wheat == 0 && self.sheep == 0 && self.brick > 0
            && self.lumber == 0 {
            Some(ResourceCard::Brick)
        } else if self.ore == 0 && self.wheat == 0 && self.sheep == 0 && self.brick == 0
            && self.lumber > 0 {
            Some(ResourceCard::Lumber)
        } else {
            None
        }
    }

    /// No cards at all.
    pub fn empty() -> (counts: ResourceCounts)
        ensures
            counts == ResourceCounts::none(),
    {
        ResourceCounts { ore: 0, wheat: 0, sheep: 0, brick: 0, lumber: 0 }
    }

    /// The counts in metadata order: Ore, Wheat, Sheep, Brick, Lumber.
    pub fn new(ore: usize, wheat: usize, sheep: usize, brick: usize, lumber: usize) -> (counts:
        ResourceCounts)
        ensures
            counts == (ResourceCounts { ore, wheat, sheep, brick, lumber }),
    {
        ResourceCounts { ore, wheat, sheep, brick, lumber }
    }

    pub fn single(kind: ResourceCard, amount: usize) -> (counts: ResourceCounts)
        ensures
            counts == ResourceCounts::only(kind, amount),
            counts.amount(kind) == amount,
            forall|other: ResourceCard| other != kind ==> counts.amount(other) == 0,
            counts.total() == amount,
    {
        let mut counts = ResourceCounts { ore: 0, wheat: 0, sheep: 0, brick: 0, lumber: 0 };
        counts.set(kind, amount);
        proof {
            reveal(ResourceCounts::with_amount);
        }
        counts
    }

    pub fn get(&self, kind: ResourceCard) -> (amount: usize)
        ensures
            amount == self.amount(kind),
    {
        match kind {
            ResourceCard::Ore => self.ore,
            ResourceCard::Wheat => self.wheat,
            ResourceCard::Sheep => self.sheep,
            ResourceCard::Brick => self.brick,
            ResourceCard::Lumber => self.lumber,
        }
    }

    pub fn set(&mut self, kind: ResourceCard, amount: usize)
        ensures
            *final(self) == old(self).with_amount(kind, amount),
            final(self).amount(kind) == amount,
            forall|other: ResourceCard| other != kind ==> final(self).amount(other) == old(self).amount(other),
    {
        proof {
            reveal(ResourceCounts::with_amount);
        }
        match kind {
            ResourceCard::Ore => {
                self.ore = amount;
            },
            ResourceCard::Wheat => {
                self.wheat = amount;
            },
            ResourceCard::Sheep => {
                self.sheep = amount;
            },
            ResourceCard::Brick => {
                self.brick = amount;
            },
            ResourceCard::Lumber => {
                self.lumber = amount;
            },
        }
    }

    /// Whether there is at least `demand` of every kind.
    pub fn has(&self, demand: &ResourceCounts) -> (enough: bool)
        ensures
            enough == self.covers(*demand),
    {
        let enough = self.ore >= demand.ore && self.wheat >= demand.wheat && self.sheep
            >= demand.sheep && self.brick >= demand.brick && self.lumber >= demand.lumber;
        proof {
            if enough {
                assert forall|kind: ResourceCard| self.amount(kind) >= demand.amount(kind) by {}
            } else {
                assert(!(self.amount(ResourceCard::Ore) >= demand.amount(ResourceCard::Ore))
                    || !(self.amount(ResourceCard::Wheat) >= demand.amount(ResourceCard::Wheat))
                    || !(self.amount(ResourceCard::Sheep) >= demand.amount(ResourceCard::Sheep))
                    || !(self.amount(ResourceCard::Brick) >= demand.amount(ResourceCard::Brick))
                    || !(self.amount(ResourceCard::Lumber) >= demand.amount(
                    ResourceCard::Lumber,
                )));
            }
        }
        enough
    }

    /// Kind by kind, the sum of the two counts.
    pub fn combined(&self, other: &ResourceCounts) -> (sum: ResourceCounts)
        requires
            self.fits(*other),
        ensures
            sum == self.plus(*other),
            forall|kind: ResourceCard| sum.amount(kind) == self.amount(kind) + other.amount(kind),
    {
        proof {
            reveal(ResourceCounts::plus);
            assert(self.amount(ResourceCard::Ore) + other.amount(ResourceCard::Ore) <= usize::MAX);
            assert(self.amount(ResourceCard::Wheat) + other.amount(ResourceCard::Wheat)
                <= usize::MAX);
            assert(self.amount(ResourceCard::Sheep) + other.amount(ResourceCard::Sheep)
                <= usize::MAX);
            assert(self.amount(ResourceCard::Brick) + other.amount(ResourceCard::Brick)
                <= usize::MAX);
            assert(self.amount(ResourceCard::Lumber) + other.amount(ResourceCard::Lumber)
                <= usize::MAX);
        }
        ResourceCounts {
            ore: self.ore + other.ore,
            wheat: self.wheat + other.wheat,
            sheep: self.sheep + other.sheep,
            brick: self.brick + other.brick,
            lumber: self.lumber + other.lumber,
        }
    }

    /// Kind by kind, what is left after taking `other` away.
    pub fn reduced(&self, other: &ResourceCounts) -> (rest: ResourceCounts)
        requires
            self.covers(*other),
        ensures
            rest == self.minus(*other),
            forall|kind: ResourceCard| rest.amount(kind) == self.amount(kind) - other.amount(kind),
    {
        proof {
            reveal(ResourceCounts::minus);
            assert(self.amount(ResourceCard::Ore) >= other.amount(ResourceCard::Ore));
            assert(self.amount(ResourceCard::Wheat) >= other.amount(ResourceCard::Wheat));
            assert(self.amount(ResourceCard::Sheep) >= other.amount(ResourceCard::Sheep));
            assert(self.amount(ResourceCard::Brick) >= other.amount(ResourceCard::Brick));
            assert(self.amount(ResourceCard::Lumber) >= other.amount(ResourceCard::Lumber));
        }
        ResourceCounts {
            ore: self.ore - other.ore,
            wheat: self.wheat - other.wheat,
            sheep: self.sheep - other.sheep,
            brick: self.brick - other.brick,
            lumber: self.lumber - other.lumber,
        }
    }

    /// The single kind of which there are cards, if there is exactly one.
    pub fn only_kind(&self) -> (kind: Option<ResourceCard>)
        ensures
            kind == self.sole_kind(),
    {
        if self.ore > 0 && self.wheat == 0 && self.sheep == 0 && self.brick == 0 && self.lumber
            == 0 {
            Some(ResourceCard::Ore)
        } else if self.ore == 0 && self.wheat > 0 && self.sheep == 0 && self.brick == 0
            && self.lumber == 0 {
            Some(ResourceCard::Wheat)
        } else if self.ore == 0 && self.wheat == 0 && self.sheep > 0 && self.brick == 0
            && self.lumber == 0 {
            Some(ResourceCard::Sheep)
        } else if self.ore == 0 && self.wheat == 0 && self.sheep == 0 && self.brick > 0
            && self.lumber == 0 {
            Some(ResourceCard::Brick)
        } else if self.ore == 0 && self.wheat == 0 && self.sheep == 0 && self.brick == 0
            && self.lumber > 0 {
            Some(ResourceCard::Lumber)
        } else {
            None
        }
    }

    /// Number of cards of all kinds together, where that number fits.
    pub fn count(&self) -> (total: usize)
        requires
            self.total() <= usize::MAX,
        ensures
            total == self.total(),
    {
        self.ore + self.wheat + self.sheep + self.brick + self.lumber
    }
}

/// Where cards of one kind only are held, the counts are those of that
/// kind alone, and some cards of it are held.
pub proof fn lemma_sole_kind(counts: ResourceCounts)
    ensures
        counts.sole_kind() matches Some(kind) ==> counts.amount(kind) > 0 && counts
            == ResourceCounts::only(kind, counts.amount(kind) as usize) && forall|
            other: ResourceCard,
        |
            other != kind ==> counts.amount(other) == 0,
{
    reveal(ResourceCounts::with_amount);
}

/// Adding counts adds the numbers of every kind.
pub proof fn lemma_plus(a: ResourceCounts, b: ResourceCounts)
    requires
        a.fits(b),
    ensures
        forall|kind: ResourceCard| #[trigger] a.plus(b).amount(kind) == a.amount(kind) + b.amount(kind),
{
    reveal(ResourceCounts::plus);
    assert(a.amount(ResourceCard::Ore) + b.amount(ResourceCard::Ore) <= usize::MAX);
    assert(a.amount(ResourceCard::Wheat) + b.amount(ResourceCard::Wheat) <= usize::MAX);
    assert(a.amount(ResourceCard::Sheep) + b.amount(ResourceCard::Sheep) <= usize::MAX);
    assert(a.amount(ResourceCard::Brick) + b.amount(ResourceCard::Brick) <= usize::MAX);
    assert(a.amount(ResourceCard::Lumber) + b.amount(ResourceCard::Lumber) <= usize::MAX);
}

/// Taking counts away takes the numbers of every kind away.
pub proof fn lemma_minus(a: ResourceCounts, b: ResourceCounts)
    requires
        a.covers(b),
    ensures
        forall|kind: ResourceCard| #[trigger] a.minus(b).amount(kind) == a.amount(kind) - b.amount(kind),
{
    reveal(ResourceCounts::minus);
    assert(a.amount(ResourceCard::Ore) >= b.amount(ResourceCard::Ore));
    assert(a.amount(ResourceCard::Wheat) >= b.amount(ResourceCard::Wheat));
    assert(a.amount(ResourceCard::Sheep) >= b.amount(ResourceCard::Sheep));
    assert(a.amount(ResourceCard::Brick) >= b.amount(ResourceCard::Brick));
    assert(a.amount(ResourceCard::Lumber) >= b.amount(ResourceCard::Lumber));
}

/// Two counts that agree on every kind are the same.
pub proof fn lemma_counts_equal(a: ResourceCounts, b: ResourceCounts)
    requires
        forall|kind: ResourceCard| a.amount(kind) == b.amount(kind),
    ensures
        a == b,
{
    assert(a.amount(ResourceCard::Ore) == b.amount(ResourceCard::Ore));
    assert(a.amount(ResourceCard::Wheat) == b.amount(ResourceCard::Wheat));
    assert(a.amount(ResourceCard::Sheep) == b.amount(ResourceCard::Sheep));
    assert(a.amount(ResourceCard::Brick) == b.amount(ResourceCard::Brick));
    assert(a.amount(ResourceCard::Lumber) == b.amount(ResourceCard::Lumber));
}

/// Replacing the number for one kind changes that number and no other.
pub proof fn lemma_with_amount(counts: ResourceCounts, kind: ResourceCard, amount: usize)
    ensures
        counts.with_amount(kind, amount).amount(kind) == amount,
        forall|other: ResourceCard|
            other != kind ==> #[trigger] counts.with_amount(kind, amount).amount(other)
                == counts.amount(other),
{
    reveal(ResourceCounts::with_amount);
}

} // verus!
