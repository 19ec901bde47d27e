use vstd::prelude::*;
use crate::chance::shuffle;
use crate::development::DevelopmentCard;
use crate::resource::{ResourceCard, ResourceCounts};

verus! {

/// Cards of each resource kind that a game starts with.
pub const RESOURCE_SUPPLY: usize = 19;

/// Number of development cards in the stack.
pub const DEVELOPMENT_STACK: usize = 25;

/// The card at `position` of the stack before it is shuffled: 13 knights,
/// 3 road buildings, 2 years of plenty, 2 monopolies, 5 victory points.
pub open spec fn unshuffled_card(position: int) -> DevelopmentCard {
    if position < 13 {
        DevelopmentCard::Knight
    } else if position < 16 {
        DevelopmentCard::RoadBuilding
    } else if position < 18 {
        DevelopmentCard::YearOfPlenty
    } else if position < 20 {
        DevelopmentCard::Monopoly
    } else {
        DevelopmentCard::VictoryPoint
    }
}

/// The development stack before it is shuffled.
pub open spec fn unshuffled_stack() -> Seq<DevelopmentCard> {
    Seq::new(DEVELOPMENT_STACK as nat, |position: int| unshuffled_card(position))
}

/// The shared pool of resource cards and the stack of development cards.
/// The cards from `development_card_pointer` on are still to be drawn.
#[derive(Clone, Debug)]
pub struct Bank {
    pub resource_cards: ResourceCounts,
    pub development_cards: Vec<DevelopmentCard>,
    pub development_card_pointer: usize,
}

#[allow(non_snake_case)]
impl Bank {
    /// The stack is complete and the pointer lies within it, or at its end.
    pub open spec fn wf(self) -> bool {
        &&& self.development_cards@.len() == DEVELOPMENT_STACK
        &&& self.development_card_pointer <= DEVELOPMENT_STACK
    }

    /// Number of development cards still to be drawn.
    pub open spec fn cards_left(self) -> nat {
        (DEVELOPMENT_STACK - self.development_card_pointer) as nat
    }

    /// Holds of a bank that has given nothing out yet: it holds 19 cards
    /// of each resource and the 25 development cards in some order.
    pub open spec fn full(self) -> bool {
        &&& self.development_card_pointer == 0
        &&& forall|kind: ResourceCard| self.resource_cards.amount(kind) == RESOURCE_SUPPLY
        &&& self.development_cards@.to_multiset() == unshuffled_stack().to_multiset()
    }

    /// A bank with 19 cards of each resource and the given stack of
    /// development cards, the first of them on top.
    pub fn stocked(development_cards: Vec<DevelopmentCard>) -> (bank: Bank)
        requires
            development_cards@.len() == DEVELOPMENT_STACK,
        ensures
            bank.wf(),
            bank.development_card_pointer == 0,
            bank.development_cards@ == development_cards@,
            forall|kind: ResourceCard| bank.resource_cards.amount(kind) == RESOURCE_SUPPLY,
    {
        Bank {
            resource_cards: ResourceCounts::new(19, 19, 19, 19, 19),
            development_cards,
            development_card_pointer: 0,
        }
    }

    /// A full bank: 19 cards of each resource, and the 25 development cards
    /// in a random order.
    pub fn new() -> (bank: Bank)
        ensures
            bank.wf(),
            bank.full(),
    {
        let mut development_cards: Vec<DevelopmentCard> = Vec::new();
        let mut index: usize = 0;
        while index < 25
            invariant
                index <= 25,
                development_cards@.len() == index,
                forall|i: int| 0 <= i < index ==> development_cards@[i] == unshuffled_card(i),
            decreases 25 - index,
        {
            let card = if index < 13 {
                DevelopmentCard::Knight
            } else if index < 16 {
                DevelopmentCard::RoadBuilding
            } else if index < 18 {
                DevelopmentCard::YearOfPlenty
            } else if index < 20 {
                DevelopmentCard::Monopoly
            } else {
                DevelopmentCard::VictoryPoint
            };
            development_cards.push(card);
            index += 1;
        }
        assert(development_cards@ =~= unshuffled_stack());
        shuffle(&mut development_cards);
        proof {
            development_cards@.to_multiset_ensures();
            unshuffled_stack().to_multiset_ensures();
        }
        Bank::stocked(development_cards)
    }

    /// Takes the next development card off the stack, if one is left.
    pub fn drawDevelopmentCard(&mut self) -> (drawn: Option<DevelopmentCard>)
        requires
            old(self).wf(),
        ensures
            final(self).wf(),
            final(self).resource_cards == old(self).resource_cards,
            final(self).development_cards == old(self).development_cards,
            old(self).development_card_pointer == DEVELOPMENT_STACK ==> drawn is None && *final(self)
                == *old(self),
            old(self).development_card_pointer < DEVELOPMENT_STACK ==> drawn == Some(
                old(self).development_cards@[old(self).development_card_pointer as int],
            ) && final(self).development_card_pointer == old(self).development_card_pointer + 1,
    {
        if self.development_card_pointer == 25 {
            return None;
        }
        let development_card = self.development_cards[self.development_card_pointer];
        self.development_card_pointer += 1;
        Some(development_card)
    }

    /// Takes `amount` cards of one kind out of the pool, if it holds that
    /// many; otherwise takes none.
    pub fn drawNumberOfResourceCards(&mut self, resource_card: ResourceCard, amount: usize) -> (drawn:
        bool)
        ensures
            drawn == (old(self).resource_cards.amount(resource_card) >= amount),
            drawn ==> *final(self) == (Bank {
                resource_cards: old(self).resource_cards.with_amount(
                    resource_card,
                    (old(self).resource_cards.amount(resource_card) - amount) as usize,
                ),
                ..*old(self)
            }),
            !drawn ==> *final(self) == *old(self),
    {
        let num_in_pile = self.resource_cards.get(resource_card);
        if num_in_pile >= amount {
            self.resource_cards.set(resource_card, num_in_pile - amount);
            true
        } else {
            false
        }
    }

    /// Puts `amount` cards of one kind back into the pool.
    pub fn replaceResourceCard(&mut self, resource_card: ResourceCard, amount: usize)
        requires
            old(self).resource_cards.amount(resource_card) + amount <= usize::MAX,
        ensures
            *final(self) == (Bank {
                resource_cards: old(self).resource_cards.with_amount(
                    resource_card,
                    (old(self).resource_cards.amount(resource_card) + amount) as usize,
                ),
                ..*old(self)
            }),
    {
        let num_in_pile = self.resource_cards.get(resource_card);
        self.resource_cards.set(resource_card, num_in_pile + amount);
    }

    pub fn amountOfResource(&self, resource: ResourceCard) -> (amount: usize)
        ensures
            amount == self.resource_cards.amount(resource),
    {
        self.resource_cards.get(resource)
    }
}

} // verus!
