use vstd::prelude::*;
use crate::chance::pick_one;
use crate::development::{DevelopmentCard, DevelopmentCounts};
use crate::resource::{ResourceCard, ResourceCounts};

verus! {

/// Settlements, cities and roads that a player starts with.
pub const STARTING_SETTLEMENTS: usize = 5;

pub const STARTING_CITIES: usize = 4;

pub const STARTING_ROADS: usize = 15;

/// One seat at the table.
///
/// `development_cards` are the cards that can be played now;
/// `development_cards_drawn_this_turn` are held back until the turn ends.
/// The three `*_placements` list, in order, the nodes and edges that the
/// player built on.
#[derive(Clone, Debug)]
pub struct Player {
    pub id: usize,
    pub num_unplaced_cities: usize,
    pub num_unplaced_settlements: usize,
    pub num_unplaced_roads: usize,
    pub resource_cards: ResourceCounts,
    pub development_cards: DevelopmentCounts,
    pub development_cards_drawn_this_turn: DevelopmentCounts,
    pub longest_road: bool,
    pub largest_army: bool,
    pub settlement_placements: Vec<usize>,
    pub road_placements: Vec<usize>,
    pub city_placements: Vec<usize>,
    pub victory_points: usize,
    pub num_knights_played: usize,
}

/// `count` copies of `kind` in a row.
pub open spec fn copies(kind: ResourceCard, count: nat) -> Seq<ResourceCard> {
    Seq::new(count, |i: int| kind)
}

/// A hand laid out card by card: the ore first, then wheat, sheep, brick
/// and lumber.
pub open spec fn laid_out(hand: ResourceCounts) -> Seq<ResourceCard> {
    copies(ResourceCard::Ore, hand.ore as nat) + copies(ResourceCard::Wheat, hand.wheat as nat)
        + copies(ResourceCard::Sheep, hand.sheep as nat) + copies(
        ResourceCard::Brick,
        hand.brick as nat,
    ) + copies(ResourceCard::Lumber, hand.lumber as nat)
}

/// Appends `count` copies of `kind` to `cards`.
fn push_copies(cards: &mut Vec<ResourceCard>, kind: ResourceCard, count: usize)
    ensures
        final(cards)@ == old(cards)@ + copies(kind, count as nat),
{
    let mut pushed: usize = 0;
    while pushed < count
        invariant
            pushed <= count,
            cards@ == old(cards)@ + copies(kind, pushed as nat),
        decreases count - pushed,
    {
        cards.push(kind);
        pushed += 1;
        assert(cards@ =~= old(cards)@ + copies(kind, pushed as nat));
    }
}

#[allow(non_snake_case)]
impl Player {
    /// Points that the two awards contribute: two for the longest road, two
    /// for the largest army.
    pub open spec fn award_points(self) -> nat {
        ((if self.longest_road { 2int } else { 0 }) + (if self.largest_army { 2int } else { 0 })) as nat
    }

    /// The score accounts for the awards held, and score and pieces still
    /// to place are together no more than the pieces and awards allow.
    pub open spec fn wf(self) -> bool {
        &&& self.award_points() <= self.victory_points
        &&& self.victory_points + self.num_unplaced_settlements + 2 * self.num_unplaced_cities
            <= STARTING_SETTLEMENTS + 2 * STARTING_CITIES + self.award_points()
    }

    /// The player as `self`, but with the hand `hand`.
    pub open spec fn with_hand(self, hand: ResourceCounts) -> Player {
        Player { resource_cards: hand, ..self }
    }

    /// A player who has placed nothing and holds nothing.
    pub fn new(id: usize) -> (player: Player)
        ensures
            player.wf(),
            player.id == id,
            player.num_unplaced_cities == STARTING_CITIES,
            player.num_unplaced_settlements == STARTING_SETTLEMENTS,
            player.num_unplaced_roads == STARTING_ROADS,
            player.resource_cards == ResourceCounts::none(),
            player.development_cards == DevelopmentCounts::none(),
            player.development_cards_drawn_this_turn == DevelopmentCounts::none(),
            !player.longest_road,
            !player.largest_army,
            player.settlement_placements@.len() == 0,
            player.road_placements@.len() == 0,
            player.city_placements@.len() == 0,
            player.victory_points == 0,
            player.num_knights_played == 0,
    {
        Player {
            id,
            num_unplaced_cities: 4,
            num_unplaced_settlements: 5,
            num_unplaced_roads: 15,
            resource_cards: ResourceCounts::empty(),
            development_cards: DevelopmentCounts::empty(),
            development_cards_drawn_this_turn: DevelopmentCounts::empty(),
            longest_road: false,
            largest_army: false,
            settlement_placements: Vec::new(),
            road_placements: Vec::new(),
            city_placements: Vec::new(),
            victory_points: 0,
            num_knights_played: 0,
        }
    }

    /// Takes `resources` out of the hand if the hand holds all of them, and
    /// nothing otherwise.
    pub fn removeCardsFromHand(&mut self, resources: ResourceCounts) -> (removed: bool)
        ensures
            removed == old(self).resource_cards.covers(resources),
            removed ==> *final(self) == old(self).with_hand(
                old(self).resource_cards.minus(resources),
            ),
            !removed ==> *final(self) == *old(self),
    {
        if !self.resource_cards.has(&resources) {
            return false;
        }
        self.resource_cards = self.resource_cards.reduced(&resources);
        true
    }

    /// Whether a card of this kind can be played now.
    pub fn hasDevelopmentCard(&self, development_card: DevelopmentCard) -> (held: bool)
        ensures
            held == (self.development_cards.amount(development_card) > 0),
    {
        self.development_cards.get(development_card) > 0
    }

    pub fn hasResourceCards(&self, resources: ResourceCounts) -> (held: bool)
        ensures
            held == self.resource_cards.covers(resources),
    {
        self.resource_cards.has(&resources)
    }

    /// Takes a card that was just drawn. It is held back until
    /// `moveDevelopmentCards`.
    pub fn addDevelopmentCard(&mut self, development_card: DevelopmentCard)
        requires
            old(self).development_cards_drawn_this_turn.amount(development_card) < usize::MAX,
        ensures
            *final(self) == (Player {
                development_cards_drawn_this_turn: old(self).development_cards_drawn_this_turn.with_amount(
                    development_card,
                    (old(self).development_cards_drawn_this_turn.amount(development_card)
                        + 1) as usize,
                ),
                ..*old(self)
            }),
    {
        let held = self.development_cards_drawn_this_turn.get(development_card);
        self.development_cards_drawn_this_turn.set(development_card, held + 1);
    }

    /// Gives up one playable card of this kind.
    pub fn removeDevelopmentCard(&mut self, development_card: DevelopmentCard)
        requires
            old(self).development_cards.amount(development_card) > 0,
        ensures
            *final(self) == (Player {
                development_cards: old(self).development_cards.with_amount(
                    development_card,
                    (old(self).development_cards.amount(development_card) - 1) as usize,
                ),
                ..*old(self)
            }),
    {
        let held = self.development_cards.get(development_card);
        self.development_cards.set(development_card, held - 1);
    }

    pub fn addResourceCards(&mut self, resources: ResourceCounts)
        requires
            old(self).resource_cards.fits(resources),
        ensures
            *final(self) == old(self).with_hand(old(self).resource_cards.plus(resources)),
    {
        self.resource_cards = self.resource_cards.combined(&resources);
    }

    /// Picks one card of the hand, every card being as likely as any other,
    /// and says which kind it is, or `None` where the hand is empty. The
    /// hand stays as it is.
    pub fn pickCard(&self) -> (picked: Option<ResourceCard>)
        ensures
            picked is None <==> self.resource_cards.total() == 0,
            picked matches Some(kind) ==> self.resource_cards.amount(kind) > 0,
    {
        let mut available_cards: Vec<ResourceCard> = Vec::new();
        push_copies(&mut available_cards, ResourceCard::Ore, self.resource_cards.ore);
        push_copies(&mut available_cards, ResourceCard::Wheat, self.resource_cards.wheat);
        push_copies(&mut available_cards, ResourceCard::Sheep, self.resource_cards.sheep);
        push_copies(&mut available_cards, ResourceCard::Brick, self.resource_cards.brick);
        push_copies(&mut available_cards, ResourceCard::Lumber, self.resource_cards.lumber);
        assert(available_cards@ =~= laid_out(self.resource_cards));
        let picked = pick_one(&available_cards);
        proof {
            match picked {
                Some(kind) => {
                    lemma_laid_out_holds(self.resource_cards, kind);
                },
                None => {
                    lemma_laid_out_holds(self.resource_cards, ResourceCard::Ore);
                },
            }
        }
        picked
    }

    /// Loses one card, every card of the hand being as likely as any other.
    /// Says which kind it was, or `None` where the hand is empty.
    pub fn stealCard(&mut self) -> (stolen: Option<ResourceCard>)
        ensures
            stolen is None <==> old(self).resource_cards.total() == 0,
            stolen is None ==> *final(self) == *old(self),
            stolen matches Some(kind) ==> old(self).resource_cards.amount(kind) > 0 && *final(self)
                == old(self).with_hand(
                old(self).resource_cards.with_amount(
                    kind,
                    (old(self).resource_cards.amount(kind) - 1) as usize,
                ),
            ),
    {
        match self.pickCard() {
            None => None,
            Some(chosen_card) => {
                let held = self.resource_cards.get(chosen_card);
                self.resource_cards.set(chosen_card, held - 1);
                Some(chosen_card)
            },
        }
    }

    /// Empties the hand of one kind and says how many cards that were.
    pub fn removeAllResourcesFromHand(&mut self, resource: ResourceCard) -> (amount_in_hand: usize)
        ensures
            amount_in_hand == old(self).resource_cards.amount(resource),
            *final(self) == old(self).with_hand(old(self).resource_cards.with_amount(resource, 0)),
    {
        let amount_in_hand = self.resource_cards.get(resource);
        self.resource_cards.set(resource, 0);
        amount_in_hand
    }

    pub fn addResourceCard(&mut self, resource: ResourceCard)
        requires
            old(self).resource_cards.amount(resource) < usize::MAX,
        ensures
            *final(self) == old(self).with_hand(
                old(self).resource_cards.with_amount(
                    resource,
                    (old(self).resource_cards.amount(resource) + 1) as usize,
                ),
            ),
    {
        let held = self.resource_cards.get(resource);
        self.resource_cards.set(resource, held + 1);
    }

    pub fn addResourceCardAmount(&mut self, resource: ResourceCard, amount: usize)
        requires
            old(self).resource_cards.amount(resource) + amount <= usize::MAX,
        ensures
            *final(self) == old(self).with_hand(
                old(self).resource_cards.with_amount(
                    resource,
                    (old(self).resource_cards.amount(resource) + amount) as usize,
                ),
            ),
    {
        let held = self.resource_cards.get(resource);
        self.resource_cards.set(resource, held + amount);
    }

    /// Makes the cards that were held back playable, at the end of a turn.
    pub fn moveDevelopmentCards(&mut self)
        requires
            forall|card: DevelopmentCard|
                old(self).development_cards.amount(card) + old(self).development_cards_drawn_this_turn.amount(card) <= usize::MAX,
        ensures
            forall|card: DevelopmentCard|
                final(self).development_cards.amount(card) == old(self).development_cards.amount(
                    card,
                ) + old(self).development_cards_drawn_this_turn.amount(card),
            final(self).development_cards_drawn_this_turn == DevelopmentCounts::none(),
            *final(self) == (Player {
                development_cards: final(self).development_cards,
                development_cards_drawn_this_turn: final(self).development_cards_drawn_this_turn,
                ..*old(self)
            }),
    {
        let usable = self.development_cards;
        let staged = self.development_cards_drawn_this_turn;
        proof {
            assert(usable.amount(DevelopmentCard::Knight) + staged.amount(DevelopmentCard::Knight)
                <= usize::MAX);
            assert(usable.amount(DevelopmentCard::RoadBuilding) + staged.amount(
                DevelopmentCard::RoadBuilding,
            ) <= usize::MAX);
            assert(usable.amount(DevelopmentCard::YearOfPlenty) + staged.amount(
                DevelopmentCard::YearOfPlenty,
            ) <= usize::MAX);
            assert(usable.amount(DevelopmentCard::Monopoly) + staged.amount(
                DevelopmentCard::Monopoly,
            ) <= usize::MAX);
            assert(usable.amount(DevelopmentCard::VictoryPoint) + staged.amount(
                DevelopmentCard::VictoryPoint,
            ) <= usize::MAX);
        }
        self.development_cards = DevelopmentCounts {
            knight: usable.knight + staged.knight,
            road_building: usable.road_building + staged.road_building,
            year_of_plenty: usable.year_of_plenty + staged.year_of_plenty,
            monopoly: usable.monopoly + staged.monopoly,
            victory_point: usable.victory_point + staged.victory_point,
        };
        self.development_cards_drawn_this_turn = DevelopmentCounts::empty();
    }
}

/// A card that lies in the laid-out hand is of a kind that the hand holds,
/// and the laid-out hand has as many cards as the hand.
pub proof fn lemma_laid_out_holds(hand: ResourceCounts, card: ResourceCard)
    ensures
        laid_out(hand).len() == hand.total(),
        laid_out(hand).contains(card) ==> hand.amount(card) > 0,
{
    if laid_out(hand).contains(card) {
        let i = choose|i: int| 0 <= i < laid_out(hand).len() && laid_out(hand)[i] == card;
        assert(laid_out(hand)[i] == card);
    }
}

} // verus!
