use vstd::prelude::*;
use crate::bank::{Bank, DEVELOPMENT_STACK, RESOURCE_SUPPLY};
use crate::board::{pairs_within, Board, EDGE_COUNT, NODE_COUNT, TILE_COUNT};
use crate::development::{DevelopmentCard, DevelopmentCounts};
use crate::player::Player;
use crate::resource::{lemma_minus, lemma_plus, lemma_with_amount, ResourceCard, ResourceCounts};
use crate::trade_offer::TradeOffer;

verus! {

/// The game is in its setup phase while fewer placements than this have
/// been made.
pub const SETUP_TURNS: i32 = 7;

/// A road counts as the longest only from this length on.
pub const LONGEST_ROAD_MINIMUM: usize = 5;

/// An army counts as the largest only from this many knights on.
pub const LARGEST_ARMY_MINIMUM: usize = 3;

/// One game: four players, the board, the bank, and whose turn it is.
///
/// `players_accepted_trade_offer[p]` says whether player `p` has accepted
/// an offer. `previous_dice_roll` is the last total thrown.
#[derive(Clone, Debug)]
pub struct Game {
    pub players: [Player; 4],
    pub board: Board,
    pub bank: Bank,
    pub turn_number: i32,
    pub current_player_id: usize,
    pub current_trade_offer: Option<TradeOffer>,
    pub rolled_dice_this_turn: bool,
    pub previous_dice_roll: usize,
    pub players_accepted_trade_offer: [bool; 4],
}

/// `player` is sound on seat `seat` when `drawn` development cards have left
/// the stack: the player carries the seat's number, keeps a sound score,
/// holds of no development card more than were drawn, has played no more
/// knights than that allows, and has recorded roads on edges of the map only.
#[verifier::opaque]
pub open spec fn seat_ok(player: Player, seat: int, drawn: usize) -> bool {
    &&& player.id == seat
    &&& player.wf()
    &&& forall|card: DevelopmentCard|
        player.development_cards.amount(card) + #[trigger] player.development_cards_drawn_this_turn.amount(
            card,
        ) <= drawn
    &&& player.num_knights_played + player.development_cards.amount(DevelopmentCard::Knight)
        + player.development_cards_drawn_this_turn.amount(DevelopmentCard::Knight) <= drawn
    &&& forall|k: int|
        0 <= k < player.road_placements@.len() ==> #[trigger] player.road_placements@[k] < EDGE_COUNT
}

/// The sum of four numbers changes by `gain` where one of them does.
pub proof fn lemma_four_one_changed(a: spec_fn(int) -> int, b: spec_fn(int) -> int, p: int, gain: int)
    requires
        0 <= p < 4,
        b(p) == a(p) + gain,
        forall|q: int| 0 <= q < 4 && q != p ==> #[trigger] b(q) == a(q),
    ensures
        b(0) + b(1) + b(2) + b(3) == a(0) + a(1) + a(2) + a(3) + gain,
{
    assert(b(0) == if p == 0 { a(0) + gain } else { a(0) });
    assert(b(1) == if p == 1 { a(1) + gain } else { a(1) });
    assert(b(2) == if p == 2 { a(2) + gain } else { a(2) });
    assert(b(3) == if p == 3 { a(3) + gain } else { a(3) });
}

/// The sum of four numbers stays where one of them gives to another.
pub proof fn lemma_four_shifted(
    a: spec_fn(int) -> int,
    b: spec_fn(int) -> int,
    from: int,
    to: int,
    amount: int,
)
    requires
        0 <= from < 4,
        0 <= to < 4,
        from != to,
        b(from) == a(from) - amount,
        b(to) == a(to) + amount,
        forall|q: int| 0 <= q < 4 && q != from && q != to ==> #[trigger] b(q) == a(q),
    ensures
        b(0) + b(1) + b(2) + b(3) == a(0) + a(1) + a(2) + a(3),
{
    let m = |q: int| if q == from { a(q) - amount } else { a(q) };
    lemma_four_one_changed(a, m, from, -amount);
    lemma_four_one_changed(m, b, to, amount);
}

/// The seat after `player`, going round the table.
pub open spec fn next_seat(player: usize) -> usize {
    ((player + 1) % 4) as usize
}

#[allow(non_snake_case)]
impl Game {
    /// Cards of `kind` in the four hands together.
    pub open spec fn in_hands(self, kind: ResourceCard) -> nat {
        self.players[0].resource_cards.amount(kind) + self.players[1].resource_cards.amount(kind)
            + self.players[2].resource_cards.amount(kind) + self.players[3].resource_cards.amount(
            kind,
        )
    }

    /// Cards of `kind` in the bank and the four hands together.
    pub open spec fn circulation(self, kind: ResourceCard) -> nat {
        self.bank.resource_cards.amount(kind) + self.in_hands(kind)
    }

    /// Of every kind, as many cards are in the game in `post` as in `self`.
    pub open spec fn same_supply(self, post: Game) -> bool {
        forall|kind: ResourceCard| post.circulation(kind) == self.circulation(kind)
    }

    /// Of every kind, bank and hands together hold the 19 cards that the
    /// game started with.
    pub open spec fn conserved(self) -> bool {
        &&& self.circulation(ResourceCard::Ore) == RESOURCE_SUPPLY
        &&& self.circulation(ResourceCard::Wheat) == RESOURCE_SUPPLY
        &&& self.circulation(ResourceCard::Sheep) == RESOURCE_SUPPLY
        &&& self.circulation(ResourceCard::Brick) == RESOURCE_SUPPLY
        &&& self.circulation(ResourceCard::Lumber) == RESOURCE_SUPPLY
    }

    /// Year-of-plenty cards that player `p` holds, playable or held back.
    pub open spec fn plenty_held(self, p: int) -> nat {
        self.players[p].development_cards.amount(DevelopmentCard::YearOfPlenty)
            + self.players[p].development_cards_drawn_this_turn.amount(
            DevelopmentCard::YearOfPlenty,
        )
    }

    /// Cards that years of plenty may still add to the game: two for each
    /// such card in a hand, and two for each card still in the stack.
    pub open spec fn plenty_to_come(self) -> nat {
        2 * (self.plenty_held(0) + self.plenty_held(1) + self.plenty_held(2) + self.plenty_held(3))
            + 2 * self.bank.cards_left()
    }

    /// The cards of `kind` in the game, and those that may still be added,
    /// are no more than the starting supply and two for every development
    /// card.
    pub open spec fn supply_bounded(self, kind: ResourceCard) -> bool {
        self.circulation(kind) + self.plenty_to_come() <= RESOURCE_SUPPLY + 2 * DEVELOPMENT_STACK
    }

    /// Player `p` is sound on seat `p` (see `seat_ok`).
    pub open spec fn player_ok(self, p: int) -> bool {
        seat_ok(self.players[p], p, self.bank.development_card_pointer)
    }

    /// All four players are sound on their seats.
    pub open spec fn seats_ok(self) -> bool {
        &&& self.player_ok(0)
        &&& self.player_ok(1)
        &&& self.player_ok(2)
        &&& self.player_ok(3)
    }

    /// Of no kind are there more cards in the game than the starting supply
    /// and the years of plenty allow.
    pub open spec fn supply_ok(self) -> bool {
        &&& self.supply_bounded(ResourceCard::Ore)
        &&& self.supply_bounded(ResourceCard::Wheat)
        &&& self.supply_bounded(ResourceCard::Sheep)
        &&& self.supply_bounded(ResourceCard::Brick)
        &&& self.supply_bounded(ResourceCard::Lumber)
    }

    /// At most one player holds the award for the longest road, and at most
    /// one the award for the largest army.
    pub open spec fn awards_single(self) -> bool {
        &&& forall|p: int, q: int|
            0 <= p < q < 4 ==> !(#[trigger] self.players[p].longest_road
                && #[trigger] self.players[q].longest_road)
        &&& forall|p: int, q: int|
            0 <= p < q < 4 ==> !(#[trigger] self.players[p].largest_army
                && #[trigger] self.players[q].largest_army)
    }

    /// What every action keeps true of a game.
    #[verifier::opaque]
    pub open spec fn wf(self) -> bool {
        &&& self.board.wf()
        &&& self.bank.wf()
        &&& self.current_player_id < 4
        &&& self.seats_ok()
        &&& self.awards_single()
        &&& (self.current_trade_offer matches Some(offer) ==> offer.player_offerer_id < 4)
        &&& self.supply_ok()
    }

    /// The game is still in its setup phase.
    pub open spec fn in_setup(self) -> bool {
        self.turn_number < SETUP_TURNS
    }

    /// Nothing that can be observed differs between `self` and `pre`.
    pub open spec fn unchanged_from(self, pre: Game) -> bool {
        &&& self.players == pre.players
        &&& self.board.same_as(pre.board)
        &&& self.bank == pre.bank
        &&& self.turn_number == pre.turn_number
        &&& self.current_player_id == pre.current_player_id
        &&& self.current_trade_offer == pre.current_trade_offer
        &&& self.rolled_dice_this_turn == pre.rolled_dice_this_turn
        &&& self.previous_dice_roll == pre.previous_dice_roll
        &&& self.players_accepted_trade_offer == pre.players_accepted_trade_offer
    }

    /// Holds of a game in which nothing has happened yet: it is the first
    /// player's turn in the setup phase, no offer stands, no development
    /// card is drawn, and no player holds, has placed or has scored anything.
    pub open spec fn fresh(self) -> bool {
        &&& self.turn_number == 0
        &&& self.current_player_id == 0
        &&& self.current_trade_offer is None
        &&& !self.rolled_dice_this_turn
        &&& self.previous_dice_roll == 0
        &&& forall|p: int| 0 <= p < 4 ==> !#[trigger] self.players_accepted_trade_offer[p]
        &&& self.bank.development_card_pointer == 0
        &&& forall|p: int|
            0 <= p < 4 ==> {
                let player = #[trigger] self.players[p];
                &&& player.id == p
                &&& player.num_unplaced_cities == crate::player::STARTING_CITIES
                &&& player.num_unplaced_settlements == crate::player::STARTING_SETTLEMENTS
                &&& player.num_unplaced_roads == crate::player::STARTING_ROADS
                &&& player.resource_cards == ResourceCounts::none()
                &&& player.development_cards == DevelopmentCounts::none()
                &&& player.development_cards_drawn_this_turn == DevelopmentCounts::none()
                &&& player.victory_points == 0
                &&& player.num_knights_played == 0
                &&& !player.longest_road
                &&& !player.largest_army
                &&& player.settlement_placements@.len() == 0
                &&& player.city_placements@.len() == 0
                &&& player.road_placements@.len() == 0
            }
    }

    /// A game about to start with the given board and the given bank.
    pub fn start(board: Board, bank: Bank) -> (game: Game)
        requires
            board.wf(),
            bank.wf(),
            bank.development_card_pointer == 0,
            forall|kind: ResourceCard| bank.resource_cards.amount(kind) == RESOURCE_SUPPLY,
        ensures
            game.wf(),
            game.board == board,
            game.bank == bank,
            game.fresh(),
            game.conserved(),
            game.in_setup(),
    {
        let players = [Player::new(0), Player::new(1), Player::new(2), Player::new(3)];
        let game = Game {
            players,
            board,
            bank,
            turn_number: 0,
            current_player_id: 0,
            current_trade_offer: None,
            rolled_dice_this_turn: false,
            previous_dice_roll: 0,
            players_accepted_trade_offer: [false, false, false, false],
        };
        proof {
            reveal(Game::wf);
            reveal(seat_ok);
            assert(game.player_ok(0));
            assert(game.player_ok(1));
            assert(game.player_ok(2));
            assert(game.player_ok(3));
            assert(bank.resource_cards.amount(ResourceCard::Ore) == RESOURCE_SUPPLY);
            assert(bank.resource_cards.amount(ResourceCard::Wheat) == RESOURCE_SUPPLY);
            assert(bank.resource_cards.amount(ResourceCard::Sheep) == RESOURCE_SUPPLY);
            assert(bank.resource_cards.amount(ResourceCard::Brick) == RESOURCE_SUPPLY);
            assert(bank.resource_cards.amount(ResourceCard::Lumber) == RESOURCE_SUPPLY);
        }
        game
    }

    /// A game about to start, on a new board with the given neighbourhoods
    /// (see `Board::new`) and with a new bank (see `Bank::new`).
    pub fn new(node_edges: &Vec<(usize, usize)>, tile_nodes: &Vec<(usize, usize)>) -> (game: Game)
        requires
            pairs_within(node_edges@, NODE_COUNT as nat, EDGE_COUNT as nat),
            pairs_within(tile_nodes@, TILE_COUNT as nat, NODE_COUNT as nat),
        ensures
            game.wf(),
            game.fresh(),
            game.board.newly_built(node_edges@, tile_nodes@),
            game.bank.full(),
            game.conserved(),
            game.in_setup(),
    {
        let board = Board::new(node_edges, tile_nodes);
        let bank = Bank::new();
        Game::start(board, bank)
    }

    /// Starts over: new players, a new bank, and a new board with the given
    /// neighbourhoods.
    pub fn reset(&mut self, node_edges: &Vec<(usize, usize)>, tile_nodes: &Vec<(usize, usize)>)
        requires
            pairs_within(node_edges@, NODE_COUNT as nat, EDGE_COUNT as nat),
            pairs_within(tile_nodes@, TILE_COUNT as nat, NODE_COUNT as nat),
        ensures
            final(self).wf(),
            final(self).fresh(),
            final(self).board.newly_built(node_edges@, tile_nodes@),
            final(self).bank.full(),
            final(self).conserved(),
            final(self).in_setup(),
    {
        *self = Game::new(node_edges, tile_nodes);
    }

    /// Whose turn it is, what was thrown, and what offer stands are the
    /// same in `post` as in `self`.
    pub open spec fn same_turn(self, post: Game) -> bool {
        &&& post.turn_number == self.turn_number
        &&& post.current_player_id == self.current_player_id
        &&& post.current_trade_offer == self.current_trade_offer
        &&& post.rolled_dice_this_turn == self.rolled_dice_this_turn
        &&& post.previous_dice_roll == self.previous_dice_roll
        &&& post.players_accepted_trade_offer == self.players_accepted_trade_offer
    }

    /// `post` differs from `self` in the numbers of resource cards only,
    /// in the hands and in the bank.
    pub open spec fn only_cards_moved(self, post: Game) -> bool {
        &&& post.board == self.board
        &&& post.turn_number == self.turn_number
        &&& post.current_player_id == self.current_player_id
        &&& post.current_trade_offer == self.current_trade_offer
        &&& post.rolled_dice_this_turn == self.rolled_dice_this_turn
        &&& post.previous_dice_roll == self.previous_dice_roll
        &&& post.players_accepted_trade_offer == self.players_accepted_trade_offer
        &&& post.bank.development_cards == self.bank.development_cards
        &&& post.bank.development_card_pointer == self.bank.development_card_pointer
        &&& forall|p: int|
            0 <= p < 4 ==> #[trigger] post.players[p] == self.players[p].with_hand(
                post.players[p].resource_cards,
            )
    }

    /// `post` differs from `self` in player `p` only.
    pub open spec fn only_player_changed(self, post: Game, p: int) -> bool {
        &&& post.board == self.board
        &&& post.bank == self.bank
        &&& post.turn_number == self.turn_number
        &&& post.current_player_id == self.current_player_id
        &&& post.current_trade_offer == self.current_trade_offer
        &&& post.rolled_dice_this_turn == self.rolled_dice_this_turn
        &&& post.previous_dice_roll == self.previous_dice_roll
        &&& post.players_accepted_trade_offer == self.players_accepted_trade_offer
        &&& forall|q: int| 0 <= q < 4 && q != p ==> #[trigger] post.players[q] == self.players[q]
    }

    /// What a well-formed game is made of.
    pub proof fn lemma_wf_parts(self)
        requires
            self.wf(),
        ensures
            self.board.wf(),
            self.bank.wf(),
            self.current_player_id < 4,
            self.seats_ok(),
            self.awards_single(),
            self.current_trade_offer matches Some(offer) ==> offer.player_offerer_id < 4,
            self.supply_ok(),
    {
        reveal(Game::wf);
    }

    /// A game made of sound parts is well formed.
    pub proof fn lemma_wf_from_parts(self)
        requires
            self.board.wf(),
            self.bank.wf(),
            self.current_player_id < 4,
            self.seats_ok(),
            self.awards_single(),
            self.current_trade_offer matches Some(offer) ==> offer.player_offerer_id < 4,
            self.supply_ok(),
        ensures
            self.wf(),
    {
        reveal(Game::wf);
    }

    /// What a sound player is made of.
    pub proof fn lemma_seat(self, p: int)
        requires
            self.seats_ok(),
            0 <= p < 4,
        ensures
            self.player_ok(p),
            self.players[p].id == p,
            self.players[p].wf(),
            forall|card: DevelopmentCard|
                self.players[p].development_cards.amount(card)
                    + #[trigger] self.players[p].development_cards_drawn_this_turn.amount(card)
                    <= self.bank.development_card_pointer,
            self.players[p].num_knights_played + self.players[p].development_cards.amount(
                DevelopmentCard::Knight,
            ) + self.players[p].development_cards_drawn_this_turn.amount(DevelopmentCard::Knight)
                <= self.bank.development_card_pointer,
            forall|k: int|
                0 <= k < self.players[p].road_placements@.len()
                    ==> #[trigger] self.players[p].road_placements@[k] < EDGE_COUNT,
    {
        reveal(seat_ok);
        assert(self.player_ok(p)) by {
            if p == 0 {
            } else if p == 1 {
            } else if p == 2 {
            } else {
            }
        }
    }

    /// The bound on the supply, for any one kind.
    pub proof fn lemma_supply(self, kind: ResourceCard)
        requires
            self.supply_ok(),
        ensures
            self.supply_bounded(kind),
            self.circulation(kind) <= RESOURCE_SUPPLY + 2 * DEVELOPMENT_STACK,
    {
        match kind {
            ResourceCard::Ore => {},
            ResourceCard::Wheat => {},
            ResourceCard::Sheep => {},
            ResourceCard::Brick => {},
            ResourceCard::Lumber => {},
        }
    }

    /// The players stay sound where all but one stay as they are, that one
    /// is sound, and the stack is where it was.
    pub proof fn lemma_seats_kept(self, pre: Game, p: int)
        requires
            pre.seats_ok(),
            0 <= p < 4,
            forall|q: int| 0 <= q < 4 && q != p ==> #[trigger] self.players[q] == pre.players[q],
            self.player_ok(p),
            self.bank.development_card_pointer == pre.bank.development_card_pointer,
        ensures
            self.seats_ok(),
    {
        assert(self.player_ok(0)) by {
            if p != 0 {
                assert(self.players[0] == pre.players[0]);
            }
        }
        assert(self.player_ok(1)) by {
            if p != 1 {
                assert(self.players[1] == pre.players[1]);
            }
        }
        assert(self.player_ok(2)) by {
            if p != 2 {
                assert(self.players[2] == pre.players[2]);
            }
        }
        assert(self.player_ok(3)) by {
            if p != 3 {
                assert(self.players[3] == pre.players[3]);
            }
        }
    }

    /// A player stays sound where only the hand changes.
    pub proof fn lemma_seat_with_hand(player: Player, seat: int, drawn: usize, hand: ResourceCounts)
        requires
            seat_ok(player, seat, drawn),
        ensures
            seat_ok(player.with_hand(hand), seat, drawn),
    {
        reveal(seat_ok);
    }

    /// The awards stay with single players where every player keeps what
    /// awards they hold.
    pub proof fn lemma_awards_kept(self, pre: Game)
        requires
            pre.awards_single(),
            forall|q: int|
                0 <= q < 4 ==> (#[trigger] self.players[q]).longest_road
                    == pre.players[q].longest_road && self.players[q].largest_army
                    == pre.players[q].largest_army,
        ensures
            self.awards_single(),
    {
        assert forall|a: int, b: int| 0 <= a < b < 4 implies !(
        #[trigger] self.players[a].longest_road && #[trigger] self.players[b].longest_road) by {
            assert(self.players[a].longest_road == pre.players[a].longest_road);
            assert(self.players[b].longest_road == pre.players[b].longest_road);
            assert(!(pre.players[a].longest_road && pre.players[b].longest_road));
        }
        assert forall|a: int, b: int| 0 <= a < b < 4 implies !(
        #[trigger] self.players[a].largest_army && #[trigger] self.players[b].largest_army) by {
            assert(self.players[a].largest_army == pre.players[a].largest_army);
            assert(self.players[b].largest_army == pre.players[b].largest_army);
            assert(!(pre.players[a].largest_army && pre.players[b].largest_army));
        }
    }

    /// The supply stays within its bound where, of no kind, more cards are
    /// in the game than before, and no more can still be added.
    pub proof fn lemma_supply_kept(self, pre: Game)
        requires
            pre.supply_ok(),
            forall|kind: ResourceCard| self.circulation(kind) <= pre.circulation(kind),
            self.plenty_to_come() <= pre.plenty_to_come(),
        ensures
            self.supply_ok(),
    {
        assert(self.circulation(ResourceCard::Ore) <= pre.circulation(ResourceCard::Ore));
        assert(self.circulation(ResourceCard::Wheat) <= pre.circulation(ResourceCard::Wheat));
        assert(self.circulation(ResourceCard::Sheep) <= pre.circulation(ResourceCard::Sheep));
        assert(self.circulation(ResourceCard::Brick) <= pre.circulation(ResourceCard::Brick));
        assert(self.circulation(ResourceCard::Lumber) <= pre.circulation(ResourceCard::Lumber));
    }

    /// As many cards are in the game as before where every hand and the
    /// bank hold what they held.
    pub proof fn lemma_circulation_kept(self, pre: Game)
        requires
            forall|q: int|
                0 <= q < 4 ==> (#[trigger] self.players[q]).resource_cards
                    == pre.players[q].resource_cards,
            self.bank.resource_cards == pre.bank.resource_cards,
        ensures
            forall|kind: ResourceCard| self.circulation(kind) == pre.circulation(kind),
    {
        assert(self.players[0].resource_cards == pre.players[0].resource_cards);
        assert(self.players[1].resource_cards == pre.players[1].resource_cards);
        assert(self.players[2].resource_cards == pre.players[2].resource_cards);
        assert(self.players[3].resource_cards == pre.players[3].resource_cards);
    }

    /// As many years of plenty are to come as before where every player
    /// holds the development cards held before and the stack is where it was.
    pub proof fn lemma_plenty_kept(self, pre: Game)
        requires
            forall|q: int|
                0 <= q < 4 ==> (#[trigger] self.players[q]).development_cards
                    == pre.players[q].development_cards
                    && self.players[q].development_cards_drawn_this_turn
                    == pre.players[q].development_cards_drawn_this_turn,
            self.bank.development_card_pointer == pre.bank.development_card_pointer,
        ensures
            self.plenty_to_come() == pre.plenty_to_come(),
    {
        assert(self.players[0].development_cards == pre.players[0].development_cards);
        assert(self.players[1].development_cards == pre.players[1].development_cards);
        assert(self.players[2].development_cards == pre.players[2].development_cards);
        assert(self.players[3].development_cards == pre.players[3].development_cards);
    }

    /// A game stays well formed where only resource cards move and, of no
    /// kind, more cards are in the game than before.
    pub proof fn lemma_cards_moved_keeps_wf(self, pre: Game)
        requires
            pre.wf(),
            pre.only_cards_moved(self),
            forall|kind: ResourceCard| self.circulation(kind) <= pre.circulation(kind),
        ensures
            self.wf(),
    {
        pre.lemma_wf_parts();
        assert forall|q: int| 0 <= q < 4 implies self.player_ok(q) by {
            pre.lemma_seat(q);
            assert(self.players[q] == pre.players[q].with_hand(self.players[q].resource_cards));
            Game::lemma_seat_with_hand(
                pre.players[q],
                q,
                pre.bank.development_card_pointer,
                self.players[q].resource_cards,
            );
        }
        assert(self.seats_ok());
        assert forall|q: int| 0 <= q < 4 implies (#[trigger] self.players[q]).longest_road
            == pre.players[q].longest_road && self.players[q].largest_army
            == pre.players[q].largest_army && self.players[q].development_cards
            == pre.players[q].development_cards
            && self.players[q].development_cards_drawn_this_turn
            == pre.players[q].development_cards_drawn_this_turn by {
            assert(self.players[q] == pre.players[q].with_hand(self.players[q].resource_cards));
        }
        self.lemma_awards_kept(pre);
        self.lemma_plenty_kept(pre);
        self.lemma_supply_kept(pre);
        self.lemma_wf_from_parts();
    }

    /// A game stays well formed where players and bank stay as they are,
    /// the board stays well formed, and the turn and the offer name players.
    pub proof fn lemma_frame_keeps_wf(self, pre: Game)
        requires
            pre.wf(),
            self.players == pre.players,
            self.bank == pre.bank,
            self.board.wf(),
            self.current_player_id < 4,
            self.current_trade_offer matches Some(offer) ==> offer.player_offerer_id < 4,
        ensures
            self.wf(),
            pre.same_supply(self),
    {
        pre.lemma_wf_parts();
        self.lemma_awards_kept(pre);
        self.lemma_circulation_kept(pre);
        self.lemma_plenty_kept(pre);
        self.lemma_supply_kept(pre);
        self.lemma_wf_from_parts();
    }

    /// A game stays well formed where one player changes and stays sound,
    /// with the same cards in hand, the same awards, and no more years of
    /// plenty.
    pub proof fn lemma_player_changed_keeps_wf(self, pre: Game, p: int)
        requires
            pre.wf(),
            0 <= p < 4,
            pre.only_player_changed(self, p),
            self.player_ok(p),
            self.players[p].resource_cards == pre.players[p].resource_cards,
            self.plenty_held(p) <= pre.plenty_held(p),
            self.players[p].longest_road == pre.players[p].longest_road,
            self.players[p].largest_army == pre.players[p].largest_army,
        ensures
            self.wf(),
            pre.same_supply(self),
    {
        pre.lemma_wf_parts();
        self.lemma_seats_kept(pre, p);
        assert forall|q: int| 0 <= q < 4 implies (#[trigger] self.players[q]).longest_road
            == pre.players[q].longest_road && self.players[q].largest_army
            == pre.players[q].largest_army && self.players[q].resource_cards
            == pre.players[q].resource_cards by {
            if q != p {
                assert(self.players[q] == pre.players[q]);
            }
        }
        self.lemma_awards_kept(pre);
        self.lemma_circulation_kept(pre);
        assert(self.plenty_to_come() <= pre.plenty_to_come()) by {
            let a = |q: int| pre.plenty_held(q) as int;
            let b = |q: int| self.plenty_held(q) as int;
            assert forall|q: int| 0 <= q < 4 && q != p implies #[trigger] b(q) == a(q) by {
                assert(self.players[q] == pre.players[q]);
            }
            lemma_four_one_changed(a, b, p, self.plenty_held(p) - pre.plenty_held(p));
        }
        self.lemma_supply_kept(pre);
        self.lemma_wf_from_parts();
    }

    /// Carrying on from `self` to `mid` and from `mid` to `post`, only
    /// resource cards have moved.
    pub proof fn lemma_cards_moved_twice(self, mid: Game, post: Game)
        requires
            self.only_cards_moved(mid),
            mid.only_cards_moved(post),
        ensures
            self.only_cards_moved(post),
    {
        assert forall|p: int| 0 <= p < 4 implies #[trigger] post.players[p]
            == self.players[p].with_hand(post.players[p].resource_cards) by {
            assert(mid.players[p] == self.players[p].with_hand(mid.players[p].resource_cards));
        }
    }

    /// Moves `amount` cards of `kind` from the bank to the hand of `player`.
    #[verifier::rlimit(30)]
    pub fn give(&mut self, player: usize, kind: ResourceCard, amount: usize)
        requires
            old(self).wf(),
            player < 4,
            amount <= old(self).bank.resource_cards.amount(kind),
        ensures
            final(self).wf(),
            old(self).only_cards_moved(*final(self)),
            final(self).players[player as int].resource_cards.amount(kind) == old(
                self,
            ).players[player as int].resource_cards.amount(kind) + amount,
            final(self).bank.resource_cards.amount(kind) == old(self).bank.resource_cards.amount(
                kind,
            ) - amount,
            forall|q: int| 0 <= q < 4 && q != player ==> final(self).players[q] == old(self).players[q],
            forall|other: ResourceCard|
                other != kind ==> final(self).players[player as int].resource_cards.amount(other)
                    == old(self).players[player as int].resource_cards.amount(other)
                    && #[trigger] final(self).bank.resource_cards.amount(other) == old(
                    self,
                ).bank.resource_cards.amount(other),
            old(self).same_supply(*final(self)),
    {
        proof {
            old(self).lemma_wf_parts();
            old(self).lemma_supply(kind);
            old(self).lemma_hand_within_circulation(player as int, kind);
        }
        self.bank.drawNumberOfResourceCards(kind, amount);
        self.players[player].addResourceCardAmount(kind, amount);
        proof {
            lemma_with_amount(
                old(self).bank.resource_cards,
                kind,
                (old(self).bank.resource_cards.amount(kind) - amount) as usize,
            );
            lemma_with_amount(
                old(self).players[player as int].resource_cards,
                kind,
                (old(self).players[player as int].resource_cards.amount(kind) + amount) as usize,
            );
            assert forall|k: ResourceCard| self.circulation(k) == old(self).circulation(k) by {
                let a = |q: int| old(self).players[q].resource_cards.amount(k) as int;
                let b = |q: int| self.players[q].resource_cards.amount(k) as int;
                let gain: int = if k == kind { amount as int } else { 0 };
                assert(b(player as int) == a(player as int) + gain);
                lemma_four_one_changed(a, b, player as int, gain);
            }
            self.lemma_cards_moved_keeps_wf(*old(self));
        }
    }

    /// No hand holds more cards of a kind than are in the game.
    pub proof fn lemma_hand_within_circulation(self, p: int, kind: ResourceCard)
        requires
            0 <= p < 4,
        ensures
            self.players[p].resource_cards.amount(kind) + self.bank.resource_cards.amount(kind)
                <= self.circulation(kind),
    {
        if p == 0 {
        } else if p == 1 {
        } else if p == 2 {
        } else {
        }
    }

    /// No two hands hold more cards of a kind than are in the game.
    pub proof fn lemma_hands_within_circulation(self, p: int, q: int, kind: ResourceCard)
        requires
            0 <= p < 4,
            0 <= q < 4,
            p != q,
        ensures
            self.players[p].resource_cards.amount(kind) + self.players[q].resource_cards.amount(
                kind,
            ) <= self.circulation(kind),
    {
        let a = |i: int| self.players[i].resource_cards.amount(kind) as int;
        let m = |i: int| if i == p { 0int } else { a(i) };
        let z = |i: int| if i == p || i == q { 0int } else { a(i) };
        lemma_four_one_changed(a, m, p, -a(p));
        lemma_four_one_changed(m, z, q, -a(q));
        assert(z(0) >= 0 && z(1) >= 0 && z(2) >= 0 && z(3) >= 0);
    }

    /// Moves `cost` from the hand of `player` to the bank.
    pub fn collect(&mut self, player: usize, cost: ResourceCounts)
        requires
            old(self).wf(),
            player < 4,
            old(self).players[player as int].resource_cards.covers(cost),
        ensures
            final(self).wf(),
            old(self).only_cards_moved(*final(self)),
            final(self).players[player as int].resource_cards == old(
                self,
            ).players[player as int].resource_cards.minus(cost),
            final(self).bank.resource_cards == old(self).bank.resource_cards.plus(cost),
            forall|q: int| 0 <= q < 4 && q != player ==> final(self).players[q] == old(self).players[q],
            old(self).same_supply(*final(self)),
    {
        proof {
            old(self).lemma_wf_parts();
            assert forall|kind: ResourceCard|
                old(self).bank.resource_cards.amount(kind) + cost.amount(kind) <= usize::MAX by {
                old(self).lemma_supply(kind);
                old(self).lemma_hand_within_circulation(player as int, kind);
                assert(old(self).players[player as int].resource_cards.amount(kind) >= cost.amount(
                    kind,
                ));
            }
        }
        self.players[player].removeCardsFromHand(cost);
        self.bank.resource_cards = self.bank.resource_cards.combined(&cost);
        proof {
            lemma_minus(old(self).players[player as int].resource_cards, cost);
            lemma_plus(old(self).bank.resource_cards, cost);
            assert forall|kind: ResourceCard| self.circulation(kind) == old(self).circulation(
                kind,
            ) by {
                assert(old(self).players[player as int].resource_cards.amount(kind) >= cost.amount(
                    kind,
                ));
                assert(old(self).bank.resource_cards.amount(kind) + cost.amount(kind)
                    <= usize::MAX);
                let a = |q: int| old(self).players[q].resource_cards.amount(kind) as int;
                let b = |q: int| self.players[q].resource_cards.amount(kind) as int;
                assert(b(player as int) == a(player as int) - cost.amount(kind));
                lemma_four_one_changed(a, b, player as int, -(cost.amount(kind) as int));
            }
            self.lemma_cards_moved_keeps_wf(*old(self));
        }
    }

    /// `post` is `self` after `cards` went from the hand of `from` to the
    /// hand of `to`.
    pub open spec fn cards_handed(self, post: Game, from: int, to: int, cards: ResourceCounts) -> bool {
        &&& self.only_cards_moved(post)
        &&& post.bank == self.bank
        &&& from == to ==> post == self
        &&& from != to ==> post.players[from].resource_cards
            == self.players[from].resource_cards.minus(cards) && post.players[to].resource_cards
            == self.players[to].resource_cards.plus(cards)
        &&& forall|q: int|
            0 <= q < 4 && q != from && q != to ==> #[trigger] post.players[q] == self.players[q]
    }

    /// Moves `cards` from the hand of `from` to the hand of `to`.
    #[verifier::rlimit(30)]
    pub fn hand_over(&mut self, from: usize, to: usize, cards: ResourceCounts)
        requires
            old(self).wf(),
            from < 4,
            to < 4,
            old(self).players[from as int].resource_cards.covers(cards),
        ensures
            final(self).wf(),
            old(self).cards_handed(*final(self), from as int, to as int, cards),
            old(self).same_supply(*final(self)),
    {
        if from == to {
            return ;
        }
        proof {
            old(self).lemma_wf_parts();
            assert forall|kind: ResourceCard|
                old(self).players[to as int].resource_cards.amount(kind) + cards.amount(kind)
                    <= usize::MAX by {
                old(self).lemma_supply(kind);
                old(self).lemma_hands_within_circulation(from as int, to as int, kind);
                assert(old(self).players[from as int].resource_cards.amount(kind) >= cards.amount(
                    kind,
                ));
            }
        }
        self.players[from].removeCardsFromHand(cards);
        let ghost mid = *self;
        assert(old(self).only_cards_moved(mid));
        self.players[to].addResourceCards(cards);
        assert(mid.only_cards_moved(*self));
        proof {
            lemma_minus(old(self).players[from as int].resource_cards, cards);
            lemma_plus(old(self).players[to as int].resource_cards, cards);
            old(self).lemma_cards_moved_twice(mid, *self);
            assert(self.players[from as int] == mid.players[from as int]);
            assert(mid.players[to as int] == old(self).players[to as int]);
            assert forall|kind: ResourceCard| self.circulation(kind) == old(self).circulation(
                kind,
            ) by {
                assert(old(self).players[from as int].resource_cards.amount(kind) >= cards.amount(
                    kind,
                ));
                assert(old(self).players[to as int].resource_cards.amount(kind) + cards.amount(kind)
                    <= usize::MAX);
                let a = |q: int| old(self).players[q].resource_cards.amount(kind) as int;
                let b = |q: int| self.players[q].resource_cards.amount(kind) as int;
                assert(b(from as int) == a(from as int) - cards.amount(kind));
                assert(b(to as int) == a(to as int) + cards.amount(kind));
                assert forall|q: int| 0 <= q < 4 && q != from && q != to implies #[trigger] b(q)
                    == a(q) by {
                    assert(mid.players[q] == old(self).players[q]);
                    assert(self.players[q] == mid.players[q]);
                }
                lemma_four_shifted(a, b, from as int, to as int, cards.amount(kind) as int);
            }
            self.lemma_cards_moved_keeps_wf(*old(self));
        }
    }
}

/// Where a game conserves its cards and as many cards of every kind are in
/// the game afterwards, the game conserves them afterwards.
pub proof fn lemma_conservation(before: Game, after: Game)
    requires
        before.conserved(),
        before.same_supply(after),
    ensures
        after.conserved(),
{
    assert(after.circulation(ResourceCard::Ore) == before.circulation(
        ResourceCard::Ore,
    ));
    assert(after.circulation(ResourceCard::Wheat) == before.circulation(
        ResourceCard::Wheat,
    ));
    assert(after.circulation(ResourceCard::Sheep) == before.circulation(
        ResourceCard::Sheep,
    ));
    assert(after.circulation(ResourceCard::Brick) == before.circulation(
        ResourceCard::Brick,
    ));
    assert(after.circulation(ResourceCard::Lumber) == before.circulation(
        ResourceCard::Lumber,
    ));
}

} // verus!
