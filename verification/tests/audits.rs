use catan_game_api::action::{Action, ActionType};
use catan_game_api::audit::{BoardFault, InvariantViolation};
use catan_game_api::board::Board;
use catan_game_api::building::Building;
use catan_game_api::development::DevelopmentCard;
use catan_game_api::game::Game;
use catan_game_api::resource::ResourceCard;
use catan_game_api::trade_offer::TradeOffer;
use catan_game_api::resource::ResourceCounts;

fn audit_edges() -> Vec<(usize, usize)> {
    let mut pairs = Vec::new();
    for e in 0..53 {
        pairs.push((e, e));
        pairs.push((e + 1, e));
    }
    pairs
}

fn audit_tiles() -> Vec<(usize, usize)> {
    let mut pairs = Vec::new();
    for t in 0..19 {
        pairs.push((t, 2 * t));
        pairs.push((t, 2 * t + 1));
    }
    pairs
}

fn audit_board() -> Board {
    Board::new(&audit_edges(), &audit_tiles())
}

fn audit_game() -> Game {
    Game::new(&audit_edges(), &audit_tiles())
}

#[test]
fn new_board_and_new_game_are_well_formed() {
    assert_eq!(audit_board().audit(), Ok(()));
    assert_eq!(audit_game().audit(), Ok(()));
}

#[test]
fn board_audit_names_the_shape() {
    let mut board = audit_board();
    board.nodes.pop();
    assert_eq!(board.audit(), Err(BoardFault::Shape));
    let mut board = audit_board();
    board.ports.pop();
    assert_eq!(board.audit(), Err(BoardFault::Shape));
    let mut board = audit_board();
    board.port_node_mapping.push((0, 1));
    assert_eq!(board.audit(), Err(BoardFault::Shape));
}

#[test]
fn board_audit_names_the_first_bad_node() {
    let mut board = audit_board();
    board.nodes[9].building = Some(Building::Road(9, 0));
    board.nodes[30].position = 31;
    board.edges[2].position = 5;
    assert_eq!(board.audit(), Err(BoardFault::Node(9)));
    assert!(!board.nodeSound(9));
    assert!(board.nodeSound(8));
    board.nodes[9].building = Some(Building::City(9, 0));
    assert_eq!(board.audit(), Err(BoardFault::Node(30)));
    board.nodes[30].position = 30;
    board.nodes[40].building = Some(Building::Settlement(41, 0));
    assert_eq!(board.audit(), Err(BoardFault::Node(40)));
    board.nodes[40].building = None;
    board.nodes[41].adjacent_edges.push(72);
    assert_eq!(board.audit(), Err(BoardFault::Node(41)));
    board.nodes[41].adjacent_edges.pop();
    board.nodes[42].adjacent_tiles.push(19);
    assert_eq!(board.audit(), Err(BoardFault::Node(42)));
    board.nodes[42].adjacent_tiles.pop();
    assert_eq!(board.audit(), Err(BoardFault::Edge(2)));
}

#[test]
fn board_audit_names_a_building_on_an_edge_that_is_no_road() {
    let mut board = audit_board();
    board.edges[7].building = Some(Building::Settlement(7, 1));
    assert_eq!(board.audit(), Err(BoardFault::Edge(7)));
    assert!(!board.edgeSound(7));
    board.edges[7].building = Some(Building::Road(8, 1));
    assert_eq!(board.audit(), Err(BoardFault::Edge(7)));
    board.edges[7].building = Some(Building::Road(7, 1));
    assert_eq!(board.audit(), Ok(()));
    board.edges[70].adjacent_nodes.push(54);
    assert_eq!(board.audit(), Err(BoardFault::Edge(70)));
}

#[test]
fn board_audit_names_tiles_ports_and_the_robber() {
    let mut board = audit_board();
    board.tiles[4].adjacent_nodes.push(99);
    board.port_node_mapping[3] = (11, 54);
    assert_eq!(board.audit(), Err(BoardFault::Tile(4)));
    assert!(!board.tileSound(4));
    board.tiles[4].adjacent_nodes.pop();
    board.tiles[5].index = 4;
    assert_eq!(board.audit(), Err(BoardFault::Tile(5)));
    board.tiles[5].index = 5;
    assert_eq!(board.audit(), Err(BoardFault::Port(3)));
    board.port_node_mapping[3] = (54, 16);
    assert_eq!(board.audit(), Err(BoardFault::Port(3)));
    board.port_node_mapping[3] = (11, 16);
    assert_eq!(board.audit(), Ok(()));
    assert!(board.robberAlone());
    let at = (0..19).find(|t| board.tiles[*t].has_robber).unwrap();
    board.tiles[(at + 1) % 19].has_robber = true;
    assert!(!board.robberAlone());
    assert_eq!(board.audit(), Err(BoardFault::Robber));
    board.tiles[(at + 1) % 19].has_robber = false;
    board.tiles[at].has_robber = false;
    assert!(!board.robberAlone());
    assert_eq!(board.audit(), Err(BoardFault::Robber));
}

#[test]
fn game_audit_names_board_bank_and_turn() {
    let mut game = audit_game();
    game.board.edges[7].building = Some(Building::City(7, 1));
    game.bank.development_card_pointer = 26;
    assert_eq!(game.audit(), Err(InvariantViolation::Board(BoardFault::Edge(7))));
    game.board.edges[7].building = None;
    game.current_player_id = 4;
    assert_eq!(game.audit(), Err(InvariantViolation::Bank));
    game.bank.development_card_pointer = 0;
    game.bank.development_cards.pop();
    assert_eq!(game.audit(), Err(InvariantViolation::Bank));
    game.bank.development_cards.push(DevelopmentCard::Knight);
    assert_eq!(game.audit(), Err(InvariantViolation::Turn));
    game.current_player_id = 3;
    assert_eq!(game.audit(), Ok(()));
}

#[test]
fn game_audit_names_the_first_unsound_player() {
    let mut game = audit_game();
    game.players[2].id = 1;
    game.players[3].road_placements.push(72);
    assert_eq!(game.audit(), Err(InvariantViolation::Seat(2)));
    assert!(!game.seatSound(2));
    assert!(game.seatSound(1));
    game.players[2].id = 2;
    assert_eq!(game.audit(), Err(InvariantViolation::Seat(3)));
    game.players[3].road_placements.pop();
    // an award without its points
    game.players[0].longest_road = true;
    assert_eq!(game.audit(), Err(InvariantViolation::Seat(0)));
    game.players[0].victory_points = 2;
    assert_eq!(game.audit(), Ok(()));
    // more points than pieces and awards allow
    game.players[0].victory_points = 3;
    assert_eq!(game.audit(), Err(InvariantViolation::Seat(0)));
    game.players[0].num_unplaced_settlements = 4;
    assert_eq!(game.audit(), Ok(()));
    // a card that was never drawn
    game.players[1].development_cards.set(DevelopmentCard::Monopoly, 1);
    assert_eq!(game.audit(), Err(InvariantViolation::Seat(1)));
    game.bank.development_card_pointer = 1;
    assert_eq!(game.audit(), Ok(()));
    game.players[1].development_cards_drawn_this_turn.set(DevelopmentCard::Monopoly, 1);
    assert_eq!(game.audit(), Err(InvariantViolation::Seat(1)));
    game.bank.development_card_pointer = 2;
    // more knights played than drawn
    game.players[1].num_knights_played = 3;
    assert_eq!(game.audit(), Err(InvariantViolation::Seat(1)));
    game.players[1].num_knights_played = 2;
    assert_eq!(game.audit(), Ok(()));
}

#[test]
fn game_audit_names_awards_offer_and_supply() {
    let mut game = audit_game();
    for p in [1, 3] {
        game.players[p].largest_army = true;
        game.players[p].victory_points = 2;
    }
    game.current_trade_offer = Some(TradeOffer {
        player_offerer_id: 4,
        receiving_resources: ResourceCounts::empty(),
        giving_resources: ResourceCounts::empty(),
    });
    game.players[0].resource_cards.set(ResourceCard::Sheep, 1);
    game.players[0].resource_cards.set(ResourceCard::Lumber, 70);
    assert!(!game.awardsSingle());
    assert_eq!(game.audit(), Err(InvariantViolation::Awards));
    game.players[3].largest_army = false;
    game.players[3].victory_points = 0;
    assert!(game.awardsSingle());
    assert_eq!(game.audit(), Err(InvariantViolation::Offer));
    game.current_trade_offer = None;
    assert!(game.supplySound(ResourceCard::Ore));
    assert!(!game.supplySound(ResourceCard::Sheep));
    assert_eq!(game.audit(), Err(InvariantViolation::Supply(ResourceCard::Sheep)));
    game.players[0].resource_cards.set(ResourceCard::Sheep, 0);
    assert_eq!(game.audit(), Err(InvariantViolation::Supply(ResourceCard::Lumber)));
    game.players[0].resource_cards.set(ResourceCard::Lumber, 0);
    assert_eq!(game.audit(), Ok(()));
    // cards that a drawn year of plenty has added are allowed
    game.bank.development_card_pointer = 1;
    game.players[0].resource_cards.set(ResourceCard::Sheep, 2);
    assert_eq!(game.audit(), Ok(()));
    assert_eq!(game.plentyHeld(0), 0);
    game.players[0].resource_cards.set(ResourceCard::Sheep, 3);
    assert_eq!(game.audit(), Err(InvariantViolation::Supply(ResourceCard::Sheep)));
}

#[test]
fn game_stays_well_formed_through_a_run_of_actions() {
    let mut game = audit_game();
    let act = |game: &mut Game, action_type: ActionType, data: &[usize]| {
        let mut action_metadata = [0; 10];
        for (i, value) in data.iter().enumerate() {
            action_metadata[i] = *value;
        }
        let player = game.current_player_id;
        let taken = game.takeAction(Action { action_type, action_metadata }, player);
        assert_eq!(game.audit(), Ok(()));
        taken
    };
    for node in [0, 4, 8] {
        assert!(act(&mut game, ActionType::PlaySettlement, &[node]));
        assert!(act(&mut game, ActionType::PlayRoad, &[node]));
    }
    assert!(act(&mut game, ActionType::PlaySettlement, &[12]));
    for kind in 0..5 {
        game.give(3, ResourceCard::from_value(kind).unwrap(), 5);
    }
    assert!(act(&mut game, ActionType::RollDice, &[]));
    assert!(act(&mut game, ActionType::DrawDevelopmentCard, &[]));
    assert!(act(&mut game, ActionType::DrawDevelopmentCard, &[]));
    assert!(!act(&mut game, ActionType::PlayCity, &[11]));
    assert!(act(&mut game, ActionType::PlayCity, &[12]));
    assert!(act(&mut game, ActionType::EndTurn, &[]));
    assert!(act(&mut game, ActionType::RollDice, &[]));
    assert!(act(&mut game, ActionType::EndTurn, &[]));
}

#[test]
fn checked_action_refuses_a_game_that_is_not_well_formed() {
    let mut game = audit_game();
    let settle = Action {
        action_type: ActionType::PlaySettlement,
        action_metadata: [5, 0, 0, 0, 0, 0, 0, 0, 0, 0],
    };
    game.current_player_id = 7;
    assert_eq!(game.takeActionChecked(settle, 0), Err(InvariantViolation::Turn));
    assert!(game.board.nodes[5].building.is_none());
    assert_eq!(game.turn_number, 0);
    game.current_player_id = 0;
    assert_eq!(game.takeActionChecked(settle, 0), Ok(true));
    assert_eq!(game.board.nodes[5].building, Some(Building::Settlement(5, 0)));
    assert_eq!(game.takeActionChecked(settle, 0), Ok(false));
    assert_eq!(game.turn_number, 1);
}
