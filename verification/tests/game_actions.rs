use catan_game_api::action::{Action, ActionType};
use catan_game_api::bank::Bank;
use catan_game_api::board::Board;
use catan_game_api::port::Port;
use catan_game_api::building::Building;
use catan_game_api::development::DevelopmentCard;
use catan_game_api::game::Game;
use catan_game_api::resource::{ResourceCard, ResourceCounts};
use catan_game_api::terrain::Terrain;
use catan_game_api::trade_offer::TradeOffer;

fn chain_game() -> Game {
    let mut edges = Vec::new();
    for e in 0..53 {
        edges.push((e, e));
        edges.push((e + 1, e));
    }
    let mut tiles = Vec::new();
    for t in 0..19 {
        tiles.push((t, 2 * t));
        tiles.push((t, 2 * t + 1));
    }
    Game::new(&edges, &tiles)
}

/// A game after the setup phase, with the dice thrown.
fn game_in_play() -> Game {
    let mut game = chain_game();
    game.turn_number = 7;
    game.rolled_dice_this_turn = true;
    game
}

fn act(action_type: ActionType, data: &[usize]) -> Action {
    let mut action_metadata = [0; 10];
    for (i, value) in data.iter().enumerate() {
        action_metadata[i] = *value;
    }
    Action { action_type, action_metadata }
}

/// Moves `cards` from the bank into the hand of `player`.
fn deal(game: &mut Game, player: usize, cards: ResourceCounts) {
    for position in 0..5 {
        let kind = ResourceCard::from_value(position).unwrap();
        game.give(player, kind, cards.get(kind));
    }
}

/// Puts `count` playable cards into the hand of `player`, as if drawn
/// earlier from the stack.
fn hold(game: &mut Game, player: usize, card: DevelopmentCard, count: usize) {
    let held = game.players[player].development_cards.get(card);
    game.players[player].development_cards.set(card, held + count);
    game.bank.development_card_pointer += count;
}

fn a_tile_without_robber(game: &Game) -> usize {
    (0..19).find(|t| !game.board.tiles[*t].has_robber).unwrap()
}

fn cards_in_game(game: &Game, kind: ResourceCard) -> usize {
    game.bank.amountOfResource(kind)
        + (0..4).map(|p| game.players[p].resource_cards.get(kind)).sum::<usize>()
}

fn assert_conserved(game: &Game) {
    assert_eq!(game.audit(), Ok(()));
    for position in 0..5 {
        assert_eq!(cards_in_game(game, ResourceCard::from_value(position).unwrap()), 19);
    }
}

#[test]
fn new_game_is_fresh() {
    let game = chain_game();
    assert_eq!(game.turn_number, 0);
    assert_eq!(game.current_player_id, 0);
    assert!(game.current_trade_offer.is_none());
    assert!(!game.rolled_dice_this_turn);
    assert_eq!(game.previous_dice_roll, 0);
    assert_eq!(game.players_accepted_trade_offer, [false; 4]);
    for p in 0..4 {
        assert_eq!(game.players[p].id, p);
        assert_eq!(game.players[p].victory_points, 0);
    }
    assert_conserved(&game);
}

#[test]
fn reset_starts_over() {
    let mut game = game_in_play();
    deal(&mut game, 2, ResourceCounts::new(1, 1, 1, 1, 1));
    game.record_settlement(1, 30, true);
    game.current_player_id = 3;
    game.current_trade_offer = Some(TradeOffer {
        player_offerer_id: 3,
        receiving_resources: ResourceCounts::empty(),
        giving_resources: ResourceCounts::empty(),
    });
    game.board.edges[3].building = Some(Building::Road(3, 1));
    let mut edges = Vec::new();
    for e in 0..53 {
        edges.push((e, e));
        edges.push((e + 1, e));
    }
    game.reset(&edges, &vec![]);
    assert_eq!(game.turn_number, 0);
    assert_eq!(game.current_player_id, 0);
    assert!(game.current_trade_offer.is_none());
    assert!(!game.rolled_dice_this_turn);
    assert_eq!(game.players[1].victory_points, 0);
    assert_eq!(game.players[2].resource_cards, ResourceCounts::empty());
    assert!(game.board.edges[3].building.is_none());
    assert_conserved(&game);
}

#[test]
fn setup_places_a_settlement_and_then_a_road() {
    let mut game = chain_game();
    assert!(game.takeAction(act(ActionType::PlaySettlement, &[5]), 0));
    assert_eq!(game.turn_number, 1);
    assert_eq!(game.current_player_id, 0);
    assert!(game.takeAction(act(ActionType::PlayRoad, &[5]), 0));
    assert_eq!(game.turn_number, 2);
    assert_eq!(game.current_player_id, 1);
    assert_eq!(game.board.nodes[5].building, Some(Building::Settlement(5, 0)));
    assert_eq!(game.board.edges[5].building, Some(Building::Road(5, 0)));
    assert_eq!(game.players[0].num_unplaced_settlements, 4);
    assert_eq!(game.players[0].num_unplaced_roads, 14);
    assert_eq!(game.players[0].settlement_placements, vec![5]);
    assert_eq!(game.players[0].road_placements, vec![5]);
    assert_eq!(game.players[0].victory_points, 0);
    assert_conserved(&game);
}

#[test]
fn setup_refuses_without_changing_anything() {
    let mut game = chain_game();
    assert!(game.takeAction(act(ActionType::PlaySettlement, &[5]), 0));
    // too close, off the map, no settlement beside, another kind of action, an unknown player
    assert!(!game.takeAction(act(ActionType::PlaySettlement, &[6]), 1));
    assert!(!game.takeAction(act(ActionType::PlaySettlement, &[54]), 1));
    assert!(!game.takeAction(act(ActionType::PlayRoad, &[20]), 0));
    assert!(!game.takeAction(act(ActionType::PlayRoad, &[5]), 1));
    assert!(!game.takeAction(act(ActionType::RollDice, &[]), 0));
    assert!(!game.takeAction(act(ActionType::EndTurn, &[]), 0));
    assert!(!game.takeAction(act(ActionType::PlayCity, &[5]), 0));
    assert!(!game.takeAction(act(ActionType::PlaySettlement, &[20]), 4));
    assert_eq!(game.turn_number, 1);
    assert_eq!(game.current_player_id, 0);
    assert!(game.board.nodes[6].building.is_none());
    assert_eq!(game.players[1].num_unplaced_settlements, 5);
    assert_eq!(game.audit(), Ok(()));
}

#[test]
fn setup_ends_after_seven_placements() {
    let mut game = chain_game();
    for (player, node) in [(0, 0), (1, 4), (2, 8)] {
        assert!(game.takeAction(act(ActionType::PlaySettlement, &[node]), player));
        assert!(game.takeAction(act(ActionType::PlayRoad, &[node]), player));
    }
    assert_eq!(game.turn_number, 6);
    assert_eq!(game.current_player_id, 3);
    assert!(game.takeAction(act(ActionType::PlaySettlement, &[12]), 3));
    assert_eq!(game.turn_number, 7);
    // the setup is over: a road now needs the dice, a road beside it and its price
    assert!(!game.takeAction(act(ActionType::PlayRoad, &[12]), 3));
    assert!(game.takeAction(act(ActionType::RollDice, &[]), 3));
    assert!(!game.takeAction(act(ActionType::PlayRoad, &[12]), 3));
    assert_eq!(game.turn_number, 7);
    assert!(game.board.edges[12].building.is_none());
    assert_eq!(game.audit(), Ok(()));
}

#[test]
fn setup_stops_at_the_last_settlement() {
    let mut game = chain_game();
    game.players[0].num_unplaced_settlements = 1;
    assert!(game.takeAction(act(ActionType::PlaySettlement, &[0]), 0));
    assert!(!game.takeAction(act(ActionType::PlaySettlement, &[10]), 0));
    assert_eq!(game.players[0].num_unplaced_settlements, 0);
    assert_eq!(game.turn_number, 1);
    game.players[0].num_unplaced_roads = 0;
    assert!(!game.takeAction(act(ActionType::PlayRoad, &[0]), 0));
}

#[test]
fn seven_hands_out_nothing() {
    let mut game = chain_game();
    game.turn_number = 7;
    let tile = a_tile_without_robber(&game);
    game.board.tiles[tile].terrain = Terrain::Mountains;
    game.board.tiles[tile].chit = 7;
    game.board.nodes[2 * tile].building = Some(Building::City(2 * tile, 0));
    game.applyDiceRoll(7);
    assert!(game.rolled_dice_this_turn);
    assert_eq!(game.previous_dice_roll, 7);
    for p in 0..4 {
        assert_eq!(game.players[p].resource_cards, ResourceCounts::empty());
    }
    assert_eq!(game.bank.amountOfResource(ResourceCard::Ore), 19);
    assert_eq!(game.audit(), Ok(()));
}

#[test]
fn dice_hand_out_what_the_tiles_produce() {
    let mut game = chain_game();
    game.turn_number = 7;
    let tile = a_tile_without_robber(&game);
    game.board.tiles[tile].terrain = Terrain::Fields;
    game.board.tiles[tile].chit = 9;
    game.board.nodes[2 * tile].building = Some(Building::City(2 * tile, 0));
    game.board.nodes[2 * tile + 1].building = Some(Building::Settlement(2 * tile + 1, 3));
    assert_eq!(game.board.demandOf(9, 0, ResourceCard::Wheat), 2);
    assert_eq!(game.board.demandOf(9, 3, ResourceCard::Wheat), 1);
    assert_eq!(game.board.demandOf(9, 1, ResourceCard::Wheat), 0);
    assert_eq!(game.board.demandOf(9, 0, ResourceCard::Ore), 0);
    assert_eq!(game.board.demandOf(8, 0, ResourceCard::Wheat), 0);
    assert_eq!(game.awardsFor(9, ResourceCard::Wheat), [2, 0, 0, 1]);
    game.applyDiceRoll(9);
    assert_eq!(game.players[0].resource_cards, ResourceCounts::new(0, 2, 0, 0, 0));
    assert_eq!(game.players[3].resource_cards, ResourceCounts::new(0, 1, 0, 0, 0));
    assert_eq!(game.players[1].resource_cards, ResourceCounts::empty());
    assert_eq!(game.bank.amountOfResource(ResourceCard::Wheat), 16);
    assert_eq!(game.previous_dice_roll, 9);
    assert_conserved(&game);
    // another total produces nothing
    game.produceDiceRoll(5);
    assert_eq!(game.bank.amountOfResource(ResourceCard::Wheat), 16);
}

#[test]
fn robber_stops_a_tile_from_producing() {
    let mut game = chain_game();
    game.turn_number = 7;
    let tile = a_tile_without_robber(&game);
    game.board.tiles[tile].terrain = Terrain::Hills;
    game.board.tiles[tile].chit = 6;
    game.board.nodes[2 * tile].building = Some(Building::Settlement(2 * tile, 1));
    game.board.moveRobber(tile);
    game.applyDiceRoll(6);
    assert_eq!(game.players[1].resource_cards, ResourceCounts::empty());
    assert_eq!(game.bank.amountOfResource(ResourceCard::Brick), 19);
    assert_eq!(game.audit(), Ok(()));
}

#[test]
fn scarce_cards_go_to_nobody_when_two_players_are_owed() {
    let mut game = chain_game();
    game.turn_number = 7;
    let tile = a_tile_without_robber(&game);
    game.board.tiles[tile].terrain = Terrain::Mountains;
    game.board.tiles[tile].chit = 8;
    game.board.nodes[2 * tile].building = Some(Building::City(2 * tile, 0));
    game.board.nodes[2 * tile + 1].building = Some(Building::City(2 * tile + 1, 1));
    deal(&mut game, 3, ResourceCounts::new(18, 0, 0, 0, 0));
    assert_eq!(game.bank.amountOfResource(ResourceCard::Ore), 1);
    assert_eq!(game.awardsFor(8, ResourceCard::Ore), [0, 0, 0, 0]);
    game.applyDiceRoll(8);
    assert_eq!(game.players[0].resource_cards.get(ResourceCard::Ore), 0);
    assert_eq!(game.players[1].resource_cards.get(ResourceCard::Ore), 0);
    assert_eq!(game.bank.amountOfResource(ResourceCard::Ore), 1);
    // with one player alone the bank gives what it has
    game.board.nodes[2 * tile + 1].building = None;
    assert_eq!(game.awardsFor(8, ResourceCard::Ore), [1, 0, 0, 0]);
    game.applyDiceRoll(8);
    assert_eq!(game.players[0].resource_cards.get(ResourceCard::Ore), 1);
    assert_eq!(game.players[1].resource_cards.get(ResourceCard::Ore), 0);
    assert_eq!(game.bank.amountOfResource(ResourceCard::Ore), 0);
    assert_conserved(&game);
}

#[test]
fn roll_dice_throws_once_a_turn() {
    for _ in 0..50 {
        let mut game = chain_game();
        game.turn_number = 7;
        assert!(game.takeAction(act(ActionType::RollDice, &[]), 0));
        assert!(game.rolled_dice_this_turn);
        assert!(2 <= game.previous_dice_roll && game.previous_dice_roll <= 12);
        let thrown = game.previous_dice_roll;
        assert!(!game.takeAction(act(ActionType::RollDice, &[]), 0));
        assert_eq!(game.previous_dice_roll, thrown);
    }
}

#[test]
fn dice_show_more_than_one_total() {
    let mut seen = Vec::new();
    for _ in 0..200 {
        let mut game = chain_game();
        game.turn_number = 7;
        assert!(game.rollDice());
        if !seen.contains(&game.previous_dice_roll) {
            seen.push(game.previous_dice_roll);
        }
    }
    assert!(seen.len() > 1);
}

#[test]
fn nothing_but_the_dice_before_the_dice() {
    let mut game = chain_game();
    game.turn_number = 7;
    assert!(!game.takeAction(act(ActionType::EndTurn, &[]), 0));
    assert!(!game.takeAction(act(ActionType::DeclineTrade, &[]), 0));
    assert_eq!(game.current_player_id, 0);
    assert!(game.takeAction(act(ActionType::RollDice, &[]), 0));
    assert!(game.takeAction(act(ActionType::EndTurn, &[]), 0));
    assert_eq!(game.current_player_id, 1);
    assert!(!game.rolled_dice_this_turn);
    assert_eq!(game.audit(), Ok(()));
}

#[test]
fn unknown_player_is_refused() {
    let mut game = game_in_play();
    assert!(!game.takeAction(act(ActionType::EndTurn, &[]), 4));
    assert!(!game.takeAction(act(ActionType::RollDice, &[]), 9));
    assert_eq!(game.current_player_id, 0);
}

#[test]
fn end_turn_releases_the_cards_drawn() {
    let mut game = game_in_play();
    game.players[0].development_cards_drawn_this_turn.set(DevelopmentCard::Knight, 1);
    game.bank.development_card_pointer = 1;
    assert!(game.takeAction(act(ActionType::EndTurn, &[]), 0));
    assert_eq!(game.players[0].development_cards.get(DevelopmentCard::Knight), 1);
    assert_eq!(game.players[0].development_cards_drawn_this_turn.get(DevelopmentCard::Knight), 0);
    assert_eq!(game.current_player_id, 1);
    assert!(!game.rolled_dice_this_turn);
    assert_eq!(game.audit(), Ok(()));
}

#[test]
fn settlement_costs_four_cards_and_scores_a_point() {
    let mut game = game_in_play();
    game.board.edges[10].building = Some(Building::Road(10, 0));
    // without the cards
    assert!(!game.takeAction(act(ActionType::PlaySettlement, &[10]), 0));
    deal(&mut game, 0, ResourceCounts::new(0, 1, 1, 1, 2));
    // without a road
    assert!(!game.takeAction(act(ActionType::PlaySettlement, &[20]), 0));
    assert!(game.takeAction(act(ActionType::PlaySettlement, &[10]), 0));
    assert_eq!(game.board.nodes[10].building, Some(Building::Settlement(10, 0)));
    assert_eq!(game.players[0].resource_cards, ResourceCounts::new(0, 0, 0, 0, 1));
    assert_eq!(game.players[0].victory_points, 1);
    assert_eq!(game.players[0].num_unplaced_settlements, 4);
    assert_eq!(game.players[0].settlement_placements, vec![10]);
    assert_eq!(game.bank.amountOfResource(ResourceCard::Wheat), 19);
    assert_eq!(game.bank.amountOfResource(ResourceCard::Lumber), 18);
    assert_conserved(&game);
}

#[test]
fn settlement_needs_one_left_to_place() {
    let mut game = game_in_play();
    game.board.edges[10].building = Some(Building::Road(10, 0));
    deal(&mut game, 0, ResourceCounts::new(0, 1, 1, 1, 1));
    game.players[0].num_unplaced_settlements = 0;
    assert!(!game.takeAction(act(ActionType::PlaySettlement, &[10]), 0));
    assert!(game.board.nodes[10].building.is_none());
    assert_eq!(game.players[0].resource_cards, ResourceCounts::new(0, 1, 1, 1, 1));
    assert_eq!(game.audit(), Ok(()));
}

#[test]
fn city_costs_five_cards_and_frees_a_settlement() {
    let mut game = game_in_play();
    game.board.nodes[10].building = Some(Building::Settlement(10, 0));
    game.players[0].num_unplaced_settlements = 4;
    deal(&mut game, 0, ResourceCounts::new(3, 1, 0, 0, 0));
    assert!(!game.takeAction(act(ActionType::PlayCity, &[10]), 0));
    deal(&mut game, 0, ResourceCounts::new(0, 1, 0, 0, 0));
    assert!(!game.takeAction(act(ActionType::PlayCity, &[11]), 0));
    assert!(!game.takeAction(act(ActionType::PlayCity, &[54]), 0));
    assert!(game.takeAction(act(ActionType::PlayCity, &[10]), 0));
    assert_eq!(game.board.nodes[10].building, Some(Building::City(10, 0)));
    assert_eq!(game.players[0].resource_cards, ResourceCounts::empty());
    assert_eq!(game.players[0].num_unplaced_cities, 3);
    assert_eq!(game.players[0].num_unplaced_settlements, 5);
    assert_eq!(game.players[0].victory_points, 1);
    assert_eq!(game.players[0].city_placements, vec![10]);
    assert_conserved(&game);
}

#[test]
fn road_costs_two_cards() {
    let mut game = game_in_play();
    game.board.edges[10].building = Some(Building::Road(10, 1));
    deal(&mut game, 1, ResourceCounts::new(0, 0, 0, 1, 0));
    assert!(!game.takeAction(act(ActionType::PlayRoad, &[11]), 1));
    deal(&mut game, 1, ResourceCounts::new(0, 0, 0, 0, 1));
    assert!(!game.takeAction(act(ActionType::PlayRoad, &[30]), 1));
    assert!(!game.takeAction(act(ActionType::PlayRoad, &[10]), 1));
    assert!(!game.takeAction(act(ActionType::PlayRoad, &[72]), 1));
    assert!(game.takeAction(act(ActionType::PlayRoad, &[11]), 1));
    assert_eq!(game.board.edges[11].building, Some(Building::Road(11, 1)));
    assert_eq!(game.players[1].resource_cards, ResourceCounts::empty());
    assert_eq!(game.players[1].num_unplaced_roads, 14);
    assert_eq!(game.players[1].road_placements, vec![11]);
    assert!(!game.players[1].longest_road);
    assert_conserved(&game);
}

#[test]
fn fifth_road_in_a_row_takes_the_longest_road() {
    let mut game = game_in_play();
    for e in 0..4 {
        game.board.edges[e].building = Some(Building::Road(e, 0));
        game.players[0].road_placements.push(e);
    }
    assert_eq!(game.checkLongestRoad(0), 4);
    deal(&mut game, 0, ResourceCounts::new(0, 0, 0, 1, 1));
    assert!(game.takeAction(act(ActionType::PlayRoad, &[4]), 0));
    assert_eq!(game.checkLongestRoad(0), 5);
    assert_eq!(game.checkLongestRoad(0), 5);
    assert!(game.players[0].longest_road);
    assert_eq!(game.players[0].victory_points, 2);
    // settling the award again changes nothing
    game.settleLongestRoad(0);
    assert!(game.players[0].longest_road);
    assert_eq!(game.players[0].victory_points, 2);
    assert_eq!(game.longestRoadHolder(), Some(0));
    assert_eq!(game.audit(), Ok(()));
}

#[test]
fn longer_road_takes_the_award_over() {
    let mut game = game_in_play();
    for e in 0..5 {
        game.board.edges[e].building = Some(Building::Road(e, 0));
        game.players[0].road_placements.push(e);
    }
    game.players[0].longest_road = true;
    game.players[0].victory_points = 2;
    for e in 20..25 {
        game.board.edges[e].building = Some(Building::Road(e, 1));
        game.players[1].road_placements.push(e);
    }
    // an equal road does not take the award
    game.settleLongestRoad(1);
    assert!(game.players[0].longest_road);
    assert!(!game.players[1].longest_road);
    deal(&mut game, 1, ResourceCounts::new(0, 0, 0, 1, 1));
    assert!(game.takeAction(act(ActionType::PlayRoad, &[25]), 1));
    assert!(!game.players[0].longest_road);
    assert_eq!(game.players[0].victory_points, 0);
    assert!(game.players[1].longest_road);
    assert_eq!(game.players[1].victory_points, 2);
    assert_eq!(game.audit(), Ok(()));
}

#[test]
fn development_card_costs_three_cards_and_is_held_back() {
    let mut game = game_in_play();
    assert!(!game.takeAction(act(ActionType::DrawDevelopmentCard, &[]), 0));
    deal(&mut game, 0, ResourceCounts::new(1, 1, 1, 0, 0));
    let next = game.bank.development_cards[0];
    assert!(game.takeAction(act(ActionType::DrawDevelopmentCard, &[]), 0));
    assert_eq!(game.players[0].resource_cards, ResourceCounts::empty());
    assert_eq!(game.players[0].development_cards_drawn_this_turn.get(next), 1);
    assert_eq!(game.players[0].development_cards.get(next), 0);
    assert_eq!(game.bank.development_card_pointer, 1);
    assert_conserved(&game);
    // not playable this turn
    let tag = next.value();
    assert!(!game.takeAction(act(ActionType::PlayDevelopmentCard, &[tag, 0, 0]), 0));
}

#[test]
fn development_card_needs_a_stack() {
    let mut game = game_in_play();
    game.bank.development_card_pointer = 25;
    deal(&mut game, 0, ResourceCounts::new(1, 1, 1, 0, 0));
    assert!(!game.takeAction(act(ActionType::DrawDevelopmentCard, &[]), 0));
    assert_eq!(game.players[0].resource_cards, ResourceCounts::new(1, 1, 1, 0, 0));
    assert_eq!(game.audit(), Ok(()));
}

#[test]
fn monopoly_collects_a_kind_from_all_hands() {
    let mut game = game_in_play();
    deal(&mut game, 1, ResourceCounts::new(1, 2, 0, 0, 0));
    deal(&mut game, 3, ResourceCounts::new(0, 1, 0, 0, 4));
    hold(&mut game, 0, DevelopmentCard::Monopoly, 1);
    assert!(game.takeAction(act(ActionType::PlayDevelopmentCard, &[1, 1]), 0));
    assert_eq!(game.players[0].resource_cards, ResourceCounts::new(0, 3, 0, 0, 0));
    assert_eq!(game.players[1].resource_cards, ResourceCounts::new(1, 0, 0, 0, 0));
    assert_eq!(game.players[2].resource_cards, ResourceCounts::empty());
    assert_eq!(game.players[3].resource_cards, ResourceCounts::new(0, 0, 0, 0, 4));
    assert_eq!(game.players[0].development_cards.get(DevelopmentCard::Monopoly), 0);
    assert_conserved(&game);
    // the card is gone
    assert!(!game.takeAction(act(ActionType::PlayDevelopmentCard, &[1, 1]), 0));
}

#[test]
fn monopoly_adds_to_what_the_player_holds() {
    let mut game = game_in_play();
    deal(&mut game, 2, ResourceCounts::new(0, 0, 5, 0, 0));
    deal(&mut game, 1, ResourceCounts::new(0, 0, 2, 0, 0));
    hold(&mut game, 2, DevelopmentCard::Monopoly, 2);
    assert!(!game.takeAction(act(ActionType::PlayDevelopmentCard, &[1, 5]), 2));
    assert!(game.takeAction(act(ActionType::PlayDevelopmentCard, &[1, 2]), 2));
    assert_eq!(game.players[2].resource_cards, ResourceCounts::new(0, 0, 7, 0, 0));
    assert_eq!(game.players[2].development_cards.get(DevelopmentCard::Monopoly), 1);
    assert_eq!(game.audit(), Ok(()));
}

#[test]
fn road_building_is_undone_when_the_second_edge_is_taken() {
    let mut game = game_in_play();
    game.board.edges[10].building = Some(Building::Road(10, 0));
    game.board.edges[12].building = Some(Building::Road(12, 1));
    hold(&mut game, 0, DevelopmentCard::RoadBuilding, 1);
    assert!(!game.takeAction(act(ActionType::PlayDevelopmentCard, &[2, 11, 12]), 0));
    assert!(game.board.edges[11].building.is_none());
    assert_eq!(game.board.edges[12].building, Some(Building::Road(12, 1)));
    assert_eq!(game.board.edges[10].building, Some(Building::Road(10, 0)));
    assert_eq!(game.players[0].development_cards.get(DevelopmentCard::RoadBuilding), 1);
    assert_eq!(game.players[0].num_unplaced_roads, 15);
    assert_eq!(game.audit(), Ok(()));
}

#[test]
fn road_building_places_two_roads_for_nothing() {
    let mut game = game_in_play();
    game.board.edges[10].building = Some(Building::Road(10, 0));
    hold(&mut game, 0, DevelopmentCard::RoadBuilding, 1);
    assert!(!game.takeAction(act(ActionType::PlayDevelopmentCard, &[2, 11, 72]), 0));
    assert!(!game.takeAction(act(ActionType::PlayDevelopmentCard, &[2, 11, 30]), 0));
    assert!(game.board.edges[11].building.is_none());
    assert!(game.takeAction(act(ActionType::PlayDevelopmentCard, &[2, 11, 12]), 0));
    assert_eq!(game.board.edges[11].building, Some(Building::Road(11, 0)));
    assert_eq!(game.board.edges[12].building, Some(Building::Road(12, 0)));
    assert_eq!(game.players[0].development_cards.get(DevelopmentCard::RoadBuilding), 0);
    assert_eq!(game.players[0].resource_cards, ResourceCounts::empty());
    assert_conserved(&game);
}

#[test]
fn year_of_plenty_takes_two_cards_from_the_bank() {
    let mut game = game_in_play();
    hold(&mut game, 1, DevelopmentCard::YearOfPlenty, 2);
    assert!(!game.takeAction(act(ActionType::PlayDevelopmentCard, &[4, 5, 0]), 1));
    assert!(!game.takeAction(act(ActionType::PlayDevelopmentCard, &[4, 0, 5]), 1));
    assert!(game.takeAction(act(ActionType::PlayDevelopmentCard, &[4, 0, 4]), 1));
    assert_eq!(game.players[1].resource_cards, ResourceCounts::new(1, 0, 0, 0, 1));
    assert_eq!(game.bank.amountOfResource(ResourceCard::Ore), 18);
    assert_eq!(game.bank.amountOfResource(ResourceCard::Lumber), 18);
    assert!(game.takeAction(act(ActionType::PlayDevelopmentCard, &[4, 3, 3]), 1));
    assert_eq!(game.players[1].resource_cards, ResourceCounts::new(1, 0, 0, 2, 1));
    assert_eq!(game.bank.amountOfResource(ResourceCard::Brick), 17);
    assert_eq!(game.players[1].development_cards.get(DevelopmentCard::YearOfPlenty), 0);
    assert_conserved(&game);
}

#[test]
fn year_of_plenty_gives_even_what_the_bank_lacks() {
    let mut game = game_in_play();
    deal(&mut game, 3, ResourceCounts::new(0, 18, 0, 0, 0));
    hold(&mut game, 1, DevelopmentCard::YearOfPlenty, 1);
    assert!(game.takeAction(act(ActionType::PlayDevelopmentCard, &[4, 1, 1]), 1));
    assert_eq!(game.players[1].resource_cards, ResourceCounts::new(0, 2, 0, 0, 0));
    assert_eq!(game.bank.amountOfResource(ResourceCard::Wheat), 0);
    assert_eq!(cards_in_game(&game, ResourceCard::Wheat), 20);
    assert_eq!(cards_in_game(&game, ResourceCard::Ore), 19);
    assert_eq!(game.audit(), Ok(()));
}

#[test]
fn victory_point_is_never_played() {
    let mut game = game_in_play();
    hold(&mut game, 0, DevelopmentCard::VictoryPoint, 1);
    assert!(!game.takeAction(act(ActionType::PlayDevelopmentCard, &[3]), 0));
    assert!(!game.takeAction(act(ActionType::PlayDevelopmentCard, &[5]), 0));
    assert!(!game.takeAction(act(ActionType::PlayDevelopmentCard, &[6]), 0));
    assert_eq!(game.players[0].development_cards.get(DevelopmentCard::VictoryPoint), 1);
    assert_eq!(game.audit(), Ok(()));
}

#[test]
fn robber_goes_to_a_tile_of_the_victim() {
    let mut game = game_in_play();
    let tile = a_tile_without_robber(&game);
    let other = (0..19).find(|t| *t != tile && !game.board.tiles[*t].has_robber).unwrap();
    let at = (0..19).find(|t| game.board.tiles[*t].has_robber).unwrap();
    game.board.nodes[2 * tile].building = Some(Building::Settlement(2 * tile, 2));
    game.board.nodes[2 * at].building = Some(Building::Settlement(2 * at, 2));
    deal(&mut game, 2, ResourceCounts::new(0, 0, 1, 0, 0));
    // the robber is there already; the victim has not built there; no such tile or player
    assert!(!game.takeAction(act(ActionType::PlaceRobber, &[at, 2]), 0));
    assert!(!game.takeAction(act(ActionType::PlaceRobber, &[other, 2]), 0));
    assert!(!game.takeAction(act(ActionType::PlaceRobber, &[tile, 1]), 0));
    assert!(!game.takeAction(act(ActionType::PlaceRobber, &[19, 2]), 0));
    assert!(!game.takeAction(act(ActionType::PlaceRobber, &[tile, 4]), 0));
    assert!(game.board.tiles[at].has_robber);
    assert!(game.takeAction(act(ActionType::PlaceRobber, &[tile, 2]), 0));
    assert!(game.board.tiles[tile].has_robber);
    assert!(!game.board.tiles[at].has_robber);
    assert_eq!(game.players[0].resource_cards, ResourceCounts::new(0, 0, 1, 0, 0));
    assert_eq!(game.players[2].resource_cards, ResourceCounts::empty());
    assert_conserved(&game);
}

#[test]
fn robber_takes_nothing_from_an_empty_hand() {
    let mut game = game_in_play();
    let tile = a_tile_without_robber(&game);
    game.board.nodes[2 * tile + 1].building = Some(Building::City(2 * tile + 1, 3));
    assert!(game.takeAction(act(ActionType::PlaceRobber, &[tile, 3]), 1));
    assert!(game.board.tiles[tile].has_robber);
    assert_eq!(game.players[1].resource_cards, ResourceCounts::empty());
    assert_conserved(&game);
}

#[test]
fn rob_moves_one_card() {
    for _ in 0..50 {
        let mut game = game_in_play();
        deal(&mut game, 1, ResourceCounts::new(2, 0, 1, 0, 0));
        game.rob(1, 3);
        assert_eq!(game.players[1].resource_cards.count(), 2);
        assert_eq!(game.players[3].resource_cards.count(), 1);
        assert_eq!(game.players[3].resource_cards.get(ResourceCard::Wheat), 0);
        assert_conserved(&game);
        game.rob(3, 3);
        assert_eq!(game.players[3].resource_cards.count(), 1);
        game.rob(0, 2);
        assert_eq!(game.players[2].resource_cards.count(), 0);
    }
}

#[test]
fn third_knight_takes_the_largest_army() {
    let mut game = game_in_play();
    let tile = a_tile_without_robber(&game);
    game.board.nodes[2 * tile].building = Some(Building::Settlement(2 * tile, 1));
    hold(&mut game, 0, DevelopmentCard::Knight, 2);
    game.players[0].num_knights_played = 2;
    game.bank.development_card_pointer = 4;
    game.players[1].num_knights_played = 2;
    // not there where the robber cannot go
    assert!(!game.takeAction(act(ActionType::PlayDevelopmentCard, &[0, tile, 2]), 0));
    assert_eq!(game.players[0].development_cards.get(DevelopmentCard::Knight), 2);
    assert!(game.takeAction(act(ActionType::PlayDevelopmentCard, &[0, tile, 1]), 0));
    assert!(game.board.tiles[tile].has_robber);
    assert_eq!(game.players[0].num_knights_played, 3);
    assert_eq!(game.players[0].development_cards.get(DevelopmentCard::Knight), 1);
    assert!(game.players[0].largest_army);
    assert_eq!(game.players[0].victory_points, 2);
    assert_eq!(game.largestArmyHolder(), Some(0));
    // settling again changes nothing
    game.settleLargestArmy(0);
    assert_eq!(game.players[0].victory_points, 2);
    assert_eq!(game.audit(), Ok(()));
}

#[test]
fn larger_army_takes_the_award_over() {
    let mut game = game_in_play();
    game.players[2].num_knights_played = 3;
    game.players[2].largest_army = true;
    game.players[2].num_unplaced_settlements = 2;
    game.players[2].victory_points = 5;
    game.players[1].num_knights_played = 3;
    game.players[1].num_unplaced_settlements = 4;
    game.players[1].victory_points = 1;
    game.bank.development_card_pointer = 7;
    assert!(!game.takesLargestArmy(1));
    game.settleLargestArmy(1);
    assert!(game.players[2].largest_army);
    game.players[1].num_knights_played = 4;
    assert!(game.takesLargestArmy(1));
    game.settleLargestArmy(1);
    assert!(!game.players[2].largest_army);
    assert_eq!(game.players[2].victory_points, 3);
    assert!(game.players[1].largest_army);
    assert_eq!(game.players[1].victory_points, 3);
    game.players[0].num_knights_played = 2;
    assert!(!game.takesLargestArmy(0));
    assert_eq!(game.audit(), Ok(()));
}

#[test]
fn discard_gives_half_the_hand_to_the_bank() {
    let mut game = game_in_play();
    deal(&mut game, 0, ResourceCounts::new(3, 3, 3, 0, 0));
    game.previous_dice_roll = 7;
    // not half of nine rounded down
    assert!(!game.takeAction(act(ActionType::Discard, &[3, 2, 0, 0, 0]), 0));
    assert!(!game.takeAction(act(ActionType::Discard, &[3, 0, 0, 0, 0]), 0));
    // not held
    assert!(!game.takeAction(act(ActionType::Discard, &[4, 0, 0, 0, 0]), 0));
    assert!(game.takeAction(act(ActionType::Discard, &[2, 1, 1, 0, 0]), 0));
    assert_eq!(game.players[0].resource_cards, ResourceCounts::new(1, 2, 2, 0, 0));
    assert_eq!(game.bank.amountOfResource(ResourceCard::Ore), 18);
    assert_conserved(&game);
    // five cards are not halved
    assert!(!game.takeAction(act(ActionType::Discard, &[1, 1, 0, 0, 0]), 0));
}

#[test]
fn discard_needs_a_seven_and_eight_cards() {
    let mut game = game_in_play();
    deal(&mut game, 0, ResourceCounts::new(4, 4, 0, 0, 0));
    game.previous_dice_roll = 8;
    assert!(!game.takeAction(act(ActionType::Discard, &[2, 2, 0, 0, 0]), 0));
    game.previous_dice_roll = 7;
    assert!(game.takeAction(act(ActionType::Discard, &[2, 2, 0, 0, 0]), 0));
    assert_eq!(game.players[0].resource_cards, ResourceCounts::new(2, 2, 0, 0, 0));
    let mut game = game_in_play();
    deal(&mut game, 1, ResourceCounts::new(4, 3, 0, 0, 0));
    game.previous_dice_roll = 7;
    assert!(!game.takeAction(act(ActionType::Discard, &[2, 1, 0, 0, 0]), 1));
    assert_eq!(game.audit(), Ok(()));
}

#[test]
fn port_trade_gives_three_for_one_or_two_for_one() {
    let mut game = game_in_play();
    // port 2 serves the nodes 10 and 15, port 3 the nodes 11 and 16
    game.board.ports[2] = Port::ThreeToOne;
    game.board.ports[3] = Port::Sheep;
    for port in [0, 1, 4, 5, 6, 7, 8] {
        game.board.ports[port] = Port::Ore;
    }
    game.board.nodes[15].building = Some(Building::Settlement(15, 0));
    game.board.nodes[11].building = Some(Building::City(11, 0));
    deal(&mut game, 0, ResourceCounts::new(0, 3, 2, 0, 0));
    assert!(game.atPort(0, 2));
    assert!(game.atPort(0, 3));
    assert!(!game.atPort(0, 0));
    assert!(!game.atPort(1, 2));
    assert!(game.portTakes(0, ResourceCard::Wheat, 3));
    assert!(game.portTakes(0, ResourceCard::Sheep, 2));
    assert!(!game.portTakes(0, ResourceCard::Wheat, 2));
    assert!(!game.portTakes(0, ResourceCard::Ore, 2));
    assert!(game.takeAction(act(ActionType::OfferTrade, &[0, 3, 0, 0, 0, 0, 0, 0, 1, 0]), 0));
    assert_eq!(game.players[0].resource_cards, ResourceCounts::new(0, 0, 2, 1, 0));
    assert_eq!(game.bank.amountOfResource(ResourceCard::Wheat), 19);
    assert_eq!(game.bank.amountOfResource(ResourceCard::Brick), 18);
    assert!(game.current_trade_offer.is_none());
    assert_eq!(game.current_player_id, 0);
    assert!(game.offerPortTrade(act(ActionType::OfferTrade, &[0, 0, 2, 0, 0, 1, 0, 0, 0, 0]), 0));
    assert_eq!(game.players[0].resource_cards, ResourceCounts::new(1, 0, 0, 1, 0));
    assert_conserved(&game);
}

#[test]
fn port_trade_needs_a_port_the_right_number_and_a_card_in_the_bank() {
    let mut game = game_in_play();
    for port in 0..9 {
        game.board.ports[port] = Port::ThreeToOne;
    }
    game.board.nodes[15].building = Some(Building::Settlement(15, 0));
    deal(&mut game, 0, ResourceCounts::new(4, 3, 0, 0, 0));
    deal(&mut game, 1, ResourceCounts::new(3, 0, 0, 0, 0));
    deal(&mut game, 3, ResourceCounts::new(0, 0, 0, 0, 19));
    // four cards, two kinds, two cards asked, nothing asked, no port, an empty bank
    assert!(!game.offerPortTrade(act(ActionType::OfferTrade, &[4, 0, 0, 0, 0, 0, 0, 1, 0, 0]), 0));
    assert!(!game.offerPortTrade(act(ActionType::OfferTrade, &[3, 3, 0, 0, 0, 0, 0, 1, 0, 0]), 0));
    assert!(!game.offerPortTrade(act(ActionType::OfferTrade, &[3, 0, 0, 0, 0, 0, 0, 2, 0, 0]), 0));
    assert!(!game.offerPortTrade(act(ActionType::OfferTrade, &[3, 0, 0, 0, 0, 0, 0, 1, 1, 0]), 0));
    assert!(!game.offerPortTrade(act(ActionType::OfferTrade, &[3, 0, 0, 0, 0, 0, 0, 0, 0, 0]), 0));
    assert!(!game.offerPortTrade(act(ActionType::OfferTrade, &[3, 0, 0, 0, 0, 0, 0, 1, 0, 0]), 1));
    assert!(!game.offerPortTrade(act(ActionType::OfferTrade, &[3, 0, 0, 0, 0, 0, 0, 0, 0, 1]), 0));
    assert!(!game.offerPortTrade(act(ActionType::OfferTrade, &[0, 0, 3, 0, 0, 1, 0, 0, 0, 0]), 0));
    assert_eq!(game.players[0].resource_cards, ResourceCounts::new(4, 3, 0, 0, 0));
    assert!(game.offerPortTrade(act(ActionType::OfferTrade, &[3, 0, 0, 0, 0, 0, 0, 1, 0, 0]), 0));
    assert_eq!(game.players[0].resource_cards, ResourceCounts::new(1, 3, 1, 0, 0));
    assert_eq!(game.audit(), Ok(()));
}

#[test]
fn offer_goes_round_and_is_taken_up_by_the_offerer() {
    let mut game = game_in_play();
    deal(&mut game, 0, ResourceCounts::new(2, 1, 0, 0, 0));
    deal(&mut game, 1, ResourceCounts::new(0, 1, 0, 0, 0));
    deal(&mut game, 2, ResourceCounts::new(0, 0, 0, 3, 0));
    // player 0 gives two ore for a wheat
    let offer = act(ActionType::OfferTrade, &[2, 0, 0, 0, 0, 0, 1, 0, 0, 0]);
    assert!(game.takeAction(offer, 0));
    assert_eq!(game.current_player_id, 1);
    let standing = game.current_trade_offer.unwrap();
    assert_eq!(standing.player_offerer_id, 0);
    assert_eq!(standing.giving_resources, ResourceCounts::new(2, 0, 0, 0, 0));
    assert_eq!(standing.receiving_resources, ResourceCounts::new(0, 1, 0, 0, 0));
    // the others can only answer
    assert!(!game.takeAction(act(ActionType::EndTurn, &[]), 1));
    assert!(!game.takeAction(act(ActionType::RollDice, &[]), 1));
    assert!(game.takeAction(act(ActionType::AcceptTrade, &[]), 1));
    assert_eq!(game.players_accepted_trade_offer, [false, true, false, false]);
    assert_eq!(game.current_player_id, 2);
    // player 2 has no wheat and cannot accept, but can decline
    assert!(!game.takeAction(act(ActionType::AcceptTrade, &[]), 2));
    assert!(game.takeAction(act(ActionType::DeclineTrade, &[]), 2));
    assert_eq!(game.current_player_id, 3);
    assert!(game.takeAction(act(ActionType::DeclineTrade, &[]), 3));
    assert_eq!(game.current_player_id, 0);
    // the offerer takes up an acceptance, and only an acceptance
    assert!(!game.takeAction(act(ActionType::AcceptTrade, &[2]), 0));
    assert!(!game.takeAction(act(ActionType::AcceptTrade, &[4]), 0));
    assert!(game.takeAction(act(ActionType::AcceptTrade, &[1]), 0));
    assert_eq!(game.players[0].resource_cards, ResourceCounts::new(0, 2, 0, 0, 0));
    assert_eq!(game.players[1].resource_cards, ResourceCounts::new(2, 0, 0, 0, 0));
    assert_eq!(game.players[2].resource_cards, ResourceCounts::new(0, 0, 0, 3, 0));
    assert_eq!(game.current_player_id, 0);
    assert_conserved(&game);
    // the offer stands until the game is reset, and the offerer plays on
    assert!(game.current_trade_offer.is_some());
    assert!(game.takeAction(act(ActionType::EndTurn, &[]), 0));
}

#[test]
fn offer_needs_the_cards_given() {
    let mut game = game_in_play();
    deal(&mut game, 0, ResourceCounts::new(1, 0, 0, 0, 0));
    assert!(!game.takeAction(act(ActionType::OfferTrade, &[2, 0, 0, 0, 0, 0, 1, 0, 0, 0]), 0));
    assert!(game.current_trade_offer.is_none());
    assert_eq!(game.current_player_id, 0);
    assert!(!game.takeAction(act(ActionType::AcceptTrade, &[]), 1));
    assert!(!game.takeAction(act(ActionType::DeclineTrade, &[]), 1));
    assert_eq!(game.audit(), Ok(()));
}

#[test]
fn exchange_fails_when_the_partner_has_spent_the_cards() {
    let mut game = game_in_play();
    deal(&mut game, 0, ResourceCounts::new(1, 1, 0, 0, 0));
    deal(&mut game, 1, ResourceCounts::new(0, 1, 0, 0, 0));
    assert!(game.takeAction(act(ActionType::OfferTrade, &[1, 0, 0, 0, 0, 0, 1, 0, 0, 0]), 0));
    assert!(game.takeAction(act(ActionType::AcceptTrade, &[]), 1));
    game.collect(1, ResourceCounts::new(0, 1, 0, 0, 0));
    assert!(!game.takeAction(act(ActionType::AcceptTrade, &[1]), 0));
    assert_eq!(game.players[0].resource_cards, ResourceCounts::new(1, 1, 0, 0, 0));
    assert_eq!(game.players[1].resource_cards, ResourceCounts::empty());
    assert_conserved(&game);
}

#[test]
fn cards_move_between_bank_and_hands() {
    let mut game = chain_game();
    game.give(2, ResourceCard::Brick, 5);
    assert_eq!(game.players[2].resource_cards, ResourceCounts::new(0, 0, 0, 5, 0));
    assert_eq!(game.bank.amountOfResource(ResourceCard::Brick), 14);
    game.hand_over(2, 0, ResourceCounts::new(0, 0, 0, 2, 0));
    assert_eq!(game.players[2].resource_cards, ResourceCounts::new(0, 0, 0, 3, 0));
    assert_eq!(game.players[0].resource_cards, ResourceCounts::new(0, 0, 0, 2, 0));
    game.hand_over(2, 2, ResourceCounts::new(0, 0, 0, 3, 0));
    assert_eq!(game.players[2].resource_cards, ResourceCounts::new(0, 0, 0, 3, 0));
    game.collect(0, ResourceCounts::new(0, 0, 0, 1, 0));
    assert_eq!(game.players[0].resource_cards, ResourceCounts::new(0, 0, 0, 1, 0));
    assert_eq!(game.bank.amountOfResource(ResourceCard::Brick), 15);
    assert_conserved(&game);
    game.pass_on();
    assert_eq!(game.current_player_id, 1);
    game.current_player_id = 3;
    game.pass_on();
    assert_eq!(game.current_player_id, 0);
}

#[test]
fn bookkeeping_counts_pieces_cards_and_awards() {
    let mut game = chain_game();
    game.record_settlement(1, 8, false);
    game.record_settlement(1, 12, true);
    assert_eq!(game.players[1].settlement_placements, vec![8, 12]);
    assert_eq!(game.players[1].num_unplaced_settlements, 3);
    assert_eq!(game.players[1].victory_points, 1);
    game.record_city(1, 8);
    assert_eq!(game.players[1].city_placements, vec![8]);
    assert_eq!(game.players[1].num_unplaced_cities, 3);
    assert_eq!(game.players[1].num_unplaced_settlements, 4);
    assert_eq!(game.players[1].victory_points, 2);
    game.record_road(1, 7);
    assert_eq!(game.players[1].road_placements, vec![7]);
    assert_eq!(game.players[1].num_unplaced_roads, 14);
    let first = game.bank.development_cards[0];
    assert_eq!(game.draw_for(1), Some(first));
    assert_eq!(game.players[1].development_cards_drawn_this_turn.get(first), 1);
    game.release_cards(1);
    assert_eq!(game.players[1].development_cards.get(first), 1);
    game.spend_card(1, first);
    assert_eq!(game.players[1].development_cards.get(first), 0);
    hold(&mut game, 1, DevelopmentCard::Knight, 1);
    game.spend_knight(1);
    assert_eq!(game.players[1].num_knights_played, 1);
    assert_eq!(game.players[1].development_cards.get(DevelopmentCard::Knight), 0);
    game.grant_longest_road(1);
    game.grant_largest_army(1);
    assert_eq!(game.players[1].victory_points, 6);
    game.strip_longest_road(1);
    game.strip_largest_army(1);
    assert_eq!(game.players[1].victory_points, 2);
    assert!(!game.players[1].longest_road);
    assert!(!game.players[1].largest_army);
    assert_eq!(game.longestRoadHolder(), None);
    assert_eq!(game.largestArmyHolder(), None);
    game.bank.development_card_pointer = 25;
    assert_eq!(game.draw_for(0), None);
}

#[test]
fn cards_are_conserved_through_a_run_of_actions() {
    let mut game = chain_game();
    for (player, node) in [(0, 0), (1, 4), (2, 8)] {
        assert!(game.takeAction(act(ActionType::PlaySettlement, &[node]), player));
        assert!(game.takeAction(act(ActionType::PlayRoad, &[node]), player));
        assert_conserved(&game);
    }
    assert!(game.takeAction(act(ActionType::PlaySettlement, &[12]), 3));
    for t in 0..19 {
        game.board.tiles[t].chit = 2 + (t as i32 % 11);
    }
    deal(&mut game, 0, ResourceCounts::new(2, 2, 2, 2, 2));
    let actions = [
        act(ActionType::RollDice, &[]),
        act(ActionType::PlayRoad, &[1]),
        act(ActionType::DrawDevelopmentCard, &[]),
        act(ActionType::PlaySettlement, &[2]),
        act(ActionType::OfferTrade, &[0, 0, 1, 0, 0, 1, 0, 0, 0, 0]),
        act(ActionType::DeclineTrade, &[]),
        act(ActionType::EndTurn, &[]),
        act(ActionType::RollDice, &[]),
    ];
    for action in actions {
        let player = game.current_player_id;
        game.takeAction(action, player);
        assert_conserved(&game);
    }
}

#[test]
fn started_game_uses_the_board_and_the_bank_given() {
    let terrains = vec![
        Terrain::Desert, Terrain::Mountains, Terrain::Forest, Terrain::Forest, Terrain::Forest,
        Terrain::Forest, Terrain::Plains, Terrain::Plains, Terrain::Plains, Terrain::Plains,
        Terrain::Fields, Terrain::Fields, Terrain::Fields, Terrain::Fields, Terrain::Mountains,
        Terrain::Mountains, Terrain::Hills, Terrain::Hills, Terrain::Hills,
    ];
    let ports = vec![Port::ThreeToOne; 9];
    let mut edges = Vec::new();
    for e in 0..53 {
        edges.push((e, e));
        edges.push((e + 1, e));
    }
    let mut tiles = Vec::new();
    for t in 0..19 {
        tiles.push((t, 2 * t));
    }
    let board = Board::assemble(&edges, &tiles, ports, terrains);
    let mut stack = vec![DevelopmentCard::Knight; 25];
    stack[0] = DevelopmentCard::YearOfPlenty;
    let mut game = Game::start(board, Bank::stocked(stack));
    assert_eq!(game.turn_number, 0);
    assert_eq!(game.current_player_id, 0);
    assert!(game.board.tiles[0].has_robber);
    assert_eq!(game.board.tiles[1].terrain, Terrain::Mountains);
    assert_conserved(&game);
    // the same game plays the same way every time
    assert!(game.takeAction(act(ActionType::PlaySettlement, &[2]), 0));
    game.turn_number = 7;
    game.board.tiles[1].chit = 3;
    game.applyDiceRoll(3);
    assert_eq!(game.players[0].resource_cards, ResourceCounts::new(1, 0, 0, 0, 0));
    deal(&mut game, 0, ResourceCounts::new(0, 1, 1, 0, 0));
    assert!(game.takeAction(act(ActionType::DrawDevelopmentCard, &[]), 0));
    assert_eq!(
        game.players[0].development_cards_drawn_this_turn.get(DevelopmentCard::YearOfPlenty),
        1
    );
    assert!(game.takeAction(act(ActionType::EndTurn, &[]), 0));
    assert_eq!(game.players[0].development_cards.get(DevelopmentCard::YearOfPlenty), 1);
    assert_conserved(&game);
}

#[test]
fn end_turn_ends_the_turn_of_the_player_whose_turn_it_is() {
    let mut game = game_in_play();
    game.current_player_id = 1;
    game.players[1].development_cards_drawn_this_turn.set(DevelopmentCard::Monopoly, 1);
    game.players[2].development_cards_drawn_this_turn.set(DevelopmentCard::Knight, 1);
    game.bank.development_card_pointer = 2;
    assert!(game.takeAction(act(ActionType::EndTurn, &[]), 2));
    assert_eq!(game.players[1].development_cards.get(DevelopmentCard::Monopoly), 1);
    assert_eq!(game.players[2].development_cards.get(DevelopmentCard::Knight), 0);
    assert_eq!(game.players[2].development_cards_drawn_this_turn.get(DevelopmentCard::Knight), 1);
    assert_eq!(game.current_player_id, 2);
    assert_eq!(game.audit(), Ok(()));
}

#[test]
fn refused_action_leaves_the_game_as_it_was() {
    let mut game = game_in_play();
    game.board.edges[10].building = Some(Building::Road(10, 0));
    deal(&mut game, 0, ResourceCounts::new(1, 1, 0, 1, 0));
    hold(&mut game, 0, DevelopmentCard::RoadBuilding, 1);
    let before = format!("{:?}", game.clone());
    let refused = [
        act(ActionType::PlayRoad, &[11]),
        act(ActionType::PlaySettlement, &[10]),
        act(ActionType::PlayCity, &[10]),
        act(ActionType::DrawDevelopmentCard, &[]),
        act(ActionType::Discard, &[1, 0, 0, 0, 0]),
        act(ActionType::PlaceRobber, &[0, 1]),
        act(ActionType::AcceptTrade, &[1]),
        act(ActionType::DeclineTrade, &[]),
        act(ActionType::OfferTrade, &[2, 0, 0, 0, 0, 0, 0, 1, 0, 0]),
        act(ActionType::PlayDevelopmentCard, &[2, 11, 30]),
        act(ActionType::PlayDevelopmentCard, &[0, 0, 1]),
        act(ActionType::RollDice, &[]),
    ];
    for action in refused {
        assert!(!game.takeAction(action, 0));
        assert_eq!(format!("{:?}", game), before);
    }
}
