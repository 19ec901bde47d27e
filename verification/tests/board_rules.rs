use catan_game_api::board::{pairsWithin, Board};
use catan_game_api::building::Building;
use catan_game_api::port::Port;
use catan_game_api::terrain::Terrain;

/// A map in which edge `e` joins the nodes `e` and `e + 1`, and tile `t`
/// has the corners `2t` and `2t + 1`.
fn chain_edges() -> Vec<(usize, usize)> {
    let mut pairs = Vec::new();
    for e in 0..53 {
        pairs.push((e, e));
        pairs.push((e + 1, e));
    }
    pairs
}

fn chain_tiles() -> Vec<(usize, usize)> {
    let mut pairs = Vec::new();
    for t in 0..19 {
        pairs.push((t, 2 * t));
        pairs.push((t, 2 * t + 1));
    }
    pairs
}

fn chain_board() -> Board {
    Board::new(&chain_edges(), &chain_tiles())
}

#[test]
fn new_board_has_all_its_parts() {
    let board = chain_board();
    assert_eq!(board.nodes.len(), 54);
    assert_eq!(board.edges.len(), 72);
    assert_eq!(board.tiles.len(), 19);
    assert_eq!(board.ports.len(), 9);
    assert_eq!(board.port_node_mapping.len(), 9);
}

#[test]
fn new_board_has_one_robber_on_the_desert() {
    for _ in 0..20 {
        let board = chain_board();
        let robbers: Vec<usize> =
            (0..19).filter(|t| board.tiles[*t].has_robber).collect();
        assert_eq!(robbers.len(), 1);
        assert_eq!(board.tiles[robbers[0]].terrain, Terrain::Desert);
    }
}

#[test]
fn new_board_has_the_standard_terrains() {
    let board = chain_board();
    let count = |terrain: Terrain| board.tiles.iter().filter(|t| t.terrain == terrain).count();
    assert_eq!(count(Terrain::Forest), 4);
    assert_eq!(count(Terrain::Plains), 4);
    assert_eq!(count(Terrain::Fields), 4);
    assert_eq!(count(Terrain::Mountains), 3);
    assert_eq!(count(Terrain::Hills), 3);
    assert_eq!(count(Terrain::Desert), 1);
}

#[test]
fn new_board_has_the_standard_ports() {
    let board = chain_board();
    let count = |port: Port| board.ports.iter().filter(|p| **p == port).count();
    assert_eq!(count(Port::ThreeToOne), 4);
    assert_eq!(count(Port::Lumber), 1);
    assert_eq!(count(Port::Ore), 1);
    assert_eq!(count(Port::Wheat), 1);
    assert_eq!(count(Port::Sheep), 1);
    assert_eq!(count(Port::Brick), 1);
}

#[test]
fn new_board_shuffles_its_terrains() {
    let unshuffled = |t: usize| {
        if t < 4 {
            Terrain::Forest
        } else if t < 8 {
            Terrain::Plains
        } else if t < 12 {
            Terrain::Fields
        } else if t < 15 {
            Terrain::Mountains
        } else if t < 18 {
            Terrain::Hills
        } else {
            Terrain::Desert
        }
    };
    let mut moved = false;
    for _ in 0..20 {
        let board = chain_board();
        if (0..19).any(|t| board.tiles[t].terrain != unshuffled(t)) {
            moved = true;
        }
    }
    assert!(moved);
}

#[test]
fn new_board_has_fixed_port_nodes_and_no_chits() {
    let board = chain_board();
    assert_eq!(
        board.port_node_mapping,
        vec![(0, 3), (1, 5), (10, 15), (11, 16), (26, 32), (33, 38), (42, 46), (47, 51), (49, 52)]
    );
    for t in 0..19 {
        assert_eq!(board.tiles[t].chit, 0);
        assert_eq!(board.tiles[t].index, t);
    }
}

#[test]
fn new_board_links_neighbours_both_ways() {
    let board = chain_board();
    assert_eq!(board.nodes[0].adjacent_edges, vec![0]);
    assert_eq!(board.nodes[5].adjacent_edges, vec![4, 5]);
    assert_eq!(board.nodes[53].adjacent_edges, vec![52]);
    assert_eq!(board.edges[5].adjacent_nodes, vec![5, 6]);
    assert_eq!(board.edges[60].adjacent_nodes, Vec::<usize>::new());
    assert_eq!(board.tiles[3].adjacent_nodes, vec![6, 7]);
    assert_eq!(board.nodes[7].adjacent_tiles, vec![3]);
    assert_eq!(board.nodes[40].adjacent_tiles, Vec::<usize>::new());
    for n in 0..54 {
        assert_eq!(board.nodes[n].position, n);
        assert!(!board.nodes[n].hasBuilding());
    }
    for e in 0..72 {
        assert_eq!(board.edges[e].position, e);
        assert!(!board.edges[e].hasRoad());
    }
}

#[test]
fn pairs_within_checks_both_sides() {
    assert!(pairsWithin(&chain_edges(), 54, 72));
    assert!(pairsWithin(&chain_tiles(), 19, 54));
    assert!(!pairsWithin(&vec![(54, 0)], 54, 72));
    assert!(!pairsWithin(&vec![(0, 72)], 54, 72));
    assert!(pairsWithin(&vec![], 54, 72));
}

#[test]
fn initial_settlement_needs_a_free_node_with_free_neighbours() {
    let mut board = chain_board();
    assert!(board.placeInitialSettlement(Building::Settlement(5, 0)));
    assert_eq!(board.nodes[5].building, Some(Building::Settlement(5, 0)));
    // built on
    assert!(!board.placeInitialSettlement(Building::Settlement(5, 1)));
    // one edge away
    assert!(!board.placeInitialSettlement(Building::Settlement(4, 1)));
    assert!(!board.placeInitialSettlement(Building::Settlement(6, 1)));
    // two edges away
    assert!(board.placeInitialSettlement(Building::Settlement(7, 1)));
    // off the map
    assert!(!board.placeInitialSettlement(Building::Settlement(54, 1)));
    // not a settlement
    assert!(!board.placeInitialSettlement(Building::City(20, 1)));
    assert!(!board.placeInitialSettlement(Building::Road(20, 1)));
    assert!(board.nodes[20].building.is_none());
}

#[test]
fn initial_road_needs_a_settlement_of_its_owner() {
    let mut board = chain_board();
    assert!(board.placeInitialSettlement(Building::Settlement(5, 0)));
    // no settlement at either end
    assert!(!board.placeInitialRoad(Building::Road(10, 0)));
    // a settlement of another player
    assert!(!board.placeInitialRoad(Building::Road(5, 1)));
    assert!(board.placeInitialRoad(Building::Road(5, 0)));
    assert_eq!(board.edges[5].building, Some(Building::Road(5, 0)));
    // built on
    assert!(!board.placeInitialRoad(Building::Road(5, 0)));
    assert!(board.placeInitialRoad(Building::Road(4, 0)));
    // off the map, or not a road
    assert!(!board.placeInitialRoad(Building::Road(72, 0)));
    assert!(!board.placeInitialRoad(Building::Settlement(4, 0)));
}

#[test]
fn initial_road_does_not_count_a_city() {
    let mut board = chain_board();
    board.nodes[8].building = Some(Building::City(8, 2));
    assert!(!board.placeInitialRoad(Building::Road(8, 2)));
}

#[test]
fn road_needs_an_empty_edge_and_a_road_beside_it() {
    let mut board = chain_board();
    board.edges[10].building = Some(Building::Road(10, 0));
    // positive: empty edge beside a road of the same player
    assert_eq!(board.placeRoad(Building::Road(11, 0)), (true, false));
    assert_eq!(board.edges[11].building, Some(Building::Road(11, 0)));
    // negative: the edge is built on
    assert_eq!(board.placeRoad(Building::Road(11, 0)), (false, true));
    assert_eq!(board.placeRoad(Building::Road(10, 1)), (false, true));
    // negative: the road beside belongs to another player
    assert_eq!(board.placeRoad(Building::Road(12, 1)), (false, false));
    assert!(board.edges[12].building.is_none());
    // negative: no road beside
    assert_eq!(board.placeRoad(Building::Road(20, 0)), (false, false));
    // negative: off the map, or not a road
    assert_eq!(board.placeRoad(Building::Road(72, 0)), (false, false));
    assert_eq!(board.placeRoad(Building::Settlement(12, 0)), (false, false));
    // positive, on the other side
    assert_eq!(board.placeRoad(Building::Road(9, 0)), (true, false));
}

#[test]
fn road_does_not_join_a_settlement_alone() {
    let mut board = chain_board();
    board.nodes[5].building = Some(Building::Settlement(5, 0));
    assert_eq!(board.placeRoad(Building::Road(5, 0)), (false, false));
}

#[test]
fn settlement_keeps_its_distance_on_any_board() {
    let mut board = chain_board();
    board.nodes[5].building = Some(Building::Settlement(5, 1));
    board.edges[5].building = Some(Building::Road(5, 0));
    board.edges[6].building = Some(Building::Road(6, 0));
    // node 6 has a road of player 0 but is one edge from node 5
    assert!(!board.placeSettlement(Building::Settlement(6, 0)));
    assert!(board.nodes[6].building.is_none());
    // node 4 is one edge from node 5 and has no road
    assert!(!board.placeSettlement(Building::Settlement(4, 0)));
    // node 7 is two edges away and has a road of player 0
    assert!(board.placeSettlement(Building::Settlement(7, 0)));
    assert_eq!(board.nodes[7].building, Some(Building::Settlement(7, 0)));
    // with a city instead of a settlement the distance is kept too
    board.nodes[20].building = Some(Building::City(20, 2));
    board.edges[20].building = Some(Building::Road(20, 0));
    assert!(!board.placeSettlement(Building::Settlement(21, 0)));
}

#[test]
fn settlement_needs_a_road_of_its_owner() {
    let mut board = chain_board();
    board.edges[30].building = Some(Building::Road(30, 1));
    assert!(!board.placeSettlement(Building::Settlement(30, 0)));
    assert!(!board.placeSettlement(Building::Settlement(40, 0)));
    assert!(board.placeSettlement(Building::Settlement(30, 1)));
    assert!(!board.placeSettlement(Building::Settlement(30, 1)));
    assert!(!board.placeSettlement(Building::Settlement(54, 1)));
    assert!(!board.placeSettlement(Building::City(31, 1)));
}

#[test]
fn city_replaces_a_settlement() {
    let mut board = chain_board();
    // nothing to upgrade
    assert!(!board.placeCity(Building::City(5, 0)));
    assert!(board.nodes[5].building.is_none());
    board.nodes[5].building = Some(Building::Settlement(5, 0));
    assert!(board.placeCity(Building::City(5, 0)));
    assert_eq!(board.nodes[5].building, Some(Building::City(5, 0)));
    // a city is not upgraded again
    assert!(!board.placeCity(Building::City(5, 0)));
    assert!(!board.placeCity(Building::City(54, 0)));
    assert!(!board.placeCity(Building::Settlement(5, 0)));
}

#[test]
fn city_takes_over_a_settlement_that_stands_on_its_node() {
    let mut board = chain_board();
    board.nodes[9].building = Some(Building::Settlement(9, 1));
    assert!(board.placeCity(Building::City(9, 0)));
    assert_eq!(board.nodes[9].building, Some(Building::City(9, 0)));
}

#[test]
fn remove_road_clears_the_edge() {
    let mut board = chain_board();
    board.edges[10].building = Some(Building::Road(10, 0));
    assert!(board.removeRoad(Building::Road(10, 3)));
    assert!(board.edges[10].building.is_none());
    assert!(board.removeRoad(Building::Road(10, 3)));
    assert!(!board.removeRoad(Building::Road(72, 0)));
    assert!(!board.removeRoad(Building::Settlement(10, 0)));
}

#[test]
fn two_roads_are_placed_together_or_not_at_all() {
    let mut board = chain_board();
    board.edges[10].building = Some(Building::Road(10, 0));
    board.edges[12].building = Some(Building::Road(12, 1));
    // the second edge is taken: the first road is taken away again
    assert!(!board.placeTwoRoads(11, 12, 0));
    assert!(board.edges[11].building.is_none());
    assert_eq!(board.edges[12].building, Some(Building::Road(12, 1)));
    // the first cannot be placed: the second is taken away again
    assert!(!board.placeTwoRoads(30, 11, 0));
    assert!(board.edges[11].building.is_none());
    assert!(board.edges[30].building.is_none());
    // twice the same edge
    assert!(!board.placeTwoRoads(11, 11, 0));
    assert!(board.edges[11].building.is_none());
    // the second joins the first
    board.edges[12].building = None;
    assert!(board.placeTwoRoads(11, 12, 0));
    assert_eq!(board.edges[11].building, Some(Building::Road(11, 0)));
    assert_eq!(board.edges[12].building, Some(Building::Road(12, 0)));
}

#[test]
fn robber_moves_to_one_tile() {
    let mut board = chain_board();
    board.moveRobber(4);
    for t in 0..19 {
        assert_eq!(board.tiles[t].has_robber, t == 4);
    }
    board.moveRobber(17);
    for t in 0..19 {
        assert_eq!(board.tiles[t].has_robber, t == 17);
    }
}

#[test]
fn buildings_at_a_tile_are_found_by_owner() {
    let mut board = chain_board();
    board.nodes[6].building = Some(Building::Settlement(6, 2));
    board.nodes[7].building = Some(Building::City(7, 3));
    assert!(board.hasBuildingOf(3, 2));
    assert!(board.hasBuildingOf(3, 3));
    assert!(!board.hasBuildingOf(3, 0));
    assert!(!board.hasBuildingOf(2, 2));
}

#[test]
fn longest_road_follows_a_chain() {
    let mut board = chain_board();
    for e in 0..5 {
        board.edges[e].building = Some(Building::Road(e, 0));
    }
    board.edges[5].building = Some(Building::Road(5, 1));
    board.edges[6].building = Some(Building::Road(6, 0));
    assert_eq!(board.longestRoad(0, &vec![0, 1, 2, 3, 4, 6]), 5);
    assert_eq!(board.longestRoad(0, &vec![2]), 3);
    assert_eq!(board.longestRoad(0, &vec![6]), 1);
    assert_eq!(board.longestRoad(1, &vec![5]), 1);
    assert_eq!(board.longestRoad(0, &vec![]), 0);
    // twice in a row the length is the same
    assert_eq!(board.longestRoad(0, &vec![0, 1, 2, 3, 4, 6]), 5);
}

#[test]
fn longest_road_goes_through_a_fork() {
    // the edges 0, 1 and 2 meet in node 0; edge 3 goes on from edge 2
    let edges = vec![(0, 0), (0, 1), (0, 2), (1, 0), (2, 1), (3, 2), (3, 3), (4, 3)];
    let mut board = Board::new(&edges, &vec![]);
    for e in 0..4 {
        board.edges[e].building = Some(Building::Road(e, 0));
    }
    assert_eq!(board.longestRoad(0, &vec![0]), 4);
    assert_eq!(board.longestRoad(0, &vec![3]), 4);
    assert_eq!(board.longestRoad(0, &vec![2]), 3);
    assert_eq!(board.longestRoad(0, &vec![0, 1, 2, 3]), 4);
    let mut visited = vec![false; 72];
    visited[2] = true;
    assert_eq!(board.checkRoadSize(0, &mut visited, 2), 3);
    assert_eq!(visited.iter().filter(|v| **v).count(), 1);
    visited[3] = true;
    assert_eq!(board.checkRoadSize(0, &mut visited, 2), 3);
    visited[0] = true;
    assert_eq!(board.checkRoadSize(0, &mut visited, 2), 2);
}

#[test]
fn tile_yield_counts_settlements_and_cities() {
    let mut board = chain_board();
    board.nodes[6].building = Some(Building::Settlement(6, 0));
    board.nodes[7].building = Some(Building::City(7, 0));
    assert_eq!(board.tileYield(3, 0), 3);
    assert_eq!(board.tileYield(3, 1), 0);
    board.nodes[7].building = Some(Building::City(7, 1));
    assert_eq!(board.tileYield(3, 0), 1);
    assert_eq!(board.tileYield(3, 1), 2);
}

#[test]
fn assembled_board_has_the_layout_given() {
    let terrains = vec![
        Terrain::Hills, Terrain::Desert, Terrain::Forest, Terrain::Forest, Terrain::Forest,
        Terrain::Forest, Terrain::Plains, Terrain::Plains, Terrain::Plains, Terrain::Plains,
        Terrain::Fields, Terrain::Fields, Terrain::Fields, Terrain::Fields, Terrain::Mountains,
        Terrain::Mountains, Terrain::Mountains, Terrain::Hills, Terrain::Hills,
    ];
    let ports = vec![
        Port::Brick, Port::ThreeToOne, Port::Ore, Port::ThreeToOne, Port::Wheat,
        Port::ThreeToOne, Port::Sheep, Port::ThreeToOne, Port::Lumber,
    ];
    let board = Board::assemble(&chain_edges(), &chain_tiles(), ports.clone(), terrains.clone());
    assert_eq!(board.ports, ports);
    for t in 0..19 {
        assert_eq!(board.tiles[t].terrain, terrains[t]);
        assert_eq!(board.tiles[t].has_robber, t == 1);
        assert_eq!(board.tiles[t].chit, 0);
        assert_eq!(board.tiles[t].adjacent_nodes, vec![2 * t, 2 * t + 1]);
    }
    assert_eq!(board.nodes.len(), 54);
    assert_eq!(board.edges.len(), 72);
    assert_eq!(board.nodes[1].adjacent_edges, vec![0, 1]);
    assert_eq!(board.nodes[1].adjacent_tiles, vec![0]);
    assert_eq!(board.port_node_mapping[8], (49, 52));
}
