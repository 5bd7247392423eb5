use std::collections::HashSet;

use combat_core::chunk::{Chunk, ChunkCoordinate};
use combat_core::reach::{flood_search, movement_options};
use combat_core::session::{choose_placement_spots, ground_tiles};
use combat_core::tile::{LocalSpace, Tile, TileCoordinate};

fn local(x: i32, z: i32) -> TileCoordinate<LocalSpace> {
    TileCoordinate::new(x, z)
}

fn manhattan(a: (i32, i32), b: (i32, i32)) -> i32 {
    (a.0 - b.0).abs() + (a.1 - b.1).abs()
}

#[test]
fn open_grid_reaches_the_manhattan_ball() {
    let chunk = Chunk::filled(Tile::Ground);
    let origin = (6, 20);
    for budget in 1u8..=5 {
        let result = flood_search(&chunk, local(origin.0, origin.1), budget);
        // count, the origin excluded: 2 * B * (B + 1)
        let b = budget as i32;
        assert_eq!(result.len() as i32, 2 * b * (b + 1));
        let mut seen = HashSet::new();
        for (t, cost) in &result {
            // no tile twice, every cost within the budget and exactly
            // the Manhattan distance, never the origin
            assert!(seen.insert((t.x, t.z)));
            assert!(*cost >= 1 && *cost <= budget);
            assert_eq!(manhattan((t.x, t.z), origin), *cost as i32);
        }
        // exactly the ball: every tile at distance <= budget is present
        for x in 0..14 {
            for z in 0..40 {
                let d = manhattan((x, z), origin);
                assert_eq!(seen.contains(&(x, z)), d >= 1 && d <= b);
            }
        }
    }
}

#[test]
fn costs_come_out_layer_by_layer() {
    let chunk = Chunk::filled(Tile::Ground);
    let result = flood_search(&chunk, local(6, 20), 4);
    for pair in result.windows(2) {
        assert!(pair[0].1 <= pair[1].1);
    }
}

#[test]
fn chunk_boundary_clips_the_ball() {
    let chunk = Chunk::filled(Tile::Ground);
    // origin in the corner: only the quadrant inside the chunk is reachable
    let result = flood_search(&chunk, local(0, 0), 2);
    let set: HashSet<(i32, i32)> = result.iter().map(|(t, _)| (t.x, t.z)).collect();
    assert_eq!(
        set,
        HashSet::from([(1, 0), (0, 1), (2, 0), (1, 1), (0, 2)])
    );
}

/// A single blocked tile at distance 1 along the only path to a further
/// tile removes that further tile, while tiles reachable by an alternate
/// path of equal or lower cost remain.
#[test]
fn blocked_tile_cuts_the_only_path() {
    let mut chunk = Chunk::filled(Tile::Ground);
    let origin = (0, 0);
    // wall off the corridor along the bottom row: (1,0) blocked
    chunk.set_tile(local(1, 0), Tile::Block);
    // and block (1,1) too, so (2,0) has no alternate path of cost <= 3
    chunk.set_tile(local(1, 1), Tile::Block);
    let result = flood_search(&chunk, local(origin.0, origin.1), 3);
    let set: HashSet<(i32, i32)> = result.iter().map(|(t, _)| (t.x, t.z)).collect();
    // (2,0) sat behind the blocked tile: gone
    assert!(!set.contains(&(2, 0)));
    // the blocked dead ends themselves are not offered either
    assert!(!set.contains(&(1, 0)));
    assert!(!set.contains(&(1, 1)));
    // tiles up the open column are still reachable
    assert!(set.contains(&(0, 1)));
    assert!(set.contains(&(0, 2)));
    assert!(set.contains(&(0, 3)));
    assert!(set.contains(&(1, 2)));
}

#[test]
fn alternate_path_keeps_equal_cost_tiles() {
    let mut chunk = Chunk::filled(Tile::Ground);
    // block one of the two shortest paths to (1,1); the other remains
    chunk.set_tile(local(1, 0), Tile::Block);
    let result = flood_search(&chunk, local(0, 0), 2);
    let costs: std::collections::HashMap<(i32, i32), u8> =
        result.iter().map(|(t, c)| ((t.x, t.z), *c)).collect();
    // still reachable via (0,1), at the same minimal cost 2
    assert_eq!(costs.get(&(1, 1)), Some(&2));
    // but (2,0), whose only 2-step path ran through the block, is gone
    assert!(!costs.contains_key(&(2, 0)));
}

#[test]
fn movement_options_translate_to_absolute_space() {
    let chunk = Chunk::filled(Tile::Ground);
    let coord = ChunkCoordinate::new(-1, 2);
    let options = movement_options(&chunk, coord, local(6, 20), 2);
    assert_eq!(options.len(), 12);
    for o in &options {
        let lx = o.coordinate.x - coord.x * 14;
        let lz = o.coordinate.z - coord.z * 40;
        assert_eq!(manhattan((lx, lz), (6, 20)), o.cost as i32);
    }
}

#[test]
fn ground_tiles_enumerates_walkable_tiles() {
    let mut chunk = Chunk::filled(Tile::Ground);
    chunk.set_tile(local(3, 3), Tile::Block);
    chunk.set_tile(local(4, 3), Tile::Empty);
    let g = ground_tiles(&chunk);
    assert_eq!(g.len(), 14 * 40 - 2);
    let set: HashSet<(i32, i32)> = g.iter().map(|t| (t.x, t.z)).collect();
    assert_eq!(set.len(), g.len());
    assert!(!set.contains(&(3, 3)));
    assert!(!set.contains(&(4, 3)));
    assert!(set.contains(&(0, 0)));
}

#[test]
fn placement_spots_are_ten_distinct_ground_tiles() {
    let chunk = Chunk::filled(Tile::Ground);
    let spots = choose_placement_spots(&chunk);
    assert_eq!(spots.len(), 10);
    let set: HashSet<(i32, i32)> = spots.iter().map(|t| (t.x, t.z)).collect();
    assert_eq!(set.len(), 10);
}

#[test]
fn placement_spots_fall_back_to_all_ground_tiles() {
    // only three ground tiles in the whole arena
    let mut chunk = Chunk::filled(Tile::Block);
    chunk.set_tile(local(0, 0), Tile::Ground);
    chunk.set_tile(local(5, 5), Tile::Ground);
    chunk.set_tile(local(13, 39), Tile::Ground);
    let spots = choose_placement_spots(&chunk);
    let set: HashSet<(i32, i32)> = spots.iter().map(|t| (t.x, t.z)).collect();
    assert_eq!(set, HashSet::from([(0, 0), (5, 5), (13, 39)]));
}
