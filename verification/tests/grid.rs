use combat_core::chunk::{arena_tiles, Chunk, ChunkCoordinate, SIZE_X, SIZE_Z};
use combat_core::tile::{AbsoluteSpace, LocalSpace, Tile, TileCoordinate, WorldPos};

fn abs_tile(x: i32, z: i32) -> TileCoordinate<AbsoluteSpace> {
    TileCoordinate::new(x, z)
}

fn local_tile(x: i32, z: i32) -> TileCoordinate<LocalSpace> {
    TileCoordinate::new(x, z)
}

#[test]
fn world_round_trip_even_row() {
    let t = abs_tile(3, 4);
    let w = t.to_world();
    assert_eq!(w, WorldPos { x: 6, z: 4 });
    let back = TileCoordinate::from_world(w);
    assert_eq!(back, t);
}

#[test]
fn world_round_trip_odd_row() {
    let t = abs_tile(3, 5);
    let w = t.to_world();
    // odd rows are shifted sideways by one world unit
    assert_eq!(w, WorldPos { x: 7, z: 5 });
    assert_eq!(TileCoordinate::from_world(w), t);
}

#[test]
fn world_round_trip_negative_rows() {
    for &(x, z) in &[(-3, -5), (0, -1), (7, -2), (-1, 0), (-4, 9)] {
        let t = abs_tile(x, z);
        assert_eq!(TileCoordinate::from_world(t.to_world()), t);
    }
    // negative odd rows shift the other way
    let w = abs_tile(2, -3).to_world();
    assert_eq!(w, WorldPos { x: 3, z: -3 });
}

#[test]
fn on_odd_row_follows_the_row_sign() {
    assert!(abs_tile(0, 5).on_odd_row());
    assert!(!abs_tile(0, 4).on_odd_row());
    assert!(!abs_tile(0, -5).on_odd_row());
}

#[test]
fn try_from_world_rejects_out_of_range() {
    assert!(TileCoordinate::try_from_world(WorldPos { x: 0, z: i64::MAX }).is_none());
    let ok = TileCoordinate::try_from_world(WorldPos { x: 7, z: 5 }).unwrap();
    assert_eq!(ok, abs_tile(3, 5));
}

#[test]
fn local_round_trip() {
    for &(cx, cz) in &[(0, 0), (2, 3), (-1, -1), (-4, 7)] {
        let chunk = ChunkCoordinate::new(cx, cz);
        for &(lx, lz) in &[(0, 0), (13, 39), (5, 17)] {
            let l = local_tile(lx, lz);
            let a = l.to_absolute(chunk);
            assert_eq!(a.to_local(), l);
            assert_eq!(a.to_chunk(), chunk);
        }
    }
}

#[test]
fn to_local_never_underflows() {
    let a = abs_tile(-1, -1);
    let l = a.to_local();
    assert!(l.x >= 0 && l.z >= 0);
    assert_eq!((l.x, l.z), (13, 39));
    assert_eq!(a.to_chunk(), ChunkCoordinate::new(-1, -1));
}

#[test]
fn from_tile_floors_negative_coordinates() {
    assert_eq!(
        ChunkCoordinate::from_tile(abs_tile(-1, -1)),
        ChunkCoordinate::new(-1, -1)
    );
    assert_eq!(
        ChunkCoordinate::from_tile(abs_tile(13, 39)),
        ChunkCoordinate::new(0, 0)
    );
    assert_eq!(
        ChunkCoordinate::from_tile(abs_tile(14, 40)),
        ChunkCoordinate::new(1, 1)
    );
    assert_eq!(
        ChunkCoordinate::from_tile(abs_tile(-14, -40)),
        ChunkCoordinate::new(-1, -1)
    );
    assert_eq!(
        ChunkCoordinate::from_tile(abs_tile(-15, -41)),
        ChunkCoordinate::new(-2, -2)
    );
}

#[test]
fn chunk_from_world_goes_through_the_nearest_tile() {
    // world position of tile (13, 39): still chunk (0, 0)
    let w = abs_tile(13, 39).to_world();
    assert_eq!(ChunkCoordinate::from_world(w), ChunkCoordinate::new(0, 0));
    let w = abs_tile(14, 39).to_world();
    assert_eq!(ChunkCoordinate::from_world(w), ChunkCoordinate::new(1, 0));
    let w = abs_tile(-1, -1).to_world();
    assert_eq!(ChunkCoordinate::from_world(w), ChunkCoordinate::new(-1, -1));
}

#[test]
fn chunk_world_geometry() {
    let sizes = ChunkCoordinate::world_sizes();
    assert_eq!(sizes, WorldPos { x: 28, z: 40 });
    let c = ChunkCoordinate::new(1, -1);
    assert_eq!(c.start(), WorldPos { x: 28, z: -40 });
    assert_eq!(c.end(), WorldPos { x: 56, z: 0 });
    assert_eq!(c.world_center(), WorldPos { x: 42, z: -20 });
}

#[test]
fn chunk_get_and_set_tile() {
    let mut chunk = Chunk::filled(Tile::Ground);
    assert_eq!(chunk.get_tile(local_tile(5, 7)), Some(&Tile::Ground));
    assert!(chunk.set_tile(local_tile(5, 7), Tile::Block));
    assert_eq!(chunk.get_tile(local_tile(5, 7)), Some(&Tile::Block));
    assert_eq!(chunk.get_tile(local_tile(5, 8)), Some(&Tile::Ground));
    // out of bounds is defensively rejected, not a crash
    assert_eq!(chunk.get_tile(local_tile(-1, 0)), None);
    assert_eq!(chunk.get_tile(local_tile(14, 0)), None);
    assert_eq!(chunk.get_tile(local_tile(0, 40)), None);
    assert!(!chunk.set_tile(local_tile(0, -1), Tile::Block));
    assert_eq!(chunk.get_tile(local_tile(0, 0)), Some(&Tile::Ground));
}

#[test]
fn get_tile_mut_edits_in_place() {
    let mut chunk = Chunk::filled(Tile::Ground);
    {
        let t = chunk.get_tile_mut(local_tile(9, 9)).unwrap();
        assert_eq!(*t, Tile::Ground);
        *t = Tile::Empty;
    }
    assert_eq!(chunk.get_tile(local_tile(9, 9)), Some(&Tile::Empty));
    assert!(chunk.get_tile_mut(local_tile(99, 0)).is_none());
}

#[test]
fn tile_default_is_ground() {
    assert_eq!(Tile::default(), Tile::Ground);
}

#[test]
fn arena_tiles_covers_the_chunk() {
    let mut chunk = Chunk::filled(Tile::Ground);
    chunk.set_tile(local_tile(2, 1), Tile::Block);
    let arena = arena_tiles(&chunk, ChunkCoordinate::new(0, 0));
    assert_eq!(arena.len(), SIZE_X * SIZE_Z);
    let (tile, w) = arena[1 * SIZE_X + 2];
    assert_eq!(tile, Tile::Block);
    assert_eq!(w, local_tile(2, 1).to_absolute(ChunkCoordinate::new(0, 0)).to_world());
    let (tile0, w0) = arena[0];
    assert_eq!(tile0, Tile::Ground);
    assert_eq!(w0, WorldPos { x: 0, z: 0 });
}
