//! Tile coordinates of the staggered ("brick") grid and their transforms
//! between world space, absolute tile space and chunk-local tile space.
//!
//! World positions are measured in integer units of half the tile x-pitch.
//! In those units a tile's centre always lands on an exact integer point:
//! the z-pitch between rows is one unit and the x-pitch within a row is two
//! units, with odd rows shifted sideways by one unit (the row-parity
//! correction of the brick layout).

use vstd::prelude::*;

use crate::chunk::{euclid_mod, ChunkCoordinate, SIZE_X, SIZE_Z};

verus! {

/// A cell of the map grid.
#[derive(Debug, Clone, Copy, PartialEq, Eq, Structural)]
pub enum Tile {
    /// Impassable obstacle.
    Block,
    /// Walkable ground.
    Ground,
    /// Nothing there at all.
    Empty,
}

impl Default for Tile {
    fn default() -> (r: Self)
        ensures
            r == Tile::Ground,
    {
        Tile::Ground
    }
}

/// A position in world space, in integer units of half the tile x-pitch.
#[derive(Debug, Clone, Copy, PartialEq, Eq, Structural)]
pub struct WorldPos {
    pub x: i64,
    pub z: i64,
}

/// Marker for coordinates relative to a chunk's origin.
#[derive(Debug, Clone, Copy, PartialEq, Eq, Structural)]
pub struct LocalSpace;

/// Marker for coordinates relative to the world origin.
#[derive(Debug, Clone, Copy, PartialEq, Eq, Structural)]
pub struct AbsoluteSpace;

/// A tile coordinate, statically tagged with the space it lives in so that
/// chunk-local and world-absolute coordinates cannot be mixed up.
#[derive(Debug, PartialEq, Eq, Structural)]
#[verifier::reject_recursive_types(Space)]
pub struct TileCoordinate<Space> {
    pub x: i32,
    pub z: i32,
    pub space: core::marker::PhantomData<Space>,
}

impl<Space> Clone for TileCoordinate<Space> {
    fn clone(&self) -> (r: Self)
        ensures
            r == *self,
    {
        TileCoordinate { x: self.x, z: self.z, space: core::marker::PhantomData }
    }
}

impl<Space> Copy for TileCoordinate<Space> {

}

/// The sideways shift of a row, in world units: odd rows are offset by one
/// unit, with the sign following the sign of the row index.
pub open spec fn spec_row_offset(z: int) -> int {
    if z % 2 == 0 {
        0
    } else if z >= 0 {
        1
    } else {
        -1
    }
}

/// Rounding of `v / 2` to the nearest integer, halves away from zero.
pub open spec fn spec_round_half(v: int) -> int {
    if v >= 0 {
        (v + 1) / 2
    } else {
        -((1 - v) / 2)
    }
}

/// World x of a tile: twice the column index plus the row-parity correction.
pub open spec fn spec_tile_world_x(x: int, z: int) -> int {
    2 * x + spec_row_offset(z)
}

/// Tile column recovered from a world position: undo the row-parity
/// correction, then round to the nearest column.
pub open spec fn spec_world_tile_x(w: WorldPos) -> int {
    spec_round_half(w.x - spec_row_offset(w.z as int))
}

/// Whether the tile nearest to a world position fits the tile coordinate
/// range.
pub open spec fn spec_world_in_tile_range(w: WorldPos) -> bool {
    &&& i32::MIN <= w.z <= i32::MAX
    &&& i32::MIN <= spec_world_tile_x(w) <= i32::MAX
}

fn row_offset(z: i32) -> (r: i32)
    ensures
        r as int == spec_row_offset(z as int),
{
    let m: i64 = (z as i64) % 2;
    m as i32
}

fn round_half(v: i64) -> (r: i64)
    requires
        -0x4000_0000_0000_0000 < v < 0x4000_0000_0000_0000,
    ensures
        r == spec_round_half(v as int),
{
    if v >= 0 {
        (v + 1) / 2
    } else {
        -((1 - v) / 2)
    }
}

impl<Space> TileCoordinate<Space> {
    pub fn new(x: i32, z: i32) -> (r: Self)
        ensures
            r.x == x,
            r.z == z,
    {
        TileCoordinate { x, z, space: core::marker::PhantomData }
    }
}

impl TileCoordinate<AbsoluteSpace> {
    /// The tile whose centre is nearest to the given world position.
    pub fn from_world(w: WorldPos) -> (r: Self)
        requires
            i32::MIN <= w.z <= i32::MAX,
            i32::MIN <= spec_world_tile_x(w) <= i32::MAX,
        ensures
            r.z as int == w.z as int,
            r.x as int == spec_world_tile_x(w),
    {
        let z = w.z as i32;
        let off = row_offset(z);
        let x = round_half(w.x - off as i64);
        TileCoordinate { x: x as i32, z, space: core::marker::PhantomData }
    }

    /// The world position of this tile's centre.
    pub fn to_world(self) -> (w: WorldPos)
        ensures
            w.x as int == spec_tile_world_x(self.x as int, self.z as int),
            w.z as int == self.z as int,
    {
        let off = row_offset(self.z);
        WorldPos { x: 2 * (self.x as i64) + off as i64, z: self.z as i64 }
    }

    /// Whether the row-parity correction shifts this tile's row.
    pub fn on_odd_row(self) -> (r: bool)
        ensures
            r == (spec_row_offset(self.z as int) == 1),
    {
        let off = row_offset(self.z);
        off == 1
    }

    /// The tile whose centre is nearest to the given world position, or
    /// `None` where that tile would not fit the coordinate range — the
    /// defensive form of `from_world` for positions received off the wire.
    pub fn try_from_world(w: WorldPos) -> (r: Option<Self>)
        ensures
            match r {
                Some(t) => spec_world_in_tile_range(w) && t.z as int == w.z as int && t.x as int
                    == spec_world_tile_x(w),
                None => !spec_world_in_tile_range(w),
            },
    {
        if !(i32::MIN as i64 <= w.z && w.z <= i32::MAX as i64) {
            return None;
        }
        let off = row_offset(w.z as i32);
        let v: i128 = w.x as i128 - off as i128;
        let rx: i128 = if v >= 0 {
            (v + 1) / 2
        } else {
            -((1 - v) / 2)
        };
        if i32::MIN as i128 <= rx && rx <= i32::MAX as i128 {
            Some(
                TileCoordinate {
                    x: rx as i32,
                    z: w.z as i32,
                    space: core::marker::PhantomData,
                },
            )
        } else {
            None
        }
    }

    /// The chunk this tile falls into.
    pub fn to_chunk(self) -> (r: ChunkCoordinate)
        ensures
            r.x as int == self.x as int / (SIZE_X as int),
            r.z as int == self.z as int / (SIZE_Z as int),
    {
        ChunkCoordinate::from_tile(self)
    }

    /// The chunk-local coordinate of this tile: the always non-negative
    /// remainder of each axis by the chunk size.
    pub fn to_local(self) -> (r: TileCoordinate<LocalSpace>)
        ensures
            r.x as int == self.x as int % (SIZE_X as int),
            r.z as int == self.z as int % (SIZE_Z as int),
            r.chunk_valid(),
    {
        let lx = euclid_mod(self.x as i64, SIZE_X as i64);
        let lz = euclid_mod(self.z as i64, SIZE_Z as i64);
        TileCoordinate { x: lx as i32, z: lz as i32, space: core::marker::PhantomData }
    }
}

impl TileCoordinate<LocalSpace> {
    /// Whether this local coordinate lies within the bounds of a chunk.
    pub open spec fn chunk_valid(self) -> bool {
        0 <= self.x < SIZE_X as int && 0 <= self.z < SIZE_Z as int
    }

    /// The absolute coordinate of this local tile within the given chunk.
    pub fn to_absolute(self, chunk: ChunkCoordinate) -> (r: TileCoordinate<AbsoluteSpace>)
        requires
            self.chunk_valid(),
            i32::MIN <= chunk.x as int * (SIZE_X as int) + self.x as int <= i32::MAX,
            i32::MIN <= chunk.z as int * (SIZE_Z as int) + self.z as int <= i32::MAX,
        ensures
            r.x as int == chunk.x as int * (SIZE_X as int) + self.x as int,
            r.z as int == chunk.z as int * (SIZE_Z as int) + self.z as int,
    {
        let ax = chunk.x as i64 * (SIZE_X as i64) + self.x as i64;
        let az = chunk.z as i64 * (SIZE_Z as i64) + self.z as i64;
        TileCoordinate { x: ax as i32, z: az as i32, space: core::marker::PhantomData }
    }
}

/// Embedding a chunk-valid local coordinate into the world with
/// `to_absolute` and projecting back with `to_local` recovers the original
/// coordinate exactly, for every chunk, and the remainder never leaves
/// `[0, chunk size)`; `to_chunk` likewise recovers the chunk.
pub proof fn lemma_local_round_trip(l: TileCoordinate<LocalSpace>, c: ChunkCoordinate)
    requires
        l.chunk_valid(),
    ensures
        (c.x as int * (SIZE_X as int) + l.x as int) % (SIZE_X as int) == l.x as int,
        (c.z as int * (SIZE_Z as int) + l.z as int) % (SIZE_Z as int) == l.z as int,
        (c.x as int * (SIZE_X as int) + l.x as int) / (SIZE_X as int) == c.x as int,
        (c.z as int * (SIZE_Z as int) + l.z as int) / (SIZE_Z as int) == c.z as int,
{
    vstd::arithmetic::div_mod::lemma_fundamental_div_mod_converse(
        c.x as int * (SIZE_X as int) + l.x as int,
        SIZE_X as int,
        c.x as int,
        l.x as int,
    );
    vstd::arithmetic::div_mod::lemma_fundamental_div_mod_converse(
        c.z as int * (SIZE_Z as int) + l.z as int,
        SIZE_Z as int,
        c.z as int,
        l.z as int,
    );
}

/// Converting a tile to world space and back recovers the tile exactly, for
/// every tile coordinate: the row-parity correction cancels and the rounding
/// lands on the original column.
pub proof fn lemma_tile_world_round_trip(x: int, z: int)
    requires
        i32::MIN <= x <= i32::MAX,
        i32::MIN <= z <= i32::MAX,
    ensures
        spec_world_tile_x(WorldPos { x: spec_tile_world_x(x, z) as i64, z: z as i64 }) == x,
{
    let w = WorldPos { x: spec_tile_world_x(x, z) as i64, z: z as i64 };
    assert(w.x as int == 2 * x + spec_row_offset(z));
    assert(spec_world_tile_x(w) == spec_round_half(2 * x));
    if x >= 0 {
        assert((2 * x + 1) / 2 == x) by (nonlinear_arith);
    } else {
        assert((1 - 2 * x) / 2 == -x) by (nonlinear_arith);
    }
}

} // verus!
