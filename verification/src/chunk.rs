//! Chunks: fixed-size blocks of tiles, addressed by a chunk coordinate that
//! derives its world bounding box and centre.

use vstd::prelude::*;

use crate::tile::{
    spec_tile_world_x, AbsoluteSpace, LocalSpace, Tile, TileCoordinate, WorldPos,
};

verus! {

/// Tile columns per chunk.
pub const SIZE_X: usize = 14;

/// Tile rows per chunk.
pub const SIZE_Z: usize = 40;

/// Identifies a fixed-size block of tiles.
#[derive(Debug, Clone, Copy, PartialEq, Eq, Structural)]
pub struct ChunkCoordinate {
    pub x: i32,
    pub z: i32,
}

/// Flooring division by a positive divisor, exact on negative values as well:
/// the result is the Euclidean quotient.
pub(crate) fn floor_div(a: i64, b: i64) -> (q: i64)
    requires
        0 < b <= 0x10000,
        -0x4000_0000_0000_0000 < a < 0x4000_0000_0000_0000,
    ensures
        q == a as int / b as int,
{
    if a >= 0 {
        a / b
    } else {
        let m = -a;
        let qq = (m + b - 1) / b;
        proof {
            let mi = m as int;
            let bi = b as int;
            let q0 = (mi + bi - 1) / bi;
            let r0 = (mi + bi - 1) % bi;
            vstd::arithmetic::div_mod::lemma_fundamental_div_mod(mi + bi - 1, bi);
            assert(a as int == (-q0) * bi + (bi - 1 - r0)) by (nonlinear_arith)
                requires
                    mi + bi - 1 == q0 * bi + r0,
                    a as int == -mi,
            ;
            vstd::arithmetic::div_mod::lemma_fundamental_div_mod_converse(
                a as int,
                bi,
                -q0,
                bi - 1 - r0,
            );
        }
        -qq
    }
}

/// Remainder after flooring division by a positive divisor: the Euclidean,
/// always non-negative remainder.
pub(crate) fn euclid_mod(a: i64, b: i64) -> (r: i64)
    requires
        0 < b <= 0x10000,
        -0x4000_0000_0000_0000 < a < 0x4000_0000_0000_0000,
    ensures
        r == a as int % (b as int),
        0 <= r < b,
{
    if a >= 0 {
        a % b
    } else {
        let m = (-a) % b;
        proof {
            let ai = a as int;
            let bi = b as int;
            let q0 = (-ai) / bi;
            let r0 = (-ai) % bi;
            vstd::arithmetic::div_mod::lemma_fundamental_div_mod(-ai, bi);
            if r0 == 0 {
                assert(ai == (-q0) * bi + 0) by (nonlinear_arith)
                    requires
                        -ai == q0 * bi + r0,
                        r0 == 0,
                ;
                vstd::arithmetic::div_mod::lemma_fundamental_div_mod_converse(ai, bi, -q0, 0);
            } else {
                assert(ai == (-q0 - 1) * bi + (bi - r0)) by (nonlinear_arith)
                    requires
                        -ai == q0 * bi + r0,
                ;
                vstd::arithmetic::div_mod::lemma_fundamental_div_mod_converse(
                    ai,
                    bi,
                    -q0 - 1,
                    bi - r0,
                );
            }
        }
        if m == 0 {
            0
        } else {
            b - m
        }
    }
}

impl ChunkCoordinate {
    pub fn new(x: i32, z: i32) -> (r: Self)
        ensures
            r.x == x,
            r.z == z,
    {
        Self { x, z }
    }

    /// The chunk that contains the given absolute tile: flooring division of
    /// each axis by the chunk size.
    pub fn from_tile(tile: TileCoordinate<AbsoluteSpace>) -> (r: Self)
        ensures
            r.x as int == tile.x as int / (SIZE_X as int),
            r.z as int == tile.z as int / (SIZE_Z as int),
    {
        let x = floor_div(tile.x as i64, SIZE_X as i64);
        let z = floor_div(tile.z as i64, SIZE_Z as i64);
        Self { x: x as i32, z: z as i32 }
    }

    /// The chunk containing the tile nearest to a world position.
    pub fn from_world(w: WorldPos) -> (r: Self)
        requires
            crate::tile::spec_world_in_tile_range(w),
        ensures
            r.x as int == crate::tile::spec_world_tile_x(w) / (SIZE_X as int),
            r.z as int == w.z as int / (SIZE_Z as int),
    {
        Self::from_tile(TileCoordinate::from_world(w))
    }

    /// World-space extent of one chunk.
    pub fn world_sizes() -> (w: WorldPos)
        ensures
            w.x == 2 * SIZE_X as int,
            w.z == SIZE_Z as int,
    {
        WorldPos { x: 2 * SIZE_X as i64, z: SIZE_Z as i64 }
    }

    /// World position of this chunk's low corner.
    pub fn start(self) -> (w: WorldPos)
        ensures
            w.x == self.x as int * (2 * SIZE_X as int),
            w.z == self.z as int * (SIZE_Z as int),
    {
        proof {
            assert(SIZE_X as i64 == 14i64);
            assert(SIZE_Z as i64 == 40i64);
        }
        WorldPos { x: self.x as i64 * (2 * SIZE_X as i64), z: self.z as i64 * (SIZE_Z as i64) }
    }

    /// World position of this chunk's high corner.
    pub fn end(self) -> (w: WorldPos)
        ensures
            w.x == self.x as int * (2 * SIZE_X as int) + 2 * SIZE_X as int,
            w.z == self.z as int * (SIZE_Z as int) + SIZE_Z as int,
    {
        let s = self.start();
        proof {
            assert(s.x == self.x as int * 28);
            assert(s.z == self.z as int * 40);
        }
        WorldPos { x: s.x + 2 * SIZE_X as i64, z: s.z + SIZE_Z as i64 }
    }

    /// World position of this chunk's centre, the midpoint of its bounding
    /// box (exact: a chunk spans an even number of world units per axis).
    pub fn world_center(self) -> (w: WorldPos)
        ensures
            w.x == self.x as int * (2 * SIZE_X as int) + SIZE_X as int,
            w.z == self.z as int * (SIZE_Z as int) + (SIZE_Z as int) / 2,
    {
        let s = self.start();
        proof {
            assert(s.x == self.x as int * 28);
            assert(s.z == self.z as int * 40);
        }
        WorldPos { x: s.x + SIZE_X as i64, z: s.z + SIZE_Z as i64 / 2 }
    }
}

/// One chunk's grid of tiles, indexed `[row][column]` in chunk-local space.
#[derive(Debug, Clone, PartialEq, Eq)]
pub struct Chunk {
    pub tiles: Vec<Vec<Tile>>,
}

impl Chunk {
    /// Well-formed: exactly `SIZE_Z` rows of exactly `SIZE_X` tiles.
    pub open spec fn wf(self) -> bool {
        &&& self.tiles@.len() == SIZE_Z as int
        &&& forall|z: int|
            0 <= z < SIZE_Z as int ==> (#[trigger] self.tiles@[z])@.len() == SIZE_X as int
    }

    /// The tile stored at local column `x`, row `z`.
    pub open spec fn tile_at(self, x: int, z: int) -> Tile {
        self.tiles@[z]@[x]
    }

    /// Whether a local coordinate lies inside the chunk.
    pub open spec fn spec_in_bounds(x: int, z: int) -> bool {
        0 <= x < SIZE_X as int && 0 <= z < SIZE_Z as int
    }

    /// A chunk with every tile set to `fill`.
    pub fn filled(fill: Tile) -> (c: Chunk)
        ensures
            c.wf(),
            forall|x: int, z: int|
                Self::spec_in_bounds(x, z) ==> #[trigger] c.tile_at(x, z) == fill,
    {
        let mut tiles: Vec<Vec<Tile>> = Vec::new();
        let mut z: usize = 0;
        while z < SIZE_Z
            invariant
                z <= SIZE_Z,
                tiles@.len() == z as int,
                forall|zz: int| 0 <= zz < z as int ==> (#[trigger] tiles@[zz])@.len() == SIZE_X as int,
                forall|xx: int, zz: int|
                    0 <= zz < z as int && 0 <= xx < SIZE_X as int ==> (#[trigger] tiles@[zz]@[xx])
                        == fill,
            decreases SIZE_Z - z,
        {
            let mut row: Vec<Tile> = Vec::new();
            let mut x: usize = 0;
            while x < SIZE_X
                invariant
                    x <= SIZE_X,
                    row@.len() == x as int,
                    forall|xx: int| 0 <= xx < x as int ==> #[trigger] row@[xx] == fill,
                decreases SIZE_X - x,
            {
                row.push(fill);
                x = x + 1;
            }
            tiles.push(row);
            z = z + 1;
        }
        Chunk { tiles }
    }

    /// Looks a tile up by local coordinate; an out-of-bounds coordinate is
    /// defensively answered with `None` rather than a crash.
    pub fn get_tile(&self, tile: TileCoordinate<LocalSpace>) -> (r: Option<&Tile>)
        requires
            self.wf(),
        ensures
            match r {
                Some(t) => Self::spec_in_bounds(tile.x as int, tile.z as int) && *t
                    == self.tile_at(tile.x as int, tile.z as int),
                None => !Self::spec_in_bounds(tile.x as int, tile.z as int),
            },
    {
        if tile.x >= 0 && tile.z >= 0 && (tile.x as usize) < SIZE_X && (tile.z as usize) < SIZE_Z {
            Some(&self.tiles[tile.z as usize][tile.x as usize])
        } else {
            None
        }
    }

    /// Borrows a tile mutably by local coordinate; an out-of-bounds
    /// coordinate is defensively answered with `None` and leaves the chunk
    /// untouched.
    pub fn get_tile_mut(&mut self, tile: TileCoordinate<LocalSpace>) -> (r: Option<&mut Tile>)
        requires
            old(self).wf(),
        ensures
            final(self).wf(),
            match r {
                Some(t) => Self::spec_in_bounds(tile.x as int, tile.z as int) && *t == old(
                    self,
                ).tile_at(tile.x as int, tile.z as int) && (forall|x: int, z: int|
                    Self::spec_in_bounds(x, z) ==> #[trigger] final(self).tile_at(x, z) == (if x
                        == tile.x as int && z == tile.z as int {
                        *final(t)
                    } else {
                        old(self).tile_at(x, z)
                    })),
                None => !Self::spec_in_bounds(tile.x as int, tile.z as int) && *final(self)
                    == *old(self),
            },
    {
        if tile.x >= 0 && tile.z >= 0 && (tile.x as usize) < SIZE_X && (tile.z as usize) < SIZE_Z {
            let row: &mut Vec<Tile> = &mut self.tiles[tile.z as usize];
            Some(&mut row[tile.x as usize])
        } else {
            None
        }
    }

    /// Overwrites a tile by local coordinate; reports whether the coordinate
    /// was inside the chunk (out of bounds leaves the chunk unchanged).
    pub fn set_tile(&mut self, tile: TileCoordinate<LocalSpace>, value: Tile) -> (r: bool)
        requires
            old(self).wf(),
        ensures
            final(self).wf(),
            r == Self::spec_in_bounds(tile.x as int, tile.z as int),
            r ==> forall|x: int, z: int|
                Self::spec_in_bounds(x, z) ==> #[trigger] final(self).tile_at(x, z) == (if x
                    == tile.x as int && z == tile.z as int {
                    value
                } else {
                    old(self).tile_at(x, z)
                }),
            !r ==> *final(self) == *old(self),
    {
        if tile.x >= 0 && tile.z >= 0 && (tile.x as usize) < SIZE_X && (tile.z as usize) < SIZE_Z {
            let row: &mut Vec<Tile> = &mut self.tiles[tile.z as usize];
            row[tile.x as usize] = value;
            true
        } else {
            false
        }
    }
}

/// Materialises the combat arena from a chunk: every tile, row-major,
/// paired with the world position of its centre, as spawned on entering
/// combat.
pub fn arena_tiles(chunk: &Chunk, coord: ChunkCoordinate) -> (r: Vec<(Tile, WorldPos)>)
    requires
        chunk.wf(),
        i32::MIN <= coord.x as int * (SIZE_X as int),
        coord.x as int * (SIZE_X as int) + (SIZE_X as int) <= i32::MAX,
        i32::MIN <= coord.z as int * (SIZE_Z as int),
        coord.z as int * (SIZE_Z as int) + (SIZE_Z as int) <= i32::MAX,
    ensures
        r@.len() == (SIZE_X * SIZE_Z) as int,
        forall|x: int, z: int|
            #[trigger] Chunk::spec_in_bounds(x, z) ==> {
                let e = r@[z * (SIZE_X as int) + x];
                &&& e.0 == chunk.tile_at(x, z)
                &&& e.1.x as int == spec_tile_world_x(
                    coord.x as int * (SIZE_X as int) + x,
                    coord.z as int * (SIZE_Z as int) + z,
                )
                &&& e.1.z as int == coord.z as int * (SIZE_Z as int) + z
            },
{
    let mut r: Vec<(Tile, WorldPos)> = Vec::new();
    let mut z: usize = 0;
    while z < SIZE_Z
        invariant
            z <= SIZE_Z,
            chunk.wf(),
            i32::MIN <= coord.x as int * (SIZE_X as int),
            coord.x as int * (SIZE_X as int) + (SIZE_X as int) <= i32::MAX,
            i32::MIN <= coord.z as int * (SIZE_Z as int),
            coord.z as int * (SIZE_Z as int) + (SIZE_Z as int) <= i32::MAX,
            r@.len() == z as int * (SIZE_X as int),
            forall|xx: int, zz: int|
                Chunk::spec_in_bounds(xx, zz) && zz < z as int ==> {
                    let e = #[trigger] r@[zz * (SIZE_X as int) + xx];
                    &&& e.0 == chunk.tile_at(xx, zz)
                    &&& e.1.x as int == spec_tile_world_x(
                        coord.x as int * (SIZE_X as int) + xx,
                        coord.z as int * (SIZE_Z as int) + zz,
                    )
                    &&& e.1.z as int == coord.z as int * (SIZE_Z as int) + zz
                },
        decreases SIZE_Z - z,
    {
        let mut x: usize = 0;
        while x < SIZE_X
            invariant
                z < SIZE_Z,
                x <= SIZE_X,
                chunk.wf(),
                i32::MIN <= coord.x as int * (SIZE_X as int),
                coord.x as int * (SIZE_X as int) + (SIZE_X as int) <= i32::MAX,
                i32::MIN <= coord.z as int * (SIZE_Z as int),
                coord.z as int * (SIZE_Z as int) + (SIZE_Z as int) <= i32::MAX,
                r@.len() == z as int * (SIZE_X as int) + x as int,
                forall|xx: int, zz: int|
                    Chunk::spec_in_bounds(xx, zz) && (zz < z as int || (zz == z as int && xx
                        < x as int)) ==> {
                        let e = #[trigger] r@[zz * (SIZE_X as int) + xx];
                        &&& e.0 == chunk.tile_at(xx, zz)
                        &&& e.1.x as int == spec_tile_world_x(
                            coord.x as int * (SIZE_X as int) + xx,
                            coord.z as int * (SIZE_Z as int) + zz,
                        )
                        &&& e.1.z as int == coord.z as int * (SIZE_Z as int) + zz
                    },
            decreases SIZE_X - x,
        {
            let tc: TileCoordinate<LocalSpace> = TileCoordinate::new(x as i32, z as i32);
            let tile = match chunk.get_tile(tc) {
                Some(t) => *t,
                None => Tile::Empty,
            };
            let absolute = tc.to_absolute(coord);
            let w = absolute.to_world();
            r.push((tile, w));
            x = x + 1;
        }
        z = z + 1;
    }
    r
}

} // verus!
