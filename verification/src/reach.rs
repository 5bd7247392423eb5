//! Cost-bounded reachability over a chunk's tile grid: breadth-first
//! expansion from an origin, layer by layer, where each step costs one
//! movement point. Since every step costs the same, the layer a tile is
//! first visited in is its minimal cost. Expansion never continues through
//! an impassable tile — it is visited, as a dead end, but adds nothing to
//! the frontier — and never leaves the chunk.

use vstd::prelude::*;

use crate::chunk::{Chunk, ChunkCoordinate, SIZE_X, SIZE_Z};
use crate::tile::{AbsoluteSpace, LocalSpace, Tile, TileCoordinate};

verus! {

/// A tile the local player can move to, with the movement-point cost of
/// getting there.
#[derive(Debug, Clone, Copy, PartialEq, Eq)]
pub struct MovementTile {
    pub coordinate: TileCoordinate<AbsoluteSpace>,
    pub cost: u8,
}

/// In bounds and walkable.
pub open spec fn spec_passable(c: Chunk, x: int, z: int) -> bool {
    Chunk::spec_in_bounds(x, z) && c.tile_at(x, z) == Tile::Ground
}

/// Expansion may continue through a tile: through the origin always,
/// through any other tile only if it is passable.
pub open spec fn spec_expandable(c: Chunk, ox: int, oz: int, x: int, z: int) -> bool {
    (x == ox && z == oz) || spec_passable(c, x, z)
}

/// Orthogonal neighbours: one step along one axis.
pub open spec fn spec_adjacent(x1: int, z1: int, x2: int, z2: int) -> bool {
    ||| (x2 == x1 + 1 && z2 == z1)
    ||| (x2 == x1 - 1 && z2 == z1)
    ||| (x2 == x1 && z2 == z1 + 1)
    ||| (x2 == x1 && z2 == z1 - 1)
}

/// The tiles the search has visited after `d` expansion layers: the origin,
/// plus every in-bounds neighbour of an expandable tile of an earlier
/// layer. A tile's minimal cost is the first layer that holds it.
pub open spec fn spec_visited(c: Chunk, ox: int, oz: int, d: nat) -> Set<(int, int)>
    decreases d,
{
    if d == 0 {
        Set::empty().insert((ox, oz))
    } else {
        let prev = spec_visited(c, ox, oz, (d - 1) as nat);
        prev.union(
            Set::new(
                |t: (int, int)|
                    Chunk::spec_in_bounds(t.0, t.1) && exists|u: (int, int)|
                        #[trigger] prev.contains(u) && spec_expandable(c, ox, oz, u.0, u.1)
                            && spec_adjacent(u.0, u.1, t.0, t.1),
            ),
        )
    }
}

/// The tiles first visited in layer `d` exactly.
pub open spec fn spec_frontier(c: Chunk, ox: int, oz: int, d: nat) -> Set<(int, int)> {
    if d == 0 {
        spec_visited(c, ox, oz, 0)
    } else {
        spec_visited(c, ox, oz, d).difference(spec_visited(c, ox, oz, (d - 1) as nat))
    }
}

/// Layers only ever grow: what one layer has visited, every later layer
/// still holds — so a tile's first layer is its minimal cost.
pub proof fn lemma_visited_monotone(c: Chunk, ox: int, oz: int, d1: nat, d2: nat)
    requires
        d1 <= d2,
    ensures
        spec_visited(c, ox, oz, d1).subset_of(spec_visited(c, ox, oz, d2)),
    decreases d2,
{
    if d1 < d2 {
        lemma_visited_monotone(c, ox, oz, d1, (d2 - 1) as nat);
    }
}

/// Everything visited lies inside the chunk, provided the origin does.
pub proof fn lemma_visited_in_bounds(c: Chunk, ox: int, oz: int, d: nat)
    requires
        Chunk::spec_in_bounds(ox, oz),
    ensures
        forall|t: (int, int)|
            #[trigger] spec_visited(c, ox, oz, d).contains(t) ==> Chunk::spec_in_bounds(t.0, t.1),
    decreases d,
{
    if d > 0 {
        lemma_visited_in_bounds(c, ox, oz, (d - 1) as nat);
        let prev = spec_visited(c, ox, oz, (d - 1) as nat);
        assert forall|t: (int, int)| #[trigger] spec_visited(c, ox, oz, d).contains(t) implies
        Chunk::spec_in_bounds(t.0, t.1) by {
            if !prev.contains(t) {
                assert(Chunk::spec_in_bounds(t.0, t.1));
            }
        }
    } else {
        assert forall|t: (int, int)| #[trigger] spec_visited(c, ox, oz, d).contains(t) implies
        Chunk::spec_in_bounds(t.0, t.1) by {
            assert(t == (ox, oz));
        }
    }
}

/// Expanding only the newest layer reaches the same tiles as expanding
/// everything visited: a neighbour of an older tile was already visited one
/// layer after that older tile's own layer.
pub proof fn lemma_frontier_expansion(c: Chunk, ox: int, oz: int, d: nat)
    requires
        d >= 1,
    ensures
        forall|v: (int, int)|
            #[trigger] spec_visited(c, ox, oz, d + 1).contains(v) <==> (spec_visited(
                c,
                ox,
                oz,
                d,
            ).contains(v) || (Chunk::spec_in_bounds(v.0, v.1) && exists|u: (int, int)|
                #[trigger] spec_frontier(c, ox, oz, d).contains(u) && spec_expandable(
                    c,
                    ox,
                    oz,
                    u.0,
                    u.1,
                ) && spec_adjacent(u.0, u.1, v.0, v.1))),
{
    let vis_prev = spec_visited(c, ox, oz, (d - 1) as nat);
    let vis = spec_visited(c, ox, oz, d);
    let vis_next = spec_visited(c, ox, oz, d + 1);
    lemma_visited_monotone(c, ox, oz, (d - 1) as nat, d);
    assert forall|v: (int, int)| #[trigger] vis_next.contains(v) implies (vis.contains(v) || (
    Chunk::spec_in_bounds(v.0, v.1) && exists|u: (int, int)|
        #[trigger] spec_frontier(c, ox, oz, d).contains(u) && spec_expandable(c, ox, oz, u.0, u.1)
            && spec_adjacent(u.0, u.1, v.0, v.1))) by {
        if !vis.contains(v) {
            let u = choose|u: (int, int)|
                #[trigger] vis.contains(u) && spec_expandable(c, ox, oz, u.0, u.1) && spec_adjacent(
                    u.0,
                    u.1,
                    v.0,
                    v.1,
                );
            if vis_prev.contains(u) {
                // then v would already be in layer d
                assert(vis.contains(v));
            } else {
                assert(spec_frontier(c, ox, oz, d).contains(u));
            }
        }
    }
    assert forall|v: (int, int)|
        (vis.contains(v) || (Chunk::spec_in_bounds(v.0, v.1) && exists|u: (int, int)|
            #[trigger] spec_frontier(c, ox, oz, d).contains(u) && spec_expandable(
                c,
                ox,
                oz,
                u.0,
                u.1,
            ) && spec_adjacent(u.0, u.1, v.0, v.1))) implies #[trigger] vis_next.contains(v) by {
        if vis.contains(v) {
            lemma_visited_monotone(c, ox, oz, d, d + 1);
        } else {
            let u = choose|u: (int, int)|
                #[trigger] spec_frontier(c, ox, oz, d).contains(u) && spec_expandable(
                    c,
                    ox,
                    oz,
                    u.0,
                    u.1,
                ) && spec_adjacent(u.0, u.1, v.0, v.1);
            assert(vis.contains(u));
        }
    }
}

/// The chunk-local tile coordinate with the given indices.
pub open spec fn mk_local(x: int, z: int) -> TileCoordinate<LocalSpace> {
    TileCoordinate { x: x as i32, z: z as i32, space: core::marker::PhantomData }
}

/// A well-formed visit matrix: one flag per tile of the chunk.
pub open spec fn mark_wf(m: Vec<Vec<bool>>) -> bool {
    &&& m@.len() == SIZE_Z as int
    &&& forall|z: int| 0 <= z < SIZE_Z as int ==> (#[trigger] m@[z])@.len() == SIZE_X as int
}

/// Whether the visit matrix has the given tile marked.
pub open spec fn marked(m: Vec<Vec<bool>>, x: int, z: int) -> bool {
    m@[z]@[x]
}

/// Marks one neighbour candidate: out of bounds or already visited, nothing
/// happens; otherwise the tile is marked visited, joins the next frontier,
/// and — if it is passable — the output, at the current depth's cost.
fn visit(
    chunk: &Chunk,
    marks: &mut Vec<Vec<bool>>,
    next: &mut Vec<TileCoordinate<LocalSpace>>,
    out: &mut Vec<(TileCoordinate<LocalSpace>, u8)>,
    x: i32,
    z: i32,
    depth: u8,
)
    requires
        chunk.wf(),
        mark_wf(*old(marks)),
    ensures
        mark_wf(*final(marks)),
        ({
            if !Chunk::spec_in_bounds(x as int, z as int) || marked(
                *old(marks),
                x as int,
                z as int,
            ) {
                &&& *final(marks) == *old(marks)
                &&& *final(next) == *old(next)
                &&& *final(out) == *old(out)
            } else {
                &&& forall|xx: int, zz: int|
                    Chunk::spec_in_bounds(xx, zz) ==> marked(*final(marks), xx, zz) == (marked(
                        *old(marks),
                        xx,
                        zz,
                    ) || (xx == x as int && zz == z as int))
                &&& final(next)@ == old(next)@ + seq![mk_local(x as int, z as int)]
                &&& final(out)@ == old(out)@ + (if spec_passable(*chunk, x as int, z as int) {
                    seq![(mk_local(x as int, z as int), depth)]
                } else {
                    Seq::empty()
                })
            }
        }),
        final(next)@.len() >= old(next)@.len(),
        forall|k: int| 0 <= k < old(next)@.len() ==> #[trigger] final(next)@[k] == old(next)@[k],
        final(out)@.len() >= old(out)@.len(),
        forall|k: int| 0 <= k < old(out)@.len() ==> #[trigger] final(out)@[k] == old(out)@[k],
        Chunk::spec_in_bounds(x as int, z as int) && !marked(*old(marks), x as int, z as int)
            ==> final(next)@[final(next)@.len() - 1] == mk_local(x as int, z as int),
        Chunk::spec_in_bounds(x as int, z as int) && !marked(*old(marks), x as int, z as int)
            && spec_passable(*chunk, x as int, z as int) ==> final(out)@[final(out)@.len() - 1] == (
        mk_local(x as int, z as int), depth),
{
    if x < 0 || z < 0 || x >= SIZE_X as i32 || z >= SIZE_Z as i32 {
        return ;
    }
    let xu = x as usize;
    let zu = z as usize;
    if marks[zu][xu] {
        return ;
    }
    let row: &mut Vec<bool> = &mut marks[zu];
    row[xu] = true;
    let tc: TileCoordinate<LocalSpace> = TileCoordinate::new(x, z);
    next.push(tc);
    let t = chunk.get_tile(tc);
    let is_ground = match t {
        Some(tv) => *tv == Tile::Ground,
        None => false,
    };
    if is_ground {
        out.push((tc, depth));
    }
}

/// A tile the running layer expansion has newly reached: in bounds, not
/// yet visited when the layer began, and adjacent to an expandable tile of
/// the frontier.
pub open spec fn spec_added(
    c: Chunk,
    ox: int,
    oz: int,
    fr: Seq<TileCoordinate<LocalSpace>>,
    m0: Vec<Vec<bool>>,
    x: int,
    z: int,
) -> bool {
    &&& Chunk::spec_in_bounds(x, z)
    &&& !marked(m0, x, z)
    &&& exists|k: int|
        0 <= k < fr.len() && spec_expandable(c, ox, oz, (#[trigger] fr[k]).x as int, fr[k].z as int)
            && spec_adjacent(fr[k].x as int, fr[k].z as int, x, z)
}

/// Extending the processed frontier prefix by one tile extends the newly
/// reached tiles by that tile's own neighbourhood, if it is expandable.
proof fn lemma_added_step(
    c: Chunk,
    ox: int,
    oz: int,
    fr: Seq<TileCoordinate<LocalSpace>>,
    m0: Vec<Vec<bool>>,
    j: int,
    xx: int,
    zz: int,
)
    requires
        0 <= j < fr.len(),
    ensures
        spec_added(c, ox, oz, fr.take(j + 1), m0, xx, zz) <==> (spec_added(
            c,
            ox,
            oz,
            fr.take(j),
            m0,
            xx,
            zz,
        ) || (Chunk::spec_in_bounds(xx, zz) && !marked(m0, xx, zz) && spec_expandable(
            c,
            ox,
            oz,
            fr[j].x as int,
            fr[j].z as int,
        ) && spec_adjacent(fr[j].x as int, fr[j].z as int, xx, zz))),
{
    let a = fr.take(j + 1);
    let b = fr.take(j);
    if spec_added(c, ox, oz, a, m0, xx, zz) {
        let k = choose|k: int|
            0 <= k < a.len() && spec_expandable(c, ox, oz, (#[trigger] a[k]).x as int, a[k].z as int)
                && spec_adjacent(a[k].x as int, a[k].z as int, xx, zz);
        if k < j {
            assert(b[k] == a[k]);
            assert(spec_added(c, ox, oz, b, m0, xx, zz));
        } else {
            assert(a[k] == fr[j]);
        }
    }
    if spec_added(c, ox, oz, b, m0, xx, zz) {
        let k = choose|k: int|
            0 <= k < b.len() && spec_expandable(c, ox, oz, (#[trigger] b[k]).x as int, b[k].z as int)
                && spec_adjacent(b[k].x as int, b[k].z as int, xx, zz);
        assert(a[k] == b[k]);
        assert(spec_added(c, ox, oz, a, m0, xx, zz));
    }
    if Chunk::spec_in_bounds(xx, zz) && !marked(m0, xx, zz) && spec_expandable(
        c,
        ox,
        oz,
        fr[j].x as int,
        fr[j].z as int,
    ) && spec_adjacent(fr[j].x as int, fr[j].z as int, xx, zz) {
        assert(a[j] == fr[j]);
        assert(spec_added(c, ox, oz, a, m0, xx, zz));
    }
}

/// Expands the search by one frontier tile: if it is expandable, each of
/// its four in-bounds, not yet visited neighbours is marked, joins `next`,
/// and — when passable — the output.
#[verifier::rlimit(100)]
fn expand_one(
    chunk: &Chunk,
    origin: TileCoordinate<LocalSpace>,
    f: TileCoordinate<LocalSpace>,
    marks: &mut Vec<Vec<bool>>,
    next: &mut Vec<TileCoordinate<LocalSpace>>,
    out: &mut Vec<(TileCoordinate<LocalSpace>, u8)>,
    depth: u8,
)
    requires
        chunk.wf(),
        mark_wf(*old(marks)),
        f.chunk_valid(),
    ensures
        mark_wf(*final(marks)),
        ({
            let c = *chunk;
            let ex = spec_expandable(c, origin.x as int, origin.z as int, f.x as int, f.z as int);
            &&& forall|xx: int, zz: int|
                Chunk::spec_in_bounds(xx, zz) ==> marked(*final(marks), xx, zz) == (marked(
                    *old(marks),
                    xx,
                    zz,
                ) || (ex && spec_adjacent(f.x as int, f.z as int, xx, zz)))
            &&& final(next)@.len() >= old(next)@.len()
            &&& forall|k: int|
                0 <= k < old(next)@.len() ==> #[trigger] final(next)@[k] == old(next)@[k]
            &&& forall|k: int|
                old(next)@.len() <= k < final(next)@.len() ==> (#[trigger] final(next)@[k]).chunk_valid() && !marked(
                    *old(marks),
                    final(next)@[k].x as int,
                    final(next)@[k].z as int,
                ) && ex && spec_adjacent(
                    f.x as int,
                    f.z as int,
                    final(next)@[k].x as int,
                    final(next)@[k].z as int,
                )
            &&& forall|xx: int, zz: int|
                Chunk::spec_in_bounds(xx, zz) && !marked(*old(marks), xx, zz) && ex
                    && spec_adjacent(f.x as int, f.z as int, xx, zz) ==> exists|k: int|
                    old(next)@.len() <= k < final(next)@.len() && #[trigger] final(next)@[k]
                        == mk_local(xx, zz)
            &&& forall|k1: int, k2: int|
                old(next)@.len() <= k1 < k2 < final(next)@.len() ==> #[trigger] final(next)@[k1]
                    != #[trigger] final(next)@[k2]
            &&& final(out)@.len() >= old(out)@.len()
            &&& forall|k: int|
                0 <= k < old(out)@.len() ==> #[trigger] final(out)@[k] == old(out)@[k]
            &&& forall|k: int|
                old(out)@.len() <= k < final(out)@.len() ==> (#[trigger] final(out)@[k]).1
                    == depth && (final(out)@[k]).0.chunk_valid() && spec_passable(
                    c,
                    final(out)@[k].0.x as int,
                    final(out)@[k].0.z as int,
                ) && !marked(
                    *old(marks),
                    final(out)@[k].0.x as int,
                    final(out)@[k].0.z as int,
                ) && ex && spec_adjacent(
                    f.x as int,
                    f.z as int,
                    final(out)@[k].0.x as int,
                    final(out)@[k].0.z as int,
                )
            &&& forall|xx: int, zz: int|
                Chunk::spec_in_bounds(xx, zz) && !marked(*old(marks), xx, zz) && ex
                    && spec_adjacent(f.x as int, f.z as int, xx, zz) && spec_passable(c, xx, zz)
                    ==> exists|k: int|
                    old(out)@.len() <= k < final(out)@.len() && #[trigger] final(out)@[k] == (
                    mk_local(xx, zz),
                    depth,
                    )
            &&& forall|k1: int, k2: int|
                old(out)@.len() <= k1 < k2 < final(out)@.len() ==> (#[trigger] final(out)@[k1]).0
                    != (#[trigger] final(out)@[k2]).0
        }),
{
    let ghost c = *chunk;
    let ghost m_a = *old(marks);
    let ghost n_a = next@;
    let ghost o_a = out@;
    let ghost fx = f.x as int;
    let ghost fz = f.z as int;
    let expandable = if f.x == origin.x && f.z == origin.z {
        true
    } else {
        let t = chunk.get_tile(f);
        match t {
            Some(tv) => *tv == Tile::Ground,
            None => false,
        }
    };
    proof {
        assert(expandable == spec_expandable(
            c,
            origin.x as int,
            origin.z as int,
            f.x as int,
            f.z as int,
        ));
    }
    if !expandable {
        return ;
    }
    visit(chunk, marks, next, out, f.x + 1, f.z, depth);
    let ghost m_b = *marks;
    let ghost n_b = next@;
    let ghost o_b = out@;
    visit(chunk, marks, next, out, f.x - 1, f.z, depth);
    let ghost m_c = *marks;
    let ghost n_c = next@;
    let ghost o_c = out@;
    visit(chunk, marks, next, out, f.x, f.z + 1, depth);
    let ghost m_d = *marks;
    let ghost n_d = next@;
    let ghost o_d = out@;
    visit(chunk, marks, next, out, f.x, f.z - 1, depth);
    proof {
        if Chunk::spec_in_bounds(fx + 1, fz) && !marked(m_a, fx + 1, fz) {
            let k = n_b.len() - 1;
            assert(n_b[k] == mk_local(fx + 1, fz));
            assert(next@[k] == n_b[k]);
            assert(exists|kk: int|
                n_a.len() <= kk < next@.len() && #[trigger] next@[kk] == mk_local(fx + 1, fz));
            if spec_passable(c, fx + 1, fz) {
                let ko = o_b.len() - 1;
                assert(o_b[ko] == (mk_local(fx + 1, fz), depth));
                assert(out@[ko] == o_b[ko]);
                assert(exists|kk: int|
                    o_a.len() <= kk < out@.len() && #[trigger] out@[kk] == (
                    mk_local(fx + 1, fz),
                    depth,
                    ));
            }
        }
        if Chunk::spec_in_bounds(fx - 1, fz) && !marked(m_a, fx - 1, fz) {
            assert(!marked(m_b, fx - 1, fz));
            let k = n_c.len() - 1;
            assert(n_c[k] == mk_local(fx - 1, fz));
            assert(next@[k] == n_c[k]);
            assert(exists|kk: int|
                n_a.len() <= kk < next@.len() && #[trigger] next@[kk] == mk_local(fx - 1, fz));
            if spec_passable(c, fx - 1, fz) {
                let ko = o_c.len() - 1;
                assert(o_c[ko] == (mk_local(fx - 1, fz), depth));
                assert(out@[ko] == o_c[ko]);
                assert(exists|kk: int|
                    o_a.len() <= kk < out@.len() && #[trigger] out@[kk] == (
                    mk_local(fx - 1, fz),
                    depth,
                    ));
            }
        }
        if Chunk::spec_in_bounds(fx, fz + 1) && !marked(m_a, fx, fz + 1) {
            assert(!marked(m_c, fx, fz + 1));
            let k = n_d.len() - 1;
            assert(n_d[k] == mk_local(fx, fz + 1));
            assert(next@[k] == n_d[k]);
            assert(exists|kk: int|
                n_a.len() <= kk < next@.len() && #[trigger] next@[kk] == mk_local(fx, fz + 1));
            if spec_passable(c, fx, fz + 1) {
                let ko = o_d.len() - 1;
                assert(o_d[ko] == (mk_local(fx, fz + 1), depth));
                assert(out@[ko] == o_d[ko]);
                assert(exists|kk: int|
                    o_a.len() <= kk < out@.len() && #[trigger] out@[kk] == (
                    mk_local(fx, fz + 1),
                    depth,
                    ));
            }
        }
        if Chunk::spec_in_bounds(fx, fz - 1) && !marked(m_a, fx, fz - 1) {
            assert(!marked(m_d, fx, fz - 1));
            let k = next@.len() - 1;
            assert(next@[k] == mk_local(fx, fz - 1));
            assert(exists|kk: int|
                n_a.len() <= kk < next@.len() && #[trigger] next@[kk] == mk_local(fx, fz - 1));
            if spec_passable(c, fx, fz - 1) {
                let ko = out@.len() - 1;
                assert(out@[ko] == (mk_local(fx, fz - 1), depth));
                assert(exists|kk: int|
                    o_a.len() <= kk < out@.len() && #[trigger] out@[kk] == (
                    mk_local(fx, fz - 1),
                    depth,
                    ));
            }
        }
    }
}

/// Expands one whole layer: every in-bounds, not yet visited neighbour of
/// an expandable frontier tile is marked visited and becomes the next
/// frontier; the passable ones among them are appended to the output with
/// the layer's cost.
#[verifier::rlimit(100)]
fn expand_layer(
    chunk: &Chunk,
    origin: TileCoordinate<LocalSpace>,
    frontier: &Vec<TileCoordinate<LocalSpace>>,
    marks: &mut Vec<Vec<bool>>,
    out: &mut Vec<(TileCoordinate<LocalSpace>, u8)>,
    depth: u8,
) -> (next: Vec<TileCoordinate<LocalSpace>>)
    requires
        chunk.wf(),
        mark_wf(*old(marks)),
        origin.chunk_valid(),
        forall|k: int| 0 <= k < frontier@.len() ==> (#[trigger] frontier@[k]).chunk_valid(),
    ensures
        mark_wf(*final(marks)),
        forall|xx: int, zz: int|
            Chunk::spec_in_bounds(xx, zz) ==> marked(*final(marks), xx, zz) == (marked(
                *old(marks),
                xx,
                zz,
            ) || spec_added(
                *chunk,
                origin.x as int,
                origin.z as int,
                frontier@,
                *old(marks),
                xx,
                zz,
            )),
        forall|k: int|
            0 <= k < next@.len() ==> (#[trigger] next@[k]).chunk_valid() && spec_added(
                *chunk,
                origin.x as int,
                origin.z as int,
                frontier@,
                *old(marks),
                next@[k].x as int,
                next@[k].z as int,
            ),
        forall|xx: int, zz: int|
            spec_added(
                *chunk,
                origin.x as int,
                origin.z as int,
                frontier@,
                *old(marks),
                xx,
                zz,
            ) ==> exists|k: int|
                0 <= k < next@.len() && (#[trigger] next@[k]).x as int == xx && next@[k].z as int
                    == zz,
        forall|k1: int, k2: int| 0 <= k1 < k2 < next@.len() ==> #[trigger] next@[k1] != #[trigger] next@[k2],
        final(out)@.len() >= old(out)@.len(),
        final(out)@.take(old(out)@.len() as int) == old(out)@,
        forall|k: int|
            old(out)@.len() <= k < final(out)@.len() ==> (#[trigger] final(out)@[k]).1 == depth
                && spec_passable(
                *chunk,
                final(out)@[k].0.x as int,
                final(out)@[k].0.z as int,
            ) && spec_added(
                *chunk,
                origin.x as int,
                origin.z as int,
                frontier@,
                *old(marks),
                final(out)@[k].0.x as int,
                final(out)@[k].0.z as int,
            ),
        forall|xx: int, zz: int|
            spec_added(*chunk, origin.x as int, origin.z as int, frontier@, *old(marks), xx, zz)
                && spec_passable(*chunk, xx, zz) ==> exists|k: int|
                old(out)@.len() <= k < final(out)@.len() && (#[trigger] final(out)@[k]).0.x as int
                    == xx && final(out)@[k].0.z as int == zz,
        forall|k1: int, k2: int|
            old(out)@.len() <= k1 < k2 < final(out)@.len() ==> (#[trigger] final(out)@[k1]).0 != (
            #[trigger] final(out)@[k2]).0,
{
    let ghost c = *chunk;
    let ghost ox = origin.x as int;
    let ghost oz = origin.z as int;
    let ghost fr = frontier@;
    let ghost m0 = *marks;
    let ghost out0 = out@;
    let mut next: Vec<TileCoordinate<LocalSpace>> = Vec::new();
    let n = frontier.len();
    let mut j: usize = 0;
    proof {
        assert(fr.take(0) =~= Seq::<TileCoordinate<LocalSpace>>::empty());
        assert(out@.take(out0.len() as int) =~= out0);
    }
    while j < n
        invariant
            j <= n,
            n == fr.len(),
            chunk.wf(),
            c == *chunk,
            ox == origin.x as int,
            oz == origin.z as int,
            fr == frontier@,
            origin.chunk_valid(),
            forall|k: int| 0 <= k < fr.len() ==> (#[trigger] fr[k]).chunk_valid(),
            mark_wf(m0),
            mark_wf(*marks),
            forall|xx: int, zz: int|
                Chunk::spec_in_bounds(xx, zz) ==> marked(*marks, xx, zz) == ((#[trigger] marked(
                    m0,
                    xx,
                    zz,
                )) || spec_added(c, ox, oz, fr.take(j as int), m0, xx, zz)),
            forall|k: int|
                0 <= k < next@.len() ==> (#[trigger] next@[k]).chunk_valid() && spec_added(
                    c,
                    ox,
                    oz,
                    fr.take(j as int),
                    m0,
                    next@[k].x as int,
                    next@[k].z as int,
                ),
            forall|xx: int, zz: int|
                spec_added(c, ox, oz, fr.take(j as int), m0, xx, zz) ==> exists|k: int|
                    0 <= k < next@.len() && (#[trigger] next@[k]).x as int == xx
                        && next@[k].z as int == zz,
            forall|k1: int, k2: int|
                0 <= k1 < k2 < next@.len() ==> #[trigger] next@[k1] != #[trigger] next@[k2],
            forall|k: int|
                0 <= k < next@.len() ==> marked(
                    *marks,
                    (#[trigger] next@[k]).x as int,
                    next@[k].z as int,
                ),
            out@.len() >= out0.len(),
            out@.take(out0.len() as int) == out0,
            forall|k: int|
                out0.len() <= k < out@.len() ==> (#[trigger] out@[k]).1 == depth && spec_passable(
                    c,
                    out@[k].0.x as int,
                    out@[k].0.z as int,
                ) && spec_added(
                    c,
                    ox,
                    oz,
                    fr.take(j as int),
                    m0,
                    out@[k].0.x as int,
                    out@[k].0.z as int,
                ),
            forall|xx: int, zz: int|
                spec_added(c, ox, oz, fr.take(j as int), m0, xx, zz) && spec_passable(c, xx, zz)
                    ==> exists|k: int|
                    out0.len() <= k < out@.len() && (#[trigger] out@[k]).0.x as int == xx && out@[
                        k
                    ].0.z as int == zz,
            forall|k: int|
                out0.len() <= k < out@.len() ==> marked(
                    *marks,
                    (#[trigger] out@[k]).0.x as int,
                    out@[k].0.z as int,
                ),
            forall|k1: int, k2: int|
                out0.len() <= k1 < k2 < out@.len() ==> (#[trigger] out@[k1]).0 != (
                #[trigger] out@[k2]).0,
        decreases n - j,
    {
        let f = frontier[j];
        let ghost m_a = *marks;
        let ghost n_a = next@;
        let ghost o_a = out@;
        expand_one(chunk, origin, f, marks, &mut next, out, depth);
        proof {
            let ex = spec_expandable(c, ox, oz, f.x as int, f.z as int);
            assert forall|xx: int, zz: int|
                (#[trigger] spec_added(c, ox, oz, fr.take(j + 1), m0, xx, zz)) == (spec_added(
                    c,
                    ox,
                    oz,
                    fr.take(j as int),
                    m0,
                    xx,
                    zz,
                ) || (Chunk::spec_in_bounds(xx, zz) && !marked(m0, xx, zz) && ex && spec_adjacent(
                    f.x as int,
                    f.z as int,
                    xx,
                    zz,
                ))) by {
                lemma_added_step(c, ox, oz, fr, m0, j as int, xx, zz);
            }
            assert forall|xx: int, zz: int|
                #[trigger] spec_added(c, ox, oz, fr.take(j + 1), m0, xx, zz) implies exists|k: int|
                0 <= k < next@.len() && (#[trigger] next@[k]).x as int == xx && next@[k].z as int
                    == zz by {
                if spec_added(c, ox, oz, fr.take(j as int), m0, xx, zz) {
                    let k = choose|k: int|
                        0 <= k < n_a.len() && (#[trigger] n_a[k]).x as int == xx
                            && n_a[k].z as int == zz;
                    assert(next@[k] == n_a[k]);
                } else {
                    assert(!marked(m_a, xx, zz));
                    let k = choose|k: int|
                        n_a.len() <= k < next@.len() && #[trigger] next@[k] == mk_local(xx, zz);
                    assert(next@[k].x as int == xx && next@[k].z as int == zz);
                }
            }
            assert forall|k: int|
                0 <= k < next@.len() implies (#[trigger] next@[k]).chunk_valid() && spec_added(
                c,
                ox,
                oz,
                fr.take(j + 1),
                m0,
                next@[k].x as int,
                next@[k].z as int,
            ) by {
                if k < n_a.len() {
                    assert(next@[k] == n_a[k]);
                    assert(spec_added(
                        c,
                        ox,
                        oz,
                        fr.take(j as int),
                        m0,
                        n_a[k].x as int,
                        n_a[k].z as int,
                    ));
                } else {
                    let xx = next@[k].x as int;
                    let zz = next@[k].z as int;
                    assert(!marked(m_a, xx, zz));
                    assert(marked(m_a, xx, zz) == (marked(m0, xx, zz) || spec_added(
                        c,
                        ox,
                        oz,
                        fr.take(j as int),
                        m0,
                        xx,
                        zz,
                    )));
                    assert(!marked(m0, xx, zz));
                }
            }
            assert forall|k: int|
                0 <= k < next@.len() implies marked(
                *marks,
                (#[trigger] next@[k]).x as int,
                next@[k].z as int,
            ) by {
                assert(Chunk::spec_in_bounds(next@[k].x as int, next@[k].z as int));
                if k < n_a.len() {
                    assert(next@[k] == n_a[k]);
                    assert(marked(m_a, n_a[k].x as int, n_a[k].z as int));
                }
            }
            assert forall|xx: int, zz: int|
                #[trigger] spec_added(c, ox, oz, fr.take(j + 1), m0, xx, zz) && spec_passable(
                    c,
                    xx,
                    zz,
                ) implies exists|k: int|
                out0.len() <= k < out@.len() && (#[trigger] out@[k]).0.x as int == xx && out@[
                    k
                ].0.z as int == zz by {
                if spec_added(c, ox, oz, fr.take(j as int), m0, xx, zz) {
                    let k = choose|k: int|
                        out0.len() <= k < o_a.len() && (#[trigger] o_a[k]).0.x as int == xx
                            && o_a[k].0.z as int == zz;
                    assert(out@[k] == o_a[k]);
                } else {
                    assert(!marked(m_a, xx, zz));
                    let k = choose|k: int|
                        o_a.len() <= k < out@.len() && #[trigger] out@[k] == (mk_local(xx, zz), depth);
                    assert(out@[k].0.x as int == xx && out@[k].0.z as int == zz);
                }
            }
        }
        j = j + 1;
    }
    proof {
        assert(fr.take(n as int) =~= fr);
    }
    next
}

/// When the visit matrix mirrors layer `d0` and the frontier list holds
/// exactly the tiles first visited in layer `d0`, the tiles a layer
/// expansion newly reaches are exactly the next spec layer's additions.
proof fn lemma_added_is_layer(
    c: Chunk,
    ox: int,
    oz: int,
    d0: nat,
    fr: Seq<TileCoordinate<LocalSpace>>,
    m0: Vec<Vec<bool>>,
)
    requires
        Chunk::spec_in_bounds(ox, oz),
        forall|xx: int, zz: int|
            Chunk::spec_in_bounds(xx, zz) ==> (#[trigger] marked(m0, xx, zz)) == spec_visited(
                c,
                ox,
                oz,
                d0,
            ).contains((xx, zz)),
        forall|k: int|
            0 <= k < fr.len() ==> (#[trigger] fr[k]).chunk_valid() && spec_frontier(
                c,
                ox,
                oz,
                d0,
            ).contains((fr[k].x as int, fr[k].z as int)),
        forall|xx: int, zz: int|
            #[trigger] spec_frontier(c, ox, oz, d0).contains((xx, zz)) ==> exists|k: int|
                0 <= k < fr.len() && (#[trigger] fr[k]).x as int == xx && fr[k].z as int == zz,
    ensures
        forall|xx: int, zz: int|
            (#[trigger] spec_added(c, ox, oz, fr, m0, xx, zz)) == (spec_visited(
                c,
                ox,
                oz,
                (d0 + 1) as nat,
            ).contains((xx, zz)) && !spec_visited(c, ox, oz, d0).contains((xx, zz))),
{
    lemma_visited_monotone(c, ox, oz, d0, (d0 + 1) as nat);
    assert forall|xx: int, zz: int|
        (#[trigger] spec_added(c, ox, oz, fr, m0, xx, zz)) == (spec_visited(
            c,
            ox,
            oz,
            (d0 + 1) as nat,
        ).contains((xx, zz)) && !spec_visited(c, ox, oz, d0).contains((xx, zz))) by {
        let vis0 = spec_visited(c, ox, oz, d0);
        let vis1 = spec_visited(c, ox, oz, (d0 + 1) as nat);
        if spec_added(c, ox, oz, fr, m0, xx, zz) {
            // some frontier tile expands to (xx, zz)
            let k = choose|k: int|
                0 <= k < fr.len() && spec_expandable(
                    c,
                    ox,
                    oz,
                    (#[trigger] fr[k]).x as int,
                    fr[k].z as int,
                ) && spec_adjacent(fr[k].x as int, fr[k].z as int, xx, zz);
            let u = (fr[k].x as int, fr[k].z as int);
            assert(spec_frontier(c, ox, oz, d0).contains(u));
            assert(vis0.contains(u));
            assert(vis1.contains((xx, zz)));
            assert(!vis0.contains((xx, zz)));
        }
        if vis1.contains((xx, zz)) && !vis0.contains((xx, zz)) {
            // the definition gives a visited expander; it lies in the
            // frontier, for a neighbour not yet visited one layer earlier
            let u = choose|u: (int, int)|
                #[trigger] vis0.contains(u) && spec_expandable(c, ox, oz, u.0, u.1)
                    && spec_adjacent(u.0, u.1, xx, zz);
            if d0 > 0 && spec_visited(c, ox, oz, (d0 - 1) as nat).contains(u) {
                assert(vis0.contains((xx, zz)));
            } else {
                assert(spec_frontier(c, ox, oz, d0).contains(u));
                let k = choose|k: int|
                    0 <= k < fr.len() && (#[trigger] fr[k]).x as int == u.0 && fr[k].z as int
                        == u.1;
                assert(spec_expandable(c, ox, oz, fr[k].x as int, fr[k].z as int));
                assert(spec_adjacent(fr[k].x as int, fr[k].z as int, xx, zz));
                assert(Chunk::spec_in_bounds(xx, zz));
                assert(!marked(m0, xx, zz));
                assert(spec_added(c, ox, oz, fr, m0, xx, zz));
            }
        }
    }
}

/// A visit matrix with nothing visited yet.
fn blank_marks() -> (m: Vec<Vec<bool>>)
    ensures
        mark_wf(m),
        forall|xx: int, zz: int| Chunk::spec_in_bounds(xx, zz) ==> !#[trigger] marked(m, xx, zz),
{
    let mut m: Vec<Vec<bool>> = Vec::new();
    let mut z: usize = 0;
    while z < SIZE_Z
        invariant
            z <= SIZE_Z,
            m@.len() == z as int,
            forall|zz: int| 0 <= zz < z as int ==> (#[trigger] m@[zz])@.len() == SIZE_X as int,
            forall|xx: int, zz: int|
                0 <= zz < z as int && 0 <= xx < SIZE_X as int ==> !(#[trigger] m@[zz]@[xx]),
        decreases SIZE_Z - z,
    {
        let mut row: Vec<bool> = Vec::new();
        let mut x: usize = 0;
        while x < SIZE_X
            invariant
                x <= SIZE_X,
                row@.len() == x as int,
                forall|xx: int| 0 <= xx < x as int ==> !(#[trigger] row@[xx]),
            decreases SIZE_X - x,
        {
            row.push(false);
            x = x + 1;
        }
        m.push(row);
        z = z + 1;
    }
    m
}

/// Marks a single tile visited.
fn set_mark(marks: &mut Vec<Vec<bool>>, x: usize, z: usize)
    requires
        mark_wf(*old(marks)),
        x < SIZE_X,
        z < SIZE_Z,
    ensures
        mark_wf(*final(marks)),
        forall|xx: int, zz: int|
            Chunk::spec_in_bounds(xx, zz) ==> (#[trigger] marked(*final(marks), xx, zz)) == (
            marked(*old(marks), xx, zz) || (xx == x as int && zz == z as int)),
{
    let row: &mut Vec<bool> = &mut marks[z];
    row[x] = true;
}

/// Runs the cost-bounded flood search from `origin` with `budget` movement
/// points: the result lists, in breadth-first order, every passable tile
/// other than the origin that the search reaches within the budget — each
/// exactly once, tagged with the first layer that reached it, which is its
/// minimal cost. Impassable tiles and tiles beyond the chunk block the
/// expansion and never appear in the result.
#[verifier::rlimit(100)]
pub fn flood_search(chunk: &Chunk, origin: TileCoordinate<LocalSpace>, budget: u8) -> (r: Vec<
    (TileCoordinate<LocalSpace>, u8),
>)
    requires
        chunk.wf(),
        origin.chunk_valid(),
    ensures
        forall|k: int|
            0 <= k < r@.len() ==> {
                let t = (#[trigger] r@[k]).0;
                let cost = r@[k].1;
                &&& 1 <= cost <= budget
                &&& t.chunk_valid()
                &&& !(t.x == origin.x && t.z == origin.z)
                &&& spec_passable(*chunk, t.x as int, t.z as int)
                &&& spec_visited(*chunk, origin.x as int, origin.z as int, cost as nat).contains(
                    (t.x as int, t.z as int),
                )
                &&& !spec_visited(
                    *chunk,
                    origin.x as int,
                    origin.z as int,
                    (cost - 1) as nat,
                ).contains((t.x as int, t.z as int))
            },
        forall|xx: int, zz: int|
            spec_passable(*chunk, xx, zz) && !(xx == origin.x as int && zz == origin.z as int)
                && #[trigger] spec_visited(
                *chunk,
                origin.x as int,
                origin.z as int,
                budget as nat,
            ).contains((xx, zz)) ==> exists|k: int|
                0 <= k < r@.len() && (#[trigger] r@[k]).0.x as int == xx && r@[k].0.z as int == zz,
        forall|k1: int, k2: int|
            0 <= k1 < k2 < r@.len() ==> (#[trigger] r@[k1]).0 != (#[trigger] r@[k2]).0,
        forall|k1: int, k2: int|
            0 <= k1 <= k2 < r@.len() ==> (#[trigger] r@[k1]).1 <= (#[trigger] r@[k2]).1,
{
    let ghost c = *chunk;
    let ghost ox = origin.x as int;
    let ghost oz = origin.z as int;
    let mut marks = blank_marks();
    let ghost blank = marks;
    set_mark(&mut marks, origin.x as usize, origin.z as usize);
    let mut frontier: Vec<TileCoordinate<LocalSpace>> = Vec::new();
    frontier.push(origin);
    let mut out: Vec<(TileCoordinate<LocalSpace>, u8)> = Vec::new();
    let mut depth: u8 = 0;
    proof {
        assert forall|xx: int, zz: int| Chunk::spec_in_bounds(xx, zz) implies (#[trigger] marked(
            marks,
            xx,
            zz,
        )) == spec_visited(c, ox, oz, 0).contains((xx, zz)) by {
            assert(!marked(blank, xx, zz));
            if (xx, zz) == (ox, oz) {
                assert(spec_visited(c, ox, oz, 0).contains((xx, zz)));
            } else {
                assert(!spec_visited(c, ox, oz, 0).contains((xx, zz)));
            }
        }
        assert forall|xx: int, zz: int|
            #[trigger] spec_frontier(c, ox, oz, 0).contains((xx, zz)) implies exists|k: int|
            0 <= k < frontier@.len() && (#[trigger] frontier@[k]).x as int == xx
                && frontier@[k].z as int == zz by {
            assert((xx, zz) == (ox, oz));
            assert(frontier@[0] == origin);
            assert(0 <= 0 < frontier@.len() && frontier@[0].x as int == xx && frontier@[0].z as int
                == zz);
        }
        assert(spec_frontier(c, ox, oz, 0).contains((ox, oz)));
    }
    while depth < budget
        invariant
            depth <= budget,
            chunk.wf(),
            origin.chunk_valid(),
            c == *chunk,
            ox == origin.x as int,
            oz == origin.z as int,
            mark_wf(marks),
            forall|xx: int, zz: int|
                Chunk::spec_in_bounds(xx, zz) ==> (#[trigger] marked(marks, xx, zz))
                    == spec_visited(c, ox, oz, depth as nat).contains((xx, zz)),
            forall|k: int|
                0 <= k < frontier@.len() ==> (#[trigger] frontier@[k]).chunk_valid()
                    && spec_frontier(c, ox, oz, depth as nat).contains(
                    (frontier@[k].x as int, frontier@[k].z as int),
                ),
            forall|xx: int, zz: int|
                #[trigger] spec_frontier(c, ox, oz, depth as nat).contains((xx, zz))
                    ==> exists|k: int|
                    0 <= k < frontier@.len() && (#[trigger] frontier@[k]).x as int == xx
                        && frontier@[k].z as int == zz,
            forall|k1: int, k2: int|
                0 <= k1 < k2 < frontier@.len() ==> #[trigger] frontier@[k1]
                    != #[trigger] frontier@[k2],
            forall|k: int|
                0 <= k < out@.len() ==> {
                    let t = (#[trigger] out@[k]).0;
                    let cost = out@[k].1;
                    &&& 1 <= cost <= depth
                    &&& t.chunk_valid()
                    &&& spec_passable(c, t.x as int, t.z as int)
                    &&& spec_visited(c, ox, oz, cost as nat).contains((t.x as int, t.z as int))
                    &&& !spec_visited(c, ox, oz, (cost - 1) as nat).contains(
                        (t.x as int, t.z as int),
                    )
                },
            forall|xx: int, zz: int|
                spec_passable(c, xx, zz) && !(xx == ox && zz == oz) && #[trigger] spec_visited(
                    c,
                    ox,
                    oz,
                    depth as nat,
                ).contains((xx, zz)) ==> exists|k: int|
                    0 <= k < out@.len() && (#[trigger] out@[k]).0.x as int == xx && out@[
                        k
                    ].0.z as int == zz,
            forall|k1: int, k2: int|
                0 <= k1 < k2 < out@.len() ==> (#[trigger] out@[k1]).0 != (#[trigger] out@[k2]).0,
            forall|k1: int, k2: int|
                0 <= k1 <= k2 < out@.len() ==> (#[trigger] out@[k1]).1 <= (#[trigger] out@[k2]).1,
        decreases budget - depth,
    {
        let ghost d0 = depth as nat;
        let ghost fr0 = frontier@;
        let ghost m_pre = marks;
        let ghost out_pre = out@;
        depth = depth + 1;
        let next = expand_layer(chunk, origin, &frontier, &mut marks, &mut out, depth);
        proof {
            let d = depth as nat;
            lemma_visited_monotone(c, ox, oz, d0, d);
            lemma_visited_in_bounds(c, ox, oz, d);
            lemma_added_is_layer(c, ox, oz, d0, fr0, m_pre);
            assert(d == (d0 + 1) as nat);
            // the visit matrix now mirrors the new layer
            assert forall|xx: int, zz: int| Chunk::spec_in_bounds(xx, zz) implies (
            #[trigger] marked(marks, xx, zz)) == spec_visited(c, ox, oz, d).contains(
                (xx, zz),
            ) by {
                assert(marked(m_pre, xx, zz) == spec_visited(c, ox, oz, d0).contains((xx, zz)));
                assert(spec_added(c, ox, oz, fr0, m_pre, xx, zz) == (spec_visited(
                    c,
                    ox,
                    oz,
                    (d0 + 1) as nat,
                ).contains((xx, zz)) && !spec_visited(c, ox, oz, d0).contains((xx, zz))));
            }
            // the next frontier holds exactly the new layer's additions
            assert forall|k: int|
                0 <= k < next@.len() implies (#[trigger] next@[k]).chunk_valid() && spec_frontier(
                c,
                ox,
                oz,
                d,
            ).contains((next@[k].x as int, next@[k].z as int)) by {
                let xx = next@[k].x as int;
                let zz = next@[k].z as int;
                assert(spec_added(c, ox, oz, fr0, m_pre, xx, zz));
                assert(spec_visited(c, ox, oz, (d0 + 1) as nat).contains((xx, zz)));
                assert(!spec_visited(c, ox, oz, d0).contains((xx, zz)));
            }
            assert forall|xx: int, zz: int|
                #[trigger] spec_frontier(c, ox, oz, d).contains((xx, zz)) implies exists|k: int|
                0 <= k < next@.len() && (#[trigger] next@[k]).x as int == xx && next@[k].z as int
                    == zz by {
                assert(spec_visited(c, ox, oz, d).contains((xx, zz)));
                assert(!spec_visited(c, ox, oz, d0).contains((xx, zz)));
                assert(Chunk::spec_in_bounds(xx, zz));
                assert(spec_added(c, ox, oz, fr0, m_pre, xx, zz));
                assert(!marked(m_pre, xx, zz));
                let k = choose|k: int|
                    0 <= k < next@.len() && #[trigger] next@[k] == mk_local(xx, zz);
                assert(next@[k].x as int == xx && next@[k].z as int == zz);
            }
            // output entries stay sound at the new depth
            assert forall|k: int|
                0 <= k < out@.len() implies {
                let t = (#[trigger] out@[k]).0;
                let cost = out@[k].1;
                &&& 1 <= cost <= depth
                &&& t.chunk_valid()
                &&& spec_passable(c, t.x as int, t.z as int)
                &&& spec_visited(c, ox, oz, cost as nat).contains((t.x as int, t.z as int))
                &&& !spec_visited(c, ox, oz, (cost - 1) as nat).contains((t.x as int, t.z as int))
            } by {
                if k < out_pre.len() {
                    assert(out@[k] == out_pre[k]);
                } else {
                    let t = out@[k].0;
                    assert(spec_added(c, ox, oz, fr0, m_pre, t.x as int, t.z as int));
                    assert(out@[k].1 == depth);
                    assert(spec_visited(c, ox, oz, (d0 + 1) as nat).contains(
                        (t.x as int, t.z as int),
                    ));
                    assert(!spec_visited(c, ox, oz, d0).contains((t.x as int, t.z as int)));
                }
            }
            // costs never decrease along the output
            assert forall|k1: int, k2: int|
                0 <= k1 <= k2 < out@.len() implies (#[trigger] out@[k1]).1 <= (
            #[trigger] out@[k2]).1 by {
                if k2 < out_pre.len() {
                    assert(out@[k1] == out_pre[k1] && out@[k2] == out_pre[k2]);
                } else if k1 >= out_pre.len() {
                    assert(out@[k1].1 == depth && out@[k2].1 == depth);
                } else {
                    assert(out@[k1] == out_pre[k1]);
                    assert(out@[k1].1 <= d0);
                    assert(out@[k2].1 == depth);
                }
            }
            // out completeness at the new depth
            assert forall|xx: int, zz: int|
                spec_passable(c, xx, zz) && !(xx == ox && zz == oz) && #[trigger] spec_visited(
                    c,
                    ox,
                    oz,
                    d,
                ).contains((xx, zz)) implies exists|k: int|
                0 <= k < out@.len() && (#[trigger] out@[k]).0.x as int == xx && out@[
                    k
                ].0.z as int == zz by {
                if spec_visited(c, ox, oz, d0).contains((xx, zz)) {
                    let k = choose|k: int|
                        0 <= k < out_pre.len() && (#[trigger] out_pre[k]).0.x as int == xx
                            && out_pre[k].0.z as int == zz;
                    assert(out@[k] == out_pre[k]);
                } else {
                    assert(spec_added(c, ox, oz, fr0, m_pre, xx, zz));
                    let k = choose|k: int|
                        out_pre.len() <= k < out@.len() && #[trigger] out@[k] == (
                        mk_local(xx, zz),
                        depth,
                        );
                    assert(out@[k].0.x as int == xx && out@[k].0.z as int == zz);
                }
            }
            // old and new output entries never share a tile
            assert forall|k1: int, k2: int|
                0 <= k1 < k2 < out@.len() implies (#[trigger] out@[k1]).0 != (
            #[trigger] out@[k2]).0 by {
                if k2 < out_pre.len() {
                    assert(out@[k1] == out_pre[k1] && out@[k2] == out_pre[k2]);
                } else if k1 >= out_pre.len() {
                } else {
                    assert(out@[k1] == out_pre[k1]);
                    let t1 = out@[k1].0;
                    let t2 = out@[k2].0;
                    lemma_visited_monotone(c, ox, oz, out_pre[k1].1 as nat, d0);
                    assert(spec_visited(c, ox, oz, d0).contains((t1.x as int, t1.z as int)));
                    assert(!spec_visited(c, ox, oz, d0).contains((t2.x as int, t2.z as int)));
                }
            }
            // the origin was visited from the start
            assert(spec_visited(c, ox, oz, 0).contains((ox, oz)));
        }
        frontier = next;
    }
    proof {
        assert forall|k: int|
            0 <= k < out@.len() implies !((#[trigger] out@[k]).0.x == origin.x && out@[k].0.z
            == origin.z) by {
            let cost = out@[k].1;
            lemma_visited_monotone(c, ox, oz, 0, (cost - 1) as nat);
            assert(spec_visited(c, ox, oz, 0).contains((ox, oz)));
        }
    }
    out
}

/// The Manhattan ball: every tile within `d` orthogonal steps of the
/// origin, ignoring passability.
pub open spec fn spec_ball(ox: int, oz: int, d: int) -> Set<(int, int)> {
    Set::new(
        |t: (int, int)| vstd::math::abs(t.0 - ox) + vstd::math::abs(t.1 - oz) <= d,
    )
}

/// A fully open grid: every tile of the chunk is walkable.
pub open spec fn spec_all_ground(c: Chunk) -> bool {
    forall|x: int, z: int|
        Chunk::spec_in_bounds(x, z) ==> #[trigger] c.tile_at(x, z) == Tile::Ground
}

/// The Manhattan ball of radius `d` around the origin lies strictly inside
/// the chunk.
pub open spec fn spec_ball_inside(ox: int, oz: int, d: int) -> bool {
    &&& 0 <= ox - d
    &&& ox + d < SIZE_X as int
    &&& 0 <= oz - d
    &&& oz + d < SIZE_Z as int
}

/// On an open (fully passable) grid whose ball of radius `d` fits inside
/// the chunk, the search visits exactly the Manhattan ball of radius `d`:
/// with the origin excluded, those are precisely the solver's results for
/// budget `d`.
pub proof fn lemma_open_grid_ball(c: Chunk, ox: int, oz: int, d: nat)
    requires
        spec_all_ground(c),
        spec_ball_inside(ox, oz, d as int),
    ensures
        spec_visited(c, ox, oz, d) == spec_ball(ox, oz, d as int),
    decreases d,
{
    let vis = spec_visited(c, ox, oz, d);
    let ball = spec_ball(ox, oz, d as int);
    if d == 0 {
        assert forall|t: (int, int)| ball.contains(t) implies vis.contains(t) by {
            assert(t == (ox, oz));
        }
        assert(vis =~= ball);
    } else {
        lemma_open_grid_ball(c, ox, oz, (d - 1) as nat);
        let prev = spec_visited(c, ox, oz, (d - 1) as nat);
        let prev_ball = spec_ball(ox, oz, d - 1);
        assert forall|t: (int, int)| #[trigger] vis.contains(t) implies ball.contains(t) by {
            if prev.contains(t) {
                assert(prev_ball.contains(t));
            } else {
                let u = choose|u: (int, int)|
                    #[trigger] prev.contains(u) && spec_expandable(c, ox, oz, u.0, u.1)
                        && spec_adjacent(u.0, u.1, t.0, t.1);
                assert(prev_ball.contains(u));
            }
        }
        assert forall|t: (int, int)| #[trigger] ball.contains(t) implies vis.contains(t) by {
            if prev_ball.contains(t) {
                assert(prev.contains(t));
                lemma_visited_monotone(c, ox, oz, (d - 1) as nat, d);
            } else {
                // one step toward the origin lands in the smaller ball
                let u: (int, int) = if t.0 > ox {
                    (t.0 - 1, t.1)
                } else if t.0 < ox {
                    (t.0 + 1, t.1)
                } else if t.1 > oz {
                    (t.0, t.1 - 1)
                } else {
                    (t.0, t.1 + 1)
                };
                assert(prev_ball.contains(u));
                assert(prev.contains(u));
                assert(Chunk::spec_in_bounds(u.0, u.1));
                assert(spec_expandable(c, ox, oz, u.0, u.1));
                assert(spec_adjacent(u.0, u.1, t.0, t.1));
                assert(Chunk::spec_in_bounds(t.0, t.1));
                assert(vis.contains(t));
            }
        }
        assert(vis =~= ball);
    }
}

/// Point `i` of the diamond walk around the origin at radius `d`:
/// starting east of the origin and walking the four edges of the diamond.
pub open spec fn spec_sphere_pt(ox: int, oz: int, d: int, i: int) -> (int, int) {
    if i < d {
        (ox + d - i, oz + i)
    } else if i < 2 * d {
        (ox + d - i, oz + 2 * d - i)
    } else if i < 3 * d {
        (ox - d + (i - 2 * d), oz - (i - 2 * d))
    } else {
        (ox + (i - 3 * d), oz - d + (i - 3 * d))
    }
}

/// The diamond of radius `d` — the tiles at Manhattan distance exactly
/// `d` — holds exactly `4 * d` tiles.
proof fn lemma_sphere_card(ox: int, oz: int, d: int)
    requires
        d >= 1,
    ensures
        spec_ball(ox, oz, d).difference(spec_ball(ox, oz, d - 1)).finite(),
        spec_ball(ox, oz, d).difference(spec_ball(ox, oz, d - 1)).len() == 4 * d,
{
    let sphere = spec_ball(ox, oz, d).difference(spec_ball(ox, oz, d - 1));
    let f = |i: int| spec_sphere_pt(ox, oz, d, i);
    let rng = vstd::set_lib::set_int_range(0, 4 * d);
    vstd::set_lib::lemma_int_range(0, 4 * d);
    assert forall|t: (int, int)| #[trigger] sphere.contains(t) implies rng.map(f).contains(t) by {
        let dx = t.0 - ox;
        let dz = t.1 - oz;
        let i: int = if dx > 0 && dz >= 0 {
            dz
        } else if dx <= 0 && dz > 0 {
            2 * d - dz
        } else if dx < 0 && dz <= 0 {
            2 * d - dz
        } else {
            3 * d + dx
        };
        assert(rng.contains(i) && f(i) == t);
    }
    assert forall|t: (int, int)| #[trigger] rng.map(f).contains(t) implies sphere.contains(t) by {
        let i = choose|i: int| rng.contains(i) && f(i) == t;
    }
    assert(rng.map(f) =~= sphere);
    assert(vstd::relations::injective_on(f, rng)) by {
        assert forall|i: int, j: int|
            rng.contains(i) && rng.contains(j) && #[trigger] f(i) == #[trigger] f(j) implies i
            == j by {
            assert(spec_sphere_pt(ox, oz, d, i) == spec_sphere_pt(ox, oz, d, j));
        }
    }
    vstd::set_lib::lemma_map_size(rng, sphere, f);
}

/// The Manhattan ball of radius `d` holds exactly `2*d*(d+1) + 1` tiles —
/// so, the origin excluded, a budget of `d` on an open grid buys exactly
/// `2*d*(d+1)` reachable tiles.
pub proof fn lemma_ball_card(ox: int, oz: int, d: int)
    requires
        d >= 0,
    ensures
        spec_ball(ox, oz, d).finite(),
        spec_ball(ox, oz, d).len() == 2 * d * (d + 1) + 1,
    decreases d,
{
    if d == 0 {
        assert(spec_ball(ox, oz, 0) =~= Set::empty().insert((ox, oz)));
    } else {
        lemma_ball_card(ox, oz, d - 1);
        lemma_sphere_card(ox, oz, d);
        let prev = spec_ball(ox, oz, d - 1);
        let sphere = spec_ball(ox, oz, d).difference(prev);
        assert(spec_ball(ox, oz, d) =~= prev + sphere);
        assert(prev.disjoint(sphere));
        vstd::set_lib::lemma_set_disjoint_lens(prev, sphere);
        assert(2 * (d - 1) * d + 1 + 4 * d == 2 * d * (d + 1) + 1) by (nonlinear_arith);
    }
}

/// On an open grid whose ball of radius `d` fits inside the chunk, the
/// search visits exactly `2*d*(d+1)` tiles besides the origin.
pub proof fn lemma_open_grid_reach_count(c: Chunk, ox: int, oz: int, d: nat)
    requires
        spec_all_ground(c),
        spec_ball_inside(ox, oz, d as int),
    ensures
        spec_visited(c, ox, oz, d).finite(),
        spec_visited(c, ox, oz, d).remove((ox, oz)).len() == 2 * d * (d + 1),
{
    lemma_open_grid_ball(c, ox, oz, d);
    lemma_ball_card(ox, oz, d as int);
    assert(spec_ball(ox, oz, d as int).contains((ox, oz)));
}

/// On an open grid, the solver's result is exactly the Manhattan ball of
/// the budget's radius minus the origin — and therefore holds exactly
/// `2 * budget * (budget + 1)` tiles. The hypotheses are precisely what
/// `flood_search` ensures of its result.
pub proof fn lemma_open_grid_result(
    c: Chunk,
    origin: TileCoordinate<LocalSpace>,
    budget: u8,
    r: Seq<(TileCoordinate<LocalSpace>, u8)>,
)
    requires
        spec_all_ground(c),
        origin.chunk_valid(),
        spec_ball_inside(origin.x as int, origin.z as int, budget as int),
        forall|k: int|
            0 <= k < r.len() ==> {
                let t = (#[trigger] r[k]).0;
                let cost = r[k].1;
                &&& 1 <= cost <= budget
                &&& t.chunk_valid()
                &&& !(t.x == origin.x && t.z == origin.z)
                &&& spec_visited(c, origin.x as int, origin.z as int, cost as nat).contains(
                    (t.x as int, t.z as int),
                )
            },
        forall|xx: int, zz: int|
            spec_passable(c, xx, zz) && !(xx == origin.x as int && zz == origin.z as int)
                && #[trigger] spec_visited(c, origin.x as int, origin.z as int, budget as nat).contains(
                (xx, zz),
            ) ==> exists|k: int|
                0 <= k < r.len() && (#[trigger] r[k]).0.x as int == xx && r[k].0.z as int == zz,
        forall|k1: int, k2: int| 0 <= k1 < k2 < r.len() ==> (#[trigger] r[k1]).0 != (#[trigger] r[k2]).0,
    ensures
        forall|t: (int, int)|
            (exists|k: int|
                0 <= k < r.len() && ((#[trigger] r[k]).0.x as int, r[k].0.z as int) == t) <==> (
            #[trigger] spec_ball(origin.x as int, origin.z as int, budget as int).contains(t) && t
                != (origin.x as int, origin.z as int)),
        r.len() == 2 * (budget as int) * (budget as int + 1),
{
    let ox = origin.x as int;
    let oz = origin.z as int;
    let b = budget as int;
    let ball = spec_ball(ox, oz, b);
    lemma_open_grid_ball(c, ox, oz, budget as nat);
    lemma_ball_card(ox, oz, b);
    assert(ball.contains((ox, oz)));
    // the result's coordinates are exactly the ball minus the origin
    assert forall|t: (int, int)|
        (exists|k: int| 0 <= k < r.len() && ((#[trigger] r[k]).0.x as int, r[k].0.z as int) == t)
            <==> (#[trigger] ball.contains(t) && t != (ox, oz)) by {
        if exists|k: int| 0 <= k < r.len() && ((#[trigger] r[k]).0.x as int, r[k].0.z as int) == t {
            let k = choose|k: int|
                0 <= k < r.len() && ((#[trigger] r[k]).0.x as int, r[k].0.z as int) == t;
            lemma_visited_monotone(c, ox, oz, r[k].1 as nat, budget as nat);
            assert(spec_visited(c, ox, oz, budget as nat).contains(t));
        }
        if ball.contains(t) && t != (ox, oz) {
            lemma_visited_in_bounds(c, ox, oz, budget as nat);
            assert(spec_passable(c, t.0, t.1));
            let k = choose|k: int|
                0 <= k < r.len() && (#[trigger] r[k]).0.x as int == t.0 && r[k].0.z as int == t.1;
            assert(((r[k]).0.x as int, r[k].0.z as int) == t);
        }
    }
    // counting: the indices map one to one onto the ball minus the origin
    let target = ball.remove((ox, oz));
    let f = |k: int| ((r[k].0.x as int, r[k].0.z as int));
    let rng = vstd::set_lib::set_int_range(0, r.len() as int);
    vstd::set_lib::lemma_int_range(0, r.len() as int);
    assert forall|t: (int, int)| #[trigger] rng.map(f).contains(t) implies target.contains(t) by {
        let k = choose|k: int| rng.contains(k) && f(k) == t;
        assert((r[k].0.x as int, r[k].0.z as int) == t);
    }
    assert forall|t: (int, int)| #[trigger] target.contains(t) implies rng.map(f).contains(t) by {
        let k = choose|k: int|
            0 <= k < r.len() && ((#[trigger] r[k]).0.x as int, r[k].0.z as int) == t;
        assert(rng.contains(k) && f(k) == t);
    }
    assert(rng.map(f) =~= target);
    assert(vstd::relations::injective_on(f, rng)) by {
        assert forall|k1: int, k2: int|
            rng.contains(k1) && rng.contains(k2) && #[trigger] f(k1) == #[trigger] f(k2) implies k1
            == k2 by {
            if k1 < k2 {
                assert(r[k1].0 != r[k2].0);
            }
            if k2 < k1 {
                assert(r[k2].0 != r[k1].0);
            }
        }
    }
    vstd::set_lib::lemma_map_size(rng, target, f);
    assert(target.len() == ball.len() - 1);
}

/// Materialises the local player's movement options: every tile of the
/// chunk it can walk to within its remaining movement points, in
/// world-absolute coordinates, each with its minimal cost — what the turn
/// sub-flow offers as clickable tiles. The entries mirror `flood_search`
/// exactly, translated by the chunk's tile offset.
#[verifier::rlimit(30)]
pub fn movement_options(
    chunk: &Chunk,
    chunk_coord: ChunkCoordinate,
    origin: TileCoordinate<LocalSpace>,
    budget: u8,
) -> (r: Vec<MovementTile>)
    requires
        chunk.wf(),
        origin.chunk_valid(),
        i32::MIN <= chunk_coord.x as int * (SIZE_X as int),
        chunk_coord.x as int * (SIZE_X as int) + (SIZE_X as int) <= i32::MAX,
        i32::MIN <= chunk_coord.z as int * (SIZE_Z as int),
        chunk_coord.z as int * (SIZE_Z as int) + (SIZE_Z as int) <= i32::MAX,
    ensures
        forall|k: int|
            0 <= k < r@.len() ==> {
                let lx = (#[trigger] r@[k]).coordinate.x as int - chunk_coord.x as int * (
                SIZE_X as int);
                let lz = r@[k].coordinate.z as int - chunk_coord.z as int * (SIZE_Z as int);
                let cost = r@[k].cost;
                &&& 1 <= cost <= budget
                &&& Chunk::spec_in_bounds(lx, lz)
                &&& !(lx == origin.x as int && lz == origin.z as int)
                &&& spec_passable(*chunk, lx, lz)
                &&& spec_visited(*chunk, origin.x as int, origin.z as int, cost as nat).contains(
                    (lx, lz),
                )
                &&& !spec_visited(
                    *chunk,
                    origin.x as int,
                    origin.z as int,
                    (cost - 1) as nat,
                ).contains((lx, lz))
            },
        forall|xx: int, zz: int|
            spec_passable(*chunk, xx, zz) && !(xx == origin.x as int && zz == origin.z as int)
                && #[trigger] spec_visited(
                *chunk,
                origin.x as int,
                origin.z as int,
                budget as nat,
            ).contains((xx, zz)) ==> exists|k: int|
                0 <= k < r@.len() && (#[trigger] r@[k]).coordinate.x as int == chunk_coord.x as int
                    * (SIZE_X as int) + xx && r@[k].coordinate.z as int == chunk_coord.z as int * (
                SIZE_Z as int) + zz,
        forall|k1: int, k2: int|
            0 <= k1 < k2 < r@.len() ==> (#[trigger] r@[k1]).coordinate != (
            #[trigger] r@[k2]).coordinate,
        forall|k1: int, k2: int|
            0 <= k1 <= k2 < r@.len() ==> (#[trigger] r@[k1]).cost <= (#[trigger] r@[k2]).cost,
{
    let steps = flood_search(chunk, origin, budget);
    let mut r: Vec<MovementTile> = Vec::new();
    let n = steps.len();
    let mut i: usize = 0;
    while i < n
        invariant
            i <= n,
            n == steps@.len(),
            r@.len() == i as int,
            i32::MIN <= chunk_coord.x as int * (SIZE_X as int),
            chunk_coord.x as int * (SIZE_X as int) + (SIZE_X as int) <= i32::MAX,
            i32::MIN <= chunk_coord.z as int * (SIZE_Z as int),
            chunk_coord.z as int * (SIZE_Z as int) + (SIZE_Z as int) <= i32::MAX,
            forall|k: int| 0 <= k < steps@.len() ==> (#[trigger] steps@[k]).0.chunk_valid(),
            forall|k: int|
                0 <= k < i as int ==> (#[trigger] r@[k]).coordinate.x as int == chunk_coord.x as int
                    * (SIZE_X as int) + steps@[k].0.x as int && r@[k].coordinate.z as int
                    == chunk_coord.z as int * (SIZE_Z as int) + steps@[k].0.z as int && r@[k].cost
                    == steps@[k].1,
        decreases n - i,
    {
        let step = steps[i];
        let coordinate = step.0.to_absolute(chunk_coord);
        r.push(MovementTile { coordinate, cost: step.1 });
        i = i + 1;
    }
    proof {
        assert forall|xx: int, zz: int|
            spec_passable(*chunk, xx, zz) && !(xx == origin.x as int && zz == origin.z as int)
                && #[trigger] spec_visited(
                *chunk,
                origin.x as int,
                origin.z as int,
                budget as nat,
            ).contains((xx, zz)) implies exists|k: int|
            0 <= k < r@.len() && (#[trigger] r@[k]).coordinate.x as int == chunk_coord.x as int * (
            SIZE_X as int) + xx && r@[k].coordinate.z as int == chunk_coord.z as int * (
            SIZE_Z as int) + zz by {
            let k = choose|k: int|
                0 <= k < steps@.len() && (#[trigger] steps@[k]).0.x as int == xx
                    && steps@[k].0.z as int == zz;
            assert(r@[k].coordinate.x as int == chunk_coord.x as int * (SIZE_X as int) + xx && r@[
                k
            ].coordinate.z as int == chunk_coord.z as int * (SIZE_Z as int) + zz);
        }
    }
    r
}

} // verus!
