use rand_pcg::Pcg64;

use vstd::prelude::*;

use crate::chunk::{
    index_x, index_y, index_z, lemma_index_decode, lemma_index_roundtrip, linear_index, Chunk,
    CHUNK_DEPTH, CHUNK_HEIGHT, CHUNK_SIZE, CHUNK_WIDTH,
};
use crate::geometry::Point3;
use crate::rng::{
    random_range_i32, random_range_inclusive_i32, random_range_usize, random_ratio,
    range_draw_i32, range_draw_inclusive_i32, range_draw_usize, ratio_draw,
};
use crate::voxel::Voxel;

verus! {

/// The fractal noise of the `noise` crate.
#[verifier::external_type_specification]
#[verifier::external_body]
#[verifier::reject_recursive_types(T)]
pub struct ExFbm<T>(noise::Fbm<T>);

/// The Perlin noise source of the `noise` crate.
#[verifier::external_type_specification]
#[verifier::external_body]
pub struct ExPerlin(noise::Perlin);

/// Whether array position `i` is the cell at local position `(x, y, z)`.
pub open spec fn is_cell(i: int, x: int, y: int, z: int) -> bool {
    &&& 0 <= i < CHUNK_SIZE
    &&& index_x(i) == x
    &&& index_y(i) == y
    &&& index_z(i) == z
}

/// `v` with every cell that `cells` selects replaced by `material`.
pub open spec fn paint(v: Seq<Voxel>, cells: spec_fn(int) -> bool, material: Voxel) -> Seq<
    Voxel,
> {
    Seq::new(v.len(), |i: int| if cells(i) { material } else { v[i] })
}

/// The coordinate reached after `k` steps of `d` (which is -1, 0 or 1) from `start`.
pub open spec fn step(start: int, k: int, d: int) -> int {
    if d > 0 {
        start + k
    } else if d < 0 {
        start - k
    } else {
        start
    }
}

// ----- cacti -----
/// The cells of a cactus on column `(x, z)` whose stem starts at height `h` and is
/// `ch + 1` cells tall, with an optional arm: the arm's lower cell at height `arm.0`
/// in the neighboring column `x + arm.1`, with the cell above it when that is below
/// the top of the world. Arm cells outside the chunk are dropped.
pub open spec fn in_cactus(
    x: int,
    z: int,
    h: int,
    ch: int,
    arm: Option<(usize, i32)>,
    i: int,
) -> bool {
    &&& 0 <= i < CHUNK_SIZE
    &&& {
        ||| index_x(i) == x && index_z(i) == z && h <= index_y(i) <= h + ch
        ||| arm matches Some(a) && {
            let ax = x + a.1;
            &&& 0 <= ax < CHUNK_WIDTH
            &&& index_x(i) == ax
            &&& index_z(i) == z
            &&& (index_y(i) == a.0 || (index_y(i) == a.0 + 1 && a.0 + 1 < CHUNK_HEIGHT))
        }
    }
}

/// `v` with a cactus grown on it.
pub open spec fn with_cactus(
    v: Seq<Voxel>,
    x: int,
    z: int,
    h: int,
    ch: int,
    arm: Option<(usize, i32)>,
) -> Seq<Voxel> {
    paint(v, |i: int| in_cactus(x, z, h, ch, arm, i), Voxel::Cactus)
}

/// The cactus shapes that can grow on a surface at height `h`: a stem of 3 to 5 cells
/// that ends below the top of the world, and an arm only on stems of 4 or more cells,
/// starting 2 or more cells up the stem and below its top, on the east or west side.
pub open spec fn valid_cactus(h: int, ch: int, arm: Option<(usize, i32)>) -> bool {
    &&& 2 <= ch < 5
    &&& h + ch + 1 < CHUNK_HEIGHT
    &&& arm matches Some(a) ==> {
        &&& ch > 2
        &&& h + 2 <= a.0 < h + ch
        &&& (a.1 == 1 || a.1 == -1)
    }
}

/// `new` is `old`, or `old` with some cactus that can grow at height `h` on column
/// `(x, z)`.
pub open spec fn cactus_outcome(old: Seq<Voxel>, new: Seq<Voxel>, x: int, z: int, h: int) -> bool {
    ||| new == old
    ||| exists|ch: int, arm: Option<(usize, i32)>|
        valid_cactus(h, ch, arm) && new == #[trigger] with_cactus(old, x, z, h, ch, arm)
}

// ----- dead trees -----
/// A branch of a dead tree: it starts next to the trunk at height `y` and grows `len`
/// cells diagonally, one cell up and `(dx, dz)` sideways per cell.
#[derive(Clone, Copy, Debug, PartialEq, Eq, Structural)]
pub struct Branch {
    pub y: usize,
    pub dx: i32,
    pub dz: i32,
    pub len: i32,
}

/// The cells of a branch that grows from column `(x, z)`, the first `k` of them. Cells
/// outside the chunk are dropped.
pub open spec fn in_branch_prefix(x: int, z: int, b: Branch, k: int, i: int) -> bool {
    let s = index_y(i) - b.y;
    &&& 0 <= i < CHUNK_SIZE
    &&& 1 <= s <= k
    &&& index_x(i) == step(x, s, b.dx as int)
    &&& index_z(i) == step(z, s, b.dz as int)
}

/// The cells of a branch that grows from column `(x, z)`.
pub open spec fn in_branch(x: int, z: int, b: Branch, i: int) -> bool {
    in_branch_prefix(x, z, b, b.len as int, i)
}

/// The cells of a dead tree on column `(x, z)`: the trunk from height `h` up to
/// `h + t`, and the branches.
pub open spec fn in_tree(x: int, z: int, h: int, t: int, bs: Seq<Branch>, i: int) -> bool {
    &&& 0 <= i < CHUNK_SIZE
    &&& {
        ||| index_x(i) == x && index_z(i) == z && h <= index_y(i) <= h + t
        ||| exists|j: int| 0 <= j < bs.len() && #[trigger] in_branch(x, z, bs[j], i)
    }
}

/// `v` with a dead tree grown on it.
pub open spec fn with_tree(
    v: Seq<Voxel>,
    x: int,
    z: int,
    h: int,
    t: int,
    bs: Seq<Branch>,
) -> Seq<Voxel> {
    paint(v, |i: int| in_tree(x, z, h, t, bs, i), Voxel::DeadWood)
}

/// A branch that can grow on a trunk of height `t` standing at height `h`: it starts
/// in the upper half of the trunk, moves one step in x and/or z per cell, and has 1
/// or 2 cells.
pub open spec fn valid_branch(h: int, t: int, b: Branch) -> bool {
    &&& h + t / 2 <= b.y < h + t
    &&& -1 <= b.dx <= 1
    &&& -1 <= b.dz <= 1
    &&& !(b.dx == 0 && b.dz == 0)
    &&& 1 <= b.len < 3
}

/// The dead trees that can grow on a surface at height `h`: a trunk of 5 to 7 cells
/// ending two cells below the top of the world, with at most 3 branches.
pub open spec fn valid_tree(h: int, t: int, bs: Seq<Branch>) -> bool {
    &&& 4 <= t < 7
    &&& h + t + 2 < CHUNK_HEIGHT
    &&& bs.len() <= 3
    &&& forall|j: int| 0 <= j < bs.len() ==> valid_branch(h, t, #[trigger] bs[j])
}

/// `new` is `old`, or `old` with some dead tree that can grow at height `h` on column
/// `(x, z)`.
pub open spec fn tree_outcome(old: Seq<Voxel>, new: Seq<Voxel>, x: int, z: int, h: int) -> bool {
    ||| new == old
    ||| exists|t: int, bs: Seq<Branch>|
        valid_tree(h, t, bs) && new == #[trigger] with_tree(old, x, z, h, t, bs)
}

/// The cactus step of decorating column `(x, z)` at surface height `h` with the
/// generator `rng`: the voxels afterwards and the generator after its draws. With
/// probability 8 in 10000 a stem of 3 to 5 cells grows if it ends below the top of the
/// world; a stem of 4 or more cells gets an arm with probability 1 in 2, at a random
/// height from 2 cells up the stem to below its top, on the east or west side with
/// equal chance.
pub open spec fn cactus_spec(v: Seq<Voxel>, x: int, z: int, h: int, rng: Pcg64) -> (Seq<Voxel>, Pcg64) {
    let (grow, r1) = ratio_draw(rng, 8, 10000);
    if !grow {
        (v, r1)
    } else {
        let (ch, r2) = range_draw_usize(r1, 2, 5);
        if h + ch + 1 >= CHUNK_HEIGHT {
            (v, r2)
        } else if ch > 2 {
            let (arm, r3) = ratio_draw(r2, 1, 2);
            if arm {
                let (off, r4) = range_draw_usize(r3, 2, ch);
                let (east, r5) = ratio_draw(r4, 1, 2);
                let dx: i32 = if east {
                    1i32
                } else {
                    -1i32
                };
                (with_cactus(v, x, z, h, ch as int, Some(((h + off) as usize, dx))), r5)
            } else {
                (with_cactus(v, x, z, h, ch as int, None), r3)
            }
        } else {
            (with_cactus(v, x, z, h, ch as int, None), r2)
        }
    }
}

/// The branches of a dead tree whose trunk stands at height `h` and has `t + 1` cells,
/// drawn `remaining` times from `rng` and appended to `acc`, and the generator after
/// the draws. Each draw picks a start height in the upper half of the trunk and a step
/// of -1, 0 or 1 in x and in z; a draw without sideways step is dropped, the others
/// also pick a length of 1 or 2 cells.
pub open spec fn branches_spec(rng: Pcg64, h: int, t: usize, remaining: int, acc: Seq<Branch>) -> (
    Seq<Branch>,
    Pcg64,
)
    decreases remaining,
{
    if remaining <= 0 {
        (acc, rng)
    } else {
        let (off, r1) = range_draw_usize(rng, t / 2, t);
        let (dx, r2) = range_draw_inclusive_i32(r1, -1i32, 1i32);
        let (dz, r3) = range_draw_inclusive_i32(r2, -1i32, 1i32);
        if dx == 0 && dz == 0 {
            branches_spec(r3, h, t, remaining - 1, acc)
        } else {
            let (len, r4) = range_draw_i32(r3, 1, 3);
            branches_spec(
                r4,
                h,
                t,
                remaining - 1,
                acc.push(Branch { y: (h + off) as usize, dx, dz, len }),
            )
        }
    }
}

/// The dead-tree step of decorating column `(x, z)` at surface height `h` with the
/// generator `rng`: the voxels afterwards and the generator after its draws. With
/// probability 4 in 10000 a trunk of 5 to 7 cells grows if it ends two cells below the
/// top of the world, with 2 or 3 branch draws.
pub open spec fn tree_spec(v: Seq<Voxel>, x: int, z: int, h: int, rng: Pcg64) -> (Seq<Voxel>, Pcg64) {
    let (grow, r1) = ratio_draw(rng, 4, 10000);
    if !grow {
        (v, r1)
    } else {
        let (t, r2) = range_draw_usize(r1, 4, 7);
        if h + t + 2 >= CHUNK_HEIGHT {
            (v, r2)
        } else {
            let (n, r3) = range_draw_i32(r2, 2, 4);
            let (bs, r4) = branches_spec(r3, h, t, n as int, Seq::empty());
            (with_tree(v, x, z, h, t as int, bs), r4)
        }
    }
}

/// Decorating column `(x, z)` at surface height `h` with the generator `rng`: the
/// dead-tree step, then the cactus step; the voxels afterwards and the generator after
/// all draws.
pub open spec fn decorate_spec(v: Seq<Voxel>, x: int, z: int, h: int, rng: Pcg64) -> (
    Seq<Voxel>,
    Pcg64,
) {
    let (v1, r1) = tree_spec(v, x, z, h, rng);
    cactus_spec(v1, x, z, h, r1)
}

/// A cactus that grows with a stem of 4 or 5 cells gets an arm whenever the 1-in-2
/// arm draw says so: the stem fills column `(x, z)` from `h` to `h + ch`, and the arm
/// fills the two cells at heights `h + off` and `h + off + 1` of the column one step
/// east (`x + 1`) or west (`x - 1`), as drawn, when that column is in the chunk.
pub proof fn lemma_tall_cactus_gets_arm(v: Seq<Voxel>, x: int, z: int, h: int, rng: Pcg64)
    requires
        v.len() == CHUNK_SIZE,
        0 <= x < CHUNK_WIDTH,
        0 <= z < CHUNK_DEPTH,
        0 <= h,
        ratio_draw(rng, 8, 10000).0,
        ({
            let (ch, r2) = range_draw_usize(ratio_draw(rng, 8, 10000).1, 2, 5);
            let (arm, r3) = ratio_draw(r2, 1, 2);
            let off = range_draw_usize(r3, 2, ch).0;
            &&& 3 <= ch < 5
            &&& h + ch + 1 < CHUNK_HEIGHT
            &&& arm
            &&& 2 <= off < ch
        }),
    ensures
        ({
            let (ch, r2) = range_draw_usize(ratio_draw(rng, 8, 10000).1, 2, 5);
            let r3 = ratio_draw(r2, 1, 2).1;
            let (off, r4) = range_draw_usize(r3, 2, ch);
            let east = ratio_draw(r4, 1, 2).0;
            let ax = if east {
                x + 1
            } else {
                x - 1
            };
            let out = cactus_spec(v, x, z, h, rng).0;
            &&& out.len() == CHUNK_SIZE
            &&& forall|y: int|
                h <= y <= h + ch ==> #[trigger] out[linear_index(x, y, z)] == Voxel::Cactus
            &&& 0 <= ax < CHUNK_WIDTH ==> out[linear_index(ax, h + off, z)] == Voxel::Cactus
                && out[linear_index(ax, h + off + 1, z)] == Voxel::Cactus
        }),
{
    let (ch, r2) = range_draw_usize(ratio_draw(rng, 8, 10000).1, 2, 5);
    let r3 = ratio_draw(r2, 1, 2).1;
    let (off, r4) = range_draw_usize(r3, 2, ch);
    let east = ratio_draw(r4, 1, 2).0;
    let ax = if east {
        x + 1
    } else {
        x - 1
    };
    let dx: i32 = if east {
        1i32
    } else {
        -1i32
    };
    let arm = Some(((h + off) as usize, dx));
    let out = cactus_spec(v, x, z, h, rng).0;
    assert(out == with_cactus(v, x, z, h, ch as int, arm));
    assert forall|y: int| h <= y <= h + ch implies #[trigger] out[linear_index(x, y, z)]
        == Voxel::Cactus by {
        lemma_index_roundtrip(x, y, z);
    }
    if 0 <= ax < CHUNK_WIDTH {
        lemma_index_roundtrip(ax, h + off, z);
        lemma_index_roundtrip(ax, h + off + 1, z);
    }
}

/// Painting only ever writes `material`: every cell keeps its value or takes
/// `material`, and the length stays.
pub proof fn lemma_paint_material(v: Seq<Voxel>, cells: spec_fn(int) -> bool, material: Voxel)
    ensures
        paint(v, cells, material).len() == v.len(),
        forall|i: int|
            0 <= i < v.len() ==> #[trigger] paint(v, cells, material)[i] == v[i] || paint(
                v,
                cells,
                material,
            )[i] == material,
{
}

/// Decorating a column only ever adds dead wood and cactus cells: every cell keeps its
/// value or becomes cactus or dead wood.
pub proof fn lemma_decoration_materials(
    old: Seq<Voxel>,
    mid: Seq<Voxel>,
    new: Seq<Voxel>,
    x: int,
    z: int,
    h: int,
)
    requires
        tree_outcome(old, mid, x, z, h),
        cactus_outcome(mid, new, x, z, h),
    ensures
        new.len() == old.len(),
        forall|i: int|
            0 <= i < old.len() ==> #[trigger] new[i] == old[i] || new[i] == Voxel::Cactus
                || new[i] == Voxel::DeadWood,
{
    if mid != old {
        let (t, bs) = choose|t: int, bs: Seq<Branch>|
            valid_tree(h, t, bs) && mid == #[trigger] with_tree(old, x, z, h, t, bs);
        lemma_paint_material(old, |i: int| in_tree(x, z, h, t, bs, i), Voxel::DeadWood);
    }
    if new != mid {
        let (ch, arm) = choose|ch: int, arm: Option<(usize, i32)>|
            valid_cactus(h, ch, arm) && new == #[trigger] with_cactus(mid, x, z, h, ch, arm);
        lemma_paint_material(mid, |i: int| in_cactus(x, z, h, ch, arm, i), Voxel::Cactus);
    }
}

/// Writing `material` at array position `p` extends a painted region by the cell at
/// `p`.
pub proof fn lemma_paint_one_more(
    v: Seq<Voxel>,
    before: spec_fn(int) -> bool,
    after: spec_fn(int) -> bool,
    p: int,
    material: Voxel,
)
    requires
        0 <= p < v.len(),
        after(p),
        forall|i: int| i != p ==> (#[trigger] after(i) <==> before(i)),
    ensures
        paint(v, before, material).update(p, material) == paint(v, after, material),
{
    assert(paint(v, before, material).update(p, material) =~= paint(v, after, material));
}

/// The array position of a local cell, for cells inside the chunk.
fn cell_index(x: usize, y: usize, z: usize) -> (i: usize)
    requires
        x < CHUNK_WIDTH,
        y < CHUNK_HEIGHT,
        z < CHUNK_DEPTH,
    ensures
        i == linear_index(x as int, y as int, z as int),
        i < CHUNK_SIZE,
        is_cell(i as int, x as int, y as int, z as int),
        forall|j: int| #[trigger] is_cell(j, x as int, y as int, z as int) ==> j == i,
{
    proof {
        lemma_index_roundtrip(x as int, y as int, z as int);
        assert forall|j: int| #[trigger] is_cell(j, x as int, y as int, z as int) implies j
            == linear_index(x as int, y as int, z as int) by {
            lemma_index_decode(j);
        }
    }
    Chunk::index(Point3::new(x, y, z))
}

/// The desert biome: sandstone dunes shaped by fractal noise, with scattered cacti and
/// dead trees.
pub struct Desert {
    pub noise: noise::Fbm<noise::Perlin>,
}

impl Desert {
    /// Grows the decorations of column `(x, z)` whose surface is at height `h`: maybe a
    /// dead tree, then maybe a cactus. A decoration that would reach the top of the
    /// world is not grown, though its draws are taken.
    pub fn decorate(&self, voxels: &mut [Voxel], x: usize, z: usize, h: usize, rng: &mut Pcg64)
        requires
            x < CHUNK_WIDTH,
            z < CHUNK_DEPTH,
            h + 8 <= usize::MAX,
            old(voxels)@.len() >= CHUNK_SIZE,
        ensures
            (final(voxels)@, *final(rng)) == decorate_spec(
                old(voxels)@,
                x as int,
                z as int,
                h as int,
                *old(rng),
            ),
            exists|mid: Seq<Voxel>|
                tree_outcome(old(voxels)@, mid, x as int, z as int, h as int) && cactus_outcome(
                    mid,
                    final(voxels)@,
                    x as int,
                    z as int,
                    h as int,
                ),
    {
        let ghost before = voxels@;
        Self::add_dead_tries(voxels, x, z, h, rng);
        let ghost mid = voxels@;
        Self::add_cactus(voxels, x, z, h, rng);
        assert(tree_outcome(before, mid, x as int, z as int, h as int));
    }

    /// Maybe (with probability 8 in 10000) grows a cactus on column `(x, z)` at height
    /// `h`, drawing its shape from `rng`.
    fn add_cactus(voxels: &mut [Voxel], x: usize, z: usize, h: usize, rng: &mut Pcg64)
        requires
            x < CHUNK_WIDTH,
            z < CHUNK_DEPTH,
            h + 8 <= usize::MAX,
            old(voxels)@.len() >= CHUNK_SIZE,
        ensures
            (final(voxels)@, *final(rng)) == cactus_spec(
                old(voxels)@,
                x as int,
                z as int,
                h as int,
                *old(rng),
            ),
            cactus_outcome(old(voxels)@, final(voxels)@, x as int, z as int, h as int),
    {
        if !random_ratio(rng, 8, 10000) {
            return;
        }
        let cactus_h = random_range_usize(rng, 2, 5);
        if h + cactus_h + 1 >= Chunk::HEIGHT {
            return;
        }
        let arm = if cactus_h > 2 && random_ratio(rng, 1, 2) {
            let arm_y = h + random_range_usize(rng, 2, cactus_h);
            let dx: i32 = if random_ratio(rng, 1, 2) {
                1
            } else {
                -1
            };
            Some((arm_y, dx))
        } else {
            None
        };
        let ghost before = voxels@;
        build_cactus(voxels, x, z, h, cactus_h, arm);
        assert(valid_cactus(h as int, cactus_h as int, arm));
        assert(final(voxels)@ == with_cactus(before, x as int, z as int, h as int, cactus_h as int, arm));
    }

    /// Maybe (with probability 4 in 10000) grows a dead tree on column `(x, z)` at
    /// height `h`, drawing its trunk and branches from `rng`.
    fn add_dead_tries(voxels: &mut [Voxel], x: usize, z: usize, h: usize, rng: &mut Pcg64)
        requires
            x < CHUNK_WIDTH,
            z < CHUNK_DEPTH,
            h + 8 <= usize::MAX,
            old(voxels)@.len() >= CHUNK_SIZE,
        ensures
            (final(voxels)@, *final(rng)) == tree_spec(
                old(voxels)@,
                x as int,
                z as int,
                h as int,
                *old(rng),
            ),
            tree_outcome(old(voxels)@, final(voxels)@, x as int, z as int, h as int),
    {
        if !random_ratio(rng, 4, 10000) {
            return;
        }
        let trunk_h = random_range_usize(rng, 4, 7);
        if h + trunk_h + 2 >= Chunk::HEIGHT {
            return;
        }
        let num_branches = random_range_i32(rng, 2, 4);
        let ghost rng_branches = *rng;
        let mut branches: Vec<Branch> = Vec::new();
        let mut b: i32 = 0;
        while b < num_branches
            invariant
                branches_spec(*rng, h as int, trunk_h, (num_branches - b) as int, branches@)
                    == branches_spec(
                    rng_branches,
                    h as int,
                    trunk_h,
                    num_branches as int,
                    Seq::empty(),
                ),
                0 <= b <= num_branches < 4,
                4 <= trunk_h < 7,
                h + trunk_h + 2 < CHUNK_HEIGHT,
                branches@.len() <= b,
                forall|j: int|
                    0 <= j < branches@.len() ==> valid_branch(
                        h as int,
                        trunk_h as int,
                        #[trigger] branches@[j],
                    ),
            decreases num_branches - b,
        {
            let branch_y = h + random_range_usize(rng, trunk_h / 2, trunk_h);
            let dx = random_range_inclusive_i32(rng, -1, 1);
            let dz = random_range_inclusive_i32(rng, -1, 1);
            if !(dx == 0 && dz == 0) {
                let len = random_range_i32(rng, 1, 3);
                branches.push(Branch { y: branch_y, dx, dz, len });
            }
            b += 1;
        }
        let ghost before = voxels@;
        build_dead_tree(voxels, x, z, h, trunk_h, &branches);
        assert(valid_tree(h as int, trunk_h as int, branches@));
        assert(final(voxels)@ == with_tree(before, x as int, z as int, h as int, trunk_h as int, branches@));
    }
}

/// Grows the cactus whose stem starts at height `h` of column `(x, z)` and is
/// `cactus_h + 1` cells tall, with the optional arm `arm`.
pub fn build_cactus(
    voxels: &mut [Voxel],
    x: usize,
    z: usize,
    h: usize,
    cactus_h: usize,
    arm: Option<(usize, i32)>,
)
    requires
        x < CHUNK_WIDTH,
        z < CHUNK_DEPTH,
        h + cactus_h + 1 < CHUNK_HEIGHT,
        old(voxels)@.len() >= CHUNK_SIZE,
        arm matches Some(a) ==> a.0 + 1 <= CHUNK_HEIGHT && (a.1 == 1 || a.1 == -1),
    ensures
        final(voxels)@ == with_cactus(
            old(voxels)@,
            x as int,
            z as int,
            h as int,
            cactus_h as int,
            arm,
        ),
{
    let ghost old_v = voxels@;
    let ghost xi = x as int;
    let ghost zi = z as int;
    let ghost hi = h as int;
    let mut y: usize = 0;
    proof {
        assert(old_v =~= paint(old_v, |i: int| in_cactus(xi, zi, hi, -1, None, i), Voxel::Cactus));
    }
    while y <= cactus_h
        invariant
            x < CHUNK_WIDTH,
            z < CHUNK_DEPTH,
            h + cactus_h + 1 < CHUNK_HEIGHT,
            old_v.len() >= CHUNK_SIZE,
            xi == x,
            zi == z,
            hi == h,
            y <= cactus_h + 1,
            voxels@ == paint(
                old_v,
                |i: int| in_cactus(xi, zi, hi, y as int - 1, None, i),
                Voxel::Cactus,
            ),
        decreases cactus_h + 1 - y,
    {
        let idx = cell_index(x, h + y, z);
        proof {
            lemma_paint_one_more(
                old_v,
                |i: int| in_cactus(xi, zi, hi, y as int - 1, None, i),
                |i: int| in_cactus(xi, zi, hi, y as int, None, i),
                idx as int,
                Voxel::Cactus,
            );
        }
        voxels[idx] = Voxel::Cactus;
        y += 1;
    }
    let ghost column = |i: int| in_cactus(xi, zi, hi, cactus_h as int, None, i);
    match arm {
        Some((arm_y, dx)) => {
            let arm_x = x as i32 + dx;
            if arm_x >= 0 && arm_x < Chunk::WIDTH as i32 {
                let ghost with_low = |i: int|
                    column(i) || is_cell(i, arm_x as int, arm_y as int, zi);
                let idx = cell_index(arm_x as usize, arm_y, z);
                proof {
                    lemma_paint_one_more(old_v, column, with_low, idx as int, Voxel::Cactus);
                }
                voxels[idx] = Voxel::Cactus;
                if arm_y + 1 < Chunk::HEIGHT {
                    let up_idx = cell_index(arm_x as usize, arm_y + 1, z);
                    proof {
                        lemma_paint_one_more(
                            old_v,
                            with_low,
                            |i: int| in_cactus(xi, zi, hi, cactus_h as int, arm, i),
                            up_idx as int,
                            Voxel::Cactus,
                        );
                    }
                    voxels[up_idx] = Voxel::Cactus;
                } else {
                    assert(voxels@ =~= with_cactus(old_v, xi, zi, hi, cactus_h as int, arm));
                }
            } else {
                assert(voxels@ =~= with_cactus(old_v, xi, zi, hi, cactus_h as int, arm));
            }
        },
        None => {},
    }
}

/// Grows the dead tree whose trunk starts at height `h` of column `(x, z)` and is
/// `trunk_h + 1` cells tall, with the branches `branches`.
pub fn build_dead_tree(
    voxels: &mut [Voxel],
    x: usize,
    z: usize,
    h: usize,
    trunk_h: usize,
    branches: &Vec<Branch>,
)
    requires
        x < CHUNK_WIDTH,
        z < CHUNK_DEPTH,
        h + trunk_h + 2 < CHUNK_HEIGHT,
        old(voxels)@.len() >= CHUNK_SIZE,
        forall|j: int|
            0 <= j < branches@.len() ==> {
                let b = #[trigger] branches@[j];
                &&& b.y + 3 <= CHUNK_HEIGHT
                &&& -1 <= b.dx <= 1
                &&& -1 <= b.dz <= 1
                &&& b.len < 3
            },
    ensures
        final(voxels)@ == with_tree(
            old(voxels)@,
            x as int,
            z as int,
            h as int,
            trunk_h as int,
            branches@,
        ),
{
    let ghost old_v = voxels@;
    let ghost xi = x as int;
    let ghost zi = z as int;
    let ghost hi = h as int;
    let ghost bs = branches@;
    let ghost empty = Seq::<Branch>::empty();
    let mut y: usize = 0;
    proof {
        assert(old_v =~= paint(old_v, |i: int| in_tree(xi, zi, hi, -1, empty, i), Voxel::DeadWood));
    }
    while y <= trunk_h
        invariant
            x < CHUNK_WIDTH,
            z < CHUNK_DEPTH,
            h + trunk_h + 2 < CHUNK_HEIGHT,
            old_v.len() >= CHUNK_SIZE,
            xi == x,
            zi == z,
            hi == h,
            empty == Seq::<Branch>::empty(),
            y <= trunk_h + 1,
            voxels@ == paint(
                old_v,
                |i: int| in_tree(xi, zi, hi, y as int - 1, empty, i),
                Voxel::DeadWood,
            ),
        decreases trunk_h + 1 - y,
    {
        let idx = cell_index(x, h + y, z);
        proof {
            lemma_paint_one_more(
                old_v,
                |i: int| in_tree(xi, zi, hi, y as int - 1, empty, i),
                |i: int| in_tree(xi, zi, hi, y as int, empty, i),
                idx as int,
                Voxel::DeadWood,
            );
        }
        voxels[idx] = Voxel::DeadWood;
        y += 1;
    }
    let ghost t = trunk_h as int;
    let mut j: usize = 0;
    while j < branches.len()
        invariant
            x < CHUNK_WIDTH,
            z < CHUNK_DEPTH,
            old_v.len() >= CHUNK_SIZE,
            xi == x,
            zi == z,
            hi == h,
            t == trunk_h,
            bs == branches@,
            j <= bs.len(),
            forall|j: int|
                0 <= j < bs.len() ==> {
                    let b = #[trigger] bs[j];
                    &&& b.y + 3 <= CHUNK_HEIGHT
                    &&& -1 <= b.dx <= 1
                    &&& -1 <= b.dz <= 1
                    &&& b.len < 3
                },
            voxels@ == paint(
                old_v,
                |i: int| in_tree(xi, zi, hi, t, bs.take(j as int), i),
                Voxel::DeadWood,
            ),
        decreases bs.len() - j,
    {
        let branch = branches[j];
        let ghost done = bs.take(j as int);
        let ghost base = |i: int| in_tree(xi, zi, hi, t, done, i);
        let mut curr_lx: i32 = x as i32;
        let mut curr_lz: i32 = z as i32;
        let mut k: i32 = 1;
        proof {
            assert(voxels@ =~= paint(
                old_v,
                |i: int| base(i) || in_branch_prefix(xi, zi, branch, 0, i),
                Voxel::DeadWood,
            ));
        }
        while k <= branch.len
            invariant
                x < CHUNK_WIDTH,
                z < CHUNK_DEPTH,
                old_v.len() >= CHUNK_SIZE,
                xi == x,
                zi == z,
                branch.y + 3 <= CHUNK_HEIGHT,
                -1 <= branch.dx <= 1,
                -1 <= branch.dz <= 1,
                branch.len < 3,
                1 <= k,
                k <= branch.len + 1 || k == 1,
                curr_lx == step(xi, k - 1, branch.dx as int),
                curr_lz == step(zi, k - 1, branch.dz as int),
                voxels@ == paint(
                    old_v,
                    |i: int| base(i) || in_branch_prefix(xi, zi, branch, k - 1, i),
                    Voxel::DeadWood,
                ),
            decreases branch.len + 1 - k,
        {
            curr_lx += branch.dx;
            curr_lz += branch.dz;
            let curr_y = branch.y + k as usize;
            if curr_lx >= 0 && curr_lx < Chunk::WIDTH as i32 && curr_lz >= 0 && curr_lz
                < Chunk::DEPTH as i32 && curr_y < Chunk::HEIGHT {
                let idx = cell_index(curr_lx as usize, curr_y, curr_lz as usize);
                proof {
                    assert forall|i: int| i != idx implies (in_branch_prefix(
                        xi,
                        zi,
                        branch,
                        k as int,
                        i,
                    ) <==> in_branch_prefix(xi, zi, branch, k - 1, i)) by {
                        if 0 <= i < CHUNK_SIZE && index_y(i) - branch.y == k {
                            lemma_index_decode(i);
                        }
                    }
                    lemma_paint_one_more(
                        old_v,
                        |i: int| base(i) || in_branch_prefix(xi, zi, branch, k - 1, i),
                        |i: int| base(i) || in_branch_prefix(xi, zi, branch, k as int, i),
                        idx as int,
                        Voxel::DeadWood,
                    );
                }
                voxels[idx] = Voxel::DeadWood;
            } else {
                proof {
                    assert forall|i: int| #![trigger in_branch_prefix(xi, zi, branch, k as int, i)]
                        in_branch_prefix(xi, zi, branch, k as int, i) <==> in_branch_prefix(
                        xi,
                        zi,
                        branch,
                        k - 1,
                        i,
                    ) by {
                        if 0 <= i < CHUNK_SIZE && index_y(i) - branch.y == k {
                            lemma_index_decode(i);
                        }
                    }
                    assert(voxels@ =~= paint(
                        old_v,
                        |i: int| base(i) || in_branch_prefix(xi, zi, branch, k as int, i),
                        Voxel::DeadWood,
                    ));
                }
            }
            k += 1;
        }
        proof {
            let done2 = bs.take(j + 1);
            assert(done2 =~= done.push(branch));
            assert forall|i: int| #[trigger] in_tree(xi, zi, hi, t, done2, i) <==> (base(i)
                || in_branch(xi, zi, branch, i)) by {
                if in_tree(xi, zi, hi, t, done2, i) && !(index_x(i) == xi && index_z(i) == zi
                    && hi <= index_y(i) <= hi + t) {
                    let jj = choose|jj: int| 0 <= jj < done2.len() && #[trigger] in_branch(
                        xi,
                        zi,
                        done2[jj],
                        i,
                    );
                    if jj < done.len() {
                        assert(in_branch(xi, zi, done[jj], i));
                    }
                }
                if in_branch(xi, zi, branch, i) {
                    assert(in_branch(xi, zi, done2[j as int], i));
                }
                if base(i) && !(index_x(i) == xi && index_z(i) == zi && hi <= index_y(i) <= hi
                    + t) {
                    let jj = choose|jj: int| 0 <= jj < done.len() && #[trigger] in_branch(
                        xi,
                        zi,
                        done[jj],
                        i,
                    );
                    assert(in_branch(xi, zi, done2[jj], i));
                }
            }
            assert(voxels@ =~= paint(
                old_v,
                |i: int| in_tree(xi, zi, hi, t, done2, i),
                Voxel::DeadWood,
            ));
        }
        j += 1;
    }
    proof {
        assert(bs.take(bs.len() as int) =~= bs);
    }
}

/// The biomes the world can be made of.
pub enum BiomeType {
    Desert(Desert),
}

impl BiomeType {
    /// Grows the decorations of column `(x, z)` whose surface is at height `h`. A
    /// decoration that would reach the top of the world is not grown, though its draws
    /// are taken.
    pub fn decorate(&self, voxels: &mut [Voxel], x: usize, z: usize, h: usize, rng: &mut Pcg64)
        requires
            x < CHUNK_WIDTH,
            z < CHUNK_DEPTH,
            h + 8 <= usize::MAX,
            old(voxels)@.len() >= CHUNK_SIZE,
        ensures
            (final(voxels)@, *final(rng)) == decorate_spec(
                old(voxels)@,
                x as int,
                z as int,
                h as int,
                *old(rng),
            ),
            exists|mid: Seq<Voxel>|
                tree_outcome(old(voxels)@, mid, x as int, z as int, h as int) && cactus_outcome(
                    mid,
                    final(voxels)@,
                    x as int,
                    z as int,
                    h as int,
                ),
    {
        match self {
            BiomeType::Desert(b) => b.decorate(voxels, x, z, h, rng),
        }
    }
}

} // verus!
