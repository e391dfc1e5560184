use rand_pcg::Pcg64;

use vstd::prelude::*;

use crate::biomes::{decorate_spec, lemma_decoration_materials, lemma_paint_one_more, paint, BiomeType};
use crate::chunk::{
    index_x, index_y, index_z, lemma_index_decode, lemma_index_roundtrip, Chunk, CHUNK_DEPTH,
    CHUNK_HEIGHT, CHUNK_SIZE, CHUNK_WIDTH,
};
use crate::geometry::Point3;
use crate::rng::{pcg64_seed_from_u64, seeded_pcg64};
use crate::voxel::Voxel;

verus! {

/// The surface height of a column, kept inside the chunk: negative heights become 0
/// and heights above the top cell become the top cell's height.
pub open spec fn clamp_height(h: i32) -> int {
    if h < 0 {
        0
    } else if h > CHUNK_HEIGHT - 1 {
        CHUNK_HEIGHT - 1
    } else {
        h as int
    }
}

/// The height of column `(x, z)` in a height map laid out column by column, `z`
/// varying fastest.
pub open spec fn column_height(heights: Seq<i32>, x: int, z: int) -> i32 {
    heights[x * CHUNK_DEPTH + z]
}

/// The bare terrain at array position `i`: sandstone below the clamped surface height
/// of its column, air above.
pub open spec fn terrain_voxel(heights: Seq<i32>, i: int) -> Voxel {
    if index_y(i) < clamp_height(column_height(heights, index_x(i), index_z(i))) {
        Voxel::Sandstone
    } else {
        Voxel::Air
    }
}

/// The bare terrain of the first `done` columns (in generation order), air elsewhere.
pub open spec fn terrain_prefix(heights: Seq<i32>, done: int, i: int) -> Voxel {
    if index_x(i) * CHUNK_DEPTH + index_z(i) < done {
        terrain_voxel(heights, i)
    } else {
        Voxel::Air
    }
}

/// A decoration material: cactus or dead wood.
pub open spec fn decoration_material(v: Voxel) -> bool {
    v == Voxel::Cactus || v == Voxel::DeadWood
}

/// The seed hashing of `Generator::rng_seed_at`: the generator's seed, the world x
/// coordinate shifted into the upper half and the world z coordinate, combined by
/// exclusive or (coordinates sign-extended to 64 bits).
pub open spec fn rng_seed_spec(seed: u32, world_x: i32, world_z: i32) -> u64 {
    (seed as u64) ^ vstd::wrapping::u64_specs::wrapping_shl(world_x as u64, 32) ^ (world_z as u64)
}

/// Whether array position `i` lies in column `(x, z)` below height `h`.
pub open spec fn in_column_below(x: int, z: int, h: int, i: int) -> bool {
    &&& 0 <= i < CHUNK_SIZE
    &&& index_x(i) == x
    &&& index_z(i) == z
    &&& index_y(i) < h
}

/// The random generator of world column `(world_x, world_z)`.
pub open spec fn column_rng(seed: u32, world_x: i32, world_z: i32) -> Pcg64 {
    seeded_pcg64(rng_seed_spec(seed, world_x, world_z))
}

/// The voxels of the chunk at `(chunk_x, chunk_z)` after its first `n` columns (in
/// generation order, `z` fastest) are generated: each column is filled with sandstone
/// up to its clamped surface height and then decorated with its own generator.
pub open spec fn generated_voxels(
    heights: Seq<i32>,
    seed: u32,
    chunk_x: i32,
    chunk_z: i32,
    n: nat,
) -> Seq<Voxel>
    decreases n,
{
    if n == 0 {
        Seq::new(CHUNK_SIZE as nat, |i: int| Voxel::Air)
    } else {
        let c = n - 1;
        let x = c / (CHUNK_DEPTH as int);
        let z = c % (CHUNK_DEPTH as int);
        let h = clamp_height(heights[c]);
        let prev = generated_voxels(heights, seed, chunk_x, chunk_z, (n - 1) as nat);
        let filled = paint(prev, |i: int| in_column_below(x, z, h, i), Voxel::Sandstone);
        decorate_spec(
            filled,
            x,
            z,
            h,
            column_rng(seed, (chunk_x + x) as i32, (chunk_z + z) as i32),
        ).0
    }
}

/// Whether `chunk` is the chunk generated at origin `(chunk_x, chunk_z)` from the
/// height map `heights` with the seed `seed`.
pub open spec fn is_generated_chunk(
    seed: u32,
    heights: Seq<i32>,
    chunk_x: i32,
    chunk_z: i32,
    chunk: Chunk,
) -> bool {
    &&& chunk.position == Point3 { x: chunk_x, y: 0i32, z: chunk_z }
    &&& chunk.voxels@ == generated_voxels(
        heights,
        seed,
        chunk_x,
        chunk_z,
        (CHUNK_WIDTH * CHUNK_DEPTH) as nat,
    )
}

/// A generated chunk depends only on the seed, the height map and the chunk origin:
/// two generators with the same seed produce the same chunk at the same origin, every
/// column's decoration generator being seeded from the seed and the world column.
pub proof fn lemma_generation_deterministic(
    g1: Generator,
    g2: Generator,
    heights: Seq<i32>,
    chunk_x: i32,
    chunk_z: i32,
    c1: Chunk,
    c2: Chunk,
)
    requires
        g1.seed == g2.seed,
        is_generated_chunk(g1.seed, heights, chunk_x, chunk_z, c1),
        is_generated_chunk(g2.seed, heights, chunk_x, chunk_z, c2),
    ensures
        c1.voxels@ == c2.voxels@,
        c1.position == c2.position,
{
}

/// Column `(x, z)` of the chunk at `(chunk_x, chunk_z)` (the `n`-th in generation
/// order) is filled with sandstone up to its clamped surface height and then decorated
/// with the generator seeded by `Generator::rng_seed_at` of its world column
/// `(chunk_x + x, chunk_z + z)`, on top of the columns generated before it.
pub proof fn lemma_column_uses_world_seed(
    heights: Seq<i32>,
    seed: u32,
    chunk_x: i32,
    chunk_z: i32,
    n: nat,
)
    requires
        n < CHUNK_WIDTH * CHUNK_DEPTH,
    ensures
        ({
            let x = (n / 32) as int;
            let z = (n % 32) as int;
            let h = clamp_height(heights[n as int]);
            let before = generated_voxels(heights, seed, chunk_x, chunk_z, n);
            generated_voxels(heights, seed, chunk_x, chunk_z, n + 1) == decorate_spec(
                Seq::new(
                    before.len(),
                    |i: int|
                        if 0 <= i < CHUNK_SIZE && i % 32 == x && (i / 32) % 32 == z && i / 1024
                            < h {
                            Voxel::Sandstone
                        } else {
                            before[i]
                        },
                ),
                x,
                z,
                h,
                seeded_pcg64(rng_seed_spec(seed, (chunk_x + x) as i32, (chunk_z + z) as i32)),
            ).0
        }),
{
    let x = (n / 32) as int;
    let z = (n % 32) as int;
    let h = clamp_height(heights[n as int]);
    let before = generated_voxels(heights, seed, chunk_x, chunk_z, n);
    assert(paint(before, |i: int| in_column_below(x, z, h, i), Voxel::Sandstone) =~= Seq::new(
        before.len(),
        |i: int|
            if 0 <= i < CHUNK_SIZE && i % 32 == x && (i / 32) % 32 == z && i / 1024 < h {
                Voxel::Sandstone
            } else {
                before[i]
            },
    ));
}

/// Different world columns in one row, or in one column of rows, get different
/// generator seeds: chunks that differ only in `chunk_z` (or only in `chunk_x`)
/// decorate corresponding columns with differently seeded generators.
pub proof fn lemma_column_seeds_differ(seed: u32, world_x: i32, world_z: i32, other: i32)
    ensures
        other != world_z ==> rng_seed_spec(seed, world_x, world_z) != rng_seed_spec(
            seed,
            world_x,
            other,
        ),
        other != world_x ==> rng_seed_spec(seed, world_x, world_z) != rng_seed_spec(
            seed,
            other,
            world_z,
        ),
{
    let s = seed as u64;
    let a = world_x as u64;
    let b = world_z as u64;
    let o = other as u64;
    assert(world_x != other ==> a != o) by (bit_vector)
        requires
            a == world_x as u64,
            o == other as u64,
    ;
    assert(world_z != other ==> b != o) by (bit_vector)
        requires
            b == world_z as u64,
            o == other as u64,
    ;
    assert(b != o ==> (s ^ (a << 32u64) ^ b) != (s ^ (a << 32u64) ^ o)) by (bit_vector);
    assert(a != o && (a & 0xffff_ffff) != (o & 0xffff_ffff) ==> (s ^ (a << 32u64) ^ b) != (s ^ (o
        << 32u64) ^ b)) by (bit_vector);
    assert(world_x != other ==> (a & 0xffff_ffff) != (o & 0xffff_ffff)) by (bit_vector)
        requires
            a == world_x as u64,
            o == other as u64,
    ;
}

/// Procedural terrain generator; all randomness is derived from `seed`.
pub struct Generator {
    pub seed: u32,
}

impl Generator {
    pub fn new(seed: u32) -> (g: Self)
        ensures
            g.seed == seed,
    {
        Self { seed }
    }

    /// Generates the chunk whose origin is at world column `(chunk_x, chunk_z)`:
    /// sandstone up to each column's surface height (clamped to the chunk) and the
    /// biome's decorations, drawn from a generator seeded for that world column.
    /// `heights` holds the biome's surface height of column `(x, z)` at position
    /// `x * CHUNK_DEPTH + z`.
    pub fn generate_chunk(
        &self,
        chunk_x: i32,
        chunk_z: i32,
        biome: &BiomeType,
        heights: &[i32],
    ) -> (chunk: Chunk)
        requires
            heights@.len() == CHUNK_WIDTH * CHUNK_DEPTH,
            chunk_x <= i32::MAX - (CHUNK_WIDTH - 1),
            chunk_z <= i32::MAX - (CHUNK_DEPTH - 1),
        ensures
            chunk.position.x == chunk_x,
            chunk.position.y == 0,
            chunk.position.z == chunk_z,
            chunk.voxels@.len() == CHUNK_SIZE,
            is_generated_chunk(self.seed, heights@, chunk_x, chunk_z, chunk),
            forall|i: int|
                0 <= i < CHUNK_SIZE ==> #[trigger] chunk.voxels@[i] == terrain_voxel(heights@, i)
                    || decoration_material(chunk.voxels@[i]),
    {
        let mut voxels = vec![Voxel::Air; Chunk::SIZE];
        let ghost hs = heights@;
        proof {
            assert forall|i: int| 0 <= i < CHUNK_SIZE implies #[trigger] voxels@[i]
                == terrain_prefix(hs, 0, i) by {
                lemma_index_decode(i);
            }
            assert(voxels@ =~= generated_voxels(hs, self.seed, chunk_x, chunk_z, 0));
        }
        let mut x: usize = 0;
        while x < Chunk::WIDTH
            invariant
                hs == heights@,
                hs.len() == CHUNK_WIDTH * CHUNK_DEPTH,
                chunk_x <= i32::MAX - (CHUNK_WIDTH - 1),
                chunk_z <= i32::MAX - (CHUNK_DEPTH - 1),
                x <= CHUNK_WIDTH,
                voxels@.len() == CHUNK_SIZE,
                voxels@ == generated_voxels(hs, self.seed, chunk_x, chunk_z, (x * CHUNK_DEPTH) as nat),
                forall|i: int|
                    0 <= i < CHUNK_SIZE ==> #[trigger] voxels@[i] == terrain_prefix(
                        hs,
                        x * CHUNK_DEPTH,
                        i,
                    ) || decoration_material(voxels@[i]),
            decreases CHUNK_WIDTH - x,
        {
            let mut z: usize = 0;
            while z < Chunk::DEPTH
                invariant
                    hs == heights@,
                    hs.len() == CHUNK_WIDTH * CHUNK_DEPTH,
                    chunk_x <= i32::MAX - (CHUNK_WIDTH - 1),
                    chunk_z <= i32::MAX - (CHUNK_DEPTH - 1),
                    x < CHUNK_WIDTH,
                    z <= CHUNK_DEPTH,
                    voxels@.len() == CHUNK_SIZE,
                    voxels@ == generated_voxels(
                        hs,
                        self.seed,
                        chunk_x,
                        chunk_z,
                        (x * CHUNK_DEPTH + z) as nat,
                    ),
                    forall|i: int|
                        0 <= i < CHUNK_SIZE ==> #[trigger] voxels@[i] == terrain_prefix(
                            hs,
                            x * CHUNK_DEPTH + z,
                            i,
                        ) || decoration_material(voxels@[i]),
                decreases CHUNK_DEPTH - z,
            {
                let world_x = chunk_x + x as i32;
                let world_z = chunk_z + z as i32;
                let column = x * Chunk::DEPTH + z;
                let h = heights[column];
                let h_clamped: usize = if h < 0 {
                    0
                } else if h > (Chunk::HEIGHT - 1) as i32 {
                    Chunk::HEIGHT - 1
                } else {
                    h as usize
                };
                let ghost done = x * CHUNK_DEPTH + z;
                let ghost start = voxels@;
                let ghost hc = h_clamped as int;
                proof {
                    assert(start =~= paint(
                        start,
                        |i: int| in_column_below(x as int, z as int, 0, i),
                        Voxel::Sandstone,
                    ));
                }
                let mut y: usize = 0;
                while y < h_clamped
                    invariant
                        hs == heights@,
                        hs.len() == CHUNK_WIDTH * CHUNK_DEPTH,
                        x < CHUNK_WIDTH,
                        z < CHUNK_DEPTH,
                        done == x * CHUNK_DEPTH + z,
                        h_clamped == clamp_height(column_height(hs, x as int, z as int)),
                        y <= h_clamped,
                        voxels@.len() == CHUNK_SIZE,
                        start.len() == CHUNK_SIZE,
                        voxels@ == paint(
                            start,
                            |i: int| in_column_below(x as int, z as int, y as int, i),
                            Voxel::Sandstone,
                        ),
                        forall|i: int|
                            0 <= i < CHUNK_SIZE ==> {
                                let v = #[trigger] voxels@[i];
                                if index_x(i) == x && index_z(i) == z && index_y(i) < y {
                                    v == Voxel::Sandstone
                                } else {
                                    v == terrain_prefix(hs, done, i) || decoration_material(v)
                                }
                            },
                    decreases h_clamped - y,
                {
                    proof {
                        lemma_index_roundtrip(x as int, y as int, z as int);
                    }
                    let idx = Chunk::index(Point3::new(x, y, z));
                    proof {
                        assert forall|i: int| 0 <= i < CHUNK_SIZE && i != idx implies !(index_x(i)
                            == x && index_z(i) == z && index_y(i) == y) by {
                            lemma_index_decode(i);
                        }
                    }
                    proof {
                        lemma_paint_one_more(
                            start,
                            |i: int| in_column_below(x as int, z as int, y as int, i),
                            |i: int| in_column_below(x as int, z as int, y + 1, i),
                            idx as int,
                            Voxel::Sandstone,
                        );
                    }
                    voxels.set(idx, Voxel::Sandstone);
                    y += 1;
                }
                proof {
                    assert forall|i: int| 0 <= i < CHUNK_SIZE implies #[trigger] voxels@[i]
                        == terrain_prefix(hs, done + 1, i) || decoration_material(voxels@[i]) by {
                        lemma_index_decode(i);
                        let cx = index_x(i);
                        let cz = index_z(i);
                        if cx * 32 + cz == done {
                            assert(cx == x && cz == z) by (nonlinear_arith)
                                requires
                                    cx * 32 + cz == x * 32 + z,
                                    0 <= cx < 32,
                                    0 <= cz < 32,
                                    0 <= x < 32,
                                    0 <= z < 32,
                            ;
                        }
                        if cx == x && cz == z {
                            assert(cx * 32 + cz == done);
                        }
                    }
                }
                let ghost before = voxels@;
                proof {
                    vstd::arithmetic::div_mod::lemma_fundamental_div_mod_converse(
                        done,
                        32,
                        x as int,
                        z as int,
                    );
                }
                let mut rng = self.get_rng_at(world_x, world_z);
                biome.decorate(voxels.as_mut_slice(), x, z, h_clamped, &mut rng);
                proof {
                    let filled = paint(
                        start,
                        |i: int| in_column_below(x as int, z as int, hc, i),
                        Voxel::Sandstone,
                    );
                    assert(before == filled);
                    assert(start == generated_voxels(hs, self.seed, chunk_x, chunk_z, done as nat));
                    assert(hs[done] == column_height(hs, x as int, z as int));
                    assert(voxels@ == decorate_spec(
                        filled,
                        x as int,
                        z as int,
                        hc,
                        column_rng(self.seed, world_x, world_z),
                    ).0);
                    assert(generated_voxels(hs, self.seed, chunk_x, chunk_z, (done + 1) as nat)
                        == decorate_spec(
                        filled,
                        x as int,
                        z as int,
                        hc,
                        column_rng(self.seed, world_x, world_z),
                    ).0);
                    let mid = choose|mid: Seq<Voxel>|
                        crate::biomes::tree_outcome(before, mid, x as int, z as int, h_clamped as int)
                            && crate::biomes::cactus_outcome(
                            mid,
                            voxels@,
                            x as int,
                            z as int,
                            h_clamped as int,
                        );
                    lemma_decoration_materials(before, mid, voxels@, x as int, z as int, h_clamped as int);
                    assert forall|i: int| 0 <= i < CHUNK_SIZE implies #[trigger] voxels@[i]
                        == terrain_prefix(hs, done + 1, i) || decoration_material(voxels@[i]) by {
                        assert(before[i] == terrain_prefix(hs, done + 1, i) || decoration_material(before[i]));
                    }
                }
                z += 1;
            }
            x += 1;
        }
        proof {
            assert forall|i: int| 0 <= i < CHUNK_SIZE implies #[trigger] voxels@[i]
                == terrain_voxel(hs, i) || decoration_material(voxels@[i]) by {
                lemma_index_decode(i);
                assert(voxels@[i] == terrain_prefix(hs, CHUNK_WIDTH * CHUNK_DEPTH, i) || decoration_material(voxels@[i]));
            }
        }
        Chunk::new(voxels, Point3::new(chunk_x, 0, chunk_z))
    }

    /// The 64-bit state from which the random generator of world column
    /// `(world_x, world_z)` is seeded.
    pub fn rng_seed_at(&self, world_x: i32, world_z: i32) -> (s: u64)
        ensures
            s == rng_seed_spec(self.seed, world_x, world_z),
    {
        (self.seed as u64) ^ ((world_x as u64).wrapping_shl(32)) ^ (world_z as u64)
    }

    /// The random generator of world column `(world_x, world_z)`: a `Pcg64` seeded with
    /// `rng_seed_at`.
    fn get_rng_at(&self, world_x: i32, world_z: i32) -> (r: Pcg64)
        ensures
            r == column_rng(self.seed, world_x, world_z),
    {
        pcg64_seed_from_u64(self.rng_seed_at(world_x, world_z))
    }
}

} // verus!
