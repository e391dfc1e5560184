use noise::{Fbm, Perlin};
use rand::{RngExt, SeedableRng};
use rand_pcg::Pcg64;

use voxel_engine::biomes::{build_cactus, build_dead_tree, BiomeType, Branch, Desert};
use voxel_engine::chunk::{Chunk, CHUNK_SIZE};
use voxel_engine::generator::Generator;
use voxel_engine::geometry::Point3;
use voxel_engine::voxel::Voxel;

fn desert(seed: u32) -> BiomeType {
    BiomeType::Desert(Desert { noise: Fbm::<Perlin>::new(seed) })
}

fn at(c: &Chunk, x: usize, y: usize, z: usize) -> Voxel {
    c.voxels[Chunk::index(Point3::new(x, y, z))]
}

fn column_top(c: &Chunk, x: usize, z: usize) -> usize {
    (0..Chunk::HEIGHT).filter(|&y| at(c, x, y, z) == Voxel::Sandstone).count()
}

#[test]
fn generator_keeps_its_seed() {
    assert_eq!(Generator::new(42).seed, 42);
}

#[test]
fn rng_seed_mixes_seed_and_column() {
    let g = Generator::new(5);
    assert_eq!(g.rng_seed_at(0, 0), 5);
    assert_eq!(g.rng_seed_at(1, 2), 5 ^ (1u64 << 32) ^ 2);
    assert_eq!(g.rng_seed_at(-1, 0), 5 ^ 0xFFFF_FFFF_0000_0000);
    assert_eq!(g.rng_seed_at(0, -1), 5 ^ u64::MAX);
    assert_eq!(g.rng_seed_at(3, -2), 5 ^ 0x0000_0003_0000_0000 ^ 0xFFFF_FFFF_FFFF_FFFE);
}

#[test]
fn generated_chunk_has_terrain_below_surface() {
    let g = Generator::new(1);
    let heights: Vec<i32> = (0..1024).map(|i| (i % 40) as i32).collect();
    let c = g.generate_chunk(64, -96, &desert(1), &heights);
    assert_eq!(c.position, Point3::new(64, 0, -96));
    assert_eq!(c.voxels.len(), CHUNK_SIZE);
    for x in 0..32 {
        for z in 0..32 {
            let h = heights[x * 32 + z] as usize;
            for y in 0..Chunk::HEIGHT {
                let v = at(&c, x, y, z);
                let terrain = if y < h { Voxel::Sandstone } else { Voxel::Air };
                assert!(v == terrain || v == Voxel::Cactus || v == Voxel::DeadWood);
            }
        }
    }
}

#[test]
fn surface_heights_are_clamped() {
    let g = Generator::new(3);
    let mut heights = vec![-5i32; 1024];
    heights[1] = 500;
    let c = g.generate_chunk(0, 0, &desert(3), &heights);
    assert_eq!(column_top(&c, 0, 0), 0);
    assert_eq!(column_top(&c, 0, 1), 127);
    assert_eq!(at(&c, 0, 126, 1), Voxel::Sandstone);
    assert_ne!(at(&c, 0, 127, 1), Voxel::Sandstone);
}

#[test]
fn generation_is_deterministic() {
    let g = Generator::new(9);
    let heights = vec![20i32; 1024];
    let a = g.generate_chunk(-32, 32, &desert(9), &heights);
    let b = g.generate_chunk(-32, 32, &desert(9), &heights);
    assert!(a.voxels == b.voxels);
}

#[test]
fn decorations_appear_and_have_valid_shapes() {
    let g = Generator::new(11);
    let heights = vec![30i32; 1024];
    let mut cactus_cells = 0;
    let mut wood_cells = 0;
    for cx in 0..12 {
        let c = g.generate_chunk(cx * 32, 0, &desert(11), &heights);
        for x in 0..32 {
            for z in 0..32 {
                for y in 0..Chunk::HEIGHT {
                    match at(&c, x, y, z) {
                        Voxel::Cactus => {
                            cactus_cells += 1;
                            assert!((30..36).contains(&y));
                        }
                        Voxel::DeadWood => {
                            wood_cells += 1;
                            assert!((30..40).contains(&y));
                        }
                        Voxel::Sandstone => assert!(y < 30),
                        Voxel::Air => assert!(y >= 30),
                    }
                }
                let stem = (30..Chunk::HEIGHT).take_while(|&y| at(&c, x, y, z) == Voxel::Cactus).count();
                assert!(stem == 0 || (3..=5).contains(&stem));
            }
        }
    }
    assert!(cactus_cells > 0);
    assert!(wood_cells > 0);
}

#[test]
fn random_draws_vary_the_shapes() {
    let g = Generator::new(21);
    let heights = vec![30i32; 1024];
    let mut stems = std::collections::BTreeSet::new();
    let mut directions = std::collections::BTreeSet::new();
    for cx in 0..24 {
        let c = g.generate_chunk(cx * 32, 64, &desert(21), &heights);
        for x in 0..32usize {
            for z in 0..32usize {
                let stem = (30..Chunk::HEIGHT).take_while(|&y| at(&c, x, y, z) == Voxel::Cactus).count();
                if stem > 0 {
                    stems.insert(stem);
                }
                if at(&c, x, 30, z) == Voxel::DeadWood {
                    for dx in -1i32..=1 {
                        for dz in -1i32..=1 {
                            let (nx, nz) = (x as i32 + dx, z as i32 + dz);
                            if (dx, dz) == (0, 0) || !(0..32).contains(&nx) || !(0..32).contains(&nz) {
                                continue;
                            }
                            if (33..Chunk::HEIGHT).any(|y| at(&c, nx as usize, y, nz as usize) == Voxel::DeadWood) {
                                directions.insert((dx, dz));
                            }
                        }
                    }
                }
            }
        }
    }
    assert!(stems.len() >= 2);
    assert!(directions.len() >= 2);
}

#[test]
fn ratio_draws_match_float_probability_draws() {
    for seed in 0..2000u64 {
        let mut a = Pcg64::seed_from_u64(seed);
        let mut b = Pcg64::seed_from_u64(seed);
        assert_eq!(a.random_bool(0.0008), b.random_ratio(8, 10000));
        assert_eq!(a.random_bool(0.0004), b.random_ratio(4, 10000));
        assert_eq!(a.random_bool(0.5), b.random_ratio(1, 2));
    }
}

#[test]
fn cactus_with_arm() {
    let mut v = vec![Voxel::Air; CHUNK_SIZE];
    build_cactus(&mut v, 5, 7, 10, 3, Some((12, 1)));
    let count = v.iter().filter(|&&c| c == Voxel::Cactus).count();
    assert_eq!(count, 4 + 2);
    for y in 10..=13 {
        assert_eq!(v[Chunk::index(Point3::new(5, y, 7))], Voxel::Cactus);
    }
    assert_eq!(v[Chunk::index(Point3::new(6, 12, 7))], Voxel::Cactus);
    assert_eq!(v[Chunk::index(Point3::new(6, 13, 7))], Voxel::Cactus);
}

#[test]
fn cactus_arm_outside_chunk_is_dropped() {
    let mut v = vec![Voxel::Air; CHUNK_SIZE];
    build_cactus(&mut v, 0, 0, 0, 4, Some((2, -1)));
    assert_eq!(v.iter().filter(|&&c| c == Voxel::Cactus).count(), 5);
}

#[test]
fn dead_tree_with_branches() {
    let mut v = vec![Voxel::Sandstone; CHUNK_SIZE];
    let branches = vec![
        Branch { y: 14, dx: 1, dz: 0, len: 2 },
        Branch { y: 13, dx: -1, dz: -1, len: 1 },
        Branch { y: 15, dx: 0, dz: 1, len: 2 },
    ];
    build_dead_tree(&mut v, 31, 0, 10, 5, &branches);
    let wood: Vec<(usize, usize, usize)> = (0..CHUNK_SIZE)
        .filter(|&i| v[i] == Voxel::DeadWood)
        .map(|i| (i % 32, i / 1024, (i / 32) % 32))
        .collect();
    let mut expected = vec![
        (31, 10, 0),
        (31, 11, 0),
        (31, 12, 0),
        (31, 13, 0),
        (31, 14, 0),
        (31, 15, 0),
        (31, 16, 1),
        (31, 17, 2),
    ];
    let mut wood_sorted = wood.clone();
    wood_sorted.sort();
    expected.sort();
    assert_eq!(wood_sorted, expected);
    assert_eq!(v.iter().filter(|&&c| c == Voxel::Sandstone).count(), CHUNK_SIZE - 8);
}

#[test]
fn decorating_at_the_top_grows_nothing() {
    let biome = desert(3);
    for seed in 0..4000u64 {
        for h in [126usize, 127, 500] {
            let mut v = vec![Voxel::Air; CHUNK_SIZE];
            let mut rng = Pcg64::seed_from_u64(seed);
            biome.decorate(&mut v, 4, 9, h, &mut rng);
            assert!(v.iter().all(|&c| c == Voxel::Air));
        }
    }
}

#[test]
fn generators_with_one_seed_make_the_same_chunk() {
    let g1 = Generator::new(41);
    let g2 = Generator::new(41);
    let heights = vec![25i32; 1024];
    let _ = g2.generate_chunk(0, 0, &desert(41), &heights);
    let _ = g2.generate_chunk(320, -96, &desert(41), &heights);
    let a = g1.generate_chunk(96, -64, &desert(41), &heights);
    let b = g2.generate_chunk(96, -64, &desert(41), &heights);
    assert!(a.voxels == b.voxels);
    assert_eq!((a.position.x, a.position.y, a.position.z), (96, 0, -64));
    assert_eq!((b.position.x, b.position.y, b.position.z), (96, 0, -64));
}
