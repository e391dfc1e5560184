use voxel_engine::chunk::{Chunk, ChunkNeighbors, CHUNK_SIZE};
use voxel_engine::geometry::Point3;
use voxel_engine::voxel::Voxel;

fn chunk_with(position: Point3<i32>, cells: &[(usize, usize, usize, Voxel)]) -> Chunk {
    let mut voxels = vec![Voxel::Air; CHUNK_SIZE];
    for &(x, y, z, v) in cells {
        voxels[Chunk::index(Point3::new(x, y, z))] = v;
    }
    Chunk::new(voxels, position)
}

#[test]
fn index_orders_x_then_z_then_y() {
    assert_eq!(Chunk::index(Point3::new(0, 0, 0)), 0);
    assert_eq!(Chunk::index(Point3::new(1, 0, 0)), 1);
    assert_eq!(Chunk::index(Point3::new(0, 0, 1)), 32);
    assert_eq!(Chunk::index(Point3::new(0, 1, 0)), 1024);
    assert_eq!(Chunk::index(Point3::new(1, 2, 3)), 1 + 3 * 32 + 2 * 1024);
    assert_eq!(Chunk::index(Point3::new(31, 127, 31)), Chunk::SIZE - 1);
}

#[test]
fn index_is_a_bijection_on_the_chunk() {
    let mut seen = vec![false; Chunk::SIZE];
    for x in 0..Chunk::WIDTH {
        for y in 0..Chunk::HEIGHT {
            for z in 0..Chunk::DEPTH {
                let i = Chunk::index(Point3::new(x, y, z));
                assert!(i < Chunk::SIZE);
                assert!(!seen[i]);
                seen[i] = true;
            }
        }
    }
    assert!(seen.iter().all(|&b| b));
}

#[test]
fn get_block_reads_the_cell() {
    let c = chunk_with(Point3::new(0, 0, 0), &[(3, 4, 5, Voxel::Cactus)]);
    assert_eq!(c.get_block(Point3::new(3, 4, 5)), Some(&Voxel::Cactus));
    assert_eq!(c.get_block(Point3::new(3, 4, 6)), Some(&Voxel::Air));
    assert_eq!(c.get_block(Point3::new(0, 128, 0)), None);
}

#[test]
fn get_block_on_short_voxel_array() {
    let c = Chunk::new(vec![Voxel::Sandstone; 40], Point3::new(0, 0, 0));
    assert_eq!(c.get_block(Point3::new(7, 0, 1)), Some(&Voxel::Sandstone));
    assert_eq!(c.get_block(Point3::new(8, 0, 1)), None);
}

#[test]
fn clone_copies_contents_and_position() {
    let c = chunk_with(Point3::new(64, 0, -32), &[(1, 1, 1, Voxel::DeadWood)]);
    let d = c.clone();
    assert_eq!(d.position, Point3::new(64, 0, -32));
    assert!(d.voxels == c.voxels);
}

#[test]
fn neighbors_pick_the_chunk_across_each_border() {
    let center = chunk_with(Point3::new(0, 0, 0), &[(0, 5, 0, Voxel::Sandstone)]);
    let west = chunk_with(Point3::new(-32, 0, 0), &[(31, 5, 0, Voxel::Cactus)]);
    let east = chunk_with(Point3::new(32, 0, 0), &[(0, 5, 0, Voxel::DeadWood)]);
    let south = chunk_with(Point3::new(0, 0, -32), &[(0, 5, 31, Voxel::Cactus)]);
    let north = chunk_with(Point3::new(0, 0, 32), &[(0, 5, 0, Voxel::DeadWood)]);
    let n = ChunkNeighbors {
        center: &center,
        north: Some(&north),
        south: Some(&south),
        east: Some(&east),
        west: Some(&west),
    };
    assert_eq!(n.get_voxel(0, 5, 0), Voxel::Sandstone);
    assert_eq!(n.get_voxel(-1, 5, 0), Voxel::Cactus);
    assert_eq!(n.get_voxel(32, 5, 0), Voxel::DeadWood);
    assert_eq!(n.get_voxel(0, 5, -1), Voxel::Cactus);
    assert_eq!(n.get_voxel(0, 5, 32), Voxel::DeadWood);
    assert_eq!(n.get_voxel(0, 4, 0), Voxel::Air);
    assert_eq!(n.get_voxel(0, -1, 0), Voxel::Air);
    assert_eq!(n.get_voxel(0, 128, 0), Voxel::Air);
}

#[test]
fn neighbors_missing_chunk_reads_air() {
    let center = chunk_with(Point3::new(0, 0, 0), &[(31, 0, 0, Voxel::Sandstone)]);
    let n = ChunkNeighbors { center: &center, north: None, south: None, east: None, west: None };
    assert_eq!(n.get_voxel(31, 0, 0), Voxel::Sandstone);
    assert_eq!(n.get_voxel(32, 0, 0), Voxel::Air);
    assert_eq!(n.get_voxel(-1, 0, 0), Voxel::Air);
    assert_eq!(n.get_voxel(5, 0, -1), Voxel::Air);
    assert_eq!(n.get_voxel(5, 0, 32), Voxel::Air);
}
