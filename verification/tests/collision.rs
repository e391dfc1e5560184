use voxel_engine::chunk::{Chunk, CHUNK_SIZE};
use voxel_engine::collision::is_colliding;
use voxel_engine::geometry::Point3;
use voxel_engine::voxel::Voxel;
use voxel_engine::world::World;

fn world_with_block(x: usize, y: usize, z: usize) -> World {
    let mut voxels = vec![Voxel::Air; CHUNK_SIZE];
    voxels[Chunk::index(Point3::new(x, y, z))] = Voxel::Sandstone;
    let mut w = World::new(0);
    w.handle_new_chunk(Chunk::new(voxels, Point3::new(0, 0, 0)));
    w
}

#[test]
fn box_around_solid_block_collides() {
    let w = world_with_block(10, 20, 30);
    assert!(is_colliding(&w, Point3::new(9, 19, 29), Point3::new(11, 21, 31)));
    assert!(is_colliding(&w, Point3::new(10, 20, 30), Point3::new(10, 20, 30)));
}

#[test]
fn box_of_air_does_not_collide() {
    let w = world_with_block(10, 20, 30);
    assert!(!is_colliding(&w, Point3::new(11, 19, 29), Point3::new(12, 21, 31)));
    assert!(!is_colliding(&w, Point3::new(-5, -5, -5), Point3::new(-1, 200, 40)));
}

#[test]
fn empty_box_does_not_collide() {
    let w = world_with_block(10, 20, 30);
    assert!(!is_colliding(&w, Point3::new(11, 20, 30), Point3::new(10, 20, 30)));
}

#[test]
fn boxes_at_the_integer_limits() {
    let w = World::new(0);
    assert!(!is_colliding(&w, Point3::new(i32::MAX - 1, 0, 0), Point3::new(i32::MAX, 1, 1)));
}
