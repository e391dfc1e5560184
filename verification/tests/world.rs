use voxel_engine::chunk::{Chunk, ChunkNeighbors, CHUNK_SIZE};
use voxel_engine::geometry::Point3;
use voxel_engine::voxel::Voxel;
use voxel_engine::world::{chunk_key, World};

fn chunk_at(x: i32, z: i32, fill: Voxel) -> Chunk {
    Chunk::new(vec![fill; CHUNK_SIZE], Point3::new(x, 0, z))
}

fn chunk_with_cell(x: i32, z: i32, cell: (usize, usize, usize), v: Voxel) -> Chunk {
    let mut voxels = vec![Voxel::Air; CHUNK_SIZE];
    voxels[Chunk::index(Point3::new(cell.0, cell.1, cell.2))] = v;
    Chunk::new(voxels, Point3::new(x, 0, z))
}

#[test]
fn chunk_keys_are_distinct() {
    assert_ne!(chunk_key(0, 1), chunk_key(1, 0));
    assert_ne!(chunk_key(-1, 0), chunk_key(0, -1));
    assert_ne!(chunk_key(i32::MIN, i32::MAX), chunk_key(i32::MAX, i32::MIN));
    assert_eq!(chunk_key(i32::MIN, i32::MIN), i64::MIN);
    assert_eq!(chunk_key(i32::MAX, i32::MAX), i64::MAX);
}

#[test]
fn new_world_is_empty() {
    let w = World::new(7);
    assert_eq!(w.generator.seed, 7);
    assert_eq!(w.get_block_global(0, 0, 0), Voxel::Air);
    assert!(w.chunks.is_empty());
    assert!(w.in_flight.is_empty());
}

#[test]
fn stored_chunk_is_read_back() {
    let mut w = World::new(0);
    w.handle_new_chunk(chunk_with_cell(32, -64, (3, 10, 5), Voxel::Cactus));
    assert_eq!(w.get_block_global(35, 10, -59), Voxel::Cactus);
    assert_eq!(w.get_block_global(35, 11, -59), Voxel::Air);
    assert_eq!(w.get_block_global(3, 10, 5), Voxel::Air);
}

#[test]
fn negative_positions_use_floor_division() {
    let mut w = World::new(0);
    w.handle_new_chunk(chunk_with_cell(-32, -32, (31, 0, 31), Voxel::Sandstone));
    assert_eq!(w.get_block_global(-1, 0, -1), Voxel::Sandstone);
    assert_eq!(w.get_block_global(-33, 0, -1), Voxel::Air);
    w.handle_new_chunk(chunk_with_cell(-64, -32, (0, 0, 31), Voxel::DeadWood));
    assert_eq!(w.get_block_global(-64, 0, -1), Voxel::DeadWood);
}

#[test]
fn outside_vertical_range_is_air() {
    let mut w = World::new(0);
    w.handle_new_chunk(chunk_at(0, 0, Voxel::Sandstone));
    assert_eq!(w.get_block_global(1, 0, 1), Voxel::Sandstone);
    assert_eq!(w.get_block_global(1, 127, 1), Voxel::Sandstone);
    assert_eq!(w.get_block_global(1, -1, 1), Voxel::Air);
    assert_eq!(w.get_block_global(1, 128, 1), Voxel::Air);
}

#[test]
fn mesh_requests_wait_for_all_neighbors() {
    let mut w = World::new(0);
    assert!(w.handle_new_chunk(chunk_at(0, 0, Voxel::Air)).is_empty());
    assert!(w.handle_new_chunk(chunk_at(0, 32, Voxel::Air)).is_empty());
    assert!(w.handle_new_chunk(chunk_at(0, -32, Voxel::Air)).is_empty());
    assert!(w.handle_new_chunk(chunk_at(32, 0, Voxel::Air)).is_empty());
    let reqs = w.handle_new_chunk(chunk_at(-32, 0, Voxel::Sandstone));
    assert_eq!(reqs.len(), 1);
    let (center, [n, s, e, west]) = &reqs[0];
    assert_eq!(center.position, Point3::new(0, 0, 0));
    assert_eq!(n.as_ref().unwrap().position, Point3::new(0, 0, 32));
    assert_eq!(s.as_ref().unwrap().position, Point3::new(0, 0, -32));
    assert_eq!(e.as_ref().unwrap().position, Point3::new(32, 0, 0));
    assert_eq!(west.as_ref().unwrap().position, Point3::new(-32, 0, 0));
    assert!(west.as_ref().unwrap().voxels.iter().all(|&v| v == Voxel::Sandstone));
}

#[test]
fn mesh_requests_follow_neighbor_order() {
    let mut w = World::new(0);
    for (x, z) in [(0, 0), (0, 32), (0, -32), (32, 0), (-32, 0), (32, 32), (32, -32), (64, 0)] {
        w.handle_new_chunk(chunk_at(x, z, Voxel::Air));
    }
    // Storing (32, 0) again completes the neighborhoods of itself and of its west
    // neighbor (0, 0); the requests come in neighbor order.
    let reqs = w.handle_new_chunk(chunk_at(32, 0, Voxel::Air));
    let centers: Vec<Point3<i32>> = reqs.iter().map(|r| r.0.position).collect();
    assert_eq!(centers, vec![Point3::new(32, 0, 0), Point3::new(0, 0, 0)]);
}

#[test]
fn missing_chunks_cover_the_square_row_by_row() {
    let mut w = World::new(0);
    let missing = w.get_missing_chunks(1, -2);
    assert_eq!(missing.len(), 625);
    assert_eq!(missing[0], ((1 - 12) * 32, (-2 - 12) * 32));
    assert_eq!(missing[1], ((1 - 12) * 32, (-2 - 11) * 32));
    assert_eq!(missing[25], ((1 - 11) * 32, (-2 - 12) * 32));
    assert_eq!(missing[624], ((1 + 12) * 32, (-2 + 12) * 32));
    let mut sorted = missing.clone();
    sorted.sort();
    sorted.dedup();
    assert_eq!(sorted.len(), 625);
}

#[test]
fn loaded_and_pending_chunks_are_not_requested() {
    let mut w = World::new(0);
    w.handle_new_chunk(chunk_at(0, 0, Voxel::Air));
    w.mark_in_flight(&[(32, 0), (-32, 64)]);
    let missing = w.get_missing_chunks(0, 0);
    assert_eq!(missing.len(), 622);
    assert!(!missing.contains(&(0, 0)));
    assert!(!missing.contains(&(32, 0)));
    assert!(!missing.contains(&(-32, 64)));
    assert!(missing.contains(&(64, 0)));
}

#[test]
fn stored_chunk_leaves_in_flight() {
    let mut w = World::new(0);
    w.mark_in_flight(&[(32, 0)]);
    assert!(w.in_flight.contains(&chunk_key(32, 0)));
    w.handle_new_chunk(chunk_at(32, 0, Voxel::Air));
    assert!(!w.in_flight.contains(&chunk_key(32, 0)));
    assert!(w.chunks.contains_key(&chunk_key(32, 0)));
    assert!(!w.get_missing_chunks(0, 0).contains(&(32, 0)));
}

#[test]
fn requesting_twice_after_marking_asks_nothing() {
    let mut w = World::new(0);
    let first = w.get_missing_chunks(3, 3);
    w.mark_in_flight(&first);
    assert!(w.get_missing_chunks(3, 3).is_empty());
    assert_eq!(w.in_flight.len(), 625);
}

#[test]
fn neighbor_lookup_agrees_with_world_across_borders() {
    let mut w = World::new(0);
    w.handle_new_chunk(chunk_with_cell(0, 0, (0, 5, 0), Voxel::Sandstone));
    w.handle_new_chunk(chunk_with_cell(32, 0, (0, 5, 7), Voxel::Cactus));
    w.handle_new_chunk(chunk_with_cell(0, -32, (4, 5, 31), Voxel::DeadWood));
    w.handle_new_chunk(chunk_with_cell(-32, 0, (31, 5, 9), Voxel::Sandstone));
    let n = ChunkNeighbors {
        center: w.chunks.get(&chunk_key(0, 0)).unwrap(),
        north: w.chunks.get(&chunk_key(0, 32)),
        south: w.chunks.get(&chunk_key(0, -32)),
        east: w.chunks.get(&chunk_key(32, 0)),
        west: w.chunks.get(&chunk_key(-32, 0)),
    };
    assert!(n.north.is_none());
    assert_eq!(n.get_voxel(32, 5, 7), Voxel::Cactus);
    assert_eq!(n.get_voxel(4, 5, -1), Voxel::DeadWood);
    assert_eq!(n.get_voxel(-1, 5, 9), Voxel::Sandstone);
    for x in -32..64 {
        for z in -32..64 {
            if !((0..32).contains(&x) || (0..32).contains(&z)) {
                continue;
            }
            for y in [-1, 0, 5, 127, 128] {
                assert_eq!(n.get_voxel(x, y, z), w.get_block_global(x, y, z));
            }
        }
    }
}
