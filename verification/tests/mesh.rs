use voxel_engine::chunk::{Chunk, ChunkNeighbors, CHUNK_SIZE};
use voxel_engine::geometry::{Point3, Vector3};
use voxel_engine::mesh::{
    chunk_mesh_indices, generate_chunk_mesh, quad_indices, Face, RenderItem, ALL_FACES,
};
use voxel_engine::voxel::Voxel;

fn chunk_with(cells: &[(usize, usize, usize, Voxel)]) -> Chunk {
    let mut voxels = vec![Voxel::Air; CHUNK_SIZE];
    for &(x, y, z, v) in cells {
        voxels[Chunk::index(Point3::new(x, y, z))] = v;
    }
    Chunk::new(voxels, Point3::new(0, 0, 0))
}

fn alone(c: &Chunk) -> ChunkNeighbors<'_> {
    ChunkNeighbors { center: c, north: None, south: None, east: None, west: None }
}

#[test]
fn face_normals() {
    assert_eq!(Face::Front.normal(), Vector3::new(0, 0, 1));
    assert_eq!(Face::Back.normal(), Vector3::new(0, 0, -1));
    assert_eq!(Face::Left.normal(), Vector3::new(-1, 0, 0));
    assert_eq!(Face::Right.normal(), Vector3::new(1, 0, 0));
    assert_eq!(Face::Top.normal(), Vector3::new(0, 1, 0));
    assert_eq!(Face::Bottom.normal(), Vector3::new(0, -1, 0));
    assert_eq!(ALL_FACES, [Face::Front, Face::Back, Face::Left, Face::Right, Face::Top, Face::Bottom]);
}

#[test]
fn empty_chunk_has_no_faces() {
    let c = chunk_with(&[]);
    let (faces, indices) = generate_chunk_mesh(&alone(&c));
    assert!(faces.is_empty());
    assert!(indices.is_empty());
}

#[test]
fn lone_block_shows_six_faces() {
    let c = chunk_with(&[(4, 5, 6, Voxel::Cactus)]);
    let (faces, indices) = generate_chunk_mesh(&alone(&c));
    assert_eq!(faces.len(), 6);
    for (f, face) in faces.iter().zip(ALL_FACES.iter()) {
        assert_eq!((f.x, f.y, f.z, f.voxel), (4, 5, 6, Voxel::Cactus));
        assert_eq!(f.face, *face);
    }
    assert_eq!(indices.len(), 6 * 24);
    assert_eq!(&indices[0..24], &[0, 1, 2, 0, 2, 3, 0, 1, 2, 0, 2, 3, 0, 1, 2, 0, 2, 3, 0, 1, 2, 0, 2, 3]);
    assert_eq!(&indices[24..30], &[4, 5, 6, 4, 6, 7]);
    assert!(indices.iter().all(|&i| i < 24));
}

#[test]
fn touching_blocks_hide_shared_faces() {
    let c = chunk_with(&[(4, 5, 6, Voxel::Sandstone), (5, 5, 6, Voxel::Sandstone)]);
    let item_neighbors = alone(&c);
    let (faces, indices) = RenderItem::Chunk(&c, &item_neighbors).generate_mesh();
    assert_eq!(faces.len(), 10);
    assert!(!faces.iter().any(|f| f.x == 4 && f.face == Face::Right));
    assert!(!faces.iter().any(|f| f.x == 5 && f.face == Face::Left));
    assert_eq!(indices.len(), 60);
    assert_eq!(&indices[0..12], &[0, 1, 2, 0, 2, 3, 4, 5, 6, 4, 6, 7]);
}

#[test]
fn faces_across_borders_use_neighbors() {
    let c = chunk_with(&[(0, 0, 0, Voxel::Sandstone)]);
    let mut west_voxels = vec![Voxel::Air; CHUNK_SIZE];
    west_voxels[Chunk::index(Point3::new(31, 0, 0))] = Voxel::Sandstone;
    let west = Chunk::new(west_voxels, Point3::new(-32, 0, 0));
    let n = ChunkNeighbors { center: &c, north: None, south: None, east: None, west: Some(&west) };
    let (faces, _) = generate_chunk_mesh(&n);
    let sides: Vec<Face> = faces.iter().map(|f| f.face).collect();
    // Below the world is air, so the bottom face shows; the west face is covered.
    assert_eq!(sides, vec![Face::Front, Face::Back, Face::Right, Face::Top, Face::Bottom]);
}

#[test]
fn faces_come_in_meshing_order() {
    let c = chunk_with(&[(1, 0, 0, Voxel::Cactus), (0, 1, 0, Voxel::DeadWood), (0, 0, 1, Voxel::Cactus)]);
    let (faces, _) = generate_chunk_mesh(&alone(&c));
    let cells: Vec<(usize, usize, usize)> = faces.iter().map(|f| (f.x, f.y, f.z)).collect();
    let mut expected = Vec::new();
    for cell in [(0, 0, 1), (0, 1, 0), (1, 0, 0)] {
        for _ in 0..6 {
            expected.push(cell);
        }
    }
    assert_eq!(cells, expected);
}

#[test]
fn index_lists() {
    assert_eq!(quad_indices(2), vec![0, 1, 2, 0, 2, 3, 4, 5, 6, 4, 6, 7]);
    let c = chunk_mesh_indices(2);
    assert_eq!(c.len(), 48);
    assert_eq!(&c[24..30], &[4, 5, 6, 4, 6, 7]);
    assert_eq!(&c[42..48], &[4, 5, 6, 4, 6, 7]);
    assert!(quad_indices(0).is_empty());
}
