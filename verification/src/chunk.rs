use vstd::prelude::*;

use crate::geometry::Point3;
use crate::voxel::Voxel;


verus! {

/// Number of cells along the x axis of a chunk.
pub const CHUNK_WIDTH: usize = 32;
/// Number of cells along the y (vertical) axis of a chunk.
pub const CHUNK_HEIGHT: usize = 128;
/// Number of cells along the z axis of a chunk.
pub const CHUNK_DEPTH: usize = 32;
/// Number of cells of a chunk.
pub const CHUNK_SIZE: usize = 131072;

/// Whether a local position lies inside a chunk.
pub open spec fn in_chunk_bounds(x: int, y: int, z: int) -> bool {
    &&& 0 <= x < CHUNK_WIDTH
    &&& 0 <= y < CHUNK_HEIGHT
    &&& 0 <= z < CHUNK_DEPTH
}

/// Position of a local cell in the voxel array: x varies fastest, then z, then y.
pub open spec fn linear_index(x: int, y: int, z: int) -> int {
    x + z * CHUNK_WIDTH + y * (CHUNK_WIDTH * CHUNK_DEPTH)
}

/// The local x coordinate of the cell stored at array position `i`.
pub open spec fn index_x(i: int) -> int {
    i % (CHUNK_WIDTH as int)
}

/// The local y coordinate of the cell stored at array position `i`.
pub open spec fn index_y(i: int) -> int {
    i / ((CHUNK_WIDTH * CHUNK_DEPTH) as int)
}

/// The local z coordinate of the cell stored at array position `i`.
pub open spec fn index_z(i: int) -> int {
    (i / (CHUNK_WIDTH as int)) % (CHUNK_DEPTH as int)
}

/// Every in-bounds local position has a position in `[0, CHUNK_SIZE)` in the voxel
/// array, and that position decodes back to it.
pub proof fn lemma_index_roundtrip(x: int, y: int, z: int)
    requires
        in_chunk_bounds(x, y, z),
    ensures
        0 <= linear_index(x, y, z) < CHUNK_SIZE,
        index_x(linear_index(x, y, z)) == x,
        index_y(linear_index(x, y, z)) == y,
        index_z(linear_index(x, y, z)) == z,
{
    let i = linear_index(x, y, z);
    assert(i == (z + y * 32) * 32 + x) by (nonlinear_arith)
        requires i == linear_index(x, y, z);
    assert(i == y * 1024 + (x + z * 32)) by (nonlinear_arith)
        requires i == linear_index(x, y, z);
    assert(z + y * 32 == y * 32 + z) by (nonlinear_arith);
    vstd::arithmetic::div_mod::lemma_fundamental_div_mod_converse(i, 32, z + y * 32, x);
    vstd::arithmetic::div_mod::lemma_fundamental_div_mod_converse(i, 1024, y, x + z * 32);
    vstd::arithmetic::div_mod::lemma_fundamental_div_mod_converse(z + y * 32, 32, y, z);
}

/// Every position of the voxel array decodes to an in-bounds local position that
/// encodes back to it.
pub proof fn lemma_index_decode(i: int)
    requires
        0 <= i < CHUNK_SIZE,
    ensures
        in_chunk_bounds(index_x(i), index_y(i), index_z(i)),
        linear_index(index_x(i), index_y(i), index_z(i)) == i,
{
    vstd::arithmetic::div_mod::lemma_fundamental_div_mod(i, 32);
    vstd::arithmetic::div_mod::lemma_fundamental_div_mod(i / 32, 32);
    let q = i / 32;
    assert(0 <= q < 4096);
    assert(0 <= q / 32 < 128);
    vstd::arithmetic::div_mod::lemma_fundamental_div_mod_converse(i, 1024, q / 32, (q % 32) * 32 + i % 32);
}

/// Distinct in-bounds local positions occupy distinct positions of the voxel array.
pub proof fn lemma_index_injective(x1: int, y1: int, z1: int, x2: int, y2: int, z2: int)
    requires
        in_chunk_bounds(x1, y1, z1),
        in_chunk_bounds(x2, y2, z2),
        linear_index(x1, y1, z1) == linear_index(x2, y2, z2),
    ensures
        x1 == x2 && y1 == y2 && z1 == z2,
{
    lemma_index_roundtrip(x1, y1, z1);
    lemma_index_roundtrip(x2, y2, z2);
}

/// A column of the world grid: a `CHUNK_WIDTH` x `CHUNK_HEIGHT` x `CHUNK_DEPTH` block
/// of voxels whose origin is `position` in world coordinates.
pub struct Chunk {
    pub voxels: Vec<Voxel>,
    pub position: Point3<i32>,
}

impl Chunk {
    pub const WIDTH: usize = 32;
    pub const HEIGHT: usize = 128;
    pub const DEPTH: usize = 32;
    pub const SIZE: usize = 131072;

    /// The voxel stored for a local position, if the voxel array holds one there.
    pub open spec fn block(&self, x: int, y: int, z: int) -> Option<Voxel> {
        let i = linear_index(x, y, z);
        if 0 <= i < self.voxels@.len() {
            Some(self.voxels@[i])
        } else {
            None
        }
    }

    pub fn new(voxels: Vec<Voxel>, position: Point3<i32>) -> (c: Self)
        ensures
            c.voxels@ == voxels@,
            c.position == position,
    {
        Self { voxels, position }
    }

    /// The position in the voxel array of a local position.
    pub fn index(position: Point3<usize>) -> (r: usize)
        requires
            linear_index(position.x as int, position.y as int, position.z as int) <= usize::MAX,
        ensures
            r == linear_index(position.x as int, position.y as int, position.z as int),
    {
        proof {
            assert(position.y * 32 <= position.y * 1024) by (nonlinear_arith);
        }
        position.x + (position.z * Self::WIDTH) + (position.y * Self::WIDTH * Self::DEPTH)
    }

    /// The voxel at a local position, or `None` where the voxel array holds none.
    pub fn get_block(&self, position: Point3<usize>) -> (r: Option<&Voxel>)
        requires
            linear_index(position.x as int, position.y as int, position.z as int) <= usize::MAX,
        ensures
            r matches Some(v) ==> self.block(position.x as int, position.y as int, position.z as int)
                == Some(*v),
            r is None ==> self.block(position.x as int, position.y as int, position.z as int) is None,
    {
        let i = Self::index(position);
        if i < self.voxels.len() {
            Some(&self.voxels[i])
        } else {
            None
        }
    }
}

impl Clone for Chunk {
    fn clone(&self) -> (c: Self)
        ensures
            c.voxels@ == self.voxels@,
            c.position == self.position,
    {
        Chunk { voxels: self.voxels.clone(), position: self.position }
    }
}

/// A chunk together with the four chunks that share a side with it, used to look up
/// voxels just across the chunk's borders.
pub struct ChunkNeighbors<'a> {
    pub center: &'a Chunk,
    pub north: Option<&'a Chunk>,
    pub south: Option<&'a Chunk>,
    pub east: Option<&'a Chunk>,
    pub west: Option<&'a Chunk>,
}

impl<'a> ChunkNeighbors<'a> {
    /// The chunk that holds the cell at local column `(x, z)`: the west chunk left of
    /// the center, the east one right of it, then the south and north chunks.
    pub open spec fn chunk_for(&self, x: int, z: int) -> Option<&'a Chunk> {
        if x < 0 {
            self.west
        } else if x >= CHUNK_WIDTH {
            self.east
        } else if z < 0 {
            self.south
        } else if z >= CHUNK_DEPTH {
            self.north
        } else {
            Some(self.center)
        }
    }

    /// The voxel at a position given relative to the center chunk's origin: air
    /// above or below the world, where no chunk is known, or where the chunk's voxel
    /// array holds nothing.
    pub open spec fn voxel_at(&self, x: int, y: int, z: int) -> Voxel {
        if y < 0 || y >= CHUNK_HEIGHT {
            Voxel::Air
        } else {
            match self.chunk_for(x, z) {
                None => Voxel::Air,
                Some(c) => match c.block(x % (CHUNK_WIDTH as int), y, z % (CHUNK_DEPTH as int)) {
                    Some(v) => v,
                    None => Voxel::Air,
                },
            }
        }
    }

    /// Inside the center chunk's bounds, the lookup reads the center chunk.
    pub proof fn lemma_inside_reads_center(&self, x: int, y: int, z: int)
        requires
            in_chunk_bounds(x, y, z),
        ensures
            self.voxel_at(x, y, z) == match self.center.block(x, y, z) {
                Some(v) => v,
                None => Voxel::Air,
            },
    {
        vstd::arithmetic::div_mod::lemma_fundamental_div_mod_converse(x, 32, 0, x);
        vstd::arithmetic::div_mod::lemma_fundamental_div_mod_converse(z, 32, 0, z);
    }

    pub fn get_voxel(&self, x: i32, y: i32, z: i32) -> (v: Voxel)
        ensures
            v == self.voxel_at(x as int, y as int, z as int),
    {
        if y < 0 || y >= Chunk::HEIGHT as i32 {
            return Voxel::Air;
        }
        let chunk = if x < 0 {
            self.west
        } else if x >= Chunk::WIDTH as i32 {
            self.east
        } else if z < 0 {
            self.south
        } else if z >= Chunk::DEPTH as i32 {
            self.north
        } else {
            Some(self.center)
        };
        match chunk {
            None => Voxel::Air,
            Some(c) => {
                let local_x = match x.checked_rem_euclid(Chunk::WIDTH as i32) {
                    Some(r) => r as usize,
                    None => 0,
                };
                let local_z = match z.checked_rem_euclid(Chunk::DEPTH as i32) {
                    Some(r) => r as usize,
                    None => 0,
                };
                assert(local_x < 32 && local_z < 32);
                match c.get_block(Point3::new(local_x, y as usize, local_z)) {
                    Some(v) => *v,
                    None => Voxel::Air,
                }
            },
        }
    }
}

} // verus!
