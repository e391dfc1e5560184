use vstd::prelude::*;

use crate::chunk::{in_chunk_bounds, Chunk, ChunkNeighbors, CHUNK_DEPTH, CHUNK_HEIGHT, CHUNK_SIZE, CHUNK_WIDTH};
use crate::geometry::{Point3, Vector3};
use crate::voxel::Voxel;

verus! {

/// The six sides of a cube.
#[derive(Clone, Copy, Debug, PartialEq, Eq, Structural)]
pub enum Face {
    Front,
    Back,
    Left,
    Right,
    Top,
    Bottom,
}

/// All sides of a cube, in the order in which meshing visits them.
pub const ALL_FACES: [Face; 6] = [Face::Front, Face::Back, Face::Left, Face::Right, Face::Top, Face::Bottom];

/// The side of a cube at position `f` of `ALL_FACES`.
pub open spec fn face_at(f: int) -> Face {
    if f == 0 {
        Face::Front
    } else if f == 1 {
        Face::Back
    } else if f == 2 {
        Face::Left
    } else if f == 3 {
        Face::Right
    } else if f == 4 {
        Face::Top
    } else {
        Face::Bottom
    }
}

/// The unit offset to the cell that a side of a cube faces: front is +z, back -z,
/// left -x, right +x, top +y and bottom -y.
pub open spec fn face_normal(face: Face) -> (int, int, int) {
    match face {
        Face::Front => (0, 0, 1),
        Face::Back => (0, 0, -1),
        Face::Left => (-1, 0, 0),
        Face::Right => (1, 0, 0),
        Face::Top => (0, 1, 0),
        Face::Bottom => (0, -1, 0),
    }
}

impl Face {
    /// The unit offset to the cell that this side faces.
    pub fn normal(&self) -> (n: Vector3<i32>)
        ensures
            (n.x as int, n.y as int, n.z as int) == face_normal(*self),
    {
        match self {
            Face::Front => Vector3::new(0, 0, 1),
            Face::Back => Vector3::new(0, 0, -1),
            Face::Left => Vector3::new(-1, 0, 0),
            Face::Right => Vector3::new(1, 0, 0),
            Face::Top => Vector3::new(0, 1, 0),
            Face::Bottom => Vector3::new(0, -1, 0),
        }
    }
}

/// A side of a solid cell that borders air and so is drawn: the cell's local position,
/// the side, and the cell's material.
#[derive(Clone, Copy, Debug, PartialEq, Eq, Structural)]
pub struct VisibleFace {
    pub x: usize,
    pub y: usize,
    pub z: usize,
    pub face: Face,
    pub voxel: Voxel,
}

/// The number of (cell, side) pairs of a chunk.
pub open spec fn candidate_count() -> int {
    CHUNK_SIZE * 6
}

/// The `k`-th (cell, side) pair in meshing order: x slowest, then y, then z, then the
/// side in `ALL_FACES` order; the material is the chunk's voxel there, air where the
/// chunk holds none.
pub open spec fn candidate(chunk: Chunk, k: int) -> VisibleFace {
    let c = k / 6;
    let z = c % (CHUNK_DEPTH as int);
    let r = c / (CHUNK_DEPTH as int);
    let y = r % (CHUNK_HEIGHT as int);
    let x = r / (CHUNK_HEIGHT as int);
    VisibleFace {
        x: x as usize,
        y: y as usize,
        z: z as usize,
        face: face_at(k % 6),
        voxel: match chunk.block(x, y, z) {
            Some(v) => v,
            None => Voxel::Air,
        },
    }
}

/// Whether a (cell, side) pair is drawn: the cell holds a solid voxel of `chunk` and
/// the cell it faces, looked up through `neighbors`, is air.
pub open spec fn face_visible(chunk: Chunk, neighbors: ChunkNeighbors, f: VisibleFace) -> bool {
    let n = face_normal(f.face);
    &&& chunk.block(f.x as int, f.y as int, f.z as int) == Some(f.voxel)
    &&& f.voxel != Voxel::Air
    &&& neighbors.voxel_at(f.x + n.0, f.y + n.1, f.z + n.2) == Voxel::Air
}

/// All (cell, side) pairs of `chunk` in meshing order.
pub open spec fn candidates(chunk: Chunk) -> Seq<VisibleFace> {
    Seq::new(candidate_count() as nat, |k: int| candidate(chunk, k))
}

/// The drawing test of `face_visible` for `chunk` and `neighbors`.
pub open spec fn visible_pred(chunk: Chunk, neighbors: ChunkNeighbors) -> spec_fn(VisibleFace) -> bool {
    |f: VisibleFace| face_visible(chunk, neighbors, f)
}

/// The drawn sides of the cells of `chunk`, in meshing order.
pub open spec fn visible_faces_spec(chunk: Chunk, neighbors: ChunkNeighbors) -> Seq<VisibleFace> {
    candidates(chunk).filter(visible_pred(chunk, neighbors))
}

/// The corner of a quad that position `j` (0 to 5) of its two triangles uses: the
/// triangles are (0, 1, 2) and (0, 2, 3).
pub open spec fn quad_corner(j: int) -> int {
    if j == 0 {
        0
    } else if j == 1 {
        1
    } else if j == 2 {
        2
    } else if j == 3 {
        0
    } else if j == 4 {
        2
    } else {
        3
    }
}

/// The `j`-th index of a mesh with one pair of triangles per quad: quad `j / 6` owns
/// vertices `4 * (j / 6)` to `4 * (j / 6) + 3`.
pub open spec fn quad_index_at(j: int) -> int {
    4 * (j / 6) + quad_corner(j % 6)
}

/// The `j`-th index of a chunk mesh, which lists the pair of triangles of each quad
/// four times: quad `j / 24` owns vertices `4 * (j / 24)` to `4 * (j / 24) + 3`.
pub open spec fn chunk_index_at(j: int) -> int {
    4 * (j / 24) + quad_corner(j % 6)
}

/// Decoding the meshing position of a (cell, side) pair gives back that cell and side.
proof fn lemma_candidate_decode(x: int, y: int, z: int, f: int)
    requires
        0 <= x < CHUNK_WIDTH,
        0 <= y < CHUNK_HEIGHT,
        0 <= z < CHUNK_DEPTH,
        0 <= f < 6,
    ensures
        ({
            let k = ((x * CHUNK_HEIGHT + y) * CHUNK_DEPTH + z) * 6 + f;
            &&& 0 <= k < candidate_count()
            &&& k / 6 == (x * CHUNK_HEIGHT + y) * CHUNK_DEPTH + z
            &&& k % 6 == f
            &&& (k / 6) % (CHUNK_DEPTH as int) == z
            &&& (k / 6) / (CHUNK_DEPTH as int) == x * CHUNK_HEIGHT + y
            &&& ((k / 6) / (CHUNK_DEPTH as int)) % (CHUNK_HEIGHT as int) == y
            &&& ((k / 6) / (CHUNK_DEPTH as int)) / (CHUNK_HEIGHT as int) == x
        }),
{
    let r = x * 128 + y;
    let c = r * 32 + z;
    let k = c * 6 + f;
    assert(0 <= r < 4096) by (nonlinear_arith)
        requires
            r == x * 128 + y,
            0 <= x < 32,
            0 <= y < 128,
    ;
    assert(0 <= c < 131072) by (nonlinear_arith)
        requires
            c == r * 32 + z,
            0 <= r < 4096,
            0 <= z < 32,
    ;
    assert(0 <= k < 786432) by (nonlinear_arith)
        requires
            k == c * 6 + f,
            0 <= c < 131072,
            0 <= f < 6,
    ;
    vstd::arithmetic::div_mod::lemma_fundamental_div_mod_converse(k, 6, c, f);
    vstd::arithmetic::div_mod::lemma_fundamental_div_mod_converse(c, 32, r, z);
    vstd::arithmetic::div_mod::lemma_fundamental_div_mod_converse(r, 128, x, y);
}

/// The six (cell, side) pairs of cell `(x, y, z)` follow each other in meshing order.
proof fn lemma_cell_candidates(chunk: Chunk, x: int, y: int, z: int)
    requires
        0 <= x < CHUNK_WIDTH,
        0 <= y < CHUNK_HEIGHT,
        0 <= z < CHUNK_DEPTH,
    ensures
        ({
            let base = ((x * CHUNK_HEIGHT + y) * CHUNK_DEPTH + z) * 6;
            &&& base + 6 <= candidate_count()
            &&& forall|f: int|
                0 <= f < 6 ==> #[trigger] candidates(chunk)[base + f] == (VisibleFace {
                    x: x as usize,
                    y: y as usize,
                    z: z as usize,
                    face: face_at(f),
                    voxel: match chunk.block(x, y, z) {
                        Some(v) => v,
                        None => Voxel::Air,
                    },
                })
        }),
{
    let base = ((x * CHUNK_HEIGHT + y) * CHUNK_DEPTH + z) * 6;
    assert forall|f: int| 0 <= f < 6 implies #[trigger] candidates(chunk)[base + f] == (
    VisibleFace {
        x: x as usize,
        y: y as usize,
        z: z as usize,
        face: face_at(f),
        voxel: match chunk.block(x, y, z) {
            Some(v) => v,
            None => Voxel::Air,
        },
    }) by {
        lemma_candidate_decode(x, y, z, f);
    }
    lemma_candidate_decode(x, y, z, 5);
}

/// Skipping `n` elements that the predicate rejects leaves the filtered prefix as it
/// was.
proof fn lemma_take_filter_skip<A>(s: Seq<A>, k: int, n: int, pred: spec_fn(A) -> bool)
    requires
        0 <= k,
        0 <= n,
        k + n <= s.len(),
        forall|j: int| k <= j < k + n ==> !pred(#[trigger] s[j]),
    ensures
        s.take(k + n).filter(pred) == s.take(k).filter(pred),
    decreases n,
{
    if n > 0 {
        lemma_take_filter_skip(s, k, n - 1, pred);
        crate::seqs::lemma_take_filter_step(s, k + n - 1, pred);
    }
}

/// Appends the drawn sides of cell `(x, y, z)` of `chunk` to `faces`, which holds the
/// drawn sides of the cells before it in meshing order.
#[verifier::spinoff_prover]
#[verifier::rlimit(40)]
fn push_cell_faces(
    chunk: &Chunk,
    neighbors: &ChunkNeighbors,
    x: usize,
    y: usize,
    z: usize,
    faces: &mut Vec<VisibleFace>,
)
    requires
        x < CHUNK_WIDTH,
        y < CHUNK_HEIGHT,
        z < CHUNK_DEPTH,
        old(faces)@ == candidates(*chunk).take(((x * CHUNK_HEIGHT + y) * CHUNK_DEPTH + z) * 6).filter(
            visible_pred(*chunk, *neighbors),
        ),
    ensures
        final(faces)@ == candidates(*chunk).take(((x * CHUNK_HEIGHT + y) * CHUNK_DEPTH + z) * 6 + 6).filter(
            visible_pred(*chunk, *neighbors),
        ),
{
    let ghost cands = candidates(*chunk);
    let ghost pred = visible_pred(*chunk, *neighbors);
    let ghost base = ((x * CHUNK_HEIGHT + y) * CHUNK_DEPTH + z) * 6;
    proof {
        lemma_cell_candidates(*chunk, x as int, y as int, z as int);
    }
    let block = match chunk.get_block(Point3::new(x, y, z)) {
        Some(b) => *b,
        None => Voxel::Air,
    };
    if block == Voxel::Air {
        proof {
            lemma_take_filter_skip(cands, base, 6, pred);
        }
    } else {
        let mut f: usize = 0;
        while f < 6
            invariant
                cands == candidates(*chunk),
                pred == visible_pred(*chunk, *neighbors),
                x < CHUNK_WIDTH,
                y < CHUNK_HEIGHT,
                z < CHUNK_DEPTH,
                f <= 6,
                base == ((x * CHUNK_HEIGHT + y) * CHUNK_DEPTH + z) * 6,
                base + 6 <= candidate_count(),
                block != Voxel::Air,
                chunk.block(x as int, y as int, z as int) == Some(block),
                forall|f: int|
                    0 <= f < 6 ==> #[trigger] cands[base + f] == (VisibleFace {
                        x,
                        y,
                        z,
                        face: face_at(f),
                        voxel: block,
                    }),
                faces@ == cands.take(base + f).filter(pred),
            decreases 6 - f,
        {
            let face = ALL_FACES[f];
            assert(face == face_at(f as int));
            let nv = face.normal();
            let nx = x as i32 + nv.x;
            let ny = y as i32 + nv.y;
            let nz = z as i32 + nv.z;
            proof {
                crate::seqs::lemma_take_filter_step(cands, base + f, pred);
            }
            if neighbors.get_voxel(nx, ny, nz) == Voxel::Air {
                faces.push(VisibleFace { x, y, z, face, voxel: block });
            }
            f += 1;
        }
    }
}

/// The drawn sides of the cells of `chunk`, whose neighbor cells are looked up through
/// `neighbors`, in meshing order.
fn visible_faces(chunk: &Chunk, neighbors: &ChunkNeighbors) -> (faces: Vec<VisibleFace>)
    ensures
        faces@ == visible_faces_spec(*chunk, *neighbors),
        faces@.len() <= candidate_count(),
{
    let ghost cands = candidates(*chunk);
    let ghost pred = visible_pred(*chunk, *neighbors);
    let mut faces: Vec<VisibleFace> = Vec::new();
    proof {
        crate::seqs::lemma_take_zero_filter(cands, pred);
    }
    let mut x: usize = 0;
    while x < Chunk::WIDTH
        invariant
            cands == candidates(*chunk),
            pred == visible_pred(*chunk, *neighbors),
            x <= CHUNK_WIDTH,
            faces@ == cands.take(x * CHUNK_HEIGHT * CHUNK_DEPTH * 6).filter(pred),
        decreases CHUNK_WIDTH - x,
    {
        let mut y: usize = 0;
        while y < Chunk::HEIGHT
            invariant
                cands == candidates(*chunk),
                pred == visible_pred(*chunk, *neighbors),
                x < CHUNK_WIDTH,
                y <= CHUNK_HEIGHT,
                faces@ == cands.take((x * CHUNK_HEIGHT + y) * CHUNK_DEPTH * 6).filter(pred),
            decreases CHUNK_HEIGHT - y,
        {
            let mut z: usize = 0;
            while z < Chunk::DEPTH
                invariant
                    cands == candidates(*chunk),
                    pred == visible_pred(*chunk, *neighbors),
                    x < CHUNK_WIDTH,
                    y < CHUNK_HEIGHT,
                    z <= CHUNK_DEPTH,
                    faces@ == cands.take(((x * CHUNK_HEIGHT + y) * CHUNK_DEPTH + z) * 6).filter(
                        pred,
                    ),
                decreases CHUNK_DEPTH - z,
            {
                push_cell_faces(chunk, neighbors, x, y, z, &mut faces);
                z += 1;
            }
            y += 1;
        }
        x += 1;
    }
    proof {
        assert(x * CHUNK_HEIGHT * CHUNK_DEPTH * 6 == candidate_count());
        assert(cands.take(candidate_count()) =~= cands);
        cands.lemma_filter_len(pred);
    }
    faces
}

/// A face is listed by meshing exactly when it is one of the chunk's (cell, side)
/// pairs, its cell is solid and the cell it faces is air.
pub proof fn lemma_visible_face_members(chunk: Chunk, neighbors: ChunkNeighbors, f: VisibleFace)
    ensures
        visible_faces_spec(chunk, neighbors).contains(f) <==> (candidates(chunk).contains(f)
            && face_visible(chunk, neighbors, f)),
{
    crate::seqs::lemma_filter_member(candidates(chunk), visible_pred(chunk, neighbors), f);
}

/// The side `face` of the cell at local position `(x, y, z)` holding `v`.
pub open spec fn side_of(x: int, y: int, z: int, face: Face, v: Voxel) -> VisibleFace {
    VisibleFace { x: x as usize, y: y as usize, z: z as usize, face, voxel: v }
}

/// Whether meshing lists side `face` of the cell at `(x, y, z)` holding `v`.
pub open spec fn side_listed(
    chunk: Chunk,
    neighbors: ChunkNeighbors,
    x: int,
    y: int,
    z: int,
    face: Face,
    v: Voxel,
) -> bool {
    visible_faces_spec(chunk, neighbors).contains(side_of(x, y, z, face, v))
}

/// A side of a solid cell is drawn exactly when the cell one step outward from it is
/// air: the front looks at `z + 1`, the back at `z - 1`, the left at `x - 1`, the right
/// at `x + 1`, the top at `y + 1` and the bottom at `y - 1`. A side against any solid
/// voxel (sandstone, cactus or dead wood) is culled.
pub proof fn lemma_side_drawn_iff_outward_air(
    chunk: Chunk,
    neighbors: ChunkNeighbors,
    x: int,
    y: int,
    z: int,
    v: Voxel,
)
    requires
        in_chunk_bounds(x, y, z),
        chunk.block(x, y, z) == Some(v),
        v != Voxel::Air,
    ensures
        side_listed(chunk, neighbors, x, y, z, Face::Front, v) <==> neighbors.voxel_at(x, y, z + 1)
            == Voxel::Air,
        side_listed(chunk, neighbors, x, y, z, Face::Back, v) <==> neighbors.voxel_at(x, y, z - 1)
            == Voxel::Air,
        side_listed(chunk, neighbors, x, y, z, Face::Left, v) <==> neighbors.voxel_at(x - 1, y, z)
            == Voxel::Air,
        side_listed(chunk, neighbors, x, y, z, Face::Right, v) <==> neighbors.voxel_at(x + 1, y, z)
            == Voxel::Air,
        side_listed(chunk, neighbors, x, y, z, Face::Top, v) <==> neighbors.voxel_at(x, y + 1, z)
            == Voxel::Air,
        side_listed(chunk, neighbors, x, y, z, Face::Bottom, v) <==> neighbors.voxel_at(x, y - 1, z)
            == Voxel::Air,
{
    lemma_cell_candidates(chunk, x, y, z);
    let base = ((x * CHUNK_HEIGHT + y) * CHUNK_DEPTH + z) * 6;
    let c = candidates(chunk);
    assert(c[base + 0] == side_of(x, y, z, Face::Front, v));
    assert(c[base + 1] == side_of(x, y, z, Face::Back, v));
    assert(c[base + 2] == side_of(x, y, z, Face::Left, v));
    assert(c[base + 3] == side_of(x, y, z, Face::Right, v));
    assert(c[base + 4] == side_of(x, y, z, Face::Top, v));
    assert(c[base + 5] == side_of(x, y, z, Face::Bottom, v));
    lemma_visible_face_members(chunk, neighbors, side_of(x, y, z, Face::Front, v));
    lemma_visible_face_members(chunk, neighbors, side_of(x, y, z, Face::Back, v));
    lemma_visible_face_members(chunk, neighbors, side_of(x, y, z, Face::Left, v));
    lemma_visible_face_members(chunk, neighbors, side_of(x, y, z, Face::Right, v));
    lemma_visible_face_members(chunk, neighbors, side_of(x, y, z, Face::Top, v));
    lemma_visible_face_members(chunk, neighbors, side_of(x, y, z, Face::Bottom, v));
}

/// Inside a chunk whose neighbors are centered on it, a side of a solid cell is drawn
/// exactly when the chunk holds air in the cell next to it; in particular the top of a
/// solid cell under a solid cell is never drawn, nor the bottom of a solid cell over one.
pub proof fn lemma_inner_side_culling(
    chunk: Chunk,
    neighbors: ChunkNeighbors,
    x: int,
    y: int,
    z: int,
    v: Voxel,
)
    requires
        *neighbors.center == chunk,
        in_chunk_bounds(x, y, z),
        chunk.block(x, y, z) == Some(v),
        v != Voxel::Air,
    ensures
        z + 1 < CHUNK_DEPTH ==> (side_listed(chunk, neighbors, x, y, z, Face::Front, v)
            <==> chunk.block(x, y, z + 1) == Some(Voxel::Air) || chunk.block(x, y, z + 1) is None),
        z > 0 ==> (side_listed(chunk, neighbors, x, y, z, Face::Back, v)
            <==> chunk.block(x, y, z - 1) == Some(Voxel::Air) || chunk.block(x, y, z - 1) is None),
        x > 0 ==> (side_listed(chunk, neighbors, x, y, z, Face::Left, v)
            <==> chunk.block(x - 1, y, z) == Some(Voxel::Air) || chunk.block(x - 1, y, z) is None),
        x + 1 < CHUNK_WIDTH ==> (side_listed(chunk, neighbors, x, y, z, Face::Right, v)
            <==> chunk.block(x + 1, y, z) == Some(Voxel::Air) || chunk.block(x + 1, y, z) is None),
        y + 1 < CHUNK_HEIGHT ==> (side_listed(chunk, neighbors, x, y, z, Face::Top, v)
            <==> chunk.block(x, y + 1, z) == Some(Voxel::Air) || chunk.block(x, y + 1, z) is None),
        y > 0 ==> (side_listed(chunk, neighbors, x, y, z, Face::Bottom, v)
            <==> chunk.block(x, y - 1, z) == Some(Voxel::Air) || chunk.block(x, y - 1, z) is None),
{
    lemma_side_drawn_iff_outward_air(chunk, neighbors, x, y, z, v);
    if z + 1 < CHUNK_DEPTH {
        neighbors.lemma_inside_reads_center(x, y, z + 1);
    }
    if z > 0 {
        neighbors.lemma_inside_reads_center(x, y, z - 1);
    }
    if x > 0 {
        neighbors.lemma_inside_reads_center(x - 1, y, z);
    }
    if x + 1 < CHUNK_WIDTH {
        neighbors.lemma_inside_reads_center(x + 1, y, z);
    }
    if y + 1 < CHUNK_HEIGHT {
        neighbors.lemma_inside_reads_center(x, y + 1, z);
    }
    if y > 0 {
        neighbors.lemma_inside_reads_center(x, y - 1, z);
    }
}

/// Pushes the index list of quad `q`: its two triangles (0, 1, 2) and (0, 2, 3).
fn push_quad(indices: &mut Vec<u32>, q: u32)
    requires
        4 * q + 3 <= u32::MAX,
    ensures
        final(indices)@ == old(indices)@ + seq![
            4 * q,
            4 * q + 1,
            4 * q + 2,
            4 * q,
            4 * q + 2,
            4 * q + 3,
        ].map_values(|v: int| v as u32),
{
    let idx = 4 * q;
    indices.push(idx);
    indices.push(idx + 1);
    indices.push(idx + 2);
    indices.push(idx);
    indices.push(idx + 2);
    indices.push(idx + 3);
    assert(final(indices)@ =~= old(indices)@ + seq![
        4 * q,
        4 * q + 1,
        4 * q + 2,
        4 * q,
        4 * q + 2,
        4 * q + 3,
    ].map_values(|v: int| v as u32));
}

/// The index list of a chunk mesh of `face_count` quads: the two triangles of each
/// quad, listed four times in a row.
pub fn chunk_mesh_indices(face_count: usize) -> (indices: Vec<u32>)
    requires
        4 * face_count + 3 <= u32::MAX,
    ensures
        indices@.len() == 24 * face_count,
        forall|j: int| 0 <= j < indices@.len() ==> #[trigger] indices@[j] == chunk_index_at(j),
        forall|j: int| 0 <= j < indices@.len() ==> #[trigger] indices@[j] < 4 * face_count,
{
    let mut indices: Vec<u32> = Vec::new();
    let mut q: usize = 0;
    while q < face_count
        invariant
            4 * face_count + 3 <= u32::MAX,
            q <= face_count,
            indices@.len() == 24 * q,
            forall|j: int| 0 <= j < indices@.len() ==> #[trigger] indices@[j] == chunk_index_at(j),
        decreases face_count - q,
    {
        let mut rep: usize = 0;
        while rep < 4
            invariant
                4 * face_count + 3 <= u32::MAX,
                q < face_count,
                rep <= 4,
                indices@.len() == 24 * q + 6 * rep,
                forall|j: int|
                    0 <= j < indices@.len() ==> #[trigger] indices@[j] == chunk_index_at(j),
            decreases 4 - rep,
        {
            let ghost start = indices@.len();
            push_quad(&mut indices, q as u32);
            proof {
                assert forall|c: int| 0 <= c < 6 implies #[trigger] indices@[start + c]
                    == chunk_index_at(start + c) by {
                    vstd::arithmetic::div_mod::lemma_fundamental_div_mod_converse(
                        start + c,
                        24,
                        q as int,
                        6 * rep + c,
                    );
                    vstd::arithmetic::div_mod::lemma_fundamental_div_mod_converse(
                        start + c,
                        6,
                        4 * q + rep,
                        c,
                    );
                }
                assert forall|j: int| 0 <= j < indices@.len() implies #[trigger] indices@[j]
                    == chunk_index_at(j) by {
                    if j >= start {
                        assert(indices@[start + (j - start)] == chunk_index_at(start + (j - start)));
                    }
                }
            }
            rep += 1;
        }
        q += 1;
    }
    proof {
        assert forall|j: int| 0 <= j < indices@.len() implies #[trigger] indices@[j] < 4
            * face_count by {
            vstd::arithmetic::div_mod::lemma_fundamental_div_mod(j, 24);
            vstd::arithmetic::div_mod::lemma_fundamental_div_mod(j, 6);
            assert(j / 24 < face_count) by (nonlinear_arith)
                requires
                    0 <= j < 24 * face_count,
                    j == 24 * (j / 24) + j % 24,
                    0 <= j % 24 < 24,
            ;
        }
    }
    indices
}

/// The index list of a mesh of `face_count` quads: the two triangles of each quad.
pub fn quad_indices(face_count: usize) -> (indices: Vec<u32>)
    requires
        4 * face_count + 3 <= u32::MAX,
    ensures
        indices@.len() == 6 * face_count,
        forall|j: int| 0 <= j < indices@.len() ==> #[trigger] indices@[j] == quad_index_at(j),
        forall|j: int| 0 <= j < indices@.len() ==> #[trigger] indices@[j] < 4 * face_count,
{
    let mut indices: Vec<u32> = Vec::new();
    let mut q: usize = 0;
    while q < face_count
        invariant
            4 * face_count + 3 <= u32::MAX,
            q <= face_count,
            indices@.len() == 6 * q,
            forall|j: int| 0 <= j < indices@.len() ==> #[trigger] indices@[j] == quad_index_at(j),
        decreases face_count - q,
    {
        let ghost start = indices@.len();
        push_quad(&mut indices, q as u32);
        proof {
            assert forall|c: int| 0 <= c < 6 implies #[trigger] indices@[start + c]
                == quad_index_at(start + c) by {
                vstd::arithmetic::div_mod::lemma_fundamental_div_mod_converse(
                    start + c,
                    6,
                    q as int,
                    c,
                );
            }
            assert forall|j: int| 0 <= j < indices@.len() implies #[trigger] indices@[j]
                == quad_index_at(j) by {
                if j >= start {
                    assert(indices@[start + (j - start)] == quad_index_at(start + (j - start)));
                }
            }
        }
        q += 1;
    }
    proof {
        assert forall|j: int| 0 <= j < indices@.len() implies #[trigger] indices@[j] < 4
            * face_count by {
            vstd::arithmetic::div_mod::lemma_fundamental_div_mod(j, 6);
            assert(j / 6 < face_count) by (nonlinear_arith)
                requires
                    0 <= j < 6 * face_count,
                    j == 6 * (j / 6) + j % 6,
                    0 <= j % 6 < 6,
            ;
        }
    }
    indices
}

/// The mesh layout of the center chunk of `neighbors`: its drawn faces in meshing order
/// and the chunk mesh index list over four vertices per face.
pub fn generate_chunk_mesh(neighbors: &ChunkNeighbors) -> (mesh: (Vec<VisibleFace>, Vec<u32>))
    ensures
        mesh.0@ == visible_faces_spec(*neighbors.center, *neighbors),
        mesh.1@.len() == 24 * mesh.0@.len(),
        forall|j: int| 0 <= j < mesh.1@.len() ==> #[trigger] mesh.1@[j] == chunk_index_at(j),
        forall|j: int| 0 <= j < mesh.1@.len() ==> #[trigger] mesh.1@[j] < 4 * mesh.0@.len(),
{
    let faces = visible_faces(neighbors.center, neighbors);
    let indices = chunk_mesh_indices(faces.len());
    (faces, indices)
}

/// Something that can be turned into a mesh.
pub enum RenderItem<'a> {
    Chunk(&'a Chunk, &'a ChunkNeighbors<'a>),
}

impl<'a> RenderItem<'a> {
    /// The mesh layout of the item: the drawn faces of the chunk, whose neighbor cells
    /// are looked up through the neighbors, in meshing order, and the index list with
    /// one pair of triangles per face.
    pub fn generate_mesh(&self) -> (mesh: (Vec<VisibleFace>, Vec<u32>))
        ensures
            match *self {
                RenderItem::Chunk(chunk, neighbors) => {
                    &&& mesh.0@ == visible_faces_spec(*chunk, *neighbors)
                    &&& mesh.1@.len() == 6 * mesh.0@.len()
                    &&& forall|j: int|
                        0 <= j < mesh.1@.len() ==> #[trigger] mesh.1@[j] == quad_index_at(j)
                    &&& forall|j: int|
                        0 <= j < mesh.1@.len() ==> #[trigger] mesh.1@[j] < 4 * mesh.0@.len()
                },
            },
    {
        match self {
            RenderItem::Chunk(chunk, neighbors) => {
                let faces = visible_faces(chunk, neighbors);
                let indices = quad_indices(faces.len());
                (faces, indices)
            },
        }
    }
}

} // verus!
