use std::collections::{HashMap, HashSet};
use std::sync::Arc;

use vstd::prelude::*;

use crate::chunk::{Chunk, ChunkNeighbors, CHUNK_DEPTH, CHUNK_HEIGHT, CHUNK_WIDTH};
use crate::generator::Generator;
use crate::geometry::Point3;
use crate::voxel::Voxel;

verus! {

broadcast use vstd::std_specs::hash::group_hash_axioms;

/// The hash key under which the chunk whose origin is at world column `(x, z)` is
/// stored. Every pair of `i32`s gets its own `i64`.
pub open spec fn chunk_key_spec(x: i32, z: i32) -> i64 {
    (x as int * 0x1_0000_0000 + (z as int + 0x8000_0000)) as i64
}

/// Computes the hash key of a chunk origin.
pub fn chunk_key(x: i32, z: i32) -> (k: i64)
    ensures
        k == chunk_key_spec(x, z),
{
    (x as i64) * 4294967296 + (z as i64 + 2147483648)
}

/// Distinct chunk origins get distinct keys.
pub proof fn lemma_chunk_key_injective(a: (i32, i32), b: (i32, i32))
    requires
        chunk_key_spec(a.0, a.1) == chunk_key_spec(b.0, b.1),
    ensures
        a == b,
{
}

/// Two chunks with the same contents and origin.
pub open spec fn same_chunk(a: Chunk, b: Chunk) -> bool {
    a.voxels@ == b.voxels@ && a.position == b.position
}

/// The world column that is `dx` chunk widths and `dz` chunk depths away.
pub open spec fn offset_coord(c: (i32, i32), dx: int, dz: int) -> (i32, i32) {
    ((c.0 + dx * CHUNK_WIDTH) as i32, (c.1 + dz * CHUNK_DEPTH) as i32)
}

/// The voxel at world position `(x, y, z)` of the loaded chunks `m`: air outside the
/// vertical range, in columns whose chunk is not loaded, and where the chunk's voxel
/// array holds nothing. The chunk is the one whose origin is the position rounded down
/// to a multiple of the chunk's width and depth.
pub open spec fn block_in(m: Map<(i32, i32), Chunk>, x: int, y: int, z: int) -> Voxel {
    let cx = (x / (CHUNK_WIDTH as int)) * (CHUNK_WIDTH as int);
    let cz = (z / (CHUNK_DEPTH as int)) * (CHUNK_DEPTH as int);
    if y < 0 || y >= CHUNK_HEIGHT {
        Voxel::Air
    } else if m.contains_key((cx as i32, cz as i32)) {
        match m[(cx as i32, cz as i32)].block(x - cx, y, z - cz) {
            Some(v) => v,
            None => Voxel::Air,
        }
    } else {
        Voxel::Air
    }
}

/// The chunk origins of the `(2 * radius + 1)`-square of chunks centered on chunk
/// `(cx, cz)`, row by row: the chunk column offset runs slowest, the row offset fastest.
pub open spec fn chunk_grid(cx: int, cz: int, radius: int) -> Seq<(i32, i32)> {
    let w = 2 * radius + 1;
    Seq::new(
        (w * w) as nat,
        |k: int|
            (
                ((cx - radius + k / w) * CHUNK_WIDTH) as i32,
                ((cz - radius + k % w) * CHUNK_DEPTH) as i32,
            ),
    )
}

/// The inputs on which `chunk_grid` stays inside the `i32` range.
pub open spec fn grid_fits(cx: int, cz: int, radius: int) -> bool {
    &&& 0 <= radius
    &&& i32::MIN <= (cx - radius) * CHUNK_WIDTH
    &&& (cx + radius) * CHUNK_WIDTH <= i32::MAX
    &&& i32::MIN <= (cz - radius) * CHUNK_DEPTH
    &&& (cz + radius) * CHUNK_DEPTH <= i32::MAX
}

/// The five columns whose meshes may change when the chunk at `c` arrives: `c` itself,
/// then north, south, east and west of it.
pub open spec fn neighbor_coords_spec(c: (i32, i32)) -> Seq<(i32, i32)> {
    seq![c, offset_coord(c, 0, 1), offset_coord(c, 0, -1), offset_coord(c, 1, 0), offset_coord(c, -1, 0)]
}

/// Whether the chunk at `c` and its four side neighbors are all loaded in `m`.
pub open spec fn has_mesh_neighbors(m: Map<(i32, i32), Chunk>, c: (i32, i32)) -> bool {
    &&& m.contains_key(c)
    &&& m.contains_key(offset_coord(c, 0, 1))
    &&& m.contains_key(offset_coord(c, 0, -1))
    &&& m.contains_key(offset_coord(c, 1, 0))
    &&& m.contains_key(offset_coord(c, -1, 0))
}

/// A chunk and copies of its north, south, east and west neighbors, as handed to
/// mesh generation.
pub open spec fn is_mesh_request(
    m: Map<(i32, i32), Chunk>,
    c: (i32, i32),
    req: (Chunk, [Option<Chunk>; 4]),
) -> bool {
    &&& same_chunk(req.0, m[c])
    &&& req.1[0] matches Some(n) && same_chunk(n, m[offset_coord(c, 0, 1)])
    &&& req.1[1] matches Some(s) && same_chunk(s, m[offset_coord(c, 0, -1)])
    &&& req.1[2] matches Some(e) && same_chunk(e, m[offset_coord(c, 1, 0)])
    &&& req.1[3] matches Some(w) && same_chunk(w, m[offset_coord(c, -1, 0)])
}

/// A chunk origin far enough from the `i32` limits that its neighbors' neighbors exist.
pub open spec fn coord_in_range(c: (i32, i32)) -> bool {
    &&& i32::MIN + 2 * CHUNK_WIDTH <= c.0 <= i32::MAX - 2 * CHUNK_WIDTH
    &&& i32::MIN + 2 * CHUNK_DEPTH <= c.1 <= i32::MAX - 2 * CHUNK_DEPTH
}

/// The chunk origins that `World::get_missing_chunks` requests around chunk
/// `(cx, cz)`: those of the 25 x 25 chunks around it that are neither loaded nor being
/// generated, row by row.
pub open spec fn requested_chunks(w: World, cx: int, cz: int) -> Seq<(i32, i32)> {
    chunk_grid(cx, cz, 12).filter(|c: (i32, i32)| !w.loaded().contains_key(c)).filter(
        |c: (i32, i32)| !w.pending().contains(c),
    )
}

/// The loaded chunks, the chunks whose generation was requested and the generator
/// that produces them.
pub struct World {
    /// Loaded chunks, keyed by `chunk_key` of their origin column.
    pub chunks: HashMap<i64, Chunk>,
    /// Columns whose chunk is being generated, keyed by `chunk_key`.
    pub in_flight: HashSet<i64>,
    pub generator: Arc<Generator>,
}

impl World {
    /// The loaded chunks by origin column.
    pub open spec fn loaded(&self) -> Map<(i32, i32), Chunk> {
        Map::new(
            |c: (i32, i32)| self.chunks@.contains_key(chunk_key_spec(c.0, c.1)),
            |c: (i32, i32)| self.chunks@[chunk_key_spec(c.0, c.1)],
        )
    }

    /// The origin columns whose chunk is being generated.
    pub open spec fn pending(&self) -> Set<(i32, i32)> {
        Set::new(|c: (i32, i32)| self.in_flight@.contains(chunk_key_spec(c.0, c.1)))
    }

    /// The voxel at a world position.
    pub open spec fn block_at(&self, x: int, y: int, z: int) -> Voxel {
        block_in(self.loaded(), x, y, z)
    }

    pub fn new(seed: u32) -> (w: Self)
        ensures
            w.loaded() == Map::<(i32, i32), Chunk>::empty(),
            w.pending() == Set::<(i32, i32)>::empty(),
            w.generator.seed == seed,
    {
        let w = Self {
            chunks: HashMap::new(),
            in_flight: HashSet::new(),
            generator: Arc::new(Generator::new(seed)),
        };
        assert(w.loaded() =~= Map::<(i32, i32), Chunk>::empty());
        assert(w.pending() =~= Set::<(i32, i32)>::empty());
        w
    }

    /// The origins of the chunks within 12 chunks of chunk `(cx, cz)` that are neither
    /// loaded nor being generated, row by row.
    pub fn get_missing_chunks(&mut self, cx: i32, cz: i32) -> (requested: Vec<(i32, i32)>)
        requires
            grid_fits(cx as int, cz as int, 12),
        ensures
            *final(self) == *old(self),
            requested@ == requested_chunks(*old(self), cx as int, cz as int),
    {
        let requested = self.missing_chunks(cx, cz, 12);
        let mut kept: Vec<(i32, i32)> = Vec::new();
        let ghost pred = |c: (i32, i32)| !self.pending().contains(c);
        proof {
            crate::seqs::lemma_take_zero_filter(requested@, pred);
        }
        let mut i: usize = 0;
        while i < requested.len()
            invariant
                0 <= i <= requested@.len(),
                kept@ == requested@.take(i as int).filter(pred),
                pred == (|c: (i32, i32)| !self.pending().contains(c)),
            decreases requested@.len() - i,
        {
            let coord = requested[i];
            proof {
                crate::seqs::lemma_take_filter_step(requested@, i as int, pred);
            }
            if !self.in_flight.contains(&chunk_key(coord.0, coord.1)) {
                kept.push(coord);
            }
            i += 1;
        }
        assert(requested@.take(requested@.len() as int) =~= requested@);
        kept
    }

    /// Records that the chunks at `coords` are being generated.
    pub fn mark_in_flight(&mut self, coords: &[(i32, i32)])
        ensures
            final(self).pending() == old(self).pending() + coords@.to_set(),
            final(self).chunks == old(self).chunks,
            final(self).generator == old(self).generator,
    {
        proof {
            assert(coords@.take(0).to_set() =~= Set::<(i32, i32)>::empty());
            assert(old(self).pending() + Set::<(i32, i32)>::empty() =~= old(self).pending());
        }
        let mut i: usize = 0;
        while i < coords.len()
            invariant
                0 <= i <= coords@.len(),
                self.pending() == old(self).pending() + coords@.take(i as int).to_set(),
                self.chunks == old(self).chunks,
                self.generator == old(self).generator,
            decreases coords@.len() - i,
        {
            let coord = coords[i];
            let ghost prev = self.pending();
            let ghost prev_keys = self.in_flight@;
            self.in_flight.insert(chunk_key(coord.0, coord.1));
            proof {
                assert(self.in_flight@ == prev_keys.insert(chunk_key_spec(coord.0, coord.1)));
                assert forall|c: (i32, i32)| #[trigger] self.pending().contains(c) <==> prev.insert(
                    coord,
                ).contains(c) by {
                    if chunk_key_spec(c.0, c.1) == chunk_key_spec(coord.0, coord.1) {
                        lemma_chunk_key_injective(c, coord);
                    }
                }
                assert(coords@.take(i + 1) =~= coords@.take(i as int).push(coord));
                coords@.take(i as int).lemma_push_to_set_commute(coord);
                assert forall|c: (i32, i32)| #[trigger] self.pending().contains(c) <==> (old(
                    self,
                ).pending() + coords@.take(i + 1).to_set()).contains(c) by {
                    if chunk_key_spec(c.0, c.1) == chunk_key_spec(coord.0, coord.1) {
                        lemma_chunk_key_injective(c, coord);
                    }
                }
                assert(self.pending() =~= old(self).pending() + coords@.take(i + 1).to_set());
            }
            i += 1;
        }
        assert(coords@.take(coords@.len() as int) =~= coords@);
    }

    /// Stores a newly generated chunk, ends its pending generation, and returns a mesh
    /// request for each of the chunk and its four side neighbors whose own four side
    /// neighbors are now all loaded.
    pub fn handle_new_chunk(&mut self, chunk: Chunk) -> (mesh_requests: Vec<
        (Chunk, [Option<Chunk>; 4]),
    >)
        requires
            coord_in_range((chunk.position.x, chunk.position.z)),
        ensures
            ({
                let c = (chunk.position.x, chunk.position.z);
                let ready = neighbor_coords_spec(c).filter(
                    |n: (i32, i32)| has_mesh_neighbors(final(self).loaded(), n),
                );
                &&& final(self).loaded() == old(self).loaded().insert(c, chunk)
                &&& final(self).pending() == old(self).pending().remove(c)
                &&& final(self).generator == old(self).generator
                &&& mesh_requests@.len() == ready.len()
                &&& forall|i: int|
                    0 <= i < ready.len() ==> is_mesh_request(
                        final(self).loaded(),
                        ready[i],
                        #[trigger] mesh_requests@[i],
                    )
            }),
            new_chunk_outcome(*old(self), *final(self), chunk, mesh_requests@),
    {
        let coord = (chunk.position.x, chunk.position.z);
        let key = chunk_key(coord.0, coord.1);
        self.chunks.insert(key, chunk);
        self.in_flight.remove(&key);
        proof {
            assert forall|c: (i32, i32)| #[trigger] self.loaded().contains_key(c)
                <==> old(self).loaded().insert(coord, chunk).contains_key(c) by {
                if chunk_key_spec(c.0, c.1) == key {
                    lemma_chunk_key_injective(c, coord);
                }
            }
            assert(self.loaded() =~= old(self).loaded().insert(coord, chunk));
            assert forall|c: (i32, i32)| #[trigger] self.pending().contains(c)
                <==> old(self).pending().remove(coord).contains(c) by {
                if chunk_key_spec(c.0, c.1) == key {
                    lemma_chunk_key_injective(c, coord);
                }
            }
            assert(self.pending() =~= old(self).pending().remove(coord));
        }
        let neighbors = Self::get_neighbors_coords(coord.0, coord.1);
        let ghost m = self.loaded();
        let ghost pred = |n: (i32, i32)| has_mesh_neighbors(m, n);
        let ghost ns = neighbor_coords_spec(coord);
        let ghost ready = ns.filter(pred);
        let mut mesh_requests: Vec<(Chunk, [Option<Chunk>; 4])> = Vec::new();
        proof {
            crate::seqs::lemma_take_zero_filter(ns, pred);
        }
        let mut i: usize = 0;
        while i < 5
            invariant
                0 <= i <= 5,
                m == self.loaded(),
                ns == neighbor_coords_spec(coord),
                neighbors@ == ns,
                coord_in_range(coord),
                pred == (|n: (i32, i32)| has_mesh_neighbors(m, n)),
                mesh_requests@.len() == ns.take(i as int).filter(pred).len(),
                forall|j: int|
                    0 <= j < mesh_requests@.len() ==> is_mesh_request(
                        m,
                        ns.take(i as int).filter(pred)[j],
                        #[trigger] mesh_requests@[j],
                    ),
            decreases 5 - i,
        {
            let n = neighbors[i];
            proof {
                crate::seqs::lemma_take_filter_step(ns, i as int, pred);
            }
            match self.get_chunk_and_neighbors(n.0, n.1) {
                Some(request) => {
                    mesh_requests.push(request);
                },
                None => {},
            }
            i += 1;
        }
        assert(ns.take(5) =~= ns);
        mesh_requests
    }

    /// The voxel at a world position.
    pub fn get_block_global(&self, x: i32, y: i32, z: i32) -> (v: Voxel)
        ensures
            v == self.block_at(x as int, y as int, z as int),
    {
        if y < 0 || y >= Chunk::HEIGHT as i32 {
            return Voxel::Air;
        }
        let chunk_x = match x.checked_div_euclid(Chunk::WIDTH as i32) {
            Some(q) => q * (Chunk::WIDTH as i32),
            None => 0,
        };
        let chunk_z = match z.checked_div_euclid(Chunk::DEPTH as i32) {
            Some(q) => q * (Chunk::DEPTH as i32),
            None => 0,
        };
        assert(chunk_x as int == (x as int / 32) * 32);
        assert(chunk_z as int == (z as int / 32) * 32);
        match self.chunks.get(&chunk_key(chunk_x, chunk_z)) {
            Some(chunk) => {
                let local_x = (x - chunk_x) as usize;
                let local_z = (z - chunk_z) as usize;
                assert(local_x < 32 && local_z < 32);
                match chunk.get_block(Point3::new(local_x, y as usize, local_z)) {
                    Some(voxel) => *voxel,
                    None => Voxel::Air,
                }
            },
            None => Voxel::Air,
        }
    }

    /// The origins of the chunks of the `(2 * radius + 1)`-square around chunk
    /// `(cx, cz)` that are not loaded, row by row.
    #[verifier::spinoff_prover]
    fn missing_chunks(&self, cx: i32, cz: i32, radius: i32) -> (missing: Vec<(i32, i32)>)
        requires
            grid_fits(cx as int, cz as int, radius as int),
        ensures
            missing@ == chunk_grid(cx as int, cz as int, radius as int).filter(
                |c: (i32, i32)| !self.loaded().contains_key(c),
            ),
    {
        let ghost grid = chunk_grid(cx as int, cz as int, radius as int);
        let ghost pred = |c: (i32, i32)| !self.loaded().contains_key(c);
        let ghost w = 2 * radius + 1;
        let mut missing: Vec<(i32, i32)> = Vec::new();
        let mut dx: i32 = -radius;
        proof {
            crate::seqs::lemma_take_zero_filter(grid, pred);
            assert((dx + radius) * w == 0) by (nonlinear_arith)
                requires
                    dx + radius == 0,
            ;
        }
        while dx <= radius
            invariant
                grid_fits(cx as int, cz as int, radius as int),
                grid == chunk_grid(cx as int, cz as int, radius as int),
                pred == (|c: (i32, i32)| !self.loaded().contains_key(c)),
                w == 2 * radius + 1,
                -radius <= dx <= radius + 1,
                missing@ == grid.take((dx + radius) * w).filter(pred),
            decreases radius + 1 - dx,
        {
            let mut dz: i32 = -radius;
            while dz <= radius
                invariant
                    grid_fits(cx as int, cz as int, radius as int),
                    grid == chunk_grid(cx as int, cz as int, radius as int),
                    pred == (|c: (i32, i32)| !self.loaded().contains_key(c)),
                    w == 2 * radius + 1,
                    -radius <= dx <= radius,
                    -radius <= dz <= radius + 1,
                    missing@ == grid.take((dx + radius) * w + (dz + radius)).filter(pred),
                decreases radius + 1 - dz,
            {
                let coord = ((cx + dx) * (Chunk::WIDTH as i32), (cz + dz) * (Chunk::DEPTH as i32));
                proof {
                    let k = (dx + radius) * w + (dz + radius);
                    assert(0 <= k < w * w) by (nonlinear_arith)
                        requires
                            k == (dx + radius) * w + (dz + radius),
                            0 <= dx + radius < w,
                            0 <= dz + radius < w,
                    ;
                    vstd::arithmetic::div_mod::lemma_fundamental_div_mod_converse(
                        k,
                        w,
                        dx + radius,
                        dz + radius,
                    );
                    assert(grid[k] == coord);
                    crate::seqs::lemma_take_filter_step(grid, k, pred);
                }
                if !self.chunks.contains_key(&chunk_key(coord.0, coord.1)) {
                    missing.push(coord);
                }
                dz += 1;
            }
            proof {
                assert((dx + radius) * w + (radius + 1 + radius) == (dx + 1 + radius) * w)
                    by (nonlinear_arith)
                    requires
                        w == 2 * radius + 1,
                ;
            }
            dx += 1;
        }
        proof {
            assert((radius + 1 + radius) * w == w * w) by (nonlinear_arith)
                requires
                    w == 2 * radius + 1,
            ;
            assert(grid.take(w * w) =~= grid);
        }
        missing
    }

    /// The chunk origins whose meshes may change when the chunk at `(world_x, world_z)`
    /// arrives: the column itself, then north, south, east and west of it.
    fn get_neighbors_coords(world_x: i32, world_z: i32) -> (coords: [(i32, i32); 5])
        requires
            coord_in_range((world_x, world_z)),
        ensures
            coords@ == neighbor_coords_spec((world_x, world_z)),
    {
        let coords = [
            (world_x, world_z),
            (world_x, world_z + Chunk::DEPTH as i32),
            (world_x, world_z - Chunk::DEPTH as i32),
            (world_x + Chunk::WIDTH as i32, world_z),
            (world_x - Chunk::WIDTH as i32, world_z),
        ];
        assert(coords@ =~= neighbor_coords_spec((world_x, world_z)));
        coords
    }

    /// Copies of the chunk at `(world_x, world_z)` and of its north, south, east and
    /// west neighbors, if all five are loaded.
    fn get_chunk_and_neighbors(&self, world_x: i32, world_z: i32) -> (r: Option<
        (Chunk, [Option<Chunk>; 4]),
    >)
        requires
            i32::MIN + CHUNK_WIDTH <= world_x <= i32::MAX - CHUNK_WIDTH,
            i32::MIN + CHUNK_DEPTH <= world_z <= i32::MAX - CHUNK_DEPTH,
        ensures
            r is Some <==> has_mesh_neighbors(self.loaded(), (world_x, world_z)),
            r matches Some(req) ==> is_mesh_request(self.loaded(), (world_x, world_z), req),
    {
        let center = match self.chunks.get(&chunk_key(world_x, world_z)) {
            Some(c) => c,
            None => return None,
        };
        let n = self.chunks.get(&chunk_key(world_x, world_z + Chunk::DEPTH as i32));
        let s = self.chunks.get(&chunk_key(world_x, world_z - Chunk::DEPTH as i32));
        let e = self.chunks.get(&chunk_key(world_x + Chunk::WIDTH as i32, world_z));
        let w = self.chunks.get(&chunk_key(world_x - Chunk::WIDTH as i32, world_z));
        match (n, s, e, w) {
            (Some(n), Some(s), Some(e), Some(w)) => {
                Some((center.clone(), [Some(n.clone()), Some(s.clone()), Some(e.clone()), Some(w.clone())]))
            },
            _ => None,
        }
    }
}

/// What `World::handle_new_chunk` does: `after` is `before` with `chunk` stored and no
/// longer pending, and `requests` holds, in order, a mesh request for each of the
/// chunk and its side neighbors (`neighbor_coords_spec`) whose side neighbors are all
/// loaded.
pub open spec fn new_chunk_outcome(
    before: World,
    after: World,
    chunk: Chunk,
    requests: Seq<(Chunk, [Option<Chunk>; 4])>,
) -> bool {
    let c = (chunk.position.x, chunk.position.z);
    let ready = neighbor_coords_spec(c).filter(|n: (i32, i32)| has_mesh_neighbors(after.loaded(), n));
    &&& after.loaded() == before.loaded().insert(c, chunk)
    &&& after.pending() == before.pending().remove(c)
    &&& after.generator == before.generator
    &&& requests.len() == ready.len()
    &&& forall|i: int|
        0 <= i < ready.len() ==> is_mesh_request(after.loaded(), ready[i], #[trigger] requests[i])
}

/// Whether `o` is the arriving chunk's origin `c` or one of the four origins one
/// chunk north (`z + 32`), south (`z - 32`), east (`x + 32`) or west (`x - 32`) of it.
pub open spec fn beside_or_at(c: (i32, i32), o: (i32, i32)) -> bool {
    ||| o == c
    ||| o == (c.0, (c.1 + 32) as i32)
    ||| o == (c.0, (c.1 - 32) as i32)
    ||| o == ((c.0 + 32) as i32, c.1)
    ||| o == ((c.0 - 32) as i32, c.1)
}

/// Whether `m` holds the chunk at `o` and all four chunks that share a side with it.
pub open spec fn surrounded(m: Map<(i32, i32), Chunk>, o: (i32, i32)) -> bool {
    &&& m.contains_key(o)
    &&& m.contains_key((o.0, (o.1 + 32) as i32))
    &&& m.contains_key((o.0, (o.1 - 32) as i32))
    &&& m.contains_key(((o.0 + 32) as i32, o.1))
    &&& m.contains_key(((o.0 - 32) as i32, o.1))
}

/// Whether `req` carries the chunk that `m` holds at `o` and, in this order, its north
/// (`z + 32`), south (`z - 32`), east (`x + 32`) and west (`x - 32`) neighbors.
pub open spec fn request_for(m: Map<(i32, i32), Chunk>, o: (i32, i32), req: (Chunk, [Option<Chunk>; 4])) -> bool {
    &&& same_chunk(req.0, m[o])
    &&& req.1[0] matches Some(n) && same_chunk(n, m[(o.0, (o.1 + 32) as i32)])
    &&& req.1[1] matches Some(s) && same_chunk(s, m[(o.0, (o.1 - 32) as i32)])
    &&& req.1[2] matches Some(e) && same_chunk(e, m[((o.0 + 32) as i32, o.1)])
    &&& req.1[3] matches Some(w) && same_chunk(w, m[((o.0 - 32) as i32, o.1)])
}

/// When a chunk arrives, the chunks whose meshes may change are exactly the arriving
/// one and the four that share a side with it, five distinct origins; each of them
/// whose four side neighbors are now all loaded gets a mesh request with its own chunk
/// and those neighbors, and every request is such a one.
pub proof fn lemma_new_chunk_mesh_requests(
    before: World,
    after: World,
    chunk: Chunk,
    requests: Seq<(Chunk, [Option<Chunk>; 4])>,
)
    requires
        coord_in_range((chunk.position.x, chunk.position.z)),
        new_chunk_outcome(before, after, chunk, requests),
    ensures
        ({
            let c = (chunk.position.x, chunk.position.z);
            let m = after.loaded();
            &&& neighbor_coords_spec(c) == seq![
                c,
                (c.0, (c.1 + 32) as i32),
                (c.0, (c.1 - 32) as i32),
                ((c.0 + 32) as i32, c.1),
                ((c.0 - 32) as i32, c.1),
            ]
            &&& neighbor_coords_spec(c).no_duplicates()
            &&& forall|o: (i32, i32)|
                beside_or_at(c, o) && #[trigger] surrounded(m, o) ==> exists|i: int|
                    0 <= i < requests.len() && #[trigger] request_for(m, o, requests[i])
            &&& forall|r: (Chunk, [Option<Chunk>; 4])|
                #[trigger] requests.contains(r) ==> exists|o: (i32, i32)|
                    beside_or_at(c, o) && surrounded(m, o) && #[trigger] request_for(m, o, r)
        }),
{
    let c = (chunk.position.x, chunk.position.z);
    let m = after.loaded();
    let ns = neighbor_coords_spec(c);
    let pred = |n: (i32, i32)| has_mesh_neighbors(m, n);
    let ready = ns.filter(pred);
    assert(ns =~= seq![
        c,
        (c.0, (c.1 + 32) as i32),
        (c.0, (c.1 - 32) as i32),
        ((c.0 + 32) as i32, c.1),
        ((c.0 - 32) as i32, c.1),
    ]);
    assert(ns.no_duplicates()) by {
        assert forall|i: int, j: int| 0 <= i < 5 && 0 <= j < 5 && i != j implies ns[i] != ns[j] by {
            assert(ns[0] == c);
            assert(ns[1] == (c.0, (c.1 + 32) as i32));
            assert(ns[2] == (c.0, (c.1 - 32) as i32));
            assert(ns[3] == ((c.0 + 32) as i32, c.1));
            assert(ns[4] == ((c.0 - 32) as i32, c.1));
        }
    }
    assert forall|o: (i32, i32)| #[trigger] has_mesh_neighbors(m, o) <==> surrounded(m, o) by {
        assert(offset_coord(o, 0, 1) == (o.0, (o.1 + 32) as i32));
        assert(offset_coord(o, 0, -1) == (o.0, (o.1 - 32) as i32));
        assert(offset_coord(o, 1, 0) == ((o.0 + 32) as i32, o.1));
        assert(offset_coord(o, -1, 0) == ((o.0 - 32) as i32, o.1));
    }
    assert forall|o: (i32, i32), req: (Chunk, [Option<Chunk>; 4])|
        #[trigger] is_mesh_request(m, o, req) <==> request_for(m, o, req) by {
        assert(offset_coord(o, 0, 1) == (o.0, (o.1 + 32) as i32));
        assert(offset_coord(o, 0, -1) == (o.0, (o.1 - 32) as i32));
        assert(offset_coord(o, 1, 0) == ((o.0 + 32) as i32, o.1));
        assert(offset_coord(o, -1, 0) == ((o.0 - 32) as i32, o.1));
    }
    assert forall|o: (i32, i32)| #[trigger] ns.contains(o) <==> beside_or_at(c, o) by {
        if beside_or_at(c, o) {
            if o == c {
                assert(ns[0] == o);
            } else if o == (c.0, (c.1 + 32) as i32) {
                assert(ns[1] == o);
            } else if o == (c.0, (c.1 - 32) as i32) {
                assert(ns[2] == o);
            } else if o == ((c.0 + 32) as i32, c.1) {
                assert(ns[3] == o);
            } else {
                assert(ns[4] == o);
            }
        }
    }
    assert forall|o: (i32, i32)| beside_or_at(c, o) && #[trigger] surrounded(m, o) implies exists|i: int|
        0 <= i < requests.len() && #[trigger] request_for(m, o, requests[i]) by {
        crate::seqs::lemma_filter_member(ns, pred, o);
        assert(ns.contains(o));
        assert(pred(o));
        assert(ready.contains(o));
        let i = choose|i: int| 0 <= i < ready.len() && ready[i] == o;
        assert(is_mesh_request(m, ready[i], requests[i]));
        assert(request_for(m, o, requests[i]));
    }
    assert forall|r: (Chunk, [Option<Chunk>; 4])| #[trigger] requests.contains(r) implies exists|o: (
        i32,
        i32,
    )| beside_or_at(c, o) && surrounded(m, o) && #[trigger] request_for(m, o, r) by {
        let i = choose|i: int| 0 <= i < requests.len() && requests[i] == r;
        let o = ready[i];
        assert(ready.contains(o));
        crate::seqs::lemma_filter_member(ns, pred, o);
        assert(ns.contains(o));
        assert(beside_or_at(c, o));
        assert(has_mesh_neighbors(m, o));
        assert(surrounded(m, o));
        assert(is_mesh_request(m, o, requests[i]));
        assert(request_for(m, o, r));
    }
}

/// Whether a neighbor slot holds the chunk that `m` stores at origin `k`, and is empty
/// exactly when `m` stores none there.
pub open spec fn slot_matches(m: Map<(i32, i32), Chunk>, k: (i32, i32), slot: Option<&Chunk>) -> bool {
    match slot {
        Some(ch) => m.contains_key(k) && *ch == m[k],
        None => !m.contains_key(k),
    }
}

/// Whether `n` is the chunk at origin `c` of `m` with its north, south, east and west
/// neighbors as `m` stores them.
pub open spec fn neighbors_from(m: Map<(i32, i32), Chunk>, c: (i32, i32), n: ChunkNeighbors) -> bool {
    &&& m.contains_key(c)
    &&& *n.center == m[c]
    &&& slot_matches(m, offset_coord(c, 0, 1), n.north)
    &&& slot_matches(m, offset_coord(c, 0, -1), n.south)
    &&& slot_matches(m, offset_coord(c, 1, 0), n.east)
    &&& slot_matches(m, offset_coord(c, -1, 0), n.west)
}

/// The chunk-origin offset (in chunks) of a coordinate given relative to a chunk
/// origin, for coordinates within one chunk of it.
spec fn chunk_step(l: int) -> int {
    if l < 0 {
        -1
    } else if l < 32 {
        0
    } else {
        1
    }
}

/// Rounding a coordinate near a chunk origin `c` down to a multiple of the chunk width
/// gives the origin of the chunk it falls in, and the remainder is its local coordinate.
proof fn lemma_floor_near_origin(c: int, l: int)
    requires
        c % 32 == 0,
        -32 <= l < 64,
    ensures
        ((c + l) / 32) * 32 == c + 32 * chunk_step(l),
        (c + l) - ((c + l) / 32) * 32 == l % 32,
{
    let q = chunk_step(l);
    let r = l - 32 * q;
    vstd::arithmetic::div_mod::lemma_fundamental_div_mod(c, 32);
    vstd::arithmetic::div_mod::lemma_fundamental_div_mod_converse(c + l, 32, c / 32 + q, r);
    vstd::arithmetic::div_mod::lemma_fundamental_div_mod_converse(l, 32, q, r);
}

/// Looking a cell up through the neighbors of a loaded chunk, as meshing does, gives
/// the world's voxel at that cell, for every cell of the chunk and of the four chunks
/// beside it: a face on a chunk border is culled exactly when the world holds a solid
/// voxel next to it.
pub proof fn lemma_neighbors_agree_with_world(
    w: World,
    c: (i32, i32),
    n: ChunkNeighbors,
    x: int,
    y: int,
    z: int,
)
    requires
        neighbors_from(w.loaded(), c, n),
        (c.0 as int) % (CHUNK_WIDTH as int) == 0,
        (c.1 as int) % (CHUNK_DEPTH as int) == 0,
        i32::MIN + CHUNK_WIDTH <= c.0 <= i32::MAX - CHUNK_WIDTH,
        i32::MIN + CHUNK_DEPTH <= c.1 <= i32::MAX - CHUNK_DEPTH,
        -CHUNK_WIDTH <= x < 2 * CHUNK_WIDTH,
        -CHUNK_DEPTH <= z < 2 * CHUNK_DEPTH,
        0 <= x < CHUNK_WIDTH || 0 <= z < CHUNK_DEPTH,
    ensures
        n.voxel_at(x, y, z) == w.block_at(c.0 + x, y, c.1 + z),
{
    lemma_floor_near_origin(c.0 as int, x);
    lemma_floor_near_origin(c.1 as int, z);
    let m = w.loaded();
    let key = ((c.0 + 32 * chunk_step(x)) as i32, (c.1 + 32 * chunk_step(z)) as i32);
    if x < 0 {
        assert(key == offset_coord(c, -1, 0));
    } else if x >= 32 {
        assert(key == offset_coord(c, 1, 0));
    } else if z < 0 {
        assert(key == offset_coord(c, 0, -1));
    } else if z >= 32 {
        assert(key == offset_coord(c, 0, 1));
    } else {
        assert(key == c);
        vstd::arithmetic::div_mod::lemma_small_mod(x as nat, 32);
        vstd::arithmetic::div_mod::lemma_small_mod(z as nat, 32);
    }
}

/// A requested chunk origin is one of the square of chunks around the center that is
/// neither loaded nor being generated, and every such origin is requested.
pub proof fn lemma_requested_members(w: World, cx: int, cz: int, c: (i32, i32))
    ensures
        requested_chunks(w, cx, cz).contains(c) <==> (chunk_grid(cx, cz, 12).contains(c)
            && !w.loaded().contains_key(c) && !w.pending().contains(c)),
{
    let p1 = |c: (i32, i32)| !w.loaded().contains_key(c);
    let p2 = |c: (i32, i32)| !w.pending().contains(c);
    let g = chunk_grid(cx, cz, 12);
    crate::seqs::lemma_filter_member(g.filter(p1), p2, c);
    crate::seqs::lemma_filter_member(g, p1, c);
}

/// The square of chunks around a center lists every chunk origin once.
pub proof fn lemma_chunk_grid_distinct(cx: int, cz: int, radius: int)
    requires
        grid_fits(cx, cz, radius),
    ensures
        chunk_grid(cx, cz, radius).no_duplicates(),
{
    let g = chunk_grid(cx, cz, radius);
    let w = 2 * radius + 1;
    assert forall|i: int, j: int| 0 <= i < g.len() && 0 <= j < g.len() && i != j implies g[i]
        != g[j] by {
        vstd::arithmetic::div_mod::lemma_fundamental_div_mod(i, w);
        vstd::arithmetic::div_mod::lemma_fundamental_div_mod(j, w);
        assert(0 <= i / w < w) by (nonlinear_arith)
            requires
                0 <= i < w * w,
                i == w * (i / w) + i % w,
                0 <= i % w < w,
        ;
        assert(0 <= j / w < w) by (nonlinear_arith)
            requires
                0 <= j < w * w,
                j == w * (j / w) + j % w,
                0 <= j % w < w,
        ;
        if g[i] == g[j] {
            assert(i / w == j / w);
            assert(i % w == j % w);
        }
    }
}

/// `World::get_missing_chunks` never requests a chunk origin twice.
pub proof fn lemma_requested_distinct(w: World, cx: int, cz: int)
    requires
        grid_fits(cx, cz, 12),
    ensures
        requested_chunks(w, cx, cz).no_duplicates(),
{
    let p1 = |c: (i32, i32)| !w.loaded().contains_key(c);
    let p2 = |c: (i32, i32)| !w.pending().contains(c);
    lemma_chunk_grid_distinct(cx, cz, 12);
    crate::seqs::lemma_filter_no_duplicates(chunk_grid(cx, cz, 12), p1);
    crate::seqs::lemma_filter_no_duplicates(chunk_grid(cx, cz, 12).filter(p1), p2);
}

/// Once chunk origins are marked as being generated (`World::mark_in_flight`), they
/// are not requested again.
pub proof fn lemma_marked_not_requested(
    before: World,
    after: World,
    coords: Seq<(i32, i32)>,
    cx: int,
    cz: int,
)
    requires
        after.pending() == before.pending() + coords.to_set(),
    ensures
        forall|i: int|
            0 <= i < coords.len() ==> !#[trigger] requested_chunks(after, cx, cz).contains(
                coords[i],
            ),
{
    assert forall|i: int| 0 <= i < coords.len() implies !#[trigger] requested_chunks(
        after,
        cx,
        cz,
    ).contains(coords[i]) by {
        assert(coords.to_set().contains(coords[i]));
        lemma_requested_members(after, cx, cz, coords[i]);
    }
}

/// Once a chunk is stored (`World::handle_new_chunk`), its origin is neither being
/// generated nor requested.
pub proof fn lemma_stored_not_requested(before: World, after: World, chunk: Chunk, cx: int, cz: int)
    requires
        after.loaded() == before.loaded().insert((chunk.position.x, chunk.position.z), chunk),
        after.pending() == before.pending().remove((chunk.position.x, chunk.position.z)),
    ensures
        !after.pending().contains((chunk.position.x, chunk.position.z)),
        !requested_chunks(after, cx, cz).contains((chunk.position.x, chunk.position.z)),
{
    lemma_requested_members(after, cx, cz, (chunk.position.x, chunk.position.z));
}

/// Reading a world position after storing a chunk whose origin is a multiple of the
/// chunk size gives the stored chunk's voxel inside its footprint and what was there
/// before outside it.
pub proof fn lemma_block_after_store(
    m: Map<(i32, i32), Chunk>,
    chunk: Chunk,
    x: int,
    y: int,
    z: int,
)
    requires
        (chunk.position.x as int) % (CHUNK_WIDTH as int) == 0,
        (chunk.position.z as int) % (CHUNK_DEPTH as int) == 0,
        i32::MIN <= x <= i32::MAX,
        i32::MIN <= z <= i32::MAX,
    ensures
        ({
            let px = chunk.position.x as int;
            let pz = chunk.position.z as int;
            let stored = m.insert((chunk.position.x, chunk.position.z), chunk);
            if px <= x < px + CHUNK_WIDTH && pz <= z < pz + CHUNK_DEPTH {
                block_in(stored, x, y, z) == if 0 <= y < CHUNK_HEIGHT {
                    match chunk.block(x - px, y, z - pz) {
                        Some(v) => v,
                        None => Voxel::Air,
                    }
                } else {
                    Voxel::Air
                }
            } else {
                block_in(stored, x, y, z) == block_in(m, x, y, z)
            }
        }),
{
    let px = chunk.position.x as int;
    let pz = chunk.position.z as int;
    vstd::arithmetic::div_mod::lemma_fundamental_div_mod(px, 32);
    vstd::arithmetic::div_mod::lemma_fundamental_div_mod(pz, 32);
    vstd::arithmetic::div_mod::lemma_fundamental_div_mod(x, 32);
    vstd::arithmetic::div_mod::lemma_fundamental_div_mod(z, 32);
    let cx = (x / 32) * 32;
    let cz = (z / 32) * 32;
    if px <= x < px + 32 {
        vstd::arithmetic::div_mod::lemma_fundamental_div_mod_converse(x, 32, px / 32, x - px);
    }
    if pz <= z < pz + 32 {
        vstd::arithmetic::div_mod::lemma_fundamental_div_mod_converse(z, 32, pz / 32, z - pz);
    }
    assert(i32::MIN <= cx <= i32::MAX) by (nonlinear_arith)
        requires
            cx == (x / 32) * 32,
            x == 32 * (x / 32) + x % 32,
            0 <= x % 32 < 32,
            i32::MIN <= x <= i32::MAX,
    ;
    assert(i32::MIN <= cz <= i32::MAX) by (nonlinear_arith)
        requires
            cz == (z / 32) * 32,
            z == 32 * (z / 32) + z % 32,
            0 <= z % 32 < 32,
            i32::MIN <= z <= i32::MAX,
    ;
    if (cx as i32, cz as i32) == (chunk.position.x, chunk.position.z) {
        assert(cx == px && cz == pz);
        assert(px <= x < px + 32);
        assert(pz <= z < pz + 32);
    }
}

} // verus!
