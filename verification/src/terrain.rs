//! The terrain: chunk addressing, zone distances, loaders, chunk storage,
//! streaming stages and edit application.
//!
//! The world is a sparse grid of unit voxels, partitioned into cubic chunks
//! of `CHUNK_WIDTH` voxels per side.  Chunks are created around loaders,
//! populated with blocks, meshed once their whole neighborhood is populated,
//! and unloaded again with hysteresis, so a chunk at the boundary of a
//! loader's range does not flicker in and out.

pub mod generation;

use vstd::prelude::*;
use std::collections::HashMap;
use crate::fixed::{abs64, fix3_in_range, floor_div, floor_rem, iabs, spec_voxel_of, voxel_of, Fix3, IVec3, FIX_MAX, SCALE};
use crate::octahedron;
use crate::octahedron::octa_distance;
use crate::spacial::{Neighborhood, Sides};

verus! {

broadcast use vstd::std_specs::hash::group_hash_axioms;

/// Voxels per chunk side.
pub const CHUNK_WIDTH: i64 = 32;

/// One chunk width in fixed-point units.
pub const CHUNK_WIDTH_FIX: i64 = 320_000;

/// Bound on the magnitude of any chunk coordinate the library accepts, so
/// that chunk centers stay within the fixed-point range.
pub const CHUNK_MAX: i64 = 31_249;

/// Bound on the magnitude of any global voxel coordinate the library
/// accepts: the voxels of the chunks within `CHUNK_MAX`.
pub const GLOBAL_MAX: i64 = 999_968;

/// The content of one voxel.  `Air` counts as absent and is never stored.
#[derive(Clone, Copy, PartialEq, Eq, Structural, Debug)]
pub enum Block {
    Air,
    Grass,
    Stone,
    Dirt,
    Sand,
}

/// The mathematical chunk coordinate of a global coordinate: floor division
/// by the chunk width.
pub open spec fn spec_chunk_of(g: int) -> int {
    g / (CHUNK_WIDTH as int)
}

/// The mathematical local coordinate of a global coordinate: the remainder,
/// always in `[0, CHUNK_WIDTH)`.
pub open spec fn spec_local_of(g: int) -> int {
    g % (CHUNK_WIDTH as int)
}

/// Chunk and local coordinates are exact inverses of global coordinates:
/// for every integer global coordinate, including negative ones, the chunk
/// and local coordinate recombine to that global coordinate.
pub proof fn lemma_address_inverse(g: int)
    ensures
        CHUNK_WIDTH * spec_chunk_of(g) + spec_local_of(g) == g,
        0 <= spec_local_of(g) < CHUNK_WIDTH,
{
    vstd::arithmetic::div_mod::lemma_fundamental_div_mod(g, CHUNK_WIDTH as int);
    vstd::arithmetic::div_mod::lemma_mod_bound(g, CHUNK_WIDTH as int);
}

/// Whether a local coordinate lies within a chunk.
pub open spec fn local_in_chunk(l: IVec3) -> bool {
    &&& 0 <= l.x < CHUNK_WIDTH
    &&& 0 <= l.y < CHUNK_WIDTH
    &&& 0 <= l.z < CHUNK_WIDTH
}

/// Split a global voxel coordinate into its chunk coordinate and the local
/// coordinate within that chunk, with floor semantics on every axis.
pub fn global_to_local(global: IVec3) -> (r: (IVec3, IVec3))
    requires
        crate::fixed::ivec3_in_range(global, 0x4000_0000_0000_0000),
    ensures
        r.0.x == spec_chunk_of(global.x as int),
        r.0.y == spec_chunk_of(global.y as int),
        r.0.z == spec_chunk_of(global.z as int),
        r.1.x == spec_local_of(global.x as int),
        r.1.y == spec_local_of(global.y as int),
        r.1.z == spec_local_of(global.z as int),
        local_in_chunk(r.1),
{
    let chunk = IVec3 {
        x: floor_div(global.x, CHUNK_WIDTH),
        y: floor_div(global.y, CHUNK_WIDTH),
        z: floor_div(global.z, CHUNK_WIDTH),
    };
    let local = IVec3 {
        x: floor_rem(global.x, CHUNK_WIDTH),
        y: floor_rem(global.y, CHUNK_WIDTH),
        z: floor_rem(global.z, CHUNK_WIDTH),
    };
    (chunk, local)
}

/// The global coordinate of a local coordinate within a chunk: the exact
/// inverse of `global_to_local`.
pub fn local_to_global(chunk: IVec3, local: IVec3) -> (g: IVec3)
    requires
        crate::fixed::ivec3_in_range(chunk, 0x0100_0000_0000_0000),
        local_in_chunk(local),
    ensures
        g.x == CHUNK_WIDTH * chunk.x + local.x,
        g.y == CHUNK_WIDTH * chunk.y + local.y,
        g.z == CHUNK_WIDTH * chunk.z + local.z,
        spec_chunk_of(g.x as int) == chunk.x && spec_local_of(g.x as int) == local.x,
        spec_chunk_of(g.y as int) == chunk.y && spec_local_of(g.y as int) == local.y,
        spec_chunk_of(g.z as int) == chunk.z && spec_local_of(g.z as int) == local.z,
{
    proof {
        vstd::arithmetic::div_mod::lemma_fundamental_div_mod_converse_div(
            CHUNK_WIDTH * chunk.x + local.x,
            CHUNK_WIDTH as int,
            chunk.x as int,
            local.x as int,
        );
        vstd::arithmetic::div_mod::lemma_fundamental_div_mod_converse_mod(
            CHUNK_WIDTH * chunk.x + local.x,
            CHUNK_WIDTH as int,
            chunk.x as int,
            local.x as int,
        );
        vstd::arithmetic::div_mod::lemma_fundamental_div_mod_converse_div(
            CHUNK_WIDTH * chunk.y + local.y,
            CHUNK_WIDTH as int,
            chunk.y as int,
            local.y as int,
        );
        vstd::arithmetic::div_mod::lemma_fundamental_div_mod_converse_mod(
            CHUNK_WIDTH * chunk.y + local.y,
            CHUNK_WIDTH as int,
            chunk.y as int,
            local.y as int,
        );
        vstd::arithmetic::div_mod::lemma_fundamental_div_mod_converse_div(
            CHUNK_WIDTH * chunk.z + local.z,
            CHUNK_WIDTH as int,
            chunk.z as int,
            local.z as int,
        );
        vstd::arithmetic::div_mod::lemma_fundamental_div_mod_converse_mod(
            CHUNK_WIDTH * chunk.z + local.z,
            CHUNK_WIDTH as int,
            chunk.z as int,
            local.z as int,
        );
    }
    IVec3 {
        x: CHUNK_WIDTH * chunk.x + local.x,
        y: CHUNK_WIDTH * chunk.y + local.y,
        z: CHUNK_WIDTH * chunk.z + local.z,
    }
}

/// The world-space centroid of a chunk's volume, in fixed-point units.
pub open spec fn spec_chunk_center(chunk: IVec3) -> Fix3 {
    Fix3 {
        x: (CHUNK_WIDTH * SCALE * chunk.x + CHUNK_WIDTH * SCALE / 2) as i64,
        y: (CHUNK_WIDTH * SCALE * chunk.y + CHUNK_WIDTH * SCALE / 2) as i64,
        z: (CHUNK_WIDTH * SCALE * chunk.z + CHUNK_WIDTH * SCALE / 2) as i64,
    }
}

/// The world-space centroid of a chunk's volume, used only for distance
/// computation, never for addressing.
pub fn chunk_center(chunk: IVec3) -> (c: Fix3)
    requires
        crate::fixed::ivec3_in_range(chunk, CHUNK_MAX as int),
    ensures
        c == spec_chunk_center(chunk),
        fix3_in_range(c, FIX_MAX as int),
{
    proof {
        assert(CHUNK_WIDTH * SCALE == CHUNK_WIDTH_FIX);
    }
    Fix3 {
        x: CHUNK_WIDTH_FIX * chunk.x + CHUNK_WIDTH_FIX / 2,
        y: CHUNK_WIDTH_FIX * chunk.y + CHUNK_WIDTH_FIX / 2,
        z: CHUNK_WIDTH_FIX * chunk.z + CHUNK_WIDTH_FIX / 2,
    }
}

/// Area around a loader where the terrain should be ready, by purpose.
/// Zones are ordered by dependency: a chunk in the `Mesh` zone should
/// already be in the `Blocks` zone, which its larger reach guarantees.
#[derive(Clone, Copy, PartialEq, Eq, Structural, Debug)]
pub enum Zone {
    /// In this zone, a chunk should have its blocks generated and loaded.
    Blocks,
    /// In this zone, a chunk should render.
    Mesh,
}

impl Zone {
    /// How many chunk widths the zone's reach is inflated by.
    pub fn level(self) -> (r: i64)
        ensures
            r == (if self == Zone::Blocks {
                1int
            } else {
                0int
            }),
    {
        match self {
            Zone::Blocks => 1,
            Zone::Mesh => 0,
        }
    }

    /// How far beyond its geometric extent a chunk's boundary counts as in
    /// this zone: one chunk width for `Blocks`, nothing for `Mesh`, widened
    /// by five percent against flicker at the exact boundary.
    pub open spec fn spec_reach(self) -> int {
        match self {
            Zone::Blocks => CHUNK_WIDTH * SCALE * 21 / 20,
            Zone::Mesh => 0,
        }
    }

    pub fn reach(self) -> (r: i64)
        ensures
            r == self.spec_reach(),
            0 <= r <= FIX_MAX,
    {
        match self {
            Zone::Blocks => CHUNK_WIDTH * SCALE * 21 / 20,
            Zone::Mesh => 0,
        }
    }

    /// The octahedral distance from `point` to this zone's inflated
    /// boundary around `chunk`: zero inside.
    pub open spec fn spec_distance(self, chunk: IVec3, point: Fix3) -> int {
        octa_distance(spec_chunk_center(chunk), self.spec_reach(), point)
    }

    pub fn distance(self, chunk: IVec3, point: Fix3) -> (d: i64)
        requires
            crate::fixed::ivec3_in_range(chunk, CHUNK_MAX as int),
            fix3_in_range(point, FIX_MAX as int),
        ensures
            d == self.spec_distance(chunk, point),
            d >= 0,
    {
        octahedron::distance(chunk_center(chunk), self.reach(), point)
    }
}

/// Inflating a chunk's reach cannot increase its distance: the `Mesh` zone
/// distance of a chunk is never below its `Blocks` zone distance, and more
/// generally any positive reach only brings the boundary nearer.
pub proof fn lemma_zone_monotonic(chunk: IVec3, point: Fix3)
    ensures
        Zone::Blocks.spec_distance(chunk, point) <= Zone::Mesh.spec_distance(chunk, point),
{
    octahedron::lemma_inflation_shrinks_distance(
        spec_chunk_center(chunk),
        0,
        Zone::Blocks.spec_reach(),
        point,
    );
}

/// An observer that causes the terrain to be loaded around it: a zone
/// radius, and an extra buffer beyond it used only for unloading.
#[derive(Clone, Copy, PartialEq, Eq, Structural, Debug)]
pub struct TerrainLoader {
    pub radius: i64,
    pub buffer: i64,
}

impl TerrainLoader {
    pub open spec fn wf(self) -> bool {
        SCALE < self.radius <= FIX_MAX && SCALE < self.buffer <= FIX_MAX
    }

    /// A loader with the given radius and unload buffer, both of which must
    /// exceed one world unit.
    pub fn new(radius: i64, buffer: i64) -> (l: TerrainLoader)
        requires
            SCALE < radius <= FIX_MAX,
            SCALE < buffer <= FIX_MAX,
        ensures
            l.radius == radius,
            l.buffer == buffer,
            l.wf(),
    {
        TerrainLoader { radius, buffer }
    }

    /// Half-width, in chunks, of the cube of candidate chunk slots indexed
    /// around the loader.
    pub fn range(&self) -> (d: i64)
        requires
            self.wf(),
        ensures
            d == self.radius as int / (CHUNK_WIDTH_FIX as int) + 2,
            2 <= d <= FIX_MAX,
    {
        proof {
            vstd::arithmetic::div_mod::lemma_div_pos_is_pos(
                self.radius as int,
                CHUNK_WIDTH_FIX as int,
            );
            vstd::arithmetic::div_mod::lemma_div_is_ordered(
                self.radius as int,
                FIX_MAX as int,
                CHUNK_WIDTH_FIX as int,
            );
            assert(CHUNK_WIDTH * SCALE == CHUNK_WIDTH_FIX);
        }
        floor_div(self.radius, CHUNK_WIDTH_FIX) + 2
    }

    /// Whether the chunk is inside the zone around the loader at `at`.
    pub open spec fn spec_inside(self, zone: Zone, chunk: IVec3, at: Fix3) -> bool {
        zone.spec_distance(chunk, at) <= self.radius
    }

    /// Whether the chunk is beyond the zone by more than the buffer, the
    /// only condition under which it may be unloaded.
    pub open spec fn spec_outside(self, zone: Zone, chunk: IVec3, at: Fix3) -> bool {
        zone.spec_distance(chunk, at) > self.radius + self.buffer
    }

    pub fn inside(&self, zone: Zone, chunk: IVec3, at: Fix3) -> (r: bool)
        requires
            crate::fixed::ivec3_in_range(chunk, CHUNK_MAX as int),
            fix3_in_range(at, FIX_MAX as int),
        ensures
            r == self.spec_inside(zone, chunk, at),
    {
        zone.distance(chunk, at) <= self.radius
    }

    /// The zone distance as an urgency key — lower is more urgent — for a
    /// chunk inside the zone, nothing for one outside.
    pub fn inside_priority(&self, zone: Zone, chunk: IVec3, at: Fix3) -> (r: Option<i64>)
        requires
            crate::fixed::ivec3_in_range(chunk, CHUNK_MAX as int),
            fix3_in_range(at, FIX_MAX as int),
        ensures
            self.spec_inside(zone, chunk, at) ==> r == Some(zone.spec_distance(chunk, at) as i64),
            !self.spec_inside(zone, chunk, at) ==> r is None,
    {
        let distance = zone.distance(chunk, at);
        if distance <= self.radius {
            Some(distance)
        } else {
            None
        }
    }

    pub fn outside(&self, zone: Zone, chunk: IVec3, at: Fix3) -> (r: bool)
        requires
            self.wf(),
            crate::fixed::ivec3_in_range(chunk, CHUNK_MAX as int),
            fix3_in_range(at, FIX_MAX as int),
        ensures
            r == self.spec_outside(zone, chunk, at),
    {
        zone.distance(chunk, at) > self.radius + self.buffer
    }
}

/// Hysteresis: a chunk beyond a loader's radius but not beyond the radius
/// plus the buffer — in particular one exactly at `radius + buffer / 2` —
/// is neither inside the zone nor outside it, so it is neither created nor
/// evicted; it simply persists.
pub proof fn lemma_hysteresis(l: TerrainLoader, zone: Zone, chunk: IVec3, at: Fix3)
    requires
        l.wf(),
        l.radius < zone.spec_distance(chunk, at) <= l.radius + l.buffer,
    ensures
        !l.spec_inside(zone, chunk, at),
        !l.spec_outside(zone, chunk, at),
{
}

/// A local coordinate packed into one key: base-32 digits, the chunk width.
pub open spec fn spec_pack(l: IVec3) -> u64 {
    (l.x + 32 * l.y + 1024 * l.z) as u64
}

/// Packing is injective on local coordinates: distinct coordinates get
/// distinct keys.
pub proof fn lemma_pack_injective(a: IVec3, b: IVec3)
    requires
        local_in_chunk(a),
        local_in_chunk(b),
        spec_pack(a) == spec_pack(b),
    ensures
        a == b,
{
    let ka = a.x + 32 * a.y + 1024 * a.z;
    let kb = b.x + 32 * b.y + 1024 * b.z;
    assert(0 <= ka < 32768 && 0 <= kb < 32768);
    assert(ka == kb);
    vstd::arithmetic::div_mod::lemma_fundamental_div_mod_converse_div(
        ka,
        32,
        a.y + 32 * a.z,
        a.x as int,
    );
    vstd::arithmetic::div_mod::lemma_fundamental_div_mod_converse_mod(
        ka,
        32,
        a.y + 32 * a.z,
        a.x as int,
    );
    vstd::arithmetic::div_mod::lemma_fundamental_div_mod_converse_div(
        kb,
        32,
        b.y + 32 * b.z,
        b.x as int,
    );
    vstd::arithmetic::div_mod::lemma_fundamental_div_mod_converse_mod(
        kb,
        32,
        b.y + 32 * b.z,
        b.x as int,
    );
    vstd::arithmetic::div_mod::lemma_fundamental_div_mod_converse_div(
        a.y + 32 * a.z,
        32,
        a.z as int,
        a.y as int,
    );
    vstd::arithmetic::div_mod::lemma_fundamental_div_mod_converse_mod(
        a.y + 32 * a.z,
        32,
        a.z as int,
        a.y as int,
    );
    vstd::arithmetic::div_mod::lemma_fundamental_div_mod_converse_div(
        b.y + 32 * b.z,
        32,
        b.z as int,
        b.y as int,
    );
    vstd::arithmetic::div_mod::lemma_fundamental_div_mod_converse_mod(
        b.y + 32 * b.z,
        32,
        b.z as int,
        b.y as int,
    );
}

pub fn pack(l: IVec3) -> (k: u64)
    requires
        local_in_chunk(l),
    ensures
        k == spec_pack(l),
        k < 32768,
{
    (l.x + 32 * l.y + 1024 * l.z) as u64
}

/// The sparse block storage of one chunk: local coordinate (packed) to
/// block, holding only occupied voxels, never `Air`.
pub struct ChunkBlocks {
    pub blocks: HashMap<u64, Block>,
}

impl ChunkBlocks {
    pub open spec fn wf(self) -> bool {
        forall|k: u64| #[trigger]
            self.blocks@.dom().contains(k) ==> k < 32768 && self.blocks@[k] != Block::Air
    }

    /// Whether the voxel at a local coordinate is occupied.
    pub open spec fn solid(self, l: IVec3) -> bool {
        self.blocks@.dom().contains(spec_pack(l))
    }

    pub fn new() -> (r: ChunkBlocks)
        ensures
            r.blocks@ == Map::<u64, Block>::empty(),
            r.wf(),
    {
        ChunkBlocks { blocks: HashMap::new() }
    }

    /// Whether the voxel at `local` is occupied.
    pub fn get(&self, local: IVec3) -> (r: bool)
        requires
            local_in_chunk(local),
        ensures
            r == self.solid(local),
    {
        self.blocks.contains_key(&pack(local))
    }

    /// Clear the voxel at `local`.
    pub fn remove(&mut self, local: IVec3)
        requires
            old(self).wf(),
            local_in_chunk(local),
        ensures
            final(self).wf(),
            final(self).blocks@ == old(self).blocks@.remove(spec_pack(local)),
    {
        self.blocks.remove(&pack(local));
    }

    /// Set the voxel at `local` to `block`; placing `Air` clears it, since
    /// air is never stored.
    pub fn place(&mut self, local: IVec3, block: Block)
        requires
            old(self).wf(),
            local_in_chunk(local),
        ensures
            final(self).wf(),
            block == Block::Air ==> final(self).blocks@ == old(self).blocks@.remove(
                spec_pack(local),
            ),
            block != Block::Air ==> final(self).blocks@ == old(self).blocks@.insert(
                spec_pack(local),
                block,
            ),
    {
        if block == Block::Air {
            self.blocks.remove(&pack(local));
        } else {
            self.blocks.insert(pack(local), block);
        }
    }

    /// How many voxels are occupied.
    pub fn len(&self) -> (n: usize)
        ensures
            n == self.blocks@.dom().len(),
    {
        self.blocks.len()
    }
}

/// Everything the streaming manager holds per chunk slot: the generated
/// blocks once they exist, whether the chunk currently has render geometry,
/// and whether that geometry is out of date.
pub struct ChunkRecord {
    pub blocks: Option<ChunkBlocks>,
    pub meshed: bool,
    pub dirty: bool,
}

impl ChunkRecord {
    pub open spec fn wf(self) -> bool {
        match self.blocks {
            Some(b) => b.wf(),
            None => true,
        }
    }

    pub open spec fn populated(self) -> bool {
        self.blocks is Some
    }
}

/// One slot of the chunk index.
pub struct ChunkEntry {
    pub coord: IVec3,
    pub record: ChunkRecord,
}

/// The chunk map: every chunk slot the streaming manager has created,
/// keyed by chunk coordinate.
pub struct ChunksIndex {
    pub chunks: Vec<ChunkEntry>,
}

impl ChunksIndex {
    /// Whether a slot exists for the chunk coordinate.
    pub open spec fn has(self, c: IVec3) -> bool {
        exists|i: int| 0 <= i < self.chunks@.len() && (#[trigger] self.chunks@[i]).coord == c
    }

    /// The position of a chunk's slot.
    pub open spec fn idx_of(self, c: IVec3) -> int {
        choose|i: int| 0 <= i < self.chunks@.len() && (#[trigger] self.chunks@[i]).coord == c
    }

    /// The record of a chunk's slot.
    pub open spec fn at(self, c: IVec3) -> ChunkRecord {
        self.chunks@[self.idx_of(c)].record
    }

    pub open spec fn wf(self) -> bool {
        &&& (forall|i: int, j: int|
            0 <= i < j < self.chunks@.len() ==> (#[trigger] self.chunks@[i]).coord != (
            #[trigger] self.chunks@[j]).coord)
        &&& (forall|i: int|
            0 <= i < self.chunks@.len() ==> (#[trigger] self.chunks@[i]).record.wf()
                && crate::fixed::ivec3_in_range(self.chunks@[i].coord, CHUNK_MAX as int))
    }

    pub fn new() -> (r: ChunksIndex)
        ensures
            r.wf(),
            r.chunks@.len() == 0,
            forall|c: IVec3| !r.has(c),
    {
        ChunksIndex { chunks: Vec::new() }
    }

    /// The position of a chunk's slot, if one exists.
    fn find(&self, c: IVec3) -> (r: Option<usize>)
        requires
            self.wf(),
        ensures
            match r {
                Some(i) => i < self.chunks@.len() && self.chunks@[i as int].coord == c && self.has(
                    c,
                ) && self.idx_of(c) == i,
                None => !self.has(c),
            },
    {
        let n = self.chunks.len();
        let mut i: usize = 0;
        while i < n
            invariant
                n == self.chunks@.len(),
                i <= n,
                self.wf(),
                forall|j: int| 0 <= j < i ==> (#[trigger] self.chunks@[j]).coord != c,
            decreases n - i,
        {
            if self.chunks[i].coord == c {
                proof {
                    assert(self.has(c));
                    let k = self.idx_of(c);
                    assert(0 <= k < self.chunks@.len() && self.chunks@[k].coord == c);
                }
                return Some(i);
            }
            i = i + 1;
        }
        None
    }

    /// The record of a chunk, if a slot exists.
    pub fn get_record(&self, c: IVec3) -> (r: Option<&ChunkRecord>)
        requires
            self.wf(),
        ensures
            match r {
                Some(rec) => self.has(c) && *rec == self.at(c),
                None => !self.has(c),
            },
    {
        match self.find(c) {
            Some(i) => Some(&self.chunks[i].record),
            None => None,
        }
    }
}

/// An edit intent: remove the voxel at a global coordinate, or place one
/// (of the default material) there.
#[derive(Clone, Copy, PartialEq, Eq, Structural, Debug)]
pub enum Modify {
    Remove { at: IVec3 },
    Place { at: IVec3 },
}

/// Pending edits, applied in one batch per tick and then cleared.
pub struct Modifications {
    pub queue: Vec<Modify>,
}

impl Modifications {
    pub fn new() -> (r: Modifications)
        ensures
            r.queue@.len() == 0,
    {
        Modifications { queue: Vec::new() }
    }

    /// Queue one edit.
    pub fn push(&mut self, modify: Modify)
        ensures
            final(self).queue@ == old(self).queue@.push(modify),
    {
        self.queue.push(modify);
    }
}

/// The mathematical state of one chunk slot: its block map if populated,
/// whether it has render geometry, and whether that geometry is out of date.
#[verifier::ext_equal]
pub struct ChunkState {
    pub blocks: Option<Map<u64, Block>>,
    pub meshed: bool,
    pub dirty: bool,
}

pub open spec fn record_state(r: ChunkRecord) -> ChunkState {
    ChunkState {
        blocks: match r.blocks {
            Some(b) => Some(b.blocks@),
            None => None,
        },
        meshed: r.meshed,
        dirty: r.dirty,
    }
}

/// The chunk coordinate of a global voxel coordinate, per axis.
pub open spec fn spec_chunk_vec(g: IVec3) -> IVec3 {
    IVec3 {
        x: spec_chunk_of(g.x as int) as i64,
        y: spec_chunk_of(g.y as int) as i64,
        z: spec_chunk_of(g.z as int) as i64,
    }
}

/// The local coordinate of a global voxel coordinate, per axis.
pub open spec fn spec_local_vec(g: IVec3) -> IVec3 {
    IVec3 {
        x: spec_local_of(g.x as int) as i64,
        y: spec_local_of(g.y as int) as i64,
        z: spec_local_of(g.z as int) as i64,
    }
}

impl ChunksIndex {
    /// The whole index as a map from chunk coordinate to chunk state.
    pub open spec fn model(self) -> Map<IVec3, ChunkState> {
        Map::new(|c: IVec3| self.has(c), |c: IVec3| record_state(self.at(c)))
    }
}

/// Replacing the record of one slot, coordinate kept, updates the model at
/// that coordinate and nothing else.
proof fn lemma_update_entry(pre: ChunksIndex, post: ChunksIndex, j: int, r2: ChunkRecord)
    requires
        pre.wf(),
        r2.wf(),
        0 <= j < pre.chunks@.len(),
        post.chunks@ == pre.chunks@.update(
            j,
            ChunkEntry { coord: pre.chunks@[j].coord, record: r2 },
        ),
    ensures
        post.wf(),
        forall|c2: IVec3| post.has(c2) == pre.has(c2),
        post.has(pre.chunks@[j].coord),
        post.at(pre.chunks@[j].coord) == r2,
        forall|c2: IVec3|
            c2 != pre.chunks@[j].coord && pre.has(c2) ==> post.at(c2) == pre.at(c2),
        post.model() == pre.model().insert(pre.chunks@[j].coord, record_state(r2)),
{
    let cj = pre.chunks@[j].coord;
    assert(forall|i: int|
        0 <= i < post.chunks@.len() ==> (#[trigger] post.chunks@[i]).coord == pre.chunks@[i].coord);
    assert forall|c2: IVec3| post.has(c2) == pre.has(c2) by {
        if pre.has(c2) {
            let i = pre.idx_of(c2);
            assert(post.chunks@[i].coord == c2);
            assert(post.has(c2));
        }
        if post.has(c2) {
            let i = post.idx_of(c2);
            assert(pre.chunks@[i].coord == c2);
            assert(pre.has(c2));
        }
    }
    assert(post.chunks@[j].coord == cj);
    assert(post.has(cj));
    let ghost pj = post.idx_of(cj);
    assert(post.chunks@[pj].coord == cj);
    assert(pj == j);
    assert(post.at(cj) == r2);
    assert forall|c2: IVec3|
        c2 != cj && pre.has(c2) implies post.at(c2) == pre.at(c2) by {
        let i = pre.idx_of(c2);
        assert(pre.chunks@[i].coord == c2);
        assert(i != j);
        assert(post.chunks@[i].coord == c2);
        let i2 = post.idx_of(c2);
        assert(post.chunks@[i2].coord == c2);
        assert(i2 == i);
    }
    assert(post.model() =~= pre.model().insert(cj, record_state(r2)));
}

/// Pushing a slot for a new coordinate adds it to the model and changes
/// nothing else.
proof fn lemma_push_entry(pre: ChunksIndex, post: ChunksIndex, c: IVec3, r: ChunkRecord)
    requires
        pre.wf(),
        r.wf(),
        !pre.has(c),
        crate::fixed::ivec3_in_range(c, CHUNK_MAX as int),
        post.chunks@ == pre.chunks@.push(ChunkEntry { coord: c, record: r }),
    ensures
        post.wf(),
        post.has(c),
        post.at(c) == r,
        forall|c2: IVec3| c2 != c ==> post.has(c2) == pre.has(c2),
        forall|c2: IVec3| c2 != c && pre.has(c2) ==> post.at(c2) == pre.at(c2),
        post.model() == pre.model().insert(c, record_state(r)),
{
    let n = pre.chunks@.len() as int;
    assert(forall|i: int| 0 <= i < n ==> (#[trigger] post.chunks@[i]) == pre.chunks@[i]);
    assert(post.chunks@[n].coord == c);
    assert(post.has(c));
    let ghost pj = post.idx_of(c);
    assert(post.chunks@[pj].coord == c);
    assert forall|i: int| 0 <= i < n implies (#[trigger] post.chunks@[i]).coord != c by {
        assert(pre.chunks@[i].coord == post.chunks@[i].coord);
        if pre.chunks@[i].coord == c {
            assert(pre.has(c));
        }
    }
    assert(pj == n);
    assert(post.at(c) == r);
    assert forall|c2: IVec3| c2 != c implies post.has(c2) == pre.has(c2) by {
        if pre.has(c2) {
            let i = pre.idx_of(c2);
            assert(post.chunks@[i].coord == c2);
        }
        if post.has(c2) {
            let i = post.idx_of(c2);
            assert(0 <= i < n + 1);
            assert(i != n);
            assert(pre.chunks@[i].coord == c2);
        }
    }
    assert forall|c2: IVec3| c2 != c && pre.has(c2) implies post.at(c2) == pre.at(c2) by {
        let i = pre.idx_of(c2);
        assert(pre.chunks@[i].coord == c2);
        assert(post.chunks@[i].coord == c2);
        let i2 = post.idx_of(c2);
        assert(post.chunks@[i2].coord == c2);
        assert(0 <= i2 < n + 1);
        assert(i2 != n);
        assert(i2 == i);
    }
    assert(post.model() =~= pre.model().insert(c, record_state(r)));
}

impl ChunksIndex {
    /// Ensure a slot exists for `c`; never removes or changes anything.
    pub fn ensure_slot(&mut self, c: IVec3)
        requires
            old(self).wf(),
            crate::fixed::ivec3_in_range(c, CHUNK_MAX as int),
        ensures
            final(self).wf(),
            final(self).has(c),
            old(self).has(c) ==> *final(self) == *old(self),
            !old(self).has(c) ==> final(self).model() == old(self).model().insert(
                c,
                ChunkState { blocks: None, meshed: false, dirty: false },
            ),
            forall|c2: IVec3| c2 != c ==> final(self).has(c2) == old(self).has(c2),
            forall|c2: IVec3|
                c2 != c && old(self).has(c2) ==> final(self).at(c2) == old(self).at(c2),
            final(self).at(c) == (if old(self).has(c) {
                old(self).at(c)
            } else {
                ChunkRecord { blocks: None, meshed: false, dirty: false }
            }),
    {
        let ghost pre = *self;
        match self.find(c) {
            Some(_) => {},
            None => {
                let r = ChunkRecord { blocks: None, meshed: false, dirty: false };
                self.chunks.push(ChunkEntry { coord: c, record: r });
                proof {
                    lemma_push_entry(
                        pre,
                        *self,
                        c,
                        ChunkRecord { blocks: None, meshed: false, dirty: false },
                    );
                }
            },
        }
    }
}

/// The six face neighbors, in a fixed order.
pub open spec fn spec_side(k: int) -> crate::spacial::Side {
    if k == 0 {
        crate::spacial::Side::XPos
    } else if k == 1 {
        crate::spacial::Side::XNeg
    } else if k == 2 {
        crate::spacial::Side::YPos
    } else if k == 3 {
        crate::spacial::Side::YNeg
    } else if k == 4 {
        crate::spacial::Side::ZPos
    } else {
        crate::spacial::Side::ZNeg
    }
}

fn side_for(k: usize) -> (r: crate::spacial::Side)
    requires
        k < 6,
    ensures
        r == spec_side(k as int),
{
    if k == 0 {
        crate::spacial::Side::XPos
    } else if k == 1 {
        crate::spacial::Side::XNeg
    } else if k == 2 {
        crate::spacial::Side::YPos
    } else if k == 3 {
        crate::spacial::Side::YNeg
    } else if k == 4 {
        crate::spacial::Side::ZPos
    } else {
        crate::spacial::Side::ZNeg
    }
}

/// A global coordinate displaced by a unit vector.
pub open spec fn spec_offset(g: IVec3, u: IVec3) -> IVec3 {
    IVec3 { x: (g.x + u.x) as i64, y: (g.y + u.y) as i64, z: (g.z + u.z) as i64 }
}

/// The global coordinate an edit aims at.
pub open spec fn edit_at(edit: Modify) -> IVec3 {
    match edit {
        Modify::Remove { at } => at,
        Modify::Place { at } => at,
    }
}

/// Whether the voxel at global coordinate `n` would expose a rendered face
/// of a chunk other than `home`: its owning chunk exists, is populated, and
/// holds a solid voxel there.
pub open spec fn exposed(m: Map<IVec3, ChunkState>, n: IVec3, home: IVec3) -> bool {
    let nc = spec_chunk_vec(n);
    let nl = spec_local_vec(n);
    &&& nc != home
    &&& m.contains_key(nc)
    &&& m[nc].blocks is Some
    &&& m[nc].blocks->Some_0.dom().contains(spec_pack(nl))
}

/// Mark the chunk owning the `k`-th neighbor of `at` dirty, where that
/// neighbor is exposed; otherwise change nothing.
pub open spec fn mark_step(m: Map<IVec3, ChunkState>, at: IVec3, home: IVec3, k: int) -> Map<
    IVec3,
    ChunkState,
> {
    let n = spec_offset(at, spec_side(k).spec_unit());
    let nc = spec_chunk_vec(n);
    if exposed(m, n, home) {
        m.insert(nc, ChunkState { dirty: true, ..m[nc] })
    } else {
        m
    }
}

/// Mark the chunks owning the first `k` face neighbors of `at`, in order.
pub open spec fn mark_neighbors(m: Map<IVec3, ChunkState>, at: IVec3, home: IVec3, k: int) -> Map<
    IVec3,
    ChunkState,
>
    decreases k,
{
    if k <= 0 {
        m
    } else {
        mark_step(mark_neighbors(m, at, home, k - 1), at, home, k - 1)
    }
}

/// What applying one edit does to the world: resolve the global coordinate;
/// if the owning chunk is missing or unpopulated, or the edit is redundant
/// (removing an absent voxel, placing onto an occupied one), nothing
/// changes.  Otherwise the voxel is edited, the edited chunk is marked
/// dirty, and each face-adjacent chunk whose exposed surface could have
/// changed is marked dirty too.
pub open spec fn spec_apply_edit(m: Map<IVec3, ChunkState>, edit: Modify) -> Map<
    IVec3,
    ChunkState,
> {
    let at = edit_at(edit);
    let c = spec_chunk_vec(at);
    let l = spec_local_vec(at);
    if !m.contains_key(c) {
        m
    } else {
        match m[c].blocks {
            None => m,
            Some(bl) => {
                let solid = bl.dom().contains(spec_pack(l));
                let redundant = match edit {
                    Modify::Remove { .. } => !solid,
                    Modify::Place { .. } => solid,
                };
                if redundant {
                    m
                } else {
                    let bl2 = match edit {
                        Modify::Remove { .. } => bl.remove(spec_pack(l)),
                        Modify::Place { .. } => bl.insert(spec_pack(l), Block::Stone),
                    };
                    let m1 = m.insert(
                        c,
                        ChunkState { blocks: Some(bl2), meshed: m[c].meshed, dirty: true },
                    );
                    mark_neighbors(m1, at, c, 6)
                }
            },
        }
    }
}

/// Applying a batch of edits, in order, starting at position `i`.
pub open spec fn spec_apply_edits_from(
    m: Map<IVec3, ChunkState>,
    edits: Seq<Modify>,
    i: int,
) -> Map<IVec3, ChunkState>
    decreases edits.len() - i,
{
    if i < 0 || i >= edits.len() {
        m
    } else {
        spec_apply_edits_from(spec_apply_edit(m, edits[i]), edits, i + 1)
    }
}

/// Applying a whole batch of edits, in order.
pub open spec fn spec_apply_edits(m: Map<IVec3, ChunkState>, edits: Seq<Modify>) -> Map<
    IVec3,
    ChunkState,
> {
    spec_apply_edits_from(m, edits, 0)
}

impl ChunksIndex {
    /// Apply one edit, with the dirty-marking of the edited chunk and of
    /// any face-adjacent chunk whose exposed surface could have changed.
    fn apply_edit(&mut self, edit: Modify)
        requires
            old(self).wf(),
            crate::fixed::ivec3_in_range(edit_at(edit), GLOBAL_MAX as int),
        ensures
            final(self).wf(),
            final(self).model() == spec_apply_edit(old(self).model(), edit),
    {
        let ghost m0 = self.model();
        let at = match edit {
            Modify::Remove { at } => at,
            Modify::Place { at } => at,
        };
        let (c, l) = global_to_local(at);
        proof {
            assert(c == spec_chunk_vec(at));
            assert(l == spec_local_vec(at));
        }
        let i = match self.find(c) {
            None => {
                proof {
                    assert(!m0.contains_key(c));
                }
                return ;
            },
            Some(i) => i,
        };
        let solid = match &self.chunks[i].record.blocks {
            None => {
                proof {
                    assert(m0.contains_key(c) && m0[c].blocks is None);
                }
                return ;
            },
            Some(b) => b.get(l),
        };
        proof {
            assert(m0.contains_key(c));
            assert(m0[c] == record_state(self.at(c)));
        }
        let redundant = match edit {
            Modify::Remove { .. } => !solid,
            Modify::Place { .. } => solid,
        };
        if redundant {
            return ;
        }
        // edit the voxel and mark the edited chunk dirty
        let ghost pre = *self;
        {
            let e = &mut self.chunks[i];
            match &mut e.record.blocks {
                Some(b) => {
                    match edit {
                        Modify::Remove { .. } => b.remove(l),
                        Modify::Place { .. } => b.place(l, Block::Stone),
                    }
                },
                None => {
                    proof {
                        assert(false);
                    }
                },
            }
            e.record.dirty = true;
        }
        proof {
            lemma_update_entry(pre, *self, i as int, self.chunks@[i as int].record);
        }
        let ghost m1 = self.model();
        proof {
            assert(m1 =~= m0.insert(
                c,
                ChunkState {
                    blocks: Some(
                        match edit {
                            Modify::Remove { .. } => m0[c].blocks->Some_0.remove(spec_pack(l)),
                            Modify::Place { .. } => m0[c].blocks->Some_0.insert(
                                spec_pack(l),
                                Block::Stone,
                            ),
                        },
                    ),
                    meshed: m0[c].meshed,
                    dirty: true,
                },
            ));
        }
        // mark any face-adjacent chunk whose exposed surface changed
        let mut k: usize = 0;
        while k < 6
            invariant
                k <= 6,
                self.wf(),
                crate::fixed::ivec3_in_range(at, GLOBAL_MAX as int),
                self.model() == mark_neighbors(m1, at, c, k as int),
                c == spec_chunk_vec(at),
            decreases 6 - k,
        {
            let ghost mk = self.model();
            let side = side_for(k);
            let n = at.add(side.unit());
            proof {
                assert(n == spec_offset(at, spec_side(k as int).spec_unit()));
            }
            let (nc, nl) = global_to_local(n);
            proof {
                assert(nc == spec_chunk_vec(n));
                assert(nl == spec_local_vec(n));
            }
            if nc != c {
                match self.find(nc) {
                    None => {
                        proof {
                            assert(!mk.contains_key(nc));
                            assert(self.model() == mark_step(mk, at, c, k as int));
                        }
                    },
                    Some(j) => {
                        let solid_n = match &self.chunks[j].record.blocks {
                            None => false,
                            Some(b) => b.get(nl),
                        };
                        if solid_n {
                            let ghost prek = *self;
                            {
                                let e = &mut self.chunks[j];
                                e.record.dirty = true;
                            }
                            proof {
                                lemma_update_entry(
                                    prek,
                                    *self,
                                    j as int,
                                    self.chunks@[j as int].record,
                                );
                                assert(exposed(mk, n, c));
                                assert(self.model() =~= mark_step(mk, at, c, k as int));
                            }
                        } else {
                            proof {
                                assert(!exposed(mk, n, c));
                                assert(self.model() == mark_step(mk, at, c, k as int));
                            }
                        }
                    },
                }
            } else {
                proof {
                    assert(!exposed(mk, n, c));
                    assert(self.model() == mark_step(mk, at, c, k as int));
                }
            }
            k = k + 1;
        }
    }
}

/// Drain the queued edits and apply them to the chunk index, in order.
pub fn apply_modifications(index: &mut ChunksIndex, queue: &mut Modifications)
    requires
        old(index).wf(),
        forall|i: int|
            0 <= i < old(queue).queue@.len() ==> crate::fixed::ivec3_in_range(
                edit_at(#[trigger] old(queue).queue@[i]),
                GLOBAL_MAX as int,
            ),
    ensures
        final(index).wf(),
        final(index).model() == spec_apply_edits(old(index).model(), old(queue).queue@),
        final(queue).queue@.len() == 0,
{
    let ghost m0 = index.model();
    let ghost edits = queue.queue@;
    let n = queue.queue.len();
    let mut i: usize = 0;
    while i < n
        invariant
            i <= n,
            n == queue.queue@.len(),
            queue.queue@ == edits,
            index.wf(),
            forall|j: int|
                0 <= j < edits.len() ==> crate::fixed::ivec3_in_range(
                    edit_at(#[trigger] edits[j]),
                    GLOBAL_MAX as int,
                ),
            spec_apply_edits_from(index.model(), edits, i as int) == spec_apply_edits_from(
                m0,
                edits,
                0,
            ),
        decreases n - i,
    {
        let edit = queue.queue[i];
        index.apply_edit(edit);
        i = i + 1;
    }
    queue.queue.clear();
}

/// Dirty-marking neighbors never creates or removes chunks, never touches
/// blocks or meshes, never touches the home chunk, and never clears a dirty
/// flag.
proof fn lemma_mark_preserves(m: Map<IVec3, ChunkState>, at: IVec3, home: IVec3, k: int)
    ensures
        forall|c2: IVec3| #[trigger]
            mark_neighbors(m, at, home, k).contains_key(c2) == m.contains_key(c2),
        forall|c2: IVec3|
            m.contains_key(c2) ==> (#[trigger] mark_neighbors(m, at, home, k)[c2]).blocks
                == m[c2].blocks && mark_neighbors(m, at, home, k)[c2].meshed == m[c2].meshed,
        m.contains_key(home) ==> mark_neighbors(m, at, home, k)[home] == m[home],
        forall|c2: IVec3|
            m.contains_key(c2) && m[c2].dirty ==> (#[trigger] mark_neighbors(
                m,
                at,
                home,
                k,
            )[c2]).dirty,
    decreases k,
{
    if k > 0 {
        lemma_mark_preserves(m, at, home, k - 1);
    }
}

/// Where every face neighbor of `at` lies in the home chunk itself, the
/// neighbor marking changes nothing.
proof fn lemma_mark_all_home(m: Map<IVec3, ChunkState>, at: IVec3, home: IVec3, k: int)
    requires
        forall|j: int|
            0 <= j < k ==> spec_chunk_vec(spec_offset(at, (#[trigger] spec_side(j)).spec_unit()))
                == home,
    ensures
        mark_neighbors(m, at, home, k) == m,
    decreases k,
{
    if k > 0 {
        lemma_mark_all_home(m, at, home, k - 1);
    }
}

/// A dirty flag, once set, survives the remaining neighbor marks.
proof fn lemma_mark_keeps_dirty(
    m: Map<IVec3, ChunkState>,
    at: IVec3,
    home: IVec3,
    k1: int,
    k2: int,
    c2: IVec3,
)
    requires
        0 <= k1 <= k2,
        mark_neighbors(m, at, home, k1).contains_key(c2),
        mark_neighbors(m, at, home, k1)[c2].dirty,
    ensures
        mark_neighbors(m, at, home, k2).contains_key(c2),
        mark_neighbors(m, at, home, k2)[c2].dirty,
    decreases k2 - k1,
{
    if k1 < k2 {
        lemma_mark_keeps_dirty(m, at, home, k1, k2 - 1, c2);
    }
}

/// Removing a voxel that is already absent — or editing a chunk that is
/// missing or not yet populated — changes nothing at all, dirty flags
/// included: a redundant edit is silently absorbed.
pub proof fn lemma_remove_absent_is_noop(m: Map<IVec3, ChunkState>, at: IVec3)
    requires
        ({
            let c = spec_chunk_vec(at);
            let l = spec_local_vec(at);
            !(m.contains_key(c) && m[c].blocks is Some
                && m[c].blocks->Some_0.dom().contains(spec_pack(l)))
        }),
    ensures
        spec_apply_edit(m, Modify::Remove { at }) == m,
{
}

/// Edit idempotence: applying the same removal twice gives exactly the
/// state after the first application — the second pass finds the voxel
/// absent, removes nothing, and marks nothing dirty.
pub proof fn lemma_edit_idempotent(m: Map<IVec3, ChunkState>, at: IVec3)
    ensures
        spec_apply_edit(spec_apply_edit(m, Modify::Remove { at }), Modify::Remove { at })
            == spec_apply_edit(m, Modify::Remove { at }),
{
    let c = spec_chunk_vec(at);
    let l = spec_local_vec(at);
    let m2 = spec_apply_edit(m, Modify::Remove { at });
    if m.contains_key(c) && m[c].blocks is Some && m[c].blocks->Some_0.dom().contains(
        spec_pack(l),
    ) {
        let bl = m[c].blocks->Some_0;
        let m1 = m.insert(
            c,
            ChunkState { blocks: Some(bl.remove(spec_pack(l))), meshed: m[c].meshed, dirty: true },
        );
        lemma_mark_preserves(m1, at, c, 6);
        assert(m2[c].blocks == m1[c].blocks);
        assert(!m2[c].blocks->Some_0.dom().contains(spec_pack(l)));
        lemma_remove_absent_is_noop(m2, at);
    } else {
        lemma_remove_absent_is_noop(m, at);
    }
}

/// Neighbor dirtying at a chunk boundary: removing a solid voxel marks its
/// own chunk dirty, and where the `k`-th face neighbor lies in a different,
/// populated chunk whose adjoining voxel is solid — so a hidden face of
/// that chunk is newly exposed — that chunk is marked dirty too.
pub proof fn lemma_neighbor_dirtying(m: Map<IVec3, ChunkState>, at: IVec3, k: int)
    requires
        ({
            let c = spec_chunk_vec(at);
            let l = spec_local_vec(at);
            m.contains_key(c) && m[c].blocks is Some && m[c].blocks->Some_0.dom().contains(
                spec_pack(l),
            )
        }),
        0 <= k < 6,
        ({
            let c = spec_chunk_vec(at);
            let n = spec_offset(at, spec_side(k).spec_unit());
            let nc = spec_chunk_vec(n);
            let nl = spec_local_vec(n);
            nc != c && m.contains_key(nc) && m[nc].blocks is Some
                && m[nc].blocks->Some_0.dom().contains(spec_pack(nl))
        }),
    ensures
        ({
            let m2 = spec_apply_edit(m, Modify::Remove { at });
            let c = spec_chunk_vec(at);
            let nc = spec_chunk_vec(spec_offset(at, spec_side(k).spec_unit()));
            m2.contains_key(c) && m2[c].dirty && m2.contains_key(nc) && m2[nc].dirty
        }),
{
    let c = spec_chunk_vec(at);
    let l = spec_local_vec(at);
    let n = spec_offset(at, spec_side(k).spec_unit());
    let nc = spec_chunk_vec(n);
    let bl = m[c].blocks->Some_0;
    let m1 = m.insert(
        c,
        ChunkState { blocks: Some(bl.remove(spec_pack(l))), meshed: m[c].meshed, dirty: true },
    );
    let mk = mark_neighbors(m1, at, c, k);
    lemma_mark_preserves(m1, at, c, k);
    let nl = spec_local_vec(n);
    assert(m1.contains_key(nc) && m1[nc] == m[nc]);
    assert(mk.contains_key(nc));
    assert(mk[nc].blocks == m1[nc].blocks);
    assert(mk[nc].blocks is Some && mk[nc].blocks->Some_0.dom().contains(spec_pack(nl)));
    assert(exposed(mk, n, c));
    assert(mark_neighbors(m1, at, c, k + 1) == mark_step(mk, at, c, k)) by {
        reveal_with_fuel(mark_neighbors, 2);
    };
    assert(mark_step(mk, at, c, k)[nc].dirty);
    lemma_mark_keeps_dirty(m1, at, c, k + 1, 6, nc);
    lemma_mark_preserves(m1, at, c, 6);
    assert(mark_neighbors(m1, at, c, 6).contains_key(c));
}

/// Dirtying away from boundaries: removing a solid voxel all of whose face
/// neighbors lie in its own chunk marks only that chunk dirty; every other
/// chunk's record is untouched.
pub proof fn lemma_interior_edit_dirties_only_owner(m: Map<IVec3, ChunkState>, at: IVec3)
    requires
        ({
            let c = spec_chunk_vec(at);
            let l = spec_local_vec(at);
            m.contains_key(c) && m[c].blocks is Some && m[c].blocks->Some_0.dom().contains(
                spec_pack(l),
            )
        }),
        forall|j: int|
            0 <= j < 6 ==> spec_chunk_vec(spec_offset(at, (#[trigger] spec_side(j)).spec_unit()))
                == spec_chunk_vec(at),
    ensures
        ({
            let m2 = spec_apply_edit(m, Modify::Remove { at });
            let c = spec_chunk_vec(at);
            &&& m2.contains_key(c) && m2[c].dirty
            &&& m2[c].blocks == Some(m[c].blocks->Some_0.remove(spec_pack(spec_local_vec(at))))
            &&& (forall|c2: IVec3| m2.contains_key(c2) == m.contains_key(c2))
            &&& (forall|c2: IVec3|
                c2 != c && m.contains_key(c2) ==> (#[trigger] m2[c2]) == m[c2])
        }),
{
    let c = spec_chunk_vec(at);
    let l = spec_local_vec(at);
    let bl = m[c].blocks->Some_0;
    let m1 = m.insert(
        c,
        ChunkState { blocks: Some(bl.remove(spec_pack(l))), meshed: m[c].meshed, dirty: true },
    );
    lemma_mark_all_home(m1, at, c, 6);
}

impl ChunksIndex {
    /// Whether the voxel at a global coordinate is solid.  A missing chunk
    /// slot or one without generated blocks counts as empty: queries against
    /// unloaded terrain simply report no data.
    pub open spec fn spec_solid_at(self, g: IVec3) -> bool {
        let c = spec_chunk_vec(g);
        let l = spec_local_vec(g);
        &&& self.has(c)
        &&& self.at(c).blocks is Some
        &&& self.at(c).blocks->Some_0.solid(l)
    }

    /// Whether the voxel at a global coordinate is solid.
    pub fn get(&self, global: IVec3) -> (r: bool)
        requires
            self.wf(),
            crate::fixed::ivec3_in_range(global, 0x4000_0000_0000_0000),
        ensures
            r == self.spec_solid_at(global),
    {
        let (c, l) = global_to_local(global);
        proof {
            assert(c == spec_chunk_vec(global));
            assert(l == spec_local_vec(global));
        }
        match self.find(c) {
            None => false,
            Some(i) => match &self.chunks[i].record.blocks {
                None => false,
                Some(b) => b.get(l),
            },
        }
    }

    /// Resolve a global coordinate to its chunk and local coordinate, where
    /// a slot for that chunk exists.
    pub fn global_to_local(&self, global: IVec3) -> (r: Option<(IVec3, IVec3)>)
        requires
            self.wf(),
            crate::fixed::ivec3_in_range(global, 0x4000_0000_0000_0000),
        ensures
            match r {
                Some((c, l)) => self.has(c) && c == spec_chunk_vec(global) && l
                    == spec_local_vec(global) && local_in_chunk(l),
                None => !self.has(spec_chunk_vec(global)),
            },
    {
        let (c, l) = crate::terrain::global_to_local(global);
        proof {
            assert(c == spec_chunk_vec(global));
            assert(l == spec_local_vec(global));
        }
        match self.find(c) {
            None => None,
            Some(_) => Some((c, l)),
        }
    }
}

/// When two indexes have the same slots in the same order, coordinate
/// lookups agree and resolve to the same positions.
proof fn lemma_pointwise_records(pre: ChunksIndex, post: ChunksIndex)
    requires
        pre.wf(),
        post.chunks@.len() == pre.chunks@.len(),
        forall|i: int|
            0 <= i < pre.chunks@.len() ==> (#[trigger] post.chunks@[i]).coord
                == pre.chunks@[i].coord,
    ensures
        forall|c2: IVec3| post.has(c2) == pre.has(c2),
        forall|c2: IVec3|
            pre.has(c2) ==> post.idx_of(c2) == pre.idx_of(c2) && 0 <= pre.idx_of(c2)
                < pre.chunks@.len() && pre.chunks@[pre.idx_of(c2)].coord == c2 && (
            #[trigger] post.at(c2)) == post.chunks@[pre.idx_of(c2)].record,
{
    assert forall|c2: IVec3| post.has(c2) == pre.has(c2) by {
        if pre.has(c2) {
            let i = pre.idx_of(c2);
            assert(post.chunks@[i].coord == c2);
        }
        if post.has(c2) {
            let i = post.idx_of(c2);
            assert(pre.chunks@[i].coord == c2);
        }
    }
    assert forall|c2: IVec3| pre.has(c2) implies post.idx_of(c2) == pre.idx_of(c2) && 0
        <= pre.idx_of(c2) < pre.chunks@.len() && pre.chunks@[pre.idx_of(c2)].coord == c2 && (
    #[trigger] post.at(c2)) == post.chunks@[pre.idx_of(c2)].record by {
        let i = pre.idx_of(c2);
        assert(pre.chunks@[i].coord == c2);
        assert(post.chunks@[i].coord == c2);
        assert(post.has(c2));
        let i2 = post.idx_of(c2);
        assert(post.chunks@[i2].coord == c2);
        assert(pre.chunks@[i2].coord == c2);
        assert(i2 == i);
    }
}

/// Whether some loader's zone contains the chunk.
pub open spec fn spec_any_inside(
    loaders: Seq<(Fix3, TerrainLoader)>,
    zone: Zone,
    c: IVec3,
) -> bool {
    exists|i: int|
        0 <= i < loaders.len() && (#[trigger] loaders[i]).1.spec_inside(zone, c, loaders[i].0)
}

/// Whether the chunk is beyond every loader's zone by more than the buffer.
pub open spec fn spec_all_outside(
    loaders: Seq<(Fix3, TerrainLoader)>,
    zone: Zone,
    c: IVec3,
) -> bool {
    forall|i: int|
        0 <= i < loaders.len() ==> (#[trigger] loaders[i]).1.spec_outside(zone, c, loaders[i].0)
}

/// All loaders well-formed and within the world.
pub open spec fn loaders_wf(loaders: Seq<(Fix3, TerrainLoader)>) -> bool {
    forall|i: int|
        0 <= i < loaders.len() ==> (#[trigger] loaders[i]).1.wf() && fix3_in_range(
            loaders[i].0,
            FIX_MAX as int,
        )
}

fn any_inside(loaders: &Vec<(Fix3, TerrainLoader)>, zone: Zone, c: IVec3) -> (r: bool)
    requires
        loaders_wf(loaders@),
        crate::fixed::ivec3_in_range(c, CHUNK_MAX as int),
    ensures
        r == spec_any_inside(loaders@, zone, c),
{
    let n = loaders.len();
    let mut i: usize = 0;
    while i < n
        invariant
            i <= n,
            n == loaders@.len(),
            loaders_wf(loaders@),
            crate::fixed::ivec3_in_range(c, CHUNK_MAX as int),
            forall|j: int|
                0 <= j < i ==> !(#[trigger] loaders@[j]).1.spec_inside(zone, c, loaders@[j].0),
        decreases n - i,
    {
        let (at, loader) = loaders[i];
        if loader.inside(zone, c, at) {
            return true;
        }
        i = i + 1;
    }
    false
}

fn all_outside(loaders: &Vec<(Fix3, TerrainLoader)>, zone: Zone, c: IVec3) -> (r: bool)
    requires
        loaders_wf(loaders@),
        crate::fixed::ivec3_in_range(c, CHUNK_MAX as int),
    ensures
        r == spec_all_outside(loaders@, zone, c),
{
    let n = loaders.len();
    let mut i: usize = 0;
    while i < n
        invariant
            i <= n,
            n == loaders@.len(),
            loaders_wf(loaders@),
            crate::fixed::ivec3_in_range(c, CHUNK_MAX as int),
            forall|j: int|
                0 <= j < i ==> (#[trigger] loaders@[j]).1.spec_outside(zone, c, loaders@[j].0),
        decreases n - i,
    {
        let (at, loader) = loaders[i];
        if !loader.outside(zone, c, at) {
            return false;
        }
        i = i + 1;
    }
    true
}

/// The chunk itself and its six face-adjacent chunks, in a fixed order.
pub open spec fn spec_neighbor_chunk(c: IVec3, k: int) -> IVec3 {
    if k == 0 {
        c
    } else {
        spec_offset(c, spec_side(k - 1).spec_unit())
    }
}

/// Whether the chunk and all six face-adjacent chunk slots exist and have
/// generated blocks: the precondition for meshing without seams.
pub open spec fn spec_neighborhood_populated(s: ChunksIndex, c: IVec3) -> bool {
    forall|k: int|
        0 <= k < 7 ==> {
            let nb = #[trigger] spec_neighbor_chunk(c, k);
            s.has(nb) && s.at(nb).blocks is Some
        }
}

impl ChunksIndex {
    /// Whether the chunk and all six face-adjacent chunk slots exist and
    /// have generated blocks.
    pub fn neighborhood_populated(&self, c: IVec3) -> (r: bool)
        requires
            self.wf(),
            crate::fixed::ivec3_in_range(c, CHUNK_MAX as int),
        ensures
            r == spec_neighborhood_populated(*self, c),
    {
        let mut k: usize = 0;
        while k < 7
            invariant
                k <= 7,
                self.wf(),
                crate::fixed::ivec3_in_range(c, CHUNK_MAX as int),
                forall|j: int|
                    0 <= j < k ==> {
                        let nb = #[trigger] spec_neighbor_chunk(c, j);
                        self.has(nb) && self.at(nb).blocks is Some
                    },
            decreases 7 - k,
        {
            let nb = if k == 0 {
                c
            } else {
                c.add(side_for(k - 1).unit())
            };
            proof {
                assert(nb == spec_neighbor_chunk(c, k as int));
            }
            match self.get_record(nb) {
                None => {
                    return false;
                },
                Some(rec) => {
                    if !rec.blocks.is_some() {
                        return false;
                    }
                },
            }
            k = k + 1;
        }
        true
    }
}

/// Whether the chunk should be marked for meshing: not meshed yet, inside
/// some loader's mesh zone, and its whole neighborhood populated.
pub open spec fn spec_needs_mesh(
    s: ChunksIndex,
    loaders: Seq<(Fix3, TerrainLoader)>,
    c: IVec3,
) -> bool {
    &&& !s.at(c).meshed
    &&& spec_any_inside(loaders, Zone::Mesh, c)
    &&& spec_neighborhood_populated(s, c)
}

/// Mark every unmeshed chunk whose neighborhood is fully populated and which
/// lies in some loader's mesh zone as needing geometry.
pub fn chunk_need_mesh(index: &mut ChunksIndex, loaders: &Vec<(Fix3, TerrainLoader)>)
    requires
        old(index).wf(),
        loaders_wf(loaders@),
    ensures
        final(index).wf(),
        forall|c: IVec3| final(index).has(c) == old(index).has(c),
        forall|c: IVec3|
            old(index).has(c) ==> (#[trigger] final(index).at(c)) == (ChunkRecord {
                dirty: old(index).at(c).dirty || spec_needs_mesh(*old(index), loaders@, c),
                ..old(index).at(c)
            }),
{
    let ghost pre = *index;
    let n = index.chunks.len();
    let mut i: usize = 0;
    while i < n
        invariant
            i <= n,
            n == index.chunks@.len(),
            pre.wf(),
            index.wf(),
            loaders_wf(loaders@),
            index.chunks@.len() == pre.chunks@.len(),
            forall|j: int|
                0 <= j < n ==> (#[trigger] index.chunks@[j]).coord == pre.chunks@[j].coord,
            forall|j: int|
                i <= j < n ==> (#[trigger] index.chunks@[j]).record == pre.chunks@[j].record,
            forall|j: int|
                0 <= j < i ==> (#[trigger] index.chunks@[j]).record == (ChunkRecord {
                    dirty: pre.chunks@[j].record.dirty || spec_needs_mesh(
                        pre,
                        loaders@,
                        pre.chunks@[j].coord,
                    ),
                    ..pre.chunks@[j].record
                }),
            forall|j: int|
                0 <= j < n ==> (#[trigger] index.chunks@[j]).record.blocks
                    == pre.chunks@[j].record.blocks && index.chunks@[j].record.meshed
                    == pre.chunks@[j].record.meshed,
        decreases n - i,
    {
        let c = index.chunks[i].coord;
        let meshed = index.chunks[i].record.meshed;
        let need = if meshed {
            false
        } else if !any_inside(loaders, Zone::Mesh, c) {
            false
        } else {
            index.neighborhood_populated(c)
        };
        proof {
            lemma_pointwise_records(pre, *index);
            assert forall|k: int| 0 <= k < 7 implies ({
                let nb = #[trigger] spec_neighbor_chunk(c, k);
                (index.has(nb) && index.at(nb).blocks is Some) == (pre.has(nb) && pre.at(
                    nb,
                ).blocks is Some)
            }) by {
                let nb = spec_neighbor_chunk(c, k);
                if pre.has(nb) {
                    assert(index.at(nb).blocks == pre.at(nb).blocks);
                }
            }
            assert(spec_neighborhood_populated(*index, c) == spec_neighborhood_populated(
                pre,
                c,
            ));
            assert(need == spec_needs_mesh(pre, loaders@, c));
        }
        if need {
            let ghost mid = *index;
            let e = &mut index.chunks[i];
            e.record.dirty = true;
            proof {
                assert(index.chunks@ =~= mid.chunks@.update(
                    i as int,
                    ChunkEntry {
                        coord: mid.chunks@[i as int].coord,
                        record: index.chunks@[i as int].record,
                    },
                ));
                lemma_update_entry(mid, *index, i as int, index.chunks@[i as int].record);
            }
        }
        i = i + 1;
    }
    proof {
        lemma_pointwise_records(pre, *index);
        assert forall|c: IVec3| pre.has(c) implies (#[trigger] index.at(c)) == (ChunkRecord {
            dirty: pre.at(c).dirty || spec_needs_mesh(pre, loaders@, c),
            ..pre.at(c)
        }) by {
            let j = pre.idx_of(c);
            assert(index.at(c) == index.chunks@[j].record);
        }
    }
}

/// Evict the mesh of every meshed chunk that is beyond every loader's mesh
/// zone by more than the unload buffer.  Slots and blocks remain, in case
/// the chunk re-enters range.
pub fn chunk_deloader(index: &mut ChunksIndex, loaders: &Vec<(Fix3, TerrainLoader)>)
    requires
        old(index).wf(),
        loaders_wf(loaders@),
    ensures
        final(index).wf(),
        forall|c: IVec3| final(index).has(c) == old(index).has(c),
        forall|c: IVec3|
            old(index).has(c) ==> (#[trigger] final(index).at(c)) == (ChunkRecord {
                meshed: old(index).at(c).meshed && !spec_all_outside(loaders@, Zone::Mesh, c),
                ..old(index).at(c)
            }),
{
    let ghost pre = *index;
    let n = index.chunks.len();
    let mut i: usize = 0;
    while i < n
        invariant
            i <= n,
            n == index.chunks@.len(),
            pre.wf(),
            index.wf(),
            loaders_wf(loaders@),
            index.chunks@.len() == pre.chunks@.len(),
            forall|j: int|
                0 <= j < n ==> (#[trigger] index.chunks@[j]).coord == pre.chunks@[j].coord,
            forall|j: int|
                i <= j < n ==> (#[trigger] index.chunks@[j]).record == pre.chunks@[j].record,
            forall|j: int|
                0 <= j < i ==> (#[trigger] index.chunks@[j]).record == (ChunkRecord {
                    meshed: pre.chunks@[j].record.meshed && !spec_all_outside(
                        loaders@,
                        Zone::Mesh,
                        pre.chunks@[j].coord,
                    ),
                    ..pre.chunks@[j].record
                }),
        decreases n - i,
    {
        let c = index.chunks[i].coord;
        let meshed = index.chunks[i].record.meshed;
        if meshed && all_outside(loaders, Zone::Mesh, c) {
            let ghost mid = *index;
            let e = &mut index.chunks[i];
            e.record.meshed = false;
            proof {
                assert(index.chunks@ =~= mid.chunks@.update(
                    i as int,
                    ChunkEntry {
                        coord: mid.chunks@[i as int].coord,
                        record: index.chunks@[i as int].record,
                    },
                ));
                lemma_update_entry(mid, *index, i as int, index.chunks@[i as int].record);
            }
        }
        i = i + 1;
    }
    proof {
        lemma_pointwise_records(pre, *index);
        assert forall|c: IVec3| pre.has(c) implies (#[trigger] index.at(c)) == (ChunkRecord {
            meshed: pre.at(c).meshed && !spec_all_outside(loaders@, Zone::Mesh, c),
            ..pre.at(c)
        }) by {
            let j = pre.idx_of(c);
            assert(index.at(c) == index.chunks@[j].record);
        }
    }
}

/// Strip the render geometry of every chunk, on demand.
pub fn remove_meshes(index: &mut ChunksIndex)
    requires
        old(index).wf(),
    ensures
        final(index).wf(),
        forall|c: IVec3| final(index).has(c) == old(index).has(c),
        forall|c: IVec3|
            old(index).has(c) ==> (#[trigger] final(index).at(c)) == (ChunkRecord {
                meshed: false,
                ..old(index).at(c)
            }),
{
    let ghost pre = *index;
    let n = index.chunks.len();
    let mut i: usize = 0;
    while i < n
        invariant
            i <= n,
            n == index.chunks@.len(),
            pre.wf(),
            index.wf(),
            index.chunks@.len() == pre.chunks@.len(),
            forall|j: int|
                0 <= j < n ==> (#[trigger] index.chunks@[j]).coord == pre.chunks@[j].coord,
            forall|j: int|
                i <= j < n ==> (#[trigger] index.chunks@[j]).record == pre.chunks@[j].record,
            forall|j: int|
                0 <= j < i ==> (#[trigger] index.chunks@[j]).record == (ChunkRecord {
                    meshed: false,
                    ..pre.chunks@[j].record
                }),
        decreases n - i,
    {
        let ghost mid = *index;
        let e = &mut index.chunks[i];
        e.record.meshed = false;
        proof {
            assert(index.chunks@ =~= mid.chunks@.update(
                i as int,
                ChunkEntry {
                    coord: mid.chunks@[i as int].coord,
                    record: index.chunks@[i as int].record,
                },
            ));
            lemma_update_entry(mid, *index, i as int, index.chunks@[i as int].record);
        }
        i = i + 1;
    }
    proof {
        lemma_pointwise_records(pre, *index);
        assert forall|c: IVec3| pre.has(c) implies (#[trigger] index.at(c)) == (ChunkRecord {
            meshed: false,
            ..pre.at(c)
        }) by {
            let j = pre.idx_of(c);
            assert(index.at(c) == index.chunks@[j].record);
        }
    }
}

/// Invalidate every chunk's generated data: strip blocks and meshes so the
/// whole terrain regenerates, as after a reload of the generation
/// parameters.
pub fn invalidate_generated(index: &mut ChunksIndex)
    requires
        old(index).wf(),
    ensures
        final(index).wf(),
        forall|c: IVec3| final(index).has(c) == old(index).has(c),
        forall|c: IVec3|
            old(index).has(c) ==> (#[trigger] final(index).at(c)) == (ChunkRecord {
                blocks: None,
                meshed: false,
                dirty: old(index).at(c).dirty,
            }),
{
    let ghost pre = *index;
    let n = index.chunks.len();
    let mut i: usize = 0;
    while i < n
        invariant
            i <= n,
            n == index.chunks@.len(),
            pre.wf(),
            index.wf(),
            index.chunks@.len() == pre.chunks@.len(),
            forall|j: int|
                0 <= j < n ==> (#[trigger] index.chunks@[j]).coord == pre.chunks@[j].coord,
            forall|j: int|
                i <= j < n ==> (#[trigger] index.chunks@[j]).record == pre.chunks@[j].record,
            forall|j: int|
                0 <= j < i ==> (#[trigger] index.chunks@[j]).record == (ChunkRecord {
                    blocks: None,
                    meshed: false,
                    dirty: pre.chunks@[j].record.dirty,
                }),
        decreases n - i,
    {
        let ghost mid = *index;
        let e = &mut index.chunks[i];
        e.record.blocks = None;
        e.record.meshed = false;
        proof {
            assert(index.chunks@ =~= mid.chunks@.update(
                i as int,
                ChunkEntry {
                    coord: mid.chunks@[i as int].coord,
                    record: index.chunks@[i as int].record,
                },
            ));
            lemma_update_entry(mid, *index, i as int, index.chunks@[i as int].record);
        }
        i = i + 1;
    }
    proof {
        lemma_pointwise_records(pre, *index);
        assert forall|c: IVec3| pre.has(c) implies (#[trigger] index.at(c)) == (ChunkRecord {
            blocks: None,
            meshed: false,
            dirty: pre.at(c).dirty,
        }) by {
            let j = pre.idx_of(c);
            assert(index.at(c) == index.chunks@[j].record);
        }
    }
}

impl ChunksIndex {
    /// Record that a chunk's render geometry was rebuilt: it is meshed and
    /// no longer out of date.
    pub fn mark_meshed(&mut self, c: IVec3)
        requires
            old(self).wf(),
            old(self).has(c),
        ensures
            final(self).wf(),
            forall|c2: IVec3| final(self).has(c2) == old(self).has(c2),
            final(self).at(c) == (ChunkRecord { meshed: true, dirty: false, ..old(self).at(c) }),
            forall|c2: IVec3|
                c2 != c && old(self).has(c2) ==> final(self).at(c2) == old(self).at(c2),
    {
        let ghost pre = *self;
        let i = match self.find(c) {
            Some(i) => i,
            None => {
                proof {
                    assert(false);
                }
                0
            },
        };
        let e = &mut self.chunks[i];
        e.record.meshed = true;
        e.record.dirty = false;
        proof {
            assert(self.chunks@ =~= pre.chunks@.update(
                i as int,
                ChunkEntry {
                    coord: pre.chunks@[i as int].coord,
                    record: self.chunks@[i as int].record,
                },
            ));
            lemma_update_entry(pre, *self, i as int, self.chunks@[i as int].record);
        }
    }

    /// Install freshly generated blocks into an indexed, not yet populated
    /// chunk slot.
    pub fn install_blocks(&mut self, c: IVec3, blocks: ChunkBlocks)
        requires
            old(self).wf(),
            old(self).has(c),
            old(self).at(c).blocks is None,
            blocks.wf(),
        ensures
            final(self).wf(),
            forall|c2: IVec3| final(self).has(c2) == old(self).has(c2),
            final(self).at(c) == (ChunkRecord { blocks: Some(blocks), ..old(self).at(c) }),
            forall|c2: IVec3|
                c2 != c && old(self).has(c2) ==> final(self).at(c2) == old(self).at(c2),
    {
        let ghost pre = *self;
        let i = match self.find(c) {
            Some(i) => i,
            None => {
                proof {
                    assert(false);
                }
                0
            },
        };
        let e = &mut self.chunks[i];
        e.record.blocks = Some(blocks);
        proof {
            assert(self.chunks@ =~= pre.chunks@.update(
                i as int,
                ChunkEntry {
                    coord: pre.chunks@[i as int].coord,
                    record: self.chunks@[i as int].record,
                },
            ));
            lemma_update_entry(pre, *self, i as int, self.chunks@[i as int].record);
        }
    }
}

/// The empty chunk record a fresh slot holds.
pub open spec fn empty_record() -> ChunkRecord {
    ChunkRecord { blocks: None, meshed: false, dirty: false }
}

/// Whether a chunk lies in the candidate cube of half-width `d` around
/// `base`, within the library's world bounds.
pub open spec fn in_cube(base: IVec3, d: int, c: IVec3) -> bool {
    &&& base.x - d <= c.x <= base.x + d
    &&& base.y - d <= c.y <= base.y + d
    &&& base.z - d <= c.z <= base.z + d
    &&& crate::fixed::ivec3_in_range(c, CHUNK_MAX as int)
}

/// Ensure a slot for every chunk of the candidate cube around `base`:
/// existing slots are untouched, new ones start empty, and nothing outside
/// the cube is created.
fn index_cube(index: &mut ChunksIndex, base: IVec3, d: i64)
    requires
        old(index).wf(),
        crate::fixed::ivec3_in_range(base, 32_000),
        0 <= d <= FIX_MAX,
    ensures
        final(index).wf(),
        forall|c: IVec3| #[trigger] old(index).has(c) ==> final(index).has(c),
        forall|c: IVec3|
            old(index).has(c) ==> (#[trigger] final(index).at(c)) == old(index).at(c),
        forall|c: IVec3|
            #[trigger] final(index).has(c) ==> old(index).has(c) || in_cube(base, d as int, c),
        forall|c: IVec3| in_cube(base, d as int, c) ==> final(index).has(c),
        forall|c: IVec3|
            #[trigger] final(index).has(c) && !old(index).has(c) ==> final(index).at(c)
                == empty_record(),
{
    let ghost pre = *index;
    let mut ox: i64 = -d;
    while ox <= d
        invariant
            index.wf(),
            crate::fixed::ivec3_in_range(base, 32_000),
            0 <= d <= FIX_MAX,
            -d <= ox <= d + 1,
            forall|c: IVec3| #[trigger] pre.has(c) ==> index.has(c),
            forall|c: IVec3| pre.has(c) ==> (#[trigger] index.at(c)) == pre.at(c),
            forall|c: IVec3|
                #[trigger] index.has(c) ==> pre.has(c) || in_cube(base, d as int, c),
            forall|c: IVec3|
                #[trigger] index.has(c) && !pre.has(c) ==> index.at(c) == empty_record(),
            forall|c: IVec3|
                in_cube(base, d as int, c) && c.x < base.x + ox ==> #[trigger] index.has(c),
        decreases d - ox + 1,
    {
        let mut oy: i64 = -d;
        while oy <= d
            invariant
                index.wf(),
                crate::fixed::ivec3_in_range(base, 32_000),
                0 <= d <= FIX_MAX,
                -d <= ox <= d,
                -d <= oy <= d + 1,
                forall|c: IVec3| #[trigger] pre.has(c) ==> index.has(c),
                forall|c: IVec3| pre.has(c) ==> (#[trigger] index.at(c)) == pre.at(c),
                forall|c: IVec3|
                    #[trigger] index.has(c) ==> pre.has(c) || in_cube(base, d as int, c),
                forall|c: IVec3|
                    #[trigger] index.has(c) && !pre.has(c) ==> index.at(c) == empty_record(),
                forall|c: IVec3|
                    in_cube(base, d as int, c) && c.x < base.x + ox ==> #[trigger] index.has(c),
                forall|c: IVec3|
                    in_cube(base, d as int, c) && c.x == base.x + ox && c.y < base.y + oy
                        ==> #[trigger] index.has(c),
            decreases d - oy + 1,
        {
            let mut oz: i64 = -d;
            while oz <= d
                invariant
                    index.wf(),
                    crate::fixed::ivec3_in_range(base, 32_000),
                    0 <= d <= FIX_MAX,
                    -d <= ox <= d,
                    -d <= oy <= d,
                    -d <= oz <= d + 1,
                    forall|c: IVec3| #[trigger] pre.has(c) ==> index.has(c),
                    forall|c: IVec3| pre.has(c) ==> (#[trigger] index.at(c)) == pre.at(c),
                    forall|c: IVec3|
                        #[trigger] index.has(c) ==> pre.has(c) || in_cube(base, d as int, c),
                    forall|c: IVec3|
                        #[trigger] index.has(c) && !pre.has(c) ==> index.at(c) == empty_record(),
                    forall|c: IVec3|
                        in_cube(base, d as int, c) && c.x < base.x + ox ==> #[trigger] index.has(
                            c,
                        ),
                    forall|c: IVec3|
                        in_cube(base, d as int, c) && c.x == base.x + ox && c.y < base.y + oy
                            ==> #[trigger] index.has(c),
                    forall|c: IVec3|
                        in_cube(base, d as int, c) && c.x == base.x + ox && c.y == base.y + oy
                            && c.z < base.z + oz ==> #[trigger] index.has(c),
                decreases d - oz + 1,
            {
                let c = IVec3 { x: base.x + ox, y: base.y + oy, z: base.z + oz };
                let in_world = abs64(c.x) <= CHUNK_MAX && abs64(c.y) <= CHUNK_MAX && abs64(c.z)
                    <= CHUNK_MAX;
                if in_world {
                    index.ensure_slot(c);
                }
                oz = oz + 1;
            }
            oy = oy + 1;
        }
        ox = ox + 1;
    }
}

/// Which chunks a loader standing at a point asks to have indexed: the cube
/// of candidate chunks around the loader's own chunk.
pub open spec fn spec_loader_cube(at: Fix3, loader: TerrainLoader, c: IVec3) -> bool {
    in_cube(
        spec_chunk_vec(spec_voxel_of(at)),
        loader.radius as int / (CHUNK_WIDTH_FIX as int) + 2,
        c,
    )
}

/// Ensure a chunk slot exists for every candidate chunk within every
/// loader's range; never removes or changes a slot.
pub fn chunk_indexer(index: &mut ChunksIndex, loaders: &Vec<(Fix3, TerrainLoader)>)
    requires
        old(index).wf(),
        loaders_wf(loaders@),
    ensures
        final(index).wf(),
        forall|c: IVec3|
            old(index).has(c) ==> final(index).has(c) && (#[trigger] final(index).at(c))
                == old(index).at(c),
        forall|c: IVec3|
            #[trigger] final(index).has(c) ==> old(index).has(c) || exists|i: int|
                0 <= i < loaders@.len() && spec_loader_cube(
                    (#[trigger] loaders@[i]).0,
                    loaders@[i].1,
                    c,
                ),
        forall|i: int, c: IVec3|
            0 <= i < loaders@.len() && spec_loader_cube((#[trigger] loaders@[i]).0, loaders@[i].1, c)
                ==> #[trigger] final(index).has(c),
        forall|c: IVec3|
            #[trigger] final(index).has(c) && !old(index).has(c) ==> final(index).at(c)
                == empty_record(),
{
    let ghost pre = *index;
    let n = loaders.len();
    let mut i: usize = 0;
    while i < n
        invariant
            i <= n,
            n == loaders@.len(),
            index.wf(),
            loaders_wf(loaders@),
            forall|c: IVec3| #[trigger] pre.has(c) ==> index.has(c),
            forall|c: IVec3| pre.has(c) ==> (#[trigger] index.at(c)) == pre.at(c),
            forall|c: IVec3|
                #[trigger] index.has(c) ==> pre.has(c) || exists|j: int|
                    0 <= j < loaders@.len() && spec_loader_cube(
                        (#[trigger] loaders@[j]).0,
                        loaders@[j].1,
                        c,
                    ),
            forall|j: int, c: IVec3|
                0 <= j < i && spec_loader_cube((#[trigger] loaders@[j]).0, loaders@[j].1, c)
                    ==> #[trigger] index.has(c),
            forall|c: IVec3|
                #[trigger] index.has(c) && !pre.has(c) ==> index.at(c) == empty_record(),
        decreases n - i,
    {
        let (at, loader) = loaders[i];
        let v = voxel_of(at);
        let (base, _) = global_to_local(v);
        let d = loader.range();
        proof {
            assert(base == spec_chunk_vec(spec_voxel_of(at)));
        }
        let ghost prev = *index;
        index_cube(index, base, d);
        proof {
            assert forall|c: IVec3| #[trigger] index.has(c) implies prev.has(c) || spec_loader_cube(
                loaders@[i as int].0,
                loaders@[i as int].1,
                c,
            ) by {}
            assert forall|c: IVec3| #[trigger] index.has(c) implies pre.has(c) || exists|j: int|
                0 <= j < loaders@.len() && spec_loader_cube(
                    (#[trigger] loaders@[j]).0,
                    loaders@[j].1,
                    c,
                ) by {
                if !pre.has(c) {
                    if prev.has(c) {
                    } else {
                        assert(spec_loader_cube(loaders@[i as int].0, loaders@[i as int].1, c));
                    }
                }
            }
            assert forall|j: int, c: IVec3|
                0 <= j <= i && spec_loader_cube(
                    (#[trigger] loaders@[j]).0,
                    loaders@[j].1,
                    c,
                ) implies #[trigger] index.has(c) by {
                if j == i {
                    assert(in_cube(base, d as int, c));
                } else {
                    assert(prev.has(c));
                }
            }
        }
        i = i + 1;
    }
}

/// The urgency of generating a chunk, seen by the first `n` loaders: the
/// smallest blocks-zone distance among the loaders whose zone contains it,
/// nothing when none does.
pub open spec fn spec_priority_upto(
    loaders: Seq<(Fix3, TerrainLoader)>,
    c: IVec3,
    n: int,
) -> Option<int>
    decreases n,
{
    if n <= 0 {
        None
    } else {
        let prev = spec_priority_upto(loaders, c, n - 1);
        let l = loaders[n - 1];
        if l.1.spec_inside(Zone::Blocks, c, l.0) {
            let d = Zone::Blocks.spec_distance(c, l.0);
            match prev {
                None => Some(d),
                Some(p) => Some(
                    if d < p {
                        d
                    } else {
                        p
                    },
                ),
            }
        } else {
            prev
        }
    }
}

/// The urgency of generating a chunk: the smallest blocks-zone distance
/// among the loaders whose zone contains it, nothing when none does.
pub open spec fn spec_priority(loaders: Seq<(Fix3, TerrainLoader)>, c: IVec3) -> Option<int> {
    spec_priority_upto(loaders, c, loaders.len() as int)
}

fn priority(loaders: &Vec<(Fix3, TerrainLoader)>, c: IVec3) -> (r: Option<i64>)
    requires
        loaders_wf(loaders@),
        crate::fixed::ivec3_in_range(c, CHUNK_MAX as int),
    ensures
        match r {
            Some(v) => spec_priority(loaders@, c) == Some(v as int),
            None => spec_priority(loaders@, c) is None,
        },
{
    let n = loaders.len();
    let mut cur: Option<i64> = None;
    let mut i: usize = 0;
    while i < n
        invariant
            i <= n,
            n == loaders@.len(),
            loaders_wf(loaders@),
            crate::fixed::ivec3_in_range(c, CHUNK_MAX as int),
            match cur {
                Some(v) => spec_priority_upto(loaders@, c, i as int) == Some(v as int),
                None => spec_priority_upto(loaders@, c, i as int) is None,
            },
        decreases n - i,
    {
        let (at, loader) = loaders[i];
        match loader.inside_priority(Zone::Blocks, c, at) {
            None => {},
            Some(d) => {
                cur = match cur {
                    None => Some(d),
                    Some(p) => Some(
                        if d < p {
                            d
                        } else {
                            p
                        },
                    ),
                };
            },
        }
        i = i + 1;
    }
    cur
}

/// The indexed, not yet populated chunk most urgent to generate: one whose
/// smallest in-zone distance over all loaders is minimal.  Nothing when no
/// unpopulated chunk lies in any loader's blocks zone — a chunk outside
/// every blocks zone is left unpopulated.  One chunk per call: the
/// deliberate per-tick generation throttle.
pub fn next_chunk_to_generate(
    index: &ChunksIndex,
    loaders: &Vec<(Fix3, TerrainLoader)>,
) -> (r: Option<IVec3>)
    requires
        index.wf(),
        loaders_wf(loaders@),
    ensures
        match r {
            Some(c) => {
                &&& index.has(c) && index.at(c).blocks is None
                &&& spec_priority(loaders@, c) is Some
                &&& forall|c2: IVec3|
                    index.has(c2) && index.at(c2).blocks is None && (#[trigger] spec_priority(
                        loaders@,
                        c2,
                    )) is Some ==> spec_priority(loaders@, c)->Some_0 <= spec_priority(
                        loaders@,
                        c2,
                    )->Some_0
            },
            None => forall|c2: IVec3|
                #[trigger] index.has(c2) && index.at(c2).blocks is None ==> spec_priority(
                    loaders@,
                    c2,
                ) is None,
        },
{
    let n = index.chunks.len();
    let mut best: Option<(IVec3, i64)> = None;
    let mut i: usize = 0;
    while i < n
        invariant
            i <= n,
            n == index.chunks@.len(),
            index.wf(),
            loaders_wf(loaders@),
            match best {
                Some((bc, bp)) => index.has(bc) && index.at(bc).blocks is None && spec_priority(
                    loaders@,
                    bc,
                ) == Some(bp as int),
                None => true,
            },
            forall|j: int|
                0 <= j < i && (#[trigger] index.chunks@[j]).record.blocks is None
                    && spec_priority(loaders@, index.chunks@[j].coord) is Some ==> best is Some
                    && best->Some_0.1 as int <= spec_priority(
                    loaders@,
                    index.chunks@[j].coord,
                )->Some_0,
        decreases n - i,
    {
        let c = index.chunks[i].coord;
        let populated = index.chunks[i].record.blocks.is_some();
        if !populated {
            match priority(loaders, c) {
                None => {},
                Some(p) => {
                    let take = match &best {
                        None => true,
                        Some((_, bp)) => p < *bp,
                    };
                    if take {
                        proof {
                            assert(index.chunks@[i as int].coord == c);
                            assert(index.has(c));
                            let k = index.idx_of(c);
                            assert(index.chunks@[k].coord == c);
                            assert(k == i);
                            assert(index.at(c).blocks is None);
                        }
                        best = Some((c, p));
                    }
                },
            }
        }
        i = i + 1;
    }
    match best {
        None => {
            proof {
                assert forall|c2: IVec3|
                    #[trigger] index.has(c2) && index.at(c2).blocks is None implies spec_priority(
                    loaders@,
                    c2,
                ) is None by {
                    let j = index.idx_of(c2);
                    assert(index.chunks@[j].coord == c2);
                    assert(index.chunks@[j].record == index.at(c2));
                }
            }
            None
        },
        Some((bc, _)) => {
            proof {
                assert forall|c2: IVec3|
                    index.has(c2) && index.at(c2).blocks is None && (#[trigger] spec_priority(
                        loaders@,
                        c2,
                    )) is Some implies spec_priority(loaders@, bc)->Some_0 <= spec_priority(
                    loaders@,
                    c2,
                )->Some_0 by {
                    let j = index.idx_of(c2);
                    assert(index.chunks@[j].coord == c2);
                    assert(index.chunks@[j].record == index.at(c2));
                }
            }
            Some(bc)
        },
    }
}

/// Solidity lookup across chunk boundaries: which stored chunk answers for a
/// chunk-relative coordinate, and at which in-chunk coordinate.  A
/// coordinate one step beyond a face belongs to that face's neighbor; only
/// face neighbors are ever resolved, never diagonal ones.
pub open spec fn spec_neighborhood_solid(nb: Neighborhood<&ChunkBlocks>, rel: IVec3) -> bool {
    if rel.x == -1 {
        nb.x_neg.solid(IVec3 { x: (CHUNK_WIDTH - 1) as i64, ..rel })
    } else if rel.y == -1 {
        nb.y_neg.solid(IVec3 { y: (CHUNK_WIDTH - 1) as i64, ..rel })
    } else if rel.z == -1 {
        nb.z_neg.solid(IVec3 { z: (CHUNK_WIDTH - 1) as i64, ..rel })
    } else if rel.x == CHUNK_WIDTH {
        nb.x_pos.solid(IVec3 { x: 0, ..rel })
    } else if rel.y == CHUNK_WIDTH {
        nb.y_pos.solid(IVec3 { y: 0, ..rel })
    } else if rel.z == CHUNK_WIDTH {
        nb.z_pos.solid(IVec3 { z: 0, ..rel })
    } else {
        nb.zero.solid(rel)
    }
}

impl<'a> Neighborhood<&'a ChunkBlocks> {
    /// Whether the voxel at a chunk-relative coordinate is solid, crossing
    /// into the right face-adjacent chunk where the coordinate leaves the
    /// chunk by one step on one axis.
    pub fn get(&self, relative: IVec3) -> (r: bool)
        requires
            -1 <= relative.x <= CHUNK_WIDTH,
            -1 <= relative.y <= CHUNK_WIDTH,
            -1 <= relative.z <= CHUNK_WIDTH,
            (if relative.x == -1 || relative.x == CHUNK_WIDTH {
                1int
            } else {
                0int
            }) + (if relative.y == -1 || relative.y == CHUNK_WIDTH {
                1int
            } else {
                0int
            }) + (if relative.z == -1 || relative.z == CHUNK_WIDTH {
                1int
            } else {
                0int
            }) <= 1,
        ensures
            r == spec_neighborhood_solid(*self, relative),
    {
        if relative.x == -1 {
            self.x_neg.get(IVec3 { x: CHUNK_WIDTH - 1, ..relative })
        } else if relative.y == -1 {
            self.y_neg.get(IVec3 { y: CHUNK_WIDTH - 1, ..relative })
        } else if relative.z == -1 {
            self.z_neg.get(IVec3 { z: CHUNK_WIDTH - 1, ..relative })
        } else if relative.x == CHUNK_WIDTH {
            self.x_pos.get(IVec3 { x: 0, ..relative })
        } else if relative.y == CHUNK_WIDTH {
            self.y_pos.get(IVec3 { y: 0, ..relative })
        } else if relative.z == CHUNK_WIDTH {
            self.z_pos.get(IVec3 { z: 0, ..relative })
        } else {
            self.zero.get(relative)
        }
    }
}

impl ChunksIndex {
    /// The generated blocks of one chunk, if present.
    fn blocks_of(&self, nb: IVec3) -> (r: Option<&ChunkBlocks>)
        requires
            self.wf(),
        ensures
            match r {
                Some(b) => self.has(nb) && self.at(nb).blocks is Some && *b == self.at(
                    nb,
                ).blocks->Some_0,
                None => !(self.has(nb) && self.at(nb).blocks is Some),
            },
    {
        match self.get_record(nb) {
            None => None,
            Some(rec) => match &rec.blocks {
                None => None,
                Some(b) => Some(b),
            },
        }
    }

    /// The block storages of a chunk and its six face-adjacent chunks, for
    /// meshing: available exactly when the whole neighborhood is populated.
    pub fn neighborhood(&self, c: IVec3) -> (r: Option<Neighborhood<&ChunkBlocks>>)
        requires
            self.wf(),
            crate::fixed::ivec3_in_range(c, CHUNK_MAX as int),
        ensures
            match r {
                Some(nb) => {
                    &&& spec_neighborhood_populated(*self, c)
                    &&& *nb.zero == self.at(spec_neighbor_chunk(c, 0)).blocks->Some_0
                    &&& *nb.x_pos == self.at(spec_neighbor_chunk(c, 1)).blocks->Some_0
                    &&& *nb.x_neg == self.at(spec_neighbor_chunk(c, 2)).blocks->Some_0
                    &&& *nb.y_pos == self.at(spec_neighbor_chunk(c, 3)).blocks->Some_0
                    &&& *nb.y_neg == self.at(spec_neighbor_chunk(c, 4)).blocks->Some_0
                    &&& *nb.z_pos == self.at(spec_neighbor_chunk(c, 5)).blocks->Some_0
                    &&& *nb.z_neg == self.at(spec_neighbor_chunk(c, 6)).blocks->Some_0
                },
                None => !spec_neighborhood_populated(*self, c),
            },
    {
        let c1 = c.add(side_for(0).unit());
        let c2 = c.add(side_for(1).unit());
        let c3 = c.add(side_for(2).unit());
        let c4 = c.add(side_for(3).unit());
        let c5 = c.add(side_for(4).unit());
        let c6 = c.add(side_for(5).unit());
        proof {
            assert(c == spec_neighbor_chunk(c, 0));
            assert(c1 == spec_neighbor_chunk(c, 1));
            assert(c2 == spec_neighbor_chunk(c, 2));
            assert(c3 == spec_neighbor_chunk(c, 3));
            assert(c4 == spec_neighbor_chunk(c, 4));
            assert(c5 == spec_neighbor_chunk(c, 5));
            assert(c6 == spec_neighbor_chunk(c, 6));
        }
        let zero = match self.blocks_of(c) {
            Some(b) => b,
            None => {
                return None;
            },
        };
        let x_pos = match self.blocks_of(c1) {
            Some(b) => b,
            None => {
                return None;
            },
        };
        let x_neg = match self.blocks_of(c2) {
            Some(b) => b,
            None => {
                return None;
            },
        };
        let y_pos = match self.blocks_of(c3) {
            Some(b) => b,
            None => {
                return None;
            },
        };
        let y_neg = match self.blocks_of(c4) {
            Some(b) => b,
            None => {
                return None;
            },
        };
        let z_pos = match self.blocks_of(c5) {
            Some(b) => b,
            None => {
                return None;
            },
        };
        let z_neg = match self.blocks_of(c6) {
            Some(b) => b,
            None => {
                return None;
            },
        };
        proof {
            assert forall|k: int| 0 <= k < 7 implies ({
                let nb = #[trigger] spec_neighbor_chunk(c, k);
                self.has(nb) && self.at(nb).blocks is Some
            }) by {
                if k == 0 {
                    assert(spec_neighbor_chunk(c, 0) == c);
                } else if k == 1 {
                    assert(spec_neighbor_chunk(c, 1) == c1);
                } else if k == 2 {
                    assert(spec_neighbor_chunk(c, 2) == c2);
                } else if k == 3 {
                    assert(spec_neighbor_chunk(c, 3) == c3);
                } else if k == 4 {
                    assert(spec_neighbor_chunk(c, 4) == c4);
                } else if k == 5 {
                    assert(spec_neighbor_chunk(c, 5) == c5);
                } else {
                    assert(spec_neighbor_chunk(c, 6) == c6);
                }
            }
        }
        Some(Neighborhood { zero, x_pos, x_neg, y_pos, y_neg, z_pos, z_neg })
    }
}

impl Block {
    /// The texture atlas layer each face of the block renders with, none
    /// for air.
    pub fn textures(self) -> (r: Option<Sides<u32>>)
        ensures
            self == Block::Air ==> r is None,
            self == Block::Grass ==> r == Some(
                Sides::<u32> { x_pos: 2u32, x_neg: 2u32, y_pos: 3u32, y_neg: 1u32, z_pos: 2u32, z_neg: 2u32 },
            ),
            self == Block::Stone ==> r == Some(
                Sides::<u32> { x_pos: 0u32, x_neg: 0u32, y_pos: 0u32, y_neg: 0u32, z_pos: 0u32, z_neg: 0u32 },
            ),
            self == Block::Dirt ==> r == Some(
                Sides::<u32> { x_pos: 1u32, x_neg: 1u32, y_pos: 1u32, y_neg: 1u32, z_pos: 1u32, z_neg: 1u32 },
            ),
            self == Block::Sand ==> r == Some(
                Sides::<u32> { x_pos: 4u32, x_neg: 4u32, y_pos: 4u32, y_neg: 4u32, z_pos: 4u32, z_neg: 4u32 },
            ),
    {
        match self {
            Block::Air => None,
            Block::Grass => Some(
                Sides { x_pos: 2, x_neg: 2, y_pos: 3, y_neg: 1, z_pos: 2, z_neg: 2 },
            ),
            Block::Stone => Some(
                Sides { x_pos: 0, x_neg: 0, y_pos: 0, y_neg: 0, z_pos: 0, z_neg: 0 },
            ),
            Block::Dirt => Some(
                Sides { x_pos: 1, x_neg: 1, y_pos: 1, y_neg: 1, z_pos: 1, z_neg: 1 },
            ),
            Block::Sand => Some(
                Sides { x_pos: 4, x_neg: 4, y_pos: 4, y_neg: 4, z_pos: 4, z_neg: 4 },
            ),
        }
    }
}

} // verus!
