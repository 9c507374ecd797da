//! Filling a chunk's blocks from per-column terrain profiles.
//!
//! The generation collaborator samples, for each of the chunk's 32 by 32
//! columns, a bedrock elevation and a sediment depth; this module turns
//! those profiles into the chunk's sparse block storage: stone below the
//! bedrock, the sediment rows on it — sand near sea level, dirt under a
//! grass top — and nothing above.

use vstd::prelude::*;
use crate::fixed::{iabs, IVec3};
use crate::terrain::{local_in_chunk, spec_pack, Block, ChunkBlocks, CHUNK_MAX, CHUNK_WIDTH};

verus! {

/// One column's terrain profile: the bedrock elevation (a global height)
/// and how many sediment rows lie on it.
#[derive(Clone, Copy, PartialEq, Eq, Structural, Debug)]
pub struct Profile {
    pub bedrock: i64,
    pub sediment: i64,
}

/// Bound on the magnitude of a profile's fields.
pub const PROFILE_MAX: i64 = 1_000_000_000;

pub open spec fn profile_wf(p: Profile) -> bool {
    iabs(p.bedrock as int) <= PROFILE_MAX && 0 <= p.sediment <= PROFILE_MAX
}

/// The block of a column at global height `gy`: stone below the bedrock
/// elevation, then the sediment rows — sand where the bedrock is near sea
/// level, otherwise dirt under a grass top — and air above.
pub open spec fn spec_column_block(p: Profile, gy: int) -> Block {
    if gy < p.bedrock {
        Block::Stone
    } else if gy < p.bedrock + p.sediment {
        if p.bedrock < 2 {
            Block::Sand
        } else if gy == p.bedrock + p.sediment - 1 {
            Block::Grass
        } else {
            Block::Dirt
        }
    } else {
        Block::Air
    }
}

/// The block of a column at global height `gy`.
pub fn column_block(p: Profile, gy: i64) -> (b: Block)
    requires
        profile_wf(p),
        -0x1000_0000 <= gy <= 0x1000_0000,
    ensures
        b == spec_column_block(p, gy as int),
{
    if gy < p.bedrock {
        Block::Stone
    } else if gy < p.bedrock + p.sediment {
        if p.bedrock < 2 {
            Block::Sand
        } else if gy == p.bedrock + p.sediment - 1 {
            Block::Grass
        } else {
            Block::Dirt
        }
    } else {
        Block::Air
    }
}

/// The local coordinate a packed key stands for.
pub open spec fn spec_unpack(k: u64) -> IVec3 {
    IVec3 {
        x: (k as int % 32) as i64,
        y: ((k as int / 32) % 32) as i64,
        z: ((k as int / 1024) % 32) as i64,
    }
}

/// Unpacking a packed local coordinate gives the coordinate back.
proof fn lemma_pack_unpack(l: IVec3)
    requires
        local_in_chunk(l),
    ensures
        spec_unpack(spec_pack(l)) == l,
{
    let k = l.x + 32 * l.y + 1024 * l.z;
    assert(0 <= k < 32768);
    assert(spec_pack(l) as int == k);
    vstd::arithmetic::div_mod::lemma_fundamental_div_mod_converse_div(
        k,
        32,
        l.y + 32 * l.z,
        l.x as int,
    );
    vstd::arithmetic::div_mod::lemma_fundamental_div_mod_converse_mod(
        k,
        32,
        l.y + 32 * l.z,
        l.x as int,
    );
    vstd::arithmetic::div_mod::lemma_fundamental_div_mod_converse_div(
        l.y + 32 * l.z,
        32,
        l.z as int,
        l.y as int,
    );
    vstd::arithmetic::div_mod::lemma_fundamental_div_mod_converse_mod(
        l.y + 32 * l.z,
        32,
        l.z as int,
        l.y as int,
    );
    vstd::arithmetic::div_mod::lemma_fundamental_div_mod_converse_div(
        k,
        1024,
        l.z as int,
        l.x + 32 * l.y,
    );
    vstd::arithmetic::div_mod::lemma_fundamental_div_mod_converse_mod(
        l.z as int,
        32,
        0,
        l.z as int,
    );
    assert((k / 32) % 32 == l.y);
    assert((k / 1024) % 32 == l.z);
}

/// Every small key unpacks to a local coordinate that packs back to it.
proof fn lemma_unpack_pack(k: u64)
    requires
        k < 32768,
    ensures
        local_in_chunk(spec_unpack(k)),
        spec_pack(spec_unpack(k)) == k,
{
    let ki = k as int;
    vstd::arithmetic::div_mod::lemma_fundamental_div_mod(ki, 32);
    vstd::arithmetic::div_mod::lemma_mod_bound(ki, 32);
    vstd::arithmetic::div_mod::lemma_fundamental_div_mod(ki / 32, 32);
    vstd::arithmetic::div_mod::lemma_mod_bound(ki / 32, 32);
    vstd::arithmetic::div_mod::lemma_fundamental_div_mod(ki, 1024);
    vstd::arithmetic::div_mod::lemma_mod_bound(ki, 1024);
    vstd::arithmetic::div_mod::lemma_div_pos_is_pos(ki, 32);
    vstd::arithmetic::div_mod::lemma_div_pos_is_pos(ki / 32, 32);
    vstd::arithmetic::div_mod::lemma_div_pos_is_pos(ki, 1024);
    assert(ki / 32 < 1024) by {
        vstd::arithmetic::div_mod::lemma_div_is_ordered(ki, 32767, 32);
    };
    assert(ki / 1024 < 32) by {
        vstd::arithmetic::div_mod::lemma_div_is_ordered(ki, 32767, 1024);
    };
    assert(ki / 1024 == (ki / 32) / 32) by {
        vstd::arithmetic::div_mod::lemma_div_denominator(ki, 32, 32);
    };
    assert(ki == 32 * (ki / 32) + ki % 32);
    assert(ki / 32 == 32 * ((ki / 32) / 32) + (ki / 32) % 32);
    assert(ki == ki % 32 + 32 * ((ki / 32) % 32) + 1024 * ((ki / 32) / 32)) by (nonlinear_arith)
        requires
            ki == 32 * (ki / 32) + ki % 32,
            ki / 32 == 32 * ((ki / 32) / 32) + (ki / 32) % 32,
    ;
}

/// The block the generated chunk holds under a packed key.
pub open spec fn spec_expected(profiles: Seq<Profile>, chunk_y: i64, k: u64) -> Block {
    let u = spec_unpack(k);
    spec_column_block(profiles[u.x * 32 + u.z], 32 * chunk_y + u.y)
}

/// Whether the column of a packed key comes before the column `(x, z)` in
/// generation order.
pub open spec fn spec_col_before(k: u64, x: int, z: int) -> bool {
    let u = spec_unpack(k);
    u.x < x || (u.x == x && u.z < z)
}

/// Generate a chunk's blocks from its 32 by 32 column profiles, indexed by
/// `x * CHUNK_WIDTH + z`: every voxel holds exactly the block its column's
/// profile prescribes for its global height, and air is never stored.
pub fn generate(chunk: IVec3, profiles: &Vec<Profile>) -> (r: ChunkBlocks)
    requires
        profiles@.len() == CHUNK_WIDTH * CHUNK_WIDTH,
        crate::fixed::ivec3_in_range(chunk, CHUNK_MAX as int),
        forall|i: int| 0 <= i < profiles@.len() ==> profile_wf(#[trigger] profiles@[i]),
    ensures
        r.wf(),
        forall|l: IVec3|
            local_in_chunk(l) ==> {
                let b = spec_column_block(
                    profiles@[l.x * 32 + l.z],
                    32 * chunk.y + l.y,
                );
                &&& (#[trigger] r.blocks@.contains_key(spec_pack(l))) == (b != Block::Air)
                &&& (b != Block::Air ==> r.blocks@[spec_pack(l)] == b)
            },
{
    let mut blocks = ChunkBlocks::new();
    let mut x: i64 = 0;
    while x < CHUNK_WIDTH
        invariant
            0 <= x <= CHUNK_WIDTH,
            profiles@.len() == CHUNK_WIDTH * CHUNK_WIDTH,
            crate::fixed::ivec3_in_range(chunk, CHUNK_MAX as int),
            forall|i: int| 0 <= i < profiles@.len() ==> profile_wf(#[trigger] profiles@[i]),
            blocks.wf(),
            forall|k: u64|
                k < 32768 ==> (#[trigger] blocks.blocks@.contains_key(k)) == (spec_col_before(
                    k,
                    x as int,
                    0,
                ) && spec_expected(profiles@, chunk.y, k) != Block::Air),
            forall|k: u64|
                k < 32768 && blocks.blocks@.contains_key(k) ==> (#[trigger] blocks.blocks@[k])
                    == spec_expected(profiles@, chunk.y, k),
        decreases CHUNK_WIDTH - x,
    {
        let mut z: i64 = 0;
        while z < CHUNK_WIDTH
            invariant
                0 <= x < CHUNK_WIDTH,
                0 <= z <= CHUNK_WIDTH,
                profiles@.len() == CHUNK_WIDTH * CHUNK_WIDTH,
                crate::fixed::ivec3_in_range(chunk, CHUNK_MAX as int),
                forall|i: int| 0 <= i < profiles@.len() ==> profile_wf(#[trigger] profiles@[i]),
                blocks.wf(),
                forall|k: u64|
                    k < 32768 ==> (#[trigger] blocks.blocks@.contains_key(k)) == (spec_col_before(
                        k,
                        x as int,
                        z as int,
                    ) && spec_expected(profiles@, chunk.y, k) != Block::Air),
                forall|k: u64|
                    k < 32768 && blocks.blocks@.contains_key(k) ==> (
                    #[trigger] blocks.blocks@[k]) == spec_expected(profiles@, chunk.y, k),
            decreases CHUNK_WIDTH - z,
        {
            let profile = profiles[(x * CHUNK_WIDTH + z) as usize];
            let mut y: i64 = 0;
            while y < CHUNK_WIDTH
                invariant
                    0 <= x < CHUNK_WIDTH,
                    0 <= z < CHUNK_WIDTH,
                    0 <= y <= CHUNK_WIDTH,
                    profiles@.len() == CHUNK_WIDTH * CHUNK_WIDTH,
                    crate::fixed::ivec3_in_range(chunk, CHUNK_MAX as int),
                    forall|i: int|
                        0 <= i < profiles@.len() ==> profile_wf(#[trigger] profiles@[i]),
                    profile == profiles@[x * 32 + z],
                    blocks.wf(),
                    forall|k: u64|
                        k < 32768 ==> (#[trigger] blocks.blocks@.contains_key(k)) == ((
                        spec_col_before(k, x as int, z as int) || (spec_unpack(k).x == x
                            && spec_unpack(k).z == z && spec_unpack(k).y < y)) && spec_expected(
                            profiles@,
                            chunk.y,
                            k,
                        ) != Block::Air),
                    forall|k: u64|
                        k < 32768 && blocks.blocks@.contains_key(k) ==> (
                        #[trigger] blocks.blocks@[k]) == spec_expected(profiles@, chunk.y, k),
                decreases CHUNK_WIDTH - y,
            {
                let l = IVec3 { x, y, z };
                let gy = CHUNK_WIDTH * chunk.y + y;
                let block = column_block(profile, gy);
                proof {
                    lemma_pack_unpack(l);
                }
                if block != Block::Air {
                    blocks.place(l, block);
                }
                proof {
                    assert forall|k: u64| k < 32768 implies (
                    #[trigger] blocks.blocks@.contains_key(k)) == ((spec_col_before(
                        k,
                        x as int,
                        z as int,
                    ) || (spec_unpack(k).x == x && spec_unpack(k).z == z && spec_unpack(k).y < y
                        + 1)) && spec_expected(profiles@, chunk.y, k) != Block::Air) by {
                        lemma_unpack_pack(k);
                        if spec_unpack(k) == l {
                            assert(k == spec_pack(l));
                        }
                    }
                }
                y = y + 1;
            }
            proof {
                assert forall|k: u64| k < 32768 implies ((spec_col_before(k, x as int, z as int)
                    || (spec_unpack(k).x == x && spec_unpack(k).z == z && spec_unpack(k).y < 32))
                    == spec_col_before(k, x as int, z as int + 1)) by {
                    lemma_unpack_pack(k);
                }
            }
            z = z + 1;
        }
        proof {
            assert forall|k: u64| k < 32768 implies (spec_col_before(k, x as int, 32)
                == spec_col_before(k, x as int + 1, 0)) by {
                lemma_unpack_pack(k);
            }
        }
        x = x + 1;
    }
    proof {
        assert forall|l: IVec3| local_in_chunk(l) implies {
            let b = spec_column_block(profiles@[l.x * 32 + l.z], 32 * chunk.y + l.y);
            &&& (#[trigger] blocks.blocks@.contains_key(spec_pack(l))) == (b != Block::Air)
            &&& (b != Block::Air ==> blocks.blocks@[spec_pack(l)] == b)
        } by {
            lemma_pack_unpack(l);
            assert(spec_pack(l) < 32768);
            assert(spec_col_before(spec_pack(l), 32, 0));
        }
    }
    blocks
}

} // verus!
