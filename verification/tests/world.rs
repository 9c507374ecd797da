use voxelcore::fixed::{Fix3, IVec3, SCALE};
use voxelcore::physics::{apply_gravity, apply_velocity, pointed_block, Collider, Velocity};
use voxelcore::terrain::generation::{generate, Profile};
use voxelcore::terrain::{
    apply_modifications, chunk_deloader, chunk_indexer, chunk_need_mesh, global_to_local,
    invalidate_generated, next_chunk_to_generate, remove_meshes, Block, ChunkBlocks, ChunksIndex,
    Modifications, Modify, TerrainLoader,
};

fn iv(x: i64, y: i64, z: i64) -> IVec3 {
    IVec3 { x, y, z }
}

fn fx(x: i64, y: i64, z: i64) -> Fix3 {
    Fix3 { x, y, z }
}

/// A world with the chunk at `chunk` populated with the given solid voxels
/// (global coordinates).
fn world_with(chunks: &[IVec3], solid: &[IVec3]) -> ChunksIndex {
    let mut index = ChunksIndex::new();
    for &c in chunks {
        index.ensure_slot(c);
        index.install_blocks(c, ChunkBlocks::new());
    }
    let mut queue = Modifications::new();
    for &g in solid {
        queue.push(Modify::Place { at: g });
    }
    apply_modifications(&mut index, &mut queue);
    index
}

#[test]
fn solid_queries_cross_chunks_and_tolerate_missing_data() {
    let index = world_with(&[iv(0, 0, 0), iv(1, 0, 0)], &[iv(5, 5, 5), iv(32, 5, 5)]);
    assert!(index.get(iv(5, 5, 5)));
    assert!(index.get(iv(32, 5, 5)));
    assert!(!index.get(iv(6, 5, 5)));
    // unindexed chunk: reports no data rather than failing
    assert!(!index.get(iv(-1, 5, 5)));
}

#[test]
fn place_then_remove_round_trips() {
    let mut index = world_with(&[iv(0, 0, 0)], &[]);
    let mut queue = Modifications::new();
    queue.push(Modify::Place { at: iv(3, 4, 5) });
    apply_modifications(&mut index, &mut queue);
    assert!(index.get(iv(3, 4, 5)));
    queue.push(Modify::Remove { at: iv(3, 4, 5) });
    apply_modifications(&mut index, &mut queue);
    assert!(!index.get(iv(3, 4, 5)));
}

#[test]
fn edits_to_unloaded_chunks_are_dropped_silently() {
    let mut index = world_with(&[iv(0, 0, 0)], &[]);
    let mut queue = Modifications::new();
    queue.push(Modify::Place { at: iv(100, 100, 100) });
    queue.push(Modify::Remove { at: iv(-5, 0, 0) });
    apply_modifications(&mut index, &mut queue);
    assert!(!index.get(iv(100, 100, 100)));
}

#[test]
fn removing_twice_marks_dirty_only_once() {
    let mut index = world_with(&[iv(0, 0, 0)], &[iv(5, 5, 5)]);
    // settle the dirty flag left by the setup edit
    index.mark_meshed(iv(0, 0, 0));
    assert!(!index.get_record(iv(0, 0, 0)).unwrap().dirty);

    let mut queue = Modifications::new();
    queue.push(Modify::Remove { at: iv(5, 5, 5) });
    apply_modifications(&mut index, &mut queue);
    assert!(!index.get(iv(5, 5, 5)));
    assert!(index.get_record(iv(0, 0, 0)).unwrap().dirty);

    // settle again, then the second removal is a complete no-op
    index.mark_meshed(iv(0, 0, 0));
    queue.push(Modify::Remove { at: iv(5, 5, 5) });
    apply_modifications(&mut index, &mut queue);
    assert!(!index.get(iv(5, 5, 5)));
    assert!(!index.get_record(iv(0, 0, 0)).unwrap().dirty);
}

#[test]
fn boundary_removal_dirties_the_exposed_neighbor() {
    let home = iv(0, 0, 0);
    let east = iv(1, 0, 0);
    let mut index = world_with(&[home, east], &[iv(31, 5, 5), iv(32, 5, 5)]);
    index.mark_meshed(home);
    index.mark_meshed(east);

    let mut queue = Modifications::new();
    queue.push(Modify::Remove { at: iv(31, 5, 5) });
    apply_modifications(&mut index, &mut queue);
    assert!(index.get_record(home).unwrap().dirty);
    assert!(index.get_record(east).unwrap().dirty);
}

#[test]
fn interior_removal_dirties_only_its_own_chunk() {
    let home = iv(0, 0, 0);
    let east = iv(1, 0, 0);
    let mut index = world_with(&[home, east], &[iv(5, 5, 5), iv(32, 5, 5)]);
    index.mark_meshed(home);
    index.mark_meshed(east);

    let mut queue = Modifications::new();
    queue.push(Modify::Remove { at: iv(5, 5, 5) });
    apply_modifications(&mut index, &mut queue);
    assert!(index.get_record(home).unwrap().dirty);
    assert!(!index.get_record(east).unwrap().dirty);
}

#[test]
fn indexer_creates_slots_around_the_loader() {
    let mut index = ChunksIndex::new();
    let loaders = vec![(fx(16 * SCALE, 16 * SCALE, 16 * SCALE), TerrainLoader::new(32 * SCALE, 8 * SCALE))];
    chunk_indexer(&mut index, &loaders);
    // half-width 32/32 + 2 = 3 chunks around chunk (0, 0, 0)
    assert!(index.get_record(iv(0, 0, 0)).is_some());
    assert!(index.get_record(iv(3, 0, 0)).is_some());
    assert!(index.get_record(iv(-3, -3, -3)).is_some());
    assert!(index.get_record(iv(4, 0, 0)).is_none());
    let rec = index.get_record(iv(0, 0, 0)).unwrap();
    assert!(rec.blocks.is_none() && !rec.meshed && !rec.dirty);
}

#[test]
fn generation_picks_the_nearest_unpopulated_chunk() {
    let mut index = ChunksIndex::new();
    let loaders = vec![(fx(16 * SCALE, 16 * SCALE, 16 * SCALE), TerrainLoader::new(200 * SCALE, 8 * SCALE))];
    index.ensure_slot(iv(3, 0, 0));
    index.ensure_slot(iv(0, 0, 0));
    index.ensure_slot(iv(1, 0, 0));
    let first = next_chunk_to_generate(&index, &loaders).unwrap();
    assert_eq!(first, iv(0, 0, 0));
    index.install_blocks(first, ChunkBlocks::new());
    let second = next_chunk_to_generate(&index, &loaders).unwrap();
    assert_eq!(second, iv(1, 0, 0));
}

#[test]
fn chunks_outside_every_blocks_zone_stay_unpopulated() {
    let mut index = ChunksIndex::new();
    let loaders = vec![(fx(16 * SCALE, 16 * SCALE, 16 * SCALE), TerrainLoader::new(2 * SCALE, 2 * SCALE))];
    index.ensure_slot(iv(100, 100, 100));
    assert!(next_chunk_to_generate(&index, &loaders).is_none());
}

#[test]
fn meshing_waits_for_the_whole_neighborhood() {
    let mut index = ChunksIndex::new();
    let loaders = vec![(fx(16 * SCALE, 16 * SCALE, 16 * SCALE), TerrainLoader::new(64 * SCALE, 8 * SCALE))];
    let home = iv(0, 0, 0);
    index.ensure_slot(home);
    index.install_blocks(home, ChunkBlocks::new());
    chunk_need_mesh(&mut index, &loaders);
    assert!(!index.get_record(home).unwrap().dirty);

    // populate all six face neighbors: now the chunk may mesh
    for k in 0..6 {
        let d = [iv(1, 0, 0), iv(-1, 0, 0), iv(0, 1, 0), iv(0, -1, 0), iv(0, 0, 1), iv(0, 0, -1)][k];
        index.ensure_slot(d);
        index.install_blocks(d, ChunkBlocks::new());
    }
    chunk_need_mesh(&mut index, &loaders);
    assert!(index.get_record(home).unwrap().dirty);
    assert!(index.neighborhood(home).is_some());
}

#[test]
fn deloader_evicts_only_beyond_the_buffer() {
    let mut index = ChunksIndex::new();
    let home = iv(0, 0, 0);
    index.ensure_slot(home);
    index.install_blocks(home, ChunkBlocks::new());
    index.mark_meshed(home);

    // within radius + buffer: the mesh persists
    let near = vec![(fx(16 * SCALE + 100 * SCALE, 16 * SCALE, 16 * SCALE), TerrainLoader::new(90 * SCALE, 20 * SCALE))];
    chunk_deloader(&mut index, &near);
    assert!(index.get_record(home).unwrap().meshed);

    // beyond radius + buffer: evicted, blocks kept
    let far = vec![(fx(16 * SCALE + 200 * SCALE, 16 * SCALE, 16 * SCALE), TerrainLoader::new(90 * SCALE, 20 * SCALE))];
    chunk_deloader(&mut index, &far);
    let rec = index.get_record(home).unwrap();
    assert!(!rec.meshed);
    assert!(rec.blocks.is_some());
}

#[test]
fn remove_meshes_and_invalidate_strip_state() {
    let mut index = world_with(&[iv(0, 0, 0)], &[iv(1, 1, 1)]);
    index.mark_meshed(iv(0, 0, 0));
    remove_meshes(&mut index);
    let rec = index.get_record(iv(0, 0, 0)).unwrap();
    assert!(!rec.meshed && rec.blocks.is_some());
    invalidate_generated(&mut index);
    let rec = index.get_record(iv(0, 0, 0)).unwrap();
    assert!(rec.blocks.is_none() && !rec.meshed);
}

#[test]
fn generated_columns_layer_stone_dirt_grass() {
    let profiles: Vec<Profile> = (0..32 * 32).map(|_| Profile { bedrock: 3, sediment: 3 }).collect();
    let blocks = generate(iv(0, 0, 0), &profiles);
    let solid = |x: i64, y: i64, z: i64| blocks.get(iv(x, y, z));
    assert!(solid(0, 0, 0) && solid(7, 2, 9));
    assert!(solid(0, 3, 0) && solid(0, 4, 0) && solid(0, 5, 0));
    assert!(!solid(0, 6, 0));
    assert_eq!(blocks.len(), 32 * 32 * 6);
}

#[test]
fn low_bedrock_generates_sand() {
    let profiles: Vec<Profile> = (0..32 * 32).map(|_| Profile { bedrock: 1, sediment: 2 }).collect();
    let blocks = generate(iv(0, 0, 0), &profiles);
    // rows 1 and 2 are the sediment; near sea level it is sand
    assert!(blocks.get(iv(0, 1, 0)));
    assert!(blocks.get(iv(0, 2, 0)));
    assert!(!blocks.get(iv(0, 3, 0)));
}

#[test]
fn textures_map_blocks_to_atlas_layers() {
    assert!(Block::Air.textures().is_none());
    let grass = Block::Grass.textures().unwrap();
    assert_eq!(grass.y_pos, 3);
    assert_eq!(grass.y_neg, 1);
    assert_eq!(grass.x_pos, 2);
    let stone = Block::Stone.textures().unwrap();
    assert_eq!(stone.y_pos, 0);
    let sand = Block::Sand.textures().unwrap();
    assert_eq!(*sand.side(voxelcore::spacial::Side::ZNeg), 4);
}

#[test]
fn falling_body_halts_exactly_at_the_boundary() {
    // a single solid voxel at y = 0 under the body
    let index = world_with(&[iv(0, 0, 0)], &[iv(0, 0, 0), iv(1, 0, 0), iv(0, 0, 1), iv(1, 0, 1)]);
    let collider = Collider { size: fx(SCALE, SCALE, SCALE), anchor: fx(0, 0, 0) };
    let mut velocity = Velocity { linear: fx(0, 0, 0) };
    apply_gravity(&mut velocity, SCALE);
    assert_eq!(velocity.linear.y, -40 * SCALE);
    let position = fx(0, 15_000, 0);  // y = 1.5, just above the floor
    let moved = apply_velocity(&index, position, &collider, &mut velocity, SCALE)
        .expect("no tunneling");
    assert!(moved.position.y >= SCALE);
    assert_eq!(velocity.linear.y, 0);
    assert!(moved.grounded);
}

#[test]
fn unobstructed_body_moves_its_full_shift() {
    let index = world_with(&[iv(0, 0, 0)], &[]);
    let collider = Collider { size: fx(SCALE, SCALE, SCALE), anchor: fx(0, 0, 0) };
    let mut velocity = Velocity { linear: fx(2 * SCALE, 0, 0) };
    let position = fx(0, 5 * SCALE, 0);
    let moved = apply_velocity(&index, position, &collider, &mut velocity, SCALE).unwrap();
    assert_eq!(moved.position.x, 2 * SCALE);
    assert_eq!(velocity.linear.x, 2 * SCALE);
    assert!(!moved.grounded);
}

#[test]
fn sideways_collision_absorbs_only_that_axis() {
    // a wall of solid voxels at x = 3
    let mut wall = Vec::new();
    for y in 0..8 {
        for z in 0..8 {
            wall.push(iv(3, y, z));
        }
    }
    let index = world_with(&[iv(0, 0, 0)], &wall);
    let collider = Collider { size: fx(SCALE, SCALE, SCALE), anchor: fx(0, 0, 0) };
    let mut velocity = Velocity { linear: fx(3 * SCALE, 0, SCALE) };
    let position = fx(0, 2 * SCALE, 0);
    let moved = apply_velocity(&index, position, &collider, &mut velocity, SCALE).unwrap();
    assert_eq!(velocity.linear.x, 0);
    assert_eq!(velocity.linear.z, SCALE);
    // the leading face stops just short of the wall at x = 3
    assert!(moved.position.x <= 2 * SCALE);
    assert!(moved.position.x >= 2 * SCALE - 10);
    assert_eq!(moved.position.z, SCALE);
}

#[test]
fn pointing_finds_the_first_solid_block() {
    let index = world_with(&[iv(0, 0, 0)], &[iv(5, 1, 0)]);
    let origin = fx(SCALE / 2, SCALE + SCALE / 2, SCALE / 2);
    let ray = fx(SCALE, 0, 0);
    let hit = pointed_block(&index, origin, ray, 16 * SCALE).unwrap();
    assert_eq!(hit.0, iv(5, 1, 0));
    assert_eq!(hit.1, iv(4, 1, 0));
    assert!(pointed_block(&index, origin, fx(-SCALE, 0, 0), 16 * SCALE).is_none());
}

#[test]
fn resolving_globals_requires_an_indexed_chunk() {
    let index = world_with(&[iv(0, 0, 0)], &[]);
    assert_eq!(index.global_to_local(iv(-1, 0, 0)), None);
    let (c, l) = index.global_to_local(iv(31, 0, 0)).unwrap();
    assert_eq!(c, iv(0, 0, 0));
    assert_eq!(l, iv(31, 0, 0));
    let (c2, _) = global_to_local(iv(-1, 0, 0));
    assert_eq!(c2, iv(-1, 0, 0));
}

#[test]
fn embedded_body_reports_tunneling_with_its_diagnostics() {
    // the body starts inside a solid voxel and does not move: the integrity
    // probe rejects the tick with its diagnostic payload
    let index = world_with(&[iv(0, 0, 0)], &[iv(1, 1, 1)]);
    let collider = Collider { size: fx(SCALE, SCALE, SCALE), anchor: fx(0, 0, 0) };
    let mut velocity = Velocity { linear: fx(0, 0, 0) };
    let position = fx(SCALE / 2, SCALE / 2, SCALE / 2);
    let fault = apply_velocity(&index, position, &collider, &mut velocity, SCALE)
        .expect_err("the probe must detect the overlap");
    assert_eq!(fault.position, position);
    assert_eq!(fault.attempted, fx(0, 0, 0));
    assert_eq!(fault.corrected, fx(0, 0, 0));
    // the probed corner: position plus the leading-corner offset
    assert_eq!(fault.resulting, fx(SCALE + SCALE / 2, SCALE + SCALE / 2, SCALE + SCALE / 2));
}
