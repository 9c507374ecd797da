use voxelcore::fixed::{Fix3, IVec3, SCALE};
use voxelcore::octahedron;
use voxelcore::terrain::{chunk_center, global_to_local, local_to_global, TerrainLoader, Zone};

fn iv(x: i64, y: i64, z: i64) -> IVec3 {
    IVec3 { x, y, z }
}

fn fx(x: i64, y: i64, z: i64) -> Fix3 {
    Fix3 { x, y, z }
}

#[test]
fn address_inverse_round_trips_negative_coordinates() {
    for g in [
        iv(-1, -33, 5),
        iv(0, 0, 0),
        iv(31, 32, 33),
        iv(-32, -31, -1),
        iv(100_000, -100_000, 7),
    ] {
        let (chunk, local) = global_to_local(g);
        assert!(local.x >= 0 && local.x < 32);
        assert!(local.y >= 0 && local.y < 32);
        assert!(local.z >= 0 && local.z < 32);
        let back = local_to_global(chunk, local);
        assert_eq!(back, g);
    }
}

#[test]
fn global_to_local_splits_negative_axis() {
    let (chunk, local) = global_to_local(iv(-1, -33, 5));
    assert_eq!(chunk, iv(-1, -2, 0));
    assert_eq!(local, iv(31, 31, 5));
}

#[test]
fn chunk_center_is_the_volume_centroid() {
    let c = chunk_center(iv(0, 0, 0));
    assert_eq!(c, fx(16 * SCALE, 16 * SCALE, 16 * SCALE));
    let c = chunk_center(iv(-1, 2, 0));
    assert_eq!(c.x, -16 * SCALE);
    assert_eq!(c.y, 80 * SCALE);
}

#[test]
fn octahedral_distance_is_l1_beyond_the_radius() {
    let center = fx(0, 0, 0);
    // a point at L1 distance 6 world units from the center
    let p = fx(1 * SCALE, 2 * SCALE, 3 * SCALE);
    assert_eq!(octahedron::distance(center, 0, p), 6 * SCALE);
    assert_eq!(octahedron::distance(center, 2 * SCALE, p), 4 * SCALE);
    assert_eq!(octahedron::distance(center, 6 * SCALE, p), 0);
    assert_eq!(octahedron::distance(center, 9 * SCALE, p), 0);
}

#[test]
fn zone_inflation_never_increases_distance() {
    let chunk = iv(3, -2, 1);
    for p in [fx(0, 0, 0), fx(200 * SCALE, -50 * SCALE, 3 * SCALE), fx(96 * SCALE, 48 * SCALE, 16 * SCALE)] {
        let mesh = Zone::Mesh.distance(chunk, p);
        let blocks = Zone::Blocks.distance(chunk, p);
        assert!(blocks <= mesh);
    }
}

#[test]
fn nearest_point_inside_is_the_point_itself() {
    let center = fx(0, 0, 0);
    let p = fx(SCALE / 2, SCALE / 2, 0);
    let n = octahedron::nearest_any(center, 2 * SCALE, p);
    // results are in sixths of the fixed-point unit
    assert_eq!(n, fx(6 * (SCALE / 2), 6 * (SCALE / 2), 0));
}

#[test]
fn nearest_point_projects_onto_the_surface() {
    let center = fx(0, 0, 0);
    // straight along +X, twice the radius: projects to the +X corner
    let n = octahedron::nearest_any(center, SCALE, fx(2 * SCALE, 0, 0));
    assert_eq!(n, fx(6 * SCALE, 0, 0));
}

#[test]
fn hysteresis_band_is_neither_inside_nor_outside() {
    let loader = TerrainLoader::new(128 * SCALE, 20 * SCALE);
    let chunk = iv(0, 0, 0);
    // exactly radius + buffer / 2 beyond the mesh-zone boundary
    let at = fx(16 * SCALE + 138 * SCALE, 16 * SCALE, 16 * SCALE);
    assert_eq!(Zone::Mesh.distance(chunk, at), 138 * SCALE);
    assert!(!loader.inside(Zone::Mesh, chunk, at));
    assert!(!loader.outside(Zone::Mesh, chunk, at));
}

#[test]
fn loader_range_counts_chunks_with_margin() {
    let loader = TerrainLoader::new(128 * SCALE, 20 * SCALE);
    assert_eq!(loader.range(), 128 / 32 + 2);
}

#[test]
fn inside_priority_is_the_distance_inside_only() {
    let loader = TerrainLoader::new(128 * SCALE, 20 * SCALE);
    let chunk = iv(0, 0, 0);
    let near = fx(16 * SCALE, 16 * SCALE, 16 * SCALE);
    assert_eq!(loader.inside_priority(Zone::Mesh, chunk, near), Some(0));
    let far = fx(16 * SCALE + 500 * SCALE, 16 * SCALE, 16 * SCALE);
    assert_eq!(loader.inside_priority(Zone::Mesh, chunk, far), None);
}

#[test]
fn zone_reaches_are_zero_and_a_widened_chunk() {
    assert_eq!(Zone::Mesh.reach(), 0);
    // one chunk width, widened by five percent: 32 * 1.05 world units
    assert_eq!(Zone::Blocks.reach(), 336_000);
    assert_eq!(Zone::Mesh.level(), 0);
    assert_eq!(Zone::Blocks.level(), 1);
}
