use voxelcore::fixed::{Fix3, IVec3, FIX_MAX, SCALE};
use voxelcore::ray_travel::RayTraveler;

fn fx(x: i64, y: i64, z: i64) -> Fix3 {
    Fix3 { x, y, z }
}

fn iv(x: i64, y: i64, z: i64) -> IVec3 {
    IVec3 { x, y, z }
}

#[test]
fn plus_x_ray_yields_exactly_five_crossings() {
    // from (0.5, 0.5, 0.5) along +X with limit 5.0
    let mut tr = RayTraveler::new(
        fx(SCALE / 2, SCALE / 2, SCALE / 2),
        fx(SCALE, 0, 0),
        5 * SCALE,
    );
    let expected = [iv(1, 0, 0), iv(2, 0, 0), iv(3, 0, 0), iv(4, 0, 0), iv(5, 0, 0)];
    for (k, want) in expected.iter().enumerate() {
        let step = tr.next().expect("a crossing within the limit");
        assert_eq!(step.dir, iv(1, 0, 0));
        assert_eq!(step.to, *want);
        assert_eq!(step.from, iv(k as i64, 0, 0));
        // crossings at 0.5, 1.5, 2.5, 3.5, 4.5
        assert_eq!(step.time_num, SCALE / 2 + k as i64 * SCALE);
        assert_eq!(step.time_den, SCALE);
    }
    assert!(tr.next().is_none());
    // exhaustion is permanent
    assert!(tr.next().is_none());
}

#[test]
fn zero_direction_axes_never_cross() {
    let mut tr = RayTraveler::new(fx(SCALE / 2, SCALE / 2, SCALE / 2), fx(SCALE, 0, 0), FIX_MAX);
    for _ in 0..500 {
        match tr.next() {
            None => break,
            Some(step) => {
                assert_eq!(step.dir.y, 0);
                assert_eq!(step.dir.z, 0);
                assert_eq!(step.dir.x, 1);
                assert_eq!(step.to.y, 0);
                assert_eq!(step.to.z, 0);
            },
        }
    }
}

#[test]
fn diagonal_ray_walks_gap_free() {
    let mut tr = RayTraveler::new(
        fx(SCALE / 4, SCALE / 2, SCALE / 3),
        fx(SCALE, 2 * SCALE, 3 * SCALE),
        2 * SCALE,
    );
    let mut at = iv(0, 0, 0);
    let mut last_num: i64 = 0;
    let mut last_den: i64 = 1;
    let mut steps = 0;
    while let Some(step) = tr.next() {
        // each step leaves the previous voxel by exactly one face
        assert_eq!(step.from, at);
        let d = (step.to.x - step.from.x).abs() + (step.to.y - step.from.y).abs()
            + (step.to.z - step.from.z).abs();
        assert_eq!(d, 1);
        // crossing times never go backwards
        assert!(step.time_num as i128 * last_den as i128 >= last_num as i128 * step.time_den as i128);
        last_num = step.time_num;
        last_den = step.time_den;
        at = step.to;
        steps += 1;
    }
    // limit 2.0 with direction (1, 2, 3): crosses 2 + 4 + 6 boundaries at most
    assert!(steps >= 9 && steps <= 12);
}

#[test]
fn ray_blocked_by_limit_is_empty() {
    let mut tr = RayTraveler::new(fx(SCALE / 2, 0, 0), fx(SCALE, 0, 0), SCALE / 4);
    assert!(tr.next().is_none());
}

#[test]
fn zero_ray_is_empty() {
    let mut tr = RayTraveler::new(fx(SCALE / 2, 0, 0), fx(0, 0, 0), 10 * SCALE);
    assert!(tr.next().is_none());
}

#[test]
fn negative_direction_crosses_downward() {
    let mut tr = RayTraveler::new(fx(SCALE / 2, 3 * SCALE + SCALE / 2, 0), fx(0, -SCALE, 0), 2 * SCALE);
    let s1 = tr.next().unwrap();
    assert_eq!(s1.dir, iv(0, -1, 0));
    assert_eq!(s1.from, iv(0, 3, 0));
    assert_eq!(s1.to, iv(0, 2, 0));
    assert_eq!(s1.time_num, SCALE / 2);
    assert_eq!(s1.time_den, SCALE);
    let s2 = tr.next().unwrap();
    assert_eq!(s2.to, iv(0, 1, 0));
    assert!(tr.next().is_none());
}
