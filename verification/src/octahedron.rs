//! Nearest-point projection onto an octahedron (an L1 ball), and the
//! octahedral distance used for zone tests.
//!
//! The positive octant around the octahedron splits into seven geometric
//! zones — the axial pillar, three face pyramids and three edge corners —
//! and the projection is piecewise linear on each.  Projected points carry
//! denominators of at most six, so they are returned in sixths of the
//! fixed-point unit and every coordinate is exact.

use vstd::prelude::*;
use crate::fixed::{abs64, iabs, Fix3};

verus! {

/// Inputs to the projection are bounded so that six times any coordinate sum
/// still fits the scalar type.
pub const OCTA_MAX: i64 = 0x1_0000_0000_0000;

pub open spec fn imax(a: int, b: int) -> int {
    if a >= b {
        a
    } else {
        b
    }
}

/// L1 distance between two fixed-point points.
pub open spec fn l1_between(p: Fix3, c: Fix3) -> int {
    iabs(p.x - c.x) + iabs(p.y - c.y) + iabs(p.z - c.z)
}

/// Distance from `point` to the octahedron centered at `center` with
/// circumscribed radius `radius`, in the L1 metric: zero inside, otherwise
/// how far the point lies beyond the surface.
pub open spec fn octa_distance(center: Fix3, radius: int, point: Fix3) -> int {
    imax(0, l1_between(point, center) - radius)
}

/// The geometric zone of a point in the positive octant relative to the
/// octahedron of circumscribed radius `r` around the origin.
#[derive(Clone, Copy, PartialEq, Eq, Structural, Debug)]
pub enum Zone {
    Pillar,
    PyramidX,
    PyramidY,
    PyramidZ,
    CornerX,
    CornerY,
    CornerZ,
}

pub open spec fn zc_pillar(p: Fix3, r: int) -> bool {
    p.x + p.y - 2 * p.z <= r && p.y + p.z - 2 * p.x <= r && p.z + p.x - 2 * p.y <= r
}

pub open spec fn zc_corner_z(p: Fix3, r: int) -> bool {
    p.x + p.y - 2 * p.z >= r && -r <= p.x - p.y <= r
}

pub open spec fn zc_corner_x(p: Fix3, r: int) -> bool {
    p.y + p.z - 2 * p.x >= r && -r <= p.y - p.z <= r
}

pub open spec fn zc_corner_y(p: Fix3, r: int) -> bool {
    p.z + p.x - 2 * p.y >= r && -r <= p.z - p.x <= r
}

pub open spec fn zc_pyramid_y(p: Fix3, r: int) -> bool {
    p.x - p.y <= -r && p.y - p.z >= r
}

pub open spec fn zc_pyramid_z(p: Fix3, r: int) -> bool {
    p.y - p.z <= -r && p.z - p.x >= r
}

pub open spec fn zc_pyramid_x(p: Fix3, r: int) -> bool {
    p.x - p.y >= r && p.z - p.x <= -r
}

/// The zone of `p`, testing the seven conditions in a fixed order.
pub open spec fn classify(p: Fix3, r: int) -> Zone {
    if zc_pillar(p, r) {
        Zone::Pillar
    } else if zc_corner_z(p, r) {
        Zone::CornerZ
    } else if zc_corner_x(p, r) {
        Zone::CornerX
    } else if zc_corner_y(p, r) {
        Zone::CornerY
    } else if zc_pyramid_y(p, r) {
        Zone::PyramidY
    } else if zc_pyramid_z(p, r) {
        Zone::PyramidZ
    } else {
        Zone::PyramidX
    }
}


/// A point scaled into sixths of the fixed-point unit.
pub open spec fn spec_six(p: Fix3) -> Fix3 {
    Fix3 { x: (6 * p.x) as i64, y: (6 * p.y) as i64, z: (6 * p.z) as i64 }
}

/// The squared Euclidean distance between two points.
pub open spec fn dist_sq(a: Fix3, b: Fix3) -> int {
    (a.x - b.x) * (a.x - b.x) + (a.y - b.y) * (a.y - b.y) + (a.z - b.z) * (a.z - b.z)
}

/// A point whose offset from `p` makes a nonpositive inner product with
/// every direction into `q` is at least as Euclid-near to `p` as `q`.
proof fn lemma_closer(p: Fix3, n: Fix3, q: Fix3)
    requires
        (p.x - n.x) * (q.x - n.x) + (p.y - n.y) * (q.y - n.y) + (p.z - n.z) * (q.z - n.z) <= 0,
    ensures
        dist_sq(p, n) <= dist_sq(p, q),
{
    assert((p.x - q.x) * (p.x - q.x) == (p.x - n.x) * (p.x - n.x) + (q.x - n.x) * (q.x - n.x) - 2
        * ((p.x - n.x) * (q.x - n.x))) by (nonlinear_arith);
    assert((p.y - q.y) * (p.y - q.y) == (p.y - n.y) * (p.y - n.y) + (q.y - n.y) * (q.y - n.y) - 2
        * ((p.y - n.y) * (q.y - n.y))) by (nonlinear_arith);
    assert((p.z - q.z) * (p.z - q.z) == (p.z - n.z) * (p.z - n.z) + (q.z - n.z) * (q.z - n.z) - 2
        * ((p.z - n.z) * (q.z - n.z))) by (nonlinear_arith);
    assert((q.x - n.x) * (q.x - n.x) >= 0) by (nonlinear_arith);
    assert((q.y - n.y) * (q.y - n.y) >= 0) by (nonlinear_arith);
    assert((q.z - n.z) * (q.z - n.z) >= 0) by (nonlinear_arith);
}

/// The variational inequality of the projection: an offset that is equal on
/// every coordinate the projection keeps positive, no larger elsewhere, and
/// nonnegative throughout, points away from every point of the octahedron.
proof fn lemma_variational(
    e: int,
    dx: int,
    dy: int,
    dz: int,
    nx: int,
    ny: int,
    nz: int,
    r6: int,
    q: Fix3,
)
    requires
        e >= 0,
        0 <= dx <= e,
        0 <= dy <= e,
        0 <= dz <= e,
        nx >= 0,
        ny >= 0,
        nz >= 0,
        nx + ny + nz == r6,
        nx != 0 ==> dx == e,
        ny != 0 ==> dy == e,
        nz != 0 ==> dz == e,
        crate::fixed::l1(q) <= r6,
    ensures
        dx * (q.x - nx) + dy * (q.y - ny) + dz * (q.z - nz) <= 0,
{
    let ax = iabs(q.x as int);
    let ay = iabs(q.y as int);
    let az = iabs(q.z as int);
    assert(dx * q.x <= e * ax) by (nonlinear_arith)
        requires
            0 <= dx <= e,
            q.x <= ax,
            0 <= ax,
    ;
    assert(dy * q.y <= e * ay) by (nonlinear_arith)
        requires
            0 <= dy <= e,
            q.y <= ay,
            0 <= ay,
    ;
    assert(dz * q.z <= e * az) by (nonlinear_arith)
        requires
            0 <= dz <= e,
            q.z <= az,
            0 <= az,
    ;
    assert(dx * nx == e * nx && dy * ny == e * ny && dz * nz == e * nz) by (nonlinear_arith)
        requires
            nx != 0 ==> dx == e,
            ny != 0 ==> dy == e,
            nz != 0 ==> dz == e,
    ;
    assert(e * ax + e * ay + e * az - (e * nx + e * ny + e * nz) == e * (ax + ay + az - r6))
        by (nonlinear_arith)
        requires
            nx + ny + nz == r6,
    ;
    assert(e * (ax + ay + az - r6) <= 0) by (nonlinear_arith)
        requires
            e >= 0,
            ax + ay + az <= r6,
    ;
    assert(dx * (q.x - nx) == dx * q.x - dx * nx) by (nonlinear_arith);
    assert(dy * (q.y - ny) == dy * q.y - dy * ny) by (nonlinear_arith);
    assert(dz * (q.z - nz) == dz * q.z - dz * nz) by (nonlinear_arith);
}

/// Two offsets equal up to sign have equal squares.
proof fn lemma_sq_eq(u: int, v: int)
    requires
        u == v || u == -v,
    ensures
        u * u == v * v,
{
    assert(u * u == v * v) by (nonlinear_arith)
        requires
            u == v || u == -v,
    ;
}

/// The zone of a point in the positive octant.  The seven conditions cover
/// the whole octant, so the answer always satisfies its zone's condition.
pub fn zone(point: Fix3, r: i64) -> (z: Zone)
    requires
        0 <= point.x <= OCTA_MAX,
        0 <= point.y <= OCTA_MAX,
        0 <= point.z <= OCTA_MAX,
        0 <= r <= OCTA_MAX,
    ensures
        z == classify(point, r as int),
        z == Zone::Pillar ==> zc_pillar(point, r as int),
        z == Zone::CornerZ ==> zc_corner_z(point, r as int),
        z == Zone::CornerX ==> zc_corner_x(point, r as int),
        z == Zone::CornerY ==> zc_corner_y(point, r as int),
        z == Zone::PyramidY ==> zc_pyramid_y(point, r as int),
        z == Zone::PyramidZ ==> zc_pyramid_z(point, r as int),
        z == Zone::PyramidX ==> zc_pyramid_x(point, r as int),
{
    let Fix3 { x, y, z } = point;
    if x + y - 2 * z <= r && y + z - 2 * x <= r && z + x - 2 * y <= r {
        Zone::Pillar
    } else if x + y - 2 * z >= r && -r <= x - y && x - y <= r {
        Zone::CornerZ
    } else if y + z - 2 * x >= r && -r <= y - z && y - z <= r {
        Zone::CornerX
    } else if z + x - 2 * y >= r && -r <= z - x && z - x <= r {
        Zone::CornerY
    } else if x - y <= -r && y - z >= r {
        Zone::PyramidY
    } else if y - z <= -r && z - x >= r {
        Zone::PyramidZ
    } else {
        Zone::PyramidX
    }
}

/// The point of the octahedron of circumscribed radius `r` around the origin
/// nearest to `point`, for a `point` in the positive octant, in sixths of
/// the fixed-point unit.
///
/// The result lies on or inside the octahedron, never beyond `point` on any
/// axis, its L1 distance from `point` is exactly how far `point`'s
/// coordinate sum exceeds `r` — the octahedral distance to the surface —
/// and no point of the octahedron is Euclid-nearer: it is the exact
/// nearest-point projection.
pub fn nearest(point: Fix3, r: i64) -> (n: Fix3)
    requires
        0 <= point.x <= OCTA_MAX,
        0 <= point.y <= OCTA_MAX,
        0 <= point.z <= OCTA_MAX,
        0 <= r <= OCTA_MAX,
    ensures
        0 <= n.x <= 6 * point.x,
        0 <= n.y <= 6 * point.y,
        0 <= n.z <= 6 * point.z,
        n.x + n.y + n.z <= 6 * r,
        point.x + point.y + point.z <= r ==> n.x == 6 * point.x && n.y == 6 * point.y && n.z == 6
            * point.z,
        point.x + point.y + point.z > r ==> n.x + n.y + n.z == 6 * r,
        (6 * point.x - n.x) + (6 * point.y - n.y) + (6 * point.z - n.z) == 6 * imax(
            0,
            point.x + point.y + point.z - r,
        ),
        forall|q: Fix3|
            crate::fixed::l1(q) <= 6 * r ==> dist_sq(spec_six(point), n) <= #[trigger] dist_sq(
                spec_six(point),
                q,
            ),
{
    let s = point.x + point.y + point.z;
    if s <= r {
        let n = Fix3 { x: 6 * point.x, y: 6 * point.y, z: 6 * point.z };
        proof {
            let p6 = spec_six(point);
            assert(p6.x == n.x && p6.y == n.y && p6.z == n.z);
            assert forall|q: Fix3|
                crate::fixed::l1(q) <= 6 * r implies dist_sq(spec_six(point), n)
                <= #[trigger] dist_sq(spec_six(point), q) by {
                assert((p6.x - n.x) * (q.x - n.x) == 0 && (p6.y - n.y) * (q.y - n.y) == 0 && (p6.z
                    - n.z) * (q.z - n.z) == 0) by (nonlinear_arith)
                    requires
                        p6.x == n.x && p6.y == n.y && p6.z == n.z,
                ;
                lemma_closer(p6, n, q);
            }
        }
        return n;
    }
    let z = zone(point, r);
    let n = match z {
        Zone::Pillar => {
            let d = 2 * (s - r);
            Fix3 { x: 6 * point.x - d, y: 6 * point.y - d, z: 6 * point.z - d }
        },
        Zone::PyramidX => Fix3 { x: 6 * r, y: 0, z: 0 },
        Zone::PyramidY => Fix3 { x: 0, y: 6 * r, z: 0 },
        Zone::PyramidZ => Fix3 { x: 0, y: 0, z: 6 * r },
        Zone::CornerX => {
            let d = 3 * (point.y + point.z - r);
            Fix3 { x: 0, y: 6 * point.y - d, z: 6 * point.z - d }
        },
        Zone::CornerY => {
            let d = 3 * (point.x + point.z - r);
            Fix3 { x: 6 * point.x - d, y: 0, z: 6 * point.z - d }
        },
        Zone::CornerZ => {
            let d = 3 * (point.x + point.y - r);
            Fix3 { x: 6 * point.x - d, y: 6 * point.y - d, z: 0 }
        },
    };
    proof {
        let p6 = spec_six(point);
        let px = 6 * point.x as int;
        let py = 6 * point.y as int;
        let pz = 6 * point.z as int;
        assert(p6.x == px && p6.y == py && p6.z == pz);
        let e: int = match z {
            Zone::Pillar => 2 * (s - r),
            Zone::PyramidX => px - 6 * r,
            Zone::PyramidY => py - 6 * r,
            Zone::PyramidZ => pz - 6 * r,
            Zone::CornerX => 3 * (point.y + point.z - r),
            Zone::CornerY => 3 * (point.x + point.z - r),
            Zone::CornerZ => 3 * (point.x + point.y - r),
        };
        assert(e >= 0 && 0 <= px - n.x <= e && 0 <= py - n.y <= e && 0 <= pz - n.z <= e && n.x
            >= 0 && n.y >= 0 && n.z >= 0 && n.x + n.y + n.z == 6 * r && (n.x != 0 ==> px - n.x
            == e) && (n.y != 0 ==> py - n.y == e) && (n.z != 0 ==> pz - n.z == e));
        assert forall|q: Fix3|
            crate::fixed::l1(q) <= 6 * r implies dist_sq(spec_six(point), n) <= #[trigger] dist_sq(
            spec_six(point),
            q,
        ) by {
            lemma_variational(
                e,
                px - n.x,
                py - n.y,
                pz - n.z,
                n.x as int,
                n.y as int,
                n.z as int,
                6 * r as int,
                q,
            );
            lemma_closer(p6, n, q);
        }
    }
    n
}

/// The nearest point of the origin-centered octahedron for a point of any
/// sign, in sixths of the fixed-point unit: the projection of the absolute
/// point, with the signs restored.
pub fn nearest_negatives(point: Fix3, r: i64) -> (n: Fix3)
    requires
        -OCTA_MAX <= point.x <= OCTA_MAX,
        -OCTA_MAX <= point.y <= OCTA_MAX,
        -OCTA_MAX <= point.z <= OCTA_MAX,
        0 <= r <= OCTA_MAX,
    ensures
        iabs(n.x as int) + iabs(n.y as int) + iabs(n.z as int) <= 6 * r,
        iabs(6 * point.x - n.x) + iabs(6 * point.y - n.y) + iabs(6 * point.z - n.z) == 6 * imax(
            0,
            iabs(point.x as int) + iabs(point.y as int) + iabs(point.z as int) - r,
        ),
        iabs(point.x as int) + iabs(point.y as int) + iabs(point.z as int) <= r ==> n.x == 6 * point.x && n.y == 6
            * point.y && n.z == 6 * point.z,
        forall|q: Fix3|
            crate::fixed::l1(q) <= 6 * r ==> dist_sq(spec_six(point), n) <= #[trigger] dist_sq(
                spec_six(point),
                q,
            ),
{
    let a = Fix3 { x: abs64(point.x), y: abs64(point.y), z: abs64(point.z) };
    let m = nearest(a, r);
    let n = Fix3 {
        x: if point.x < 0 {
            -m.x
        } else {
            m.x
        },
        y: if point.y < 0 {
            -m.y
        } else {
            m.y
        },
        z: if point.z < 0 {
            -m.z
        } else {
            m.z
        },
    };
    proof {
        let p6 = spec_six(point);
        let a6 = spec_six(a);
        assert forall|q: Fix3|
            crate::fixed::l1(q) <= 6 * r implies dist_sq(spec_six(point), n) <= #[trigger] dist_sq(
            spec_six(point),
            q,
        ) by {
            let q2 = Fix3 {
                x: if point.x < 0 {
                    (-q.x) as i64
                } else {
                    q.x
                },
                y: if point.y < 0 {
                    (-q.y) as i64
                } else {
                    q.y
                },
                z: if point.z < 0 {
                    (-q.z) as i64
                } else {
                    q.z
                },
            };
            assert(crate::fixed::l1(q2) == crate::fixed::l1(q));
            lemma_sq_eq(p6.x - n.x, a6.x - m.x);
            lemma_sq_eq(p6.y - n.y, a6.y - m.y);
            lemma_sq_eq(p6.z - n.z, a6.z - m.z);
            lemma_sq_eq(p6.x - q.x, a6.x - q2.x);
            lemma_sq_eq(p6.y - q.y, a6.y - q2.y);
            lemma_sq_eq(p6.z - q.z, a6.z - q2.z);
            assert(dist_sq(a6, m) <= dist_sq(a6, q2));
            assert(dist_sq(p6, n) == dist_sq(a6, m));
            assert(dist_sq(p6, q) == dist_sq(a6, q2));
        }
    }
    n
}

/// The point of the octahedron centered at `center` with circumscribed
/// radius `radius` nearest to `point`, in sixths of the fixed-point unit.
///
/// Its L1 distance from `point` is exactly the octahedral distance and no
/// point of the octahedron is Euclid-nearer, so a point inside the
/// octahedron is returned unchanged, and a zero radius returns the center.
#[verifier::rlimit(50)]
pub fn nearest_any(center: Fix3, radius: i64, point: Fix3) -> (n: Fix3)
    requires
        crate::fixed::fix3_in_range(center, crate::fixed::FIX_MAX as int),
        crate::fixed::fix3_in_range(point, crate::fixed::FIX_MAX as int),
        0 <= radius <= crate::fixed::FIX_MAX,
    ensures
        iabs(n.x - 6 * center.x) + iabs(n.y - 6 * center.y) + iabs(n.z - 6 * center.z) <= 6
            * radius,
        iabs(6 * point.x - n.x) + iabs(6 * point.y - n.y) + iabs(6 * point.z - n.z) == 6
            * octa_distance(center, radius as int, point),
        octa_distance(center, radius as int, point) == 0 ==> n.x == 6 * point.x && n.y == 6
            * point.y && n.z == 6 * point.z,
        forall|q: Fix3|
            iabs(q.x - 6 * center.x) + iabs(q.y - 6 * center.y) + iabs(q.z - 6 * center.z) <= 6
                * radius ==> dist_sq(spec_six(point), n) <= #[trigger] dist_sq(
                spec_six(point),
                q,
            ),
{
    let rel = point.sub(center);
    let m = nearest_negatives(rel, radius);
    let n = Fix3 { x: 6 * center.x + m.x, y: 6 * center.y + m.y, z: 6 * center.z + m.z };
    proof {
        assert(l1_between(point, center) == iabs(rel.x as int) + iabs(rel.y as int) + iabs(
            rel.z as int,
        ));
        assert(6 * point.x - n.x == 6 * rel.x - m.x);
        assert(6 * point.y - n.y == 6 * rel.y - m.y);
        assert(6 * point.z - n.z == 6 * rel.z - m.z);
        assert(n.x - 6 * center.x == m.x);
        assert(n.y - 6 * center.y == m.y);
        assert(n.z - 6 * center.z == m.z);
        let p6 = spec_six(point);
        let rel6 = spec_six(rel);
        assert forall|q: Fix3|
            iabs(q.x - 6 * center.x) + iabs(q.y - 6 * center.y) + iabs(q.z - 6 * center.z) <= 6
                * radius implies dist_sq(spec_six(point), n) <= #[trigger] dist_sq(
            spec_six(point),
            q,
        ) by {
            let q2 = Fix3 {
                x: (q.x - 6 * center.x) as i64,
                y: (q.y - 6 * center.y) as i64,
                z: (q.z - 6 * center.z) as i64,
            };
            assert(crate::fixed::l1(q2) <= 6 * radius);
            assert(dist_sq(rel6, m) <= dist_sq(rel6, q2));
            assert(p6.x - n.x == rel6.x - m.x && p6.y - n.y == rel6.y - m.y && p6.z - n.z
                == rel6.z - m.z);
            assert(p6.x - q.x == rel6.x - q2.x && p6.y - q.y == rel6.y - q2.y && p6.z - q.z
                == rel6.z - q2.z);
            assert(dist_sq(p6, n) == dist_sq(rel6, m));
            assert(dist_sq(p6, q) == dist_sq(rel6, q2));
        }
    }
    n
}

/// The octahedral distance itself, as a scalar in fixed-point units.
pub fn distance(center: Fix3, radius: i64, point: Fix3) -> (d: i64)
    requires
        crate::fixed::fix3_in_range(center, crate::fixed::FIX_MAX as int),
        crate::fixed::fix3_in_range(point, crate::fixed::FIX_MAX as int),
        0 <= radius <= crate::fixed::FIX_MAX,
    ensures
        d == octa_distance(center, radius as int, point),
        d >= 0,
{
    let s = abs64(point.x - center.x) + abs64(point.y - center.y) + abs64(point.z - center.z);
    if s <= radius {
        0
    } else {
        s - radius
    }
}

/// Inflating the octahedron cannot increase the distance to it: the distance
/// at a larger radius is at most the distance at a smaller one.
pub proof fn lemma_inflation_shrinks_distance(center: Fix3, r1: int, r2: int, point: Fix3)
    requires
        0 <= r1 <= r2,
    ensures
        octa_distance(center, r2, point) <= octa_distance(center, r1, point),
{
}

/// No point of the octahedron is L1-nearer to `point` than the octahedral
/// distance: the projection attains the minimum.  `q` is in sixths of the
/// fixed-point unit, like the projections.
pub proof fn lemma_octa_distance_minimal(center: Fix3, radius: int, point: Fix3, q: Fix3)
    requires
        radius >= 0,
        iabs(q.x - 6 * center.x) + iabs(q.y - 6 * center.y) + iabs(q.z - 6 * center.z) <= 6
            * radius,
    ensures
        iabs(6 * point.x - q.x) + iabs(6 * point.y - q.y) + iabs(6 * point.z - q.z) >= 6
            * octa_distance(center, radius, point),
{
}

} // verus!
