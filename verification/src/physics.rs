//! Swept box collision against the voxel grid.
//!
//! A body is an axis-aligned box with a velocity.  Each tick its displacement
//! is resolved by walking a ray from the leading corner through the grid:
//! at each boundary crossing every voxel column covered by the box's
//! cross-section is tested, and on the first solid voxel the displacement is
//! cut to stop just short of the collision, the velocity along the collided
//! axis is absorbed, and the search restarts with the shorter displacement.
//! Velocity is absorbed and movement shortened only against a solid voxel:
//! through empty space a body moves its full displacement.

use vstd::prelude::*;
use crate::fixed::{fix3_in_range, floor_div, iabs, spec_voxel_of, tdiv, trunc_div, voxel_of, Fix3, IVec3, SCALE};
use crate::ray_travel::RayTraveler;
use crate::swizzle::{Dim3, Dim3Selector};
use crate::terrain::ChunksIndex;

verus! {

/// Bound on the magnitude of any velocity component, in fixed-point units
/// per second.
pub const VEL_MAX: i64 = 100_000_000;

/// Bound on the magnitude of any body position component.
pub const POS_MAX: i64 = 1_000_000_000;

/// Bound on a body's size and anchor components.
pub const SIZE_MAX: i64 = 1_000_000;

/// An axis-aligned box, spanning `[-anchor, size - anchor]` around the
/// body's position on each axis.
#[derive(Debug)]
pub struct Collider {
    pub size: Fix3,
    pub anchor: Fix3,
}

/// A body's linear velocity, in fixed-point units per second.
#[derive(Debug)]
pub struct Velocity {
    pub linear: Fix3,
}

impl Collider {
    pub open spec fn wf(self) -> bool {
        &&& 0 <= self.size.x <= SIZE_MAX && 0 <= self.size.y <= SIZE_MAX && 0 <= self.size.z
            <= SIZE_MAX
        &&& fix3_in_range(self.anchor, SIZE_MAX as int)
    }
}

/// The outcome of one resolved tick: the new position and whether downward
/// motion was halted by a solid voxel.
#[derive(Debug)]
pub struct Moved {
    pub position: Fix3,
    pub grounded: bool,
}

/// The diagnostic payload of a detected penetration: the position before
/// the tick, the attempted and the corrected displacement, and the
/// resulting point that still overlaps a solid voxel.
#[derive(Debug)]
pub struct Tunneled {
    pub position: Fix3,
    pub attempted: Fix3,
    pub corrected: Fix3,
    pub resulting: Fix3,
}

/// The leading corner offset: on each axis, the face of the box that
/// advances in the direction of travel.
pub open spec fn spec_corner_select(vel: Fix3, size: Fix3) -> Fix3 {
    Fix3 {
        x: if vel.x < 0 {
            0i64
        } else {
            size.x
        },
        y: if vel.y < 0 {
            0i64
        } else {
            size.y
        },
        z: if vel.z < 0 {
            0i64
        } else {
            size.z
        },
    }
}

/// The full-tick displacement: velocity times the tick length, truncated
/// toward zero.
pub open spec fn spec_shift(vel: Fix3, dt: i64) -> Fix3 {
    Fix3 {
        x: tdiv(vel.x * dt, SCALE as int) as i64,
        y: tdiv(vel.y * dt, SCALE as int) as i64,
        z: tdiv(vel.z * dt, SCALE as int) as i64,
    }
}

/// One displacement component times the tick length, in fixed-point units.
fn scale_shift(v: i64, dt: i64) -> (r: i64)
    requires
        -VEL_MAX <= v <= VEL_MAX,
        0 <= dt <= SCALE,
    ensures
        r == tdiv(v as int * dt as int, SCALE as int),
        iabs(r as int) <= iabs(v as int),
        v >= 0 ==> r >= 0,
        v <= 0 ==> r <= 0,
{
    proof {
        assert(-0x4000_0000_0000_0000 <= v as int * dt as int <= 0x4000_0000_0000_0000
            && iabs(v as int * dt as int) <= iabs(v as int) * SCALE && (v >= 0 ==> v as int
            * dt as int >= 0) && (v <= 0 ==> v as int * dt as int <= 0)) by (nonlinear_arith)
            requires
                -VEL_MAX <= v <= VEL_MAX,
                0 <= dt <= SCALE,
        ;
    }
    let p = v * dt;
    let r = trunc_div(p, SCALE);
    proof {
        if p >= 0 {
            vstd::arithmetic::div_mod::lemma_div_is_ordered(
                p as int,
                iabs(v as int) * SCALE,
                SCALE as int,
            );
            lemma_mul_div_vanish(iabs(v as int));
        } else {
            vstd::arithmetic::div_mod::lemma_div_is_ordered(
                -p as int,
                iabs(v as int) * SCALE,
                SCALE as int,
            );
            lemma_mul_div_vanish(iabs(v as int));
        }
    }
    r
}

/// `(a * SCALE) / SCALE == a`.
proof fn lemma_mul_div_vanish(a: int)
    ensures
        (a * SCALE) / (SCALE as int) == a,
{
    vstd::arithmetic::div_mod::lemma_fundamental_div_mod_converse_div(
        a * SCALE,
        SCALE as int,
        a,
        0,
    );
}

/// Cut a displacement component to stop just short of a collision at
/// parametric time `num / den`: scale it to the collision, then pull back
/// one fixed-point unit (clamped at zero rather than reversed).
fn scale_to_hit(s: i64, num: i64, den: i64) -> (r: i64)
    requires
        0 < den <= VEL_MAX,
        0 <= num <= den,
        -VEL_MAX <= s <= VEL_MAX,
        s != 0,
    ensures
        iabs(r as int) < iabs(s as int),
        s > 0 ==> r >= 0,
        s < 0 ==> r <= 0,
{
    let p = if s >= 0 {
        s
    } else {
        -s
    };
    proof {
        assert(0 <= p as int * num as int <= p as int * den as int && p as int * den as int
            <= VEL_MAX * VEL_MAX) by (nonlinear_arith)
            requires
                0 < p <= VEL_MAX,
                0 <= num <= den,
                den <= VEL_MAX,
        ;
    }
    let m = p * num;
    let q = m / den;
    proof {
        vstd::arithmetic::div_mod::lemma_div_is_ordered(
            m as int,
            p as int * den as int,
            den as int,
        );
        vstd::arithmetic::div_mod::lemma_div_pos_is_pos(m as int, den as int);
        vstd::arithmetic::div_mod::lemma_fundamental_div_mod_converse_div(
            p as int * den as int,
            den as int,
            p as int,
            0,
        );
        assert(q <= p);
    }
    let mag = if q == 0 {
        0
    } else {
        q - 1
    };
    if s >= 0 {
        mag
    } else {
        -mag
    }
}


/// The lowest voxel layer a coordinate moving from `low` by any prefix of
/// `shift` can touch (with one layer of grace below).
pub open spec fn slab_lo(low: i64, shift: i64) -> int {
    (low + (if shift < 0 {
        shift as int
    } else {
        0
    })) / (SCALE as int)
}

/// The highest voxel layer the far face of an extent `size` moving from
/// `low` by any prefix of `shift` can touch.
pub open spec fn slab_hi(low: i64, size: i64, shift: i64) -> int {
    (low + size + (if shift > 0 {
        shift as int
    } else {
        0
    })) / (SCALE as int)
}

/// The axis-aligned region of voxels a box low corner `low` with extent
/// `size` can touch while displaced by any prefix of `shift`.
pub open spec fn in_swept_box(g: IVec3, low: Fix3, size: Fix3, shift: Fix3) -> bool {
    &&& slab_lo(low.x, shift.x) - 1 <= g.x <= slab_hi(low.x, size.x, shift.x)
    &&& slab_lo(low.y, shift.y) - 1 <= g.y <= slab_hi(low.y, size.y, shift.y)
    &&& slab_lo(low.z, shift.z) - 1 <= g.z <= slab_hi(low.z, size.z, shift.z)
}

/// Scaled comparisons move through floor division.
proof fn lemma_scaled_le(t: int, x: int)
    requires
        SCALE * t <= x,
    ensures
        t <= x / (SCALE as int),
{
    vstd::arithmetic::div_mod::lemma_fundamental_div_mod_converse_div(
        SCALE * t,
        SCALE as int,
        t,
        0,
    );
    vstd::arithmetic::div_mod::lemma_div_is_ordered(SCALE * t, x, SCALE as int);
}

proof fn lemma_scaled_ge(t: int, x: int)
    requires
        SCALE * t >= x,
    ensures
        t >= x / (SCALE as int),
{
    vstd::arithmetic::div_mod::lemma_fundamental_div_mod_converse_div(
        SCALE * t,
        SCALE as int,
        t,
        0,
    );
    vstd::arithmetic::div_mod::lemma_div_is_ordered(x, SCALE * t, SCALE as int);
}

/// A common factor in numerator and denominator of a floor quotient cancels.
proof fn lemma_cancel_den(c: int, den: int)
    requires
        den > 0,
    ensures
        (c * den) / (den * SCALE as int) == c / (SCALE as int),
{
    vstd::arithmetic::div_mod::lemma_fundamental_div_mod(c, SCALE as int);
    vstd::arithmetic::div_mod::lemma_mod_bound(c, SCALE as int);
    let q = c / (SCALE as int);
    let m = c % (SCALE as int);
    assert(c * den == (den * SCALE) * q + m * den) by (nonlinear_arith)
        requires
            c == SCALE * q + m,
    ;
    assert(0 <= m * den < den * SCALE) by (nonlinear_arith)
        requires
            0 <= m < SCALE,
            den > 0,
    ;
    vstd::arithmetic::div_mod::lemma_fundamental_div_mod_converse_div(
        c * den,
        den * SCALE as int,
        q,
        m * den,
    );
}

/// A voxel column reached at any time within the crossing lies between the
/// columns of the displaced coordinate's extremes.
proof fn lemma_col_range(a: int, b: int, num: int, den: int)
    requires
        0 < den,
        0 <= num <= den,
    ensures
        (a + (if b < 0 {
            b
        } else {
            0
        })) / (SCALE as int) <= (a * den + b * num) / (den * SCALE as int),
        (a * den + b * num) / (den * SCALE as int) <= (a + (if b > 0 {
            b
        } else {
            0
        })) / (SCALE as int),
{
    let lo = a + if b < 0 {
        b
    } else {
        0
    };
    let hi = a + if b > 0 {
        b
    } else {
        0
    };
    assert(den * SCALE > 0) by (nonlinear_arith)
        requires
            0 < den,
    ;
    if b >= 0 {
        assert(a * den <= a * den + b * num && a * den + b * num <= (a + b) * den)
            by (nonlinear_arith)
            requires
                0 < den,
                0 <= num <= den,
                b >= 0,
        ;
    } else {
        assert((a + b) * den <= a * den + b * num && a * den + b * num <= a * den)
            by (nonlinear_arith)
            requires
                0 < den,
                0 <= num <= den,
                b < 0,
        ;
    }
    assert(lo * den <= a * den + b * num && a * den + b * num <= hi * den);
    lemma_cancel_den(lo, den);
    lemma_cancel_den(hi, den);
    vstd::arithmetic::div_mod::lemma_div_is_ordered(
        lo * den,
        a * den + b * num,
        den * SCALE as int,
    );
    vstd::arithmetic::div_mod::lemma_div_is_ordered(
        a * den + b * num,
        hi * den,
        den * SCALE as int,
    );
}

/// Shrinking a displacement without changing its direction keeps the swept
/// region inside the original one.
proof fn lemma_box_mono(g: IVec3, low: Fix3, size: Fix3, shift: Fix3, shift0: Fix3)
    requires
        in_swept_box(g, low, size, shift),
        iabs(shift.x as int) <= iabs(shift0.x as int),
        iabs(shift.y as int) <= iabs(shift0.y as int),
        iabs(shift.z as int) <= iabs(shift0.z as int),
        shift0.x >= 0 ==> shift.x >= 0,
        shift0.x <= 0 ==> shift.x <= 0,
        shift0.y >= 0 ==> shift.y >= 0,
        shift0.y <= 0 ==> shift.y <= 0,
        shift0.z >= 0 ==> shift.z >= 0,
        shift0.z <= 0 ==> shift.z <= 0,
    ensures
        in_swept_box(g, low, size, shift0),
{
    vstd::arithmetic::div_mod::lemma_div_is_ordered(
        low.x + (if shift0.x < 0 {
            shift0.x as int
        } else {
            0
        }),
        low.x + (if shift.x < 0 {
            shift.x as int
        } else {
            0
        }),
        SCALE as int,
    );
    vstd::arithmetic::div_mod::lemma_div_is_ordered(
        low.x + size.x + (if shift.x > 0 {
            shift.x as int
        } else {
            0
        }),
        low.x + size.x + (if shift0.x > 0 {
            shift0.x as int
        } else {
            0
        }),
        SCALE as int,
    );
    vstd::arithmetic::div_mod::lemma_div_is_ordered(
        low.y + (if shift0.y < 0 {
            shift0.y as int
        } else {
            0
        }),
        low.y + (if shift.y < 0 {
            shift.y as int
        } else {
            0
        }),
        SCALE as int,
    );
    vstd::arithmetic::div_mod::lemma_div_is_ordered(
        low.y + size.y + (if shift.y > 0 {
            shift.y as int
        } else {
            0
        }),
        low.y + size.y + (if shift0.y > 0 {
            shift0.y as int
        } else {
            0
        }),
        SCALE as int,
    );
    vstd::arithmetic::div_mod::lemma_div_is_ordered(
        low.z + (if shift0.z < 0 {
            shift0.z as int
        } else {
            0
        }),
        low.z + (if shift.z < 0 {
            shift.z as int
        } else {
            0
        }),
        SCALE as int,
    );
    vstd::arithmetic::div_mod::lemma_div_is_ordered(
        low.z + size.z + (if shift.z > 0 {
            shift.z as int
        } else {
            0
        }),
        low.z + size.z + (if shift0.z > 0 {
            shift0.z as int
        } else {
            0
        }),
        SCALE as int,
    );
}


/// The voxel selected on the plane crossed along `dim`: the entered layer
/// on that axis, and the two column indices on the perpendicular plane.
pub open spec fn spec_compose(dim: Dim3, it: int, u: int, v: int) -> IVec3 {
    match dim {
        Dim3::X => IVec3 { x: it as i64, y: u as i64, z: v as i64 },
        Dim3::Y => IVec3 { x: u as i64, y: it as i64, z: v as i64 },
        Dim3::Z => IVec3 { x: u as i64, y: v as i64, z: it as i64 },
    }
}

/// The voxel column a box coordinate moving from `lowc` by `shiftc` reaches
/// at the crossing time `num / den`.
pub open spec fn spec_cross_col(lowc: int, shiftc: int, num: int, den: int) -> int {
    (lowc * den + shiftc * num) / (den * SCALE as int)
}

/// Whether the box's cross-section at a boundary crossing covers a solid
/// voxel: some voxel column between the two box faces on the perpendicular
/// plane is solid in the entered layer.
pub open spec fn spec_covers_solid(
    chunks: ChunksIndex,
    low: Fix3,
    size: Fix3,
    shift: Fix3,
    step: crate::ray_travel::Step,
) -> bool {
    let dim = step.axis;
    let ud = dim.others().0;
    let vd = dim.others().1;
    let num = step.time_num as int;
    let den = step.time_den as int;
    let u0 = spec_cross_col(low.sel(ud) as int, shift.sel(ud) as int, num, den);
    let u1 = spec_cross_col(low.sel(ud) + size.sel(ud), shift.sel(ud) as int, num, den);
    let v0 = spec_cross_col(low.sel(vd) as int, shift.sel(vd) as int, num, den);
    let v1 = spec_cross_col(low.sel(vd) + size.sel(vd), shift.sel(vd) as int, num, den);
    exists|u: int, v: int|
        u0 <= u <= u1 && v0 <= v <= v1 && chunks.spec_solid_at(
            spec_compose(dim, step.to.sel(dim) as int, u, v),
        )
}

/// A whole sweep that found nothing: `trace` is the full walk of the
/// displacement ray, every crossing's cross-section was clear, and the walk
/// is exhausted.
pub open spec fn spec_sweep_clear(
    chunks: ChunksIndex,
    low: Fix3,
    size: Fix3,
    shift: Fix3,
    start: RayTraveler,
    trace: Seq<crate::ray_travel::Step>,
    s_end: RayTraveler,
) -> bool {
    &&& crate::ray_travel::spec_walk(start, trace, s_end)
    &&& crate::ray_travel::spec_next(s_end) is None
    &&& forall|i: int|
        0 <= i < trace.len() ==> !spec_covers_solid(chunks, low, size, shift, #[trigger] trace[i])
}


/// Absorb a collision on one axis: cut that displacement component to stop
/// just short of the crossing, absorb the velocity along the axis, and note
/// a downward halt.
fn absorb_axis(
    shift: &mut Fix3,
    velocity: &mut Velocity,
    grounded: &mut bool,
    dim: Dim3,
    num: i64,
    den: i64,
)
    requires
        0 < den <= VEL_MAX,
        0 <= num <= den,
        old(shift).sel(dim) != 0,
        den == iabs(old(shift).sel(dim) as int),
        fix3_in_range(*old(shift), VEL_MAX as int),
    ensures
        match dim {
            Dim3::X => {
                &&& iabs(final(shift).x as int) < iabs(old(shift).x as int)
                &&& (old(shift).x > 0 ==> final(shift).x >= 0)
                &&& (old(shift).x < 0 ==> final(shift).x <= 0)
                &&& final(shift).y == old(shift).y && final(shift).z == old(shift).z
                &&& final(velocity).linear == (Fix3 { x: 0, ..old(velocity).linear })
            },
            Dim3::Y => {
                &&& iabs(final(shift).y as int) < iabs(old(shift).y as int)
                &&& (old(shift).y > 0 ==> final(shift).y >= 0)
                &&& (old(shift).y < 0 ==> final(shift).y <= 0)
                &&& final(shift).x == old(shift).x && final(shift).z == old(shift).z
                &&& final(velocity).linear == (Fix3 { y: 0, ..old(velocity).linear })
            },
            Dim3::Z => {
                &&& iabs(final(shift).z as int) < iabs(old(shift).z as int)
                &&& (old(shift).z > 0 ==> final(shift).z >= 0)
                &&& (old(shift).z < 0 ==> final(shift).z <= 0)
                &&& final(shift).x == old(shift).x && final(shift).y == old(shift).y
                &&& final(velocity).linear == (Fix3 { z: 0, ..old(velocity).linear })
            },
        },
        crate::fixed::l1(*final(shift)) < crate::fixed::l1(*old(shift)),
        *final(grounded) == (*old(grounded) || (dim == Dim3::Y && old(shift).y < 0)),
{
    let ghost shift_pre = *shift;
    let ghost vel_pre = velocity.linear;
    let s = shift.axis(dim);
    proof {
        match dim {
            Dim3::X => {
                assert(iabs(s as int) <= VEL_MAX);
            },
            Dim3::Y => {
                assert(iabs(s as int) <= VEL_MAX);
            },
            Dim3::Z => {
                assert(iabs(s as int) <= VEL_MAX);
            },
        }
    }
    let corrected = scale_to_hit(s, num, den);
    *shift = shift.with_axis(dim, corrected);
    velocity.linear = velocity.linear.with_axis(dim, 0);
    if dim == Dim3::Y && s < 0 {
        *grounded = true;
    }
    proof {
        lemma_component_update(shift_pre, *shift, dim, corrected);
        lemma_component_update(vel_pre, velocity.linear, dim, 0);
    }
}

/// A collision found along a sweep: the axis crossed, the crossing time as
/// an exact rational, and a solid voxel the box's cross-section covers.
struct Hit {
    dim: Dim3,
    num: i64,
    den: i64,
    voxel: IVec3,
}

/// The voxel column index that a box coordinate reaches at parametric time
/// `num / den`: the floor of `(a + b * num / den) / SCALE`, exactly.
fn floor_coord_at(a: i64, b: i64, num: i64, den: i64) -> (r: i64)
    requires
        0 < den <= VEL_MAX,
        0 <= num <= den,
        -2_100_000_000 <= a <= 2_100_000_000,
        -VEL_MAX <= b <= VEL_MAX,
    ensures
        r == (a as int * den as int + b as int * num as int) / (den as int * SCALE as int),
        -0x4000_0000_0000_0000 <= r <= 0x4000_0000_0000_0000,
{
    proof {
        assert(-0x0300_0000_0000_0000 <= a as int * den as int <= 0x0300_0000_0000_0000
            && -0x0100_0000_0000_0000 <= b as int * num as int <= 0x0100_0000_0000_0000 && 0
            < den as int * SCALE as int <= 0x4000_0000_0000_0000) by (nonlinear_arith)
            requires
                0 < den <= VEL_MAX,
                0 <= num <= den,
                -2_100_000_000 <= a <= 2_100_000_000,
                -VEL_MAX <= b <= VEL_MAX,
        ;
    }
    let n = a * den + b * num;
    let d = den * SCALE;
    let r = floor_div(n, d);
    proof {
        let q = n as int / d as int;
        vstd::arithmetic::div_mod::lemma_fundamental_div_mod(n as int, d as int);
        vstd::arithmetic::div_mod::lemma_mod_bound(n as int, d as int);
        if q > 0x4000_0000_0000_0000 || q < -0x4000_0000_0000_0000 {
            assert(false) by (nonlinear_arith)
                requires
                    n as int == (d as int) * q + (n as int) % (d as int),
                    0 <= (n as int) % (d as int) < d as int,
                    d >= 1,
                    -0x0400_0000_0000_0000 <= n as int <= 0x0400_0000_0000_0000,
                    q > 0x4000_0000_0000_0000 || q < -0x4000_0000_0000_0000,
            ;
        }
    }
    r
}

/// Walk the displacement ray from the leading corner and return the first
/// boundary crossing at which the box's cross-section covers a solid voxel.
#[verifier::rlimit(100)]
fn sweep_collision(
    chunks: &ChunksIndex,
    corner: Fix3,
    low: Fix3,
    size: Fix3,
    shift: Fix3,
) -> (r: Option<Hit>)
    requires
        chunks.wf(),
        fix3_in_range(corner, 1_003_000_000),
        fix3_in_range(low, 1_002_000_000),
        0 <= size.x <= SIZE_MAX && 0 <= size.y <= SIZE_MAX && 0 <= size.z <= SIZE_MAX,
        fix3_in_range(shift, VEL_MAX as int),
        shift.x > 0 ==> corner.x == low.x + size.x,
        shift.x < 0 ==> corner.x == low.x,
        shift.y > 0 ==> corner.y == low.y + size.y,
        shift.y < 0 ==> corner.y == low.y,
        shift.z > 0 ==> corner.z == low.z + size.z,
        shift.z < 0 ==> corner.z == low.z,
    ensures
        match r {
            None => exists|trace: Seq<crate::ray_travel::Step>, s_end: RayTraveler| #[trigger]
                spec_sweep_clear(
                    *chunks,
                    low,
                    size,
                    shift,
                    crate::ray_travel::spec_new(corner, shift, SCALE),
                    trace,
                    s_end,
                ),
            Some(h) => {
                &&& shift.sel(h.dim) != 0
                &&& h.den == iabs(shift.sel(h.dim) as int)
                &&& 0 <= h.num <= h.den
                &&& chunks.spec_solid_at(h.voxel)
                &&& in_swept_box(h.voxel, low, size, shift)
            },
        },
{
    let mut tr = RayTraveler::new(corner, shift, SCALE);
    let ghost start = tr;
    let ghost mut trace: Seq<crate::ray_travel::Step> = Seq::empty();
    loop
        invariant
            tr.wf(),
            tr.origin == corner,
            tr.ray == shift,
            tr.limit == SCALE,
            start == crate::ray_travel::spec_new(corner, shift, SCALE),
            crate::ray_travel::spec_walk(start, trace, tr),
            forall|i: int|
                0 <= i < trace.len() ==> !spec_covers_solid(
                    *chunks,
                    low,
                    size,
                    shift,
                    #[trigger] trace[i],
                ),
            chunks.wf(),
            fix3_in_range(corner, 1_003_000_000),
            fix3_in_range(low, 1_002_000_000),
            0 <= size.x <= SIZE_MAX && 0 <= size.y <= SIZE_MAX && 0 <= size.z <= SIZE_MAX,
            fix3_in_range(shift, VEL_MAX as int),
            shift.x > 0 ==> corner.x == low.x + size.x,
            shift.x < 0 ==> corner.x == low.x,
            shift.y > 0 ==> corner.y == low.y + size.y,
            shift.y < 0 ==> corner.y == low.y,
            shift.z > 0 ==> corner.z == low.z + size.z,
            shift.z < 0 ==> corner.z == low.z,
        decreases tr.remaining(),
    {
        let ghost tr0 = tr;
        let step = match tr.next() {
            None => {
                proof {
                    assert(spec_sweep_clear(*chunks, low, size, shift, start, trace, tr0));
                }
                return None;
            },
            Some(s) => s,
        };
        let dim = step.axis;
        proof {
            assert(tr0.step_on_axis(step, dim));
            assert(shift.sel(dim) != 0);
            assert(step.time_den == iabs(shift.sel(dim) as int));
            assert(step.time_num * SCALE <= SCALE * step.time_den);
            match dim {
                Dim3::X => {
                    assert(tr0.x_axis is Some && tr0.x_axis->Some_0.num == step.time_num);
                },
                Dim3::Y => {
                    assert(tr0.y_axis is Some && tr0.y_axis->Some_0.num == step.time_num);
                },
                Dim3::Z => {
                    assert(tr0.z_axis is Some && tr0.z_axis->Some_0.num == step.time_num);
                },
            }
            assert(0 <= step.time_num <= step.time_den);
            assert(step.time_den <= VEL_MAX);
        }
        let (u_dim, v_dim) = match dim {
            Dim3::X => (Dim3::Y, Dim3::Z),
            Dim3::Y => (Dim3::X, Dim3::Z),
            Dim3::Z => (Dim3::X, Dim3::Y),
        };
        let au = low.axis(u_dim);
        let bu = shift.axis(u_dim);
        let av = low.axis(v_dim);
        let bv = shift.axis(v_dim);
        let u0 = floor_coord_at(au, bu, step.time_num, step.time_den);
        let u1 = floor_coord_at(au + size.axis(u_dim), bu, step.time_num, step.time_den);
        let v0 = floor_coord_at(av, bv, step.time_num, step.time_den);
        let v1 = floor_coord_at(av + size.axis(v_dim), bv, step.time_num, step.time_den);
        let layer = step.to.axis(dim);
        proof {
            lemma_layer_bound(tr, dim);
            assert(-0x4000_0000_0000_0000 <= layer <= 0x4000_0000_0000_0000);
            // the crossed layer lies within the displaced corner's slab
            let o = corner.sel(dim);
            let d = shift.sel(dim);
            let num = step.time_num as int;
            assert(d > 0 ==> o + num == SCALE * layer);
            assert(d < 0 ==> o - num == SCALE * (layer + 1));
            if d > 0 {
                lemma_scaled_le(layer as int, o + d);
                lemma_scaled_ge(layer as int, o as int);
            } else {
                lemma_scaled_ge(layer as int + 1, o + d);
                lemma_scaled_le(layer as int + 1, o as int);
            }
            // the covered columns lie within the plane axes' slabs
            lemma_col_range(au as int, bu as int, num, step.time_den as int);
            lemma_col_range(au + size.sel(u_dim), bu as int, num, step.time_den as int);
            lemma_col_range(av as int, bv as int, num, step.time_den as int);
            lemma_col_range(av + size.sel(v_dim), bv as int, num, step.time_den as int);
            match dim {
                Dim3::X => {
                    assert(slab_lo(low.x, shift.x) - 1 <= layer <= slab_hi(
                        low.x,
                        size.x,
                        shift.x,
                    ));
                    assert(slab_lo(low.y, shift.y) <= u0 && u1 <= slab_hi(low.y, size.y, shift.y));
                    assert(slab_lo(low.z, shift.z) <= v0 && v1 <= slab_hi(low.z, size.z, shift.z));
                },
                Dim3::Y => {
                    assert(slab_lo(low.y, shift.y) - 1 <= layer <= slab_hi(
                        low.y,
                        size.y,
                        shift.y,
                    ));
                    assert(slab_lo(low.x, shift.x) <= u0 && u1 <= slab_hi(low.x, size.x, shift.x));
                    assert(slab_lo(low.z, shift.z) <= v0 && v1 <= slab_hi(low.z, size.z, shift.z));
                },
                Dim3::Z => {
                    assert(slab_lo(low.z, shift.z) - 1 <= layer <= slab_hi(
                        low.z,
                        size.z,
                        shift.z,
                    ));
                    assert(slab_lo(low.x, shift.x) <= u0 && u1 <= slab_hi(low.x, size.x, shift.x));
                    assert(slab_lo(low.y, shift.y) <= v0 && v1 <= slab_hi(low.y, size.y, shift.y));
                },
            }
        }
        proof {
            assert(u_dim == dim.others().0 && v_dim == dim.others().1);
            assert(u0 == spec_cross_col(
                low.sel(u_dim) as int,
                shift.sel(u_dim) as int,
                step.time_num as int,
                step.time_den as int,
            ));
            assert(u1 == spec_cross_col(
                low.sel(u_dim) + size.sel(u_dim),
                shift.sel(u_dim) as int,
                step.time_num as int,
                step.time_den as int,
            ));
            assert(v0 == spec_cross_col(
                low.sel(v_dim) as int,
                shift.sel(v_dim) as int,
                step.time_num as int,
                step.time_den as int,
            ));
            assert(v1 == spec_cross_col(
                low.sel(v_dim) + size.sel(v_dim),
                shift.sel(v_dim) as int,
                step.time_num as int,
                step.time_den as int,
            ));
            assert(layer == step.to.sel(dim));
        }
        let mut u = u0;
        while u <= u1
            invariant
                u0 <= u,
                forall|uu: int, vv: int|
                    u0 <= uu < u && v0 <= vv <= v1 ==> !chunks.spec_solid_at(
                        #[trigger] spec_compose(dim, layer as int, uu, vv),
                    ),
                (match step.axis {
                    Dim3::X => slab_lo(low.x, shift.x) - 1 <= layer <= slab_hi(
                        low.x,
                        size.x,
                        shift.x,
                    ) && slab_lo(low.y, shift.y) <= u0 && u1 <= slab_hi(low.y, size.y, shift.y)
                        && slab_lo(low.z, shift.z) <= v0 && v1 <= slab_hi(
                        low.z,
                        size.z,
                        shift.z,
                    ),
                    Dim3::Y => slab_lo(low.y, shift.y) - 1 <= layer <= slab_hi(
                        low.y,
                        size.y,
                        shift.y,
                    ) && slab_lo(low.x, shift.x) <= u0 && u1 <= slab_hi(low.x, size.x, shift.x)
                        && slab_lo(low.z, shift.z) <= v0 && v1 <= slab_hi(
                        low.z,
                        size.z,
                        shift.z,
                    ),
                    Dim3::Z => slab_lo(low.z, shift.z) - 1 <= layer <= slab_hi(
                        low.z,
                        size.z,
                        shift.z,
                    ) && slab_lo(low.x, shift.x) <= u0 && u1 <= slab_hi(low.x, size.x, shift.x)
                        && slab_lo(low.y, shift.y) <= v0 && v1 <= slab_hi(
                        low.y,
                        size.y,
                        shift.y,
                    ),
                }),
                u1 <= 0x4000_0000_0000_0000,
                -0x4000_0000_0000_0000 <= u,
                chunks.wf(),
                -0x4000_0000_0000_0000 <= v0 <= 0x4000_0000_0000_0000,
                -0x4000_0000_0000_0000 <= v1 <= 0x4000_0000_0000_0000,
                -0x4000_0000_0000_0000 <= layer <= 0x4000_0000_0000_0000,
                shift.sel(dim) != 0,
                step.time_den == iabs(shift.sel(dim) as int),
                0 <= step.time_num <= step.time_den,
                step.axis == dim,
            decreases u1 - u + 1,
        {
            let mut v = v0;
            while v <= v1
                invariant
                    v0 <= v,
                    u0 <= u <= u1,
                    forall|uu: int, vv: int|
                        u0 <= uu < u && v0 <= vv <= v1 ==> !chunks.spec_solid_at(
                            #[trigger] spec_compose(dim, layer as int, uu, vv),
                        ),
                    forall|vv: int|
                        v0 <= vv < v ==> !chunks.spec_solid_at(
                            #[trigger] spec_compose(dim, layer as int, u as int, vv),
                        ),
                    (match step.axis {
                    Dim3::X => slab_lo(low.x, shift.x) - 1 <= layer <= slab_hi(
                        low.x,
                        size.x,
                        shift.x,
                    ) && slab_lo(low.y, shift.y) <= u0 && u1 <= slab_hi(low.y, size.y, shift.y)
                        && slab_lo(low.z, shift.z) <= v0 && v1 <= slab_hi(
                        low.z,
                        size.z,
                        shift.z,
                    ),
                    Dim3::Y => slab_lo(low.y, shift.y) - 1 <= layer <= slab_hi(
                        low.y,
                        size.y,
                        shift.y,
                    ) && slab_lo(low.x, shift.x) <= u0 && u1 <= slab_hi(low.x, size.x, shift.x)
                        && slab_lo(low.z, shift.z) <= v0 && v1 <= slab_hi(
                        low.z,
                        size.z,
                        shift.z,
                    ),
                    Dim3::Z => slab_lo(low.z, shift.z) - 1 <= layer <= slab_hi(
                        low.z,
                        size.z,
                        shift.z,
                    ) && slab_lo(low.x, shift.x) <= u0 && u1 <= slab_hi(low.x, size.x, shift.x)
                        && slab_lo(low.y, shift.y) <= v0 && v1 <= slab_hi(
                        low.y,
                        size.y,
                        shift.y,
                    ),
                    }),
                    v1 <= 0x4000_0000_0000_0000,
                    -0x4000_0000_0000_0000 <= v,
                    chunks.wf(),
                    -0x4000_0000_0000_0000 <= u <= 0x4000_0000_0000_0000,
                    -0x4000_0000_0000_0000 <= layer <= 0x4000_0000_0000_0000,
                    shift.sel(dim) != 0,
                    step.time_den == iabs(shift.sel(dim) as int),
                    0 <= step.time_num <= step.time_den,
                    step.axis == dim,
                decreases v1 - v + 1,
            {
                let sel = IVec3::compose(dim, layer, [u, v]);
                let hit = chunks.get(sel);
                proof {
                    match dim {
                        Dim3::X => {
                            assert(sel == IVec3 { x: layer, y: u, z: v });
                        },
                        Dim3::Y => {
                            assert(sel == IVec3 { x: u, y: layer, z: v });
                        },
                        Dim3::Z => {
                            assert(sel == IVec3 { x: u, y: v, z: layer });
                        },
                    }
                    assert(sel == spec_compose(dim, layer as int, u as int, v as int));
                }
                if hit {
                    proof {
                        assert(in_swept_box(sel, low, size, shift));
                    }
                    return Some(
                        Hit { dim, num: step.time_num, den: step.time_den, voxel: sel },
                    );
                }
                v = v + 1;
            }
            u = u + 1;
        }
        proof {
            // the whole cross-section was clear at this crossing
            assert(!spec_covers_solid(*chunks, low, size, shift, step));
            crate::ray_travel::lemma_spec_walk_push(start, trace, tr0, step, tr);
            trace = trace.push(step);
        }
    }
}

/// Every voxel coordinate a well-formed traveler stands at is well within
/// the scalar range: the crossing numerators bound it through the origin.
proof fn lemma_layer_bound(tr: RayTraveler, dim: Dim3)
    requires
        tr.wf(),
    ensures
        -0x4000_0000_0000_0000 <= tr.at.sel(dim) <= 0x4000_0000_0000_0000,
{
    if tr.axis(dim) is None {
        match dim {
            Dim3::X => {
                assert(SCALE * tr.at.x <= tr.origin.x < SCALE * tr.at.x + SCALE);
            },
            Dim3::Y => {
                assert(SCALE * tr.at.y <= tr.origin.y < SCALE * tr.at.y + SCALE);
            },
            Dim3::Z => {
                assert(SCALE * tr.at.z <= tr.origin.z < SCALE * tr.at.z + SCALE);
            },
        }
    }
    if tr.axis(dim) is Some {
        let t = tr.axis(dim)->Some_0;
        let o = tr.origin.sel(dim);
        let d = tr.ray.sel(dim);
        let at = tr.at.sel(dim);
        assert(t.num * SCALE <= tr.limit * t.den + SCALE * SCALE);
        assert(tr.limit * t.den <= crate::fixed::FIX_MAX * crate::fixed::FIX_MAX)
            by (nonlinear_arith)
            requires
                0 <= tr.limit <= crate::fixed::FIX_MAX,
                0 < t.den <= crate::fixed::FIX_MAX,
        ;
        match dim {
            Dim3::X => {
                assert(t.den == iabs(d as int) && 0 < t.den <= crate::fixed::FIX_MAX);
            },
            Dim3::Y => {
                assert(t.den == iabs(d as int) && 0 < t.den <= crate::fixed::FIX_MAX);
            },
            Dim3::Z => {
                assert(t.den == iabs(d as int) && 0 < t.den <= crate::fixed::FIX_MAX);
            },
        }
        if d > 0 {
            assert(SCALE * (at + 1) == o + t.num);
        } else {
            assert(SCALE * at == o - t.num);
        }
    }
}

/// A fixed-point point displaced backward by another.
pub open spec fn spec_sub3(a: Fix3, b: Fix3) -> Fix3 {
    Fix3 { x: (a.x - b.x) as i64, y: (a.y - b.y) as i64, z: (a.z - b.z) as i64 }
}

/// A fixed-point point displaced by another.
pub open spec fn spec_add3(a: Fix3, b: Fix3) -> Fix3 {
    Fix3 { x: (a.x + b.x) as i64, y: (a.y + b.y) as i64, z: (a.z + b.z) as i64 }
}

/// The world-space position of the leading corner of a body at `pos`.
pub open spec fn spec_active_corner(pos: Fix3, anchor: Fix3, select: Fix3) -> Fix3 {
    Fix3 {
        x: (pos.x - anchor.x + select.x) as i64,
        y: (pos.y - anchor.y + select.y) as i64,
        z: (pos.z - anchor.z + select.z) as i64,
    }
}

/// Accelerate a body downward: gravity of forty world units per square
/// second over a tick of `dt` fixed-point seconds.
pub fn apply_gravity(velocity: &mut Velocity, dt: i64)
    requires
        0 <= dt <= SCALE,
        fix3_in_range(old(velocity).linear, VEL_MAX as int),
    ensures
        final(velocity).linear.y == old(velocity).linear.y - 40 * dt,
        final(velocity).linear.x == old(velocity).linear.x,
        final(velocity).linear.z == old(velocity).linear.z,
{
    velocity.linear.y = velocity.linear.y - 40 * dt;
}

/// Advance a body by one tick of its velocity, resolving collisions with
/// the voxel grid.
///
/// The displacement ray is walked from the leading corner; at the first
/// crossing whose swept cross-section covers a solid voxel, the displacement
/// is cut to stop just short of the collision, the velocity along that axis
/// is absorbed, and the search restarts.  Each velocity component therefore
/// comes out either untouched or zero; an axis whose velocity survived moved
/// its full displacement, and no axis moves farther than attempted.
/// `grounded` reports a downward collision, and then the downward velocity
/// was absorbed.
///
/// A final integrity probe tests the voxel at the moved leading corner:
/// where it is solid — tunneling — the move is rejected with a diagnostic
/// payload (the position before the tick, the attempted and the corrected
/// displacement, and the offending resulting point) and the position is not
/// committed; the caller chooses the recovery.
#[verifier::rlimit(100)]
pub fn apply_velocity(
    chunks: &ChunksIndex,
    position: Fix3,
    collider: &Collider,
    velocity: &mut Velocity,
    dt: i64,
) -> (r: Result<Moved, Tunneled>)
    requires
        chunks.wf(),
        fix3_in_range(position, POS_MAX as int),
        collider.wf(),
        fix3_in_range(old(velocity).linear, VEL_MAX as int),
        0 <= dt <= SCALE,
    ensures
        fix3_in_range(final(velocity).linear, VEL_MAX as int),
        final(velocity).linear.x == old(velocity).linear.x || final(velocity).linear.x == 0,
        final(velocity).linear.y == old(velocity).linear.y || final(velocity).linear.y == 0,
        final(velocity).linear.z == old(velocity).linear.z || final(velocity).linear.z == 0,
        final(velocity).linear != old(velocity).linear ==> exists|g: IVec3|
            chunks.spec_solid_at(g) && in_swept_box(
                g,
                spec_sub3(position, collider.anchor),
                collider.size,
                spec_shift(old(velocity).linear, dt),
            ),
        (forall|g: IVec3|
            in_swept_box(
                g,
                spec_sub3(position, collider.anchor),
                collider.size,
                spec_shift(old(velocity).linear, dt),
            ) ==> !chunks.spec_solid_at(g)) ==> ({
            let shift0 = spec_shift(old(velocity).linear, dt);
            match r {
                Ok(m) => final(velocity).linear == old(velocity).linear && !m.grounded
                    && m.position.x == position.x + shift0.x && m.position.y == position.y
                    + shift0.y && m.position.z == position.z + shift0.z,
                Err(_) => false,
            }
        }),
        ({
            let shift0 = spec_shift(old(velocity).linear, dt);
            let select = spec_corner_select(old(velocity).linear, collider.size);
            match r {
                Ok(m) => {
                    &&& iabs(m.position.x - position.x) <= iabs(shift0.x as int)
                    &&& iabs(m.position.y - position.y) <= iabs(shift0.y as int)
                    &&& iabs(m.position.z - position.z) <= iabs(shift0.z as int)
                    &&& (final(velocity).linear.x == old(velocity).linear.x ==> m.position.x
                        == position.x + shift0.x)
                    &&& (final(velocity).linear.y == old(velocity).linear.y ==> m.position.y
                        == position.y + shift0.y)
                    &&& (final(velocity).linear.z == old(velocity).linear.z ==> m.position.z
                        == position.z + shift0.z)
                    &&& (m.position != spec_add3(position, shift0) ==> exists|g: IVec3|
                        chunks.spec_solid_at(g) && in_swept_box(
                            g,
                            spec_sub3(position, collider.anchor),
                            collider.size,
                            shift0,
                        ))
                    &&& (m.grounded ==> final(velocity).linear.y == 0 && old(
                        velocity,
                    ).linear.y < 0)
                    &&& (final(velocity).linear.y == old(velocity).linear.y ==> !m.grounded)
                    &&& (exists|trace: Seq<crate::ray_travel::Step>, s_end: RayTraveler|
                        #[trigger] spec_sweep_clear(
                            *chunks,
                            spec_sub3(position, collider.anchor),
                            collider.size,
                            spec_sub3(m.position, position),
                            crate::ray_travel::spec_new(
                                spec_active_corner(position, collider.anchor, select),
                                spec_sub3(m.position, position),
                                SCALE,
                            ),
                            trace,
                            s_end,
                        ))
                    &&& !chunks.spec_solid_at(
                        spec_voxel_of(spec_active_corner(m.position, collider.anchor, select)),
                    )
                },
                Err(t) => {
                    &&& t.position == position
                    &&& t.attempted == shift0
                    &&& iabs(t.corrected.x as int) <= iabs(shift0.x as int)
                    &&& iabs(t.corrected.y as int) <= iabs(shift0.y as int)
                    &&& iabs(t.corrected.z as int) <= iabs(shift0.z as int)
                    &&& t.resulting == spec_active_corner(
                        spec_add3(position, t.corrected),
                        collider.anchor,
                        select,
                    )
                    &&& chunks.spec_solid_at(spec_voxel_of(t.resulting))
                },
            }
        }),
{
    let ghost vel0 = velocity.linear;
    // the leading corner: the face advancing along each axis
    let corner_select = Fix3 {
        x: if velocity.linear.x < 0 {
            0
        } else {
            collider.size.x
        },
        y: if velocity.linear.y < 0 {
            0
        } else {
            collider.size.y
        },
        z: if velocity.linear.z < 0 {
            0
        } else {
            collider.size.z
        },
    };
    let corner_active = position.sub(collider.anchor).add(corner_select);
    let low = position.sub(collider.anchor);
    // the full-tick displacement
    let shift0 = Fix3 {
        x: scale_shift(velocity.linear.x, dt),
        y: scale_shift(velocity.linear.y, dt),
        z: scale_shift(velocity.linear.z, dt),
    };
    let mut shift = shift0;
    let mut grounded = false;
    let ghost mut obstruction: Option<IVec3> = None;
    proof {
        assert(corner_select == spec_corner_select(vel0, collider.size));
        assert(shift0 == spec_shift(vel0, dt));
        assert(corner_active == spec_active_corner(position, collider.anchor, corner_select));
    }
    loop
        invariant
            chunks.wf(),
            collider.wf(),
            fix3_in_range(position, POS_MAX as int),
            fix3_in_range(corner_active, 1_003_000_000),
            fix3_in_range(low, 1_002_000_000),
            fix3_in_range(shift0, VEL_MAX as int),
            fix3_in_range(shift, VEL_MAX as int),
            fix3_in_range(velocity.linear, VEL_MAX as int),
            velocity.linear.x == vel0.x || velocity.linear.x == 0,
            velocity.linear.y == vel0.y || velocity.linear.y == 0,
            velocity.linear.z == vel0.z || velocity.linear.z == 0,
            iabs(shift.x as int) <= iabs(shift0.x as int),
            iabs(shift.y as int) <= iabs(shift0.y as int),
            iabs(shift.z as int) <= iabs(shift0.z as int),
            velocity.linear.x == vel0.x ==> shift.x == shift0.x,
            velocity.linear.y == vel0.y ==> shift.y == shift0.y,
            velocity.linear.z == vel0.z ==> shift.z == shift0.z,
            iabs(vel0.x as int) <= VEL_MAX && iabs(vel0.y as int) <= VEL_MAX && iabs(
                vel0.z as int,
            ) <= VEL_MAX,
            iabs(shift0.x as int) <= iabs(vel0.x as int),
            iabs(shift0.y as int) <= iabs(vel0.y as int),
            iabs(shift0.z as int) <= iabs(vel0.z as int),
            vel0.x >= 0 ==> shift0.x >= 0,
            vel0.x <= 0 ==> shift0.x <= 0,
            vel0.y >= 0 ==> shift0.y >= 0,
            vel0.y <= 0 ==> shift0.y <= 0,
            vel0.z >= 0 ==> shift0.z >= 0,
            vel0.z <= 0 ==> shift0.z <= 0,
            match obstruction {
                Some(g) => chunks.spec_solid_at(g) && in_swept_box(g, low, collider.size, shift0),
                None => velocity.linear == vel0 && shift == shift0 && !grounded,
            },
            vel0.x >= 0 ==> shift.x >= 0 && corner_active.x == low.x + collider.size.x,
            vel0.x < 0 ==> shift.x <= 0 && corner_active.x == low.x,
            vel0.y >= 0 ==> shift.y >= 0 && corner_active.y == low.y + collider.size.y,
            vel0.y < 0 ==> shift.y <= 0 && corner_active.y == low.y,
            vel0.z >= 0 ==> shift.z >= 0 && corner_active.z == low.z + collider.size.z,
            vel0.z < 0 ==> shift.z <= 0 && corner_active.z == low.z,
            grounded ==> velocity.linear.y == 0 && vel0.y < 0,
        ensures
            velocity.linear.x == vel0.x || velocity.linear.x == 0,
            velocity.linear.y == vel0.y || velocity.linear.y == 0,
            velocity.linear.z == vel0.z || velocity.linear.z == 0,
            fix3_in_range(velocity.linear, VEL_MAX as int),
            fix3_in_range(shift, VEL_MAX as int),
            iabs(shift.x as int) <= iabs(shift0.x as int),
            iabs(shift.y as int) <= iabs(shift0.y as int),
            iabs(shift.z as int) <= iabs(shift0.z as int),
            velocity.linear.x == vel0.x ==> shift.x == shift0.x,
            velocity.linear.y == vel0.y ==> shift.y == shift0.y,
            velocity.linear.z == vel0.z ==> shift.z == shift0.z,
            match obstruction {
                Some(g) => chunks.spec_solid_at(g) && in_swept_box(g, low, collider.size, shift0),
                None => velocity.linear == vel0 && shift == shift0 && !grounded,
            },
            vel0.x >= 0 ==> shift.x >= 0 && corner_active.x == low.x + collider.size.x,
            vel0.x < 0 ==> shift.x <= 0 && corner_active.x == low.x,
            vel0.y >= 0 ==> shift.y >= 0 && corner_active.y == low.y + collider.size.y,
            vel0.y < 0 ==> shift.y <= 0 && corner_active.y == low.y,
            vel0.z >= 0 ==> shift.z >= 0 && corner_active.z == low.z + collider.size.z,
            vel0.z < 0 ==> shift.z <= 0 && corner_active.z == low.z,
            grounded ==> velocity.linear.y == 0 && vel0.y < 0,
            (shift.x == 0 && shift.y == 0 && shift.z == 0) || exists|
                trace: Seq<crate::ray_travel::Step>,
                s_end: RayTraveler,
            |
                #[trigger] spec_sweep_clear(
                    *chunks,
                    low,
                    collider.size,
                    shift,
                    crate::ray_travel::spec_new(corner_active, shift, SCALE),
                    trace,
                    s_end,
                ),
        decreases crate::fixed::l1(shift),
    {
        if shift.x == 0 && shift.y == 0 && shift.z == 0 {
            break ;
        }
        match sweep_collision(chunks, corner_active, low, collider.size, shift) {
            None => {
                break ;
            },
            Some(h) => {
                let ghost shift_pre = shift;
                absorb_axis(&mut shift, velocity, &mut grounded, h.dim, h.num, h.den);
                proof {
                    assert(chunks.spec_solid_at(h.voxel));
                    lemma_box_mono(h.voxel, low, collider.size, shift_pre, shift0);
                    obstruction = Some(h.voxel);
                }
            },
        }
    }
    // integrity probe: the moved leading corner must not sit in a solid voxel
    let target = corner_active.add(shift);
    let probe = voxel_of(target);
    proof {
        // the probed voxel lies within the region swept by the whole tick
        lemma_probe_in_box(vel0, low, collider.size, corner_active, shift0, shift, probe, target);
        assert(low == spec_sub3(position, collider.anchor));
    }
    if chunks.get(probe) {
        return Err(
            Tunneled { position, attempted: shift0, corrected: shift, resulting: target },
        );
    }
    let moved = position.add(shift);
    proof {
        assert(target == spec_active_corner(moved, collider.anchor, corner_select));
        assert(moved == spec_add3(position, shift));
        if obstruction is Some {
            let g = obstruction->Some_0;
            assert(chunks.spec_solid_at(g) && in_swept_box(g, low, collider.size, shift0));
        } else {
            assert(velocity.linear == vel0 && shift == shift0 && !grounded);
        }
        // the displacement about to be committed sweeps through nothing solid
        assert(low == spec_sub3(position, collider.anchor));
        assert(shift == spec_sub3(moved, position));
        if shift.x == 0 && shift.y == 0 && shift.z == 0 {
            lemma_zero_sweep_clear(*chunks, low, collider.size, corner_active, shift);
        }
        lemma_sweep_clear_transfer(
            *chunks,
            low,
            collider.size,
            shift,
            corner_active,
            spec_sub3(position, collider.anchor),
            spec_sub3(moved, position),
            spec_active_corner(position, collider.anchor, corner_select),
        );
    }
    Ok(Moved { position: moved, grounded })
}


/// A vector updated on one axis, componentwise.
proof fn lemma_component_update(a: Fix3, b: Fix3, dim: Dim3, val: i64)
    requires
        b.sel(dim) == val,
        forall|d: Dim3| d != dim ==> b.sel(d) == a.sel(d),
    ensures
        match dim {
            Dim3::X => b.x == val && b.y == a.y && b.z == a.z,
            Dim3::Y => b.y == val && b.x == a.x && b.z == a.z,
            Dim3::Z => b.z == val && b.x == a.x && b.y == a.y,
        },
{
    match dim {
        Dim3::X => {
            assert(b.sel(Dim3::Y) == a.sel(Dim3::Y) && b.sel(Dim3::Z) == a.sel(Dim3::Z));
        },
        Dim3::Y => {
            assert(b.sel(Dim3::X) == a.sel(Dim3::X) && b.sel(Dim3::Z) == a.sel(Dim3::Z));
        },
        Dim3::Z => {
            assert(b.sel(Dim3::X) == a.sel(Dim3::X) && b.sel(Dim3::Y) == a.sel(Dim3::Y));
        },
    }
}


/// A zero displacement sweeps through nothing: its walk is empty.
proof fn lemma_zero_sweep_clear(chunks: ChunksIndex, low: Fix3, size: Fix3, corner: Fix3, shift: Fix3)
    requires
        shift.x == 0 && shift.y == 0 && shift.z == 0,
    ensures
        exists|trace: Seq<crate::ray_travel::Step>, s_end: RayTraveler| #[trigger]
            spec_sweep_clear(
                chunks,
                low,
                size,
                shift,
                crate::ray_travel::spec_new(corner, shift, SCALE),
                trace,
                s_end,
            ),
{
    let s0 = crate::ray_travel::spec_new(corner, shift, SCALE);
    assert(s0.x_axis is None && s0.y_axis is None && s0.z_axis is None);
    assert(crate::ray_travel::spec_next(s0) is None);
    assert(crate::ray_travel::spec_walk(s0, Seq::<crate::ray_travel::Step>::empty(), s0));
    assert(spec_sweep_clear(
        chunks,
        low,
        size,
        shift,
        s0,
        Seq::<crate::ray_travel::Step>::empty(),
        s0,
    ));
}

/// A clear sweep restated over equal arguments.
proof fn lemma_sweep_clear_transfer(
    chunks: ChunksIndex,
    low1: Fix3,
    size: Fix3,
    shift1: Fix3,
    corner1: Fix3,
    low2: Fix3,
    shift2: Fix3,
    corner2: Fix3,
)
    requires
        low1 == low2,
        shift1 == shift2,
        corner1 == corner2,
        exists|trace: Seq<crate::ray_travel::Step>, s_end: RayTraveler| #[trigger]
            spec_sweep_clear(
                chunks,
                low1,
                size,
                shift1,
                crate::ray_travel::spec_new(corner1, shift1, SCALE),
                trace,
                s_end,
            ),
    ensures
        exists|trace: Seq<crate::ray_travel::Step>, s_end: RayTraveler| #[trigger]
            spec_sweep_clear(
                chunks,
                low2,
                size,
                shift2,
                crate::ray_travel::spec_new(corner2, shift2, SCALE),
                trace,
                s_end,
            ),
{
}

/// The voxel of the displaced leading corner lies in the swept region of
/// the whole tick's displacement.
proof fn lemma_probe_in_box(
    vel0: Fix3,
    low: Fix3,
    size: Fix3,
    corner: Fix3,
    shift0: Fix3,
    shift: Fix3,
    probe: IVec3,
    target: Fix3,
)
    requires
        0 <= size.x && 0 <= size.y && 0 <= size.z,
        vel0.x >= 0 ==> shift.x >= 0 && shift0.x >= 0 && corner.x == low.x + size.x,
        vel0.x < 0 ==> shift.x <= 0 && shift0.x <= 0 && corner.x == low.x,
        vel0.y >= 0 ==> shift.y >= 0 && shift0.y >= 0 && corner.y == low.y + size.y,
        vel0.y < 0 ==> shift.y <= 0 && shift0.y <= 0 && corner.y == low.y,
        vel0.z >= 0 ==> shift.z >= 0 && shift0.z >= 0 && corner.z == low.z + size.z,
        vel0.z < 0 ==> shift.z <= 0 && shift0.z <= 0 && corner.z == low.z,
        iabs(shift.x as int) <= iabs(shift0.x as int),
        iabs(shift.y as int) <= iabs(shift0.y as int),
        iabs(shift.z as int) <= iabs(shift0.z as int),
        target.x == corner.x + shift.x && target.y == corner.y + shift.y && target.z == corner.z
            + shift.z,
        probe == spec_voxel_of(target),
    ensures
        in_swept_box(probe, low, size, shift0),
{
    assert(low.x + (if shift0.x < 0 {
        shift0.x as int
    } else {
        0
    }) <= target.x <= low.x + size.x + (if shift0.x > 0 {
        shift0.x as int
    } else {
        0
    }));
    assert(low.y + (if shift0.y < 0 {
        shift0.y as int
    } else {
        0
    }) <= target.y <= low.y + size.y + (if shift0.y > 0 {
        shift0.y as int
    } else {
        0
    }));
    assert(low.z + (if shift0.z < 0 {
        shift0.z as int
    } else {
        0
    }) <= target.z <= low.z + size.z + (if shift0.z > 0 {
        shift0.z as int
    } else {
        0
    }));
    vstd::arithmetic::div_mod::lemma_div_is_ordered(
        low.x + (if shift0.x < 0 {
            shift0.x as int
        } else {
            0
        }),
        target.x as int,
        SCALE as int,
    );
    vstd::arithmetic::div_mod::lemma_div_is_ordered(
        target.x as int,
        low.x + size.x + (if shift0.x > 0 {
            shift0.x as int
        } else {
            0
        }),
        SCALE as int,
    );
    vstd::arithmetic::div_mod::lemma_div_is_ordered(
        low.y + (if shift0.y < 0 {
            shift0.y as int
        } else {
            0
        }),
        target.y as int,
        SCALE as int,
    );
    vstd::arithmetic::div_mod::lemma_div_is_ordered(
        target.y as int,
        low.y + size.y + (if shift0.y > 0 {
            shift0.y as int
        } else {
            0
        }),
        SCALE as int,
    );
    vstd::arithmetic::div_mod::lemma_div_is_ordered(
        low.z + (if shift0.z < 0 {
            shift0.z as int
        } else {
            0
        }),
        target.z as int,
        SCALE as int,
    );
    vstd::arithmetic::div_mod::lemma_div_is_ordered(
        target.z as int,
        low.z + size.z + (if shift0.z > 0 {
            shift0.z as int
        } else {
            0
        }),
        SCALE as int,
    );
}

/// How a picking result relates to the ray's walk: `trace` is the full
/// crossing sequence from `start` to `s_end`.  A hit is the first crossing
/// whose entered voxel is solid — every earlier crossing entered empty
/// space; a miss means the walk ran out within the limit with no crossing
/// entering a solid voxel.
pub open spec fn spec_pointed_outcome(
    index: ChunksIndex,
    start: RayTraveler,
    r: Option<(IVec3, IVec3)>,
    trace: Seq<crate::ray_travel::Step>,
    s_end: RayTraveler,
) -> bool {
    &&& crate::ray_travel::spec_walk(start, trace, s_end)
    &&& match r {
        Some((at, from)) => {
            &&& trace.len() > 0
            &&& at == trace.last().to
            &&& from == trace.last().from
            &&& index.spec_solid_at(at)
            &&& (forall|i: int|
                0 <= i < trace.len() - 1 ==> !index.spec_solid_at((#[trigger] trace[i]).to))
        },
        None => {
            &&& crate::ray_travel::spec_next(s_end) is None
            &&& (forall|i: int|
                0 <= i < trace.len() ==> !index.spec_solid_at((#[trigger] trace[i]).to))
        },
    }
}

/// The first solid voxel along a ray, walking every boundary crossing in
/// order up to the limit: the voxel pointed at, and the voxel the ray came
/// from — the face a placed block would occupy.  The result is pinned to
/// the walk itself: a hit is the earliest solid crossing, and a miss means
/// no crossing within the limit enters a solid voxel.
pub fn pointed_block(
    index: &ChunksIndex,
    origin: Fix3,
    ray: Fix3,
    limit: i64,
) -> (r: Option<(IVec3, IVec3)>)
    requires
        index.wf(),
        fix3_in_range(origin, crate::fixed::FIX_MAX as int),
        fix3_in_range(ray, crate::fixed::FIX_MAX as int),
        0 <= limit <= crate::fixed::FIX_MAX,
    ensures
        exists|trace: Seq<crate::ray_travel::Step>, s_end: RayTraveler| #[trigger]
            spec_pointed_outcome(
                *index,
                crate::ray_travel::spec_new(origin, ray, limit),
                r,
                trace,
                s_end,
            ),
        match r {
            Some((at, from)) => index.spec_solid_at(at) && iabs(at.x - from.x) + iabs(
                at.y - from.y,
            ) + iabs(at.z - from.z) == 1,
            None => true,
        },
{
    let mut tr = RayTraveler::new(origin, ray, limit);
    let ghost start = tr;
    let ghost mut trace: Seq<crate::ray_travel::Step> = Seq::empty();
    loop
        invariant
            tr.wf(),
            index.wf(),
            start == crate::ray_travel::spec_new(origin, ray, limit),
            crate::ray_travel::spec_walk(start, trace, tr),
            forall|i: int|
                0 <= i < trace.len() ==> !index.spec_solid_at((#[trigger] trace[i]).to),
        decreases tr.remaining(),
    {
        let ghost tr0 = tr;
        let step = match tr.next() {
            None => {
                proof {
                    assert(spec_pointed_outcome(
                        *index,
                        start,
                        None::<(IVec3, IVec3)>,
                        trace,
                        tr0,
                    ));
                }
                return None;
            },
            Some(s) => s,
        };
        proof {
            assert(tr0.step_on_axis(step, step.axis));
            lemma_layer_bound(tr, Dim3::X);
            lemma_layer_bound(tr, Dim3::Y);
            lemma_layer_bound(tr, Dim3::Z);
            assert(tr.at == step.to);
            match step.axis {
                Dim3::X => {
                    assert(step.to.sel(Dim3::Y) == step.from.sel(Dim3::Y) && step.to.sel(Dim3::Z)
                        == step.from.sel(Dim3::Z));
                    assert(iabs(step.to.x - step.from.x) == 1 && step.to.y == step.from.y
                        && step.to.z == step.from.z);
                },
                Dim3::Y => {
                    assert(step.to.sel(Dim3::X) == step.from.sel(Dim3::X) && step.to.sel(Dim3::Z)
                        == step.from.sel(Dim3::Z));
                    assert(iabs(step.to.y - step.from.y) == 1 && step.to.x == step.from.x
                        && step.to.z == step.from.z);
                },
                Dim3::Z => {
                    assert(step.to.sel(Dim3::X) == step.from.sel(Dim3::X) && step.to.sel(Dim3::Y)
                        == step.from.sel(Dim3::Y));
                    assert(iabs(step.to.z - step.from.z) == 1 && step.to.x == step.from.x
                        && step.to.y == step.from.y);
                },
            }
            crate::ray_travel::lemma_spec_walk_push(start, trace, tr0, step, tr);
        }
        let ghost trace2 = trace.push(step);
        if index.get(step.to) {
            proof {
                assert(trace2.last() == step);
                assert(forall|i: int|
                    0 <= i < trace2.len() - 1 ==> (#[trigger] trace2[i]) == trace[i]);
                assert(spec_pointed_outcome(
                    *index,
                    start,
                    Some((step.to, step.from)),
                    trace2,
                    tr,
                ));
            }
            return Some((step.to, step.from));
        }
        proof {
            trace = trace2;
        }
    }
}

} // verus!
