//! Ray/voxel traversal: the ordered, gap-free sequence of voxel-boundary
//! crossings along a ray.
//!
//! For each axis with a nonzero direction component the traveler keeps the
//! parametric time of the next grid-plane crossing as an exact rational
//! `num / den` with `den` the magnitude of that direction component, in
//! `SCALE`-ths: time `t` stands for the point `origin + (t / SCALE) * ray`.
//! Each call picks the axis with the smallest pending crossing, steps one
//! voxel along it, and advances that axis by one voxel width.  Axes whose
//! direction component is zero never cross.  The walk ends as soon as the
//! smallest pending crossing exceeds the limit.

use vstd::prelude::*;
use crate::fixed::{fix3_in_range, floor_div, floor_rem, iabs, Fix3, IVec3, FIX_MAX, SCALE};
use crate::swizzle::{Dim3, Dim3Selector};

verus! {

/// Traversal state of one axis: the next crossing is at time `num / den`,
/// and stepping moves the voxel coordinate by `dir` (one of `1`, `-1`).
pub struct AxisTraveler {
    pub num: i64,
    pub den: i64,
    pub dir: i64,
}

/// A walk along a ray, crossing one voxel boundary per call.
pub struct RayTraveler {
    pub x_axis: Option<AxisTraveler>,
    pub y_axis: Option<AxisTraveler>,
    pub z_axis: Option<AxisTraveler>,
    pub time_num: i64,
    pub time_den: i64,
    pub limit: i64,
    pub origin: Fix3,
    pub ray: Fix3,
    pub at: IVec3,
}

/// One boundary crossing: the axis crossed and the direction along it, the
/// voxel before and after, and the exact parametric time of the crossing.
pub struct Step {
    pub axis: Dim3,
    pub dir: IVec3,
    pub from: IVec3,
    pub to: IVec3,
    pub time_num: i64,
    pub time_den: i64,
}

/// The numerator of the pending crossing time of one axis, for origin
/// component `o`, direction component `d` and current voxel `at`: the
/// fixed-point distance from the origin to the boundary about to be crossed.
pub open spec fn axis_pending(o: i64, d: i64, at: i64) -> int {
    if d > 0 {
        SCALE * (at + 1) - o
    } else {
        o - SCALE * at
    }
}

/// Well-formedness of one axis: present exactly when the direction component
/// is nonzero, with the crossing rational tied to the current voxel.
pub open spec fn axis_ok(a: Option<AxisTraveler>, o: i64, d: i64, at: i64, limit: int) -> bool {
    match a {
        None => d == 0 && SCALE * at <= o < SCALE * at + SCALE,
        Some(t) => {
            &&& d != 0
            &&& t.den == iabs(d as int)
            &&& t.dir == (if d > 0 {
                1int
            } else {
                -1int
            })
            &&& t.num == axis_pending(o, d, at)
            &&& t.num >= 0
            &&& t.num * SCALE <= limit * t.den + SCALE * SCALE
        },
    }
}

/// How many crossings of one axis remain within the limit.
pub open spec fn axis_remaining(a: Option<AxisTraveler>, limit: int) -> nat {
    match a {
        None => 0,
        Some(t) => if t.num * SCALE > limit * t.den {
            0
        } else {
            (((limit * t.den - t.num * SCALE) / (SCALE * SCALE)) + 1) as nat
        },
    }
}

/// The signed unit vector of an axis.
pub open spec fn axis_unit(dim: Dim3, sign: int) -> IVec3 {
    match dim {
        Dim3::X => IVec3 { x: if sign > 0 {
            1i64
        } else {
            -1i64
        }, y: 0, z: 0 },
        Dim3::Y => IVec3 { x: 0, y: if sign > 0 {
            1i64
        } else {
            -1i64
        }, z: 0 },
        Dim3::Z => IVec3 { x: 0, y: 0, z: if sign > 0 {
            1i64
        } else {
            -1i64
        } },
    }
}


/// The initial traversal state of one axis: the fixed-point distance up to
/// the boundary above for a positive direction component, down to the
/// boundary below for a negative one, none for zero.
pub open spec fn spec_make_axis(o: i64, d: i64) -> Option<AxisTraveler> {
    if d > 0 {
        Some(AxisTraveler { num: (SCALE - o % SCALE) as i64, den: d, dir: 1 })
    } else if d < 0 {
        Some(AxisTraveler { num: (o % SCALE) as i64, den: (-d) as i64, dir: -1i64 })
    } else {
        None
    }
}

/// The whole walk, as a value: what `RayTraveler::new` builds.
pub open spec fn spec_new(origin: Fix3, ray: Fix3, limit: i64) -> RayTraveler {
    RayTraveler {
        x_axis: spec_make_axis(origin.x, ray.x),
        y_axis: spec_make_axis(origin.y, ray.y),
        z_axis: spec_make_axis(origin.z, ray.z),
        time_num: 0,
        time_den: 1,
        limit,
        origin,
        ray,
        at: IVec3 {
            x: (origin.x as int / SCALE as int) as i64,
            y: (origin.y as int / SCALE as int) as i64,
            z: (origin.z as int / SCALE as int) as i64,
        },
    }
}

/// The axis a walk crosses next — the first one whose pending crossing is
/// minimal — with that crossing's rational; none when no axis is active.
pub open spec fn spec_select(s: RayTraveler) -> Option<(Dim3, i64, i64)> {
    let c1 = match s.x_axis {
        Some(t) => Some((Dim3::X, t.num, t.den)),
        None => None,
    };
    let c2 = match s.y_axis {
        Some(t) => match c1 {
            Some((d0, n, dn)) => if n * t.den <= t.num * dn {
                c1
            } else {
                Some((Dim3::Y, t.num, t.den))
            },
            None => Some((Dim3::Y, t.num, t.den)),
        },
        None => c1,
    };
    match s.z_axis {
        Some(t) => match c2 {
            Some((d0, n, dn)) => if n * t.den <= t.num * dn {
                c2
            } else {
                Some((Dim3::Z, t.num, t.den))
            },
            None => Some((Dim3::Z, t.num, t.den)),
        },
        None => c2,
    }
}

/// The walk's voxel after stepping one voxel along `dim`.
pub open spec fn spec_stepped_at(s: RayTraveler, dim: Dim3) -> IVec3 {
    let sign = if s.ray.sel(dim) > 0 {
        1int
    } else {
        -1int
    };
    match dim {
        Dim3::X => IVec3 { x: (s.at.x + sign) as i64, ..s.at },
        Dim3::Y => IVec3 { y: (s.at.y + sign) as i64, ..s.at },
        Dim3::Z => IVec3 { z: (s.at.z + sign) as i64, ..s.at },
    }
}

/// The step a walk reports when it crosses `dim` at time `num / den`.
pub open spec fn spec_step_of(s: RayTraveler, dim: Dim3, num: i64, den: i64) -> Step {
    let sign = if s.ray.sel(dim) > 0 {
        1int
    } else {
        -1int
    };
    Step {
        axis: dim,
        dir: axis_unit(dim, sign),
        from: s.at,
        to: spec_stepped_at(s, dim),
        time_num: num,
        time_den: den,
    }
}

/// The walk after taking the crossing of `dim` at time `num / den`: that
/// axis's pending crossing moves one voxel width on, the position steps,
/// and the elapsed time becomes the crossing's.
pub open spec fn spec_advance(s: RayTraveler, dim: Dim3, num: i64, den: i64) -> RayTraveler {
    let t = s.axis(dim)->Some_0;
    let t2 = Some(AxisTraveler { num: (t.num + SCALE) as i64, den: t.den, dir: t.dir });
    let at2 = spec_stepped_at(s, dim);
    match dim {
        Dim3::X => RayTraveler { x_axis: t2, time_num: num, time_den: den, at: at2, ..s },
        Dim3::Y => RayTraveler { y_axis: t2, time_num: num, time_den: den, at: at2, ..s },
        Dim3::Z => RayTraveler { z_axis: t2, time_num: num, time_den: den, at: at2, ..s },
    }
}

/// What one call of `next` does, as a value: the earliest pending crossing
/// is taken if it lies within the limit, and nothing happens otherwise.
/// This makes the whole walk a mathematical function of its start.
pub open spec fn spec_next(s: RayTraveler) -> Option<(Step, RayTraveler)> {
    match spec_select(s) {
        None => None,
        Some((dim, num, den)) => if num * SCALE <= s.limit * den {
            Some((spec_step_of(s, dim, num, den), spec_advance(s, dim, num, den)))
        } else {
            None
        },
    }
}

/// The chosen crossing is a real axis's pending one.
pub proof fn lemma_spec_select_sound(s: RayTraveler)
    ensures
        match spec_select(s) {
            None => s.x_axis is None && s.y_axis is None && s.z_axis is None,
            Some((dim, num, den)) => s.axis(dim) matches Some(t) && t.num == num && t.den == den,
        },
{
}

impl RayTraveler {
    pub open spec fn axis(self, dim: Dim3) -> Option<AxisTraveler> {
        match dim {
            Dim3::X => self.x_axis,
            Dim3::Y => self.y_axis,
            Dim3::Z => self.z_axis,
        }
    }

    pub open spec fn wf(self) -> bool {
        &&& fix3_in_range(self.origin, FIX_MAX as int)
        &&& fix3_in_range(self.ray, FIX_MAX as int)
        &&& 0 <= self.limit <= FIX_MAX
        &&& axis_ok(self.x_axis, self.origin.x, self.ray.x, self.at.x, self.limit as int)
        &&& axis_ok(self.y_axis, self.origin.y, self.ray.y, self.at.y, self.limit as int)
        &&& axis_ok(self.z_axis, self.origin.z, self.ray.z, self.at.z, self.limit as int)
        &&& self.time_den > 0
        &&& self.time_den <= FIX_MAX
        &&& 0 <= self.time_num
        &&& self.time_num * SCALE <= self.limit * self.time_den + SCALE * SCALE
        &&& (forall|d2: Dim3|
            match #[trigger] self.axis(d2) {
                Some(t) => self.time_num * t.den <= t.num * self.time_den,
                None => true,
            })
    }

    /// How many crossings remain within the limit, over all axes.
    pub open spec fn remaining(self) -> nat {
        axis_remaining(self.x_axis, self.limit as int) + axis_remaining(
            self.y_axis,
            self.limit as int,
        ) + axis_remaining(self.z_axis, self.limit as int)
    }

    /// A step along `dim` out of state `s`: the crossed axis has a nonzero
    /// direction component, the step is one voxel along it, the crossing
    /// time is the axis's pending rational, it lies within the limit, at or
    /// after the previous crossing, and no other axis's pending crossing is
    /// earlier.
    pub open spec fn step_on_axis(self, step: Step, dim: Dim3) -> bool {
        let d = self.ray.sel(dim);
        let sign = if d > 0 {
            1int
        } else {
            -1int
        };
        &&& d != 0
        &&& step.dir == axis_unit(dim, sign)
        &&& step.from == self.at
        &&& step.to.sel(dim) == self.at.sel(dim) + sign
        &&& (forall|d2: Dim3| d2 != dim ==> step.to.sel(d2) == self.at.sel(d2))
        &&& step.time_den == iabs(d as int)
        &&& step.time_num == axis_pending(self.origin.sel(dim), d, self.at.sel(dim))
        &&& (d > 0 ==> self.origin.sel(dim) + step.time_num == SCALE * step.to.sel(dim))
        &&& (d < 0 ==> self.origin.sel(dim) - step.time_num == SCALE * (step.to.sel(dim) + 1))
        &&& step.time_num * SCALE <= self.limit * step.time_den
        &&& step.time_num * self.time_den >= self.time_num * step.time_den
        &&& (forall|d2: Dim3|
            match #[trigger] self.axis(d2) {
                Some(t) => step.time_num * t.den <= t.num * step.time_den,
                None => true,
            })
    }

    /// Start a walk at `origin` along `ray`, up to parametric time
    /// `limit / SCALE` (so for a unit-length `ray`, `limit` is the travel
    /// distance in fixed-point units).
    pub fn new(origin: Fix3, ray: Fix3, limit: i64) -> (t: RayTraveler)
        requires
            fix3_in_range(origin, FIX_MAX as int),
            fix3_in_range(ray, FIX_MAX as int),
            0 <= limit <= FIX_MAX,
        ensures
            t.wf(),
            t.origin == origin,
            t.ray == ray,
            t.limit == limit,
            t.at.x == origin.x as int / SCALE as int,
            t.at.y == origin.y as int / SCALE as int,
            t.at.z == origin.z as int / SCALE as int,
            t.time_num == 0,
            t.time_den == 1,
            t == spec_new(origin, ray, limit),
    {
        let ax = floor_div(origin.x, SCALE);
        let bx = floor_rem(origin.x, SCALE);
        let ay = floor_div(origin.y, SCALE);
        let by = floor_rem(origin.y, SCALE);
        let az = floor_div(origin.z, SCALE);
        let bz = floor_rem(origin.z, SCALE);
        proof {
            vstd::arithmetic::div_mod::lemma_fundamental_div_mod(origin.x as int, SCALE as int);
            vstd::arithmetic::div_mod::lemma_fundamental_div_mod(origin.y as int, SCALE as int);
            vstd::arithmetic::div_mod::lemma_fundamental_div_mod(origin.z as int, SCALE as int);
        }
        let x_axis = make_axis(origin.x, ray.x, ax, bx);
        let y_axis = make_axis(origin.y, ray.y, ay, by);
        let z_axis = make_axis(origin.z, ray.z, az, bz);
        RayTraveler {
            x_axis,
            y_axis,
            z_axis,
            time_num: 0,
            time_den: 1,
            limit,
            origin,
            ray,
            at: IVec3 { x: ax, y: ay, z: az },
        }
    }

    /// The next boundary crossing, or `None` exactly when every pending
    /// crossing would exceed the limit (in particular, at once for a zero
    /// ray).  The outcome is a function of the state — `spec_next` — and
    /// `None` leaves the traveler unchanged, so the walk stays exhausted.
    #[verifier::rlimit(100)]
    pub fn next(&mut self) -> (r: Option<Step>)
        requires
            old(self).wf(),
        ensures
            final(self).wf(),
            final(self).origin == old(self).origin,
            final(self).ray == old(self).ray,
            final(self).limit == old(self).limit,
            r is None ==> *final(self) == *old(self),
            r is None ==> spec_next(*old(self)) is None,
            r is None ==> (forall|dim: Dim3|
                match #[trigger] old(self).axis(dim) {
                    Some(t) => t.num * SCALE > old(self).limit * t.den,
                    None => true,
                }),
            r is Some ==> spec_next(*old(self)) == Some((r->Some_0, *final(self))),
            r is Some ==> old(self).step_on_axis(r->Some_0, r->Some_0.axis),
            r is Some ==> final(self).at == r->Some_0.to,
            r is Some ==> final(self).time_num == r->Some_0.time_num && final(self).time_den == r
                ->Some_0.time_den,
            r is Some ==> final(self).remaining() < old(self).remaining(),
    {
        let ghost s0 = *self;
        let (dim, num, den) = match select_axis(self) {
            None => {
                return None;
            },
            Some(c) => c,
        };
        if !le_scaled(num, den, self.limit) {
            proof {
                assert(den > 0) by {
                    match dim {
                        Dim3::X => assert(s0.x_axis->Some_0.den > 0),
                        Dim3::Y => assert(s0.y_axis->Some_0.den > 0),
                        Dim3::Z => assert(s0.z_axis->Some_0.den > 0),
                    }
                };
                assert forall|dim2: Dim3|
                    match #[trigger] s0.axis(dim2) {
                        Some(t) => t.num * SCALE > s0.limit * t.den,
                        None => true,
                    } by {
                    if s0.axis(dim2) is Some {
                        let t = s0.axis(dim2)->Some_0;
                        match dim2 {
                            Dim3::X => assert(t.den > 0),
                            Dim3::Y => assert(t.den > 0),
                            Dim3::Z => assert(t.den > 0),
                        }
                        lemma_min_exceeds(
                            num as int,
                            den as int,
                            t.num as int,
                            t.den as int,
                            s0.limit as int,
                        );
                    }
                }
            }
            return None;
        }
        proof {
            // the chosen numerator leaves room for one more voxel width
            assert(s0.limit * den <= FIX_MAX * FIX_MAX) by (nonlinear_arith)
                requires
                    0 <= s0.limit <= FIX_MAX,
                    0 < den <= FIX_MAX,
            ;
        }
        // commit the crossing
        self.time_num = num;
        self.time_den = den;
        let sign: i64 = match dim {
            Dim3::X => advance_axis(&mut self.x_axis),
            Dim3::Y => advance_axis(&mut self.y_axis),
            Dim3::Z => advance_axis(&mut self.z_axis),
        };
        let from = self.at;
        let step_dir = match dim {
            Dim3::X => IVec3 { x: sign, y: 0, z: 0 },
            Dim3::Y => IVec3 { x: 0, y: sign, z: 0 },
            Dim3::Z => IVec3 { x: 0, y: 0, z: sign },
        };
        proof {
            let t = s0.axis(dim)->Some_0;
            lemma_axis_remaining_steps(
                t,
                AxisTraveler { num: (t.num + SCALE) as i64, den: t.den, dir: t.dir },
                s0.limit as int,
            );
            assert((num + SCALE) * den == num * den + SCALE * den) by (nonlinear_arith);
            assert(SCALE * den > 0) by (nonlinear_arith)
                requires
                    den > 0,
            ;
            assert(step_dir == axis_unit(
                dim,
                if s0.ray.sel(dim) > 0 {
                    1int
                } else {
                    -1int
                },
            ));
        }
        let to = from.add(step_dir);
        self.at = to;
        let step = Step { axis: dim, dir: step_dir, from, to, time_num: num, time_den: den };
        proof {
            assert(step.to.sel(dim) == step.from.sel(dim) + sign);
            assert(forall|d2: Dim3| d2 != dim ==> step.to.sel(d2) == step.from.sel(d2));
            assert(s0.step_on_axis(step, dim));
            assert forall|d2: Dim3|
                match #[trigger] self.axis(d2) {
                    Some(t) => self.time_num * t.den <= t.num * self.time_den,
                    None => true,
                } by {
                if d2 != dim {
                    assert(self.axis(d2) == s0.axis(d2));
                } else {
                    assert(s0.axis(d2) is Some);
                    assert(self.axis(d2)->Some_0.num == s0.axis(d2)->Some_0.num + SCALE);
                }
            }
        }
        Some(step)
    }
}

/// Transitivity of the order on positive-denominator rationals.
proof fn lemma_ratio_le_trans(an: int, ad: int, bn: int, bd: int, cn: int, cd: int)
    requires
        ad > 0,
        bd > 0,
        cd > 0,
        an * bd <= bn * ad,
        bn * cd <= cn * bd,
    ensures
        an * cd <= cn * ad,
{
    assert(an * cd <= cn * ad) by (nonlinear_arith)
        requires
            ad > 0,
            bd > 0,
            cd > 0,
            an * bd <= bn * ad,
            bn * cd <= cn * bd,
    ;
}

/// The first axis whose pending crossing is minimal, with that crossing's
/// rational, or `None` when no axis is active.
fn select_axis(s: &RayTraveler) -> (r: Option<(Dim3, i64, i64)>)
    requires
        s.wf(),
    ensures
        r == spec_select(*s),
        match r {
            None => s.x_axis is None && s.y_axis is None && s.z_axis is None,
            Some((dim, num, den)) => {
                &&& s.axis(dim) matches Some(t) && t.num == num && t.den == den
                &&& (forall|d2: Dim3|
                    match #[trigger] s.axis(d2) {
                        Some(t) => num * t.den <= t.num * den,
                        None => true,
                    })
            },
        },
{
    // pick the first axis with the minimal pending crossing
    let mut choice: Option<(Dim3, i64, i64)> = None;
    if let Some(a) = &s.x_axis {
        choice = Some((Dim3::X, a.num, a.den));
    }
    let ghost c1 = choice;
    if let Some(a) = &s.y_axis {
        let take = match &choice {
            Some((_, n, d)) => !le_ratio(*n, *d, a.num, a.den),
            None => true,
        };
        if take {
            choice = Some((Dim3::Y, a.num, a.den));
        }
    }
    let ghost c2 = choice;
    if let Some(a) = &s.z_axis {
        let take = match &choice {
            Some((_, n, d)) => !le_ratio(*n, *d, a.num, a.den),
            None => true,
        };
        if take {
            choice = Some((Dim3::Z, a.num, a.den));
        }
    }
    proof {
        if choice is Some {
            let (dim, num, den) = choice->Some_0;
            // the chosen candidate is a real axis's pending crossing ...
            assert(s.axis(dim) matches Some(t) && t.num == num && t.den == den);
            // ... and no axis has an earlier one: on each path at most one
            // comparison is indirect and follows by transitivity
            if s.x_axis is Some {
                let tx = s.x_axis->Some_0;
                if choice != c2 && c2 != c1 {
                    let ty = s.y_axis->Some_0;
                    lemma_ratio_le_trans(
                        num as int,
                        den as int,
                        ty.num as int,
                        ty.den as int,
                        tx.num as int,
                        tx.den as int,
                    );
                }
                assert(num * tx.den <= tx.num * den);
            }
            if s.y_axis is Some {
                let ty = s.y_axis->Some_0;
                if choice != c2 && c2 == c1 {
                    let tx = s.x_axis->Some_0;
                    lemma_ratio_le_trans(
                        num as int,
                        den as int,
                        tx.num as int,
                        tx.den as int,
                        ty.num as int,
                        ty.den as int,
                    );
                }
                assert(num * ty.den <= ty.num * den);
            }
            if s.z_axis is Some {
                let tz = s.z_axis->Some_0;
                assert(num * tz.den <= tz.num * den);
            }
        }
    }
    choice
}

/// Initial per-axis state: distance up to the boundary above for a positive
/// direction, down to the boundary below for a negative one, none for zero.
fn make_axis(o: i64, d: i64, a: i64, b: i64) -> (t: Option<AxisTraveler>)
    requires
        -FIX_MAX <= o <= FIX_MAX,
        -FIX_MAX <= d <= FIX_MAX,
        o == SCALE * a + b,
        0 <= b < SCALE,
    ensures
        axis_ok(t, o, d, a, 0),
{
    if d > 0 {
        Some(AxisTraveler { num: SCALE - b, den: d, dir: 1 })
    } else if d < 0 {
        Some(AxisTraveler { num: b, den: -d, dir: -1 })
    } else {
        None
    }
}

/// Advance an axis past the crossing just taken: one voxel width further.
/// Returns the axis's voxel step direction.
fn advance_axis(a: &mut Option<AxisTraveler>) -> (sign: i64)
    requires
        (*old(a)) is Some,
        (*old(a))->Some_0.num + SCALE <= i64::MAX,
    ensures
        (*final(a)) is Some,
        (*final(a))->Some_0.num == (*old(a))->Some_0.num + SCALE,
        (*final(a))->Some_0.den == (*old(a))->Some_0.den,
        (*final(a))->Some_0.dir == (*old(a))->Some_0.dir,
        sign == (*old(a))->Some_0.dir,
{
    match a {
        Some(t) => {
            t.num = t.num + SCALE;
            t.dir
        },
        None => {
            proof {
                assert(false);
            }
            1
        },
    }
}

/// Whether `an / ad <= bn / bd` for positive denominators, decided exactly.
fn le_ratio(an: i64, ad: i64, bn: i64, bd: i64) -> (r: bool)
    requires
        ad > 0,
        bd > 0,
    ensures
        r <==> an * bd <= bn * ad,
{
    proof {
        lemma_i64_mul_fits_i128(an as int, bd as int);
        lemma_i64_mul_fits_i128(bn as int, ad as int);
    }
    (an as i128) * (bd as i128) <= (bn as i128) * (ad as i128)
}

/// Whether the crossing `num / den` lies within the limit, that is
/// `num / den <= limit / SCALE`, decided exactly.
fn le_scaled(num: i64, den: i64, limit: i64) -> (r: bool)
    requires
        den > 0,
    ensures
        r <==> num * SCALE <= limit * den,
{
    proof {
        lemma_i64_mul_fits_i128(num as int, SCALE as int);
        lemma_i64_mul_fits_i128(limit as int, den as int);
    }
    (num as i128) * (SCALE as i128) <= (limit as i128) * (den as i128)
}

/// The product of two `i64` values fits an `i128`.
proof fn lemma_i64_mul_fits_i128(a: int, b: int)
    requires
        -0x8000_0000_0000_0000 <= a <= 0x7fff_ffff_ffff_ffff,
        -0x8000_0000_0000_0000 <= b <= 0x7fff_ffff_ffff_ffff,
    ensures
        -0x8000_0000_0000_0000_0000_0000_0000_0000 <= a * b
            <= 0x7fff_ffff_ffff_ffff_ffff_ffff_ffff_ffff,
{
    assert(-0x8000_0000_0000_0000_0000_0000_0000_0000 <= a * b
        <= 0x7fff_ffff_ffff_ffff_ffff_ffff_ffff_ffff) by (nonlinear_arith)
        requires
            -0x8000_0000_0000_0000 <= a <= 0x7fff_ffff_ffff_ffff,
            -0x8000_0000_0000_0000 <= b <= 0x7fff_ffff_ffff_ffff,
    ;
}

/// A crossing no earlier than one that already exceeds the limit exceeds
/// the limit too.
proof fn lemma_min_exceeds(num: int, den: int, n2: int, d2: int, limit: int)
    requires
        den > 0,
        d2 > 0,
        num * SCALE > limit * den,
        num * d2 <= n2 * den,
    ensures
        n2 * SCALE > limit * d2,
{
    assert(n2 * SCALE > limit * d2) by (nonlinear_arith)
        requires
            den > 0,
            d2 > 0,
            num * SCALE > limit * den,
            num * d2 <= n2 * den,
    ;
}

/// Taking the pending crossing `num / den` within the limit and advancing by
/// one voxel width drops the axis's remaining count by at least one.
proof fn lemma_axis_remaining_steps(t: AxisTraveler, t2: AxisTraveler, limit: int)
    requires
        t.den > 0,
        t.num >= 0,
        t.num * SCALE <= limit * t.den,
        t2.den == t.den,
        t2.num == t.num + SCALE,
    ensures
        axis_remaining(Some(t2), limit) < axis_remaining(Some(t), limit),
{
    let num = t.num as int;
    let den = t.den as int;
    let a = limit * den - num * SCALE;
    let d = SCALE * SCALE;
    assert(a >= 0);
    assert((num + SCALE) * SCALE == num * SCALE + SCALE * SCALE) by (nonlinear_arith);
    vstd::arithmetic::div_mod::lemma_div_pos_is_pos(a, d);
    if a >= d {
        vstd::arithmetic::div_mod::lemma_div_minus_one(a, d);
        assert((a - d) / d == a / d - 1);
        vstd::arithmetic::div_mod::lemma_div_pos_is_pos(a - d, d);
    } else {
        vstd::arithmetic::div_mod::lemma_basic_div(a, d);
        assert(a / d == 0);
    }
}

/// Zero-direction axis exclusion: every crossing a traveler reports is
/// along an axis whose direction component is nonzero, and its step vector
/// moves only on that axis, in the direction's sign.  An axis the ray does
/// not move along never produces a crossing, whatever the limit.
pub proof fn lemma_zero_direction_axis_excluded(s: RayTraveler, step: Step, dim: Dim3)
    requires
        s.step_on_axis(step, dim),
    ensures
        s.ray.sel(dim) != 0,
        step.dir == axis_unit(
            dim,
            if s.ray.sel(dim) > 0 {
                1int
            } else {
                -1int
            },
        ),
        forall|d2: Dim3| d2 != dim ==> s.ray.sel(d2) == 0 ==> step.to.sel(d2) == step.from.sel(d2),
{
}

/// `trace` is the exact sequence of crossings that takes the walk from
/// state `s` to state `s2`.  Since `spec_next` is a function of the state,
/// the trace out of a given state is unique.
pub open spec fn spec_walk(s: RayTraveler, trace: Seq<Step>, s2: RayTraveler) -> bool
    decreases trace.len(),
{
    if trace.len() == 0 {
        s2 == s
    } else {
        match spec_next(s) {
            None => false,
            Some((st, mid)) => st == trace[0] && spec_walk(mid, trace.drop_first(), s2),
        }
    }
}

/// A walk extends by one crossing at its end.
pub proof fn lemma_spec_walk_push(s: RayTraveler, trace: Seq<Step>, s2: RayTraveler, st: Step, s3: RayTraveler)
    requires
        spec_walk(s, trace, s2),
        spec_next(s2) == Some((st, s3)),
    ensures
        spec_walk(s, trace.push(st), s3),
    decreases trace.len(),
{
    if trace.len() == 0 {
        assert(trace.push(st).drop_first() =~= Seq::<Step>::empty());
        assert(spec_walk(s3, trace.push(st).drop_first(), s3));
    } else {
        let (st0, mid) = spec_next(s)->Some_0;
        lemma_spec_walk_push(mid, trace.drop_first(), s2, st, s3);
        assert(trace.push(st).drop_first() =~= trace.drop_first().push(st));
        assert(trace.push(st)[0] == trace[0]);
    }
}

} // verus!
