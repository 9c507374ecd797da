//! Exact fixed-point scalars and 3-vectors.
//!
//! World-space positions, displacements and distances are held in `Fix3`,
//! whose components count `SCALE`-ths of a world unit, so that every
//! comparison and every linear combination is exact integer arithmetic.

use vstd::prelude::*;

verus! {

use vstd::arithmetic::div_mod::{
    lemma_fundamental_div_mod, lemma_div_pos_is_pos, lemma_remainder_upper,
    lemma_remainder_lower, lemma_fundamental_div_mod_converse_div,
    lemma_fundamental_div_mod_converse_mod, lemma_div_nonincreasing,
};

/// Number of fixed-point units in one world unit.
pub const SCALE: i64 = 10_000;

/// Bound on the magnitude of any world-space fixed-point component the
/// library accepts: one million world units, in `SCALE`-ths.
pub const FIX_MAX: i64 = 10_000_000_000;

/// Integer 3-vector: a voxel or chunk coordinate.
#[derive(Clone, Copy, PartialEq, Eq, Structural, Debug)]
pub struct IVec3 {
    pub x: i64,
    pub y: i64,
    pub z: i64,
}

/// Fixed-point 3-vector: a world-space point or displacement in `SCALE`-ths
/// of a world unit.
#[derive(Clone, Copy, PartialEq, Eq, Structural, Debug)]
pub struct Fix3 {
    pub x: i64,
    pub y: i64,
    pub z: i64,
}

pub open spec fn iabs(a: int) -> int {
    if a >= 0 {
        a
    } else {
        -a
    }
}

/// The L1 norm of a fixed-point vector.
pub open spec fn l1(v: Fix3) -> int {
    iabs(v.x as int) + iabs(v.y as int) + iabs(v.z as int)
}

pub open spec fn fix3_in_range(v: Fix3, bound: int) -> bool {
    iabs(v.x as int) <= bound && iabs(v.y as int) <= bound && iabs(v.z as int) <= bound
}

pub open spec fn ivec3_in_range(v: IVec3, bound: int) -> bool {
    iabs(v.x as int) <= bound && iabs(v.y as int) <= bound && iabs(v.z as int) <= bound
}

impl IVec3 {
    pub fn splat(a: i64) -> (r: IVec3)
        ensures
            r == (IVec3 { x: a, y: a, z: a }),
    {
        IVec3 { x: a, y: a, z: a }
    }

    pub fn add(self, o: IVec3) -> (r: IVec3)
        requires
            i64::MIN <= self.x + o.x <= i64::MAX,
            i64::MIN <= self.y + o.y <= i64::MAX,
            i64::MIN <= self.z + o.z <= i64::MAX,
        ensures
            r.x == self.x + o.x,
            r.y == self.y + o.y,
            r.z == self.z + o.z,
    {
        IVec3 { x: self.x + o.x, y: self.y + o.y, z: self.z + o.z }
    }
}

impl Fix3 {
    pub fn splat(a: i64) -> (r: Fix3)
        ensures
            r == (Fix3 { x: a, y: a, z: a }),
    {
        Fix3 { x: a, y: a, z: a }
    }

    pub fn add(self, o: Fix3) -> (r: Fix3)
        requires
            i64::MIN <= self.x + o.x <= i64::MAX,
            i64::MIN <= self.y + o.y <= i64::MAX,
            i64::MIN <= self.z + o.z <= i64::MAX,
        ensures
            r.x == self.x + o.x,
            r.y == self.y + o.y,
            r.z == self.z + o.z,
    {
        Fix3 { x: self.x + o.x, y: self.y + o.y, z: self.z + o.z }
    }

    pub fn sub(self, o: Fix3) -> (r: Fix3)
        requires
            i64::MIN <= self.x - o.x <= i64::MAX,
            i64::MIN <= self.y - o.y <= i64::MAX,
            i64::MIN <= self.z - o.z <= i64::MAX,
        ensures
            r.x == self.x - o.x,
            r.y == self.y - o.y,
            r.z == self.z - o.z,
    {
        Fix3 { x: self.x - o.x, y: self.y - o.y, z: self.z - o.z }
    }
}

/// The absolute value of a scalar.
pub fn abs64(a: i64) -> (r: i64)
    requires
        a != i64::MIN,
    ensures
        r == iabs(a as int),
{
    if a >= 0 {
        a
    } else {
        -a
    }
}

/// The voxel containing a world-space point.
pub open spec fn spec_voxel_of(p: Fix3) -> IVec3 {
    IVec3 {
        x: (p.x as int / SCALE as int) as i64,
        y: (p.y as int / SCALE as int) as i64,
        z: (p.z as int / SCALE as int) as i64,
    }
}

/// The voxel containing a world-space point.
pub fn voxel_of(p: Fix3) -> (v: IVec3)
    requires
        fix3_in_range(p, 0x4000_0000_0000_0000),
    ensures
        v == spec_voxel_of(p),
        ivec3_in_range(v, 0x4000_0000_0000_0000),
{
    let v = IVec3 {
        x: floor_div(p.x, SCALE),
        y: floor_div(p.y, SCALE),
        z: floor_div(p.z, SCALE),
    };
    proof {
        lemma_floor_small(p.x as int);
        lemma_floor_small(p.y as int);
        lemma_floor_small(p.z as int);
    }
    v
}

/// A floor quotient keeps well within the scalar range.
proof fn lemma_floor_small(a: int)
    requires
        -0x4000_0000_0000_0000 <= a <= 0x4000_0000_0000_0000,
    ensures
        -0x4000_0000_0000_0000 <= a / (SCALE as int) <= 0x4000_0000_0000_0000,
{
    vstd::arithmetic::div_mod::lemma_fundamental_div_mod(a, SCALE as int);
    vstd::arithmetic::div_mod::lemma_mod_bound(a, SCALE as int);
    let q = a / (SCALE as int);
    let r = a % (SCALE as int);
    assert(a == SCALE * q + r);
    if q > 0x4000_0000_0000_0000 || q < -0x4000_0000_0000_0000 {
        assert(SCALE * q > 0x4000_0000_0000_0000 || SCALE * q < -0x4100_0000_0000_0000)
            by (nonlinear_arith)
            requires
                q > 0x4000_0000_0000_0000 || q < -0x4000_0000_0000_0000,
        ;
        assert(false);
    }
}

/// Division truncated toward zero.
pub open spec fn tdiv(a: int, b: int) -> int {
    if a >= 0 {
        a / b
    } else {
        -((-a) / b)
    }
}

/// Division truncated toward zero: the quotient never grows past the
/// dividend in magnitude, and keeps its sign.
pub fn trunc_div(a: i64, b: i64) -> (q: i64)
    requires
        b > 0,
        -0x4000_0000_0000_0000 <= a <= 0x4000_0000_0000_0000,
    ensures
        q == tdiv(a as int, b as int),
        iabs(q as int) <= iabs(a as int),
        a >= 0 ==> q >= 0,
        a <= 0 ==> q <= 0,
{
    if a >= 0 {
        proof {
            lemma_div_nonincreasing(a as int, b as int);
            lemma_div_pos_is_pos(a as int, b as int);
        }
        a / b
    } else {
        let n: i64 = -a;
        proof {
            lemma_div_nonincreasing(n as int, b as int);
            lemma_div_pos_is_pos(n as int, b as int);
        }
        -(n / b)
    }
}

/// Floor division: the unique `q` with `q * b <= a < (q + 1) * b` for `b > 0`.
///
/// Agrees with the mathematical (Euclidean) quotient `a / b` of the
/// specification language.
pub fn floor_div(a: i64, b: i64) -> (q: i64)
    requires
        b > 0,
        -0x4000_0000_0000_0000 <= a <= 0x4000_0000_0000_0000,
    ensures
        q == a as int / b as int,
{
    if a >= 0 {
        let q: i64 = a / b;
        proof {
            lemma_fundamental_div_mod(a as int, b as int);
        }
        q
    } else {
        let n: i64 = -a;
        let q0: i64 = n / b;
        let r0: i64 = n % b;
        proof {
            lemma_fundamental_div_mod(n as int, b as int);
            lemma_div_pos_is_pos(n as int, b as int);
            lemma_remainder_upper(n as int, b as int);
            lemma_remainder_lower(n as int, b as int);
            if r0 == 0 {
                assert(a as int == (-(q0 as int)) * b + 0) by (nonlinear_arith)
                    requires
                        n as int == b as int * (q0 as int) + r0 as int,
                        a as int == -(n as int),
                        r0 == 0,
                ;
                lemma_fundamental_div_mod_converse_div(a as int, b as int, -(q0 as int), 0);
            } else {
                assert(a as int == (-(q0 as int) - 1) * b + (b as int - r0 as int))
                    by (nonlinear_arith)
                    requires
                        n as int == b as int * (q0 as int) + r0 as int,
                        a as int == -(n as int),
                ;
                lemma_fundamental_div_mod_converse_div(
                    a as int,
                    b as int,
                    -(q0 as int) - 1,
                    b as int - r0 as int,
                );
            }
        }
        if r0 == 0 {
            -q0
        } else {
            -q0 - 1
        }
    }
}

/// Floor remainder: the unique `r` in `[0, b)` with `a == floor_div(a, b) * b + r`.
pub fn floor_rem(a: i64, b: i64) -> (r: i64)
    requires
        b > 0,
        -0x4000_0000_0000_0000 <= a <= 0x4000_0000_0000_0000,
    ensures
        r == a as int % b as int,
        0 <= r < b,
{
    if a >= 0 {
        let r: i64 = a % b;
        proof {
            lemma_fundamental_div_mod(a as int, b as int);
            lemma_remainder_upper(a as int, b as int);
            lemma_remainder_lower(a as int, b as int);
        }
        r
    } else {
        let n: i64 = -a;
        let q0: i64 = n / b;
        let r0: i64 = n % b;
        proof {
            lemma_fundamental_div_mod(n as int, b as int);
            lemma_div_pos_is_pos(n as int, b as int);
            lemma_remainder_upper(n as int, b as int);
            lemma_remainder_lower(n as int, b as int);
            if r0 == 0 {
                assert(a as int == (-(q0 as int)) * b + 0) by (nonlinear_arith)
                    requires
                        n as int == b as int * (q0 as int) + r0 as int,
                        a as int == -(n as int),
                        r0 == 0,
                ;
                lemma_fundamental_div_mod_converse_mod(a as int, b as int, -(q0 as int), 0);
            } else {
                assert(a as int == (-(q0 as int) - 1) * b + (b as int - r0 as int))
                    by (nonlinear_arith)
                    requires
                        n as int == b as int * (q0 as int) + r0 as int,
                        a as int == -(n as int),
                ;
                lemma_fundamental_div_mod_converse_mod(
                    a as int,
                    b as int,
                    -(q0 as int) - 1,
                    b as int - r0 as int,
                );
            }
        }
        if r0 == 0 {
            0
        } else {
            b - r0
        }
    }
}

} // verus!
