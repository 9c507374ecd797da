//! Dimension selection and permutation for 3-vectors.
//!
//! Collision resolution reuses one routine across the X/Y/Z axes by splitting
//! a vector into the component along an axis and the two components on the
//! perpendicular plane, then composing a vector back from such parts.

use vstd::prelude::*;
use crate::fixed::{Fix3, IVec3};

verus! {

/// One of the three coordinate axes.
#[derive(Clone, Copy, PartialEq, Eq, Structural, Debug)]
pub enum Dim3 {
    X,
    Y,
    Z,
}

/// A permutation of the three coordinate axes, named by where X, Y and Z are
/// read from.
#[derive(Clone, Copy, PartialEq, Eq, Structural, Debug)]
pub enum Swizzle3 {
    XYZ,
    XZY,
    YXZ,
    YZX,
    ZXY,
    ZYX,
}

impl Dim3 {
    /// The other two axes, in the fixed order used by `split` and `compose`.
    pub open spec fn others(self) -> (Dim3, Dim3) {
        match self {
            Dim3::X => (Dim3::Y, Dim3::Z),
            Dim3::Y => (Dim3::X, Dim3::Z),
            Dim3::Z => (Dim3::X, Dim3::Y),
        }
    }
}

/// Splitting a 3-vector along an axis and composing one back.
pub trait Dim3Selector: Sized {
    type Scalar;

    /// The component of `self` along `dim`.
    spec fn sel(self, dim: Dim3) -> Self::Scalar;

    /// The component along `dim` and, in the order of `dim.others()`, the two
    /// components on the perpendicular plane.
    fn split(self, dim: Dim3) -> (r: (Self::Scalar, [Self::Scalar; 2]))
        ensures
            r.0 == self.sel(dim),
            r.1[0] == self.sel(dim.others().0),
            r.1[1] == self.sel(dim.others().1),
    ;

    /// The vector whose component along `dim` is `it` and whose components on
    /// the perpendicular plane are `others`, in the order of `dim.others()`.
    fn compose(dim: Dim3, it: Self::Scalar, others: [Self::Scalar; 2]) -> (r: Self)
        ensures
            r.sel(dim) == it,
            r.sel(dim.others().0) == others[0],
            r.sel(dim.others().1) == others[1],
    ;
}

impl Dim3Selector for IVec3 {
    type Scalar = i64;

    open spec fn sel(self, dim: Dim3) -> i64 {
        match dim {
            Dim3::X => self.x,
            Dim3::Y => self.y,
            Dim3::Z => self.z,
        }
    }

    fn split(self, dim: Dim3) -> (r: (i64, [i64; 2])) {
        match dim {
            Dim3::X => (self.x, [self.y, self.z]),
            Dim3::Y => (self.y, [self.x, self.z]),
            Dim3::Z => (self.z, [self.x, self.y]),
        }
    }

    fn compose(dim: Dim3, it: i64, others: [i64; 2]) -> (r: IVec3) {
        match dim {
            Dim3::X => IVec3 { x: it, y: others[0], z: others[1] },
            Dim3::Y => IVec3 { x: others[0], y: it, z: others[1] },
            Dim3::Z => IVec3 { x: others[0], y: others[1], z: it },
        }
    }
}

impl Dim3Selector for Fix3 {
    type Scalar = i64;

    open spec fn sel(self, dim: Dim3) -> i64 {
        match dim {
            Dim3::X => self.x,
            Dim3::Y => self.y,
            Dim3::Z => self.z,
        }
    }

    fn split(self, dim: Dim3) -> (r: (i64, [i64; 2])) {
        match dim {
            Dim3::X => (self.x, [self.y, self.z]),
            Dim3::Y => (self.y, [self.x, self.z]),
            Dim3::Z => (self.z, [self.x, self.y]),
        }
    }

    fn compose(dim: Dim3, it: i64, others: [i64; 2]) -> (r: Fix3) {
        match dim {
            Dim3::X => Fix3 { x: it, y: others[0], z: others[1] },
            Dim3::Y => Fix3 { x: others[0], y: it, z: others[1] },
            Dim3::Z => Fix3 { x: others[0], y: others[1], z: it },
        }
    }
}

impl IVec3 {
    /// The component of `self` along `dim`.
    pub fn axis(&self, dim: Dim3) -> (r: i64)
        ensures
            r == self.sel(dim),
    {
        match dim {
            Dim3::X => self.x,
            Dim3::Y => self.y,
            Dim3::Z => self.z,
        }
    }

    /// `self` with the component along `dim` replaced by `v`.
    pub fn with_axis(self, dim: Dim3, v: i64) -> (r: IVec3)
        ensures
            r.sel(dim) == v,
            forall|d: Dim3| d != dim ==> r.sel(d) == self.sel(d),
    {
        match dim {
            Dim3::X => IVec3 { x: v, ..self },
            Dim3::Y => IVec3 { y: v, ..self },
            Dim3::Z => IVec3 { z: v, ..self },
        }
    }
}

impl Fix3 {
    /// The component of `self` along `dim`.
    pub fn axis(&self, dim: Dim3) -> (r: i64)
        ensures
            r == self.sel(dim),
    {
        match dim {
            Dim3::X => self.x,
            Dim3::Y => self.y,
            Dim3::Z => self.z,
        }
    }

    /// `self` with the component along `dim` replaced by `v`.
    pub fn with_axis(self, dim: Dim3, v: i64) -> (r: Fix3)
        ensures
            r.sel(dim) == v,
            forall|d: Dim3| d != dim ==> r.sel(d) == self.sel(d),
    {
        match dim {
            Dim3::X => Fix3 { x: v, ..self },
            Dim3::Y => Fix3 { y: v, ..self },
            Dim3::Z => Fix3 { z: v, ..self },
        }
    }
}

impl Swizzle3 {
    /// Which axis of the source each destination axis reads from.
    pub open spec fn source(self, dim: Dim3) -> Dim3 {
        match self {
            Swizzle3::XYZ => dim,
            Swizzle3::XZY => match dim {
                Dim3::X => Dim3::X,
                Dim3::Y => Dim3::Z,
                Dim3::Z => Dim3::Y,
            },
            Swizzle3::YXZ => match dim {
                Dim3::X => Dim3::Y,
                Dim3::Y => Dim3::X,
                Dim3::Z => Dim3::Z,
            },
            Swizzle3::YZX => match dim {
                Dim3::X => Dim3::Y,
                Dim3::Y => Dim3::Z,
                Dim3::Z => Dim3::X,
            },
            Swizzle3::ZXY => match dim {
                Dim3::X => Dim3::Z,
                Dim3::Y => Dim3::X,
                Dim3::Z => Dim3::Y,
            },
            Swizzle3::ZYX => match dim {
                Dim3::X => Dim3::Z,
                Dim3::Y => Dim3::Y,
                Dim3::Z => Dim3::X,
            },
        }
    }

    /// Permute the components of an integer vector.
    pub fn apply_ivec(self, v: IVec3) -> (r: IVec3)
        ensures
            forall|d: Dim3| r.sel(d) == v.sel(#[trigger] self.source(d)),
    {
        match self {
            Swizzle3::XYZ => IVec3 { x: v.x, y: v.y, z: v.z },
            Swizzle3::XZY => IVec3 { x: v.x, y: v.z, z: v.y },
            Swizzle3::YXZ => IVec3 { x: v.y, y: v.x, z: v.z },
            Swizzle3::YZX => IVec3 { x: v.y, y: v.z, z: v.x },
            Swizzle3::ZXY => IVec3 { x: v.z, y: v.x, z: v.y },
            Swizzle3::ZYX => IVec3 { x: v.z, y: v.y, z: v.x },
        }
    }

    /// Permute the components of a fixed-point vector.
    pub fn apply_fix(self, v: Fix3) -> (r: Fix3)
        ensures
            forall|d: Dim3| r.sel(d) == v.sel(#[trigger] self.source(d)),
    {
        match self {
            Swizzle3::XYZ => Fix3 { x: v.x, y: v.y, z: v.z },
            Swizzle3::XZY => Fix3 { x: v.x, y: v.z, z: v.y },
            Swizzle3::YXZ => Fix3 { x: v.y, y: v.x, z: v.z },
            Swizzle3::YZX => Fix3 { x: v.y, y: v.z, z: v.x },
            Swizzle3::ZXY => Fix3 { x: v.z, y: v.x, z: v.y },
            Swizzle3::ZYX => Fix3 { x: v.z, y: v.y, z: v.x },
        }
    }
}

} // verus!
