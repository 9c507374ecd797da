//! Sides of a cube and the face-adjacent neighborhood of a cell.

use vstd::prelude::*;
use crate::fixed::IVec3;

verus! {

/// One of the six faces of an axis-aligned cube.
#[derive(Clone, Copy, PartialEq, Eq, Structural, Debug)]
pub enum Side {
    XPos,
    XNeg,
    YPos,
    YNeg,
    ZPos,
    ZNeg,
}

impl Side {
    /// All six sides, in the fixed order used throughout the crate.
    pub fn all() -> (r: [Side; 6])
        ensures
            r[0] == Side::XPos,
            r[1] == Side::XNeg,
            r[2] == Side::YPos,
            r[3] == Side::YNeg,
            r[4] == Side::ZPos,
            r[5] == Side::ZNeg,
    {
        [Side::XPos, Side::XNeg, Side::YPos, Side::YNeg, Side::ZPos, Side::ZNeg]
    }

    /// The outward unit vector of this side.
    pub open spec fn spec_unit(self) -> IVec3 {
        match self {
            Side::XPos => IVec3 { x: 1, y: 0, z: 0 },
            Side::XNeg => IVec3 { x: -1i64, y: 0, z: 0 },
            Side::YPos => IVec3 { x: 0, y: 1, z: 0 },
            Side::YNeg => IVec3 { x: 0, y: -1i64, z: 0 },
            Side::ZPos => IVec3 { x: 0, y: 0, z: 1 },
            Side::ZNeg => IVec3 { x: 0, y: 0, z: -1i64 },
        }
    }

    /// The outward unit vector of this side.
    pub fn unit(self) -> (r: IVec3)
        ensures
            r == self.spec_unit(),
    {
        match self {
            Side::XPos => IVec3 { x: 1, y: 0, z: 0 },
            Side::XNeg => IVec3 { x: -1, y: 0, z: 0 },
            Side::YPos => IVec3 { x: 0, y: 1, z: 0 },
            Side::YNeg => IVec3 { x: 0, y: -1, z: 0 },
            Side::ZPos => IVec3 { x: 0, y: 0, z: 1 },
            Side::ZNeg => IVec3 { x: 0, y: 0, z: -1 },
        }
    }
}

/// One value per side of a cube.
pub struct Sides<T> {
    pub x_pos: T,
    pub x_neg: T,
    pub y_pos: T,
    pub y_neg: T,
    pub z_pos: T,
    pub z_neg: T,
}

impl Sides<IVec3> {
    /// The six outward axis unit vectors.
    pub fn axis() -> (r: Sides<IVec3>)
        ensures
            r.x_pos == Side::XPos.spec_unit(),
            r.x_neg == Side::XNeg.spec_unit(),
            r.y_pos == Side::YPos.spec_unit(),
            r.y_neg == Side::YNeg.spec_unit(),
            r.z_pos == Side::ZPos.spec_unit(),
            r.z_neg == Side::ZNeg.spec_unit(),
    {
        Sides {
            x_pos: IVec3 { x: 1, y: 0, z: 0 },
            x_neg: IVec3 { x: -1, y: 0, z: 0 },
            y_pos: IVec3 { x: 0, y: 1, z: 0 },
            y_neg: IVec3 { x: 0, y: -1, z: 0 },
            z_pos: IVec3 { x: 0, y: 0, z: 1 },
            z_neg: IVec3 { x: 0, y: 0, z: -1 },
        }
    }
}

impl<T> Sides<T> {
    /// Apply `f` to the value of each side.
    pub fn map<U, F: Fn(T) -> U>(self, f: F) -> (r: Sides<U>)
        requires
            call_requires(f, (self.x_pos,)),
            call_requires(f, (self.x_neg,)),
            call_requires(f, (self.y_pos,)),
            call_requires(f, (self.y_neg,)),
            call_requires(f, (self.z_pos,)),
            call_requires(f, (self.z_neg,)),
        ensures
            call_ensures(f, (self.x_pos,), r.x_pos),
            call_ensures(f, (self.x_neg,), r.x_neg),
            call_ensures(f, (self.y_pos,), r.y_pos),
            call_ensures(f, (self.y_neg,), r.y_neg),
            call_ensures(f, (self.z_pos,), r.z_pos),
            call_ensures(f, (self.z_neg,), r.z_neg),
    {
        let Sides { x_pos, x_neg, y_pos, y_neg, z_pos, z_neg } = self;
        Sides {
            x_pos: f(x_pos),
            x_neg: f(x_neg),
            y_pos: f(y_pos),
            y_neg: f(y_neg),
            z_pos: f(z_pos),
            z_neg: f(z_neg),
        }
    }

    /// The value of one side.
    pub fn side(&self, side: Side) -> (r: &T)
        ensures
            side == Side::XPos ==> r == &self.x_pos,
            side == Side::XNeg ==> r == &self.x_neg,
            side == Side::YPos ==> r == &self.y_pos,
            side == Side::YNeg ==> r == &self.y_neg,
            side == Side::ZPos ==> r == &self.z_pos,
            side == Side::ZNeg ==> r == &self.z_neg,
    {
        match side {
            Side::XPos => &self.x_pos,
            Side::XNeg => &self.x_neg,
            Side::YPos => &self.y_pos,
            Side::YNeg => &self.y_neg,
            Side::ZPos => &self.z_pos,
            Side::ZNeg => &self.z_neg,
        }
    }
}

/// A cell together with its six face-adjacent neighbors.
pub struct Neighborhood<T> {
    pub zero: T,
    pub x_pos: T,
    pub x_neg: T,
    pub y_pos: T,
    pub y_neg: T,
    pub z_pos: T,
    pub z_neg: T,
}

impl Neighborhood<IVec3> {
    /// The coordinate `value` together with its six face-adjacent coordinates.
    pub fn from(value: IVec3) -> (r: Neighborhood<IVec3>)
        requires
            i64::MIN < value.x < i64::MAX,
            i64::MIN < value.y < i64::MAX,
            i64::MIN < value.z < i64::MAX,
        ensures
            r.zero == value,
            r.x_pos == (IVec3 { x: (value.x + 1) as i64, ..value }),
            r.x_neg == (IVec3 { x: (value.x - 1) as i64, ..value }),
            r.y_pos == (IVec3 { y: (value.y + 1) as i64, ..value }),
            r.y_neg == (IVec3 { y: (value.y - 1) as i64, ..value }),
            r.z_pos == (IVec3 { z: (value.z + 1) as i64, ..value }),
            r.z_neg == (IVec3 { z: (value.z - 1) as i64, ..value }),
    {
        Neighborhood {
            zero: value,
            x_pos: IVec3 { x: value.x + 1, ..value },
            x_neg: IVec3 { x: value.x - 1, ..value },
            y_pos: IVec3 { y: value.y + 1, ..value },
            y_neg: IVec3 { y: value.y - 1, ..value },
            z_pos: IVec3 { z: value.z + 1, ..value },
            z_neg: IVec3 { z: value.z - 1, ..value },
        }
    }
}

impl<T> Neighborhood<T> {
    /// The seven values, the cell's own first.
    pub fn as_array(&self) -> (r: [&T; 7])
        ensures
            r[0] == &self.zero,
            r[1] == &self.x_pos,
            r[2] == &self.x_neg,
            r[3] == &self.y_pos,
            r[4] == &self.y_neg,
            r[5] == &self.z_pos,
            r[6] == &self.z_neg,
    {
        [&self.zero, &self.x_pos, &self.x_neg, &self.y_pos, &self.y_neg, &self.z_pos, &self.z_neg]
    }

    /// Whether `f` holds of all seven values.
    pub fn all<F: Fn(&T) -> bool>(&self, f: F) -> (r: bool)
        requires
            call_requires(f, (&self.zero,)),
            call_requires(f, (&self.x_pos,)),
            call_requires(f, (&self.x_neg,)),
            call_requires(f, (&self.y_pos,)),
            call_requires(f, (&self.y_neg,)),
            call_requires(f, (&self.z_pos,)),
            call_requires(f, (&self.z_neg,)),
        ensures
            r ==> call_ensures(f, (&self.zero,), true) && call_ensures(f, (&self.x_pos,), true)
                && call_ensures(f, (&self.x_neg,), true) && call_ensures(f, (&self.y_pos,), true)
                && call_ensures(f, (&self.y_neg,), true) && call_ensures(f, (&self.z_pos,), true)
                && call_ensures(f, (&self.z_neg,), true),
            !r ==> call_ensures(f, (&self.zero,), false) || call_ensures(f, (&self.x_pos,), false)
                || call_ensures(f, (&self.x_neg,), false) || call_ensures(
                f,
                (&self.y_pos,),
                false,
            ) || call_ensures(f, (&self.y_neg,), false) || call_ensures(f, (&self.z_pos,), false)
                || call_ensures(f, (&self.z_neg,), false),
    {
        f(&self.zero) && f(&self.x_pos) && f(&self.x_neg) && f(&self.y_pos) && f(&self.y_neg) && f(
            &self.z_pos,
        ) && f(&self.z_neg)
    }

    /// Apply `f` to the seven values; `None` as soon as `f` gives `None`.
    pub fn try_map<U, F: Fn(T) -> Option<U>>(self, f: F) -> (r: Option<Neighborhood<U>>)
        requires
            call_requires(f, (self.zero,)),
            call_requires(f, (self.x_pos,)),
            call_requires(f, (self.x_neg,)),
            call_requires(f, (self.y_pos,)),
            call_requires(f, (self.y_neg,)),
            call_requires(f, (self.z_pos,)),
            call_requires(f, (self.z_neg,)),
        ensures
            match r {
                Some(n) => call_ensures(f, (self.zero,), Some(n.zero)) && call_ensures(
                    f,
                    (self.x_pos,),
                    Some(n.x_pos),
                ) && call_ensures(f, (self.x_neg,), Some(n.x_neg)) && call_ensures(
                    f,
                    (self.y_pos,),
                    Some(n.y_pos),
                ) && call_ensures(f, (self.y_neg,), Some(n.y_neg)) && call_ensures(
                    f,
                    (self.z_pos,),
                    Some(n.z_pos),
                ) && call_ensures(f, (self.z_neg,), Some(n.z_neg)),
                None => call_ensures(f, (self.zero,), None::<U>) || call_ensures(
                    f,
                    (self.x_pos,),
                    None::<U>,
                ) || call_ensures(f, (self.x_neg,), None::<U>) || call_ensures(
                    f,
                    (self.y_pos,),
                    None::<U>,
                ) || call_ensures(f, (self.y_neg,), None::<U>) || call_ensures(
                    f,
                    (self.z_pos,),
                    None::<U>,
                ) || call_ensures(f, (self.z_neg,), None::<U>),
            },
    {
        let Neighborhood { zero, x_pos, x_neg, y_pos, y_neg, z_pos, z_neg } = self;
        let zero = match f(zero) {
            Some(v) => v,
            None => {
                return None;
            },
        };
        let x_pos = match f(x_pos) {
            Some(v) => v,
            None => {
                return None;
            },
        };
        let x_neg = match f(x_neg) {
            Some(v) => v,
            None => {
                return None;
            },
        };
        let y_pos = match f(y_pos) {
            Some(v) => v,
            None => {
                return None;
            },
        };
        let y_neg = match f(y_neg) {
            Some(v) => v,
            None => {
                return None;
            },
        };
        let z_pos = match f(z_pos) {
            Some(v) => v,
            None => {
                return None;
            },
        };
        let z_neg = match f(z_neg) {
            Some(v) => v,
            None => {
                return None;
            },
        };
        Some(Neighborhood { zero, x_pos, x_neg, y_pos, y_neg, z_pos, z_neg })
    }
}

} // verus!
