use vstd::prelude::*;

verus! {

/// A vector or point in three dimensions.
#[derive(Clone, Copy, Debug, PartialEq, Eq)]
pub struct TVec3<T> {
    pub x: T,
    pub y: T,
    pub z: T,
}

impl<T: Copy> TVec3<T> {
    pub fn new(x: T, y: T, z: T) -> (r: Self)
        ensures
            r.x == x,
            r.y == y,
            r.z == z,
    {
        TVec3 { x, y, z }
    }

    /// All components set to `val`.
    pub fn broadcast(val: T) -> (r: Self)
        ensures
            r.x == val,
            r.y == val,
            r.z == val,
    {
        TVec3 { x: val, y: val, z: val }
    }
}

impl TVec3<i32> {
    /// `x` on the first axis, zero elsewhere.
    pub fn with_x(x: i32) -> (r: Self)
        ensures
            r == (TVec3 { x, y: 0i32, z: 0i32 }),
    {
        TVec3 { x, y: 0, z: 0 }
    }

    /// `y` on the second axis, zero elsewhere.
    pub fn with_y(y: i32) -> (r: Self)
        ensures
            r == (TVec3 { x: 0i32, y, z: 0i32 }),
    {
        TVec3 { x: 0, y, z: 0 }
    }

    /// `z` on the third axis, zero elsewhere.
    pub fn with_z(z: i32) -> (r: Self)
        ensures
            r == (TVec3 { x: 0i32, y: 0i32, z }),
    {
        TVec3 { x: 0, y: 0, z }
    }
}

/// A ray: origin, direction (of any length) and the time at which it is
/// cast, for motion blur.
#[derive(Clone, Copy, Debug, PartialEq, Eq)]
pub struct TRay<T> {
    pub origin: TVec3<T>,
    pub direction: TVec3<T>,
    pub time: T,
}

impl<T: Copy> TRay<T> {
    pub fn new(origin: TVec3<T>, direction: TVec3<T>, time: T) -> (r: Self)
        ensures
            r.origin == origin,
            r.direction == direction,
            r.time == time,
    {
        TRay { origin, direction, time }
    }
}

} // verus!
