use vstd::prelude::*;
use crate::vec3::TVec3;

verus! {

/// An axis-aligned box over integer coordinates (for floating-point scenes,
/// integers in the same order as the floats, so that merging is exact).
#[derive(Clone, Copy, Debug, PartialEq, Eq)]
pub struct Aabb {
    pub min: TVec3<i64>,
    pub max: TVec3<i64>,
}

pub open spec fn min_i64(a: i64, b: i64) -> i64 {
    if a < b { a } else { b }
}

pub open spec fn max_i64(a: i64, b: i64) -> i64 {
    if a > b { a } else { b }
}

/// The smallest box holding both boxes: the minimum of the minimum corners
/// and the maximum of the maximum corners, axis by axis.
pub open spec fn merge_spec(a: Aabb, b: Aabb) -> Aabb {
    Aabb {
        min: TVec3 { x: min_i64(a.min.x, b.min.x), y: min_i64(a.min.y, b.min.y), z: min_i64(a.min.z, b.min.z) },
        max: TVec3 { x: max_i64(a.max.x, b.max.x), y: max_i64(a.max.y, b.max.y), z: max_i64(a.max.z, b.max.z) },
    }
}

/// The box that merging leaves unchanged: corners at the far ends of the
/// integer range, minimum above maximum.
pub open spec fn empty_spec() -> Aabb {
    Aabb {
        min: TVec3 { x: i64::MAX, y: i64::MAX, z: i64::MAX },
        max: TVec3 { x: i64::MIN, y: i64::MIN, z: i64::MIN },
    }
}

/// `outer` holds `inner` on every axis.
pub open spec fn contains(outer: Aabb, inner: Aabb) -> bool {
    &&& outer.min.x <= inner.min.x && inner.max.x <= outer.max.x
    &&& outer.min.y <= inner.min.y && inner.max.y <= outer.max.y
    &&& outer.min.z <= inner.min.z && inner.max.z <= outer.max.z
}

impl Aabb {
    pub fn new(min: TVec3<i64>, max: TVec3<i64>) -> (r: Aabb)
        ensures
            r.min == min,
            r.max == max,
    {
        Aabb { min, max }
    }

    /// The empty box.
    pub fn empty() -> (r: Aabb)
        ensures
            r == empty_spec(),
    {
        Aabb {
            min: TVec3 { x: i64::MAX, y: i64::MAX, z: i64::MAX },
            max: TVec3 { x: i64::MIN, y: i64::MIN, z: i64::MIN },
        }
    }
}

fn min_of(a: i64, b: i64) -> (r: i64)
    ensures
        r == min_i64(a, b),
{
    if a < b { a } else { b }
}

fn max_of(a: i64, b: i64) -> (r: i64)
    ensures
        r == max_i64(a, b),
{
    if a > b { a } else { b }
}

/// The smallest box holding `a` and `b`.
pub fn merge_aabbs(a: &Aabb, b: &Aabb) -> (r: Aabb)
    ensures
        r == merge_spec(*a, *b),
{
    Aabb {
        min: TVec3 { x: min_of(a.min.x, b.min.x), y: min_of(a.min.y, b.min.y), z: min_of(a.min.z, b.min.z) },
        max: TVec3 { x: max_of(a.max.x, b.max.x), y: max_of(a.max.y, b.max.y), z: max_of(a.max.z, b.max.z) },
    }
}

/// Merging with the empty box gives the box back, and merging is
/// commutative and associative.
pub proof fn lemma_merge_laws(a: Aabb, b: Aabb, c: Aabb)
    ensures
        merge_spec(a, empty_spec()) == a,
        merge_spec(empty_spec(), a) == a,
        merge_spec(a, b) == merge_spec(b, a),
        merge_spec(merge_spec(a, b), c) == merge_spec(a, merge_spec(b, c)),
{
}

/// A merged box holds both of its parts.
pub proof fn lemma_merge_contains(a: Aabb, b: Aabb)
    ensures
        contains(merge_spec(a, b), a),
        contains(merge_spec(a, b), b),
{
}

} // verus!
