//! Triangles.

use vstd::prelude::*;
use crate::aabb::AABB;
use crate::hittable::HitRecord;
use crate::scalar::{lemma_min_max_bound, Scalar};
use crate::vec3::{Point, Vec3};

verus! {

/// The pattern of `1e-8`: a determinant nearer to zero than this means a ray
/// parallel to the triangle's plane.
pub const EPSILON_BITS: u64 = 0x3e45_798e_e230_8c3a;

/// The numbers of a Möller–Trumbore test: the determinant, the barycentric
/// coordinates `u` and `v` with their sum, and the ray parameter `t`.
#[derive(Clone, Copy, Debug)]
pub struct Barycentric {
    pub det: Scalar,
    pub u: Scalar,
    pub v: Scalar,
    pub u_plus_v: Scalar,
    pub t: Scalar,
}

impl Barycentric {
    /// Whether the numbers describe a hit within `[t_min, t_max]`: the
    /// determinant is at least `1e-8` away from zero, `u` lies in `[0, 1]`,
    /// `v` is not negative, `u + v` is at most one, and `t` lies within the
    /// bounds. A NaN among them means no hit.
    pub open spec fn accepted(self, t_min: Scalar, t_max: Scalar) -> bool {
        let epsilon = Scalar { bits: EPSILON_BITS };
        let zero = Scalar { bits: 0 };
        let one = Scalar { bits: crate::scalar::ONE_BITS };
        &&& self.det.spec_ge(epsilon) || self.det.spec_le(epsilon.spec_neg())
        &&& zero.spec_le(self.u) && self.u.spec_le(one)
        &&& zero.spec_le(self.v) && self.u_plus_v.spec_le(one)
        &&& t_min.spec_le(self.t) && self.t.spec_le(t_max)
    }
}

/// The extent of three coordinates on one axis: from the least to the
/// greatest where these differ; where they do not, from `below` to `above`,
/// which must lie strictly on either side; nothing otherwise.
pub open spec fn spec_extent(a: Scalar, b: Scalar, c: Scalar, below: Scalar, above: Scalar) -> Option<
    (Scalar, Scalar),
> {
    let lo = a.spec_min(b).spec_min(c);
    let hi = a.spec_max(b).spec_max(c);
    if lo.spec_lt(hi) {
        Some((lo, hi))
    } else if below.spec_lt(lo) && hi.spec_lt(above) {
        Some((below, above))
    } else {
        None
    }
}

fn extent(a: Scalar, b: Scalar, c: Scalar, below: Scalar, above: Scalar) -> (e: Option<
    (Scalar, Scalar),
>)
    ensures
        e == spec_extent(a, b, c, below, above),
{
    let lo = a.min(b).min(c);
    let hi = a.max(b).max(c);
    if lo.lt(hi) {
        Some((lo, hi))
    } else if below.lt(lo) && hi.lt(above) {
        Some((below, above))
    } else {
        None
    }
}

/// A triangle with corners `point0`, `point1`, `point2`.
#[derive(Clone, Copy, Debug)]
pub struct Triangle {
    pub point1: Point,
    pub point2: Point,
    pub point0: Point,
    pub mp: usize,
}

impl Triangle {
    pub fn new(point1: Point, point2: Point, point0: Point, mp: usize) -> (t: Self)
        ensures
            t.point1 == point1,
            t.point2 == point2,
            t.point0 == point0,
            t.mp == mp,
    {
        Self { point1, point2, point0, mp }
    }

    /// Whether a ray with these numbers hits the triangle within
    /// `[t_min, t_max]`.
    pub fn hit(&self, numbers: &Barycentric, t_min: Scalar, t_max: Scalar) -> (hit: bool)
        ensures
            hit == numbers.accepted(t_min, t_max),
    {
        let epsilon = Scalar { bits: EPSILON_BITS };
        if !(numbers.det.ge(epsilon) || numbers.det.le(epsilon.neg())) {
            return false;
        }
        if !(Scalar::zero().le(numbers.u) && numbers.u.le(Scalar::one())) {
            return false;
        }
        if !(Scalar::zero().le(numbers.v) && numbers.u_plus_v.le(Scalar::one())) {
            return false;
        }
        if !(t_min.le(numbers.t) && numbers.t.le(t_max)) {
            return false;
        }
        true
    }

    /// The record of a hit on the triangle at parameter `t`: the point `p`
    /// of the ray there, the triangle's material, the barycentric
    /// coordinates `(u, v)`, and the outward normal turned against the ray
    /// by `dot`, the inner product of the ray's direction with it.
    pub fn record(
        &self,
        t: Scalar,
        p: Point,
        outward_normal: &Vec3,
        dot: Scalar,
        u: Scalar,
        v: Scalar,
    ) -> (rec: HitRecord)
        ensures
            rec == HitRecord::spec_at(t, p, *outward_normal, dot, u, v, self.mp),
    {
        HitRecord::at(t, p, outward_normal, dot, u, v, self.mp)
    }

    /// The box of the triangle: on every axis the extent of the three
    /// corners, padded out to `below` and `above` on an axis on which the
    /// corners coincide. There is no box when a pad that is needed does not
    /// lie strictly outside.
    pub open spec fn spec_bounding_box(self, below: Point, above: Point) -> Option<AABB> {
        match (
            spec_extent(self.point0.x, self.point1.x, self.point2.x, below.x, above.x),
            spec_extent(self.point0.y, self.point1.y, self.point2.y, below.y, above.y),
            spec_extent(self.point0.z, self.point1.z, self.point2.z, below.z, above.z),
        ) {
            (Some(x), Some(y), Some(z)) => Some(
                AABB {
                    _min: Vec3 { x: x.0, y: y.0, z: z.0 },
                    _max: Vec3 { x: x.1, y: y.1, z: z.1 },
                },
            ),
            _ => None,
        }
    }

    /// The box of the triangle, with a thickness on every axis. `below` and
    /// `above` are the least and the greatest coordinates of the corners,
    /// less and plus a small pad.
    pub fn bounding_box(&self, below: &Point, above: &Point) -> (b: Option<AABB>)
        ensures
            b == self.spec_bounding_box(*below, *above),
    {
        let x = extent(self.point0.x, self.point1.x, self.point2.x, below.x, above.x);
        let y = extent(self.point0.y, self.point1.y, self.point2.y, below.y, above.y);
        let z = extent(self.point0.z, self.point1.z, self.point2.z, below.z, above.z);
        match (x, y, z) {
            (Some(x), Some(y), Some(z)) => Some(
                AABB::new(&Vec3::new(x.0, y.0, z.0), &Vec3::new(x.1, y.1, z.1)),
            ),
            _ => None,
        }
    }
}

/// An extent of three numbers has its first end strictly below its second
/// and holds all three.
pub proof fn lemma_extent_holds(a: Scalar, b: Scalar, c: Scalar, below: Scalar, above: Scalar)
    requires
        !a.is_nan(),
        !b.is_nan(),
        !c.is_nan(),
        spec_extent(a, b, c, below, above) is Some,
    ensures
        spec_extent(a, b, c, below, above) matches Some(e) ==> {
            &&& e.0.spec_lt(e.1)
            &&& e.0.spec_le(a)
            &&& e.0.spec_le(b)
            &&& e.0.spec_le(c)
            &&& a.spec_le(e.1)
            &&& b.spec_le(e.1)
            &&& c.spec_le(e.1)
        },
{
    lemma_min_max_bound(a, b);
    lemma_min_max_bound(a.spec_min(b), c);
    lemma_min_max_bound(a.spec_max(b), c);
}

/// Three numbers have an extent exactly when they differ or the pads lie
/// strictly on either side of them.
pub proof fn lemma_extent_exists(a: Scalar, b: Scalar, c: Scalar, below: Scalar, above: Scalar)
    requires
        !a.is_nan(),
        !b.is_nan(),
        !c.is_nan(),
    ensures
        spec_extent(a, b, c, below, above) is Some <==> !(a.spec_ieee_eq(b) && b.spec_ieee_eq(c))
            || (below.spec_lt(a) && a.spec_lt(above)),
{
    lemma_min_max_bound(a, b);
    lemma_min_max_bound(a.spec_min(b), c);
    lemma_min_max_bound(a.spec_max(b), c);
}

/// The box of a triangle whose corners hold no NaN has its minimum strictly
/// below its maximum on every axis, and holds the three corners.
pub proof fn lemma_triangle_box_holds_corners(t: Triangle, below: Point, above: Point)
    requires
        !t.point0.has_nan(),
        !t.point1.has_nan(),
        !t.point2.has_nan(),
        t.spec_bounding_box(below, above) is Some,
    ensures
        forall|a: int|
            0 <= a < 3 ==> (#[trigger] t.spec_bounding_box(below, above)->0._min.axis(a)).spec_lt(
                t.spec_bounding_box(below, above)->0._max.axis(a),
            ),
        t.spec_bounding_box(below, above)->0.is_ordered(),
        t.spec_bounding_box(below, above)->0.encloses(AABB { _min: t.point0, _max: t.point0 }),
        t.spec_bounding_box(below, above)->0.encloses(AABB { _min: t.point1, _max: t.point1 }),
        t.spec_bounding_box(below, above)->0.encloses(AABB { _min: t.point2, _max: t.point2 }),
{
    let b = t.spec_bounding_box(below, above)->0;
    lemma_extent_holds(t.point0.x, t.point1.x, t.point2.x, below.x, above.x);
    lemma_extent_holds(t.point0.y, t.point1.y, t.point2.y, below.y, above.y);
    lemma_extent_holds(t.point0.z, t.point1.z, t.point2.z, below.z, above.z);
    assert forall|a: int| 0 <= a < 3 implies {
        &&& (#[trigger] b._min.axis(a)).spec_lt(b._max.axis(a))
        &&& b._min.axis(a).spec_le(t.point0.axis(a))
        &&& b._min.axis(a).spec_le(t.point1.axis(a))
        &&& b._min.axis(a).spec_le(t.point2.axis(a))
        &&& t.point0.axis(a).spec_le(b._max.axis(a))
        &&& t.point1.axis(a).spec_le(b._max.axis(a))
        &&& t.point2.axis(a).spec_le(b._max.axis(a))
    } by {}
    assert forall|a: int| 0 <= a < 3 implies (#[trigger] b._min.axis(a)).spec_le(b._max.axis(a)) by {
        assert(b._min.axis(a).spec_lt(b._max.axis(a)));
    }
    let c0 = AABB { _min: t.point0, _max: t.point0 };
    let c1 = AABB { _min: t.point1, _max: t.point1 };
    let c2 = AABB { _min: t.point2, _max: t.point2 };
    assert forall|a: int| 0 <= a < 3 implies (#[trigger] b._min.axis(a)).spec_le(c0._min.axis(a))
        && c0._max.axis(a).spec_le(b._max.axis(a)) by {
        assert(b._min.axis(a).spec_le(t.point0.axis(a)));
    }
    assert forall|a: int| 0 <= a < 3 implies (#[trigger] b._min.axis(a)).spec_le(c1._min.axis(a))
        && c1._max.axis(a).spec_le(b._max.axis(a)) by {
        assert(b._min.axis(a).spec_le(t.point1.axis(a)));
    }
    assert forall|a: int| 0 <= a < 3 implies (#[trigger] b._min.axis(a)).spec_le(c2._min.axis(a))
        && c2._max.axis(a).spec_le(b._max.axis(a)) by {
        assert(b._min.axis(a).spec_le(t.point2.axis(a)));
    }
}

} // verus!
