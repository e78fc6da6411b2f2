//! Axis-aligned rectangles, one kind for each plane they can lie in.

use vstd::prelude::*;
use crate::aabb::AABB;
use crate::hittable::HitRecord;
use crate::scalar::{Scalar, ONE_BITS};
use crate::vec3::{Point, Vec3};

verus! {

/// Whether a ray that meets a rectangle's plane at parameter `t`, at the
/// in-plane coordinates `(a, b)`, hits the rectangle: `t` lies within
/// `[t0, t1]` and each coordinate within its extent. A NaN lies within
/// nothing, so a ray that runs in the plane does not hit.
pub open spec fn spec_rect_hit(
    t: Scalar,
    t0: Scalar,
    t1: Scalar,
    a: Scalar,
    a0: Scalar,
    a1: Scalar,
    b: Scalar,
    b0: Scalar,
    b1: Scalar,
) -> bool {
    t0.spec_le(t) && t.spec_le(t1) && a0.spec_le(a) && a.spec_le(a1) && b0.spec_le(b)
        && b.spec_le(b1)
}

fn rect_hit(
    t: Scalar,
    t0: Scalar,
    t1: Scalar,
    a: Scalar,
    a0: Scalar,
    a1: Scalar,
    b: Scalar,
    b0: Scalar,
    b1: Scalar,
) -> (hit: bool)
    ensures
        hit == spec_rect_hit(t, t0, t1, a, a0, a1, b, b0, b1),
{
    if !(t0.le(t) && t.le(t1)) {
        return false;
    }
    if !(a0.le(a) && a.le(a1) && b0.le(b) && b.le(b1)) {
        return false;
    }
    true
}

/// The unit vector along `axis`.
pub open spec fn spec_unit(axis: int) -> Vec3 {
    Vec3 {
        x: Scalar { bits: if axis == 0 { ONE_BITS } else { 0 } },
        y: Scalar { bits: if axis == 1 { ONE_BITS } else { 0 } },
        z: Scalar { bits: if axis == 2 { ONE_BITS } else { 0 } },
    }
}

/// A rectangle in the plane `z = k`.
#[derive(Clone, Copy, Debug)]
pub struct XYRect {
    pub mp: usize,
    pub x0: Scalar,
    pub x1: Scalar,
    pub y0: Scalar,
    pub y1: Scalar,
    pub k: Scalar,
}

impl XYRect {
    pub fn new(x0: Scalar, x1: Scalar, y0: Scalar, y1: Scalar, k: Scalar, mat: usize) -> (r: Self)
        ensures
            r == (Self { mp: mat, x0, x1, y0, y1, k }),
    {
        Self { x0, x1, y0, y1, k, mp: mat }
    }

    /// Whether a ray that meets the plane at parameter `t`, in the point
    /// `(x, y)`, hits the rectangle within `[t0, t1]`.
    pub fn hit(&self, t: Scalar, x: Scalar, y: Scalar, t0: Scalar, t1: Scalar) -> (hit: bool)
        ensures
            hit == spec_rect_hit(t, t0, t1, x, self.x0, self.x1, y, self.y0, self.y1),
    {
        rect_hit(t, t0, t1, x, self.x0, self.x1, y, self.y0, self.y1)
    }

    /// The record of a hit at parameter `t`, in the point `p`, with surface
    /// coordinates `(u, v)`: the rectangle's material, and the normal along
    /// `z`, turned against the ray by `dot`, the inner product of the ray's
    /// direction with it.
    pub fn record(&self, t: Scalar, p: Point, dot: Scalar, u: Scalar, v: Scalar) -> (rec: HitRecord)
        ensures
            rec == HitRecord::spec_at(t, p, spec_unit(2), dot, u, v, self.mp),
    {
        let outward_normal = Vec3::new(Scalar::zero(), Scalar::zero(), Scalar::one());
        HitRecord::at(t, p, &outward_normal, dot, u, v, self.mp)
    }

    /// The box of the rectangle: its extent in the plane, and from `below`
    /// to `above` across it, the plane's coordinate less and plus a small
    /// pad, so that the box has a thickness. There is no box when the pad
    /// does not lie strictly on either side of the plane.
    pub fn bounding_box(&self, below: Scalar, above: Scalar) -> (b: Option<AABB>)
        ensures
            b == if below.spec_lt(self.k) && self.k.spec_lt(above) {
                Some(
                    AABB {
                        _min: Vec3 { x: self.x0, y: self.y0, z: below },
                        _max: Vec3 { x: self.x1, y: self.y1, z: above },
                    },
                )
            } else {
                None
            },
    {
        if below.lt(self.k) && self.k.lt(above) {
            Some(AABB::new(&Vec3::new(self.x0, self.y0, below), &Vec3::new(self.x1, self.y1, above)))
        } else {
            None
        }
    }
}

/// A rectangle in the plane `y = k`.
#[derive(Clone, Copy, Debug)]
pub struct XZRect {
    pub mp: usize,
    pub x0: Scalar,
    pub x1: Scalar,
    pub z0: Scalar,
    pub z1: Scalar,
    pub k: Scalar,
}

impl XZRect {
    pub fn new(x0: Scalar, x1: Scalar, z0: Scalar, z1: Scalar, k: Scalar, mat: usize) -> (r: Self)
        ensures
            r == (Self { mp: mat, x0, x1, z0, z1, k }),
    {
        Self { x0, x1, z0, z1, k, mp: mat }
    }

    /// Whether a ray that meets the plane at parameter `t`, in the point
    /// `(x, z)`, hits the rectangle within `[t0, t1]`.
    pub fn hit(&self, t: Scalar, x: Scalar, z: Scalar, t0: Scalar, t1: Scalar) -> (hit: bool)
        ensures
            hit == spec_rect_hit(t, t0, t1, x, self.x0, self.x1, z, self.z0, self.z1),
    {
        rect_hit(t, t0, t1, x, self.x0, self.x1, z, self.z0, self.z1)
    }

    /// The record of a hit at parameter `t`, in the point `p`, with surface
    /// coordinates `(u, v)`: the rectangle's material, and the normal along
    /// `y`, turned against the ray by `dot`, the inner product of the ray's
    /// direction with it.
    pub fn record(&self, t: Scalar, p: Point, dot: Scalar, u: Scalar, v: Scalar) -> (rec: HitRecord)
        ensures
            rec == HitRecord::spec_at(t, p, spec_unit(1), dot, u, v, self.mp),
    {
        let outward_normal = Vec3::new(Scalar::zero(), Scalar::one(), Scalar::zero());
        HitRecord::at(t, p, &outward_normal, dot, u, v, self.mp)
    }

    /// The box of the rectangle: its extent in the plane, and from `below`
    /// to `above` across it, the plane's coordinate less and plus a small
    /// pad, so that the box has a thickness. There is no box when the pad
    /// does not lie strictly on either side of the plane.
    pub fn bounding_box(&self, below: Scalar, above: Scalar) -> (b: Option<AABB>)
        ensures
            b == if below.spec_lt(self.k) && self.k.spec_lt(above) {
                Some(
                    AABB {
                        _min: Vec3 { x: self.x0, y: below, z: self.z0 },
                        _max: Vec3 { x: self.x1, y: above, z: self.z1 },
                    },
                )
            } else {
                None
            },
    {
        if below.lt(self.k) && self.k.lt(above) {
            Some(AABB::new(&Vec3::new(self.x0, below, self.z0), &Vec3::new(self.x1, above, self.z1)))
        } else {
            None
        }
    }
}

/// A rectangle in the plane `x = k`.
#[derive(Clone, Copy, Debug)]
pub struct YZRect {
    pub mp: usize,
    pub y0: Scalar,
    pub y1: Scalar,
    pub z0: Scalar,
    pub z1: Scalar,
    pub k: Scalar,
}

impl YZRect {
    pub fn new(y0: Scalar, y1: Scalar, z0: Scalar, z1: Scalar, k: Scalar, mat: usize) -> (r: Self)
        ensures
            r == (Self { mp: mat, y0, y1, z0, z1, k }),
    {
        Self { y0, y1, z0, z1, k, mp: mat }
    }

    /// Whether a ray that meets the plane at parameter `t`, in the point
    /// `(y, z)`, hits the rectangle within `[t0, t1]`.
    pub fn hit(&self, t: Scalar, y: Scalar, z: Scalar, t0: Scalar, t1: Scalar) -> (hit: bool)
        ensures
            hit == spec_rect_hit(t, t0, t1, y, self.y0, self.y1, z, self.z0, self.z1),
    {
        rect_hit(t, t0, t1, y, self.y0, self.y1, z, self.z0, self.z1)
    }

    /// The record of a hit at parameter `t`, in the point `p`, with surface
    /// coordinates `(u, v)`: the rectangle's material, and the normal along
    /// `x`, turned against the ray by `dot`, the inner product of the ray's
    /// direction with it.
    pub fn record(&self, t: Scalar, p: Point, dot: Scalar, u: Scalar, v: Scalar) -> (rec: HitRecord)
        ensures
            rec == HitRecord::spec_at(t, p, spec_unit(0), dot, u, v, self.mp),
    {
        let outward_normal = Vec3::new(Scalar::one(), Scalar::zero(), Scalar::zero());
        HitRecord::at(t, p, &outward_normal, dot, u, v, self.mp)
    }

    /// The box of the rectangle: its extent in the plane, and from `below`
    /// to `above` across it, the plane's coordinate less and plus a small
    /// pad, so that the box has a thickness. There is no box when the pad
    /// does not lie strictly on either side of the plane.
    pub fn bounding_box(&self, below: Scalar, above: Scalar) -> (b: Option<AABB>)
        ensures
            b == if below.spec_lt(self.k) && self.k.spec_lt(above) {
                Some(
                    AABB {
                        _min: Vec3 { x: below, y: self.y0, z: self.z0 },
                        _max: Vec3 { x: above, y: self.y1, z: self.z1 },
                    },
                )
            } else {
                None
            },
    {
        if below.lt(self.k) && self.k.lt(above) {
            Some(AABB::new(&Vec3::new(below, self.y0, self.z0), &Vec3::new(above, self.y1, self.z1)))
        } else {
            None
        }
    }
}

} // verus!
