//! A box made of six rectangles.

use vstd::prelude::*;
use crate::aabb::AABB;
use crate::aarect::{XYRect, XZRect, YZRect};
use crate::hittable::{Hittable, HittableList, ListScan, Nearest};
use crate::scalar::Scalar;
use crate::vec3::Point;

verus! {

/// One side of a box.
#[derive(Clone, Copy, Debug)]
pub enum Side {
    XY(XYRect),
    XZ(XZRect),
    YZ(YZRect),
}

/// An axis-aligned box between two corners, closed by six rectangles.
pub struct Box6 {
    pub box_min: Point,
    pub box_max: Point,
    /// The six rectangles.
    pub rects: Vec<Side>,
    /// The list that is scanned for a hit: one object for each rectangle,
    /// known by the rectangle's place in `rects`.
    pub sides: HittableList,
}

/// The six sides of the box between `p0` and `p1`, all of material `mat`: the
/// two in planes of constant `z`, then those of constant `y`, then those of
/// constant `x`, each pair with the side through `p1` first.
pub open spec fn spec_sides(p0: Point, p1: Point, mat: usize) -> Seq<Side> {
    seq![
        Side::XY(XYRect { mp: mat, x0: p0.x, x1: p1.x, y0: p0.y, y1: p1.y, k: p1.z }),
        Side::XY(XYRect { mp: mat, x0: p0.x, x1: p1.x, y0: p0.y, y1: p1.y, k: p0.z }),
        Side::XZ(XZRect { mp: mat, x0: p0.x, x1: p1.x, z0: p0.z, z1: p1.z, k: p1.y }),
        Side::XZ(XZRect { mp: mat, x0: p0.x, x1: p1.x, z0: p0.z, z1: p1.z, k: p0.y }),
        Side::YZ(YZRect { mp: mat, y0: p0.y, y1: p1.y, z0: p0.z, z1: p1.z, k: p1.x }),
        Side::YZ(YZRect { mp: mat, y0: p0.y, y1: p1.y, z0: p0.z, z1: p1.z, k: p0.x }),
    ]
}

/// The objects by which the list of a box knows its six sides, in order.
pub open spec fn spec_side_handles() -> Seq<Hittable> {
    Seq::new(6, |i: int| Hittable { id: i as usize, sort_box: None, bbox: None })
}

impl Box6 {
    pub fn new(p0: &Point, p1: &Point, ptr: usize) -> (b: Self)
        ensures
            b.box_min == *p0,
            b.box_max == *p1,
            b.rects@ == spec_sides(*p0, *p1, ptr),
            b.sides.objects@ == spec_side_handles(),
    {
        let mut rects: Vec<Side> = Vec::new();
        rects.push(Side::XY(XYRect::new(p0.x, p1.x, p0.y, p1.y, p1.z, ptr)));
        rects.push(Side::XY(XYRect::new(p0.x, p1.x, p0.y, p1.y, p0.z, ptr)));
        rects.push(Side::XZ(XZRect::new(p0.x, p1.x, p0.z, p1.z, p1.y, ptr)));
        rects.push(Side::XZ(XZRect::new(p0.x, p1.x, p0.z, p1.z, p0.y, ptr)));
        rects.push(Side::YZ(YZRect::new(p0.y, p1.y, p0.z, p1.z, p1.x, ptr)));
        rects.push(Side::YZ(YZRect::new(p0.y, p1.y, p0.z, p1.z, p0.x, ptr)));
        assert(rects@ =~= spec_sides(*p0, *p1, ptr));
        let mut sides = HittableList::new();
        let mut i: usize = 0;
        while i < 6
            invariant
                i <= 6,
                sides.objects@.len() == i,
                forall|k: int|
                    0 <= k < i ==> sides.objects@[k] == (Hittable {
                        id: k as usize,
                        sort_box: None,
                        bbox: None,
                    }),
            decreases 6 - i,
        {
            sides.add(Hittable::new(i, None, None));
            i += 1;
        }
        assert(sides.objects@ =~= spec_side_handles());
        Self { box_min: *p0, box_max: *p1, rects, sides }
    }

    /// Begins the search for the nearest hit below `t_max` among the sides:
    /// a scan of the list of sides.
    pub fn hit(&self, t_max: Scalar) -> (scan: ListScan)
        ensures
            scan.next == 0,
            scan.nearest == (Nearest { limit: t_max, rec: None }),
    {
        self.sides.hit(t_max)
    }

    /// The rectangle that the list of sides knows as object `id`.
    pub fn side(&self, id: usize) -> (s: Option<Side>)
        ensures
            s == if id < self.rects@.len() {
                Some(self.rects@[id as int])
            } else {
                None
            },
    {
        if id < self.rects.len() {
            Some(self.rects[id])
        } else {
            None
        }
    }

    /// The box's own corners, whatever its sides are.
    pub fn bounding_box(&self) -> (b: Option<AABB>)
        ensures
            b == Some(AABB { _min: self.box_min, _max: self.box_max }),
    {
        Some(AABB::new(&self.box_min, &self.box_max))
    }
}

} // verus!
