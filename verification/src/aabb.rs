//! Axis-aligned bounding boxes.

use vstd::prelude::*;
use crate::scalar::Scalar;
use crate::vec3::{Point, Vec3};

verus! {

/// A box given by its two extreme corners.
///
/// Construction does not sort the corners: a box is meaningful when
/// [`AABB::is_ordered`] holds, and callers supply true minimum and maximum.
#[derive(Clone, Copy, Debug, PartialEq, Eq, Structural)]
pub struct AABB {
    pub _min: Point,
    pub _max: Point,
}

/// What one axis contributes to a ray/box test: the reciprocal of the ray's
/// direction on that axis, and the ray parameters at which the ray meets the
/// planes through the box's minimum (`t0`) and maximum (`t1`).
#[derive(Clone, Copy, Debug, PartialEq, Eq, Structural)]
pub struct Slab {
    pub inv_d: Scalar,
    pub t0: Scalar,
    pub t1: Scalar,
}

impl Slab {
    /// Where the ray enters the slab, never before `tmin`.
    pub open spec fn entry(self, tmin: Scalar) -> Scalar {
        let near = if self.inv_d.spec_lt(Scalar { bits: 0 }) {
            self.t1
        } else {
            self.t0
        };
        if near.spec_gt(tmin) {
            near
        } else {
            tmin
        }
    }

    /// Where the ray leaves the slab, never after `tmax`.
    pub open spec fn exit(self, tmax: Scalar) -> Scalar {
        let far = if self.inv_d.spec_lt(Scalar { bits: 0 }) {
            self.t0
        } else {
            self.t1
        };
        if far.spec_lt(tmax) {
            far
        } else {
            tmax
        }
    }

    /// Whether some part of `[tmin, tmax]` lies strictly inside the slab.
    pub open spec fn crossed(self, tmin: Scalar, tmax: Scalar) -> bool {
        !self.exit(tmax).spec_le(self.entry(tmin))
    }

    /// The same axis seen in a mirror: the direction reversed and the two
    /// planes exchanged.
    pub open spec fn mirrored(self) -> Slab {
        Slab { inv_d: self.inv_d.spec_neg(), t0: self.t1, t1: self.t0 }
    }

    /// The part of `[tmin, tmax]` that lies inside the slab, as its two
    /// ends; the first is not below the second when nothing is left.
    pub fn narrow(&self, tmin: Scalar, tmax: Scalar) -> (ends: (Scalar, Scalar))
        ensures
            ends.0 == self.entry(tmin),
            ends.1 == self.exit(tmax),
    {
        let mut t0 = self.t0;
        let mut t1 = self.t1;
        if self.inv_d.lt(Scalar::zero()) {
            t0 = self.t1;
            t1 = self.t0;
        }
        let t0 = if t0.gt(tmin) { t0 } else { tmin };
        let t1 = if t1.lt(tmax) { t1 } else { tmax };
        (t0, t1)
    }

    /// Decides [`Slab::crossed`].
    pub fn is_crossed(&self, tmin: Scalar, tmax: Scalar) -> (b: bool)
        ensures
            b == self.crossed(tmin, tmax),
    {
        let (t0, t1) = self.narrow(tmin, tmax);
        !t1.le(t0)
    }
}

impl AABB {
    /// Minimum at or below maximum on every axis; in particular no NaN.
    pub open spec fn is_ordered(self) -> bool {
        forall|a: int| 0 <= a < 3 ==> (#[trigger] self._min.axis(a)).spec_le(self._max.axis(a))
    }

    /// Whether `inner` lies inside this box on every axis.
    pub open spec fn encloses(self, inner: AABB) -> bool {
        forall|a: int|
            0 <= a < 3 ==> (#[trigger] self._min.axis(a)).spec_le(inner._min.axis(a))
                && inner._max.axis(a).spec_le(self._max.axis(a))
    }

    /// The ray/box test over three slabs. The interval `[tmin, tmax]` is
    /// narrowed by one slab after the other; the ray misses the box as soon
    /// as nothing of the interval is left.
    pub open spec fn spec_hit(slabs: [Slab; 3], tmin: Scalar, tmax: Scalar) -> bool {
        let lo0 = slabs[0].entry(tmin);
        let hi0 = slabs[0].exit(tmax);
        let lo1 = slabs[1].entry(lo0);
        let hi1 = slabs[1].exit(hi0);
        slabs[0].crossed(tmin, tmax) && slabs[1].crossed(lo0, hi0) && slabs[2].crossed(lo1, hi1)
    }

    pub fn new(a: &Point, b: &Point) -> (r: Self)
        ensures
            r._min == *a,
            r._max == *b,
    {
        Self { _min: *a, _max: *b }
    }

    /// Slab test of a ray against a box, from the per-axis plane parameters.
    pub fn hit(slabs: &[Slab; 3], tmin: Scalar, tmax: Scalar) -> (b: bool)
        ensures
            b == Self::spec_hit(*slabs, tmin, tmax),
    {
        let mut lo = tmin;
        let mut hi = tmax;
        let mut a: usize = 0;
        while a < 3
            invariant
                a <= 3,
                a == 0 ==> lo == tmin && hi == tmax,
                a >= 1 ==> slabs[0].crossed(tmin, tmax),
                a == 1 ==> lo == slabs[0].entry(tmin) && hi == slabs[0].exit(tmax),
                a >= 2 ==> slabs[1].crossed(slabs[0].entry(tmin), slabs[0].exit(tmax)),
                a == 2 ==> lo == slabs[1].entry(slabs[0].entry(tmin)) && hi == slabs[1].exit(
                    slabs[0].exit(tmax),
                ),
                a == 3 ==> Self::spec_hit(*slabs, tmin, tmax),
            decreases 3 - a,
        {
            let (t0, t1) = slabs[a].narrow(lo, hi);
            if t1.le(t0) {
                return false;
            }
            lo = t0;
            hi = t1;
            a += 1;
        }
        true
    }
}

/// The componentwise-extremal box of two boxes.
pub open spec fn spec_surrounding_box(box0: AABB, box1: AABB) -> AABB {
    AABB {
        _min: Vec3 {
            x: box0._min.x.spec_min(box1._min.x),
            y: box0._min.y.spec_min(box1._min.y),
            z: box0._min.z.spec_min(box1._min.z),
        },
        _max: Vec3 {
            x: box0._max.x.spec_max(box1._max.x),
            y: box0._max.y.spec_max(box1._max.y),
            z: box0._max.z.spec_max(box1._max.z),
        },
    }
}

pub fn surrounding_box(box0: &AABB, box1: &AABB) -> (r: AABB)
    ensures
        r == spec_surrounding_box(*box0, *box1),
{
    let small = Vec3 {
        x: box0._min.x.min(box1._min.x),
        y: box0._min.y.min(box1._min.y),
        z: box0._min.z.min(box1._min.z),
    };
    let big = Vec3 {
        x: box0._max.x.max(box1._max.x),
        y: box0._max.y.max(box1._max.y),
        z: box0._max.z.max(box1._max.z),
    };
    AABB { _min: small, _max: big }
}

impl Slab {
    /// Whether the slab may be mirrored: its reciprocal direction is a
    /// number other than zero, or its two plane parameters are alike. The
    /// second is the case of a direction that is infinite or NaN.
    pub open spec fn mirrors(self) -> bool {
        self.inv_d.spec_lt(Scalar { bits: 0 }) || self.inv_d.spec_gt(Scalar { bits: 0 })
            || self.t0.alike(self.t1)
    }
}

/// A slab narrows alike intervals to alike intervals, with the same verdict.
pub proof fn lemma_slab_alike(s: Slab, lo: Scalar, lo2: Scalar, hi: Scalar, hi2: Scalar)
    requires
        lo.alike(lo2),
        hi.alike(hi2),
    ensures
        s.entry(lo2).alike(s.entry(lo)),
        s.exit(hi2).alike(s.exit(hi)),
        s.crossed(lo2, hi2) == s.crossed(lo, hi),
{
}

/// Mirroring one axis, that is reversing the ray's direction on it and
/// exchanging the two planes, leaves the slab's verdict unchanged, and what
/// it leaves of the interval alike.
pub proof fn lemma_slab_mirror_alike(s: Slab, lo: Scalar, lo2: Scalar, hi: Scalar, hi2: Scalar)
    requires
        s.mirrors(),
        lo.alike(lo2),
        hi.alike(hi2),
    ensures
        s.mirrored().entry(lo2).alike(s.entry(lo)),
        s.mirrored().exit(hi2).alike(s.exit(hi)),
        s.mirrored().crossed(lo2, hi2) == s.crossed(lo, hi),
{
}

/// Mirroring an axis whose reciprocal direction is a number other than zero
/// leaves the narrowed interval as it is, bit for bit.
pub proof fn lemma_slab_mirror(s: Slab, tmin: Scalar, tmax: Scalar)
    requires
        s.inv_d.spec_lt(Scalar { bits: 0 }) || s.inv_d.spec_gt(Scalar { bits: 0 }),
    ensures
        s.mirrored().crossed(tmin, tmax) == s.crossed(tmin, tmax),
        s.mirrored().entry(tmin) == s.entry(tmin),
        s.mirrored().exit(tmax) == s.exit(tmax),
{
}

/// The box test gives the same answer for a ray and for its mirror image on
/// any axes: `mirror` holds, on each axis, the slab of `slabs` or its mirror
/// image.
pub proof fn lemma_hit_mirror(slabs: [Slab; 3], mirror: [Slab; 3], tmin: Scalar, tmax: Scalar)
    requires
        forall|i: int|
            0 <= i < 3 ==> #[trigger] mirror[i] == slabs[i] || (mirror[i] == slabs[i].mirrored()
                && slabs[i].mirrors()),
    ensures
        AABB::spec_hit(mirror, tmin, tmax) == AABB::spec_hit(slabs, tmin, tmax),
{
    let lo0 = slabs[0].entry(tmin);
    let hi0 = slabs[0].exit(tmax);
    let lo1 = slabs[1].entry(lo0);
    let hi1 = slabs[1].exit(hi0);
    let m_lo0 = mirror[0].entry(tmin);
    let m_hi0 = mirror[0].exit(tmax);
    let m_lo1 = mirror[1].entry(m_lo0);
    let m_hi1 = mirror[1].exit(m_hi0);
    assert(mirror[0] == slabs[0] || (mirror[0] == slabs[0].mirrored() && slabs[0].mirrors()));
    assert(mirror[1] == slabs[1] || (mirror[1] == slabs[1].mirrored() && slabs[1].mirrors()));
    assert(mirror[2] == slabs[2] || (mirror[2] == slabs[2].mirrored() && slabs[2].mirrors()));
    lemma_alike_reflexive(tmin);
    lemma_alike_reflexive(tmax);
    if mirror[0] == slabs[0] {
        lemma_slab_alike(slabs[0], tmin, tmin, tmax, tmax);
    } else {
        lemma_slab_mirror_alike(slabs[0], tmin, tmin, tmax, tmax);
    }
    if mirror[1] == slabs[1] {
        lemma_slab_alike(slabs[1], lo0, m_lo0, hi0, m_hi0);
    } else {
        lemma_slab_mirror_alike(slabs[1], lo0, m_lo0, hi0, m_hi0);
    }
    if mirror[2] == slabs[2] {
        lemma_slab_alike(slabs[2], lo1, m_lo1, hi1, m_hi1);
    } else {
        lemma_slab_mirror_alike(slabs[2], lo1, m_lo1, hi1, m_hi1);
    }
}

/// Every scalar is like itself.
pub proof fn lemma_alike_reflexive(a: Scalar)
    ensures
        a.alike(a),
{
}

/// The surrounding box of two ordered boxes is ordered and contains both.
pub proof fn lemma_surrounding_box_encloses(a: AABB, b: AABB)
    requires
        a.is_ordered(),
        b.is_ordered(),
    ensures
        spec_surrounding_box(a, b).is_ordered(),
        spec_surrounding_box(a, b).encloses(a),
        spec_surrounding_box(a, b).encloses(b),
{
    let s = spec_surrounding_box(a, b);
    assert forall|i: int| 0 <= i < 3 implies (#[trigger] s._min.axis(i)).spec_le(a._min.axis(i))
        && a._max.axis(i).spec_le(s._max.axis(i)) && s._min.axis(i).spec_le(b._min.axis(i))
        && b._max.axis(i).spec_le(s._max.axis(i)) && s._min.axis(i).spec_le(s._max.axis(i)) by {
        assert(a._min.axis(i).spec_le(a._max.axis(i)));
        assert(b._min.axis(i).spec_le(b._max.axis(i)));
    }
}

/// No box that contains two ordered boxes is smaller than their surrounding
/// box.
pub proof fn lemma_surrounding_box_tightest(a: AABB, b: AABB, c: AABB)
    requires
        a.is_ordered(),
        b.is_ordered(),
        c.encloses(a),
        c.encloses(b),
    ensures
        c.encloses(spec_surrounding_box(a, b)),
{
    let s = spec_surrounding_box(a, b);
    assert forall|i: int| 0 <= i < 3 implies (#[trigger] c._min.axis(i)).spec_le(s._min.axis(i))
        && s._max.axis(i).spec_le(c._max.axis(i)) by {
        assert(a._min.axis(i).spec_le(a._max.axis(i)));
        assert(b._min.axis(i).spec_le(b._max.axis(i)));
        assert(c._min.axis(i).spec_le(a._min.axis(i)));
        assert(c._min.axis(i).spec_le(b._min.axis(i)));
    }
}

} // verus!
