//! Scene objects as the hierarchy sees them, hit records, and the flat list.
//!
//! Intersecting a ray with a primitive is arithmetic and is done by the
//! caller. What is decided here is which answer wins: the list scan asks for
//! one object at a time, hands out the upper bound that the answer must
//! respect, and keeps the nearest record.

use vstd::prelude::*;
use crate::aabb::{surrounding_box, spec_surrounding_box, AABB, Slab};
use crate::scalar::Scalar;
use crate::vec3::{Point, Vec3};

verus! {

/// What a ray found on a surface.
#[derive(Clone, Copy, Debug)]
pub struct HitRecord {
    /// The point where the ray met the surface.
    pub p: Point,
    /// The surface normal, turned against the incoming ray.
    pub normal: Vec3,
    /// The material at the hit point, by its index in the scene's materials.
    pub mat_ptr: usize,
    /// The ray parameter of the hit.
    pub t: Scalar,
    pub u: Scalar,
    pub v: Scalar,
    /// Whether the ray came from outside the surface.
    pub front_face: bool,
}

impl HitRecord {
    /// A record at the origin, at parameter zero, for material `m`.
    pub fn new(m: usize) -> (rec: Self)
        ensures
            rec.p == (Vec3 { x: Scalar { bits: 0 }, y: Scalar { bits: 0 }, z: Scalar { bits: 0 } }),
            rec.normal == rec.p,
            rec.mat_ptr == m,
            rec.t.bits == 0,
            rec.u.bits == 0,
            rec.v.bits == 0,
            !rec.front_face,
    {
        Self {
            p: Vec3::zero(),
            normal: Vec3::zero(),
            mat_ptr: m,
            t: Scalar::zero(),
            u: Scalar::zero(),
            v: Scalar::zero(),
            front_face: false,
        }
    }

    /// Orients the normal against the ray. `dot` is the inner product of the
    /// ray's direction with `outward_normal`: the ray enters the surface when
    /// it is below zero.
    pub fn set_face_normal(&mut self, dot: Scalar, outward_normal: &Vec3)
        ensures
            final(self).front_face == dot.spec_lt(Scalar { bits: 0 }),
            final(self).normal == if dot.spec_lt(Scalar { bits: 0 }) {
                *outward_normal
            } else {
                outward_normal.spec_neg()
            },
            final(self).p == old(self).p,
            final(self).mat_ptr == old(self).mat_ptr,
            final(self).t == old(self).t,
            final(self).u == old(self).u,
            final(self).v == old(self).v,
    {
        self.front_face = dot.lt(Scalar::zero());
        if self.front_face {
            self.normal = *outward_normal;
        } else {
            self.normal = outward_normal.neg();
        }
    }
}

/// A scene object: its index in the scene, and the two boxes the hierarchy
/// needs from it. Either box is `None` for an object without bounds.
#[derive(Clone, Copy, Debug)]
pub struct Hittable {
    pub id: usize,
    /// The bounds at time zero, by which objects are ordered.
    pub sort_box: Option<AABB>,
    /// The bounds over the whole shutter interval.
    pub bbox: Option<AABB>,
}

impl Hittable {
    pub fn new(id: usize, sort_box: Option<AABB>, bbox: Option<AABB>) -> (h: Self)
        ensures
            h.id == id,
            h.sort_box == sort_box,
            h.bbox == bbox,
    {
        Self { id, sort_box, bbox }
    }

    /// The bounds over the shutter interval.
    pub fn bounding_box(&self) -> (b: Option<AABB>)
        ensures
            b == self.bbox,
    {
        self.bbox
    }
}

/// What the caller's intersection code answers for one fixed ray and lower
/// bound: the record of object `id` when tested up to a limit, and the slab
/// parameters of a box.
pub struct Probe {
    pub hits: spec_fn(usize, Scalar) -> Option<HitRecord>,
    pub slabs: spec_fn(AABB) -> [Slab; 3],
}

/// The nearest hit so far, and the bound that later hits must respect.
#[derive(Clone, Copy, Debug)]
pub struct Nearest {
    pub limit: Scalar,
    pub rec: Option<HitRecord>,
}

impl Nearest {
    /// A found record replaces the one held and lowers the limit to its
    /// parameter; a miss changes nothing.
    pub open spec fn spec_offer(self, found: Option<HitRecord>) -> Nearest {
        match found {
            Some(h) => Nearest { limit: h.t, rec: Some(h) },
            None => self,
        }
    }

    /// After testing `object` against the current limit.
    pub open spec fn visit(self, object: Hittable, probe: Probe) -> Nearest {
        self.spec_offer((probe.hits)(object.id, self.limit))
    }

    /// After testing every object of `objects` in order.
    pub open spec fn scan(self, objects: Seq<Hittable>, probe: Probe) -> Nearest
        decreases objects.len(),
    {
        if objects.len() == 0 {
            self
        } else {
            self.visit(objects[0], probe).scan(objects.subrange(1, objects.len() as int), probe)
        }
    }

    /// Nothing found yet, and `t_max` as the limit.
    pub fn start(t_max: Scalar) -> (n: Self)
        ensures
            n.limit == t_max,
            n.rec is None,
    {
        Self { limit: t_max, rec: None }
    }

    pub fn offer(&mut self, found: Option<HitRecord>)
        ensures
            *final(self) == old(self).spec_offer(found),
    {
        match found {
            Some(h) => {
                self.limit = h.t;
                self.rec = Some(h);
            },
            None => {},
        }
    }
}

/// What a traversal needs next from the caller.
#[derive(Clone, Copy, Debug)]
pub enum Query {
    /// Intersect the ray with this object, accepting nothing beyond `limit`.
    Object { object: Hittable, limit: Scalar },
    /// Compute the ray's slab parameters for this box.
    Bounds { bounds: AABB },
    /// The traversal is over, with this result.
    Done { rec: Option<HitRecord> },
}

/// The caller's reply to a [`Query`].
#[derive(Clone, Copy, Debug)]
pub enum Answer {
    Object { rec: Option<HitRecord> },
    Bounds { slabs: [Slab; 3] },
}

/// A flat list of scene objects.
pub struct HittableList {
    pub objects: Vec<Hittable>,
}

/// The union of the boxes of `objects`, folded from the left; `None` when any
/// of them has no box, or when there are none.
pub open spec fn spec_list_box(objects: Seq<Hittable>) -> Option<AABB>
    decreases objects.len(),
{
    if objects.len() == 0 {
        None
    } else if objects.len() == 1 {
        objects[0].bbox
    } else {
        match (spec_list_box(objects.drop_last()), objects.last().bbox) {
            (Some(rest), Some(last)) => Some(spec_surrounding_box(rest, last)),
            _ => None,
        }
    }
}

impl HittableList {
    pub fn new() -> (list: Self)
        ensures
            list.objects@.len() == 0,
    {
        Self { objects: Vec::new() }
    }

    pub fn clear(&mut self)
        ensures
            final(self).objects@.len() == 0,
    {
        self.objects.clear();
    }

    pub fn add(&mut self, object: Hittable)
        ensures
            final(self).objects@ == old(self).objects@.push(object),
    {
        self.objects.push(object);
    }

    /// The box around every object of the list, or `None` when the list is
    /// empty or some object has no box.
    pub fn bounding_box(&self) -> (b: Option<AABB>)
        ensures
            b == spec_list_box(self.objects@),
    {
        if self.objects.len() == 0 {
            return None;
        }
        let mut output_box = match self.objects[0].bbox {
            Some(first) => first,
            None => {
                proof {
                    lemma_list_box_missing(self.objects@, 0);
                }
                return None;
            },
        };
        assert(self.objects@.subrange(0, 1).len() == 1);
        assert(self.objects@.subrange(0, 1)[0] == self.objects@[0]);
        let mut i: usize = 1;
        while i < self.objects.len()
            invariant
                1 <= i <= self.objects.len(),
                spec_list_box(self.objects@.subrange(0, i as int)) == Some(output_box),
            decreases self.objects.len() - i,
        {
            let ghost upto = self.objects@.subrange(0, i + 1);
            assert(upto.drop_last() == self.objects@.subrange(0, i as int));
            assert(upto.last() == self.objects@[i as int]);
            match self.objects[i].bbox {
                Some(temp_box) => {
                    output_box = surrounding_box(&output_box, &temp_box);
                },
                None => {
                    proof {
                        lemma_list_box_missing(self.objects@, i as int);
                    }
                    return None;
                },
            }
            i += 1;
        }
        assert(self.objects@.subrange(0, i as int) == self.objects@);
        Some(output_box)
    }
}

/// How far a linear scan of a list has come.
#[derive(Clone, Copy, Debug)]
pub struct ListScan {
    /// The index of the object to test next.
    pub next: usize,
    pub nearest: Nearest,
}

impl ListScan {
    /// What the scan asks for in this state.
    pub open spec fn spec_query(self, objects: Seq<Hittable>) -> Query {
        if self.next < objects.len() {
            Query::Object { object: objects[self.next as int], limit: self.nearest.limit }
        } else {
            Query::Done { rec: self.nearest.rec }
        }
    }

    /// The state after the object asked for answered `rec`; a finished scan
    /// stays as it is.
    pub open spec fn spec_answer(self, objects: Seq<Hittable>, rec: Option<HitRecord>) -> ListScan {
        if self.next < objects.len() {
            ListScan { next: (self.next + 1) as usize, nearest: self.nearest.spec_offer(rec) }
        } else {
            self
        }
    }

    /// The state after `steps` objects have answered as `probe` says.
    pub open spec fn run(self, objects: Seq<Hittable>, probe: Probe, steps: nat) -> ListScan
        decreases steps,
    {
        if steps == 0 {
            self
        } else {
            match self.spec_query(objects) {
                Query::Object { object, limit } => self.spec_answer(
                    objects,
                    (probe.hits)(object.id, limit),
                ).run(objects, probe, (steps - 1) as nat),
                _ => self,
            }
        }
    }

    /// What the scan will end with if every object still to come answers as
    /// `probe` says.
    pub open spec fn outcome(self, objects: Seq<Hittable>, probe: Probe) -> Nearest {
        if self.next < objects.len() {
            self.nearest.scan(objects.subrange(self.next as int, objects.len() as int), probe)
        } else {
            self.nearest
        }
    }

    /// The next object to test and its limit, or the result.
    pub fn query(&self, list: &HittableList) -> (q: Query)
        ensures
            q == self.spec_query(list.objects@),
    {
        if self.next < list.objects.len() {
            Query::Object { object: list.objects[self.next], limit: self.nearest.limit }
        } else {
            Query::Done { rec: self.nearest.rec }
        }
    }

    /// Takes the answer for the object asked for and moves on.
    pub fn answer(&mut self, list: &HittableList, rec: Option<HitRecord>)
        ensures
            *final(self) == old(self).spec_answer(list.objects@, rec),
    {
        if self.next < list.objects.len() {
            self.nearest.offer(rec);
            self.next = self.next + 1;
        }
    }
}

impl HittableList {
    /// Begins the scan for the nearest hit below `t_max`.
    pub fn hit(&self, t_max: Scalar) -> (scan: ListScan)
        ensures
            scan.next == 0,
            scan.nearest == (Nearest { limit: t_max, rec: None }),
    {
        ListScan { next: 0, nearest: Nearest::start(t_max) }
    }
}

/// A scan that starts at the head of a list ends with the nearest hit of the
/// whole list.
pub proof fn lemma_list_scan_start(objects: Seq<Hittable>, t_max: Scalar, probe: Probe)
    ensures
        (ListScan { next: 0, nearest: Nearest { limit: t_max, rec: None } }).outcome(
            objects,
            probe,
        ) == (Nearest { limit: t_max, rec: None }).scan(objects, probe),
{
    if objects.len() > 0 {
        assert(objects.subrange(0, objects.len() as int) == objects);
    }
}

/// Answering a query as the probe would does not change what the scan will
/// end with, and a finished scan holds its outcome.
pub proof fn lemma_list_scan_step(scan: ListScan, objects: Seq<Hittable>, probe: Probe)
    requires
        objects.len() <= usize::MAX,
    ensures
        scan.spec_query(objects) matches Query::Object { object, limit } ==> scan.spec_answer(
            objects,
            (probe.hits)(object.id, limit),
        ).outcome(objects, probe) == scan.outcome(objects, probe),
        scan.spec_query(objects) matches Query::Done { rec } ==> scan.outcome(objects, probe).rec
            == rec,
{
    if scan.next < objects.len() {
        let rest = objects.subrange(scan.next as int, objects.len() as int);
        let found = (probe.hits)(objects[scan.next as int].id, scan.nearest.limit);
        let after = scan.spec_answer(objects, found);
        let tail = rest.subrange(1, rest.len() as int);
        assert(rest[0] == objects[scan.next as int]);
        assert(scan.outcome(objects, probe) == scan.nearest.visit(rest[0], probe).scan(tail, probe));
        if after.next < objects.len() {
            assert(tail =~= objects.subrange(after.next as int, objects.len() as int));
        } else {
            assert(tail.len() == 0);
        }
    }
}

/// A scan whose queries are answered as the probe says comes to an end
/// within as many answers as objects are left, and ends with its outcome.
pub proof fn lemma_list_scan_run(scan: ListScan, objects: Seq<Hittable>, probe: Probe, steps: nat)
    requires
        objects.len() <= usize::MAX,
        scan.next + steps >= objects.len(),
    ensures
        scan.run(objects, probe, steps).spec_query(objects) == (Query::Done {
            rec: scan.outcome(objects, probe).rec,
        }),
    decreases steps,
{
    lemma_list_scan_step(scan, objects, probe);
    if steps > 0 && scan.next < objects.len() {
        let found = (probe.hits)(objects[scan.next as int].id, scan.nearest.limit);
        lemma_list_scan_run(scan.spec_answer(objects, found), objects, probe, (steps - 1) as nat);
    }
}

/// A whole scan of a list, every object answering as the probe says, ends
/// with the nearest hit of the list.
pub proof fn lemma_list_scan_finds_hit(objects: Seq<Hittable>, t_max: Scalar, probe: Probe)
    requires
        objects.len() <= usize::MAX,
    ensures
        (ListScan { next: 0, nearest: Nearest { limit: t_max, rec: None } }).run(
            objects,
            probe,
            objects.len(),
        ).spec_query(objects) == (Query::Done {
            rec: (Nearest { limit: t_max, rec: None }).scan(objects, probe).rec,
        }),
{
    let start = ListScan { next: 0, nearest: Nearest { limit: t_max, rec: None } };
    lemma_list_scan_start(objects, t_max, probe);
    lemma_list_scan_run(start, objects, probe, objects.len());
}

impl Default for HittableList {
    fn default() -> (list: Self)
        ensures
            list.objects@.len() == 0,
    {
        Self::new()
    }
}

/// A list with an object that has no box has no box itself.
pub proof fn lemma_list_box_missing(objects: Seq<Hittable>, i: int)
    requires
        0 <= i < objects.len(),
        objects[i].bbox is None,
    ensures
        spec_list_box(objects) is None,
    decreases objects.len(),
{
    if objects.len() > 1 && i < objects.len() - 1 {
        lemma_list_box_missing(objects.drop_last(), i);
    }
}

/// The two solutions of a ray/sphere quadratic, `near` the smaller one, with
/// the discriminant that decides whether they exist.
#[derive(Clone, Copy, Debug)]
pub struct Roots {
    pub discriminant: Scalar,
    pub near: Scalar,
    pub far: Scalar,
}

impl Roots {
    /// Whether `t` lies strictly between the bounds.
    pub open spec fn within(t: Scalar, t_min: Scalar, t_max: Scalar) -> bool {
        t.spec_lt(t_max) && t.spec_gt(t_min)
    }

    /// The hit parameter of a sphere: none unless the discriminant is
    /// positive; the near root when it lies within the bounds, else the far
    /// root when that does.
    pub open spec fn spec_select(self, t_min: Scalar, t_max: Scalar) -> Option<Scalar> {
        if self.discriminant.spec_gt(Scalar { bits: 0 }) {
            if Self::within(self.near, t_min, t_max) {
                Some(self.near)
            } else if Self::within(self.far, t_min, t_max) {
                Some(self.far)
            } else {
                None
            }
        } else {
            None
        }
    }

    /// Decides [`Roots::spec_select`].
    pub fn select(&self, t_min: Scalar, t_max: Scalar) -> (t: Option<Scalar>)
        ensures
            t == self.spec_select(t_min, t_max),
    {
        if self.discriminant.gt(Scalar::zero()) {
            let temp = self.near;
            if temp.lt(t_max) && temp.gt(t_min) {
                return Some(temp);
            }
            let temp = self.far;
            if temp.lt(t_max) && temp.gt(t_min) {
                return Some(temp);
            }
        }
        None
    }
}

/// A sphere.
#[derive(Clone, Copy, Debug)]
pub struct Sphere {
    pub center: Point,
    pub radius: Scalar,
    pub mat_ptr: usize,
}

impl Sphere {
    pub fn new(c: Point, r: Scalar, m: usize) -> (s: Self)
        ensures
            s.center == c,
            s.radius == r,
            s.mat_ptr == m,
    {
        Self { center: c, radius: r, mat_ptr: m }
    }

    /// The parameter at which a ray with these roots hits the sphere within
    /// `(t_min, t_max)`, if it does.
    pub fn hit(&self, roots: &Roots, t_min: Scalar, t_max: Scalar) -> (t: Option<Scalar>)
        ensures
            t == roots.spec_select(t_min, t_max),
    {
        roots.select(t_min, t_max)
    }

    /// The record of a hit on the sphere at parameter `t`: the point `p` of
    /// the ray there, the sphere's material, the surface coordinates
    /// `(u, v)`, and the outward normal turned against the ray by `dot`, the
    /// inner product of the ray's direction with it.
    pub fn record(
        &self,
        t: Scalar,
        p: Point,
        outward_normal: &Vec3,
        dot: Scalar,
        u: Scalar,
        v: Scalar,
    ) -> (rec: HitRecord)
        ensures
            rec == HitRecord::spec_at(t, p, *outward_normal, dot, u, v, self.mat_ptr),
    {
        HitRecord::at(t, p, outward_normal, dot, u, v, self.mat_ptr)
    }
}

/// A sphere whose centre moves in a straight line from `center0` at `time0`
/// to `center1` at `time1`.
#[derive(Clone, Copy, Debug)]
pub struct MovingSphere {
    pub center0: Point,
    pub center1: Point,
    pub time0: Scalar,
    pub time1: Scalar,
    pub radius: Scalar,
    pub mat_ptr: usize,
}

impl MovingSphere {
    pub fn new(cen0: Point, cen1: Point, t0: Scalar, t1: Scalar, r: Scalar, m: usize) -> (s: Self)
        ensures
            s.center0 == cen0,
            s.center1 == cen1,
            s.time0 == t0,
            s.time1 == t1,
            s.radius == r,
            s.mat_ptr == m,
    {
        Self { center0: cen0, center1: cen1, time0: t0, time1: t1, radius: r, mat_ptr: m }
    }

    /// The parameter at which a ray with these roots, taken against the
    /// centre at the ray's time, hits the sphere within `(t_min, t_max)`.
    pub fn hit(&self, roots: &Roots, t_min: Scalar, t_max: Scalar) -> (t: Option<Scalar>)
        ensures
            t == roots.spec_select(t_min, t_max),
    {
        roots.select(t_min, t_max)
    }

    /// The record of a hit on the sphere at parameter `t`: the point `p` of
    /// the ray there, the sphere's material, the surface coordinates
    /// `(u, v)`, and the outward normal turned against the ray by `dot`, the
    /// inner product of the ray's direction with it.
    pub fn record(
        &self,
        t: Scalar,
        p: Point,
        outward_normal: &Vec3,
        dot: Scalar,
        u: Scalar,
        v: Scalar,
    ) -> (rec: HitRecord)
        ensures
            rec == HitRecord::spec_at(t, p, *outward_normal, dot, u, v, self.mat_ptr),
    {
        HitRecord::at(t, p, outward_normal, dot, u, v, self.mat_ptr)
    }

    /// The box swept between two instants, from the boxes at each.
    pub fn bounding_box(&self, box0: &AABB, box1: &AABB) -> (b: Option<AABB>)
        ensures
            b == Some(spec_surrounding_box(*box0, *box1)),
    {
        Some(surrounding_box(box0, box1))
    }
}

impl HitRecord {
    /// The record of a hit on a surface: at parameter `t`, in the point `p`,
    /// with surface coordinates `(u, v)` and material `mat`. The ray came
    /// from outside when `dot`, the inner product of its direction with
    /// `outward_normal`, is below zero; the record's normal is the outward
    /// one then, and its opposite otherwise, so that it always faces the ray.
    pub open spec fn spec_at(
        t: Scalar,
        p: Point,
        outward_normal: Vec3,
        dot: Scalar,
        u: Scalar,
        v: Scalar,
        mat: usize,
    ) -> HitRecord {
        HitRecord {
            p,
            normal: if dot.spec_lt(Scalar { bits: 0 }) {
                outward_normal
            } else {
                outward_normal.spec_neg()
            },
            mat_ptr: mat,
            t,
            u,
            v,
            front_face: dot.spec_lt(Scalar { bits: 0 }),
        }
    }

    /// Builds [`HitRecord::spec_at`].
    pub fn at(
        t: Scalar,
        p: Point,
        outward_normal: &Vec3,
        dot: Scalar,
        u: Scalar,
        v: Scalar,
        mat: usize,
    ) -> (rec: HitRecord)
        ensures
            rec == Self::spec_at(t, p, *outward_normal, dot, u, v, mat),
    {
        let mut rec = HitRecord::new(mat);
        rec.t = t;
        rec.p = p;
        rec.set_face_normal(dot, outward_normal);
        rec.u = u;
        rec.v = v;
        rec
    }
}

/// A hittable moved by an offset.
#[derive(Clone, Copy, Debug)]
pub struct Translate {
    /// The object that is moved, by its index in the scene.
    pub ptr: usize,
    pub offset: Vec3,
}

impl Translate {
    pub fn new(p: usize, displacement: &Vec3) -> (t: Self)
        ensures
            t.ptr == p,
            t.offset == *displacement,
    {
        Self { ptr: p, offset: *displacement }
    }

    /// Turns what the moved ray found on the object into what the ray found
    /// on the translated object: the same hit, with its point shifted back to
    /// `p` and nothing else changed.
    pub fn hit(&self, inner: Option<HitRecord>, p: Point) -> (out: Option<HitRecord>)
        ensures
            out == match inner {
                Some(rec) => Some(HitRecord { p, ..rec }),
                None => None,
            },
    {
        match inner {
            Some(found) => {
                let mut rec = found;
                rec.p = p;
                Some(rec)
            },
            None => None,
        }
    }
}

/// The least box around eight points, starting from the empty box whose
/// minimum is positive and whose maximum is negative infinity.
pub open spec fn spec_corner_box(corners: Seq<Vec3>) -> AABB
    decreases corners.len(),
{
    if corners.len() == 0 {
        AABB {
            _min: Vec3 {
                x: Scalar { bits: crate::scalar::INFINITY_BITS },
                y: Scalar { bits: crate::scalar::INFINITY_BITS },
                z: Scalar { bits: crate::scalar::INFINITY_BITS },
            },
            _max: Vec3 {
                x: (Scalar { bits: crate::scalar::INFINITY_BITS }).spec_neg(),
                y: (Scalar { bits: crate::scalar::INFINITY_BITS }).spec_neg(),
                z: (Scalar { bits: crate::scalar::INFINITY_BITS }).spec_neg(),
            },
        }
    } else {
        let rest = spec_corner_box(corners.drop_last());
        let c = corners.last();
        AABB {
            _min: Vec3 {
                x: rest._min.x.spec_min(c.x),
                y: rest._min.y.spec_min(c.y),
                z: rest._min.z.spec_min(c.z),
            },
            _max: Vec3 {
                x: rest._max.x.spec_max(c.x),
                y: rest._max.y.spec_max(c.y),
                z: rest._max.z.spec_max(c.z),
            },
        }
    }
}

/// A hittable turned about the vertical axis.
#[derive(Clone, Copy, Debug)]
pub struct RotateY {
    /// The object that is turned, by its index in the scene.
    pub ptr: usize,
    pub sin_theta: Scalar,
    pub cos_theta: Scalar,
    pub hasbox: bool,
    pub bbox: AABB,
}

impl RotateY {
    /// The rotation of object `p`. `corners` are the eight corners of the
    /// object's box after the turn; the box of the rotated object is the
    /// least box around them.
    pub fn new(p: usize, sin_theta: Scalar, cos_theta: Scalar, hasbox: bool, corners: &[Vec3; 8]) -> (r:
        Self)
        ensures
            r.ptr == p,
            r.sin_theta == sin_theta,
            r.cos_theta == cos_theta,
            r.hasbox == hasbox,
            r.bbox == spec_corner_box(corners@),
    {
        let mut min = Vec3 { x: Scalar::infinity(), y: Scalar::infinity(), z: Scalar::infinity() };
        let mut max = Vec3 {
            x: Scalar::neg_infinity(),
            y: Scalar::neg_infinity(),
            z: Scalar::neg_infinity(),
        };
        let mut i: usize = 0;
        assert(corners@.subrange(0, 0).len() == 0);
        while i < 8
            invariant
                i <= 8,
                corners@.len() == 8,
                (AABB { _min: min, _max: max }) == spec_corner_box(corners@.subrange(0, i as int)),
            decreases 8 - i,
        {
            let tester = corners[i];
            let ghost upto = corners@.subrange(0, i + 1);
            assert(upto.drop_last() =~= corners@.subrange(0, i as int));
            assert(upto.last() == tester);
            min = Vec3 { x: min.x.min(tester.x), y: min.y.min(tester.y), z: min.z.min(tester.z) };
            max = Vec3 { x: max.x.max(tester.x), y: max.y.max(tester.y), z: max.z.max(tester.z) };
            i += 1;
        }
        assert(corners@.subrange(0, 8) =~= corners@);
        Self { ptr: p, sin_theta, cos_theta, hasbox, bbox: AABB::new(&min, &max) }
    }

    /// Turns what the rotated ray found on the object into what the ray
    /// found on the rotated object: the same hit, with its point and its
    /// normal turned back to `p` and `normal`, and nothing else changed.
    pub fn hit(&self, inner: Option<HitRecord>, p: Point, normal: &Vec3) -> (out: Option<HitRecord>)
        ensures
            out == match inner {
                Some(rec) => Some(HitRecord { p, normal: *normal, ..rec }),
                None => None,
            },
    {
        match inner {
            Some(found) => {
                let mut rec = found;
                rec.p = p;
                rec.normal = *normal;
                Some(rec)
            },
            None => None,
        }
    }

    /// The box of the rotated object, if the object has one.
    pub fn bounding_box(&self) -> (b: Option<AABB>)
        ensures
            b == if self.hasbox {
                Some(self.bbox)
            } else {
                None
            },
    {
        if self.hasbox {
            Some(self.bbox)
        } else {
            None
        }
    }
}

/// A volume of constant density inside a boundary, such as smoke or mist.
#[derive(Clone, Copy, Debug)]
pub struct ConstantMedium {
    /// The object that bounds the volume, by its index in the scene.
    pub boundary: usize,
    /// The material that scatters inside the volume.
    pub phase_function: usize,
    /// Minus the reciprocal of the density.
    pub neg_inv_density: Scalar,
}

impl ConstantMedium {
    /// The part of `[t_min, t_max]` that a ray spends inside the volume,
    /// when it enters the boundary at `enter` and leaves it at `leave`: the
    /// two parameters brought within the bounds, the first raised to zero if
    /// it is negative; none unless the first then lies strictly below the
    /// second.
    pub open spec fn spec_span(enter: Scalar, leave: Scalar, t_min: Scalar, t_max: Scalar) -> Option<
        (Scalar, Scalar),
    > {
        let t1 = if enter.spec_lt(t_min) {
            t_min
        } else {
            enter
        };
        let t2 = if leave.spec_gt(t_max) {
            t_max
        } else {
            leave
        };
        if !t1.spec_lt(t2) {
            None
        } else if t1.spec_lt(Scalar { bits: 0 }) {
            Some((Scalar { bits: 0 }, t2))
        } else {
            Some((t1, t2))
        }
    }

    pub fn new(boundary: usize, phase_function: usize, neg_inv_density: Scalar) -> (m: Self)
        ensures
            m.boundary == boundary,
            m.phase_function == phase_function,
            m.neg_inv_density == neg_inv_density,
    {
        Self { boundary, phase_function, neg_inv_density }
    }

    /// Decides [`ConstantMedium::spec_span`].
    pub fn span(&self, enter: Scalar, leave: Scalar, t_min: Scalar, t_max: Scalar) -> (inside: Option<
        (Scalar, Scalar),
    >)
        ensures
            inside == Self::spec_span(enter, leave, t_min, t_max),
    {
        let mut t1 = enter;
        let mut t2 = leave;
        if t1.lt(t_min) {
            t1 = t_min;
        }
        if t2.gt(t_max) {
            t2 = t_max;
        }
        if !t1.lt(t2) {
            return None;
        }
        if t1.lt(Scalar::zero()) {
            t1 = Scalar::zero();
        }
        Some((t1, t2))
    }

    /// The hit of a ray that would travel `hit_distance` through the medium
    /// before it is scattered, and has `distance_inside_boundary` of it
    /// before it: a hit when the first is at most the second, at parameter
    /// `t` in the point `p`, on the phase function, with an arbitrary normal
    /// taken as facing the ray; none if the ray gets through.
    pub fn hit(
        &self,
        rec: &HitRecord,
        hit_distance: Scalar,
        distance_inside_boundary: Scalar,
        t: Scalar,
        p: Point,
    ) -> (out: Option<HitRecord>)
        ensures
            out == if !hit_distance.spec_le(distance_inside_boundary) {
                None
            } else {
                Some(
                    HitRecord {
                        t,
                        p,
                        normal: Vec3 {
                            x: Scalar { bits: crate::scalar::ONE_BITS },
                            y: Scalar { bits: 0 },
                            z: Scalar { bits: 0 },
                        },
                        front_face: true,
                        mat_ptr: self.phase_function,
                        ..*rec
                    },
                )
            },
    {
        if !hit_distance.le(distance_inside_boundary) {
            return None;
        }
        let mut out = *rec;
        out.t = t;
        out.p = p;
        out.normal = Vec3::new(Scalar::one(), Scalar::zero(), Scalar::zero());
        out.front_face = true;
        out.mat_ptr = self.phase_function;
        Some(out)
    }
}

} // verus!
