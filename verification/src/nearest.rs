//! Why the hierarchy may stand in for the list: both find the same nearest hit.
//!
//! The statement is about objects that answer a ray consistently. Each object
//! has at most one candidate hit on the ray; tested under a limit it reports
//! that candidate when the candidate lies below the limit, and, for objects
//! that accept a hit exactly at the limit, also when it lies on it. The box
//! test must be conservative: a box around an object that reports a hit is
//! crossed by the ray.

use vstd::prelude::*;
use crate::aabb::{lemma_surrounding_box_encloses, AABB};
use crate::bvh::{
    build, lemma_build_covers, lemma_build_well_formed, lemma_contains_concat, all_bounded,
    BVHNode, BvhChild,
};
use crate::hittable::{spec_list_box, HitRecord, Hittable, Nearest, Probe};
use crate::scalar::Scalar;

verus! {

/// The hits that a ray has to offer: for each object, by its index, the
/// candidate record if the ray meets the object above the lower bound, and
/// whether the object accepts a hit that lies exactly on the limit.
pub struct Candidates {
    pub found: spec_fn(usize) -> Option<HitRecord>,
    pub inclusive: spec_fn(usize) -> bool,
}

impl Candidates {
    /// Whether object `id` reports its candidate when tested up to `limit`.
    pub open spec fn accepts(self, id: usize, limit: Scalar) -> bool {
        (self.found)(id) matches Some(h) && (h.t.spec_lt(limit) || ((self.inclusive)(id)
            && h.t.spec_ieee_eq(limit)))
    }

    /// What object `id` reports when tested up to `limit`.
    pub open spec fn report(self, id: usize, limit: Scalar) -> Option<HitRecord> {
        if self.accepts(id, limit) {
            (self.found)(id)
        } else {
            None
        }
    }

    /// No candidate of `objects` lies at a NaN.
    pub open spec fn are_numbers(self, objects: Seq<Hittable>) -> bool {
        forall|o: Hittable|
            objects.contains(o) ==> ((self.found)(o.id) matches Some(h) ==> !h.t.is_nan())
    }

    /// No two different candidates of `objects` lie at the same parameter.
    pub open spec fn are_distinct(self, objects: Seq<Hittable>) -> bool {
        forall|a: Hittable, b: Hittable|
            objects.contains(a) && objects.contains(b) ==> ((self.found)(a.id) matches Some(h)
                ==> ((self.found)(b.id) matches Some(g) ==> (h.t.spec_ieee_eq(g.t) ==> h == g)))
    }
}

/// The probe answers for every object of `objects`, under every limit that is
/// a number, as the candidates say.
pub open spec fn probe_follows(probe: Probe, candidates: Candidates, objects: Seq<Hittable>) -> bool {
    forall|o: Hittable, limit: Scalar|
        objects.contains(o) && !limit.is_nan() ==> #[trigger] (probe.hits)(o.id, limit)
            == candidates.report(o.id, limit)
}

/// Whenever an object of `objects` reports a hit under a limit, the ray
/// crosses, under the same limit, every box that encloses the object's box.
pub open spec fn boxes_are_conservative(probe: Probe, objects: Seq<Hittable>, t_min: Scalar) -> bool {
    forall|o: Hittable, e: AABB, limit: Scalar|
        objects.contains(o) && o.bbox is Some && e.encloses(o.bbox->0) && (#[trigger] (probe.hits)(
            o.id,
            limit,
        )) is Some ==> AABB::spec_hit(#[trigger] (probe.slabs)(e), t_min, limit)
}

/// Every object of `s` has an ordered box over the shutter interval.
pub open spec fn all_ordered(s: Seq<Hittable>) -> bool {
    forall|i: int| 0 <= i < s.len() ==> (#[trigger] s[i]).bbox is Some && s[i].bbox->0.is_ordered()
}

/// `acc` is what any search that started at `t_max` holds once it has dealt
/// with the objects in `seen`: the limit is the least parameter among
/// `t_max` and their candidates, and a record is held exactly when one of
/// them reports a hit under `t_max`.
pub open spec fn settled(acc: Nearest, seen: Set<Hittable>, c: Candidates, t_max: Scalar) -> bool {
    &&& !acc.limit.is_nan()
    &&& acc.limit.key() <= t_max.key()
    &&& forall|o: Hittable|
        seen.contains(o) ==> ((c.found)(o.id) matches Some(h) ==> acc.limit.key() <= h.t.key())
    &&& acc.rec is Some <==> exists|o: Hittable| seen.contains(o) && c.accepts(o.id, t_max)
    &&& acc.rec matches Some(h) ==> h.t == acc.limit && exists|o: Hittable|
        seen.contains(o) && (c.found)(o.id) == Some(h)
    &&& acc.rec is None ==> acc.limit == t_max
}

/// Testing one more object keeps the search settled.
pub proof fn lemma_visit_settles(
    acc: Nearest,
    seen: Set<Hittable>,
    o: Hittable,
    objects: Seq<Hittable>,
    probe: Probe,
    c: Candidates,
    t_max: Scalar,
)
    requires
        settled(acc, seen, c, t_max),
        objects.contains(o),
        probe_follows(probe, c, objects),
        c.are_numbers(objects),
    ensures
        settled(acc.visit(o, probe), seen.insert(o), c, t_max),
{
    let after = acc.visit(o, probe);
    let wider = seen.insert(o);
    assert((probe.hits)(o.id, acc.limit) == c.report(o.id, acc.limit));
    if c.accepts(o.id, acc.limit) {
        let h = (c.found)(o.id)->0;
        assert(after.rec == Some(h));
        assert(wider.contains(o) && (c.found)(o.id) == Some(h));
        if acc.rec is None {
            assert(c.accepts(o.id, t_max));
        } else {
            let w = choose|w: Hittable| seen.contains(w) && c.accepts(w.id, t_max);
            assert(wider.contains(w));
        }
    } else {
        assert(after == acc);
        if acc.rec is Some {
            let w = choose|w: Hittable| seen.contains(w) && c.accepts(w.id, t_max);
            assert(wider.contains(w));
            let h = acc.rec->0;
            let v = choose|v: Hittable| seen.contains(v) && (c.found)(v.id) == Some(h);
            assert(wider.contains(v));
        } else {
            assert forall|w: Hittable| wider.contains(w) implies !c.accepts(w.id, t_max) by {
                if w != o {
                    assert(seen.contains(w));
                }
            }
        }
    }
}

/// Passing over objects that would not report under the current limit keeps
/// the search settled.
pub proof fn lemma_skip_settles(
    acc: Nearest,
    seen: Set<Hittable>,
    skipped: Seq<Hittable>,
    objects: Seq<Hittable>,
    probe: Probe,
    c: Candidates,
    t_max: Scalar,
)
    requires
        settled(acc, seen, c, t_max),
        forall|o: Hittable| skipped.contains(o) ==> objects.contains(o),
        forall|o: Hittable| skipped.contains(o) ==> (probe.hits)(o.id, acc.limit) is None,
        probe_follows(probe, c, objects),
        c.are_numbers(objects),
    ensures
        settled(acc, seen.union(skipped.to_set()), c, t_max),
{
    let wider = seen.union(skipped.to_set());
    assert forall|o: Hittable| skipped.contains(o) implies !c.accepts(o.id, acc.limit) by {
        assert((probe.hits)(o.id, acc.limit) == c.report(o.id, acc.limit));
    }
    assert forall|o: Hittable| wider.contains(o) implies ((c.found)(o.id) matches Some(h)
        ==> acc.limit.key() <= h.t.key()) by {
        if !seen.contains(o) {
            assert(skipped.contains(o));
            assert(objects.contains(o));
        }
    }
    if acc.rec is Some {
        let w = choose|w: Hittable| seen.contains(w) && c.accepts(w.id, t_max);
        assert(wider.contains(w));
        let h = acc.rec->0;
        let v = choose|v: Hittable| seen.contains(v) && (c.found)(v.id) == Some(h);
        assert(wider.contains(v));
    } else {
        assert forall|w: Hittable| wider.contains(w) implies !c.accepts(w.id, t_max) by {
            if !seen.contains(w) {
                assert(skipped.contains(w));
            }
        }
    }
}

/// A linear scan keeps the search settled, having dealt with every object it
/// passed.
pub proof fn lemma_scan_settles(
    acc: Nearest,
    seen: Set<Hittable>,
    rest: Seq<Hittable>,
    objects: Seq<Hittable>,
    probe: Probe,
    c: Candidates,
    t_max: Scalar,
)
    requires
        settled(acc, seen, c, t_max),
        forall|o: Hittable| rest.contains(o) ==> objects.contains(o),
        probe_follows(probe, c, objects),
        c.are_numbers(objects),
    ensures
        settled(acc.scan(rest, probe), seen.union(rest.to_set()), c, t_max),
    decreases rest.len(),
{
    if rest.len() == 0 {
        assert(seen.union(rest.to_set()) =~= seen);
    } else {
        let tail = rest.subrange(1, rest.len() as int);
        assert(rest.contains(rest[0]));
        lemma_visit_settles(acc, seen, rest[0], objects, probe, c, t_max);
        assert forall|o: Hittable| tail.contains(o) implies objects.contains(o) by {
            let i = choose|i: int| 0 <= i < tail.len() && tail[i] == o;
            assert(rest[i + 1] == o);
        }
        lemma_scan_settles(acc.visit(rest[0], probe), seen.insert(rest[0]), tail, objects, probe, c, t_max);
        assert(seen.insert(rest[0]).union(tail.to_set()) =~= seen.union(rest.to_set())) by {
            assert forall|o: Hittable| rest.contains(o) <==> o == rest[0] || tail.contains(o) by {
                if rest.contains(o) {
                    let i = choose|i: int| 0 <= i < rest.len() && rest[i] == o;
                    if i > 0 {
                        assert(tail[i - 1] == o);
                    }
                }
                if tail.contains(o) {
                    let i = choose|i: int| 0 <= i < tail.len() && tail[i] == o;
                    assert(rest[i + 1] == o);
                }
            }
        }
    }
}

/// A linear scan ends with the nearest hit, not merely the first found: it
/// holds a record exactly when some object reports a hit below the bound it
/// started with, and then no object's candidate lies nearer than the record.
pub proof fn lemma_scan_finds_nearest(
    objects: Seq<Hittable>,
    t_max: Scalar,
    probe: Probe,
    c: Candidates,
)
    requires
        !t_max.is_nan(),
        probe_follows(probe, c, objects),
        c.are_numbers(objects),
    ensures
        (Nearest { limit: t_max, rec: None }).scan(objects, probe).rec is Some <==> exists|
            o: Hittable,
        |
            objects.contains(o) && c.accepts(o.id, t_max),
        (Nearest { limit: t_max, rec: None }).scan(objects, probe).rec matches Some(h) ==> {
            &&& h.t.spec_le(t_max)
            &&& exists|o: Hittable| objects.contains(o) && (c.found)(o.id) == Some(h)
            &&& forall|o: Hittable|
                objects.contains(o) ==> ((c.found)(o.id) matches Some(g) ==> h.t.spec_le(g.t))
        },
{
    let start = Nearest { limit: t_max, rec: None };
    let none = Set::<Hittable>::empty();
    assert(settled(start, none, c, t_max));
    lemma_scan_settles(start, none, objects, objects, probe, c, t_max);
    let all = none.union(objects.to_set());
    let end = start.scan(objects, probe);
    assert forall|o: Hittable| all.contains(o) <==> objects.contains(o) by {}
    if end.rec is Some {
        let w = choose|w: Hittable| all.contains(w) && c.accepts(w.id, t_max);
        assert(objects.contains(w));
        let h = end.rec->0;
        let v = choose|v: Hittable| all.contains(v) && (c.found)(v.id) == Some(h);
        assert(objects.contains(v));
        assert forall|o: Hittable| objects.contains(o) implies ((c.found)(o.id) matches Some(g)
            ==> h.t.spec_le(g.t)) by {
            assert(all.contains(o));
        }
    } else {
        assert forall|o: Hittable| objects.contains(o) implies !c.accepts(o.id, t_max) by {
            assert(all.contains(o));
        }
    }
}

/// Where all objects of a concatenation have ordered boxes, so have the
/// objects of either part.
pub proof fn lemma_parts_are_ordered(a: Seq<Hittable>, b: Seq<Hittable>)
    requires
        all_ordered(a + b),
    ensures
        all_ordered(a),
        all_ordered(b),
{
    assert forall|i: int| 0 <= i < a.len() implies (#[trigger] a[i]).bbox is Some
        && a[i].bbox->0.is_ordered() by {
        assert((a + b)[i] == a[i]);
    }
    assert forall|i: int| 0 <= i < b.len() implies (#[trigger] b[i]).bbox is Some
        && b[i].bbox->0.is_ordered() by {
        assert((a + b)[i + a.len()] == b[i]);
    }
}

/// In a well-formed hierarchy over ordered boxes, the box of a child is
/// ordered and encloses the box of every object below it.
pub proof fn lemma_bounds_enclose_leaves(child: BvhChild)
    requires
        child.well_formed(),
        all_ordered(child.leaves()),
    ensures
        child.bounds() is Some,
        child.bounds()->0.is_ordered(),
        forall|o: Hittable| child.leaves().contains(o) ==> child.bounds()->0.encloses(o.bbox->0),
    decreases child,
{
    match child {
        BvhChild::Object(h) => {
            assert(child.leaves()[0] == h);
            assert forall|a: int| 0 <= a < 3 implies (#[trigger] h.bbox->0._min.axis(a)).spec_le(
                h.bbox->0._min.axis(a),
            ) && h.bbox->0._max.axis(a).spec_le(h.bbox->0._max.axis(a)) by {
                assert(h.bbox->0._min.axis(a).spec_le(h.bbox->0._max.axis(a)));
            }
        },
        BvhChild::Node(n) => {
            let ll = n.left.leaves();
            let rl = n.right.leaves();
            assert(child.leaves() == ll + rl);
            lemma_parts_are_ordered(ll, rl);
            lemma_bounds_enclose_leaves(n.left);
            lemma_bounds_enclose_leaves(n.right);
            let lb = n.left.bounds()->0;
            let rb = n.right.bounds()->0;
            lemma_surrounding_box_encloses(lb, rb);
            assert forall|o: Hittable| child.leaves().contains(o) implies n._box.encloses(
                o.bbox->0,
            ) by {
                lemma_contains_concat(ll, rl, o);
                let inner = if ll.contains(o) {
                    lb
                } else {
                    rb
                };
                assert(inner.encloses(o.bbox->0));
                assert(n._box.encloses(inner));
                assert forall|a: int| 0 <= a < 3 implies (#[trigger] n._box._min.axis(a)).spec_le(
                    o.bbox->0._min.axis(a),
                ) && o.bbox->0._max.axis(a).spec_le(n._box._max.axis(a)) by {
                    assert(n._box._min.axis(a).spec_le(inner._min.axis(a)));
                    assert(inner._min.axis(a).spec_le(o.bbox->0._min.axis(a)));
                }
            }
        },
    }
}

/// Traversing a child of a well-formed hierarchy keeps the search settled,
/// having dealt with every object below the child.
pub proof fn lemma_traverse_settles(
    child: BvhChild,
    acc: Nearest,
    seen: Set<Hittable>,
    objects: Seq<Hittable>,
    t_min: Scalar,
    probe: Probe,
    c: Candidates,
    t_max: Scalar,
)
    requires
        settled(acc, seen, c, t_max),
        child.well_formed(),
        all_ordered(child.leaves()),
        forall|o: Hittable| child.leaves().contains(o) ==> objects.contains(o),
        probe_follows(probe, c, objects),
        c.are_numbers(objects),
        boxes_are_conservative(probe, objects, t_min),
    ensures
        settled(child.visit(acc, t_min, probe), seen.union(child.leaves().to_set()), c, t_max),
    decreases child,
{
    match child {
        BvhChild::Object(h) => {
            assert(child.leaves()[0] == h);
            assert(child.leaves().contains(h));
            lemma_visit_settles(acc, seen, h, objects, probe, c, t_max);
            assert(seen.insert(h) =~= seen.union(child.leaves().to_set())) by {
                assert forall|o: Hittable| child.leaves().contains(o) <==> o == h by {
                    if child.leaves().contains(o) {
                        let i = choose|i: int| 0 <= i < child.leaves().len() && child.leaves()[i] == o;
                    }
                }
            }
        },
        BvhChild::Node(n) => {
            let ll = n.left.leaves();
            let rl = n.right.leaves();
            assert(child.leaves() == ll + rl);
            if AABB::spec_hit((probe.slabs)(n._box), t_min, acc.limit) {
                lemma_parts_are_ordered(ll, rl);
                assert forall|o: Hittable| ll.contains(o) implies objects.contains(o) by {
                    lemma_contains_concat(ll, rl, o);
                }
                assert forall|o: Hittable| rl.contains(o) implies objects.contains(o) by {
                    lemma_contains_concat(ll, rl, o);
                }
                lemma_traverse_settles(n.left, acc, seen, objects, t_min, probe, c, t_max);
                let mid = n.left.visit(acc, t_min, probe);
                lemma_traverse_settles(
                    n.right,
                    mid,
                    seen.union(ll.to_set()),
                    objects,
                    t_min,
                    probe,
                    c,
                    t_max,
                );
                assert(seen.union(ll.to_set()).union(rl.to_set()) =~= seen.union(
                    (ll + rl).to_set(),
                )) by {
                    assert forall|o: Hittable| (ll + rl).contains(o) <==> ll.contains(o)
                        || rl.contains(o) by {
                        lemma_contains_concat(ll, rl, o);
                    }
                }
            } else {
                lemma_bounds_enclose_leaves(child);
                assert forall|o: Hittable| child.leaves().contains(o) implies (probe.hits)(
                    o.id,
                    acc.limit,
                ) is None by {
                    let i = choose|i: int| 0 <= i < child.leaves().len() && child.leaves()[i] == o;
                    assert(o.bbox is Some);
                    assert(n._box.encloses(o.bbox->0));
                    if (probe.hits)(o.id, acc.limit) is Some {
                        assert(AABB::spec_hit((probe.slabs)(n._box), t_min, acc.limit));
                    }
                }
                lemma_skip_settles(acc, seen, child.leaves(), objects, probe, c, t_max);
            }
        },
    }
}

/// Two settled searches over the same objects agree: both hold a record or
/// neither does, the records lie at the same parameter, and they are the
/// same record when no two candidates tie.
pub proof fn lemma_settled_agree(
    a: Nearest,
    b: Nearest,
    seen: Set<Hittable>,
    objects: Seq<Hittable>,
    c: Candidates,
    t_max: Scalar,
)
    requires
        settled(a, seen, c, t_max),
        settled(b, seen, c, t_max),
        forall|o: Hittable| seen.contains(o) ==> objects.contains(o),
        c.are_numbers(objects),
    ensures
        a.rec is Some <==> b.rec is Some,
        a.rec matches Some(h) ==> (b.rec matches Some(g) ==> h.t.spec_ieee_eq(g.t)),
        c.are_distinct(objects) ==> a.rec == b.rec,
{
    if a.rec is Some {
        let h = a.rec->0;
        let g = b.rec->0;
        let v = choose|v: Hittable| seen.contains(v) && (c.found)(v.id) == Some(h);
        let w = choose|w: Hittable| seen.contains(w) && (c.found)(w.id) == Some(g);
        assert(b.limit.key() <= h.t.key());
        assert(a.limit.key() <= g.t.key());
        assert(objects.contains(v) && objects.contains(w));
        assert(h.t.spec_ieee_eq(g.t));
    }
}

/// A ray finds the same nearest hit in a hierarchy as in a linear scan of
/// its objects: for every well-formed hierarchy whose leaves are the objects
/// of the list, for objects that answer consistently and boxes that are
/// conservative. Both searches hit or both miss, the hits lie at the same
/// parameter, and they are the same record, material included, when no two
/// candidates tie.
pub proof fn lemma_hierarchy_agrees_with_list(
    root: BVHNode,
    objects: Seq<Hittable>,
    t_min: Scalar,
    t_max: Scalar,
    probe: Probe,
    c: Candidates,
)
    requires
        root.well_formed(),
        forall|h: Hittable| root.leaves().contains(h) <==> objects.contains(h),
        all_ordered(objects),
        !t_max.is_nan(),
        probe_follows(probe, c, objects),
        c.are_numbers(objects),
        boxes_are_conservative(probe, objects, t_min),
    ensures
        root.spec_hit(t_min, t_max, probe) is Some <==> (Nearest { limit: t_max, rec: None }).scan(
            objects,
            probe,
        ).rec is Some,
        root.spec_hit(t_min, t_max, probe) matches Some(h) ==> ((Nearest {
            limit: t_max,
            rec: None,
        }).scan(objects, probe).rec matches Some(g) ==> h.t.spec_ieee_eq(g.t)),
        c.are_distinct(objects) ==> root.spec_hit(t_min, t_max, probe) == (Nearest {
            limit: t_max,
            rec: None,
        }).scan(objects, probe).rec,
{
    let start = Nearest { limit: t_max, rec: None };
    let none = Set::<Hittable>::empty();
    assert(settled(start, none, c, t_max));
    let child = BvhChild::Node(Box::new(root));
    assert(child.leaves() == root.leaves());
    assert forall|i: int| 0 <= i < root.leaves().len() implies (#[trigger] root.leaves()[i]).bbox is Some
        && root.leaves()[i].bbox->0.is_ordered() by {
        let o = root.leaves()[i];
        assert(root.leaves().contains(o));
        assert(objects.contains(o));
        let j = choose|j: int| 0 <= j < objects.len() && objects[j] == o;
        assert(objects[j].bbox is Some);
    }
    lemma_traverse_settles(child, start, none, objects, t_min, probe, c, t_max);
    lemma_scan_settles(start, none, objects, objects, probe, c, t_max);
    let all = none.union(objects.to_set());
    assert(none.union(root.leaves().to_set()) =~= all);
    assert(child.visit(start, t_min, probe) == root.visit(start, t_min, probe));
    lemma_settled_agree(
        root.visit(start, t_min, probe),
        start.scan(objects, probe),
        all,
        objects,
        c,
        t_max,
    );
}

/// The hierarchy built over a list finds what a linear scan of the list
/// finds, whatever axes were drawn.
pub proof fn lemma_built_hierarchy_agrees_with_list(
    objects: Seq<Hittable>,
    state: u64,
    t_min: Scalar,
    t_max: Scalar,
    probe: Probe,
    c: Candidates,
)
    requires
        objects.len() >= 1,
        all_ordered(objects),
        !t_max.is_nan(),
        probe_follows(probe, c, objects),
        c.are_numbers(objects),
        boxes_are_conservative(probe, objects, t_min),
    ensures
        build(objects, state).node.spec_hit(t_min, t_max, probe) is Some <==> (Nearest {
            limit: t_max,
            rec: None,
        }).scan(objects, probe).rec is Some,
        build(objects, state).node.spec_hit(t_min, t_max, probe) matches Some(h) ==> ((Nearest {
            limit: t_max,
            rec: None,
        }).scan(objects, probe).rec matches Some(g) ==> h.t.spec_ieee_eq(g.t)),
        c.are_distinct(objects) ==> build(objects, state).node.spec_hit(t_min, t_max, probe)
            == (Nearest { limit: t_max, rec: None }).scan(objects, probe).rec,
{
    assert(all_bounded(objects));
    lemma_build_well_formed(objects, state);
    lemma_build_covers(objects, state);
    lemma_hierarchy_agrees_with_list(build(objects, state).node, objects, t_min, t_max, probe, c);
}

/// The box of a list of objects with ordered boxes is ordered and encloses
/// the box of every object of the list.
pub proof fn lemma_list_box_encloses(objects: Seq<Hittable>)
    requires
        objects.len() >= 1,
        all_ordered(objects),
    ensures
        spec_list_box(objects) is Some,
        spec_list_box(objects)->0.is_ordered(),
        forall|i: int|
            0 <= i < objects.len() ==> spec_list_box(objects)->0.encloses(
                (#[trigger] objects[i]).bbox->0,
            ),
    decreases objects.len(),
{
    let whole = spec_list_box(objects)->0;
    if objects.len() == 1 {
        let b = objects[0].bbox->0;
        assert forall|a: int| 0 <= a < 3 implies (#[trigger] b._min.axis(a)).spec_le(b._min.axis(a))
            && b._max.axis(a).spec_le(b._max.axis(a)) by {
            assert(b._min.axis(a).spec_le(b._max.axis(a)));
        }
    } else {
        let rest = objects.drop_last();
        assert forall|i: int| 0 <= i < rest.len() implies (#[trigger] rest[i]).bbox is Some
            && rest[i].bbox->0.is_ordered() by {
            assert(rest[i] == objects[i]);
        }
        lemma_list_box_encloses(rest);
        let before = spec_list_box(rest)->0;
        let last = objects.last().bbox->0;
        lemma_surrounding_box_encloses(before, last);
        assert forall|i: int| 0 <= i < objects.len() implies whole.encloses(
            (#[trigger] objects[i]).bbox->0,
        ) by {
            if i < rest.len() {
                let inner = rest[i].bbox->0;
                assert(rest[i] == objects[i]);
                assert(before.encloses(inner));
                assert forall|a: int| 0 <= a < 3 implies (#[trigger] whole._min.axis(a)).spec_le(
                    inner._min.axis(a),
                ) && inner._max.axis(a).spec_le(whole._max.axis(a)) by {
                    assert(whole._min.axis(a).spec_le(before._min.axis(a)));
                    assert(before._min.axis(a).spec_le(inner._min.axis(a)));
                }
            }
        }
    }
}

} // verus!
