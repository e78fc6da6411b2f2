//! The bounding-volume hierarchy: construction and traversal.

use vstd::prelude::*;
use crate::aabb::{surrounding_box, spec_surrounding_box, AABB};
use crate::hittable::{Answer, HitRecord, Hittable, HittableList, Nearest, Probe, Query};
use crate::scalar::Scalar;
use crate::order::{
    all_sortable, comes_after, is_after, keys_are_numbers, lemma_stable_sort_is_sorted,
    lemma_stable_sort_permutes, lemma_stable_sort_same_objects, sort_key, sort_range,
    stable_sort,
};
use crate::rng::{spec_advance, spec_random_int, Rng};

verus! {

/// What hangs below a node: a scene object, or another node.
#[derive(Debug)]
pub enum BvhChild {
    Object(Hittable),
    Node(Box<BVHNode>),
}

/// A node of the hierarchy: two children and the box around both.
#[derive(Debug)]
pub struct BVHNode {
    pub left: BvhChild,
    pub right: BvhChild,
    pub _box: AABB,
}

impl BvhChild {
    /// The box of the child: an object's own, a node's cached one.
    pub open spec fn bounds(self) -> Option<AABB> {
        match self {
            BvhChild::Object(h) => h.bbox,
            BvhChild::Node(n) => Some(n._box),
        }
    }

    /// The objects below the child, from left to right.
    pub open spec fn leaves(self) -> Seq<Hittable>
        decreases self,
    {
        match self {
            BvhChild::Object(h) => seq![h],
            BvhChild::Node(n) => n.leaves(),
        }
    }

    /// Every node below caches the union of its children's boxes.
    pub open spec fn well_formed(self) -> bool
        decreases self,
    {
        match self {
            BvhChild::Object(h) => h.bbox is Some,
            BvhChild::Node(n) => n.well_formed(),
        }
    }
}

impl BVHNode {
    /// The objects below the node, from left to right. An object that is both
    /// children of a node occurs twice.
    pub open spec fn leaves(self) -> Seq<Hittable>
        decreases self,
    {
        self.left.leaves() + self.right.leaves()
    }

    /// Both children have boxes, the node caches their union, and the same
    /// holds below.
    pub open spec fn well_formed(self) -> bool
        decreases self,
    {
        &&& self.left.well_formed()
        &&& self.right.well_formed()
        &&& self.left.bounds() is Some
        &&& self.right.bounds() is Some
        &&& self._box == spec_surrounding_box(self.left.bounds()->0, self.right.bounds()->0)
    }

    /// The box around the whole subtree.
    pub fn bounding_box(&self) -> (b: Option<AABB>)
        ensures
            b == Some(self._box),
    {
        Some(self._box)
    }
}

/// Every object of `s` has a box over the shutter interval.
pub open spec fn all_bounded(s: Seq<Hittable>) -> bool {
    forall|i: int| 0 <= i < s.len() ==> (#[trigger] s[i]).bbox is Some
}

/// The node over two objects.
pub open spec fn leaf_pair(a: Hittable, b: Hittable) -> BVHNode {
    BVHNode {
        left: BvhChild::Object(a),
        right: BvhChild::Object(b),
        _box: spec_surrounding_box(a.bbox->0, b.bbox->0),
    }
}

/// The node over two subtrees.
pub open spec fn join(l: BVHNode, r: BVHNode) -> BVHNode {
    BVHNode {
        left: BvhChild::Node(Box::new(l)),
        right: BvhChild::Node(Box::new(r)),
        _box: spec_surrounding_box(l._box, r._box),
    }
}

/// The split axis that a generator in `state` draws.
pub open spec fn spec_axis(state: u64) -> usize {
    spec_random_int(state, 0, 2) as usize
}

/// What construction yields: the node, the objects in the order construction
/// left them in, and the generator's state afterwards.
pub struct Built {
    pub node: BVHNode,
    pub objects: Seq<Hittable>,
    pub state: u64,
}

/// The hierarchy over `objects`, with split axes drawn from a generator in
/// `state`.
///
/// One object becomes both children of its node. Two objects become left and
/// right in key order, the first staying left when neither has to come after
/// the other. More are sorted by key, stably, and split in the middle.
pub open spec fn build(objects: Seq<Hittable>, state: u64) -> Built
    decreases objects.len(),
{
    let axis = spec_axis(state);
    let drawn = spec_advance(state);
    if objects.len() <= 1 {
        Built { node: leaf_pair(objects[0], objects[0]), objects, state: drawn }
    } else if objects.len() == 2 {
        if comes_after(objects[0], objects[1], axis) {
            Built { node: leaf_pair(objects[1], objects[0]), objects, state: drawn }
        } else {
            Built { node: leaf_pair(objects[0], objects[1]), objects, state: drawn }
        }
    } else {
        proof {
            lemma_stable_sort_permutes(objects, axis);
        }
        let sorted = stable_sort(objects, axis);
        let mid = objects.len() as int / 2;
        let l = build(sorted.subrange(0, mid), drawn);
        let r = build(sorted.subrange(mid, objects.len() as int), l.state);
        Built { node: join(l.node, r.node), objects: l.objects + r.objects, state: r.state }
    }
}

/// Construction rearranges the objects it is given and keeps their number.
pub proof fn lemma_build_permutes(objects: Seq<Hittable>, state: u64)
    requires
        objects.len() >= 1,
    ensures
        build(objects, state).objects.len() == objects.len(),
        build(objects, state).objects.to_multiset() == objects.to_multiset(),
    decreases objects.len(),
{
    if objects.len() >= 3 {
        let axis = spec_axis(state);
        let sorted = stable_sort(objects, axis);
        let mid = objects.len() as int / 2;
        lemma_stable_sort_permutes(objects, axis);
        let l = build(sorted.subrange(0, mid), spec_advance(state));
        let r = build(sorted.subrange(mid, objects.len() as int), l.state);
        lemma_build_permutes(sorted.subrange(0, mid), spec_advance(state));
        lemma_build_permutes(sorted.subrange(mid, objects.len() as int), l.state);
        vstd::seq_lib::lemma_multiset_commutative(l.objects, r.objects);
        vstd::seq_lib::lemma_multiset_commutative(
            sorted.subrange(0, mid),
            sorted.subrange(mid, objects.len() as int),
        );
        assert(sorted.subrange(0, mid) + sorted.subrange(mid, objects.len() as int) =~= sorted);
    }
}

/// Builds the hierarchy over `objects[start..end]`, rearranging that range in
/// place and drawing one split axis per node from `rng`.
pub fn new_from_list(objects: &mut Vec<Hittable>, start: usize, end: usize, rng: &mut Rng) -> (node:
    BVHNode)
    requires
        start < end <= old(objects)@.len(),
        all_bounded(old(objects)@.subrange(start as int, end as int)),
        end - start >= 2 ==> all_sortable(old(objects)@.subrange(start as int, end as int)),
    ensures
        node == build(old(objects)@.subrange(start as int, end as int), old(rng).state).node,
        final(objects)@.subrange(start as int, end as int) == build(
            old(objects)@.subrange(start as int, end as int),
            old(rng).state,
        ).objects,
        final(rng).state == build(
            old(objects)@.subrange(start as int, end as int),
            old(rng).state,
        ).state,
        final(objects)@.len() == old(objects)@.len(),
        final(objects)@.subrange(0, start as int) == old(objects)@.subrange(0, start as int),
        final(objects)@.subrange(end as int, old(objects)@.len() as int) == old(objects)@.subrange(
            end as int,
            old(objects)@.len() as int,
        ),
    decreases end - start,
{
    let ghost before = objects@;
    let ghost given = objects@.subrange(start as int, end as int);
    let ghost seed = rng.state;
    let axis = rng.random_int(0, 2) as usize;
    let object_span = end - start;
    assert(given[0] == before[start as int]);
    if object_span == 1 {
        let only = objects[start];
        let bounds = only.bbox.unwrap();
        BVHNode {
            left: BvhChild::Object(only),
            right: BvhChild::Object(only),
            _box: surrounding_box(&bounds, &bounds),
        }
    } else if object_span == 2 {
        let first = objects[start];
        let second = objects[start + 1];
        assert(given[1] == before[start + 1]);
        let box_first = first.bbox.unwrap();
        let box_second = second.bbox.unwrap();
        if is_after(&first, &second, axis) {
            BVHNode {
                left: BvhChild::Object(second),
                right: BvhChild::Object(first),
                _box: surrounding_box(&box_second, &box_first),
            }
        } else {
            BVHNode {
                left: BvhChild::Object(first),
                right: BvhChild::Object(second),
                _box: surrounding_box(&box_first, &box_second),
            }
        }
    } else {
        sort_range(objects, start, end, axis);
        let mid = start + object_span / 2;
        let ghost sorted = objects@.subrange(start as int, end as int);
        let ghost half = (object_span / 2) as int;
        proof {
            lemma_stable_sort_permutes(given, axis);
            lemma_stable_sort_same_objects(given, axis);
            assert forall|i: int| 0 <= i < sorted.len() implies (#[trigger] sorted[i]).bbox is Some
                && sorted[i].sort_box is Some by {
                assert(sorted.contains(sorted[i]));
                assert(given.contains(sorted[i]));
            }
            assert(objects@.subrange(start as int, mid as int) =~= sorted.subrange(0, half));
            assert(objects@.subrange(mid as int, end as int) =~= sorted.subrange(
                half,
                object_span as int,
            ));
        }
        let ghost sorted_all = objects@;
        let left = new_from_list(objects, start, mid, rng);
        let ghost after_left = objects@;
        proof {
            assert(objects@.subrange(mid as int, end as int) =~= sorted_all.subrange(
                mid as int,
                end as int,
            )) by {
                assert forall|k: int| mid <= k < end implies objects@[k] == sorted_all[k] by {
                    assert(objects@[k] == objects@.subrange(mid as int, before.len() as int)[k
                        - mid]);
                    assert(sorted_all[k] == sorted_all.subrange(mid as int, before.len() as int)[k
                        - mid]);
                }
            }
        }
        let right = new_from_list(objects, mid, end, rng);
        proof {
            let l = build(sorted.subrange(0, half), spec_advance(seed));
            let r = build(sorted.subrange(half, object_span as int), l.state);
            assert(objects@.subrange(start as int, mid as int) =~= l.objects) by {
                assert forall|k: int| start <= k < mid implies objects@[k] == after_left[k] by {
                    assert(objects@[k] == objects@.subrange(0, mid as int)[k]);
                    assert(after_left[k] == after_left.subrange(0, mid as int)[k]);
                }
            }
            lemma_build_permutes(sorted.subrange(0, half), spec_advance(seed));
            lemma_build_permutes(sorted.subrange(half, object_span as int), l.state);
            assert(objects@.subrange(start as int, end as int) =~= l.objects + r.objects);
            assert(objects@.subrange(0, start as int) =~= before.subrange(0, start as int)) by {
                assert forall|k: int| 0 <= k < start implies objects@[k] == before[k] by {
                    assert(objects@[k] == objects@.subrange(0, mid as int)[k]);
                    assert(after_left[k] == after_left.subrange(0, mid as int)[k]);
                    assert(after_left[k] == after_left.subrange(0, start as int)[k]);
                    assert(sorted_all[k] == sorted_all.subrange(0, start as int)[k]);
                    assert(before[k] == before.subrange(0, start as int)[k]);
                }
            }
            assert(objects@.subrange(end as int, before.len() as int) =~= before.subrange(
                end as int,
                before.len() as int,
            )) by {
                assert forall|k: int| end <= k < before.len() implies objects@[k] == before[k] by {
                    assert(objects@[k] == objects@.subrange(end as int, before.len() as int)[k
                        - end]);
                    assert(after_left[k] == after_left.subrange(end as int, before.len() as int)[k
                        - end]);
                    assert(after_left[k] == after_left.subrange(mid as int, before.len() as int)[k
                        - mid]);
                    assert(sorted_all[k] == sorted_all.subrange(mid as int, before.len() as int)[k
                        - mid]);
                    assert(sorted_all[k] == sorted_all.subrange(end as int, before.len() as int)[k
                        - end]);
                    assert(before[k] == before.subrange(end as int, before.len() as int)[k - end]);
                }
            }
        }
        let bounds = surrounding_box(&left._box, &right._box);
        BVHNode { left: BvhChild::Node(Box::new(left)), right: BvhChild::Node(Box::new(right)), _box: bounds }
    }
}

impl BVHNode {
    /// Builds the hierarchy over a whole list, rearranging the list.
    pub fn new(list: &mut HittableList, rng: &mut Rng) -> (node: Self)
        requires
            old(list).objects@.len() >= 1,
            all_bounded(old(list).objects@),
            old(list).objects@.len() >= 2 ==> all_sortable(old(list).objects@),
        ensures
            node == build(old(list).objects@, old(rng).state).node,
            final(list).objects@ == build(old(list).objects@, old(rng).state).objects,
            final(rng).state == build(old(list).objects@, old(rng).state).state,
    {
        let length = list.objects.len();
        assert(list.objects@.subrange(0, length as int) =~= list.objects@);
        let node = new_from_list(&mut list.objects, 0, length, rng);
        assert(list.objects@.subrange(0, length as int) =~= list.objects@);
        node
    }
}

/// A hierarchy built over objects that all have boxes caches, in every node,
/// the union of the boxes below it.
pub proof fn lemma_build_well_formed(objects: Seq<Hittable>, state: u64)
    requires
        objects.len() >= 1,
        all_bounded(objects),
    ensures
        build(objects, state).node.well_formed(),
    decreases objects.len(),
{
    if objects.len() >= 3 {
        let axis = spec_axis(state);
        let sorted = stable_sort(objects, axis);
        let mid = objects.len() as int / 2;
        lemma_stable_sort_permutes(objects, axis);
        lemma_stable_sort_same_objects(objects, axis);
        assert forall|i: int| 0 <= i < sorted.len() implies (#[trigger] sorted[i]).bbox is Some by {
            assert(sorted.contains(sorted[i]));
            assert(objects.contains(sorted[i]));
        }
        let lower = sorted.subrange(0, mid);
        let upper = sorted.subrange(mid, objects.len() as int);
        assert forall|i: int| 0 <= i < lower.len() implies (#[trigger] lower[i]).bbox is Some by {
            assert(lower[i] == sorted[i]);
        }
        assert forall|i: int| 0 <= i < upper.len() implies (#[trigger] upper[i]).bbox is Some by {
            assert(upper[i] == sorted[i + mid]);
        }
        let l = build(lower, spec_advance(state));
        lemma_build_well_formed(lower, spec_advance(state));
        lemma_build_well_formed(upper, l.state);
    } else if objects.len() == 2 {
        assert(objects[0].bbox is Some && objects[1].bbox is Some);
    } else {
        assert(objects[0].bbox is Some);
    }
}

/// The hierarchy holds exactly the objects it was built over.
pub proof fn lemma_build_covers(objects: Seq<Hittable>, state: u64)
    requires
        objects.len() >= 1,
    ensures
        forall|h: Hittable| build(objects, state).node.leaves().contains(h) <==> objects.contains(h),
    decreases objects.len(),
{
    let node = build(objects, state).node;
    if objects.len() >= 3 {
        let axis = spec_axis(state);
        let sorted = stable_sort(objects, axis);
        let mid = objects.len() as int / 2;
        lemma_stable_sort_permutes(objects, axis);
        lemma_stable_sort_same_objects(objects, axis);
        let lower = sorted.subrange(0, mid);
        let upper = sorted.subrange(mid, objects.len() as int);
        let l = build(lower, spec_advance(state));
        let r = build(upper, l.state);
        lemma_build_covers(lower, spec_advance(state));
        lemma_build_covers(upper, l.state);
        assert(node.leaves() == l.node.leaves() + r.node.leaves());
        assert forall|h: Hittable| node.leaves().contains(h) <==> objects.contains(h) by {
            lemma_contains_concat(l.node.leaves(), r.node.leaves(), h);
            lemma_contains_concat(lower, upper, h);
            assert(lower + upper =~= sorted);
        }
    } else if objects.len() == 2 {
        assert forall|h: Hittable| node.leaves().contains(h) <==> objects.contains(h) by {
            lemma_contains_concat(seq![objects[0]], seq![objects[1]], h);
            lemma_contains_concat(seq![objects[1]], seq![objects[0]], h);
            assert(seq![objects[0]] + seq![objects[1]] =~= objects);
            assert(seq![objects[0]][0] == objects[0]);
            assert(seq![objects[1]][0] == objects[1]);
        }
    } else {
        assert forall|h: Hittable| node.leaves().contains(h) <==> objects.contains(h) by {
            lemma_contains_concat(seq![objects[0]], seq![objects[0]], h);
            assert(seq![objects[0]] =~= objects);
        }
    }
}

/// An object is in a concatenation when it is in one of the parts.
pub proof fn lemma_contains_concat(a: Seq<Hittable>, b: Seq<Hittable>, h: Hittable)
    ensures
        (a + b).contains(h) <==> a.contains(h) || b.contains(h),
{
    if a.contains(h) {
        let i = choose|i: int| 0 <= i < a.len() && a[i] == h;
        assert((a + b)[i] == h);
    }
    if b.contains(h) {
        let i = choose|i: int| 0 <= i < b.len() && b[i] == h;
        assert((a + b)[i + a.len()] == h);
    }
    if (a + b).contains(h) {
        let i = choose|i: int| 0 <= i < (a + b).len() && (a + b)[i] == h;
        if i < a.len() {
            assert(a[i] == h);
        } else {
            assert(b[i - a.len()] == h);
        }
    }
}

/// The top split of a hierarchy over objects whose keys are numbers: no
/// object on the left has to come after one on the right, on the axis that
/// was drawn for the root.
pub proof fn lemma_build_splits_in_order(objects: Seq<Hittable>, state: u64)
    requires
        objects.len() >= 2,
        keys_are_numbers(objects, spec_axis(state)),
    ensures
        forall|a: Hittable, b: Hittable|
            build(objects, state).node.left.leaves().contains(a) && build(
                objects,
                state,
            ).node.right.leaves().contains(b) ==> !comes_after(a, b, spec_axis(state)),
{
    let node = build(objects, state).node;
    let axis = spec_axis(state);
    if objects.len() >= 3 {
        let sorted = stable_sort(objects, axis);
        let mid = objects.len() as int / 2;
        lemma_stable_sort_permutes(objects, axis);
        lemma_stable_sort_is_sorted(objects, axis);
        let lower = sorted.subrange(0, mid);
        let upper = sorted.subrange(mid, objects.len() as int);
        let l = build(lower, spec_advance(state));
        lemma_build_covers(lower, spec_advance(state));
        lemma_build_covers(upper, l.state);
        assert forall|a: Hittable, b: Hittable|
            node.left.leaves().contains(a) && node.right.leaves().contains(b) implies !comes_after(
            a,
            b,
            axis,
        ) by {
            assert(lower.contains(a));
            assert(upper.contains(b));
            let i = choose|i: int| 0 <= i < lower.len() && lower[i] == a;
            let j = choose|j: int| 0 <= j < upper.len() && upper[j] == b;
            assert(sorted[i] == a && sorted[j + mid] == b);
        }
    } else {
        assert forall|a: Hittable, b: Hittable|
            node.left.leaves().contains(a) && node.right.leaves().contains(b) implies !comes_after(
            a,
            b,
            axis,
        ) by {
            assert(!sort_key(objects[0], axis).is_nan() && !sort_key(objects[1], axis).is_nan());
        }
    }
}

/// A unit of pending work in a traversal: an object to test, or a subtree to
/// descend into.
#[derive(Clone, Copy, Debug)]
pub enum Work<'a> {
    Object(Hittable),
    Node(&'a BVHNode),
}

impl<'a> Work<'a> {
    /// The work as the child it stands for.
    pub open spec fn child(self) -> BvhChild {
        match self {
            Work::Object(h) => BvhChild::Object(h),
            Work::Node(n) => BvhChild::Node(Box::new(*n)),
        }
    }

    fn of(child: &'a BvhChild) -> (w: Self)
        ensures
            w.child() == *child,
    {
        match child {
            BvhChild::Object(h) => Work::Object(*h),
            BvhChild::Node(n) => Work::Node(&**n),
        }
    }
}

impl BvhChild {
    /// The nearest hit after this child has been traversed.
    pub open spec fn visit(self, acc: Nearest, t_min: Scalar, probe: Probe) -> Nearest
        decreases self,
    {
        match self {
            BvhChild::Object(h) => acc.visit(h, probe),
            BvhChild::Node(n) => n.visit(acc, t_min, probe),
        }
    }

    /// The number of queries that traversing this child can take at most.
    pub open spec fn size(self) -> nat
        decreases self,
    {
        match self {
            BvhChild::Object(_) => 1,
            BvhChild::Node(n) => n.size(),
        }
    }
}

impl BVHNode {
    /// The nearest hit after this subtree has been traversed: nothing changes
    /// when the ray misses the node's box; otherwise the left child is
    /// traversed, then the right one under the limit that the left one left.
    pub open spec fn visit(self, acc: Nearest, t_min: Scalar, probe: Probe) -> Nearest
        decreases self,
    {
        if AABB::spec_hit((probe.slabs)(self._box), t_min, acc.limit) {
            self.right.visit(self.left.visit(acc, t_min, probe), t_min, probe)
        } else {
            acc
        }
    }

    /// The number of queries that traversing this subtree can take at most.
    pub open spec fn size(self) -> nat
        decreases self,
    {
        1 + self.left.size() + self.right.size()
    }
}

/// The nearest hit after all pending work has been done, last entry first.
pub open spec fn finish(pending: Seq<BvhChild>, acc: Nearest, t_min: Scalar, probe: Probe) -> Nearest
    decreases pending.len(),
{
    if pending.len() == 0 {
        acc
    } else {
        finish(pending.drop_last(), pending.last().visit(acc, t_min, probe), t_min, probe)
    }
}

/// The number of queries that the pending work can take at most.
pub open spec fn remaining(pending: Seq<BvhChild>) -> nat
    decreases pending.len(),
{
    if pending.len() == 0 {
        0
    } else {
        remaining(pending.drop_last()) + pending.last().size()
    }
}

/// The state of a traversal, as contracts see it.
pub struct TraversalView {
    pub t_min: Scalar,
    pub nearest: Nearest,
    /// Work still to do; the last entry is next.
    pub pending: Seq<BvhChild>,
}

impl TraversalView {
    /// What the traversal asks for in this state.
    pub open spec fn query(self) -> Query {
        if self.pending.len() == 0 {
            Query::Done { rec: self.nearest.rec }
        } else {
            match self.pending.last() {
                BvhChild::Object(h) => Query::Object { object: h, limit: self.nearest.limit },
                BvhChild::Node(n) => Query::Bounds { bounds: n._box },
            }
        }
    }

    /// The state after `answer`. An object's record is offered to the nearest
    /// hit. A box that the ray crosses below the limit is replaced by its two
    /// children, the left one next; a box that it misses is dropped. An
    /// answer that does not fit the query changes nothing.
    pub open spec fn answer(self, answer: Answer) -> TraversalView {
        if self.pending.len() == 0 {
            self
        } else {
            match (self.pending.last(), answer) {
                (BvhChild::Object(_), Answer::Object { rec }) => TraversalView {
                    t_min: self.t_min,
                    nearest: self.nearest.spec_offer(rec),
                    pending: self.pending.drop_last(),
                },
                (BvhChild::Node(n), Answer::Bounds { slabs }) => TraversalView {
                    t_min: self.t_min,
                    nearest: self.nearest,
                    pending: if AABB::spec_hit(slabs, self.t_min, self.nearest.limit) {
                        self.pending.drop_last().push(n.right).push(n.left)
                    } else {
                        self.pending.drop_last()
                    },
                },
                _ => self,
            }
        }
    }

    /// What the traversal will end with if every query still to come is
    /// answered as `probe` says.
    pub open spec fn outcome(self, probe: Probe) -> Nearest {
        finish(self.pending, self.nearest, self.t_min, probe)
    }

    /// The answer that `probe` gives to the current query.
    pub open spec fn reply(self, probe: Probe) -> Answer {
        match self.query() {
            Query::Object { object, limit } => Answer::Object { rec: (probe.hits)(object.id, limit) },
            Query::Bounds { bounds } => Answer::Bounds { slabs: (probe.slabs)(bounds) },
            Query::Done { rec } => Answer::Object { rec },
        }
    }

    /// The state after `steps` queries have been answered as `probe` says.
    pub open spec fn run(self, probe: Probe, steps: nat) -> TraversalView
        decreases steps,
    {
        if steps == 0 {
            self
        } else {
            self.answer(self.reply(probe)).run(probe, (steps - 1) as nat)
        }
    }
}

/// A traversal of a hierarchy in progress.
pub struct Traversal<'a> {
    pub t_min: Scalar,
    pub nearest: Nearest,
    pub pending: Vec<Work<'a>>,
}

impl<'a> View for Traversal<'a> {
    type V = TraversalView;

    open spec fn view(&self) -> TraversalView {
        TraversalView {
            t_min: self.t_min,
            nearest: self.nearest,
            pending: Seq::new(self.pending@.len(), |i: int| self.pending@[i].child()),
        }
    }
}

impl<'a> Traversal<'a> {
    /// The next thing to compute, or the result.
    pub fn query(&self) -> (q: Query)
        ensures
            q == self@.query(),
    {
        let n = self.pending.len();
        if n == 0 {
            Query::Done { rec: self.nearest.rec }
        } else {
            match self.pending[n - 1] {
                Work::Object(h) => Query::Object { object: h, limit: self.nearest.limit },
                Work::Node(node) => Query::Bounds { bounds: node._box },
            }
        }
    }

    /// Takes the answer to the current query and moves on.
    pub fn answer(&mut self, answer: Answer)
        ensures
            final(self)@ == old(self)@.answer(answer),
    {
        let n = self.pending.len();
        if n == 0 {
            return ;
        }
        let top = self.pending[n - 1];
        match (top, answer) {
            (Work::Object(_), Answer::Object { rec }) => {
                self.pending.pop();
                self.nearest.offer(rec);
                assert(self@.pending =~= old(self)@.pending.drop_last());
            },
            (Work::Node(node), Answer::Bounds { slabs }) => {
                self.pending.pop();
                if AABB::hit(&slabs, self.t_min, self.nearest.limit) {
                    self.pending.push(Work::of(&node.right));
                    self.pending.push(Work::of(&node.left));
                    assert(self@.pending =~= old(self)@.pending.drop_last().push(node.right).push(
                        node.left,
                    ));
                } else {
                    assert(self@.pending =~= old(self)@.pending.drop_last());
                }
            },
            _ => {},
        }
    }
}

impl BVHNode {
    /// Begins the search for the nearest hit of a ray within `(t_min, t_max)`.
    pub fn hit(&self, t_min: Scalar, t_max: Scalar) -> (traversal: Traversal<'_>)
        ensures
            traversal@ == (TraversalView {
                t_min,
                nearest: Nearest { limit: t_max, rec: None },
                pending: seq![BvhChild::Node(Box::new(*self))],
            }),
    {
        let mut pending = Vec::new();
        pending.push(Work::Node(self));
        let traversal = Traversal { t_min, nearest: Nearest::start(t_max), pending };
        assert(traversal@.pending =~= seq![BvhChild::Node(Box::new(*self))]);
        traversal
    }

    /// What a traversal of this hierarchy finds: the record of the nearest
    /// hit below `t_max`, if the probe reports any.
    pub open spec fn spec_hit(self, t_min: Scalar, t_max: Scalar, probe: Probe) -> Option<HitRecord> {
        self.visit(Nearest { limit: t_max, rec: None }, t_min, probe).rec
    }
}

/// A traversal that has just begun will end with what the recursive descent
/// from the root finds.
pub proof fn lemma_traversal_start(root: BVHNode, t_min: Scalar, t_max: Scalar, probe: Probe)
    ensures
        (TraversalView {
            t_min,
            nearest: Nearest { limit: t_max, rec: None },
            pending: seq![BvhChild::Node(Box::new(root))],
        }).outcome(probe).rec == root.spec_hit(t_min, t_max, probe),
{
    let pending = seq![BvhChild::Node(Box::new(root))];
    assert(pending.drop_last().len() == 0);
    assert(pending.last() == BvhChild::Node(Box::new(root)));
    let acc = Nearest { limit: t_max, rec: None };
    assert(finish(pending, acc, t_min, probe) == finish(
        pending.drop_last(),
        pending.last().visit(acc, t_min, probe),
        t_min,
        probe,
    ));
}

/// Answering a query as the probe would leaves the outcome of a traversal
/// unchanged and brings it nearer to its end; a traversal with nothing
/// pending holds its outcome.
pub proof fn lemma_traversal_step(state: TraversalView, probe: Probe)
    ensures
        state.answer(state.reply(probe)).outcome(probe) == state.outcome(probe),
        state.pending.len() > 0 ==> remaining(state.answer(state.reply(probe)).pending) < remaining(
            state.pending,
        ),
        state.query() matches Query::Done { rec } ==> state.outcome(probe).rec == rec,
{
    if state.pending.len() > 0 {
        let rest = state.pending.drop_last();
        let after = state.answer(state.reply(probe));
        match state.pending.last() {
            BvhChild::Object(h) => {
                assert(after.pending == rest);
            },
            BvhChild::Node(n) => {
                if AABB::spec_hit((probe.slabs)(n._box), state.t_min, state.nearest.limit) {
                    let one = rest.push(n.right);
                    let two = one.push(n.left);
                    assert(after.pending == two);
                    assert(two.drop_last() =~= one);
                    assert(two.last() == n.left);
                    assert(one.drop_last() =~= rest);
                    assert(one.last() == n.right);
                    let mid = n.left.visit(state.nearest, state.t_min, probe);
                    assert(finish(two, state.nearest, state.t_min, probe) == finish(
                        one,
                        mid,
                        state.t_min,
                        probe,
                    ));
                    assert(finish(one, mid, state.t_min, probe) == finish(
                        rest,
                        n.right.visit(mid, state.t_min, probe),
                        state.t_min,
                        probe,
                    ));
                    assert(remaining(two) == remaining(one) + n.left.size());
                    assert(remaining(one) == remaining(rest) + n.right.size());
                } else {
                    assert(after.pending == rest);
                }
            },
        }
    }
}

/// A traversal whose queries are answered as the probe says comes to an end
/// within as many answers as its pending work can take, and ends with its
/// outcome.
pub proof fn lemma_traversal_run(state: TraversalView, probe: Probe, steps: nat)
    requires
        steps >= remaining(state.pending),
    ensures
        state.run(probe, steps).query() == (Query::Done { rec: state.outcome(probe).rec }),
    decreases steps,
{
    lemma_traversal_step(state, probe);
    if steps > 0 {
        let next = state.answer(state.reply(probe));
        if state.pending.len() == 0 {
            assert(next == state);
        }
        lemma_traversal_run(next, probe, (steps - 1) as nat);
    } else {
        if state.pending.len() > 0 {
            assert(remaining(state.pending) == remaining(state.pending.drop_last())
                + state.pending.last().size());
            lemma_size_is_positive(state.pending.last());
        }
    }
}

/// Traversing anything takes at least one query.
pub proof fn lemma_size_is_positive(child: BvhChild)
    ensures
        child.size() >= 1,
    decreases child,
{
    match child {
        BvhChild::Object(_) => {},
        BvhChild::Node(n) => {
            assert(n.size() == 1 + n.left.size() + n.right.size());
        },
    }
}

/// A whole traversal, every query answered as the probe says, ends with the
/// hit that the recursive descent from the root finds.
pub proof fn lemma_traversal_finds_hit(root: BVHNode, t_min: Scalar, t_max: Scalar, probe: Probe)
    ensures
        (TraversalView {
            t_min,
            nearest: Nearest { limit: t_max, rec: None },
            pending: seq![BvhChild::Node(Box::new(root))],
        }).run(probe, root.size()).query() == (Query::Done {
            rec: root.spec_hit(t_min, t_max, probe),
        }),
{
    let pending = seq![BvhChild::Node(Box::new(root))];
    let start = TraversalView { t_min, nearest: Nearest { limit: t_max, rec: None }, pending };
    assert(pending.drop_last().len() == 0);
    assert(pending.last() == BvhChild::Node(Box::new(root)));
    assert(remaining(pending) == remaining(pending.drop_last()) + pending.last().size());
    assert(remaining(pending.drop_last()) == 0);
    lemma_traversal_start(root, t_min, t_max, probe);
    lemma_traversal_run(start, probe, root.size());
}

} // verus!
