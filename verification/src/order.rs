//! The order in which the hierarchy arranges objects, and a stable sort by it.

use vstd::prelude::*;
use std::cmp::Ordering;
use crate::scalar::Scalar;
use crate::hittable::Hittable;

verus! {

/// The coordinate by which an object is ordered on `axis`: the minimum corner
/// of its box at time zero.
pub open spec fn sort_key(h: Hittable, axis: usize) -> Scalar {
    h.sort_box->0._min.axis(axis as int)
}

/// `a` has to come after `b`: its key is greater. A NaN key is greater than
/// nothing and nothing is greater than it.
pub open spec fn comes_after(a: Hittable, b: Hittable, axis: usize) -> bool {
    sort_key(a, axis).spec_gt(sort_key(b, axis))
}

/// How two objects compare by the minimum of their boxes on `axis`.
pub open spec fn box_order(a: Hittable, b: Hittable, axis: usize) -> Ordering {
    if sort_key(a, axis).spec_lt(sort_key(b, axis)) {
        Ordering::Less
    } else if comes_after(a, b, axis) {
        Ordering::Greater
    } else {
        Ordering::Equal
    }
}

pub fn box_compare(a: &Hittable, b: &Hittable, axis: usize) -> (o: Ordering)
    requires
        a.sort_box is Some,
        b.sort_box is Some,
        axis < 3,
    ensures
        o == box_order(*a, *b, axis),
{
    let box_a = a.sort_box.unwrap();
    let box_b = b.sort_box.unwrap();
    let key_a = box_a._min.get(axis);
    let key_b = box_b._min.get(axis);
    if key_a.lt(key_b) {
        Ordering::Less
    } else if key_a.gt(key_b) {
        Ordering::Greater
    } else {
        Ordering::Equal
    }
}

pub fn box_x_compare(a: &Hittable, b: &Hittable) -> (o: Ordering)
    requires
        a.sort_box is Some,
        b.sort_box is Some,
    ensures
        o == box_order(*a, *b, 0),
{
    box_compare(a, b, 0)
}

pub fn box_y_compare(a: &Hittable, b: &Hittable) -> (o: Ordering)
    requires
        a.sort_box is Some,
        b.sort_box is Some,
    ensures
        o == box_order(*a, *b, 1),
{
    box_compare(a, b, 1)
}

pub fn box_z_compare(a: &Hittable, b: &Hittable) -> (o: Ordering)
    requires
        a.sort_box is Some,
        b.sort_box is Some,
    ensures
        o == box_order(*a, *b, 2),
{
    box_compare(a, b, 2)
}

/// Decides [`comes_after`].
pub fn is_after(a: &Hittable, b: &Hittable, axis: usize) -> (r: bool)
    requires
        a.sort_box is Some,
        b.sort_box is Some,
        axis < 3,
    ensures
        r == comes_after(*a, *b, axis),
{
    match box_compare(a, b, axis) {
        Ordering::Greater => true,
        _ => false,
    }
}

/// `s` with `x` put behind the last element that need not come after it.
pub open spec fn insert_sorted(s: Seq<Hittable>, x: Hittable, axis: usize) -> Seq<Hittable>
    decreases s.len(),
{
    if s.len() == 0 {
        seq![x]
    } else if comes_after(s.last(), x, axis) {
        insert_sorted(s.drop_last(), x, axis).push(s.last())
    } else {
        s.push(x)
    }
}

/// `s` sorted by key on `axis`, objects with equal keys in the order they
/// had.
pub open spec fn stable_sort(s: Seq<Hittable>, axis: usize) -> Seq<Hittable>
    decreases s.len(),
{
    if s.len() == 0 {
        s
    } else {
        insert_sorted(stable_sort(s.drop_last(), axis), s.last(), axis)
    }
}

/// Every object of `s` has a box to be ordered by.
pub open spec fn all_sortable(s: Seq<Hittable>) -> bool {
    forall|i: int| 0 <= i < s.len() ==> (#[trigger] s[i]).sort_box is Some
}

/// No object of `s` has a NaN as its key on `axis`.
pub open spec fn keys_are_numbers(s: Seq<Hittable>, axis: usize) -> bool {
    forall|i: int| 0 <= i < s.len() ==> !sort_key(#[trigger] s[i], axis).is_nan()
}

/// No object stands before one that it has to come after.
pub open spec fn is_sorted(s: Seq<Hittable>, axis: usize) -> bool {
    forall|i: int, j: int| 0 <= i < j < s.len() ==> !comes_after(s[i], s[j], axis)
}

/// Where `insert_sorted` puts the new object: at `k`, when everything from
/// `k` on has to come after it and the object before `k` does not.
pub proof fn lemma_insert_sorted_at(s: Seq<Hittable>, x: Hittable, axis: usize, k: int)
    requires
        0 <= k <= s.len(),
        forall|m: int| k <= m < s.len() ==> comes_after(#[trigger] s[m], x, axis),
        k == 0 || !comes_after(s[k - 1], x, axis),
    ensures
        insert_sorted(s, x, axis) == s.subrange(0, k).push(x) + s.subrange(k, s.len() as int),
    decreases s.len(),
{
    if s.len() == 0 {
        assert(s.subrange(0, k).push(x) + s.subrange(k, s.len() as int) =~= seq![x]);
    } else if k == s.len() {
        assert(s.subrange(0, k).push(x) + s.subrange(k, s.len() as int) =~= s.push(x));
    } else {
        let rest = s.drop_last();
        assert(comes_after(s[s.len() - 1], x, axis));
        assert forall|m: int| k <= m < rest.len() implies comes_after(#[trigger] rest[m], x, axis) by {
            assert(rest[m] == s[m]);
        }
        lemma_insert_sorted_at(rest, x, axis, k);
        assert((rest.subrange(0, k).push(x) + rest.subrange(k, rest.len() as int)).push(s.last())
            =~= s.subrange(0, k).push(x) + s.subrange(k, s.len() as int));
    }
}

/// Inserting adds exactly the new object.
pub proof fn lemma_insert_sorted_multiset(s: Seq<Hittable>, x: Hittable, axis: usize)
    ensures
        insert_sorted(s, x, axis).to_multiset() == s.to_multiset().insert(x),
        insert_sorted(s, x, axis).len() == s.len() + 1,
    decreases s.len(),
{
    broadcast use vstd::seq_lib::group_to_multiset_ensures;

    if s.len() > 0 && comes_after(s.last(), x, axis) {
        lemma_insert_sorted_multiset(s.drop_last(), x, axis);
        assert(s.drop_last().push(s.last()) =~= s);
        assert(insert_sorted(s, x, axis).to_multiset() =~= s.to_multiset().insert(x));
    }
}

/// Sorting rearranges: it keeps every object, as often as it occurred.
pub proof fn lemma_stable_sort_permutes(s: Seq<Hittable>, axis: usize)
    ensures
        stable_sort(s, axis).to_multiset() == s.to_multiset(),
        stable_sort(s, axis).len() == s.len(),
    decreases s.len(),
{
    broadcast use vstd::seq_lib::group_to_multiset_ensures;

    if s.len() > 0 {
        lemma_stable_sort_permutes(s.drop_last(), axis);
        lemma_insert_sorted_multiset(stable_sort(s.drop_last(), axis), s.last(), axis);
        assert(s.drop_last().push(s.last()) =~= s);
    }
}

/// Sorting neither adds nor loses an object.
pub proof fn lemma_stable_sort_same_objects(s: Seq<Hittable>, axis: usize)
    ensures
        forall|h: Hittable| stable_sort(s, axis).contains(h) <==> s.contains(h),
{
    lemma_stable_sort_permutes(s, axis);
    let sorted = stable_sort(s, axis);
    s.to_multiset_ensures();
    sorted.to_multiset_ensures();
    assert forall|h: Hittable| sorted.contains(h) <==> s.contains(h) by {
        assert(sorted.contains(h) <==> sorted.to_multiset().count(h) > 0);
        assert(s.contains(h) <==> s.to_multiset().count(h) > 0);
    }
}

/// Inserting into a sorted sequence of numbers leaves it sorted.
pub proof fn lemma_insert_sorted_is_sorted(s: Seq<Hittable>, x: Hittable, axis: usize)
    requires
        is_sorted(s, axis),
        keys_are_numbers(s, axis),
        !sort_key(x, axis).is_nan(),
    ensures
        is_sorted(insert_sorted(s, x, axis), axis),
        keys_are_numbers(insert_sorted(s, x, axis), axis),
    decreases s.len(),
{
    let r = insert_sorted(s, x, axis);
    if s.len() == 0 {
    } else if comes_after(s.last(), x, axis) {
        let rest = s.drop_last();
        assert forall|i: int, j: int| 0 <= i < j < rest.len() implies !comes_after(
            rest[i],
            rest[j],
            axis,
        ) by {
            assert(rest[i] == s[i] && rest[j] == s[j]);
        }
        assert forall|i: int| 0 <= i < rest.len() implies !sort_key(#[trigger] rest[i], axis).is_nan() by {
            assert(rest[i] == s[i]);
        }
        lemma_insert_sorted_is_sorted(rest, x, axis);
        lemma_insert_sorted_multiset(rest, x, axis);
        let inner = insert_sorted(rest, x, axis);
        assert forall|i: int, j: int| 0 <= i < j < r.len() implies !comes_after(r[i], r[j], axis) by {
            if j == r.len() - 1 {
                // r[i] is x or an object of rest; neither comes after the last object of s.
                inner.to_multiset_ensures();
                rest.to_multiset_ensures();
                assert(inner.contains(inner[i]));
                assert(inner.to_multiset().count(inner[i]) > 0);
                if inner[i] != x {
                    assert(rest.to_multiset().count(inner[i]) > 0);
                    assert(rest.contains(inner[i]));
                    let m = choose|m: int| 0 <= m < rest.len() && rest[m] == inner[i];
                    assert(rest[m] == s[m]);
                    assert(!comes_after(s[m], s[s.len() - 1], axis));
                }
            } else {
                assert(r[i] == inner[i] && r[j] == inner[j]);
            }
        }
        assert forall|i: int| 0 <= i < r.len() implies !sort_key(#[trigger] r[i], axis).is_nan() by {
            if i < r.len() - 1 {
                assert(r[i] == inner[i]);
            } else {
                assert(r[i] == s[s.len() - 1]);
            }
        }
    } else {
        assert forall|i: int, j: int| 0 <= i < j < r.len() implies !comes_after(r[i], r[j], axis) by {
            if j == r.len() - 1 {
                assert(r[i] == s[i]);
                assert(!comes_after(s[i], s[s.len() - 1], axis));
            } else {
                assert(r[i] == s[i] && r[j] == s[j]);
            }
        }
        assert forall|i: int| 0 <= i < r.len() implies !sort_key(#[trigger] r[i], axis).is_nan() by {
            if i < r.len() - 1 {
                assert(r[i] == s[i]);
            }
        }
    }
}

/// Sorting objects whose keys are numbers puts them in order.
pub proof fn lemma_stable_sort_is_sorted(s: Seq<Hittable>, axis: usize)
    requires
        keys_are_numbers(s, axis),
    ensures
        is_sorted(stable_sort(s, axis), axis),
        keys_are_numbers(stable_sort(s, axis), axis),
    decreases s.len(),
{
    if s.len() > 0 {
        let rest = s.drop_last();
        assert forall|i: int| 0 <= i < rest.len() implies !sort_key(#[trigger] rest[i], axis).is_nan() by {
            assert(rest[i] == s[i]);
        }
        lemma_stable_sort_is_sorted(rest, axis);
        assert(!sort_key(s[s.len() - 1], axis).is_nan());
        lemma_insert_sorted_is_sorted(stable_sort(rest, axis), s.last(), axis);
    }
}

/// The objects of `s` whose key on `axis` equals `key`, in their order.
pub open spec fn ties(s: Seq<Hittable>, key: Scalar, axis: usize) -> Seq<Hittable>
    decreases s.len(),
{
    if s.len() == 0 {
        s
    } else if sort_key(s.last(), axis).spec_ieee_eq(key) {
        ties(s.drop_last(), key, axis).push(s.last())
    } else {
        ties(s.drop_last(), key, axis)
    }
}

/// Inserting an object puts it behind every object with the same key.
pub proof fn lemma_insert_sorted_keeps_ties(s: Seq<Hittable>, x: Hittable, axis: usize, key: Scalar)
    ensures
        ties(insert_sorted(s, x, axis), key, axis) == ties(s.push(x), key, axis),
    decreases s.len(),
{
    if s.len() > 0 && comes_after(s.last(), x, axis) {
        let rest = s.drop_last();
        let last = s.last();
        let inner = insert_sorted(rest, x, axis);
        lemma_insert_sorted_keeps_ties(rest, x, axis, key);
        let tie_last = sort_key(last, axis).spec_ieee_eq(key);
        let tie_x = sort_key(x, axis).spec_ieee_eq(key);
        assert(!(tie_last && tie_x));
        let a = inner.push(last);
        assert(a.drop_last() =~= inner);
        assert(a.last() == last);
        assert(ties(a, key, axis) == if tie_last {
            ties(inner, key, axis).push(last)
        } else {
            ties(inner, key, axis)
        });
        let b = rest.push(x);
        assert(b.drop_last() =~= rest);
        assert(b.last() == x);
        assert(ties(b, key, axis) == if tie_x {
            ties(rest, key, axis).push(x)
        } else {
            ties(rest, key, axis)
        });
        let c = s.push(x);
        assert(c.drop_last() =~= s);
        assert(c.last() == x);
        assert(ties(c, key, axis) == if tie_x {
            ties(s, key, axis).push(x)
        } else {
            ties(s, key, axis)
        });
        assert(ties(s, key, axis) == if tie_last {
            ties(rest, key, axis).push(last)
        } else {
            ties(rest, key, axis)
        });
    } else if s.len() == 0 {
        assert(insert_sorted(s, x, axis) =~= s.push(x));
    }
}

/// The sort is stable: objects with equal keys keep the order they had.
pub proof fn lemma_stable_sort_keeps_ties(s: Seq<Hittable>, axis: usize, key: Scalar)
    ensures
        ties(stable_sort(s, axis), key, axis) == ties(s, key, axis),
    decreases s.len(),
{
    if s.len() > 0 {
        let rest = s.drop_last();
        let sorted = stable_sort(rest, axis);
        lemma_stable_sort_keeps_ties(rest, axis, key);
        lemma_insert_sorted_keeps_ties(sorted, s.last(), axis, key);
        assert(sorted.push(s.last()).drop_last() =~= sorted);
    }
}

/// Sorts `objects[start..end]` by key on `axis`, keeping objects with equal
/// keys in their order, and leaves the rest of the vector alone.
pub fn sort_range(objects: &mut Vec<Hittable>, start: usize, end: usize, axis: usize)
    requires
        start <= end <= old(objects)@.len(),
        axis < 3,
        all_sortable(old(objects)@.subrange(start as int, end as int)),
    ensures
        final(objects)@.len() == old(objects)@.len(),
        final(objects)@.subrange(start as int, end as int) == stable_sort(
            old(objects)@.subrange(start as int, end as int),
            axis,
        ),
        final(objects)@.subrange(0, start as int) == old(objects)@.subrange(0, start as int),
        final(objects)@.subrange(end as int, old(objects)@.len() as int) == old(objects)@.subrange(
            end as int,
            old(objects)@.len() as int,
        ),
{
    let ghost before = objects@;
    let mut i: usize = start;
    assert forall|k: int| start <= k < end implies (#[trigger] objects@[k]).sort_box is Some by {
        assert(objects@[k] == before.subrange(start as int, end as int)[k - start]);
    }
    assert(objects@.subrange(start as int, i as int) =~= stable_sort(
        before.subrange(start as int, i as int),
        axis,
    ));
    while i < end
        invariant
            start <= i <= end <= before.len(),
            axis < 3,
            objects@.len() == before.len(),
            objects@.subrange(start as int, i as int) == stable_sort(
                before.subrange(start as int, i as int),
                axis,
            ),
            forall|k: int| 0 <= k < start || i <= k < before.len() ==> objects@[k] == before[k],
            forall|k: int| start <= k < end ==> (#[trigger] objects@[k]).sort_box is Some,
        decreases end - i,
    {
        let x = objects[i];
        let ghost sorted = objects@.subrange(start as int, i as int);
        let ghost entry = objects@;
        let mut j: usize = i;
        while j > start && is_after(&objects[j - 1], &x, axis)
            invariant
                start <= j <= i < end <= before.len(),
                axis < 3,
                x.sort_box is Some,
                objects@.len() == before.len(),
                entry.len() == before.len(),
                sorted.len() == i - start,
                forall|k: int| start <= k < j ==> objects@[k] == sorted[k - start],
                forall|k: int| j < k <= i ==> objects@[k] == sorted[k - 1 - start],
                forall|k: int| j <= k < i ==> comes_after(#[trigger] sorted[k - start], x, axis),
                forall|k: int| 0 <= k < start || i < k < before.len() ==> objects@[k] == entry[k],
                forall|k: int| start <= k < i ==> (#[trigger] sorted[k - start]).sort_box is Some,
                forall|k: int| i < k < end ==> (#[trigger] entry[k]).sort_box is Some,
            decreases j,
        {
            let moved = objects[j - 1];
            objects[j] = moved;
            j -= 1;
        }
        objects[j] = x;
        proof {
            let k = j - start;
            assert forall|m: int| k <= m < sorted.len() implies comes_after(
                #[trigger] sorted[m],
                x,
                axis,
            ) by {
                assert(sorted[m] == sorted[(m + start) - start]);
            }
            lemma_insert_sorted_at(sorted, x, axis, k);
            let upto = before.subrange(start as int, i + 1);
            assert(upto.drop_last() =~= before.subrange(start as int, i as int));
            assert(upto.last() == x);
            assert(objects@.subrange(start as int, i + 1) =~= sorted.subrange(0, k).push(x)
                + sorted.subrange(k, sorted.len() as int));
            assert forall|m: int| start <= m < end implies (#[trigger] objects@[m]).sort_box is Some by {
                if m < j {
                    assert(objects@[m] == sorted[m - start]);
                } else if m == j {
                } else if m <= i {
                    assert(objects@[m] == sorted[(m - 1) - start]);
                } else {
                    assert(objects@[m] == entry[m]);
                }
            }
        }
        i += 1;
    }
    proof {
        assert(final(objects)@.subrange(0, start as int) =~= before.subrange(0, start as int));
        assert(objects@.subrange(end as int, before.len() as int) =~= before.subrange(
            end as int,
            before.len() as int,
        ));
    }
}

} // verus!
