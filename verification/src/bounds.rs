//! The box of a list and of a hierarchy is the box around the boxes of
//! their primitives, whatever the order of the primitives.

use crate::aabb::{lemma_encloses_order, lemma_surround_encloses};
use crate::bvh::{
    all_boxed, highest, lemma_same_members, lowest, sorted_from, widest_axis, BVHNode,
    BVHNodeType,
};
use crate::hittable_list::{bounds_of, lemma_bounds_of_some};
use crate::object::Object;
use std::sync::Arc;
use vstd::prelude::*;

verus! {

/// The box of a list holds the box of each of its primitives.
pub proof fn lemma_bounds_of_encloses(objects: Seq<Arc<Object>>, i: int)
    requires
        0 <= i < objects.len(),
        bounds_of(objects) is Some,
    ensures
        objects[i].bounds() is Some,
        bounds_of(objects)->0.encloses(objects[i].bounds()->0),
    decreases objects.len(),
{
    if objects.len() > 1 {
        let init = objects.drop_last();
        let a = bounds_of(init)->0;
        let b = objects.last().bounds()->0;
        lemma_surround_encloses(a, b);
        if i < objects.len() - 1 {
            lemma_bounds_of_encloses(init, i);
            assert(init[i] == objects[i]);
            lemma_encloses_order(a.surround(b), a, objects[i].bounds()->0);
        }
    }
}

/// The box of a node holds the box of every primitive below it.
pub proof fn lemma_root_encloses(node: &BVHNode, i: int)
    requires
        node.wf(),
        0 <= i < node.items().len(),
    ensures
        node.items()[i].bounds() is Some,
        node.bx.encloses(node.items()[i].bounds()->0),
    decreases node,
{
    match &node.info {
        BVHNodeType::Leaf(hl) => {
            lemma_bounds_of_encloses(hl.objects@, i);
        },
        BVHNodeType::Interior(left, right) => {
            lemma_surround_encloses(left.bx, right.bx);
            if i < left.items().len() {
                lemma_root_encloses(&**left, i);
                lemma_encloses_order(node.bx, left.bx, node.items()[i].bounds()->0);
            } else {
                lemma_root_encloses(&**right, i - left.items().len());
                lemma_encloses_order(node.bx, right.bx, node.items()[i].bounds()->0);
            }
        },
    }
}

/// A hierarchy that is built over a list is well formed and holds the
/// primitives of the list, each as often as the list does.
pub proof fn lemma_built(node: &BVHNode, objects: Seq<Arc<Object>>)
    requires
        node.built_from(objects),
        all_boxed(objects),
    ensures
        node.wf(),
        node.items().to_multiset() == objects.to_multiset(),
    decreases node,
{
    match &node.info {
        BVHNodeType::Leaf(hl) => {
            lemma_same_members(hl.objects@, objects);
        },
        BVHNodeType::Interior(left, right) => {
            let mid = (objects.len() / 2) as int;
            let sorted = choose|sorted: Seq<Arc<Object>>|
                {
                    &&& #[trigger] sorted_from(sorted, objects)
                    &&& left.built_from(sorted.skip(mid))
                    &&& right.built_from(sorted.take(mid))
                };
            lemma_same_members(sorted, objects);
            let upper = sorted.skip(mid);
            let lower = sorted.take(mid);
            assert forall|i: int| 0 <= i < upper.len() implies (#[trigger] upper[i]).bounds()
                is Some by {
                assert(upper[i] == sorted[mid + i]);
            }
            assert forall|i: int| 0 <= i < lower.len() implies (#[trigger] lower[i]).bounds()
                is Some by {
                assert(lower[i] == sorted[i]);
            }
            lemma_built(&**left, upper);
            lemma_built(&**right, lower);
            vstd::seq_lib::lemma_multiset_commutative(left.items(), right.items());
            vstd::seq_lib::lemma_multiset_commutative(lower, upper);
            assert(lower.add(upper) == sorted);
            assert(left.items().to_multiset().add(right.items().to_multiset())
                == lower.to_multiset().add(upper.to_multiset()));
        },
    }
}

/// Whether `low` is the smallest coordinate along `axis` that a box of
/// `objects` reaches down to: no box reaches lower, and one reaches there.
pub open spec fn is_lowest(objects: Seq<Arc<Object>>, axis: int, low: int) -> bool {
    &&& forall|i: int|
        0 <= i < objects.len() ==> ((#[trigger] objects[i]).bounds() matches Some(b) ==> low
            <= b.min.at(axis))
    &&& exists|i: int|
        0 <= i < objects.len() && ((#[trigger] objects[i]).bounds() matches Some(b) && low
            == b.min.at(axis))
}

/// Whether `high` is the largest coordinate along `axis` that a box of
/// `objects` reaches up to: no box reaches higher, and one reaches there.
pub open spec fn is_highest(objects: Seq<Arc<Object>>, axis: int, high: int) -> bool {
    &&& forall|i: int|
        0 <= i < objects.len() ==> ((#[trigger] objects[i]).bounds() matches Some(b) ==> high
            >= b.max.at(axis))
    &&& exists|i: int|
        0 <= i < objects.len() && ((#[trigger] objects[i]).bounds() matches Some(b) && high
            == b.max.at(axis))
}

/// Among primitives of which at least one has a box, the smallest lower
/// end and the largest upper end of the boxes are what their names say.
pub proof fn lemma_ends(objects: Seq<Arc<Object>>, axis: int)
    requires
        exists|i: int| 0 <= i < objects.len() && (#[trigger] objects[i]).bounds() is Some,
    ensures
        is_lowest(objects, axis, lowest(objects, axis)),
        is_highest(objects, axis, highest(objects, axis)),
    decreases objects.len(),
{
    let init = objects.drop_last();
    let x = objects.last();
    let k = choose|i: int| 0 <= i < objects.len() && (#[trigger] objects[i]).bounds() is Some;
    if exists|i: int| 0 <= i < init.len() && (#[trigger] init[i]).bounds() is Some {
        lemma_ends(init, axis);
        let lo = choose|i: int|
            0 <= i < init.len() && ((#[trigger] init[i]).bounds() matches Some(b) && lowest(
                init,
                axis,
            ) == b.min.at(axis));
        let hi = choose|i: int|
            0 <= i < init.len() && ((#[trigger] init[i]).bounds() matches Some(b) && highest(
                init,
                axis,
            ) == b.max.at(axis));
        assert(objects[lo] == init[lo] && objects[hi] == init[hi]);
        assert forall|i: int| 0 <= i < objects.len() implies ((#[trigger] objects[i]).bounds()
            matches Some(b) ==> lowest(objects, axis) <= b.min.at(axis) && highest(objects, axis)
            >= b.max.at(axis)) by {
            if i < init.len() {
                assert(objects[i] == init[i]);
            }
        }
        assert(objects[objects.len() - 1] == x);
    } else {
        // The last primitive is the only one with a box.
        assert(k == objects.len() - 1) by {
            if k < init.len() {
                assert(init[k] == objects[k]);
            }
        }
        lemma_ends_without_boxes(init, axis);
        assert forall|i: int| 0 <= i < objects.len() implies ((#[trigger] objects[i]).bounds()
            matches Some(b) ==> lowest(objects, axis) <= b.min.at(axis) && highest(objects, axis)
            >= b.max.at(axis)) by {
            if i < init.len() {
                assert(objects[i] == init[i]);
            }
        }
        assert(objects[objects.len() - 1] == x);
    }
}

/// Among primitives without boxes, the ends are the ends of the integers.
pub proof fn lemma_ends_without_boxes(objects: Seq<Arc<Object>>, axis: int)
    requires
        forall|i: int| 0 <= i < objects.len() ==> (#[trigger] objects[i]).bounds() is None,
    ensures
        lowest(objects, axis) == i64::MAX,
        highest(objects, axis) == i64::MIN,
    decreases objects.len(),
{
    if objects.len() > 0 {
        let init = objects.drop_last();
        assert forall|i: int| 0 <= i < init.len() implies (#[trigger] init[i]).bounds() is None by {
            assert(init[i] == objects[i]);
        }
        lemma_ends_without_boxes(init, axis);
        assert(objects[objects.len() - 1].bounds() is None);
    }
}

/// How far the boxes of a list reach does not depend on the order of the
/// list.
pub proof fn lemma_ends_ignore_order(a: Seq<Arc<Object>>, b: Seq<Arc<Object>>, axis: int)
    requires
        a.to_multiset() == b.to_multiset(),
    ensures
        lowest(a, axis) == lowest(b, axis),
        highest(a, axis) == highest(b, axis),
{
    lemma_same_members(a, b);
    if exists|i: int| 0 <= i < a.len() && (#[trigger] a[i]).bounds() is Some {
        let k = choose|i: int| 0 <= i < a.len() && (#[trigger] a[i]).bounds() is Some;
        assert(a.contains(a[k]));
        let l = choose|l: int| 0 <= l < b.len() && b[l] == a[k];
        assert(b[l].bounds() is Some);
        lemma_ends(a, axis);
        lemma_ends(b, axis);
        lemma_end_is_unique(a, b, axis);
    } else {
        assert forall|i: int| 0 <= i < b.len() implies (#[trigger] b[i]).bounds() is None by {
            assert(b.contains(b[i]));
            let k = choose|k: int| 0 <= k < a.len() && a[k] == b[i];
            assert(a[k].bounds() is None);
        }
        lemma_ends_without_boxes(a, axis);
        lemma_ends_without_boxes(b, axis);
    }
}

/// Lists with the same members have the same ends.
proof fn lemma_end_is_unique(a: Seq<Arc<Object>>, b: Seq<Arc<Object>>, axis: int)
    requires
        forall|x: Arc<Object>| a.contains(x) <==> b.contains(x),
        is_lowest(a, axis, lowest(a, axis)),
        is_lowest(b, axis, lowest(b, axis)),
        is_highest(a, axis, highest(a, axis)),
        is_highest(b, axis, highest(b, axis)),
    ensures
        lowest(a, axis) == lowest(b, axis),
        highest(a, axis) == highest(b, axis),
{
    let la = choose|i: int|
        0 <= i < a.len() && ((#[trigger] a[i]).bounds() matches Some(x) && lowest(a, axis)
            == x.min.at(axis));
    let lb = choose|i: int|
        0 <= i < b.len() && ((#[trigger] b[i]).bounds() matches Some(x) && lowest(b, axis)
            == x.min.at(axis));
    let ha = choose|i: int|
        0 <= i < a.len() && ((#[trigger] a[i]).bounds() matches Some(x) && highest(a, axis)
            == x.max.at(axis));
    let hb = choose|i: int|
        0 <= i < b.len() && ((#[trigger] b[i]).bounds() matches Some(x) && highest(b, axis)
            == x.max.at(axis));
    assert(a.contains(a[la]) && a.contains(a[ha]) && b.contains(b[lb]) && b.contains(b[hb]));
    let la2 = choose|i: int| 0 <= i < b.len() && b[i] == a[la];
    let ha2 = choose|i: int| 0 <= i < b.len() && b[i] == a[ha];
    let lb2 = choose|i: int| 0 <= i < a.len() && a[i] == b[lb];
    let hb2 = choose|i: int| 0 <= i < a.len() && a[i] == b[hb];
    assert(b[la2].bounds() is Some && b[ha2].bounds() is Some);
    assert(a[lb2].bounds() is Some && a[hb2].bounds() is Some);
}

/// The box of a list reaches, along each axis, from the smallest lower end
/// to the largest upper end of the boxes of its primitives.
pub proof fn lemma_bounds_of_ends(objects: Seq<Arc<Object>>, axis: int)
    requires
        bounds_of(objects) is Some,
    ensures
        bounds_of(objects)->0.min.at(axis) == lowest(objects, axis),
        bounds_of(objects)->0.max.at(axis) == highest(objects, axis),
    decreases objects.len(),
{
    lemma_bounds_of_some(objects);
    if objects.len() == 1 {
        lemma_ends_without_boxes(objects.drop_last(), axis);
        assert(objects.last() == objects[0]);
    } else {
        let init = objects.drop_last();
        lemma_bounds_of_ends(init, axis);
    }
}

/// The box of a hierarchy reaches, along each axis, from the smallest
/// lower end to the largest upper end of the boxes of the primitives below
/// it.
pub proof fn lemma_node_ends(node: &BVHNode, axis: int)
    requires
        node.wf(),
    ensures
        node.bx.min.at(axis) == lowest(node.items(), axis),
        node.bx.max.at(axis) == highest(node.items(), axis),
    decreases node,
{
    match &node.info {
        BVHNodeType::Leaf(hl) => {
            lemma_bounds_of_ends(hl.objects@, axis);
        },
        BVHNodeType::Interior(left, right) => {
            lemma_node_ends(&**left, axis);
            lemma_node_ends(&**right, axis);
            lemma_ends_of_both(left.items(), right.items(), axis);
        },
    }
}

/// The ends of two lists together are the smaller of their lower ends and
/// the larger of their upper ends.
pub proof fn lemma_ends_of_both(a: Seq<Arc<Object>>, b: Seq<Arc<Object>>, axis: int)
    ensures
        lowest(a.add(b), axis) == if lowest(a, axis) <= lowest(b, axis) {
            lowest(a, axis)
        } else {
            lowest(b, axis)
        },
        highest(a.add(b), axis) == if highest(a, axis) >= highest(b, axis) {
            highest(a, axis)
        } else {
            highest(b, axis)
        },
    decreases b.len(),
{
    lemma_ends_are_coordinates(a, axis);
    if b.len() == 0 {
        assert(a.add(b) == a);
    } else {
        lemma_ends_are_coordinates(b.drop_last(), axis);
        lemma_ends_of_both(a, b.drop_last(), axis);
        assert(a.add(b).drop_last() == a.add(b.drop_last()));
        assert(a.add(b).last() == b.last());
    }
}

/// The ends of a list are coordinates: they lie between the ends of the
/// integers.
pub proof fn lemma_ends_are_coordinates(objects: Seq<Arc<Object>>, axis: int)
    ensures
        i64::MIN <= lowest(objects, axis) <= i64::MAX,
        i64::MIN <= highest(objects, axis) <= i64::MAX,
    decreases objects.len(),
{
    if objects.len() > 0 {
        lemma_ends_are_coordinates(objects.drop_last(), axis);
    }
}

/// The box of the hierarchy that is built over a list is the box of the
/// list: the smallest box around the boxes of all the primitives.
pub proof fn lemma_built_box(node: &BVHNode, objects: Seq<Arc<Object>>)
    requires
        node.built_from(objects),
        all_boxed(objects),
    ensures
        bounds_of(objects) == Some(node.bx),
{
    lemma_built(node, objects);
    lemma_same_members(node.items(), objects);
    lemma_bounds_of_some(objects);
    let b = bounds_of(objects)->0;
    assert forall|axis: int| 0 <= axis < 3 implies b.min.at(axis) == node.bx.min.at(axis)
        && b.max.at(axis) == node.bx.max.at(axis) by {
        lemma_bounds_of_ends(objects, axis);
        lemma_node_ends(node, axis);
        lemma_ends_ignore_order(node.items(), objects, axis);
    }
    assert(b.min.at(0) == b.min.x && b.min.at(1) == b.min.y && b.min.at(2) == b.min.z);
    assert(b.max.at(0) == b.max.x && b.max.at(1) == b.max.y && b.max.at(2) == b.max.z);
    assert(b.min == node.bx.min && b.max == node.bx.max);
}

/// The axis along which the boxes of a list reach farthest does not depend
/// on the order of the list.
pub proof fn lemma_widest_axis_ignores_order(a: Seq<Arc<Object>>, b: Seq<Arc<Object>>)
    requires
        a.to_multiset() == b.to_multiset(),
    ensures
        widest_axis(a) == widest_axis(b),
{
    lemma_ends_ignore_order(a, b, 0);
    lemma_ends_ignore_order(a, b, 1);
    lemma_ends_ignore_order(a, b, 2);
}

} // verus!
