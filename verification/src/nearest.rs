//! Why a query of a hierarchy finds what a query of the list of its
//! primitives finds: both return a hit at the smallest distance at which
//! the ray hits any of the primitives.

use crate::aabb::AABB;
use crate::bounds::{lemma_bounds_of_encloses, lemma_built, lemma_root_encloses};
use crate::bvh::{all_boxed, lemma_same_members, BVHNode, BVHNodeType};
use crate::hittable::{limit_after, nearer, BoxOracle, HitOracle, HitRecord};
use crate::hittable_list::{bounds_of, scan};
use crate::object::Object;
use std::sync::Arc;
use vstd::prelude::*;

verus! {

/// What the ray hits on `x` when nothing limits the distance.
pub open spec fn nearest<T>(x: Arc<Object>, o: HitOracle<T>, m: BoxOracle) -> Option<HitRecord<T>> {
    x.hit_spec(o, m, u64::MAX)
}

/// Whether `found` is a hit no farther than `hi`.
pub open spec fn within<T>(found: Option<HitRecord<T>>, hi: u64) -> bool {
    found matches Some(h) && h.t <= hi
}

/// Whether a query of `x` no farther than `hi` reports the nearest hit on
/// `x` where that is no farther than `hi`, and nothing otherwise.
pub open spec fn reports_nearest<T>(x: Arc<Object>, o: HitOracle<T>, m: BoxOracle, hi: u64) -> bool {
    x.hit_spec(o, m, hi) == if within(nearest(x, o, m), hi) {
        nearest(x, o, m)
    } else {
        None
    }
}

/// Whether the ray meets the box `b` around `x` as far as it hits `x`.
pub open spec fn meets_around<T>(x: Arc<Object>, o: HitOracle<T>, m: BoxOracle, b: AABB, hi: u64) -> bool {
    x.bounds() matches Some(inner) && b.encloses(inner) && within(nearest(x, o, m), hi) ==> m(b, hi)
}

/// What the two kinds of answer must have in common for a hierarchy to
/// work on `x`: a query of `x` reports its nearest hit within the limit,
/// whatever the limit; and where the ray hits `x` within a limit, it meets
/// every box around the box of `x` within that limit.
pub open spec fn sound_for<T>(x: Arc<Object>, o: HitOracle<T>, m: BoxOracle) -> bool {
    &&& forall|hi: u64| #[trigger] reports_nearest(x, o, m, hi)
    &&& forall|b: AABB, hi: u64| #[trigger] meets_around(x, o, m, b, hi)
}

/// Whether the answers are sound for every primitive of `objects`.
pub open spec fn sound_for_all<T>(objects: Seq<Arc<Object>>, o: HitOracle<T>, m: BoxOracle) -> bool {
    forall|i: int| 0 <= i < objects.len() ==> sound_for(#[trigger] objects[i], o, m)
}

/// Whether `found` is a nearest hit of the ray among `objects` within
/// `hi`: nothing, where no primitive is hit within `hi`; else the nearest
/// hit on one of the primitives, than which no primitive is hit nearer.
pub open spec fn is_least<T>(
    objects: Seq<Arc<Object>>,
    o: HitOracle<T>,
    m: BoxOracle,
    hi: u64,
    found: Option<HitRecord<T>>,
) -> bool {
    match found {
        None => forall|i: int|
            0 <= i < objects.len() ==> !within(nearest(#[trigger] objects[i], o, m), hi),
        Some(h) => {
            &&& h.t <= hi
            &&& exists|i: int| 0 <= i < objects.len() && nearest(#[trigger] objects[i], o, m) == Some(h)
            &&& forall|i: int|
                0 <= i < objects.len() ==> (nearest(#[trigger] objects[i], o, m) matches Some(g)
                    ==> g.t >= h.t)
        },
    }
}

/// Whether two results are at the same distance: both are nothing, or both
/// are hits with the same `t`.
pub open spec fn same_distance<T>(a: Option<HitRecord<T>>, b: Option<HitRecord<T>>) -> bool {
    match (a, b) {
        (None, None) => true,
        (Some(x), Some(y)) => x.t == y.t,
        _ => false,
    }
}

/// Nearest hits among the same primitives are at the same distance.
pub proof fn lemma_least_unique<T>(
    a: Seq<Arc<Object>>,
    b: Seq<Arc<Object>>,
    o: HitOracle<T>,
    m: BoxOracle,
    hi: u64,
    ra: Option<HitRecord<T>>,
    rb: Option<HitRecord<T>>,
)
    requires
        forall|x: Arc<Object>| a.contains(x) <==> b.contains(x),
        is_least(a, o, m, hi, ra),
        is_least(b, o, m, hi, rb),
    ensures
        same_distance(ra, rb),
{
    if let Some(h) = ra {
        let i = choose|i: int| 0 <= i < a.len() && nearest(#[trigger] a[i], o, m) == Some(h);
        assert(a.contains(a[i]));
        let j = choose|j: int| 0 <= j < b.len() && b[j] == a[i];
        assert(nearest(b[j], o, m) == Some(h));
    }
    if let Some(h) = rb {
        let j = choose|j: int| 0 <= j < b.len() && nearest(#[trigger] b[j], o, m) == Some(h);
        assert(b.contains(b[j]));
        let i = choose|i: int| 0 <= i < a.len() && a[i] == b[j];
        assert(nearest(a[i], o, m) == Some(h));
    }
}

/// A nearest hit among `a` within a limit, and a nearest hit among `b`
/// within what the first leaves, give a nearest hit among both.
pub proof fn lemma_least_join<T>(
    a: Seq<Arc<Object>>,
    b: Seq<Arc<Object>>,
    o: HitOracle<T>,
    m: BoxOracle,
    hi: u64,
    ra: Option<HitRecord<T>>,
    rb: Option<HitRecord<T>>,
)
    requires
        is_least(a, o, m, hi, ra),
        is_least(b, o, m, limit_after(ra, hi), rb),
    ensures
        is_least(a.add(b), o, m, hi, nearer(ra, rb)),
{
    let all = a.add(b);
    let lim = limit_after(ra, hi);
    assert forall|i: int| 0 <= i < all.len() implies (if i < a.len() {
        all[i] == a[i]
    } else {
        all[i] == b[i - a.len()]
    }) by {}
    match rb {
        Some(r) => {
            let j = choose|j: int| 0 <= j < b.len() && nearest(#[trigger] b[j], o, m) == Some(r);
            assert(all[a.len() + j] == b[j]);
            assert forall|i: int| 0 <= i < all.len() implies (nearest(#[trigger] all[i], o, m)
                matches Some(g) ==> g.t >= r.t) by {
                if i < a.len() {
                    assert(all[i] == a[i]);
                } else {
                    assert(all[i] == b[i - a.len()]);
                }
            }
        },
        None => {
            match ra {
                Some(h) => {
                    let k = choose|k: int|
                        0 <= k < a.len() && nearest(#[trigger] a[k], o, m) == Some(h);
                    assert(all[k] == a[k]);
                    assert forall|i: int| 0 <= i < all.len() implies (nearest(
                        #[trigger] all[i],
                        o,
                        m,
                    ) matches Some(g) ==> g.t >= h.t) by {
                        if i < a.len() {
                            assert(all[i] == a[i]);
                        } else {
                            assert(all[i] == b[i - a.len()]);
                        }
                    }
                },
                None => {
                    assert forall|i: int| 0 <= i < all.len() implies !within(
                        nearest(#[trigger] all[i], o, m),
                        hi,
                    ) by {
                        if i < a.len() {
                            assert(all[i] == a[i]);
                        } else {
                            assert(all[i] == b[i - a.len()]);
                        }
                    }
                },
            }
        },
    }
}

/// A query of a list finds a nearest hit among its primitives.
pub proof fn lemma_scan_least<T>(objects: Seq<Arc<Object>>, o: HitOracle<T>, m: BoxOracle, hi: u64)
    requires
        sound_for_all(objects, o, m),
    ensures
        is_least(objects, o, m, hi, scan(objects, o, m, hi)),
    decreases objects.len(),
{
    if objects.len() > 0 {
        let init = objects.drop_last();
        let x = objects.last();
        assert forall|i: int| 0 <= i < init.len() implies sound_for(#[trigger] init[i], o, m) by {
            assert(init[i] == objects[i]);
        }
        lemma_scan_least(init, o, m, hi);
        let before = scan(init, o, m, hi);
        let lim = limit_after(before, hi);
        assert(sound_for(x, o, m));
        assert(reports_nearest(x, o, m, lim));
        let found = x.hit_spec(o, m, lim);
        assert(is_least(seq![x], o, m, lim, found)) by {
            assert(seq![x][0] == x);
        }
        lemma_least_join(init, seq![x], o, m, hi, before, found);
        assert(init.add(seq![x]) == objects);
    }
}

/// Lists inherit from their primitives that a hit lies in the box: where a
/// query of a list finds a hit, the ray meets the box of the list within
/// the limit of the query.
pub proof fn lemma_list_hit_meets_box<T>(
    objects: Seq<Arc<Object>>,
    o: HitOracle<T>,
    m: BoxOracle,
    hi: u64,
)
    requires
        sound_for_all(objects, o, m),
        bounds_of(objects) is Some,
        scan(objects, o, m, hi) is Some,
    ensures
        m(bounds_of(objects)->0, hi),
{
    lemma_scan_least(objects, o, m, hi);
    let h = scan(objects, o, m, hi)->0;
    let i = choose|i: int| 0 <= i < objects.len() && nearest(#[trigger] objects[i], o, m) == Some(h);
    lemma_bounds_of_encloses(objects, i);
    assert(sound_for(objects[i], o, m));
    assert(meets_around(objects[i], o, m, bounds_of(objects)->0, hi));
}

/// Where a query of a hierarchy finds a hit, the ray meets the box of the
/// hierarchy within the limit of the query.
pub proof fn lemma_hit_meets_box<T>(node: &BVHNode, o: HitOracle<T>, m: BoxOracle, hi: u64)
    requires
        node.hit_spec(o, m, hi) is Some,
    ensures
        m(node.bx, hi),
{
}

/// A query of a hierarchy finds a nearest hit among the primitives below
/// it.
pub proof fn lemma_hierarchy_least<T>(node: &BVHNode, o: HitOracle<T>, m: BoxOracle, hi: u64)
    requires
        node.wf(),
        sound_for_all(node.items(), o, m),
    ensures
        is_least(node.items(), o, m, hi, node.hit_spec(o, m, hi)),
    decreases node,
{
    let items = node.items();
    if !m(node.bx, hi) {
        assert forall|i: int| 0 <= i < items.len() implies !within(
            nearest(#[trigger] items[i], o, m),
            hi,
        ) by {
            lemma_root_encloses(node, i);
            assert(sound_for(items[i], o, m));
            assert(meets_around(items[i], o, m, node.bx, hi));
        }
    } else {
        match &node.info {
            BVHNodeType::Leaf(hl) => {
                lemma_scan_least(hl.objects@, o, m, hi);
            },
            BVHNodeType::Interior(left, right) => {
                let a = left.items();
                let b = right.items();
                assert forall|i: int| 0 <= i < a.len() implies sound_for(#[trigger] a[i], o, m) by {
                    assert(a[i] == items[i]);
                }
                assert forall|i: int| 0 <= i < b.len() implies sound_for(#[trigger] b[i], o, m) by {
                    assert(b[i] == items[a.len() + i]);
                }
                lemma_hierarchy_least(&**left, o, m, hi);
                let hit_left = left.hit_spec(o, m, hi);
                lemma_hierarchy_least(&**right, o, m, limit_after(hit_left, hi));
                lemma_least_join(
                    a,
                    b,
                    o,
                    m,
                    hi,
                    hit_left,
                    right.hit_spec(o, m, limit_after(hit_left, hi)),
                );
            },
        }
    }
}

/// A query of a hierarchy and a query of the list of its primitives find
/// hits at the same distance, or both find nothing.
///
/// This holds for every ray for which the answers are sound (see
/// [`sound_for`]), for a hierarchy that holds the primitives of the list,
/// in whatever order.
pub proof fn lemma_hierarchy_matches_list<T>(
    node: &BVHNode,
    objects: Seq<Arc<Object>>,
    o: HitOracle<T>,
    m: BoxOracle,
    hi: u64,
)
    requires
        node.wf(),
        node.items().to_multiset() == objects.to_multiset(),
        sound_for_all(objects, o, m),
    ensures
        same_distance(node.hit_spec(o, m, hi), scan(objects, o, m, hi)),
{
    let items = node.items();
    items.to_multiset_ensures();
    objects.to_multiset_ensures();
    assert forall|x: Arc<Object>| items.contains(x) <==> objects.contains(x) by {
        assert(items.contains(x) <==> items.to_multiset().count(x) > 0);
        assert(objects.contains(x) <==> objects.to_multiset().count(x) > 0);
    }
    assert forall|i: int| 0 <= i < items.len() implies sound_for(#[trigger] items[i], o, m) by {
        assert(items.contains(items[i]));
        let k = choose|k: int| 0 <= k < objects.len() && objects[k] == items[i];
        assert(sound_for(objects[k], o, m));
    }
    lemma_hierarchy_least(node, o, m, hi);
    lemma_scan_least(objects, o, m, hi);
    lemma_least_unique(
        items,
        objects,
        o,
        m,
        hi,
        node.hit_spec(o, m, hi),
        scan(objects, o, m, hi),
    );
}

/// Queries of two lists that hold the same primitives, in whatever order,
/// find hits at the same distance, or both find nothing.
pub proof fn lemma_list_order_is_irrelevant<T>(
    a: Seq<Arc<Object>>,
    b: Seq<Arc<Object>>,
    o: HitOracle<T>,
    m: BoxOracle,
    hi: u64,
)
    requires
        a.to_multiset() == b.to_multiset(),
        sound_for_all(a, o, m),
    ensures
        same_distance(scan(a, o, m, hi), scan(b, o, m, hi)),
{
    lemma_same_members(a, b);
    assert forall|i: int| 0 <= i < b.len() implies sound_for(#[trigger] b[i], o, m) by {
        assert(b.contains(b[i]));
        let k = choose|k: int| 0 <= k < a.len() && a[k] == b[i];
        assert(sound_for(a[k], o, m));
    }
    lemma_scan_least(a, o, m, hi);
    lemma_scan_least(b, o, m, hi);
    lemma_least_unique(a, b, o, m, hi, scan(a, o, m, hi), scan(b, o, m, hi));
}

/// A query of the hierarchy that the median split builds over a list and
/// a query of the list find hits at the same distance, or both find
/// nothing.
pub proof fn lemma_built_hierarchy_matches_list<T>(
    node: &BVHNode,
    objects: Seq<Arc<Object>>,
    o: HitOracle<T>,
    m: BoxOracle,
    hi: u64,
)
    requires
        node.built_from(objects),
        all_boxed(objects),
        sound_for_all(objects, o, m),
    ensures
        same_distance(node.hit_spec(o, m, hi), scan(objects, o, m, hi)),
{
    lemma_built(node, objects);
    lemma_hierarchy_matches_list(node, objects, o, m, hi);
}

} // verus!
