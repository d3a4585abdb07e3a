//! The bounding-volume hierarchy: a binary tree of boxes over primitives,
//! built by splitting at the median along the widest axis.

use crate::aabb::AABB;
use crate::error::ConfigError;
use crate::hittable::{agree, limit_after, nearer, total, BoxOracle, HitOracle, HitRecord};
use crate::hittable_list::{
    bounds_of, dead_end_in, lemma_bounds_of_some, lights_among, offered_by, scan, HittableList,
};
use crate::object::Object;
use crate::utils::random_index;
use std::sync::Arc;
use vstd::prelude::*;

verus! {

/// The largest number of primitives that a leaf holds.
pub const LEAF_SIZE: usize = 20;

/// What a node of the hierarchy holds.
pub enum BVHNodeType {
    /// A short list of primitives.
    Leaf(Arc<HittableList>),
    /// Two smaller hierarchies.
    Interior(Arc<BVHNode>, Arc<BVHNode>),
}

/// A node of the hierarchy, with the box around everything below it.
pub struct BVHNode {
    pub info: BVHNodeType,
    pub bx: AABB,
}

/// Whether every primitive of `objects` has a box.
pub open spec fn all_boxed(objects: Seq<Arc<Object>>) -> bool {
    forall|i: int| 0 <= i < objects.len() ==> (#[trigger] objects[i]).bounds() is Some
}

/// The smallest coordinate along `axis` that a box of `objects` reaches
/// down to; the largest integer where there is no box.
pub open spec fn lowest(objects: Seq<Arc<Object>>, axis: int) -> int
    decreases objects.len(),
{
    if objects.len() == 0 {
        i64::MAX as int
    } else {
        let rest = lowest(objects.drop_last(), axis);
        match objects.last().bounds() {
            Some(b) => if b.min.at(axis) < rest {
                b.min.at(axis) as int
            } else {
                rest
            },
            None => rest,
        }
    }
}

/// The largest coordinate along `axis` that a box of `objects` reaches up
/// to; the smallest integer where there is no box.
pub open spec fn highest(objects: Seq<Arc<Object>>, axis: int) -> int
    decreases objects.len(),
{
    if objects.len() == 0 {
        i64::MIN as int
    } else {
        let rest = highest(objects.drop_last(), axis);
        match objects.last().bounds() {
            Some(b) => if b.max.at(axis) > rest {
                b.max.at(axis) as int
            } else {
                rest
            },
            None => rest,
        }
    }
}

/// How far the boxes of `objects` reach along `axis`, all together.
pub open spec fn reach(objects: Seq<Arc<Object>>, axis: int) -> int {
    highest(objects, axis) - lowest(objects, axis)
}

/// The axis along which the boxes of `objects` reach farthest; of two axes
/// with the same reach, the first.
pub open spec fn widest_axis(objects: Seq<Arc<Object>>) -> int {
    let x = reach(objects, 0);
    let y = reach(objects, 1);
    let z = reach(objects, 2);
    if x >= y && x >= z {
        0
    } else if y >= z {
        1
    } else {
        2
    }
}

/// Twice the middle of the box of `object` along `axis`.
pub open spec fn middle(object: Arc<Object>, axis: int) -> int
    recommends
        object.bounds() is Some,
{
    object.bounds()->0.centroid(axis)
}

/// Whether the boxes of `objects` come in the order of their middles along
/// `axis`, smallest first.
pub open spec fn ordered(objects: Seq<Arc<Object>>, axis: int) -> bool {
    forall|i: int, j: int|
        0 <= i <= j < objects.len() ==> middle(#[trigger] objects[i], axis) <= middle(
            #[trigger] objects[j],
            axis,
        )
}

/// Whether `sorted` holds the primitives of `objects`, each as often as
/// `objects` does, in the order of their middles along the widest axis of
/// `objects`.
pub open spec fn sorted_from(sorted: Seq<Arc<Object>>, objects: Seq<Arc<Object>>) -> bool {
    &&& sorted.to_multiset() == objects.to_multiset()
    &&& ordered(sorted, widest_axis(objects))
}

/// Two lists that hold the same primitives equally often are equally long
/// and have the same members; where the primitives of one have boxes, so
/// have those of the other.
pub proof fn lemma_same_members(a: Seq<Arc<Object>>, b: Seq<Arc<Object>>)
    requires
        a.to_multiset() == b.to_multiset(),
    ensures
        a.len() == b.len(),
        forall|x: Arc<Object>| a.contains(x) <==> b.contains(x),
        all_boxed(a) <==> all_boxed(b),
{
    a.to_multiset_ensures();
    b.to_multiset_ensures();
    assert forall|x: Arc<Object>| a.contains(x) <==> b.contains(x) by {
        assert(a.contains(x) <==> a.to_multiset().count(x) > 0);
        assert(b.contains(x) <==> b.to_multiset().count(x) > 0);
    }
    if all_boxed(a) {
        assert forall|i: int| 0 <= i < b.len() implies (#[trigger] b[i]).bounds() is Some by {
            assert(b.contains(b[i]));
            let k = choose|k: int| 0 <= k < a.len() && a[k] == b[i];
            assert(a[k].bounds() is Some);
        }
    }
    if all_boxed(b) {
        assert forall|i: int| 0 <= i < a.len() implies (#[trigger] a[i]).bounds() is Some by {
            assert(a.contains(a[i]));
            let k = choose|k: int| 0 <= k < b.len() && b[k] == a[i];
            assert(b[k].bounds() is Some);
        }
    }
}

/// Twice the middle of the box of `object` along `axis`.
pub fn middle_key(object: &Arc<Object>, axis: usize) -> (k: i128)
    requires
        axis < 3,
        object.bounds() is Some,
    ensures
        k == middle(*object, axis as int),
{
    match object.bounding_box() {
        Some(b) => b.centroid_key(axis),
        None => 0,
    }
}

/// Sorts `objects` by the middles of their boxes along `axis`, smallest
/// first. This is `sort_unstable_by_key` of the standard library, taken on
/// trust: afterwards the list holds what it held, each primitive as often
/// as before, in the order of the keys. Which of two primitives with the
/// same middle comes first is left open.
#[verifier::external_body]
fn sort_by_middle(objects: &mut Vec<Arc<Object>>, axis: usize)
    requires
        axis < 3,
        all_boxed(old(objects)@),
    ensures
        final(objects)@.to_multiset() == old(objects)@.to_multiset(),
        ordered(final(objects)@, axis as int),
{
    objects.sort_unstable_by_key(|object| middle_key(object, axis));
}

/// How far the boxes of `objects` reach along `axis`, all together.
fn axis_range(objects: &Vec<Arc<Object>>, axis: usize) -> (r: i128)
    requires
        axis < 3,
    ensures
        r == reach(objects@, axis as int),
{
    let mut low: i64 = i64::MAX;
    let mut high: i64 = i64::MIN;
    let mut i: usize = 0;
    assert(objects@.take(0) == Seq::<Arc<Object>>::empty());
    while i < objects.len()
        invariant
            i <= objects.len(),
            axis < 3,
            low == lowest(objects@.take(i as int), axis as int),
            high == highest(objects@.take(i as int), axis as int),
        decreases objects.len() - i,
    {
        proof {
            assert(objects@.take(i + 1).drop_last() == objects@.take(i as int));
            assert(objects@.take(i + 1).last() == objects@[i as int]);
        }
        match objects[i].bounding_box() {
            Some(aabb) => {
                let a = aabb.min.coord(axis);
                let b = aabb.max.coord(axis);
                if a < low {
                    low = a;
                }
                if b > high {
                    high = b;
                }
            },
            None => {},
        }
        i += 1;
    }
    assert(objects@.take(i as int) == objects@);
    high as i128 - low as i128
}

/// The axis along which the boxes of `objects` reach farthest.
fn widest(objects: &Vec<Arc<Object>>) -> (axis: usize)
    ensures
        axis == widest_axis(objects@),
        axis < 3,
{
    let x = axis_range(objects, 0);
    let y = axis_range(objects, 1);
    let z = axis_range(objects, 2);
    if x >= y && x >= z {
        0
    } else if y >= z {
        1
    } else {
        2
    }
}

impl BVHNode {
    /// The hierarchy over the primitives of `hittable_list`.
    pub fn new(hittable_list: HittableList) -> (r: Result<BVHNode, ConfigError>)
        requires
            all_boxed(hittable_list@),
        ensures
            match r {
                Ok(node) => hittable_list@.len() > 0 && node.built_from(hittable_list@),
                Err(e) => hittable_list@.len() == 0 && e == ConfigError::EmptyPrimitiveList,
            },
    {
        BVHNode::from_vec(hittable_list.objects)
    }

    /// The hierarchy over `src_objects`, each of which has a box. An empty
    /// list has no hierarchy.
    pub fn from_vec(src_objects: Vec<Arc<Object>>) -> (r: Result<BVHNode, ConfigError>)
        requires
            all_boxed(src_objects@),
        ensures
            match r {
                Ok(node) => src_objects@.len() > 0 && node.built_from(src_objects@),
                Err(e) => src_objects@.len() == 0 && e == ConfigError::EmptyPrimitiveList,
            },
        decreases src_objects@.len(),
    {
        let object_span = src_objects.len();
        if object_span == 0 {
            return Err(ConfigError::EmptyPrimitiveList);
        }
        let axis = widest(&src_objects);
        let mut objects = src_objects;
        sort_by_middle(&mut objects, axis);
        let ghost sorted = objects@;
        proof {
            lemma_same_members(sorted, src_objects@);
        }
        if object_span <= LEAF_SIZE {
            let list = HittableList::from_vec(objects);
            proof {
                lemma_bounds_of_some(list@);
            }
            match list.bounding_box() {
                Some(bx) => {
                    Ok(BVHNode { info: BVHNodeType::Leaf(Arc::new(list)), bx })
                },
                None => Err(ConfigError::EmptyPrimitiveList),
            }
        } else {
            let mid = object_span / 2;
            let upper = objects.split_off(mid);
            proof {
                assert(upper@ == sorted.skip(mid as int));
                assert(objects@ == sorted.take(mid as int));
                assert forall|i: int| 0 <= i < upper@.len() implies (#[trigger] upper@[i]).bounds()
                    is Some by {
                    assert(upper@[i] == sorted[mid + i]);
                }
                assert forall|i: int| 0 <= i < objects@.len() implies (
                #[trigger] objects@[i]).bounds() is Some by {
                    assert(objects@[i] == sorted[i]);
                }
            }
            let left = match BVHNode::from_vec(upper) {
                Ok(node) => node,
                Err(e) => {
                    return Err(e);
                },
            };
            let right = match BVHNode::from_vec(objects) {
                Ok(node) => node,
                Err(e) => {
                    return Err(e);
                },
            };
            let bx = AABB::from_surrounding(left.bx, right.bx);
            let node = BVHNode { info: BVHNodeType::Interior(Arc::new(left), Arc::new(right)), bx };
            proof {
                assert(left.built_from(sorted.skip((src_objects@.len() / 2) as int)));
                assert(right.built_from(sorted.take((src_objects@.len() / 2) as int)));
                assert(sorted_from(sorted, src_objects@));
            }
            Ok(node)
        }
    }

    /// The primitives below the node, from left to right.
    pub open spec fn items(&self) -> Seq<Arc<Object>>
        decreases self,
    {
        match self.info {
            BVHNodeType::Leaf(hl) => hl.objects@,
            BVHNodeType::Interior(left, right) => left.items().add(right.items()),
        }
    }

    /// Whether the boxes of the hierarchy are what they are meant to be: a
    /// leaf holds at least one primitive, each with a box, and its box is
    /// the one around them; the box of any other node is the one around the
    /// boxes of its two sides.
    pub open spec fn wf(&self) -> bool
        decreases self,
    {
        match self.info {
            BVHNodeType::Leaf(hl) => {
                &&& hl.objects@.len() > 0
                &&& all_boxed(hl.objects@)
                &&& bounds_of(hl.objects@) == Some(self.bx)
            },
            BVHNodeType::Interior(left, right) => {
                &&& left.wf()
                &&& right.wf()
                &&& self.bx == left.bx.surround(right.bx)
            },
        }
    }

    /// Whether the node is a hierarchy that the median split builds over
    /// `objects`.
    ///
    /// The primitives are sorted by the middles of their boxes along the
    /// widest axis. Up to [`LEAF_SIZE`] of them make a leaf. More are cut
    /// in two at the median: the upper part makes the left side and the
    /// lower part the right side, each built in the same way.
    pub open spec fn built_from(&self, objects: Seq<Arc<Object>>) -> bool
        decreases self,
    {
        match self.info {
            BVHNodeType::Leaf(hl) => {
                &&& 0 < objects.len() <= LEAF_SIZE
                &&& sorted_from(hl.objects@, objects)
                &&& bounds_of(hl.objects@) == Some(self.bx)
            },
            BVHNodeType::Interior(left, right) => {
                &&& objects.len() > LEAF_SIZE
                &&& self.bx == left.bx.surround(right.bx)
                &&& exists|sorted: Seq<Arc<Object>>|
                    {
                        &&& #[trigger] sorted_from(sorted, objects)
                        &&& left.built_from(sorted.skip((objects.len() / 2) as int))
                        &&& right.built_from(sorted.take((objects.len() / 2) as int))
                    }
            },
        }
    }

    /// The lights below the node, in order.
    pub open spec fn lights(&self) -> Seq<Arc<Object>>
        decreases self,
    {
        match self.info {
            BVHNodeType::Leaf(hl) => lights_among(hl.objects@),
            BVHNodeType::Interior(left, right) => left.lights().add(right.lights()),
        }
    }

    /// What a ray hits first below the node, no farther than `hi`, where
    /// `o` says what the ray hits on one primitive and `m` whether it meets
    /// a box. Nothing, where the ray does not meet the box of the node. In
    /// a leaf, the hit of its list. Else the left side is asked first, and
    /// the right side no farther than what the left side found.
    pub open spec fn hit_spec<T>(&self, o: HitOracle<T>, m: BoxOracle, hi: u64) -> Option<
        HitRecord<T>,
    >
        decreases self,
    {
        if !m(self.bx, hi) {
            None
        } else {
            match self.info {
                BVHNodeType::Leaf(hl) => scan(hl.objects@, o, m, hi),
                BVHNodeType::Interior(left, right) => {
                    let hit_left = left.hit_spec(o, m, hi);
                    nearer(hit_left, right.hit_spec(o, m, limit_after(hit_left, hi)))
                },
            }
        }
    }

    /// What a ray hits first below the node, no farther than `t_max`.
    ///
    /// The ray is the caller's: `probe` says what it hits on one primitive
    /// and `meets` whether it meets a box, each no farther than a limit.
    /// Where they are functions, the result is the hit that
    /// [`BVHNode::hit_spec`] gives for them.
    pub fn hit<T, P: Fn(usize, u64) -> Option<HitRecord<T>>, B: Fn(&AABB, u64) -> bool>(
        &self,
        probe: &P,
        meets: &B,
        t_max: u64,
    ) -> (r: Option<HitRecord<T>>)
        requires
            total(probe, meets),
        ensures
            forall|o: HitOracle<T>, m: BoxOracle| #[trigger]
                agree(probe, meets, o, m) ==> r == self.hit_spec(o, m, t_max),
        decreases self,
    {
        if !meets(&self.bx, t_max) {
            return None;
        }
        match &self.info {
            BVHNodeType::Leaf(hl) => hl.hit(probe, meets, t_max),
            BVHNodeType::Interior(left, right) => {
                let hit_left = left.hit(probe, meets, t_max);
                let t = match &hit_left {
                    Some(hc) => hc.t,
                    None => t_max,
                };
                let hit_right = right.hit(probe, meets, t);
                match hit_right {
                    Some(r) => Some(r),
                    None => hit_left,
                }
            },
        }
    }

    /// Whether a random choice below the node can end at the node `x`.
    pub open spec fn offers(&self, x: &Object) -> bool
        decreases self,
    {
        match self.info {
            BVHNodeType::Leaf(hl) => offered_by(hl.objects@, x),
            BVHNodeType::Interior(left, right) => left.offers(x) || right.offers(x),
        }
    }

    /// Whether a random choice below the node can end at an empty list.
    pub open spec fn dead_end(&self) -> bool
        decreases self,
    {
        match self.info {
            BVHNodeType::Leaf(hl) => dead_end_in(hl.objects@),
            BVHNodeType::Interior(left, right) => left.dead_end() || right.dead_end(),
        }
    }

    /// A random choice below the node: one of the two sides is drawn, each
    /// equally likely, and the choice goes on there; in a leaf it goes on
    /// in its list. `None` where the choice ends at an empty list.
    pub fn random(&self) -> (r: Option<&Object>)
        ensures
            match r {
                Some(x) => self.offers(x),
                None => self.dead_end(),
            },
        decreases self,
    {
        match &self.info {
            BVHNodeType::Interior(left, right) => {
                if random_index(2) == 0 {
                    left.random()
                } else {
                    right.random()
                }
            },
            BVHNodeType::Leaf(hl) => hl.random(),
        }
    }

    /// The lights below the node, in order.
    pub fn get_lights(&self) -> (r: Vec<Arc<Object>>)
        ensures
            r@ == self.lights(),
        decreases self,
    {
        match &self.info {
            BVHNodeType::Interior(left, right) => {
                let mut r = left.get_lights();
                let mut more = right.get_lights();
                r.append(&mut more);
                r
            },
            BVHNodeType::Leaf(hl) => hl.get_lights(),
        }
    }

    /// The box around everything below the node.
    pub fn bounding_box(&self) -> (r: Option<AABB>)
        ensures
            r == Some(self.bx),
    {
        Some(self.bx)
    }
}

} // verus!
