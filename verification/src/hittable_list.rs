//! A flat list of primitives.

use crate::aabb::AABB;
use crate::hittable::{
    agree, limit_after, nearer, share, total, BoxOracle, HitOracle, HitRecord,
};
use crate::object::Object;
use crate::utils::random_index;
use std::sync::Arc;
use vstd::prelude::*;

verus! {

/// A list of primitives, in the order in which they were added.
pub struct HittableList {
    pub objects: Vec<Arc<Object>>,
}

impl View for HittableList {
    type V = Seq<Arc<Object>>;

    open spec fn view(&self) -> Seq<Arc<Object>> {
        self.objects@
    }
}

/// The box around all the boxes of `objects`: `None` for an empty list, and
/// where one of the primitives has no box.
pub open spec fn bounds_of(objects: Seq<Arc<Object>>) -> Option<AABB>
    decreases objects,
{
    if objects.len() == 0 {
        None
    } else if objects.len() == 1 {
        objects[0].bounds()
    } else {
        match (bounds_of(objects.drop_last()), objects.last().bounds()) {
            (Some(a), Some(b)) => Some(a.surround(b)),
            _ => None,
        }
    }
}

/// The lights among `objects`, in order: a primitive that is a light
/// counts itself, and any other counts the lights inside it.
pub open spec fn lights_among(objects: Seq<Arc<Object>>) -> Seq<Arc<Object>>
    decreases objects,
{
    if objects.len() == 0 {
        Seq::empty()
    } else {
        let o = objects.last();
        lights_among(objects.drop_last()).add(
            if o.light() {
                seq![o]
            } else {
                o.lights()
            },
        )
    }
}

/// What a ray hits first among `objects`, no farther than `hi`: the
/// primitives are asked in order, each no farther than the nearest hit so
/// far. `None` where the ray hits none of them, and for an empty list.
pub open spec fn scan<T>(
    objects: Seq<Arc<Object>>,
    o: HitOracle<T>,
    m: BoxOracle,
    hi: u64,
) -> Option<HitRecord<T>>
    decreases objects,
{
    if objects.len() == 0 {
        None
    } else {
        let before = scan(objects.drop_last(), o, m, hi);
        nearer(before, objects.last().hit_spec(o, m, limit_after(before, hi)))
    }
}

/// Whether a random choice among `objects` can end at the node `x`.
pub open spec fn offered_by(objects: Seq<Arc<Object>>, x: &Object) -> bool
    decreases objects,
{
    exists|i: int| 0 <= i < objects.len() && (#[trigger] objects[i]).offers(x)
}

/// Whether a random choice among `objects` can end at an empty list.
pub open spec fn dead_end_in(objects: Seq<Arc<Object>>) -> bool
    decreases objects,
{
    objects.len() == 0 || exists|i: int| 0 <= i < objects.len() && (#[trigger] objects[i]).dead_end()
}

impl HittableList {
    /// A random choice in the list: one of its primitives is drawn, each
    /// equally likely, and the choice goes on inside it (see
    /// [`Object::random`]). `None` where the choice ends at an empty list.
    pub fn random(&self) -> (r: Option<&Object>)
        ensures
            match r {
                Some(x) => offered_by(self@, x),
                None => dead_end_in(self@),
            },
        decreases self,
    {
        if self.objects.len() == 0 {
            return None;
        }
        let size = self.objects.len();
        let r: usize = random_index(size);
        self.objects[r].random()
    }

    /// What a ray hits first in the list, no farther than `t_max`.
    ///
    /// The ray is the caller's: `probe` says what it hits on one primitive
    /// and `meets` whether it meets a box, each no farther than a limit.
    /// Where they are functions, the result is the hit that [`scan`] gives
    /// for them.
    pub fn hit<T, P: Fn(usize, u64) -> Option<HitRecord<T>>, B: Fn(&AABB, u64) -> bool>(
        &self,
        probe: &P,
        meets: &B,
        t_max: u64,
    ) -> (r: Option<HitRecord<T>>)
        requires
            total(probe, meets),
        ensures
            forall|o: HitOracle<T>, m: BoxOracle| #[trigger]
                agree(probe, meets, o, m) ==> r == scan(self@, o, m, t_max),
        decreases self,
    {
        let mut rec: Option<HitRecord<T>> = None;
        let mut closest_so_far: u64 = t_max;
        let mut i: usize = 0;
        assert(self.objects@.take(0) == Seq::<Arc<Object>>::empty());
        while i < self.objects.len()
            invariant
                i <= self.objects.len(),
                total(probe, meets),
                closest_so_far == limit_after(rec, t_max),
                forall|o: HitOracle<T>, m: BoxOracle| #[trigger]
                    agree(probe, meets, o, m) ==> rec == scan(
                        self.objects@.take(i as int),
                        o,
                        m,
                        t_max,
                    ),
            decreases self.objects.len() - i,
        {
            let ghost before = rec;
            let found = self.objects[i].hit(probe, meets, closest_so_far);
            let ghost found_here = found;
            match found {
                Some(hit) => {
                    closest_so_far = hit.t;
                    rec = Some(hit);
                },
                None => {},
            }
            proof {
                assert(self.objects@.take(i + 1).drop_last() == self.objects@.take(i as int));
                assert(self.objects@.take(i + 1).last() == self.objects@[i as int]);
                assert forall|o: HitOracle<T>, m: BoxOracle| #[trigger]
                    agree(probe, meets, o, m) implies rec == scan(
                    self.objects@.take(i + 1),
                    o,
                    m,
                    t_max,
                ) by {
                    assert(before == scan(self.objects@.take(i as int), o, m, t_max));
                    assert(found_here == self.objects@[i as int].hit_spec(
                        o,
                        m,
                        limit_after(before, t_max),
                    ));
                }
            }
            i += 1;
        }
        assert(self.objects@.take(i as int) == self.objects@);
        rec
    }

    /// An empty list.
    pub fn new() -> (r: HittableList)
        ensures
            r@ == Seq::<Arc<Object>>::empty(),
    {
        HittableList { objects: Vec::new() }
    }

    /// The list of the primitives of `objects`.
    pub fn from_vec(objects: Vec<Arc<Object>>) -> (r: HittableList)
        ensures
            r@ == objects@,
    {
        HittableList { objects }
    }

    /// Empties the list.
    pub fn clear(&mut self)
        ensures
            final(self)@ == Seq::<Arc<Object>>::empty(),
    {
        self.objects.clear()
    }

    /// Adds `object` at the end of the list.
    pub fn add(&mut self, object: Arc<Object>)
        ensures
            final(self)@ == old(self)@.push(object),
    {
        self.objects.push(object)
    }

    /// The lights of the list, in order.
    pub fn get_lights(&self) -> (r: Vec<Arc<Object>>)
        ensures
            r@ == lights_among(self@),
        decreases self, 1int,
    {
        HittableList::lights_of(&self.objects)
    }

    /// The lights among `objects`, in order.
    pub(crate) fn lights_of(objects: &Vec<Arc<Object>>) -> (r: Vec<Arc<Object>>)
        ensures
            r@ == lights_among(objects@),
        decreases objects, 0int,
    {
        let mut r: Vec<Arc<Object>> = Vec::new();
        let mut i: usize = 0;
        assert(objects@.take(0) == Seq::<Arc<Object>>::empty());
        while i < objects.len()
            invariant
                i <= objects.len(),
                r@ == lights_among(objects@.take(i as int)),
            decreases objects.len() - i,
        {
            proof {
                assert(objects@.take(i + 1).drop_last() == objects@.take(i as int));
                assert(objects@.take(i + 1).last() == objects@[i as int]);
            }
            let o = &objects[i];
            if o.is_light() {
                r.push(share(o));
            } else {
                let mut inner = o.get_lights();
                r.append(&mut inner);
            }
            i += 1;
        }
        assert(objects@.take(i as int) == objects@);
        r
    }

    /// The box around the list: `None` for an empty list, and where one of
    /// its primitives has no box.
    pub fn bounding_box(&self) -> (r: Option<AABB>)
        ensures
            r == bounds_of(self@),
        decreases self,
    {
        if self.objects.len() == 0 {
            return None;
        }
        let mut output_box = match self.objects[0].bounding_box() {
            None => {
                proof {
                    lemma_bounds_of_none(self.objects@, 0);
                }
                return None;
            },
            Some(aabb) => aabb,
        };
        let mut i: usize = 1;
        assert(self.objects@.take(1) == seq![self.objects@[0]]);
        while i < self.objects.len()
            invariant
                1 <= i <= self.objects.len(),
                bounds_of(self.objects@.take(i as int)) == Some(output_box),
            decreases self.objects.len() - i,
        {
            proof {
                assert(self.objects@.take(i + 1).drop_last() == self.objects@.take(i as int));
                assert(self.objects@.take(i + 1).last() == self.objects@[i as int]);
            }
            match self.objects[i].bounding_box() {
                None => {
                    proof {
                        lemma_bounds_of_none(self.objects@, i as int);
                    }
                    return None;
                },
                Some(aabb) => {
                    output_box = AABB::from_surrounding(output_box, aabb);
                },
            }
            i += 1;
        }
        assert(self.objects@.take(i as int) == self.objects@);
        Some(output_box)
    }
}

impl Default for HittableList {
    /// An empty list.
    fn default() -> (r: HittableList)
        ensures
            r@ == Seq::<Arc<Object>>::empty(),
    {
        HittableList::new()
    }
}

/// A list with a primitive without a box has no box.
pub proof fn lemma_bounds_of_none(objects: Seq<Arc<Object>>, i: int)
    requires
        0 <= i < objects.len(),
        objects[i].bounds() is None,
    ensures
        bounds_of(objects) is None,
    decreases objects.len(),
{
    if objects.len() > 1 && i < objects.len() - 1 {
        lemma_bounds_of_none(objects.drop_last(), i);
    }
}

/// A list has a box exactly when it is not empty and each of its
/// primitives has one.
pub proof fn lemma_bounds_of_some(objects: Seq<Arc<Object>>)
    ensures
        bounds_of(objects) is Some <==> objects.len() > 0 && forall|i: int|
            0 <= i < objects.len() ==> (#[trigger] objects[i]).bounds() is Some,
    decreases objects.len(),
{
    if objects.len() > 1 {
        lemma_bounds_of_some(objects.drop_last());
        if bounds_of(objects) is Some {
            assert forall|i: int| 0 <= i < objects.len() implies (#[trigger] objects[i]).bounds()
                is Some by {
                if i < objects.len() - 1 {
                    assert(objects[i] == objects.drop_last()[i]);
                }
            }
        } else if objects.last().bounds() is Some {
            let k = choose|k: int|
                0 <= k < objects.drop_last().len() && (#[trigger] objects.drop_last()[k]).bounds()
                    is None;
            assert(objects[k] == objects.drop_last()[k]);
        }
    }
}

} // verus!
