//! What an intersection query reports, what it asks of the caller, and the
//! two wrappers that change how a primitive is seen.

use crate::aabb::AABB;
use crate::object::Object;
use std::sync::Arc;
use vstd::prelude::*;

verus! {

/// Another handle to the value that `a` points to. This is `Arc::clone`,
/// taken on trust: the new handle points to the same value.
#[verifier::external_body]
pub(crate) fn share<T>(a: &Arc<T>) -> (r: Arc<T>)
    ensures
        r == *a,
{
    Arc::clone(a)
}

/// A hit of a ray on a primitive.
///
/// `id` names the primitive. `t` stands for the parameter of the hit along
/// the ray: a number that is smaller for a nearer hit, and equal for hits
/// at the same place. `front_face` says whether the ray met the outward
/// side of the surface. `detail` is whatever else the caller knows of the
/// hit (the point, the normal, the texture coordinates, the material): a
/// query hands it back as it got it.
#[derive(Debug, PartialEq, Eq)]
pub struct HitRecord<T> {
    pub id: usize,
    pub t: u64,
    pub front_face: bool,
    pub detail: T,
}

/// A primitive seen from the other side: a hit on it reports the opposite
/// face.
pub struct FlipFace {
    pub ptr: Arc<Object>,
}

impl FlipFace {
    /// The primitive `ptr`, seen from the other side.
    pub fn new(ptr: Arc<Object>) -> (r: FlipFace)
        ensures
            r.ptr == ptr,
    {
        FlipFace { ptr }
    }
}

/// A primitive moved, turned or scaled by a matrix. The matrix is the
/// caller's, who finds it again by `id`; `aabb` is the box of the primitive
/// after the transformation, where it has one.
pub struct MatTransform {
    pub id: usize,
    pub aabb: Option<AABB>,
    pub ptr: Arc<Object>,
}

impl MatTransform {
    /// The primitive `ptr` under the transformation that `id` names, with
    /// the box `aabb`.
    pub fn new(id: usize, aabb: Option<AABB>, ptr: Arc<Object>) -> (r: MatTransform)
        ensures
            r.id == id,
            r.aabb == aabb,
            r.ptr == ptr,
    {
        MatTransform { id, aabb, ptr }
    }
}

/// What a ray hits on the primitive or transformation `id`, no farther
/// than a limit: the answer to the first kind of question that a query
/// asks of its caller.
pub type HitOracle<T> = spec_fn(usize, u64) -> Option<HitRecord<T>>;

/// Whether a ray meets a box no farther than a limit: the answer to the
/// second kind of question that a query asks of its caller.
pub type BoxOracle = spec_fn(AABB, u64) -> bool;

/// Whether `probe` is the function `o`: whatever it returns on an input is
/// what `o` gives for it.
pub open spec fn answers<T, P: Fn(usize, u64) -> Option<HitRecord<T>>>(
    probe: &P,
    o: HitOracle<T>,
) -> bool {
    forall|id: usize, hi: u64, r: Option<HitRecord<T>>| #[trigger]
        probe.ensures((id, hi), r) ==> r == o(id, hi)
}

/// Whether `meets` is the function `m`: whatever it returns on an input is
/// what `m` gives for it.
pub open spec fn answers_box<B: Fn(&AABB, u64) -> bool>(meets: &B, m: BoxOracle) -> bool {
    forall|b: AABB, hi: u64, r: bool| #[trigger] meets.ensures((&b, hi), r) ==> r == m(b, hi)
}

/// Whether `probe` is the function `o` and `meets` is the function `m`.
pub open spec fn agree<T, P: Fn(usize, u64) -> Option<HitRecord<T>>, B: Fn(&AABB, u64) -> bool>(
    probe: &P,
    meets: &B,
    o: HitOracle<T>,
    m: BoxOracle,
) -> bool {
    answers(probe, o) && answers_box(meets, m)
}

/// The hit `r` with the other face.
pub open spec fn flipped<T>(r: HitRecord<T>) -> HitRecord<T> {
    HitRecord { id: r.id, t: r.t, front_face: !r.front_face, detail: r.detail }
}

/// How far a query still looks after it has found `found`: as far as the
/// hit that it found, or as far as `hi` where it found none.
pub open spec fn limit_after<T>(found: Option<HitRecord<T>>, hi: u64) -> u64 {
    match found {
        Some(r) => r.t,
        None => hi,
    }
}

/// The nearer result of two queries of which the second looked no farther
/// than the first had found: the second where it found something, else the
/// first.
pub open spec fn nearer<T>(first: Option<HitRecord<T>>, second: Option<HitRecord<T>>) -> Option<
    HitRecord<T>,
> {
    match second {
        Some(r) => Some(r),
        None => first,
    }
}

/// Whether `probe` and `meets` accept every input.
pub open spec fn total<T, P: Fn(usize, u64) -> Option<HitRecord<T>>, B: Fn(&AABB, u64) -> bool>(
    probe: &P,
    meets: &B,
) -> bool {
    &&& forall|id: usize, hi: u64| #[trigger] probe.requires((id, hi))
    &&& forall|b: AABB, hi: u64| #[trigger] meets.requires((&b, hi))
}

} // verus!
