//! Helpers: a random choice, and the lights of lists and hierarchies.

use crate::bvh::BVHNode;
use crate::hittable_list::{lights_among, HittableList};
use crate::object::Object;
use rand::Rng;
use std::sync::Arc;
use vstd::prelude::*;

verus! {

/// A random index below `n`, each equally likely. This is `gen_range` of
/// the `rand` crate on the generator of the current thread, taken on trust:
/// what it returns lies in the range that it was asked for. Two calls may
/// give different results.
#[verifier::external_body]
pub(crate) fn random_index(n: usize) -> (r: usize)
    requires
        n > 0,
    ensures
        r < n,
{
    rand::thread_rng().gen_range(0..n)
}

/// The lights among `v`, in order: a primitive that is a light counts
/// itself, and any other counts the lights inside it.
pub fn get_all_lights(v: &Vec<Arc<Object>>) -> (r: Vec<Arc<Object>>)
    ensures
        r@ == lights_among(v@),
{
    HittableList::lights_of(v)
}

/// The lights below two hierarchies: those of `left`, then those of
/// `right`.
pub fn get_lights_from_node(left: Arc<BVHNode>, right: Arc<BVHNode>) -> (r: Vec<Arc<Object>>)
    ensures
        r@ == left.lights().add(right.lights()),
{
    let mut r = left.get_lights();
    let mut more = right.get_lights();
    r.append(&mut more);
    r
}

} // verus!
