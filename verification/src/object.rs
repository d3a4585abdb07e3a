//! The scene as a tree: primitives, lists and hierarchies of them, and
//! wrappers around them.
//!
//! The tree holds what the structure of a scene decides: which primitive
//! lies where, what kind it is, what its material is and which box bounds
//! it. The geometry itself is the caller's, who finds it by the `id` of a
//! primitive.

use crate::aabb::AABB;
use crate::bvh::BVHNode;
use crate::hittable::{
    agree, flipped, total, BoxOracle, FlipFace, HitOracle, HitRecord, MatTransform,
};
use crate::hittable_list::{
    bounds_of, dead_end_in, lights_among, offered_by, scan, HittableList,
};
use crate::material::Material;
use crate::mesh::TriangleMesh;
use std::sync::Arc;
use vstd::prelude::*;

verus! {

/// The kind of a primitive.
#[derive(Clone, Copy, Debug, PartialEq, Eq, Structural)]
pub enum Shape {
    Sphere,
    MovingSphere,
    XYRect,
    YZRect,
    XZRect,
    RectBox,
    Triangle,
}

/// One primitive: its name, its kind, the kind of its material and the box
/// that bounds it.
#[derive(Clone, Copy, Debug, PartialEq, Eq, Structural)]
pub struct Primitive {
    pub id: usize,
    pub shape: Shape,
    pub mat: Material,
    pub bounds: AABB,
}

impl Primitive {
    /// Whether rays are aimed at this primitive as at a light: it is a
    /// sphere, or a rectangle at a fixed y or at a fixed z, and its
    /// material emits.
    pub open spec fn light(self) -> bool {
        &&& self.shape is XZRect || self.shape is XYRect || self.shape is Sphere
        &&& self.mat.is_emissive()
    }
}

/// A node of the scene.
pub enum Object {
    /// One primitive.
    Primitive(Primitive),
    /// A list of nodes.
    HittableList(HittableList),
    /// A bounding-volume hierarchy over nodes.
    BVHNode(BVHNode),
    /// A triangle mesh: a hierarchy over its triangles.
    TriangleMesh(TriangleMesh),
    /// A node seen from the other side.
    FlipFace(FlipFace),
    /// A node under a transformation.
    MatTransform(MatTransform),
}

impl Object {
    /// Whether rays are aimed at this node as at a light. A wrapper is one
    /// where what it wraps is one; lists, hierarchies and meshes are not.
    pub open spec fn light(&self) -> bool
        decreases self,
    {
        match self {
            Object::Primitive(p) => p.light(),
            Object::FlipFace(ff) => ff.ptr.light(),
            Object::MatTransform(mt) => mt.ptr.light(),
            _ => false,
        }
    }

    /// The lights inside this node, in order. Only lists and hierarchies
    /// are looked into.
    pub open spec fn lights(&self) -> Seq<Arc<Object>>
        decreases self,
    {
        match self {
            Object::BVHNode(n) => n.lights(),
            Object::HittableList(hl) => lights_among(hl.objects@),
            _ => Seq::empty(),
        }
    }

    /// The box that bounds this node, where it has one.
    pub open spec fn bounds(&self) -> Option<AABB>
        decreases self,
    {
        match self {
            Object::Primitive(p) => Some(p.bounds),
            Object::HittableList(hl) => bounds_of(hl.objects@),
            Object::BVHNode(n) => Some(n.bx),
            Object::TriangleMesh(tm) => Some(tm.node.bx),
            Object::FlipFace(ff) => ff.ptr.bounds(),
            Object::MatTransform(mt) => mt.aabb,
        }
    }

    /// What a ray hits first in this node, no farther than `hi`, where `o`
    /// says what the ray hits on one primitive and `m` whether it meets a
    /// box. A transformed node is asked about as a whole, by its own name.
    pub open spec fn hit_spec<T>(&self, o: HitOracle<T>, m: BoxOracle, hi: u64) -> Option<
        HitRecord<T>,
    >
        decreases self,
    {
        match self {
            Object::Primitive(p) => o(p.id, hi),
            Object::HittableList(hl) => scan(hl.objects@, o, m, hi),
            Object::BVHNode(n) => n.hit_spec(o, m, hi),
            Object::TriangleMesh(tm) => tm.node.hit_spec(o, m, hi),
            Object::FlipFace(ff) => match ff.ptr.hit_spec(o, m, hi) {
                Some(r) => Some(flipped(r)),
                None => None,
            },
            Object::MatTransform(mt) => o(mt.id, hi),
        }
    }

    /// What a ray hits first in this node, no farther than `t_max`.
    ///
    /// The ray is the caller's: `probe` says what it hits on one primitive
    /// and `meets` whether it meets a box, each no farther than a limit.
    /// Where they are functions, the result is the hit that
    /// [`Object::hit_spec`] gives for them.
    pub fn hit<T, P: Fn(usize, u64) -> Option<HitRecord<T>>, B: Fn(&AABB, u64) -> bool>(
        &self,
        probe: &P,
        meets: &B,
        t_max: u64,
    ) -> (r: Option<HitRecord<T>>)
        requires
            total(probe, meets),
        ensures
            forall|o: HitOracle<T>, m: BoxOracle| #[trigger]
                agree(probe, meets, o, m) ==> r == self.hit_spec(o, m, t_max),
        decreases self,
    {
        match self {
            Object::Primitive(p) => probe(p.id, t_max),
            Object::HittableList(hl) => hl.hit(probe, meets, t_max),
            Object::BVHNode(n) => n.hit(probe, meets, t_max),
            Object::TriangleMesh(tm) => tm.node.hit(probe, meets, t_max),
            Object::FlipFace(ff) => {
                match ff.ptr.hit(probe, meets, t_max) {
                    Some(rec) => Some(
                        HitRecord {
                            id: rec.id,
                            t: rec.t,
                            front_face: !rec.front_face,
                            detail: rec.detail,
                        },
                    ),
                    None => None,
                }
            },
            Object::MatTransform(mt) => probe(mt.id, t_max),
        }
    }

    /// Whether a random choice in this node can end at the node `x`. In a
    /// list or a hierarchy the choice goes on inside one of its parts, and
    /// through a node seen from the other side it goes on inside that node;
    /// it ends at a primitive, a mesh or a transformed node.
    pub open spec fn offers(&self, x: &Object) -> bool
        decreases self,
    {
        match self {
            Object::HittableList(hl) => offered_by(hl.objects@, x),
            Object::BVHNode(n) => n.offers(x),
            Object::FlipFace(ff) => ff.ptr.offers(x),
            _ => *x == *self,
        }
    }

    /// Whether a random choice in this node can end at an empty list.
    pub open spec fn dead_end(&self) -> bool
        decreases self,
    {
        match self {
            Object::HittableList(hl) => dead_end_in(hl.objects@),
            Object::BVHNode(n) => n.dead_end(),
            Object::FlipFace(ff) => ff.ptr.dead_end(),
            _ => false,
        }
    }

    /// A random choice in this node, for aiming a ray at it: the primitive,
    /// mesh or transformed node at which the choice ends, or `None` where
    /// it ends at an empty list. Two calls may give different results.
    pub fn random(&self) -> (r: Option<&Object>)
        ensures
            match r {
                Some(x) => self.offers(x),
                None => self.dead_end(),
            },
        decreases self,
    {
        match self {
            Object::HittableList(hl) => hl.random(),
            Object::BVHNode(n) => n.random(),
            Object::FlipFace(ff) => ff.ptr.random(),
            _ => Some(self),
        }
    }

    /// Whether rays are aimed at this node as at a light.
    pub fn is_light(&self) -> (b: bool)
        ensures
            b == self.light(),
        decreases self,
    {
        match self {
            Object::FlipFace(ff) => ff.ptr.is_light(),
            Object::MatTransform(mt) => mt.ptr.is_light(),
            Object::Primitive(p) => {
                let aimed_at = match p.shape {
                    Shape::XZRect => true,
                    Shape::XYRect => true,
                    Shape::Sphere => true,
                    _ => false,
                };
                aimed_at && p.mat.emissive()
            },
            _ => false,
        }
    }

    /// The lights inside this node, in order.
    pub fn get_lights(&self) -> (r: Vec<Arc<Object>>)
        ensures
            r@ == self.lights(),
        decreases self,
    {
        match self {
            Object::BVHNode(n) => n.get_lights(),
            Object::HittableList(hl) => hl.get_lights(),
            _ => Vec::new(),
        }
    }

    /// The box that bounds this node, where it has one.
    pub fn bounding_box(&self) -> (r: Option<AABB>)
        ensures
            r == self.bounds(),
        decreases self,
    {
        match self {
            Object::Primitive(p) => Some(p.bounds),
            Object::HittableList(hl) => hl.bounding_box(),
            Object::BVHNode(n) => n.bounding_box(),
            Object::TriangleMesh(tm) => tm.node.bounding_box(),
            Object::FlipFace(ff) => ff.ptr.bounding_box(),
            Object::MatTransform(mt) => mt.aabb,
        }
    }
}

impl Default for Object {
    /// An empty list.
    fn default() -> (r: Object)
        ensures
            r matches Object::HittableList(hl) && hl@.len() == 0,
    {
        Object::HittableList(HittableList::new())
    }
}

} // verus!
