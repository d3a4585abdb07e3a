//! The structure of a path tracer, verified.
//!
//! A path tracer spends its time on floating-point geometry, and that is
//! not what this library does. It holds what surrounds the geometry and
//! decides without it:
//!
//! - the scene as a tree of primitives, lists and bounding-volume
//!   hierarchies ([`object`], [`hittable_list`], [`bvh`], [`hittable`]),
//!   with the boxes on an integer lattice ([`aabb`]), the search for the
//!   nearest hit, the choice of a light to aim at, and the list of the lights
//!   of a scene ([`scenes`], [`utils`]);
//! - the proofs that a hierarchy finds what a plain list finds, and that its
//!   boxes are the boxes around all that lies below them ([`nearest`],
//!   [`bounds`]);
//! - the steps of a path ([`integrator`]) and the kinds of material
//!   ([`material`]);
//! - the frame, and the tiles that a render is cut into ([`image`],
//!   [`tile`]);
//! - reading triangle meshes ([`obj`], [`text`], [`mesh`]), image textures
//!   ([`texture`]) and the sides of a box ([`rect`]).
//!
//! The caller brings the geometry: it answers, for one ray at a time, what
//! the ray hits on one primitive and whether it meets a box.

pub mod aabb;
pub mod bounds;
pub mod bvh;
pub mod error;
pub mod hittable;
pub mod hittable_list;
pub mod image;
pub mod integrator;
pub mod material;
pub mod mesh;
pub mod nearest;
pub mod obj;
pub mod object;
pub mod rect;
pub mod scenes;
pub mod text;
pub mod texture;
pub mod tile;
pub mod utils;
