//! What every scene has in common, whatever it shows: its world, the
//! lights of the world, and the number of samples for each pixel.

use crate::hittable_list::{lights_among, HittableList};
use crate::object::Object;
use std::sync::Arc;
use vstd::prelude::*;

verus! {

/// The smallest number of samples that a pixel averages.
pub const MIN_SAMPLES: u32 = 100;

/// A scene, ready to be rendered.
pub struct SceneConfig {
    /// The root of the scene.
    pub world: Object,
    /// The list of the lights of the scene, at which rays are aimed.
    pub lights: Arc<Object>,
    /// The number of samples that each pixel averages.
    pub samples_per_pixel: u32,
}

/// The scene with the primitives of `world`. Its lights are the lights of
/// `world`, in order, and each of its pixels averages `samples_per_pixel`
/// samples, or [`MIN_SAMPLES`] where that is more.
pub fn new_scene(world: HittableList, samples_per_pixel: u32) -> (cfg: SceneConfig)
    ensures
        cfg.world matches Object::HittableList(hl) && hl@ == world@,
        *cfg.lights matches Object::HittableList(hl) && hl@ == lights_among(world@),
        cfg.samples_per_pixel == if samples_per_pixel >= MIN_SAMPLES {
            samples_per_pixel
        } else {
            MIN_SAMPLES
        },
{
    let lights = world.get_lights();
    let lights_hittable = Object::HittableList(HittableList { objects: lights });
    let samples = if samples_per_pixel >= MIN_SAMPLES {
        samples_per_pixel
    } else {
        MIN_SAMPLES
    };
    SceneConfig {
        world: Object::HittableList(world),
        lights: Arc::new(lights_hittable),
        samples_per_pixel: samples,
    }
}

} // verus!
