//! The decisions of the path integrator: when a path ends, with what, and
//! how it goes on. The colours, and the arithmetic on them, are the
//! caller's.
//!
//! The radiance along a ray is found step by step. At each step the caller
//! intersects the ray with the scene and says what the ray met; [`bounce`]
//! says what follows.

use crate::material::Scatter;
use vstd::prelude::*;

verus! {

/// How many steps a path may take.
pub const MAX_DEPTH: u32 = 5;

/// What a ray met.
#[derive(Clone, Copy, Debug, PartialEq, Eq, Structural)]
pub enum Met {
    /// Nothing: the ray left the scene.
    Nothing,
    /// A surface that absorbs the ray.
    Absorbed,
    /// A surface that reflects or refracts the ray in one direction.
    Specular,
    /// A surface that scatters the ray. A direction was drawn from the
    /// mixture of the light distribution and the distribution of the
    /// material, and `density_is_zero` says whether the density of the
    /// mixture in that direction is zero.
    Diffuse { density_is_zero: bool },
}

/// The radiance with which a path ends.
#[derive(Clone, Copy, Debug, PartialEq, Eq, Structural)]
pub enum Radiance {
    /// No light at all.
    Black,
    /// The colour of the background.
    Background,
    /// What the surface emits.
    Emitted,
}

/// By what the radiance of the rest of a path is multiplied.
#[derive(Clone, Copy, Debug, PartialEq, Eq, Structural)]
pub enum Weight {
    /// The attenuation of the surface.
    Attenuation,
    /// The attenuation of the surface, times the scattering density of the
    /// material in the drawn direction, divided by the density of the
    /// mixture in that direction.
    AttenuationByDensities,
}

/// What follows a step of a path.
#[derive(Clone, Copy, Debug, PartialEq, Eq, Structural)]
pub enum Step {
    /// The path ends with this radiance.
    End(Radiance),
    /// The path goes on along the new ray, with `depth` steps left. The
    /// radiance is what the surface emits, plus `weight` times the radiance
    /// of the rest of the path.
    Go { weight: Weight, depth: u32 },
}

impl Met {
    /// What a ray met that hit a surface, by how the surface answers it.
    pub fn surface(scatter: Scatter, density_is_zero: bool) -> (met: Met)
        ensures
            met == (match scatter {
                Scatter::Absorbed => Met::Absorbed,
                Scatter::Specular => Met::Specular,
                Scatter::Diffuse => Met::Diffuse { density_is_zero },
            }),
    {
        match scatter {
            Scatter::Absorbed => Met::Absorbed,
            Scatter::Specular => Met::Specular,
            Scatter::Diffuse => Met::Diffuse { density_is_zero },
        }
    }
}

/// What follows when a path with `depth` steps left has met `met`.
///
/// A path without steps left ends in black. A ray that leaves the scene
/// ends in the background. On a surface that absorbs, the path ends with
/// what the surface emits; so it does where the density of the drawn
/// direction is zero, since nothing can be weighed by it. Otherwise the
/// path goes on with one step less.
pub open spec fn after(depth: u32, met: Met) -> Step {
    if depth == 0 {
        Step::End(Radiance::Black)
    } else {
        match met {
            Met::Nothing => Step::End(Radiance::Background),
            Met::Absorbed => Step::End(Radiance::Emitted),
            Met::Specular => Step::Go { weight: Weight::Attenuation, depth: (depth - 1) as u32 },
            Met::Diffuse { density_is_zero } => if density_is_zero {
                Step::End(Radiance::Emitted)
            } else {
                Step::Go { weight: Weight::AttenuationByDensities, depth: (depth - 1) as u32 }
            },
        }
    }
}

/// How many times a path with `depth` steps left goes on, where `mets`
/// holds what its rays meet, one after the other.
pub open spec fn bounces(depth: u32, mets: Seq<Met>) -> nat
    decreases mets.len(),
{
    if mets.len() == 0 {
        0
    } else {
        match after(depth, mets[0]) {
            Step::End(_) => 0,
            Step::Go { depth: left, .. } => 1 + bounces(left, mets.drop_first()),
        }
    }
}

/// The depth caps the length of a path: whatever its rays meet, a path
/// goes on at most as often as it has steps left.
pub proof fn lemma_depth_caps_path(depth: u32, mets: Seq<Met>)
    ensures
        bounces(depth, mets) <= depth,
    decreases mets.len(),
{
    if mets.len() > 0 {
        if let Step::Go { depth: left, .. } = after(depth, mets[0]) {
            lemma_depth_caps_path(left, mets.drop_first());
        }
    }
}

/// Whether a path with `depth` steps left has come to its end before it
/// looks at the scene.
pub fn exhausted(depth: u32) -> (b: bool)
    ensures
        b == (depth == 0),
        b ==> forall|met: Met| after(depth, met) == Step::End(Radiance::Black),
{
    depth == 0
}

/// What follows when a path with `depth` steps left has met `met`.
pub fn bounce(depth: u32, met: Met) -> (step: Step)
    ensures
        step == after(depth, met),
        step matches Step::Go { depth: left, .. } ==> left + 1 == depth,
{
    if depth == 0 {
        return Step::End(Radiance::Black);
    }
    match met {
        Met::Nothing => Step::End(Radiance::Background),
        Met::Absorbed => Step::End(Radiance::Emitted),
        Met::Specular => Step::Go { weight: Weight::Attenuation, depth: depth - 1 },
        Met::Diffuse { density_is_zero } => {
            if density_is_zero {
                Step::End(Radiance::Emitted)
            } else {
                Step::Go { weight: Weight::AttenuationByDensities, depth: depth - 1 }
            }
        },
    }
}

} // verus!
