//! The kinds of material, and what follows from the kind alone.

use vstd::prelude::*;

verus! {

/// The kind of a material. What a material looks like (its colours, its
/// roughness, its refractive index) is the caller's to keep.
#[derive(Clone, Copy, Debug, PartialEq, Eq, Structural)]
pub enum Material {
    /// Diffuse: scatters around the surface normal.
    Lambertain,
    /// Mirror-like: reflects, with some roughness.
    Metal,
    /// Transparent: reflects or refracts.
    Dielectric,
    /// A light: emits and does not scatter.
    DiffuseLight,
}

/// How a surface answers a ray that hits it.
#[derive(Clone, Copy, Debug, PartialEq, Eq, Structural)]
pub enum Scatter {
    /// The ray ends here.
    Absorbed,
    /// The ray goes on in one direction that the hit fixes: a reflection
    /// or a refraction.
    Specular,
    /// The ray goes on in a direction drawn from a distribution around the
    /// surface normal.
    Diffuse,
}

impl Material {
    /// Whether a surface of this material sends out light of its own.
    pub open spec fn is_emissive(self) -> bool {
        self is DiffuseLight
    }

    /// How a surface of this material answers a ray. A diffuse material
    /// always scatters diffusely, a transparent one is always specular, and
    /// a light absorbs. A metal is specular where the reflected ray leaves
    /// the surface, which `leaves` says, and absorbs the ray where it would
    /// enter the surface.
    pub open spec fn scatters(self, leaves: bool) -> Scatter {
        match self {
            Material::Lambertain => Scatter::Diffuse,
            Material::Metal => if leaves {
                Scatter::Specular
            } else {
                Scatter::Absorbed
            },
            Material::Dielectric => Scatter::Specular,
            Material::DiffuseLight => Scatter::Absorbed,
        }
    }

    /// Whether a surface of this material sends out light of its own.
    pub fn emissive(&self) -> (b: bool)
        ensures
            b == self.is_emissive(),
    {
        match self {
            Material::DiffuseLight => true,
            _ => false,
        }
    }

    /// Whether a hit on this material shows emitted light: a light shows
    /// its light on its front face only, and no other material shows any.
    pub fn emitted(&self, front_face: bool) -> (b: bool)
        ensures
            b == (self.is_emissive() && front_face),
    {
        self.emissive() && front_face
    }

    /// How a surface of this material answers a ray, where `leaves` says
    /// whether the reflected ray leaves the surface.
    pub fn scatter(&self, leaves: bool) -> (s: Scatter)
        ensures
            s == self.scatters(leaves),
    {
        match self {
            Material::Lambertain => Scatter::Diffuse,
            Material::Metal => if leaves {
                Scatter::Specular
            } else {
                Scatter::Absorbed
            },
            Material::Dielectric => Scatter::Specular,
            Material::DiffuseLight => Scatter::Absorbed,
        }
    }
}

} // verus!
