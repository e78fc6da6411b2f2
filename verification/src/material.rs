//! Materials: what a surface does to a ray that meets it.

use vstd::prelude::*;
use crate::color::{spec_black, Bounce};
use crate::scalar::{Scalar, ONE_BITS};
use crate::texture::{SolidColor, Texture};
use crate::vec3::{Color, Vec3};

verus! {

/// White: the attenuation of a surface that absorbs nothing.
pub open spec fn spec_white() -> Color {
    Vec3 { x: Scalar { bits: ONE_BITS }, y: Scalar { bits: ONE_BITS }, z: Scalar { bits: ONE_BITS } }
}

/// A diffuse surface.
pub struct Lambertian {
    pub albedo: Texture,
}

impl Lambertian {
    /// A diffuse surface of one colour.
    pub fn new(a: Color) -> (m: Self)
        ensures
            m.albedo == Texture::Solid(SolidColor { color_value: a }),
    {
        Self { albedo: Texture::Solid(SolidColor::new(a)) }
    }

    /// A diffuse surface always scatters, attenuating by its texture's value
    /// at the hit, and emits nothing.
    pub fn scatter(&self, albedo: Color) -> (b: Bounce)
        ensures
            b == (Bounce::Scattered { emitted: spec_black(), attenuation: albedo }),
    {
        Bounce::Scattered { emitted: Vec3::zero(), attenuation: albedo }
    }
}

/// A mirror, more or less polished.
#[derive(Clone, Copy, Debug)]
pub struct Metal {
    pub albedo: Color,
    pub fuzz: Scalar,
}

impl Metal {
    /// The roughness kept within `[0, 1]`: zero for anything below, one for
    /// anything that is not below one.
    pub open spec fn spec_fuzz(f: Scalar) -> Scalar {
        if f.spec_lt(Scalar { bits: ONE_BITS }) {
            if f.spec_lt(Scalar { bits: 0 }) {
                Scalar { bits: 0 }
            } else {
                f
            }
        } else {
            Scalar { bits: ONE_BITS }
        }
    }

    pub fn new(a: &Color, f: Scalar) -> (m: Self)
        ensures
            m.albedo == *a,
            m.fuzz == Self::spec_fuzz(f),
    {
        let fuzz = if f.lt(Scalar::one()) {
            if f.lt(Scalar::zero()) {
                Scalar::zero()
            } else {
                f
            }
        } else {
            Scalar::one()
        };
        Self { albedo: *a, fuzz }
    }

    /// A reflected ray goes on only if it leaves the surface: `facing`, the
    /// inner product of its direction with the normal, must be above zero.
    /// Otherwise the ray is absorbed.
    pub fn scatter(&self, facing: Scalar) -> (b: Bounce)
        ensures
            b == if facing.spec_gt(Scalar { bits: 0 }) {
                Bounce::Scattered { emitted: spec_black(), attenuation: self.albedo }
            } else {
                Bounce::Absorbed { emitted: spec_black() }
            },
    {
        if facing.gt(Scalar::zero()) {
            Bounce::Scattered { emitted: Vec3::zero(), attenuation: self.albedo }
        } else {
            Bounce::Absorbed { emitted: Vec3::zero() }
        }
    }
}

/// Which way a ray leaves a transparent surface.
#[derive(Clone, Copy, Debug, PartialEq, Eq, Structural)]
pub enum Bend {
    Reflect,
    Refract,
}

/// Glass.
#[derive(Clone, Copy, Debug)]
pub struct Dielectric {
    pub ref_idx: Scalar,
}

impl Dielectric {
    pub fn new(ri: Scalar) -> (m: Self)
        ensures
            m.ref_idx == ri,
    {
        Self { ref_idx: ri }
    }

    /// The ratio of refractive indices that a ray meets: the reciprocal of
    /// the material's index when it enters through the front face, the index
    /// itself when it leaves.
    pub fn index_ratio(&self, front_face: bool, reciprocal: Scalar) -> (ratio: Scalar)
        ensures
            ratio == if front_face {
                reciprocal
            } else {
                self.ref_idx
            },
    {
        if front_face {
            reciprocal
        } else {
            self.ref_idx
        }
    }

    /// Whether the ray is reflected or refracted. `sine` is the index ratio
    /// times the sine of the angle of incidence: above one, Snell's law has
    /// no solution and the ray is reflected. Otherwise it is reflected when
    /// `sample`, drawn uniformly from `[0, 1)`, falls below the reflectance
    /// `reflect_prob`.
    pub fn bend(&self, sine: Scalar, reflect_prob: Scalar, sample: Scalar) -> (b: Bend)
        ensures
            b == if sine.spec_gt(Scalar { bits: ONE_BITS }) || sample.spec_lt(reflect_prob) {
                Bend::Reflect
            } else {
                Bend::Refract
            },
    {
        if sine.gt(Scalar::one()) {
            return Bend::Reflect;
        }
        if sample.lt(reflect_prob) {
            return Bend::Reflect;
        }
        Bend::Refract
    }

    /// Glass always scatters, absorbs nothing and emits nothing.
    pub fn scatter(&self) -> (b: Bounce)
        ensures
            b == (Bounce::Scattered { emitted: spec_black(), attenuation: spec_white() }),
    {
        Bounce::Scattered { emitted: Vec3::zero(), attenuation: Vec3::ones() }
    }
}

/// A surface that gives off light.
pub struct DiffuseLight {
    pub emit: Texture,
}

impl DiffuseLight {
    pub fn new(a: Texture) -> (m: Self)
        ensures
            m.emit == a,
    {
        Self { emit: a }
    }

    /// A light never scatters; it emits its texture's value at the hit.
    pub fn scatter(&self, emit: Color) -> (b: Bounce)
        ensures
            b == (Bounce::Absorbed { emitted: emit }),
    {
        Bounce::Absorbed { emitted: emit }
    }
}

/// The four kinds of surface.
pub enum Material {
    Lambertian(Lambertian),
    Metal(Metal),
    Dielectric(Dielectric),
    DiffuseLight(DiffuseLight),
}

/// What the caller has computed at a hit for the material to decide on.
#[derive(Clone, Copy, Debug)]
pub struct Shading {
    /// The value of the material's texture at the hit.
    pub texture: Color,
    /// The inner product of the outgoing direction with the normal.
    pub facing: Scalar,
}

impl Material {
    /// What becomes of a ray that meets the material.
    pub open spec fn spec_scatter(self, shading: Shading) -> Bounce {
        match self {
            Material::Lambertian(_) => Bounce::Scattered {
                emitted: spec_black(),
                attenuation: shading.texture,
            },
            Material::Metal(m) => if shading.facing.spec_gt(Scalar { bits: 0 }) {
                Bounce::Scattered { emitted: spec_black(), attenuation: m.albedo }
            } else {
                Bounce::Absorbed { emitted: spec_black() }
            },
            Material::Dielectric(_) => Bounce::Scattered {
                emitted: spec_black(),
                attenuation: spec_white(),
            },
            Material::DiffuseLight(_) => Bounce::Absorbed { emitted: shading.texture },
        }
    }

    pub fn scatter(&self, shading: &Shading) -> (b: Bounce)
        ensures
            b == self.spec_scatter(*shading),
    {
        match self {
            Material::Lambertian(m) => m.scatter(shading.texture),
            Material::Metal(m) => m.scatter(shading.facing),
            Material::Dielectric(m) => m.scatter(),
            Material::DiffuseLight(m) => m.scatter(shading.texture),
        }
    }

    /// What the material gives off at a hit: its texture's value for a
    /// light, black for everything else.
    pub fn emitted(&self, texture: Color) -> (c: Color)
        ensures
            c == if self is DiffuseLight {
                texture
            } else {
                spec_black()
            },
    {
        match self {
            Material::DiffuseLight(_) => texture,
            _ => Vec3::zero(),
        }
    }
}

} // verus!
