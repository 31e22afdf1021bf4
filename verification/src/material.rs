//! Materials: whether and where a surface sends a ray on.

use vstd::prelude::*;
use crate::ray::Ray;
use crate::scalar::{is_number, less, spec_less, Vec3, ONE};
use crate::texture::{Lookup, Texture};
use crate::world::HitRecord;

verus! {

/// The key of 0.5.
pub const HALF: i64 = 0x3FE0_0000_0000_0000;

/// The key of 1e-8: a scatter direction whose squared length is below this
/// counts as having no length.
pub const DEGENERATE: i64 = 0x3E45_798E_E230_8C3A;

/// How a surface treats light.
#[derive(Clone, Copy)]
pub enum Material {
    /// Diffuse, with this albedo.
    Lambertian(Vec3),
    /// Diffuse, with the albedo that a texture gives at the hit.
    TexturedLambertian(Texture),
    /// Diffuse, scattering evenly over the hemisphere, with this albedo.
    Hemisphere(Vec3),
    /// A mirror with this albedo, blurred by the fuzz in the second field.
    Metal(Vec3, i64),
    /// Transparent, with this refractive index.
    Dielectric(i64),
}

impl Default for Material {
    /// Mid-grey diffuse.
    fn default() -> (m: Self)
        ensures
            m == Material::Lambertian(Vec3 { x: HALF, y: HALF, z: HALF }),
    {
        Material::Lambertian(Vec3 { x: HALF, y: HALF, z: HALF })
    }
}

/// The numbers that a material needs to decide on a hit. They come from
/// arithmetic on the ray, the hit and random draws.
#[derive(Clone, Copy, Debug, PartialEq, Eq, Structural)]
pub enum Sample {
    /// For a diffuse material: the normal plus a random unit vector, the
    /// squared length of that sum, and, for a textured one whose texture has
    /// to look the colour up, the texture's colour at the hit.
    Diffuse { direction: Vec3, norm_squared: i64, color: Vec3 },
    /// For a hemisphere material: a random unit vector and its dot product
    /// with the normal.
    Hemisphere { direction: Vec3, alignment: i64 },
    /// For a metal: the incoming direction reflected about the normal and
    /// blurred by the fuzz, and its dot product with the normal.
    Metal { direction: Vec3, alignment: i64 },
    /// For a dielectric: the refraction ratio times the sine of the angle of
    /// incidence, the Schlick reflectance, a uniform draw from `[0, 1)`, and
    /// the unit incoming direction reflected and refracted.
    Dielectric { ratio_sine: i64, reflectance: i64, draw: i64, reflected: Vec3, refracted: Vec3 },
}

/// White: no light is lost.
pub open spec fn spec_white() -> Vec3 {
    Vec3 { x: ONE, y: ONE, z: ONE }
}

impl Material {
    /// The refraction ratio on a hit: the inverse of the index where the ray
    /// enters through the front face, the index where it leaves.
    pub fn refraction_ratio(front_face: bool, index: i64, inverse_index: i64) -> (ratio: i64)
        ensures
            ratio == (if front_face {
                inverse_index
            } else {
                index
            }),
    {
        if front_face {
            inverse_index
        } else {
            index
        }
    }

    /// Whether a dielectric reflects: on total internal reflection, where
    /// the ratio times the sine exceeds one, or where the reflectance exceeds
    /// the draw.
    pub open spec fn spec_reflects(ratio_sine: i64, reflectance: i64, draw: i64) -> bool {
        spec_less(ONE, ratio_sine) || spec_less(draw, reflectance)
    }

    /// The direction of a diffuse scatter: the sampled one, or the normal
    /// where the sampled one has no length.
    pub open spec fn spec_diffuse(normal: Vec3, direction: Vec3, norm_squared: i64) -> Vec3 {
        if spec_less(norm_squared, DEGENERATE) {
            normal
        } else {
            direction
        }
    }

    /// The albedo of a textured surface: the texture's own colour where it
    /// gives one at once, else the colour that was looked up.
    pub open spec fn spec_albedo(texture: Texture, looked_up: Vec3) -> Vec3 {
        match texture.spec_value() {
            Lookup::Color(color) => color,
            _ => looked_up,
        }
    }

    /// Whether `sample` is of the kind that this material decides on.
    pub open spec fn takes(self, sample: Sample) -> bool {
        match self {
            Material::Lambertian(_) => sample is Diffuse,
            Material::TexturedLambertian(_) => sample is Diffuse,
            Material::Hemisphere(_) => sample is Hemisphere,
            Material::Metal(_, _) => sample is Metal,
            Material::Dielectric(_) => sample is Dielectric,
        }
    }

    /// The attenuation and the direction of the scattered ray, or `None`
    /// where the material absorbs the ray.
    pub open spec fn spec_scatter(self, normal: Vec3, sample: Sample) -> Option<(Vec3, Vec3)> {
        match (self, sample) {
            (Material::Lambertian(albedo), Sample::Diffuse { direction, norm_squared, color }) => Some(
                (albedo, Self::spec_diffuse(normal, direction, norm_squared)),
            ),
            (
                Material::TexturedLambertian(texture),
                Sample::Diffuse { direction, norm_squared, color },
            ) => Some(
                (
                    Self::spec_albedo(texture, color),
                    Self::spec_diffuse(normal, direction, norm_squared),
                ),
            ),
            (Material::Hemisphere(albedo), Sample::Hemisphere { direction, alignment }) => Some(
                (
                    albedo,
                    if spec_less(0, alignment) {
                        direction
                    } else {
                        direction.spec_negated()
                    },
                ),
            ),
            (Material::Metal(albedo, _), Sample::Metal { direction, alignment }) => if spec_less(
                0,
                alignment,
            ) {
                Some((albedo, direction))
            } else {
                None
            },
            (
                Material::Dielectric(_),
                Sample::Dielectric { ratio_sine, reflectance, draw, reflected, refracted },
            ) => Some(
                (
                    spec_white(),
                    if Self::spec_reflects(ratio_sine, reflectance, draw) {
                        reflected
                    } else {
                        refracted
                    },
                ),
            ),
            _ => None,
        }
    }

    /// Decides what becomes of a ray on a hit. A diffuse material always
    /// scatters, along the sampled direction, or along the normal where that
    /// direction has no length; a metal absorbs a ray that would go below the
    /// surface; a dielectric always scatters, loses no light, and reflects or
    /// refracts. The scattered ray starts at the hit, at the time of the
    /// incoming ray.
    pub fn scatter(&self, ray_in: &Ray, hit_record: &HitRecord, sample: &Sample) -> (out: Option<
        (Vec3, Ray),
    >)
        requires
            self.takes(*sample),
        ensures
            out.is_some() == self.spec_scatter(hit_record.normal, *sample).is_some(),
            out matches Some((attenuation, scattered)) ==> {
                &&& self.spec_scatter(hit_record.normal, *sample) == Some(
                    (attenuation, scattered.view_direction()),
                )
                &&& scattered.view_origin() == hit_record.hit_point
                &&& scattered.view_time() == ray_in.view_time()
            },
            out.is_none() <==> (*self is Metal && !spec_less(0, sample->Metal_alignment)),
    {
        let time = ray_in.time();
        let origin = hit_record.hit_point;
        match (*self, *sample) {
            (Material::Lambertian(albedo), Sample::Diffuse { direction, norm_squared, color }) => {
                let chosen = if less(norm_squared, DEGENERATE) {
                    hit_record.normal
                } else {
                    direction
                };
                Some((albedo, Ray::new(origin, chosen, time)))
            },
            (
                Material::TexturedLambertian(texture),
                Sample::Diffuse { direction, norm_squared, color },
            ) => {
                let chosen = if less(norm_squared, DEGENERATE) {
                    hit_record.normal
                } else {
                    direction
                };
                let albedo = match texture.value() {
                    Lookup::Color(own) => own,
                    _ => color,
                };
                Some((albedo, Ray::new(origin, chosen, time)))
            },
            (Material::Hemisphere(albedo), Sample::Hemisphere { direction, alignment }) => {
                let chosen = if less(0, alignment) {
                    direction
                } else {
                    direction.negated()
                };
                Some((albedo, Ray::new(origin, chosen, time)))
            },
            (Material::Metal(albedo, _), Sample::Metal { direction, alignment }) => {
                if less(0, alignment) {
                    Some((albedo, Ray::new(origin, direction, time)))
                } else {
                    None
                }
            },
            (
                Material::Dielectric(_),
                Sample::Dielectric { ratio_sine, reflectance, draw, reflected, refracted },
            ) => {
                let chosen = if less(ONE, ratio_sine) || less(draw, reflectance) {
                    reflected
                } else {
                    refracted
                };
                Some((Vec3 { x: ONE, y: ONE, z: ONE }, Ray::new(origin, chosen, time)))
            },
            _ => None,
        }
    }
}

/// A dielectric refracts where nothing speaks for a reflection: where the
/// ratio times the sine does not exceed one and the reflectance does not
/// exceed the draw. So it does at normal incidence with refractive index one,
/// where the sine and the reflectance are zero, whatever is drawn from
/// `[0, 1)`.
pub proof fn lemma_dielectric_refracts(material: Material, normal: Vec3, sample: Sample)
    requires
        material is Dielectric,
        sample is Dielectric,
        is_number(sample->ratio_sine) && sample->ratio_sine <= ONE,
        is_number(sample->reflectance) && is_number(sample->draw),
        sample->reflectance <= sample->draw,
    ensures
        material.spec_scatter(normal, sample) == Some((spec_white(), sample->refracted)),
{
}

} // verus!
