use lib_ray_tracer::material::{Material, Sample, DEGENERATE, HALF};
use lib_ray_tracer::ray::Ray;
use lib_ray_tracer::scalar::{Vec3, ONE};
use lib_ray_tracer::texture::Texture;
use lib_ray_tracer::world::HitRecord;

fn e(x: f64) -> i64 {
    lib_ray_tracer::scalar::key_of_bits(x.to_bits())
}

fn back(k: i64) -> f64 {
    f64::from_bits(lib_ray_tracer::scalar::bits_of_key(k))
}

fn triple(x: f64, y: f64, z: f64) -> Vec3 {
    Vec3::new(e(x), e(y), e(z))
}

fn hit_at(material: Material) -> HitRecord {
    HitRecord::new(triple(1.0, 2.0, 3.0), triple(0.0, 0.0, 1.0), material, e(4.0), 0, 0, true)
}

fn incoming() -> Ray {
    Ray::new(triple(1.0, 2.0, 7.0), triple(0.0, 0.0, -1.0), e(0.375))
}

fn reflectance(cosine: f64, ratio: f64) -> f64 {
    let r0 = (1.0 - ratio) / (1.0 + ratio);
    let r0 = r0 * r0;
    r0 + (1.0 - r0) * (1.0 - cosine).powi(5)
}

fn refract(unit: [f64; 3], normal: [f64; 3], ratio: f64) -> [f64; 3] {
    let cos_theta = -(unit[0] * normal[0] + unit[1] * normal[1] + unit[2] * normal[2]);
    let perp = [
        ratio * (unit[0] + cos_theta * normal[0]),
        ratio * (unit[1] + cos_theta * normal[1]),
        ratio * (unit[2] + cos_theta * normal[2]),
    ];
    let along = -(1.0 - (perp[0] * perp[0] + perp[1] * perp[1] + perp[2] * perp[2])).abs().sqrt();
    [perp[0] + along * normal[0], perp[1] + along * normal[1], perp[2] + along * normal[2]]
}

#[test]
fn constants_are_the_keys_of_their_numbers() {
    assert_eq!(HALF, e(0.5));
    assert_eq!(DEGENERATE, e(1e-8));
}

#[test]
fn default_material_is_grey_diffuse() {
    assert!(matches!(Material::default(), Material::Lambertian(a) if a == triple(0.5, 0.5, 0.5)));
}

#[test]
fn lambertian_scatters_along_the_sample() {
    let material = Material::Lambertian(triple(0.1, 0.2, 0.5));
    let sample = Sample::Diffuse {
        direction: triple(0.3, 0.4, 1.5),
        norm_squared: e(2.5),
        color: triple(9.0, 9.0, 9.0),
    };
    let (attenuation, scattered) = material.scatter(&incoming(), &hit_at(material), &sample).unwrap();
    assert_eq!(attenuation, triple(0.1, 0.2, 0.5));
    assert_eq!(*scattered.origin(), triple(1.0, 2.0, 3.0));
    assert_eq!(*scattered.direction(), triple(0.3, 0.4, 1.5));
    assert_eq!(scattered.time(), e(0.375));
}

#[test]
fn lambertian_falls_back_to_the_normal() {
    let material = Material::Lambertian(triple(0.1, 0.2, 0.5));
    let sample = Sample::Diffuse {
        direction: triple(1e-5, -1e-5, 1e-6),
        norm_squared: e(2.01e-10),
        color: Vec3::zeros(),
    };
    let (_, scattered) = material.scatter(&incoming(), &hit_at(material), &sample).unwrap();
    assert_eq!(*scattered.direction(), triple(0.0, 0.0, 1.0));
    let at_the_limit = Sample::Diffuse {
        direction: triple(1e-4, 0.0, 0.0),
        norm_squared: e(1e-8),
        color: Vec3::zeros(),
    };
    let (_, scattered) = material.scatter(&incoming(), &hit_at(material), &at_the_limit).unwrap();
    assert_eq!(*scattered.direction(), triple(1e-4, 0.0, 0.0));
}

#[test]
fn textured_lambertian_takes_the_colour_of_the_texture() {
    let material = Material::TexturedLambertian(Texture::SolidColor(triple(0.2, 0.3, 0.1)));
    let sample = Sample::Diffuse {
        direction: triple(0.0, 1.0, 1.0),
        norm_squared: e(2.0),
        color: triple(0.2, 0.3, 0.1),
    };
    let (attenuation, scattered) = material.scatter(&incoming(), &hit_at(material), &sample).unwrap();
    assert_eq!(attenuation, triple(0.2, 0.3, 0.1));
    assert_eq!(*scattered.direction(), triple(0.0, 1.0, 1.0));
}

#[test]
fn hemisphere_turns_the_sample_to_the_side_of_the_normal() {
    let material = Material::Hemisphere(triple(0.5, 0.5, 0.5));
    let toward = Sample::Hemisphere { direction: triple(0.6, 0.0, 0.8), alignment: e(0.8) };
    let (attenuation, scattered) = material.scatter(&incoming(), &hit_at(material), &toward).unwrap();
    assert_eq!(attenuation, triple(0.5, 0.5, 0.5));
    assert_eq!(*scattered.direction(), triple(0.6, 0.0, 0.8));
    let away = Sample::Hemisphere { direction: triple(0.6, 0.0, -0.8), alignment: e(-0.8) };
    let (_, scattered) = material.scatter(&incoming(), &hit_at(material), &away).unwrap();
    assert_eq!(*scattered.direction(), triple(-0.6, 0.0, 0.8));
}

#[test]
fn metal_reflects_above_the_surface() {
    let material = Material::Metal(triple(0.8, 0.6, 0.2), e(0.0));
    let sample = Sample::Metal { direction: triple(0.0, 0.0, 1.0), alignment: e(1.0) };
    let (attenuation, scattered) = material.scatter(&incoming(), &hit_at(material), &sample).unwrap();
    assert_eq!(attenuation, triple(0.8, 0.6, 0.2));
    assert_eq!(*scattered.direction(), triple(0.0, 0.0, 1.0));
    assert_eq!(*scattered.origin(), triple(1.0, 2.0, 3.0));
}

#[test]
fn metal_absorbs_below_and_along_the_surface() {
    let material = Material::Metal(triple(0.8, 0.6, 0.2), e(1.0));
    let below = Sample::Metal { direction: triple(0.5, 0.0, -0.1), alignment: e(-0.1) };
    assert!(material.scatter(&incoming(), &hit_at(material), &below).is_none());
    let along = Sample::Metal { direction: triple(1.0, 0.0, 0.0), alignment: e(0.0) };
    assert!(material.scatter(&incoming(), &hit_at(material), &along).is_none());
}

#[test]
fn refraction_ratio_depends_on_the_face() {
    assert_eq!(Material::refraction_ratio(true, e(1.5), e(1.0 / 1.5)), e(1.0 / 1.5));
    assert_eq!(Material::refraction_ratio(false, e(1.5), e(1.0 / 1.5)), e(1.5));
}

#[test]
fn dielectric_reflects_on_total_internal_reflection() {
    let material = Material::Dielectric(e(1.5));
    let sample = Sample::Dielectric {
        ratio_sine: e(1.2),
        reflectance: e(0.0),
        draw: e(0.99),
        reflected: triple(1.0, 0.0, 0.0),
        refracted: triple(0.0, 1.0, 0.0),
    };
    let (attenuation, scattered) = material.scatter(&incoming(), &hit_at(material), &sample).unwrap();
    assert_eq!(attenuation, Vec3::new(ONE, ONE, ONE));
    assert_eq!(*scattered.direction(), triple(1.0, 0.0, 0.0));
}

#[test]
fn dielectric_reflects_where_the_reflectance_exceeds_the_draw() {
    let material = Material::Dielectric(e(1.5));
    let reflecting = Sample::Dielectric {
        ratio_sine: e(0.3),
        reflectance: e(0.6),
        draw: e(0.5),
        reflected: triple(1.0, 0.0, 0.0),
        refracted: triple(0.0, 1.0, 0.0),
    };
    let (_, scattered) = material.scatter(&incoming(), &hit_at(material), &reflecting).unwrap();
    assert_eq!(*scattered.direction(), triple(1.0, 0.0, 0.0));
    let refracting = Sample::Dielectric {
        ratio_sine: e(1.0),
        reflectance: e(0.5),
        draw: e(0.5),
        reflected: triple(1.0, 0.0, 0.0),
        refracted: triple(0.0, 1.0, 0.0),
    };
    let (_, scattered) = material.scatter(&incoming(), &hit_at(material), &refracting).unwrap();
    assert_eq!(*scattered.direction(), triple(0.0, 1.0, 0.0));
}

#[test]
fn dielectric_of_index_one_does_not_bend_the_ray() {
    let index = 1.0;
    let material = Material::Dielectric(e(index));
    let record = hit_at(material);
    let ray = incoming();
    let direction = [0.0, 0.0, -1.0];
    let normal = [0.0, 0.0, 1.0];
    for draw in [0.0, 0.25, 0.999] {
        let ratio = back(Material::refraction_ratio(record.front_face, e(index), e(1.0 / index)));
        assert_eq!(ratio, 1.0);
        let cos_theta: f64 = -(direction[0] * normal[0] + direction[1] * normal[1] + direction[2] * normal[2]);
        let sin_theta = (1.0 - cos_theta * cos_theta).sqrt();
        let along = 2.0 * (direction[0] * normal[0] + direction[1] * normal[1] + direction[2] * normal[2]);
        let reflected = [
            direction[0] - along * normal[0],
            direction[1] - along * normal[1],
            direction[2] - along * normal[2],
        ];
        let refracted = refract(direction, normal, ratio);
        let sample = Sample::Dielectric {
            ratio_sine: e(ratio * sin_theta),
            reflectance: e(reflectance(cos_theta, ratio)),
            draw: e(draw),
            reflected: triple(reflected[0], reflected[1], reflected[2]),
            refracted: triple(refracted[0], refracted[1], refracted[2]),
        };
        let (attenuation, scattered) = material.scatter(&ray, &record, &sample).unwrap();
        assert_eq!(attenuation, triple(1.0, 1.0, 1.0));
        let out = [
            back(scattered.direction().x),
            back(scattered.direction().y),
            back(scattered.direction().z),
        ];
        let cross = [
            out[1] * direction[2] - out[2] * direction[1],
            out[2] * direction[0] - out[0] * direction[2],
            out[0] * direction[1] - out[1] * direction[0],
        ];
        assert_eq!(cross, [0.0, 0.0, 0.0]);
        assert!(out[0] * direction[0] + out[1] * direction[1] + out[2] * direction[2] > 0.0);
    }
}

#[test]
fn solid_texture_gives_its_own_colour_whatever_was_looked_up() {
    let material = Material::TexturedLambertian(Texture::SolidColor(triple(0.2, 0.3, 0.1)));
    let sample = Sample::Diffuse {
        direction: triple(0.0, 1.0, 1.0),
        norm_squared: e(2.0),
        color: triple(0.9, 0.9, 0.9),
    };
    let (attenuation, _) = material.scatter(&incoming(), &hit_at(material), &sample).unwrap();
    assert_eq!(attenuation, triple(0.2, 0.3, 0.1));
}

#[test]
fn checker_texture_takes_the_colour_that_was_looked_up() {
    let even: &'static Texture = Box::leak(Box::new(Texture::SolidColor(triple(0.2, 0.3, 0.1))));
    let odd: &'static Texture = Box::leak(Box::new(Texture::SolidColor(triple(0.9, 0.9, 0.9))));
    let material = Material::TexturedLambertian(Texture::Checker(e(3.0), even, odd));
    let sample = Sample::Diffuse {
        direction: triple(0.0, 1.0, 1.0),
        norm_squared: e(2.0),
        color: triple(0.9, 0.9, 0.9),
    };
    let (attenuation, _) = material.scatter(&incoming(), &hit_at(material), &sample).unwrap();
    assert_eq!(attenuation, triple(0.9, 0.9, 0.9));
}

#[test]
fn sine_that_is_no_number_leaves_the_choice_to_the_reflectance() {
    let material = Material::Dielectric(e(1.5));
    let sample = |reflectance: f64, draw: f64| Sample::Dielectric {
        ratio_sine: e(f64::NAN),
        reflectance: e(reflectance),
        draw: e(draw),
        reflected: triple(1.0, 0.0, 0.0),
        refracted: triple(0.0, 1.0, 0.0),
    };
    let (_, scattered) =
        material.scatter(&incoming(), &hit_at(material), &sample(0.1, 0.5)).unwrap();
    assert_eq!(*scattered.direction(), triple(0.0, 1.0, 0.0));
    let (_, scattered) =
        material.scatter(&incoming(), &hit_at(material), &sample(0.9, 0.5)).unwrap();
    assert_eq!(*scattered.direction(), triple(1.0, 0.0, 0.0));
}

#[test]
fn metal_absorbs_on_an_alignment_that_is_no_number() {
    let material = Material::Metal(triple(0.8, 0.6, 0.2), e(1.0));
    let sample = Sample::Metal { direction: triple(0.5, 0.0, 0.1), alignment: e(f64::NAN) };
    assert!(material.scatter(&incoming(), &hit_at(material), &sample).is_none());
}
