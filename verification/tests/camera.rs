use lib_ray_tracer::camera::{Camera, ConfigError, Gamma, Lens, FULL_TURN};
use lib_ray_tracer::scalar::Vec3;
use lib_ray_tracer::utility::{
    random_in_unit_disk, random_on_hemisphere, random_unit_vector, Basis2, Basis3,
};

fn n(x: f64) -> i64 {
    lib_ray_tracer::scalar::key_of_bits(x.to_bits())
}

fn at(x: f64, y: f64, z: f64) -> Vec3 {
    Vec3::new(n(x), n(y), n(z))
}

fn frame() -> Basis3 {
    Basis3::new(at(1.0, 0.0, 0.0), at(0.0, 1.0, 0.0), at(0.0, 0.0, 1.0))
}

fn disk(radius: f64) -> Basis2 {
    Basis2::new(at(radius, 0.0, 0.0), at(0.0, radius, 0.0))
}

fn make(
    samples: usize,
    fov: f64,
    from: Vec3,
    to: Vec3,
    defocus: f64,
    focus: f64,
) -> Result<Camera, ConfigError> {
    Camera::new(samples, 50, n(fov), from, to, Gamma::Gamma2, n(defocus), n(focus), frame(), disk(0.1))
}

#[test]
fn full_turn_is_the_key_of_360() {
    assert_eq!(FULL_TURN, n(360.0));
}

#[test]
fn good_settings_make_a_camera() {
    let camera = make(100, 20.0, at(13.0, 2.0, 3.0), at(0.0, 0.0, 0.0), 0.6, 10.0).unwrap();
    assert_eq!(camera.samples_per_pixel, 100);
    assert_eq!(camera.max_depth, 50);
    assert_eq!(camera.vertical_fov, n(20.0));
    assert_eq!(camera.focus_distance, n(10.0));
    assert_eq!(camera.center, at(13.0, 2.0, 3.0));
    assert_eq!(camera.frame_basis, frame());
    assert_eq!(camera.disk_basis, disk(0.1));
    assert_eq!(camera.gamma, Gamma::Gamma2);
}

#[test]
fn camera_without_samples_is_refused() {
    assert_eq!(make(0, 20.0, at(1.0, 0.0, 0.0), at(0.0, 0.0, 0.0), 0.0, 1.0), Err(ConfigError::NoSamples));
    assert_eq!(make(0, -1.0, at(0.0, 0.0, 0.0), at(0.0, 0.0, 0.0), 400.0, 0.0), Err(ConfigError::NoSamples));
}

#[test]
fn field_of_view_outside_a_turn_is_refused() {
    let from = at(1.0, 0.0, 0.0);
    let to = at(0.0, 0.0, 0.0);
    assert_eq!(make(1, -0.5, from, to, 0.0, 1.0), Err(ConfigError::FieldOfView));
    assert_eq!(make(1, 360.0, from, to, 0.0, 1.0), Err(ConfigError::FieldOfView));
    assert_eq!(make(1, f64::INFINITY, from, to, 0.0, 1.0), Err(ConfigError::FieldOfView));
    assert!(make(1, 0.0, from, to, 0.0, 1.0).is_ok());
    assert!(make(1, 359.999, from, to, 0.0, 1.0).is_ok());
}

#[test]
fn defocus_angle_outside_a_turn_is_refused() {
    let from = at(1.0, 0.0, 0.0);
    let to = at(0.0, 0.0, 0.0);
    assert_eq!(make(1, 20.0, from, to, -1e-9, 1.0), Err(ConfigError::DefocusAngle));
    assert_eq!(make(1, 20.0, from, to, 360.0, 1.0), Err(ConfigError::DefocusAngle));
    assert!(make(1, 20.0, from, to, 359.0, 1.0).is_ok());
}

#[test]
fn camera_that_looks_at_itself_is_refused() {
    let here = at(1.0, 2.0, 3.0);
    assert_eq!(make(1, 20.0, here, here, 0.0, 1.0), Err(ConfigError::NoViewDirection));
    assert_eq!(
        make(1, 20.0, at(0.0, 0.0, 0.0), at(-0.0, 0.0, -0.0), 0.0, 1.0),
        Err(ConfigError::NoViewDirection)
    );
}

#[test]
fn focus_distance_must_be_above_zero() {
    let from = at(1.0, 0.0, 0.0);
    let to = at(0.0, 0.0, 0.0);
    assert_eq!(make(1, 20.0, from, to, 0.0, 0.0), Err(ConfigError::FocusDistance));
    assert_eq!(make(1, 20.0, from, to, 0.0, -3.4), Err(ConfigError::FocusDistance));
    assert!(make(1, 20.0, from, to, 0.0, 5e-324).is_ok());
    assert!(make(1, 20.0, from, to, 0.0, f64::INFINITY).is_ok());
}

#[test]
fn white_and_black_become_opaque_pixels() {
    let camera = make(1, 20.0, at(1.0, 0.0, 0.0), at(0.0, 0.0, 0.0), 0.0, 1.0).unwrap();
    let encode = |linear: f64| (linear.sqrt() * 255.0) as u8;
    assert_eq!(camera.color_to_pixel([encode(1.0), encode(1.0), encode(1.0)]), [255, 255, 255, 255]);
    assert_eq!(camera.color_to_pixel([encode(0.0), encode(0.0), encode(0.0)]), [0, 0, 0, 255]);
    assert_eq!(camera.color_to_pixel([encode(0.25), encode(0.5), encode(0.04)]), [127, 180, 51, 255]);
}

#[test]
fn camera_without_aperture_casts_from_its_centre() {
    let camera = Camera::new(
        1,
        1,
        n(20.0),
        at(1.0, 2.0, 3.0),
        at(0.0, 0.0, 0.0),
        Gamma::Gamma2,
        n(0.0),
        n(1.0),
        frame(),
        disk(0.0),
    )
    .unwrap();
    assert_eq!(camera.defocus_disk_sample(), Lens::Point(at(1.0, 2.0, 3.0)));
}

#[test]
fn camera_with_aperture_casts_from_its_disk() {
    let camera = make(1, 20.0, at(1.0, 2.0, 3.0), at(0.0, 0.0, 0.0), 10.0, 3.4).unwrap();
    assert_eq!(camera.defocus_disk_sample(), Lens::Disk(at(1.0, 2.0, 3.0), disk(0.1)));
}

#[test]
fn unit_vector_seed_must_lie_inside_the_sphere() {
    let p = at(0.5, 0.5, 0.5);
    assert_eq!(random_unit_vector(p, n(0.75)), Some(p));
    assert_eq!(random_unit_vector(p, n(1.0)), None);
    assert_eq!(random_unit_vector(p, n(2.5)), None);
    assert_eq!(random_unit_vector(Vec3::zeros(), n(0.0)), None);
    assert_eq!(random_unit_vector(p, n(5e-324)), Some(p));
}

#[test]
fn disk_point_must_lie_inside_the_disk() {
    let p = at(0.5, -0.5, 0.0);
    assert_eq!(random_in_unit_disk(p, n(0.5)), Some(p));
    assert_eq!(random_in_unit_disk(Vec3::zeros(), n(0.0)), Some(Vec3::zeros()));
    assert_eq!(random_in_unit_disk(p, n(1.0)), None);
    assert_eq!(random_in_unit_disk(p, n(1.7)), None);
}

#[test]
fn hemisphere_vector_is_turned_toward_the_normal() {
    let v = at(0.6, 0.0, -0.8);
    assert_eq!(random_on_hemisphere(v, n(0.3)), v);
    assert_eq!(random_on_hemisphere(v, n(-0.3)), at(-0.6, 0.0, 0.8));
    assert_eq!(random_on_hemisphere(v, n(0.0)), at(-0.6, 0.0, 0.8));
}

#[test]
fn points_that_are_nowhere_are_not_the_same_point() {
    let nowhere = at(f64::NAN, 0.0, 0.0);
    assert!(make(1, 20.0, nowhere, nowhere, 0.0, 1.0).is_ok());
    assert_eq!(make(1, f64::NAN, nowhere, nowhere, 0.0, 1.0), Err(ConfigError::FieldOfView));
    assert_eq!(
        make(1, 20.0, at(1.0, 0.0, 0.0), at(0.0, 0.0, 0.0), 0.0, f64::NAN),
        Err(ConfigError::FocusDistance)
    );
}

#[test]
fn sampling_decisions_on_lengths_that_are_no_numbers() {
    let p = at(0.5, 0.5, 0.5);
    assert_eq!(random_unit_vector(p, n(f64::NAN)), Some(p));
    assert_eq!(random_in_unit_disk(p, n(f64::NAN)), None);
    assert_eq!(random_on_hemisphere(p, n(f64::NAN)), at(-0.5, -0.5, -0.5));
}
