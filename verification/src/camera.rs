//! The camera: what is checked when one is made, where its rays start, and
//! how a colour becomes a pixel.

use vstd::prelude::*;
use crate::scalar::{Vec3, INFINITY};
use crate::utility::{Basis2, Basis3};

verus! {

/// The key of 360: angles in degrees lie below it.
pub const FULL_TURN: i64 = 0x4076_8000_0000_0000;

/// How colours are encoded for display.
#[derive(Clone, Copy, Debug, PartialEq, Eq, Structural)]
pub enum Gamma {
    /// Each channel is the square root of the linear value.
    Gamma2,
}

/// Why a camera or a renderer cannot be made.
#[derive(Clone, Copy, Debug, PartialEq, Eq, Structural)]
pub enum ConfigError {
    /// No sample per pixel.
    NoSamples,
    /// The vertical field of view is not in `[0, 360)` degrees.
    FieldOfView,
    /// The defocus angle is not in `[0, 360)` degrees.
    DefocusAngle,
    /// The camera looks at the point where it stands.
    NoViewDirection,
    /// The focus distance is not above zero.
    FocusDistance,
    /// The aspect ratio is zero.
    AspectRatio,
    /// The image has no rows.
    NoRows,
}

/// Where the rays of a camera start.
#[derive(Clone, Copy, Debug, PartialEq, Eq, Structural)]
pub enum Lens {
    /// At this point: the camera has no aperture.
    Point(Vec3),
    /// At `center + u * p.x + v * p.y` for a point `p` drawn from the unit
    /// disk, with `u` and `v` from this basis.
    Disk(Vec3, Basis2),
}

/// A camera.
#[derive(Clone, Copy, Debug, PartialEq, Eq, Structural)]
pub struct Camera {
    /// The distance at which objects are in focus.
    pub focus_distance: i64,
    /// The number of rays sent for each pixel.
    pub samples_per_pixel: usize,
    /// The number of times that a ray may bounce.
    pub max_depth: usize,
    /// The vertical field of view, in degrees.
    pub vertical_fov: i64,
    /// The orthonormal basis of the view.
    pub frame_basis: Basis3,
    /// The basis of the defocus disk.
    pub disk_basis: Basis2,
    /// The point from which the camera looks.
    pub center: Vec3,
    /// How colours are encoded.
    pub gamma: Gamma,
}

impl Camera {
    /// Whether an angle in degrees lies in `[0, 360)`.
    pub open spec fn spec_angle(degrees: i64) -> bool {
        0 <= degrees < FULL_TURN
    }

    /// What is wrong with the settings, if anything: the first of the
    /// failures in the order of `ConfigError`.
    pub open spec fn spec_check(
        samples_per_pixel: usize,
        vertical_fov: i64,
        look_from: Vec3,
        look_at: Vec3,
        defocus_angle: i64,
        focus_distance: i64,
    ) -> Option<ConfigError> {
        if samples_per_pixel == 0 {
            Some(ConfigError::NoSamples)
        } else if !Self::spec_angle(vertical_fov) {
            Some(ConfigError::FieldOfView)
        } else if !Self::spec_angle(defocus_angle) {
            Some(ConfigError::DefocusAngle)
        } else if look_from.spec_same(look_at) {
            Some(ConfigError::NoViewDirection)
        } else if !(0 < focus_distance <= INFINITY) {
            Some(ConfigError::FocusDistance)
        } else {
            None
        }
    }

    /// Makes a camera that looks from `look_from` at `look_at`, after checking
    /// the settings. `frame_basis` is the orthonormal basis derived from the
    /// two points and the up direction, `disk_basis` the first two of its
    /// vectors scaled by the defocus radius.
    pub fn new(
        samples_per_pixel: usize,
        max_depth: usize,
        vertical_fov: i64,
        look_from: Vec3,
        look_at: Vec3,
        gamma: Gamma,
        defocus_angle: i64,
        focus_distance: i64,
        frame_basis: Basis3,
        disk_basis: Basis2,
    ) -> (made: Result<Self, ConfigError>)
        ensures
            match Self::spec_check(
                samples_per_pixel,
                vertical_fov,
                look_from,
                look_at,
                defocus_angle,
                focus_distance,
            ) {
                Some(error) => made == Err::<Self, ConfigError>(error),
                None => made == Ok::<Self, ConfigError>(
                    Camera {
                        focus_distance,
                        samples_per_pixel,
                        max_depth,
                        vertical_fov,
                        frame_basis,
                        disk_basis,
                        center: look_from,
                        gamma,
                    },
                ),
            },
    {
        if samples_per_pixel == 0 {
            return Err(ConfigError::NoSamples);
        }
        if vertical_fov < 0 || vertical_fov >= FULL_TURN {
            return Err(ConfigError::FieldOfView);
        }
        if defocus_angle < 0 || defocus_angle >= FULL_TURN {
            return Err(ConfigError::DefocusAngle);
        }
        if look_from.same(look_at) {
            return Err(ConfigError::NoViewDirection);
        }
        if focus_distance <= 0 || focus_distance > INFINITY {
            return Err(ConfigError::FocusDistance);
        }
        Ok(
            Camera {
                focus_distance,
                samples_per_pixel,
                max_depth,
                vertical_fov,
                frame_basis,
                disk_basis,
                center: look_from,
                gamma,
            },
        )
    }

    /// The pixel of a colour whose channels are already encoded and scaled to
    /// eight bits: red, green, blue, and full opacity.
    pub fn color_to_pixel(&self, encoded: [u8; 3]) -> (pixel: [u8; 4])
        ensures
            pixel[0] == encoded[0],
            pixel[1] == encoded[1],
            pixel[2] == encoded[2],
            pixel[3] == 255,
    {
        match self.gamma {
            Gamma::Gamma2 => [encoded[0], encoded[1], encoded[2], 255],
        }
    }

    /// Where a ray starts: at the centre where the defocus disk has no
    /// extent, else on the disk.
    pub fn defocus_disk_sample(&self) -> (lens: Lens)
        ensures
            lens == (if self.disk_basis.u.spec_same(Vec3::spec_zeros()) {
                Lens::Point(self.center)
            } else {
                Lens::Disk(self.center, self.disk_basis)
            }),
    {
        if self.disk_basis.u.same(Vec3::zeros()) {
            Lens::Point(self.center)
        } else {
            Lens::Disk(self.center, self.disk_basis)
        }
    }
}

} // verus!
