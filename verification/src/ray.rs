//! Rays, and the bounce-by-bounce course of tracing one.

use vstd::prelude::*;
use crate::aabb::Interval;
use crate::scalar::{Vec3, INFINITY};

verus! {

/// The key of 0.001 in single precision: hits nearer than this are taken for
/// the surface that the ray has just left.
pub const T_MIN: i64 = 0x3F50_624D_E000_0000;

/// A ray: where it starts, where it points (of any length), and when it is
/// cast.
#[derive(Clone, Copy, Debug, PartialEq, Eq, Structural)]
pub struct Ray {
    origin: Vec3,
    direction: Vec3,
    time: i64,
}

impl Default for Ray {
    /// The ray at the origin with no direction, at time zero.
    fn default() -> (r: Self)
        ensures
            r.view_origin() == Vec3::spec_zeros(),
            r.view_direction() == Vec3::spec_zeros(),
            r.view_time() == 0,
    {
        Ray { origin: Vec3::zeros(), direction: Vec3::zeros(), time: 0 }
    }
}

/// What happened to a ray since the last step of tracing it.
#[derive(Clone, Copy, Debug, PartialEq, Eq, Structural)]
pub enum Event {
    /// Nothing yet: the ray has just been cast.
    Cast,
    /// The ray met nothing.
    Miss,
    /// The ray met a surface, whose material absorbed it.
    Absorbed,
    /// The ray met a surface, whose material sent it on.
    Scattered,
}

/// What tracing a ray does next.
#[derive(Clone, Copy, Debug, PartialEq, Eq, Structural)]
pub enum Action {
    /// The ray carries no light: its colour is black.
    Black,
    /// The ray left the scene: its colour is that of the background in its
    /// direction.
    Background,
    /// Find the nearest surface that the ray meets within this interval.
    Query(Interval),
}

impl Ray {
    /// The ray from `origin` along `direction`, cast at `time`.
    pub fn new(origin: Vec3, direction: Vec3, time: i64) -> (r: Self)
        ensures
            r.view_origin() == origin,
            r.view_direction() == direction,
            r.view_time() == time,
    {
        Ray { origin, direction, time }
    }

    /// Where the ray starts.
    pub closed spec fn view_origin(self) -> Vec3 {
        self.origin
    }

    /// Where the ray points.
    pub closed spec fn view_direction(self) -> Vec3 {
        self.direction
    }

    /// When the ray is cast.
    pub closed spec fn view_time(self) -> i64 {
        self.time
    }

    /// Where the ray starts.
    pub fn origin(&self) -> (o: &Vec3)
        ensures
            *o == self.view_origin(),
    {
        &self.origin
    }

    /// Where the ray points.
    pub fn direction(&self) -> (d: &Vec3)
        ensures
            *d == self.view_direction(),
    {
        &self.direction
    }

    /// When the ray is cast.
    pub fn time(&self) -> (t: i64)
        ensures
            t == self.view_time(),
    {
        self.time
    }

    /// The interval in which a surface counts as met.
    pub open spec fn spec_reach() -> Interval {
        Interval { min: T_MIN, max: INFINITY }
    }

    /// The bounces left, and what to do, after `event` with `depth` bounces left.
    pub open spec fn spec_color(depth: usize, event: Event) -> (usize, Action) {
        if depth == 0 {
            (0, Action::Black)
        } else {
            match event {
                Event::Cast => (depth, Action::Query(Self::spec_reach())),
                Event::Miss => (depth, Action::Background),
                Event::Absorbed => (depth, Action::Black),
                Event::Scattered => if depth == 1 {
                    (0, Action::Black)
                } else {
                    ((depth - 1) as usize, Action::Query(Self::spec_reach()))
                },
            }
        }
    }

    /// One step of tracing a ray that may still bounce `depth` times. With no
    /// bounce left the colour is black. A ray just cast asks for the nearest
    /// surface; one that met nothing ends in the background; one that was
    /// absorbed ends in black; one that was scattered goes on as the scattered
    /// ray with one bounce less. The colour of the first ray is that of the
    /// last, multiplied channel by channel with the attenuation of each bounce.
    pub fn color(depth: usize, event: Event) -> (next: (usize, Action))
        ensures
            next == Self::spec_color(depth, event),
            depth == 0 ==> next.1 == Action::Black,
            next.0 <= depth,
            event == Event::Scattered && depth > 0 ==> next.0 == depth - 1,
    {
        if depth == 0 {
            return (0, Action::Black);
        }
        match event {
            Event::Cast => (depth, Action::Query(Interval { min: T_MIN, max: INFINITY })),
            Event::Miss => (depth, Action::Background),
            Event::Absorbed => (depth, Action::Black),
            Event::Scattered => {
                if depth == 1 {
                    (0, Action::Black)
                } else {
                    (depth - 1, Action::Query(Interval { min: T_MIN, max: INFINITY }))
                }
            },
        }
    }
}

} // verus!
