//! Intervals of keys and axis-aligned bounding boxes.

use vstd::prelude::*;
use crate::scalar::{at_most, is_number, less, spec_at_most, spec_less, spec_max, spec_min, Vec3};

verus! {

/// A range of keys from `min` to `max`. One with `max <= min` holds no
/// ray parameter.
#[derive(Clone, Copy, Debug, PartialEq, Eq, Structural)]
pub struct Interval {
    pub min: i64,
    pub max: i64,
}

impl Interval {
    /// The interval from `min` to `max`, taken as given.
    pub fn new(min: i64, max: i64) -> (i: Self)
        ensures
            i == (Interval { min, max }),
    {
        Interval { min, max }
    }

    /// Whether both ends are numbers.
    pub open spec fn spec_numbers(self) -> bool {
        is_number(self.min) && is_number(self.max)
    }

    /// Whether `k` lies within the closed interval.
    pub open spec fn contains(self, k: i64) -> bool {
        spec_at_most(self.min, k) && spec_at_most(k, self.max)
    }

    /// Whether `k` is known to lie outside the open interval: it is not
    /// above the start, or not below the end.
    pub open spec fn spec_outside(self, k: i64) -> bool {
        spec_at_most(k, self.min) || spec_at_most(self.max, k)
    }

    /// Whether `k` is known to lie outside the open interval.
    pub fn outside(&self, k: i64) -> (b: bool)
        ensures
            b == self.spec_outside(k),
    {
        at_most(k, self.min) || at_most(self.max, k)
    }

    /// Whether every key of `other` is a key of `self`.
    pub open spec fn encloses(self, other: Interval) -> bool {
        spec_at_most(self.min, other.min) && spec_at_most(other.max, self.max)
    }

    /// The smallest interval that encloses both; an end that is no number
    /// gives way to the other interval's.
    pub open spec fn spec_union(self, other: Interval) -> Interval {
        Interval { min: spec_min(self.min, other.min), max: spec_max(self.max, other.max) }
    }

    /// The smallest interval that encloses both.
    pub fn union(self, other: Interval) -> (u: Interval)
        ensures
            u == self.spec_union(other),
    {
        Interval {
            min: crate::scalar::min(self.min, other.min),
            max: crate::scalar::max(self.max, other.max),
        }
    }

    /// The interval between two keys given in any order.
    pub open spec fn spec_spanning(a: i64, b: i64) -> Interval {
        Interval { min: spec_min(a, b), max: spec_max(a, b) }
    }

    /// The interval between two keys given in any order.
    pub fn spanning(a: i64, b: i64) -> (i: Interval)
        ensures
            i == Self::spec_spanning(a, b),
    {
        Interval { min: crate::scalar::min(a, b), max: crate::scalar::max(a, b) }
    }

    /// The interval after clipping against one slab: its start moves up to
    /// the entry where that is above it, its end down to the exit where that
    /// is below it. A crossing that is no number moves nothing.
    pub open spec fn spec_clip(self, slab: Slab) -> Interval {
        Interval {
            min: if spec_less(self.min, slab.spec_entry()) {
                slab.spec_entry()
            } else {
                self.min
            },
            max: if spec_less(slab.spec_exit(), self.max) {
                slab.spec_exit()
            } else {
                self.max
            },
        }
    }

    /// Tightens the interval to the part of it that lies inside `slab`.
    pub fn clip(self, slab: Slab) -> (i: Interval)
        ensures
            i == self.spec_clip(slab),
    {
        let mut t0: i64 = slab.at_min;
        let mut t1: i64 = slab.at_max;
        if less(slab.d_invert, 0) {
            t0 = slab.at_max;
            t1 = slab.at_min;
        }
        let mut clipped = self;
        if less(clipped.min, t0) {
            clipped.min = t0;
        }
        if less(t1, clipped.max) {
            clipped.max = t1;
        }
        clipped
    }

    /// Whether the interval holds no ray parameter: both ends are numbers
    /// and the end is not above the start.
    pub open spec fn spec_empty(self) -> bool {
        spec_at_most(self.max, self.min)
    }
}

/// Where a ray crosses the two planes that bound a box on one axis.
#[derive(Clone, Copy, Debug, PartialEq, Eq, Structural)]
pub struct Slab {
    /// The ray parameter at the plane of the box's minimum.
    pub at_min: i64,
    /// The ray parameter at the plane of the box's maximum.
    pub at_max: i64,
    /// The inverse of the ray direction's component on the axis.
    pub d_invert: i64,
}

impl Slab {
    /// The parameter at which the ray enters the slab: the crossings are
    /// exchanged when the ray runs against the axis.
    pub open spec fn spec_entry(self) -> i64 {
        if spec_less(self.d_invert, 0) {
            self.at_max
        } else {
            self.at_min
        }
    }

    /// The parameter at which the ray leaves the slab.
    pub open spec fn spec_exit(self) -> i64 {
        if spec_less(self.d_invert, 0) {
            self.at_min
        } else {
            self.at_max
        }
    }
}

/// An axis-aligned bounding box: one interval for each axis.
#[derive(Clone, Copy, Debug, PartialEq, Eq, Structural)]
#[allow(clippy::upper_case_acronyms)]
pub struct AABB {
    pub x: Interval,
    pub y: Interval,
    pub z: Interval,
}

impl Default for AABB {
    /// The box that holds the origin alone.
    fn default() -> (b: Self)
        ensures
            b == AABB::spec_origin(),
    {
        AABB {
            x: Interval { min: 0, max: 0 },
            y: Interval { min: 0, max: 0 },
            z: Interval { min: 0, max: 0 },
        }
    }
}

impl AABB {
    /// The box that holds the origin alone.
    pub open spec fn spec_origin() -> AABB {
        AABB {
            x: Interval { min: 0, max: 0 },
            y: Interval { min: 0, max: 0 },
            z: Interval { min: 0, max: 0 },
        }
    }

    /// The box with the three given extents.
    pub fn new(x: Interval, y: Interval, z: Interval) -> (b: Self)
        ensures
            b == (AABB { x, y, z }),
    {
        AABB { x, y, z }
    }

    /// The smallest box that holds both points.
    pub open spec fn spec_from_points(a: Vec3, b: Vec3) -> AABB {
        AABB {
            x: Interval::spec_spanning(a.x, b.x),
            y: Interval::spec_spanning(a.y, b.y),
            z: Interval::spec_spanning(a.z, b.z),
        }
    }

    /// Creates the smallest box that holds both points.
    pub fn from_points(a: Vec3, b: Vec3) -> (r: Self)
        ensures
            r == Self::spec_from_points(a, b),
            a.spec_numbers() && b.spec_numbers() ==> r.spec_numbers() && r.holds(a) && r.holds(b),
    {
        AABB {
            x: Interval::spanning(a.x, b.x),
            y: Interval::spanning(a.y, b.y),
            z: Interval::spanning(a.z, b.z),
        }
    }

    /// The smallest box that holds both boxes.
    pub open spec fn spec_from_boxes(box0: AABB, box1: AABB) -> AABB {
        AABB {
            x: box0.x.spec_union(box1.x),
            y: box0.y.spec_union(box1.y),
            z: box0.z.spec_union(box1.z),
        }
    }

    /// Creates the smallest box that holds both boxes.
    pub fn from_boxes(box0: &AABB, box1: &AABB) -> (r: Self)
        ensures
            r == Self::spec_from_boxes(*box0, *box1),
            box0.spec_numbers() && box1.spec_numbers() ==> r.spec_numbers() && r.encloses(*box0)
                && r.encloses(*box1),
    {
        AABB { x: box0.x.union(box1.x), y: box0.y.union(box1.y), z: box0.z.union(box1.z) }
    }

    /// The extent on `axis`: 0 for x, 1 for y, 2 for z.
    pub open spec fn spec_axis(self, axis: int) -> Interval {
        if axis == 0 {
            self.x
        } else if axis == 1 {
            self.y
        } else {
            self.z
        }
    }

    /// The extent on `axis`: 0 for x, 1 for y, 2 for z.
    pub fn axis(&self, axis: usize) -> (i: &Interval)
        requires
            axis < 3,
        ensures
            *i == self.spec_axis(axis as int),
    {
        if axis == 0 {
            &self.x
        } else if axis == 1 {
            &self.y
        } else {
            &self.z
        }
    }

    /// Whether all ends of the box are numbers.
    pub open spec fn spec_numbers(self) -> bool {
        self.x.spec_numbers() && self.y.spec_numbers() && self.z.spec_numbers()
    }

    /// Whether the point lies in the box.
    pub open spec fn holds(self, p: Vec3) -> bool {
        self.x.contains(p.x) && self.y.contains(p.y) && self.z.contains(p.z)
    }

    /// Whether `other` lies within this box on every axis.
    pub open spec fn encloses(self, other: AABB) -> bool {
        self.x.encloses(other.x) && self.y.encloses(other.y) && self.z.encloses(other.z)
    }

    /// Whether a ray with the given crossings passes through the box within
    /// `t_interval`: something is left of the interval after clipping it
    /// against the three slabs.
    pub open spec fn spec_hit(slabs: [Slab; 3], t_interval: Interval) -> bool {
        !t_interval.spec_clip(slabs[0]).spec_clip(slabs[1]).spec_clip(slabs[2]).spec_empty()
    }

    /// Clips `t_interval` against the three slabs of a box, axis by axis, and
    /// stops at the first axis that leaves nothing of it.
    pub fn hit(slabs: &[Slab; 3], t_interval: Interval) -> (b: bool)
        ensures
            b == Self::spec_hit(*slabs, t_interval),
    {
        let mut window = t_interval;
        let mut axis: usize = 0;
        while axis < 3
            invariant
                axis <= 3,
                !window.spec_empty() || axis == 0,
                axis == 0 ==> window == t_interval,
                axis == 1 ==> window == t_interval.spec_clip(slabs[0]),
                axis == 2 ==> window == t_interval.spec_clip(slabs[0]).spec_clip(slabs[1]),
                axis == 3 ==> window == t_interval.spec_clip(slabs[0]).spec_clip(
                    slabs[1],
                ).spec_clip(slabs[2]),
            decreases 3 - axis,
        {
            window = window.clip(slabs[axis]);
            if at_most(window.max, window.min) {
                return false;
            }
            axis += 1;
        }
        true
    }
}

/// Where the interval and all crossings are numbers, a ray passes through
/// the box within the interval exactly if the largest entry, or the
/// interval's start if that is larger, comes before the smallest exit and
/// before the interval's end.
pub proof fn lemma_hit_is_overlap(slabs: [Slab; 3], t_interval: Interval)
    requires
        is_number(t_interval.min),
        is_number(t_interval.max),
        forall|axis: int|
            0 <= axis < 3 ==> is_number((#[trigger] slabs[axis]).at_min) && is_number(
                slabs[axis].at_max,
            ),
    ensures
        AABB::spec_hit(slabs, t_interval) == (spec_max(
            spec_max(t_interval.min, slabs[0].spec_entry()),
            spec_max(slabs[1].spec_entry(), slabs[2].spec_entry()),
        ) < spec_min(
            spec_min(t_interval.max, slabs[0].spec_exit()),
            spec_min(slabs[1].spec_exit(), slabs[2].spec_exit()),
        )),
{
    assert(is_number(slabs[0].at_min) && is_number(slabs[0].at_max));
    assert(is_number(slabs[1].at_min) && is_number(slabs[1].at_max));
    assert(is_number(slabs[2].at_min) && is_number(slabs[2].at_max));
}

/// The union of two boxes contains every end of every extent of both: on
/// each axis on which the ends are numbers, the union starts where the first
/// of the two starts and ends where the last of them ends, and so contains
/// each end of an extent that is in order.
pub proof fn lemma_union_contains(a: AABB, b: AABB)
    ensures
        forall|axis: int|
            0 <= axis < 3 && a.spec_axis(axis).spec_numbers() && b.spec_axis(axis).spec_numbers()
                ==> {
                let u = #[trigger] AABB::spec_from_boxes(a, b).spec_axis(axis);
                &&& u.spec_numbers()
                &&& u.min <= a.spec_axis(axis).min
                &&& u.min <= b.spec_axis(axis).min
                &&& a.spec_axis(axis).max <= u.max
                &&& b.spec_axis(axis).max <= u.max
                &&& (u.min == a.spec_axis(axis).min || u.min == b.spec_axis(axis).min)
                &&& (u.max == a.spec_axis(axis).max || u.max == b.spec_axis(axis).max)
            },
        forall|axis: int|
            0 <= axis < 3 && a.spec_axis(axis).spec_numbers() && b.spec_axis(axis).spec_numbers()
                && a.spec_axis(axis).min <= a.spec_axis(axis).max && b.spec_axis(axis).min
                <= b.spec_axis(axis).max ==> {
                let u = #[trigger] AABB::spec_from_boxes(a, b).spec_axis(axis);
                &&& u.contains(a.spec_axis(axis).min)
                &&& u.contains(a.spec_axis(axis).max)
                &&& u.contains(b.spec_axis(axis).min)
                &&& u.contains(b.spec_axis(axis).max)
            },
{
}

} // verus!
