//! Geometry: spheres, and the closed set of things a ray can be tested against.

use vstd::prelude::*;
use crate::aabb::{Interval, AABB};
use crate::bvh::BVHNode;
use crate::material::Material;
use crate::scalar::{is_number, less, spec_less, Vec3};
use crate::world::HitRecord;

verus! {

/// What solving the ray-sphere quadratic gave: the discriminant, and the two
/// ray parameters `(-half_b - sqrt(d)) / a` and `(-half_b + sqrt(d)) / a`.
/// The roots mean nothing where the discriminant is negative.
#[derive(Clone, Copy, Debug, PartialEq, Eq, Structural)]
pub struct Roots {
    pub discriminant: i64,
    pub near: i64,
    pub far: i64,
}

/// A sphere, at rest or moving along a straight line.
#[derive(Clone, Copy)]
pub struct Sphere {
    center1: Vec3,
    radius: i64,
    material: Material,
    is_moving: bool,
    center_vec: Vec3,
    bbox: AABB,
}

/// An object that a ray can hit: a sphere, or a hierarchy of objects.
pub enum Hittable {
    Sphere(Sphere),
    Node(Box<BVHNode>),
}

impl Sphere {
    /// The centre at time zero.
    pub closed spec fn view_center(self) -> Vec3 {
        self.center1
    }

    /// The radius.
    pub closed spec fn view_radius(self) -> i64 {
        self.radius
    }

    /// The material.
    pub closed spec fn view_material(self) -> Material {
        self.material
    }

    /// Whether the sphere moves.
    pub closed spec fn view_is_moving(self) -> bool {
        self.is_moving
    }

    /// The way that the centre goes between time zero and time one.
    pub closed spec fn view_center_vec(self) -> Vec3 {
        self.center_vec
    }

    /// The box around the sphere at all times.
    pub closed spec fn view_bbox(self) -> AABB {
        self.bbox
    }

    /// A sphere at rest. `low` and `high` are the centre with the radius
    /// taken from and added to each coordinate; the box spans them.
    pub fn stationary(center: Vec3, radius: i64, material: Material, low: Vec3, high: Vec3) -> (s:
        Self)
        ensures
            s.view_center() == center,
            s.view_radius() == radius,
            s.view_material() == material,
            !s.view_is_moving(),
            s.view_center_vec() == Vec3::spec_zeros(),
            s.view_bbox() == AABB::spec_from_points(low, high),
    {
        Sphere {
            center1: center,
            radius,
            material,
            is_moving: false,
            center_vec: Vec3::zeros(),
            bbox: AABB::from_points(low, high),
        }
    }

    /// A sphere whose centre is at `center1` at time zero and has gone by
    /// `center_vec` at time one. `corners1` and `corners2` are the corners
    /// of the sphere at the two times; the box is the union of the two boxes
    /// that they span.
    pub fn moving(
        center1: Vec3,
        center_vec: Vec3,
        radius: i64,
        material: Material,
        corners1: (Vec3, Vec3),
        corners2: (Vec3, Vec3),
    ) -> (s: Self)
        ensures
            s.view_center() == center1,
            s.view_radius() == radius,
            s.view_material() == material,
            s.view_is_moving(),
            s.view_center_vec() == center_vec,
            s.view_bbox() == AABB::spec_from_boxes(
                AABB::spec_from_points(corners1.0, corners1.1),
                AABB::spec_from_points(corners2.0, corners2.1),
            ),
            corners1.0.spec_numbers() && corners1.1.spec_numbers() && corners2.0.spec_numbers()
                && corners2.1.spec_numbers() ==> {
                &&& s.view_bbox().spec_numbers()
                &&& s.view_bbox().holds(corners1.0) && s.view_bbox().holds(corners1.1)
                &&& s.view_bbox().holds(corners2.0) && s.view_bbox().holds(corners2.1)
            },
    {
        let bbox1 = AABB::from_points(corners1.0, corners1.1);
        let bbox2 = AABB::from_points(corners2.0, corners2.1);
        Sphere {
            center1,
            radius,
            material,
            is_moving: true,
            center_vec,
            bbox: AABB::from_boxes(&bbox1, &bbox2),
        }
    }

    /// The centre at time zero.
    pub fn center1(&self) -> (c: Vec3)
        ensures
            c == self.view_center(),
    {
        self.center1
    }

    /// The radius.
    pub fn radius(&self) -> (r: i64)
        ensures
            r == self.view_radius(),
    {
        self.radius
    }

    /// The material.
    pub fn material(&self) -> (m: Material)
        ensures
            m == self.view_material(),
    {
        self.material
    }

    /// The way of the centre between time zero and time one, if the sphere
    /// moves: its centre at `time` is then `center1 + time * center_vec`.
    pub fn motion(&self) -> (m: Option<Vec3>)
        ensures
            m == (if self.view_is_moving() {
                Some(self.view_center_vec())
            } else {
                None
            }),
    {
        if self.is_moving {
            Some(self.center_vec)
        } else {
            None
        }
    }

    /// The box around the sphere.
    pub fn bounding_box(&self) -> (b: &AABB)
        ensures
            *b == self.view_bbox(),
    {
        &self.bbox
    }

    /// The root at which the ray hits: none where the discriminant is
    /// negative; else the near root unless it lies outside the interval, else
    /// the far root unless that does.
    pub open spec fn spec_hit(roots: Roots, t_interval: Interval) -> Option<i64> {
        if spec_less(roots.discriminant, 0) {
            None
        } else if !t_interval.spec_outside(roots.near) {
            Some(roots.near)
        } else if !t_interval.spec_outside(roots.far) {
            Some(roots.far)
        } else {
            None
        }
    }

    /// Chooses the ray parameter at which a ray hits the sphere within
    /// `t_interval`, from the roots of the quadratic.
    pub fn hit(roots: &Roots, t_interval: Interval) -> (t: Option<i64>)
        ensures
            t == Self::spec_hit(*roots, t_interval),
            t matches Some(root) ==> !t_interval.spec_outside(root),
            t matches Some(root) ==> (is_number(root) && is_number(t_interval.min) && is_number(
                t_interval.max,
            ) ==> t_interval.min < root < t_interval.max),
    {
        if less(roots.discriminant, 0) {
            return None;
        }
        let mut root: i64 = roots.near;
        if t_interval.outside(root) {
            root = roots.far;
            if t_interval.outside(root) {
                return None;
            }
        }
        Some(root)
    }

    /// Writes a hit of this sphere into `hit_record`: the parameter, the
    /// point, the sphere's material, the normal turned against the ray, and
    /// the surface coordinates. `alignment` is the dot product of the ray's
    /// direction with `outward_normal`; `u` and `v` are the coordinates of
    /// the outward normal on the unit sphere.
    pub fn record(
        &self,
        hit_record: &mut HitRecord,
        t: i64,
        hit_point: Vec3,
        outward_normal: Vec3,
        alignment: i64,
        u: i64,
        v: i64,
    )
        ensures
            final(hit_record).t == t,
            final(hit_record).hit_point == hit_point,
            final(hit_record).material == self.view_material(),
            final(hit_record).front_face == spec_less(alignment, 0),
            final(hit_record).normal == HitRecord::spec_facing(outward_normal, alignment),
            final(hit_record).u == u,
            final(hit_record).v == v,
    {
        hit_record.t = t;
        hit_record.hit_point = hit_point;
        hit_record.material = self.material;
        hit_record.u = u;
        hit_record.v = v;
        hit_record.set_face_normal(alignment, &outward_normal);
    }
}

/// Narrowing the end of the interval does not change which root is chosen:
/// where all are numbers and the near root is no larger than the far one,
/// the root chosen within a shorter interval from the same start is the one
/// chosen within the longer, where that lies inside the shorter, and none
/// otherwise.
pub proof fn lemma_hit_narrows(roots: Roots, t_interval: Interval, closest: i64)
    requires
        is_number(roots.discriminant),
        is_number(roots.near),
        is_number(roots.far),
        is_number(t_interval.min),
        is_number(t_interval.max),
        is_number(closest),
        roots.near <= roots.far,
        closest <= t_interval.max,
    ensures
        Sphere::spec_hit(roots, Interval { min: t_interval.min, max: closest }) == (
        match Sphere::spec_hit(roots, t_interval) {
            Some(root) => if root < closest {
                Some(root)
            } else {
                None
            },
            None => None,
        }),
{
}

impl Hittable {
    /// The box around the object.
    pub open spec fn spec_bounding_box(self) -> AABB {
        match self {
            Hittable::Sphere(sphere) => sphere.view_bbox(),
            Hittable::Node(node) => node.view_bbox(),
        }
    }

    /// The box around the object.
    pub fn bounding_box(&self) -> (b: &AABB)
        ensures
            *b == self.spec_bounding_box(),
    {
        match self {
            Hittable::Sphere(sphere) => sphere.bounding_box(),
            Hittable::Node(node) => node.bounding_box(),
        }
    }

    /// The spheres of the object, in the order in which a search meets them.
    pub open spec fn leaves(self) -> Seq<Sphere>
        decreases self,
    {
        match self {
            Hittable::Sphere(sphere) => seq![sphere],
            Hittable::Node(node) => node.leaves(),
        }
    }
}

} // verus!
