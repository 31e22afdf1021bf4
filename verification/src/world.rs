//! Hit records and the world of objects.

use vstd::prelude::*;
use crate::aabb::AABB;
use crate::geometry::Hittable;
use crate::material::{Material, HALF};
use crate::scalar::{is_number, less, spec_less, spec_negate, Vec3};

verus! {

/// What is known of the latest hit of a ray.
#[derive(Clone, Copy)]
pub struct HitRecord {
    /// Where the ray met the surface.
    pub hit_point: Vec3,
    /// The surface normal, turned against the ray.
    pub normal: Vec3,
    /// The material of the surface.
    pub material: Material,
    /// The ray parameter of the hit.
    pub t: i64,
    /// The first surface coordinate of the hit.
    pub u: i64,
    /// The second surface coordinate of the hit.
    pub v: i64,
    /// Whether the ray met the surface from outside.
    pub front_face: bool,
}

impl Default for HitRecord {
    /// A record of nothing: zeros, the default material, the back face.
    fn default() -> (r: Self)
        ensures
            r.hit_point == Vec3::spec_zeros(),
            r.normal == Vec3::spec_zeros(),
            r.material == Material::Lambertian(Vec3 { x: HALF, y: HALF, z: HALF }),
            r.t == 0,
            r.u == 0,
            r.v == 0,
            !r.front_face,
    {
        HitRecord {
            hit_point: Vec3::zeros(),
            normal: Vec3::zeros(),
            material: Material::default(),
            t: 0,
            u: 0,
            v: 0,
            front_face: false,
        }
    }
}

impl HitRecord {
    /// The record with the given fields.
    pub fn new(
        hit_point: Vec3,
        normal: Vec3,
        material: Material,
        t: i64,
        u: i64,
        v: i64,
        front_face: bool,
    ) -> (r: Self)
        ensures
            r == (HitRecord { hit_point, normal, material, t, u, v, front_face }),
    {
        HitRecord { hit_point, normal, material, t, u, v, front_face }
    }

    /// The outward normal turned against a ray whose direction has the dot
    /// product `alignment` with it.
    pub open spec fn spec_facing(outward_normal: Vec3, alignment: i64) -> Vec3 {
        if spec_less(alignment, 0) {
            outward_normal
        } else {
            outward_normal.spec_negated()
        }
    }

    /// The dot product of the ray's direction with the stored normal, given
    /// its dot product `alignment` with the outward normal: negating a vector
    /// negates its dot products.
    pub open spec fn spec_stored_alignment(alignment: i64) -> i64 {
        if spec_less(alignment, 0) {
            alignment
        } else {
            spec_negate(alignment)
        }
    }

    /// Sets the normal and the face of the hit. `alignment` is the dot
    /// product of the ray's direction with `outward_normal`. The hit is on
    /// the front face where that is negative; the stored normal is the
    /// outward one on the front face and its negation on the back, so the
    /// ray never runs along it.
    pub fn set_face_normal(&mut self, alignment: i64, outward_normal: &Vec3)
        ensures
            final(self).front_face == spec_less(alignment, 0),
            final(self).normal == Self::spec_facing(*outward_normal, alignment),
            is_number(alignment) ==> Self::spec_stored_alignment(alignment) <= 0,
            final(self).hit_point == old(self).hit_point,
            final(self).material == old(self).material,
            final(self).t == old(self).t,
            final(self).u == old(self).u,
            final(self).v == old(self).v,
    {
        self.front_face = less(alignment, 0);
        self.normal = if self.front_face {
            *outward_normal
        } else {
            outward_normal.negated()
        };
    }
}

/// Whatever number the dot product of a ray's direction with the outward
/// normal is, its dot product with the stored normal is not positive, and
/// the stored normal is the outward one exactly on the front face.
pub proof fn lemma_normal_faces_ray(outward_normal: Vec3, alignment: i64)
    requires
        is_number(alignment),
    ensures
        HitRecord::spec_stored_alignment(alignment) <= 0,
        is_number(HitRecord::spec_stored_alignment(alignment)),
        alignment < 0 ==> HitRecord::spec_facing(outward_normal, alignment) == outward_normal,
        alignment >= 0 ==> HitRecord::spec_facing(outward_normal, alignment)
            == outward_normal.spec_negated(),
{
}

/// A list of objects, with a box around all of them and the origin.
pub struct World {
    objects: Vec<Hittable>,
    bbox: AABB,
}

impl World {
    /// The objects, in the order in which they were added.
    pub closed spec fn view(self) -> Seq<Hittable> {
        self.objects@
    }

    /// The box around the objects.
    pub closed spec fn view_bbox(self) -> AABB {
        self.bbox
    }

    /// The box around the origin and the first `n` of `objects`.
    pub open spec fn spec_bbox_of(objects: Seq<Hittable>, n: nat) -> AABB
        decreases n,
    {
        if n == 0 || n > objects.len() {
            AABB::spec_origin()
        } else {
            AABB::spec_from_boxes(
                Self::spec_bbox_of(objects, (n - 1) as nat),
                objects[n - 1].spec_bounding_box(),
            )
        }
    }

    /// Whether the box is the one that the objects give.
    pub open spec fn well_formed(self) -> bool {
        self.view_bbox() == Self::spec_bbox_of(self@, self@.len())
    }

    /// A world without objects.
    pub fn empty() -> (w: Self)
        ensures
            w@ == Seq::<Hittable>::empty(),
            w.view_bbox() == AABB::spec_origin(),
            w.well_formed(),
    {
        World { objects: Vec::new(), bbox: AABB::default() }
    }

    /// Adds an object at the end of the list and widens the box by its box.
    pub fn add(&mut self, object: Hittable)
        ensures
            final(self)@ == old(self)@.push(object),
            final(self).view_bbox() == AABB::spec_from_boxes(
                old(self).view_bbox(),
                object.spec_bounding_box(),
            ),
            old(self).view_bbox().spec_numbers() && object.spec_bounding_box().spec_numbers() ==> {
                &&& final(self).view_bbox().spec_numbers()
                &&& final(self).view_bbox().encloses(old(self).view_bbox())
                &&& final(self).view_bbox().encloses(object.spec_bounding_box())
            },
            old(self).well_formed() ==> final(self).well_formed(),
    {
        let widened = AABB::from_boxes(&self.bbox, object.bounding_box());
        proof {
            let before = self.objects@;
            let after = before.push(object);
            Self::lemma_bbox_of_prefix(before, after, before.len());
            assert(after[after.len() - 1] == object);
            assert(Self::spec_bbox_of(after, after.len()) == AABB::spec_from_boxes(
                Self::spec_bbox_of(after, before.len()),
                object.spec_bounding_box(),
            ));
        }
        self.objects.push(object);
        self.bbox = widened;
    }

    /// The box of the first `n` objects depends on those objects alone.
    pub proof fn lemma_bbox_of_prefix(a: Seq<Hittable>, b: Seq<Hittable>, n: nat)
        requires
            n <= a.len(),
            n <= b.len(),
            forall|i: int| 0 <= i < n ==> a[i] == b[i],
        ensures
            Self::spec_bbox_of(a, n) == Self::spec_bbox_of(b, n),
        decreases n,
    {
        if n > 0 {
            Self::lemma_bbox_of_prefix(a, b, (n - 1) as nat);
        }
    }

    /// The objects.
    pub fn objects(&self) -> (o: &Vec<Hittable>)
        ensures
            o@ == self@,
    {
        &self.objects
    }

    /// The box around the objects.
    pub fn bounding_box(&self) -> (b: &AABB)
        ensures
            *b == self.view_bbox(),
    {
        &self.bbox
    }

    /// Takes the world apart into its objects.
    pub fn into_objects(self) -> (o: Vec<Hittable>)
        ensures
            o@ == self@,
    {
        self.objects
    }
}

} // verus!
