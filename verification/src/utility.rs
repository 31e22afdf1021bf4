//! Bases, and the decisions of random sampling.

use vstd::prelude::*;
use crate::scalar::{at_most, less, spec_at_most, spec_less, Vec3, ONE};

verus! {

/// Takes or refuses a point drawn from the cube `[-1, 1]³` as the seed of a
/// random unit vector: the point is taken where its squared length is below
/// one and not zero, so that the directions are evenly spread and the point
/// can be scaled to unit length. `None` asks for another draw.
pub fn random_unit_vector(candidate: Vec3, norm_squared: i64) -> (taken: Option<Vec3>)
    ensures
        taken == (if spec_at_most(ONE, norm_squared) || norm_squared == 0 {
            None
        } else {
            Some(candidate)
        }),
{
    if at_most(ONE, norm_squared) || norm_squared == 0 {
        None
    } else {
        Some(candidate)
    }
}

/// Turns a unit vector into the hemisphere around a normal: the vector
/// itself where its dot product with the normal, `alignment`, is positive,
/// else its negation.
pub fn random_on_hemisphere(vector: Vec3, alignment: i64) -> (turned: Vec3)
    ensures
        turned == (if spec_less(0, alignment) {
            vector
        } else {
            vector.spec_negated()
        }),
{
    if less(0, alignment) {
        vector
    } else {
        vector.negated()
    }
}

/// Takes or refuses a point drawn from the square `[-1, 1]²` as a point of
/// the unit disk: the point is taken where its squared length is below one.
/// `None` asks for another draw.
pub fn random_in_unit_disk(candidate: Vec3, norm_squared: i64) -> (taken: Option<Vec3>)
    ensures
        taken == (if spec_less(norm_squared, ONE) {
            Some(candidate)
        } else {
            None
        }),
{
    if less(norm_squared, ONE) {
        Some(candidate)
    } else {
        None
    }
}

/// Two vectors that span a plane.
#[derive(Clone, Copy, Debug, PartialEq, Eq, Structural)]
pub struct Basis2 {
    pub u: Vec3,
    pub v: Vec3,
}

impl Basis2 {
    /// The basis of `u` and `v`.
    pub fn new(u: Vec3, v: Vec3) -> (b: Self)
        ensures
            b == (Basis2 { u, v }),
    {
        Basis2 { u, v }
    }
}

/// Three vectors that span space.
#[derive(Clone, Copy, Debug, PartialEq, Eq, Structural)]
pub struct Basis3 {
    pub u: Vec3,
    pub v: Vec3,
    pub w: Vec3,
}

impl Basis3 {
    /// The basis of `u`, `v` and `w`.
    pub fn new(u: Vec3, v: Vec3, w: Vec3) -> (b: Self)
        ensures
            b == (Basis3 { u, v, w }),
    {
        Basis3 { u, v, w }
    }
}

} // verus!
