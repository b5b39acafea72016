use vstd::prelude::*;

use crate::fixed::abs_i;
use crate::vector::{sv_add, sv_scale, SpecVec, Vector3};

verus! {

/// A half-line: a starting position plus a direction vector, which need
/// not be unit length.
#[derive(Debug, Clone, Copy, PartialEq, Eq, Structural)]
pub struct Ray {
    pub position: Vector3,
    pub direction: Vector3,
}

/// The mathematical model of a `Ray`.
pub struct SpecRay {
    pub position: SpecVec,
    pub direction: SpecVec,
}

impl View for Ray {
    type V = SpecRay;

    open spec fn view(&self) -> SpecRay {
        SpecRay { position: self.position@, direction: self.direction@ }
    }
}

/// The point a ray reaches after parameter `t`: `position + t * direction`.
pub open spec fn sr_at(r: SpecRay, t: int) -> SpecVec {
    sv_add(r.position, sv_scale(r.direction, t))
}

impl Ray {
    pub fn new(position: Vector3, direction: Vector3) -> (r: Self)
        ensures
            r@.position == position@,
            r@.direction == direction@,
    {
        Self { position, direction }
    }

    pub fn position(&self) -> (r: Vector3)
        ensures
            r@ == self@.position,
    {
        self.position
    }

    pub fn direction(&self) -> (r: Vector3)
        ensures
            r@ == self@.direction,
    {
        self.direction
    }

    /// Evaluate the ray at parameter `t`.
    pub fn at(&self, t: i128) -> (r: Vector3)
        requires
            abs_i(self@.direction.x * t) <= i128::MAX,
            abs_i(self@.direction.y * t) <= i128::MAX,
            abs_i(self@.direction.z * t) <= i128::MAX,
            abs_i(self@.position.x) + abs_i(self@.direction.x * t) <= i128::MAX,
            abs_i(self@.position.y) + abs_i(self@.direction.y * t) <= i128::MAX,
            abs_i(self@.position.z) + abs_i(self@.direction.z * t) <= i128::MAX,
        ensures
            r@ == sr_at(self@, t as int),
    {
        let d: Vector3 = self.direction.scale(t);
        proof {
            crate::vector::lemma_scale_abs(self@.direction, t as int);
        }
        self.position.add(d)
    }
}

} // verus!
