//! Rays.

use crate::fixed::Fixed;
use crate::vec3::{Vec3, V3};
use vstd::prelude::*;

verus! {

/// The mathematical view of a [`Ray`].
pub struct RayModel {
    pub origin: V3,
    pub direction: V3,
}

impl RayModel {
    /// The point at parameter `t`: `origin + t * direction`.
    pub open spec fn at(self, t: int) -> V3 {
        self.origin.add(self.direction.scale(t))
    }
}

/// A half-line: the points `origin + t * direction`.
#[derive(Clone, Copy, Debug, PartialEq, Eq, Structural)]
pub struct Ray {
    pub origin: Vec3,
    pub direction: Vec3,
}

impl View for Ray {
    type V = RayModel;

    open spec fn view(&self) -> RayModel {
        RayModel { origin: self.origin@, direction: self.direction@ }
    }
}

impl Ray {
    /// The ray from `origin` along `direction`.
    pub fn new(origin: Vec3, direction: Vec3) -> (r: Ray)
        ensures
            r.origin == origin,
            r.direction == direction,
    {
        Ray { origin, direction }
    }

    /// The point at parameter `t`.
    pub fn at(&self, t: Fixed) -> (p: Vec3)
        ensures
            p@ == self@.at(t@),
    {
        self.origin.add(self.direction.scale(t))
    }
}

} // verus!
