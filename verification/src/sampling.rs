//! Random points of the unit ball.

use crate::fixed::{lemma_product_bound, Fixed, SCALE};
use crate::vec3::{Vec3, V3};
use rand::Rng;
use vstd::prelude::*;

verus! {

/// How many draws [`random_in_unit_sphere`] makes before it settles for the centre.
pub const MAX_ATTEMPTS: u32 = 64;

/// Whether `v` lies in the closed ball of radius one about the origin.
pub open spec fn in_unit_ball(v: V3) -> bool {
    v.dot_wide(v) <= SCALE * SCALE
}

/// Draws a whole number from `lo..=hi` with `rand::Rng::gen_range` on the generator that
/// `rand::thread_rng` hands out, which the operating system seeds when a thread first uses
/// it. Nothing is claimed of the draw but that it lies in the range; an empty range, on
/// which `gen_range` panics, is left out.
#[verifier::external_body]
fn random_between(lo: i64, hi: i64) -> (r: i64)
    requires
        lo <= hi,
    ensures
        lo <= r <= hi,
{
    rand::thread_rng().gen_range(lo..=hi)
}

impl Vec3 {
    /// Whether the vector lies in the closed ball of radius one about the origin.
    pub fn in_unit_ball(&self) -> (b: bool)
        ensures
            b == in_unit_ball(self@),
    {
        let x: i128 = self.x.raw() as i128;
        let y: i128 = self.y.raw() as i128;
        let z: i128 = self.z.raw() as i128;
        proof {
            lemma_product_bound(x as int, x as int);
            lemma_product_bound(y as int, y as int);
            lemma_product_bound(z as int, z as int);
        }
        x * x + y * y + z * z <= 1_000_000_000_000
    }
}

/// A random point of the unit ball: coordinates are drawn from `[-1, 1]` until the point
/// lies in the ball. After `MAX_ATTEMPTS` rejected draws the centre is returned.
pub fn random_in_unit_sphere() -> (p: Vec3)
    ensures
        in_unit_ball(p@),
{
    let mut attempts: u32 = 0;
    while attempts < MAX_ATTEMPTS
        invariant
            attempts <= MAX_ATTEMPTS,
        decreases MAX_ATTEMPTS - attempts,
    {
        let x: i64 = random_between(-SCALE, SCALE);
        let y: i64 = random_between(-SCALE, SCALE);
        let z: i64 = random_between(-SCALE, SCALE);
        let p = Vec3::new(Fixed::from_raw(x), Fixed::from_raw(y), Fixed::from_raw(z));
        if p.in_unit_ball() {
            return p;
        }
        attempts += 1;
    }
    let centre = Vec3::zero();
    assert(in_unit_ball(centre@)) by (nonlinear_arith)
        requires
            centre@ == V3::zero(),
    ;
    centre
}

} // verus!
