//! Spheres, and where a ray meets one.
//!
//! A ray `O + t D` meets the sphere of centre `C` and radius `r` where
//! `a t^2 + 2 half_b t + c = 0`, with `a = D . D`, `half_b = (O - C) . D` and
//! `c = (O - C) . (O - C) - r^2`.

use crate::fixed::{
    fx_add, fx_div, fx_mul, fx_sqrt, fx_sub, lemma_floor_sqrt, lemma_quot_monotone, Fixed, SCALE,
};
use crate::hittable::{hit_view, lemma_oriented_opposes, narrowed, HitModel, HitRecord, Hittable};
use crate::material::{Material, MaterialModel};
use crate::ray::{Ray, RayModel};
use crate::scene::reflects_shades;
use crate::vec3::{lemma_length_squared_not_negative, Vec3, V3};
use vstd::prelude::*;

verus! {

/// The mathematical view of a [`Sphere`].
pub struct SphereModel {
    pub center: V3,
    pub radius: int,
    pub material: MaterialModel,
}

impl SphereModel {
    /// The vector from the centre to the ray's origin.
    pub open spec fn oc(self, ray: RayModel) -> V3 {
        ray.origin.sub(self.center)
    }

    /// The leading coefficient of the quadratic `a t^2 + 2 half_b t + c = 0`.
    pub open spec fn a(self, ray: RayModel) -> int {
        ray.direction.length_squared()
    }

    /// Half the middle coefficient of the quadratic.
    pub open spec fn half_b(self, ray: RayModel) -> int {
        self.oc(ray).dot(ray.direction)
    }

    /// The constant coefficient of the quadratic.
    pub open spec fn c(self, ray: RayModel) -> int {
        fx_sub(self.oc(ray).length_squared(), fx_mul(self.radius, self.radius))
    }

    /// A quarter of the discriminant of the quadratic, `half_b^2 - a c`.
    pub open spec fn discriminant(self, ray: RayModel) -> int {
        fx_sub(fx_mul(self.half_b(ray), self.half_b(ray)), fx_mul(self.a(ray), self.c(ray)))
    }

    /// Whether the quadratic can be solved: the sphere has a radius, the ray a direction, and
    /// the discriminant is not negative.
    pub open spec fn has_roots(self, ray: RayModel) -> bool {
        &&& self.radius != 0
        &&& self.a(ray) != 0
        &&& self.discriminant(ray) >= 0
    }

    /// The smaller root, `(-half_b - sqrt(discriminant)) / a`.
    pub open spec fn near_root(self, ray: RayModel) -> int {
        fx_div(fx_sub(-self.half_b(ray), fx_sqrt(self.discriminant(ray))), self.a(ray))
    }

    /// The larger root, `(-half_b + sqrt(discriminant)) / a`.
    pub open spec fn far_root(self, ray: RayModel) -> int {
        fx_div(fx_add(-self.half_b(ray), fx_sqrt(self.discriminant(ray))), self.a(ray))
    }

    /// The root that a query over `[t_min, t_max]` reports: the smaller one where it lies in
    /// the interval, else the larger one where that does.
    pub open spec fn root_in(self, ray: RayModel, t_min: int, t_max: int) -> Option<int> {
        if !self.has_roots(ray) {
            None
        } else if t_min <= self.near_root(ray) <= t_max {
            Some(self.near_root(ray))
        } else if t_min <= self.far_root(ray) <= t_max {
            Some(self.far_root(ray))
        } else {
            None
        }
    }

    /// The geometric normal at `p`, `(p - center) / radius`. It points inward where the radius
    /// is negative.
    pub open spec fn outward_normal(self, p: V3) -> V3 {
        p.sub(self.center).div(self.radius)
    }

    /// The record of the intersection at parameter `t`.
    pub open spec fn record_at(self, ray: RayModel, t: int) -> HitModel {
        let p = ray.at(t);
        HitModel {
            t,
            p,
            normal: HitModel::oriented(ray, self.outward_normal(p)),
            front_face: HitModel::faces_front(ray, self.outward_normal(p)),
            material: self.material,
        }
    }

    /// The answer of the sphere to a query of `ray` over `[t_min, t_max]`.
    pub open spec fn hit(self, ray: RayModel, t_min: int, t_max: int) -> Option<HitModel> {
        match self.root_in(ray, t_min, t_max) {
            Some(t) => Some(self.record_at(ray, t)),
            None => None,
        }
    }
}

/// Where the quadratic can be solved, the smaller root does not exceed the larger one.
pub proof fn lemma_roots_ordered(s: SphereModel, ray: RayModel)
    requires
        s.has_roots(ray),
    ensures
        s.near_root(ray) <= s.far_root(ray),
{
    let a = s.a(ray);
    let d = s.discriminant(ray);
    lemma_length_squared_not_negative(ray.direction);
    assert(d * SCALE >= 0) by (nonlinear_arith)
        requires
            d >= 0,
    ;
    lemma_floor_sqrt(d * SCALE);
    let low = fx_sub(-s.half_b(ray), fx_sqrt(d));
    let high = fx_add(-s.half_b(ray), fx_sqrt(d));
    assert(low * SCALE <= high * SCALE) by (nonlinear_arith)
        requires
            low <= high,
    ;
    lemma_quot_monotone(low * SCALE, high * SCALE, a);
}

/// Every answer of a sphere lies in the interval asked for, holds the ray's point at its
/// parameter, and has a normal that opposes the ray. It carries the material of the sphere,
/// and the components of its normal are within range.
pub proof fn lemma_sphere_answers(s: SphereModel, ray: RayModel, t_min: int, t_max: int)
    ensures
        s.hit(ray, t_min, t_max) matches Some(rec) ==> rec.answers(ray, t_min, t_max)
            && rec.material == s.material && rec.normal.in_range(),
{
    if let Some(t) = s.root_in(ray, t_min, t_max) {
        lemma_oriented_opposes(ray, s.outward_normal(ray.at(t)));
    }
}

/// Lowering the upper bound of a query drops the answer if it lies beyond the new bound,
/// and changes nothing else.
pub proof fn lemma_sphere_narrowing(
    s: SphereModel,
    ray: RayModel,
    t_min: int,
    ceiling: int,
    t_max: int,
)
    requires
        ceiling <= t_max,
    ensures
        s.hit(ray, t_min, ceiling) == narrowed(s.hit(ray, t_min, t_max), ceiling),
{
    if s.has_roots(ray) {
        lemma_roots_ordered(s, ray);
    }
}

/// A ray that meets the sphere twice within the interval is reported at the nearer meeting.
pub proof fn lemma_sphere_prefers_near_root(s: SphereModel, ray: RayModel, t_min: int, t_max: int)
    requires
        s.has_roots(ray),
        t_min <= s.near_root(ray) <= t_max,
    ensures
        s.hit(ray, t_min, t_max) matches Some(rec) && rec.t == s.near_root(ray) && rec.t
            <= s.far_root(ray),
{
    lemma_roots_ordered(s, ray);
}

/// Spheres whose albedos are shades reflect shades only.
pub proof fn lemma_spheres_reflect_shades(spheres: Seq<Box<Sphere>>)
    requires
        forall|i: int|
            0 <= i < spheres.len() ==> (#[trigger] spheres[i])@.material.albedo().is_shade(),
    ensures
        reflects_shades(spheres),
{
    assert forall|i: int, ray: RayModel, t_min: int, t_max: int|
        0 <= i < spheres.len() implies ((#[trigger] spheres[i].hit_spec(ray, t_min, t_max))
        matches Some(rec) ==> rec.material.albedo().is_shade() && rec.normal.in_range()) by {
        lemma_sphere_answers(spheres[i]@, ray, t_min, t_max);
    }
}

/// A sphere with its material.
#[derive(Clone, Copy, Debug, PartialEq, Eq)]
pub struct Sphere {
    pub center: Vec3,
    pub radius: Fixed,
    pub material: Material,
}

impl View for Sphere {
    type V = SphereModel;

    open spec fn view(&self) -> SphereModel {
        SphereModel { center: self.center@, radius: self.radius@, material: self.material@ }
    }
}

impl Sphere {
    /// The sphere of the given centre, radius and material.
    pub fn new(center: Vec3, radius: Fixed, material: Material) -> (s: Sphere)
        ensures
            s.center == center,
            s.radius == radius,
            s.material == material,
    {
        Sphere { center, radius, material }
    }
}

impl Hittable for Sphere {
    /// What the sphere's quadratic gives: see [`SphereModel::hit`].
    open spec fn hit_spec(&self, ray: RayModel, t_min: int, t_max: int) -> Option<HitModel> {
        self@.hit(ray, t_min, t_max)
    }

    /// Solves the quadratic and reports the nearest root in `[t_min, t_max]`. A sphere of
    /// radius zero and a ray without direction meet nowhere.
    fn hit(&self, r: &Ray, t_min: Fixed, t_max: Fixed) -> (res: Option<HitRecord<'_>>)
        ensures
            hit_view(res) == self@.hit(r@, t_min@, t_max@),
            self@.has_roots(r@) && t_min@ <= self@.near_root(r@) <= t_max@ ==> res is Some
                && res->0.t@ == self@.near_root(r@),
    {
        proof {
            assert forall|ray: RayModel, lo: int, hi: int|
                (#[trigger] self.hit_spec(ray, lo, hi)) matches Some(rec) ==> rec.answers(
                    ray,
                    lo,
                    hi,
                ) by {
                lemma_sphere_answers(self@, ray, lo, hi);
            }
            assert forall|ray: RayModel, lo: int, ceiling: int, hi: int| ceiling <= hi implies (
            #[trigger] self.hit_spec(ray, lo, ceiling)) == narrowed(
                #[trigger] self.hit_spec(ray, lo, hi),
                ceiling,
            ) by {
                lemma_sphere_narrowing(self@, ray, lo, ceiling, hi);
            }
        }
        let oc = r.origin.sub(self.center);
        let a = r.direction.length_squared();
        let half_b = oc.dot(r.direction);
        let c = oc.length_squared().sub(self.radius.mul(self.radius));

        let discriminant = half_b.mul(half_b).sub(a.mul(c));
        if self.radius.raw() == 0 || a.raw() == 0 || discriminant.raw() < 0 {
            return None;
        }
        // Find the nearest root that lies in the acceptable range.

        let sqrtd = discriminant.sqrt();
        let mut root = half_b.neg().sub(sqrtd).div(a);
        if root.raw() < t_min.raw() || t_max.raw() < root.raw() {
            root = half_b.neg().add(sqrtd).div(a);
            if root.raw() < t_min.raw() || t_max.raw() < root.raw() {
                return None;
            }
        }
        let t = root;
        let p = r.at(t);
        let outward_normal = p.sub(self.center).div(self.radius);
        let mut rec = HitRecord {
            t,
            p,
            normal: Vec3::new(Fixed::from_raw(0), Fixed::from_raw(0), Fixed::from_raw(0)),
            front_face: false,
            material: &self.material,
        };

        rec.set_face_normal(r, &outward_normal);

        Some(rec)
    }
}

} // verus!
