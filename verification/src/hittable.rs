//! What a ray can hit, and the record of a hit.

use crate::fixed::Fixed;
use crate::material::{lemma_material_view_injective, Material, MaterialModel};
use crate::ray::{Ray, RayModel};
use crate::vec3::{lemma_vec3_view_injective, Vec3, V3};
use vstd::prelude::*;

verus! {

/// The mathematical view of a [`HitRecord`].
pub struct HitModel {
    pub t: int,
    pub p: V3,
    pub normal: V3,
    pub front_face: bool,
    pub material: MaterialModel,
}

impl HitModel {
    /// Whether the outward normal already opposes the ray.
    pub open spec fn faces_front(ray: RayModel, outward_normal: V3) -> bool {
        ray.direction.dot(outward_normal) < 0
    }

    /// The outward normal, turned where needed so that it opposes the ray.
    pub open spec fn oriented(ray: RayModel, outward_normal: V3) -> V3 {
        if Self::faces_front(ray, outward_normal) {
            outward_normal
        } else {
            outward_normal.neg()
        }
    }

    /// The record with its normal and side set from the outward normal.
    pub open spec fn with_face_normal(self, ray: RayModel, outward_normal: V3) -> HitModel {
        HitModel {
            front_face: Self::faces_front(ray, outward_normal),
            normal: Self::oriented(ray, outward_normal),
            ..self
        }
    }

    /// Whether the record answers a query of `ray` over `[t_min, t_max]`: its parameter lies in
    /// the interval, its point is the ray's point there, and its normal does not point along
    /// the ray.
    pub open spec fn answers(self, ray: RayModel, t_min: int, t_max: int) -> bool {
        &&& t_min <= self.t <= t_max
        &&& self.p == ray.at(self.t)
        &&& self.normal.dot(ray.direction) <= 0
    }
}

/// Where and how a ray struck a surface.
#[derive(Clone, Copy, Debug, PartialEq, Eq)]
pub struct HitRecord<'a> {
    pub t: Fixed,
    pub p: Vec3,
    pub normal: Vec3,
    pub front_face: bool,
    pub material: &'a Material,
}

impl<'a> View for HitRecord<'a> {
    type V = HitModel;

    open spec fn view(&self) -> HitModel {
        HitModel {
            t: self.t@,
            p: self.p@,
            normal: self.normal@,
            front_face: self.front_face,
            material: self.material@,
        }
    }
}

/// The view of what a query returned.
pub open spec fn hit_view(res: Option<HitRecord>) -> Option<HitModel> {
    match res {
        Some(rec) => Some(rec@),
        None => None,
    }
}

/// What is left of a query's answer once the upper bound drops to `ceiling`.
pub open spec fn narrowed(answer: Option<HitModel>, ceiling: int) -> Option<HitModel> {
    match answer {
        Some(rec) => if rec.t <= ceiling { Some(rec) } else { None },
        None => None,
    }
}

/// A normal oriented against a ray never points along it.
pub proof fn lemma_oriented_opposes(ray: RayModel, outward_normal: V3)
    ensures
        HitModel::oriented(ray, outward_normal).dot(ray.direction) <= 0,
{
    let d = ray.direction;
    let o = outward_normal;
    assert(d.dot_wide(o) == o.dot_wide(d)) by (nonlinear_arith);
    assert(o.neg().dot_wide(d) == -o.dot_wide(d)) by (nonlinear_arith);
}

/// Two records with the same view are the same record.
pub proof fn lemma_record_view_injective(a: HitRecord, b: HitRecord)
    ensures
        a@ == b@ <==> a == b,
{
    Fixed::lemma_view_injective(a.t, b.t);
    lemma_vec3_view_injective(a.p, b.p);
    lemma_vec3_view_injective(a.normal, b.normal);
    lemma_material_view_injective(*a.material, *b.material);
}

/// Two answers with the same view are the same answer.
pub proof fn lemma_hit_view_injective(a: Option<HitRecord>, b: Option<HitRecord>)
    ensures
        hit_view(a) == hit_view(b) <==> a == b,
{
    if let (Some(x), Some(y)) = (a, b) {
        lemma_record_view_injective(x, y);
    }
}

impl<'a> HitRecord<'a> {
    /// Sets the normal and the side from the outward normal, so that the normal opposes `r`.
    pub fn set_face_normal(&mut self, r: &Ray, outward_normal: &Vec3)
        ensures
            final(self)@ == old(self)@.with_face_normal(r@, outward_normal@),
            final(self)@.normal.dot(r@.direction) <= 0,
    {
        proof {
            lemma_oriented_opposes(r@, outward_normal@);
        }
        self.front_face = r.direction.dot(*outward_normal).raw() < 0;
        self.normal = if self.front_face { *outward_normal } else { outward_normal.neg() };
    }
}

/// Anything that can be tested against a ray.
pub trait Hittable {
    /// The nearest intersection of this object with `ray` whose parameter lies in
    /// `[t_min, t_max]`, if there is one. An object that does not say where it is met is
    /// met nowhere.
    open spec fn hit_spec(&self, ray: RayModel, t_min: int, t_max: int) -> Option<HitModel> {
        None
    }

    /// Tests the object against `r`. Besides the answer itself, every implementation owes two
    /// laws of `hit_spec`: each answer lies in the interval asked for and opposes the ray, and
    /// lowering the upper bound only drops an answer that lies beyond the new bound.
    fn hit(&self, r: &Ray, t_min: Fixed, t_max: Fixed) -> (res: Option<HitRecord<'_>>)
        ensures
            hit_view(res) == self.hit_spec(r@, t_min@, t_max@),
            forall|ray: RayModel, lo: int, hi: int|
                (#[trigger] self.hit_spec(ray, lo, hi)) matches Some(rec) ==> rec.answers(
                    ray,
                    lo,
                    hi,
                ),
            forall|ray: RayModel, lo: int, ceiling: int, hi: int|
                ceiling <= hi ==> #[trigger] self.hit_spec(ray, lo, ceiling) == narrowed(
                    #[trigger] self.hit_spec(ray, lo, hi),
                    ceiling,
                ),
    ;
}

} // verus!
