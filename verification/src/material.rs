//! The materials of surfaces, and how they scatter rays.
//!
//! A scattering draws one random point of the unit ball. Every function that scatters comes
//! in two forms: `scatter_with` takes the point, and `scatter` draws it.

use crate::color::Color;
use crate::fixed::{Fixed, SCALE};
use crate::hittable::{HitModel, HitRecord};
use crate::ray::{Ray, RayModel};
use crate::sampling::{in_unit_ball, random_in_unit_sphere};
use crate::vec3::{lemma_vec3_view_injective, Vec3, V3};
use vstd::prelude::*;

verus! {

/// The mathematical view of a [`Material`].
pub enum MaterialModel {
    Lambertian { albedo: V3 },
    Metal { albedo: V3, fuzz: int },
}

/// A perfectly diffuse surface.
#[derive(Clone, Copy, Debug, PartialEq, Eq, Structural)]
pub struct Lambertian {
    pub albedo: Vec3,
}

/// A mirror whose reflection is blurred by `fuzz`, which lies between zero and one.
#[derive(Clone, Copy, Debug, PartialEq, Eq, Structural)]
pub struct Metal {
    albedo: Vec3,
    fuzz: Fixed,
}

/// The surface response of an object.
#[derive(Clone, Copy, Debug, PartialEq, Eq, Structural)]
pub enum Material {
    Lambertian(Lambertian),
    Metal(Metal),
}

impl View for Lambertian {
    type V = MaterialModel;

    open spec fn view(&self) -> MaterialModel {
        MaterialModel::Lambertian { albedo: self.albedo@ }
    }
}

impl View for Metal {
    type V = MaterialModel;

    closed spec fn view(&self) -> MaterialModel {
        MaterialModel::Metal { albedo: self.albedo@, fuzz: self.fuzz@ }
    }
}

impl View for Material {
    type V = MaterialModel;

    open spec fn view(&self) -> MaterialModel {
        match self {
            Material::Lambertian(m) => m@,
            Material::Metal(m) => m@,
        }
    }
}

/// The direction in which a diffuse surface sends a ray on: the normal plus the unit vector
/// of the sample, or the normal alone where that sum gives no direction.
pub open spec fn lambertian_direction(normal: V3, sample: V3) -> V3 {
    let direction = normal.add(sample.unit_vector());
    if direction.is_degenerate() {
        normal
    } else {
        direction
    }
}

/// The direction in which a metal sends a ray on: the mirror image of the incoming unit
/// direction about the normal, moved by `fuzz` times the sample.
pub open spec fn metal_direction(incoming: V3, normal: V3, fuzz: int, sample: V3) -> V3 {
    incoming.unit_vector().reflect(normal).add(sample.scale(fuzz))
}

impl MaterialModel {
    /// The colour of the material, by which it attenuates what it scatters.
    pub open spec fn albedo(self) -> V3 {
        match self {
            MaterialModel::Lambertian { albedo } => albedo,
            MaterialModel::Metal { albedo, .. } => albedo,
        }
    }

    /// What becomes of `ray` at the hit `rec` when the random point drawn is `sample`:
    /// the attenuation and the scattered ray, or `None` where the ray is absorbed.
    ///
    /// A diffuse surface scatters every ray. A metal absorbs the ray unless the fuzzed
    /// reflection leaves the surface, that is, unless its dot product with the normal
    /// is positive.
    pub open spec fn scatter(self, ray: RayModel, rec: HitModel, sample: V3) -> Option<
        (V3, RayModel),
    > {
        match self {
            MaterialModel::Lambertian { albedo } => Some(
                (
                    albedo,
                    RayModel {
                        origin: rec.p,
                        direction: lambertian_direction(rec.normal, sample),
                    },
                ),
            ),
            MaterialModel::Metal { albedo, fuzz } => {
                let direction = metal_direction(ray.direction, rec.normal, fuzz, sample);
                if direction.dot(rec.normal) > 0 {
                    Some((albedo, RayModel { origin: rec.p, direction }))
                } else {
                    None
                }
            },
        }
    }
}

/// A metal absorbs every ray whose fuzzed reflection does not leave the surface, whatever
/// its fuzz.
pub proof fn lemma_metal_absorbs(albedo: V3, fuzz: int, ray: RayModel, rec: HitModel, sample: V3)
    requires
        metal_direction(ray.direction, rec.normal, fuzz, sample).dot(rec.normal) <= 0,
    ensures
        (MaterialModel::Metal { albedo, fuzz }).scatter(ray, rec, sample) is None,
{
}

/// A diffuse surface absorbs no ray.
pub proof fn lemma_lambertian_scatters(albedo: V3, ray: RayModel, rec: HitModel, sample: V3)
    ensures
        (MaterialModel::Lambertian { albedo }).scatter(ray, rec, sample) matches Some(
            (attenuation, scattered),
        ) && attenuation == albedo && scattered.origin == rec.p,
{
}

/// Whatever a material scatters, it attenuates by its albedo and sends on from the point of
/// the hit, in a direction whose components are within range where those of the normal are.
pub proof fn lemma_scattered_ray(m: MaterialModel, ray: RayModel, rec: HitModel, sample: V3)
    requires
        rec.normal.in_range(),
    ensures
        m.scatter(ray, rec, sample) matches Some((attenuation, scattered)) ==> attenuation
            == m.albedo() && scattered.origin == rec.p && scattered.direction.in_range(),
{
}

/// Two materials with the same view are the same material.
pub proof fn lemma_material_view_injective(a: Material, b: Material)
    ensures
        a@ == b@ <==> a == b,
{
    match (a, b) {
        (Material::Lambertian(x), Material::Lambertian(y)) => {
            lemma_vec3_view_injective(x.albedo, y.albedo);
        },
        (Material::Metal(x), Material::Metal(y)) => {
            lemma_vec3_view_injective(x.albedo, y.albedo);
            Fixed::lemma_view_injective(x.fuzz, y.fuzz);
        },
        _ => {},
    }
}

/// The view of what a scattering returned.
pub open spec fn scatter_view(res: Option<(Color, Ray)>) -> Option<(V3, RayModel)> {
    match res {
        Some((attenuation, scattered)) => Some((attenuation@, scattered@)),
        None => None,
    }
}

/// `fuzz` brought into `[0, 1]`.
pub open spec fn clamp_fuzz(fuzz: int) -> int {
    if fuzz < 0 {
        0
    } else if fuzz > SCALE {
        SCALE as int
    } else {
        fuzz
    }
}

impl Lambertian {
    /// A diffuse surface of the given colour.
    pub fn new(albedo: Vec3) -> (m: Lambertian)
        ensures
            m.albedo == albedo,
    {
        Lambertian { albedo }
    }

    /// Scatters `r_in` at `rec`, with `sample` as the random point of the unit ball.
    /// A diffuse surface never absorbs, and never sends a ray on without a direction
    /// where the normal has one.
    pub fn scatter_with(&self, r_in: &Ray, rec: &HitRecord, sample: &Vec3) -> (res: Option<
        (Color, Ray),
    >)
        ensures
            scatter_view(res) == self@.scatter(r_in@, rec@, sample@),
            res matches Some((attenuation, scattered)) && attenuation == self.albedo
                && scattered.origin == rec.p && (!rec@.normal.is_degenerate()
                ==> !scattered@.direction.is_degenerate()),
    {
        let mut scatter_direction = rec.normal.add(sample.unit_vector());

        // Catch a scatter direction that gives no direction.
        if scatter_direction.is_degenerate() {
            scatter_direction = rec.normal;
        }
        Some((self.albedo, Ray::new(rec.p, scatter_direction)))
    }
}

impl Metal {
    /// The fuzz of every `Metal` lies in `[0, 1]`.
    #[verifier::type_invariant]
    pub closed spec fn fuzz_in_range(self) -> bool {
        0 <= self.fuzz@ <= SCALE
    }

    /// A metal of the given colour. A `fuzz` outside `[0, 1]` is clamped.
    pub fn new(albedo: Vec3, fuzz: Fixed) -> (m: Metal)
        ensures
            m@ == (MaterialModel::Metal { albedo: albedo@, fuzz: clamp_fuzz(fuzz@) }),
    {
        let raw: i64 = fuzz.raw();
        let clamped = if raw < 0 {
            Fixed::from_raw(0)
        } else if raw > SCALE {
            Fixed::from_raw(SCALE)
        } else {
            fuzz
        };
        Metal { albedo, fuzz: clamped }
    }

    /// The colour of the metal.
    pub fn albedo(&self) -> (c: Vec3)
        ensures
            self@ is Metal,
            c@ == self@->Metal_albedo,
    {
        self.albedo
    }

    /// The fuzz of the metal, which lies in `[0, 1]`.
    pub fn fuzz(&self) -> (f: Fixed)
        ensures
            self@ is Metal,
            f@ == self@->Metal_fuzz,
            0 <= f@ <= SCALE,
    {
        proof {
            use_type_invariant(self);
        }
        self.fuzz
    }

    /// Scatters `r_in` at `rec`, with `sample` as the random point of the unit ball.
    /// A fuzzed reflection that does not leave the surface is absorbed.
    pub fn scatter_with(&self, r_in: &Ray, rec: &HitRecord, sample: &Vec3) -> (res: Option<
        (Color, Ray),
    >)
        ensures
            scatter_view(res) == self@.scatter(r_in@, rec@, sample@),
            res is None <==> metal_direction(
                r_in@.direction,
                rec@.normal,
                self@->Metal_fuzz,
                sample@,
            ).dot(rec@.normal) <= 0,
    {
        let reflected = r_in.direction.unit_vector().reflect(rec.normal);
        let scattered = Ray::new(rec.p, reflected.add(sample.scale(self.fuzz)));
        if scattered.direction.dot(rec.normal).raw() > 0 {
            Some((self.albedo, scattered))
        } else {
            None
        }
    }
}

impl Material {
    /// Scatters `r_in` at `rec`, with `sample` as the random point of the unit ball.
    pub fn scatter_with(&self, r_in: &Ray, rec: &HitRecord, sample: &Vec3) -> (res: Option<
        (Color, Ray),
    >)
        ensures
            scatter_view(res) == self@.scatter(r_in@, rec@, sample@),
    {
        match self {
            Material::Lambertian(m) => m.scatter_with(r_in, rec, sample),
            Material::Metal(m) => m.scatter_with(r_in, rec, sample),
        }
    }

    /// Scatters `r_in` at `rec` with a freshly drawn random point of the unit ball.
    /// `None` says that the material absorbed the ray.
    pub fn scatter(&self, r_in: &Ray, rec: &HitRecord) -> (res: Option<(Color, Ray)>)
        ensures
            exists|sample: V3|
                in_unit_ball(sample) && scatter_view(res) == #[trigger] self@.scatter(
                    r_in@,
                    rec@,
                    sample,
                ),
    {
        let sample = random_in_unit_sphere();
        self.scatter_with(r_in, rec, &sample)
    }
}

} // verus!
