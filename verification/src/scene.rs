//! Scenes: the nearest hit among the objects, and the colour seen along a ray.

use crate::color::Color;
use crate::fixed::{fx_add, fx_mul, fx_sub, Fixed, LIMIT, SCALE};
use crate::hittable::{
    hit_view, lemma_hit_view_injective, narrowed, HitModel, HitRecord, Hittable,
};
use crate::material::{lemma_scattered_ray, scatter_view};
use crate::ray::{Ray, RayModel};
use crate::sampling::in_unit_ball;
use crate::vec3::{
    lemma_mul_of_shades, lemma_unit_vector_bound, lemma_unit_vector_of_vertical, Vec3, V3,
};
use vstd::prelude::*;

verus! {

/// The raw lower bound, 0.001, of the hit parameters that shading accepts. It keeps a
/// scattered ray from meeting again the surface that it has just left.
pub const T_MIN: i64 = 1_000;

/// The nearer of two answers, the first where they tie.
pub open spec fn nearer(first: Option<HitModel>, second: Option<HitModel>) -> Option<HitModel> {
    match (first, second) {
        (Some(a), Some(b)) => if b.t < a.t { second } else { first },
        (Some(_), None) => first,
        (None, _) => second,
    }
}

/// The nearest of the answers that the first `n` objects give to a query.
pub open spec fn nearest_among<H: Hittable + ?Sized>(
    objects: Seq<Box<H>>,
    n: int,
    ray: RayModel,
    t_min: int,
    t_max: int,
) -> Option<HitModel>
    decreases n,
{
    if n <= 0 {
        None
    } else {
        nearer(
            nearest_among(objects, n - 1, ray, t_min, t_max),
            objects[n - 1].hit_spec(ray, t_min, t_max),
        )
    }
}

/// The nearest of the answers that the objects give to a query.
pub open spec fn nearest_hit<H: Hittable + ?Sized>(
    objects: Seq<Box<H>>,
    ray: RayModel,
    t_min: int,
    t_max: int,
) -> Option<HitModel> {
    nearest_among(objects, objects.len() as int, ray, t_min, t_max)
}

/// Whether `rec` is the answer of object `k`, no object of the first `n` answers nearer, and
/// every object before `k` answers farther.
pub open spec fn wins_at<H: Hittable + ?Sized>(
    objects: Seq<Box<H>>,
    n: int,
    k: int,
    ray: RayModel,
    t_min: int,
    t_max: int,
    rec: HitModel,
) -> bool {
    &&& 0 <= k < n
    &&& objects[k].hit_spec(ray, t_min, t_max) == Some(rec)
    &&& forall|i: int|
        0 <= i < n ==> ((#[trigger] objects[i].hit_spec(ray, t_min, t_max)) matches Some(other)
            ==> rec.t <= other.t && (i < k ==> rec.t < other.t))
}

/// Whether `res` is what a nearest-hit search over the first `n` objects owes: nothing where
/// no object answers, else the answer of the first object among those that answer nearest.
pub open spec fn is_nearest_among<H: Hittable + ?Sized>(
    objects: Seq<Box<H>>,
    n: int,
    ray: RayModel,
    t_min: int,
    t_max: int,
    res: Option<HitModel>,
) -> bool {
    match res {
        None => forall|i: int|
            0 <= i < n ==> (#[trigger] objects[i].hit_spec(ray, t_min, t_max)) is None,
        Some(rec) => exists|k: int| wins_at(objects, n, k, ray, t_min, t_max, rec),
    }
}

/// The search reports the nearest answer, whatever the order of the objects; among objects
/// that tie, the one added first.
pub proof fn lemma_nearest_among_is_nearest<H: Hittable + ?Sized>(
    objects: Seq<Box<H>>,
    n: int,
    ray: RayModel,
    t_min: int,
    t_max: int,
)
    requires
        0 <= n <= objects.len(),
    ensures
        is_nearest_among(
            objects,
            n,
            ray,
            t_min,
            t_max,
            nearest_among(objects, n, ray, t_min, t_max),
        ),
    decreases n,
{
    if n > 0 {
        let m: int = n - 1;
        lemma_nearest_among_is_nearest(objects, m, ray, t_min, t_max);
        let before = nearest_among(objects, m, ray, t_min, t_max);
        let here = objects[n - 1].hit_spec(ray, t_min, t_max);
        match (before, here) {
            (Some(a), Some(b)) => {
                let k = choose|k: int| wins_at(objects, m, k, ray, t_min, t_max, a);
                if b.t < a.t {
                    assert(wins_at(objects, n, n - 1, ray, t_min, t_max, b));
                } else {
                    assert(wins_at(objects, n, k, ray, t_min, t_max, a));
                }
            },
            (Some(a), None) => {
                let k = choose|k: int| wins_at(objects, m, k, ray, t_min, t_max, a);
                assert(wins_at(objects, n, k, ray, t_min, t_max, a));
            },
            (None, Some(b)) => {
                assert(wins_at(objects, n, n - 1, ray, t_min, t_max, b));
            },
            (None, None) => {},
        }
    }
}

/// Of two objects that both answer, the one that answers nearer is reported, whichever was
/// added first.
pub proof fn lemma_nearer_of_two_wins<H: Hittable + ?Sized>(
    objects: Seq<Box<H>>,
    ray: RayModel,
    t_min: int,
    t_max: int,
)
    requires
        objects.len() == 2,
        objects[0].hit_spec(ray, t_min, t_max) is Some,
        objects[1].hit_spec(ray, t_min, t_max) is Some,
    ensures
        ({
            let first = objects[0].hit_spec(ray, t_min, t_max);
            let second = objects[1].hit_spec(ray, t_min, t_max);
            &&& first->0.t < second->0.t ==> nearest_hit(objects, ray, t_min, t_max) == first
            &&& second->0.t < first->0.t ==> nearest_hit(objects, ray, t_min, t_max) == second
        }),
{
    reveal_with_fuel(nearest_among, 3);
}

/// At most one result is what a nearest-hit search owes: two searches of the same objects
/// with the same ray and bounds agree.
pub proof fn lemma_nearest_unique<H: Hittable + ?Sized>(
    objects: Seq<Box<H>>,
    n: int,
    ray: RayModel,
    t_min: int,
    t_max: int,
    first: Option<HitModel>,
    second: Option<HitModel>,
)
    requires
        is_nearest_among(objects, n, ray, t_min, t_max, first),
        is_nearest_among(objects, n, ray, t_min, t_max, second),
    ensures
        first == second,
{
    match (first, second) {
        (Some(a), Some(b)) => {
            // Each of the two is no farther than the other, and neither comes before it.
            let ka = choose|k: int| wins_at(objects, n, k, ray, t_min, t_max, a);
            let kb = choose|k: int| wins_at(objects, n, k, ray, t_min, t_max, b);
            assert(objects[ka].hit_spec(ray, t_min, t_max) == Some(a));
            assert(objects[kb].hit_spec(ray, t_min, t_max) == Some(b));
            assert(ka == kb);
        },
        (Some(a), None) => {
            let ka = choose|k: int| wins_at(objects, n, k, ray, t_min, t_max, a);
            assert(objects[ka].hit_spec(ray, t_min, t_max) == Some(a));
        },
        (None, Some(b)) => {
            let kb = choose|k: int| wins_at(objects, n, k, ray, t_min, t_max, b);
            assert(objects[kb].hit_spec(ray, t_min, t_max) == Some(b));
        },
        (None, None) => {},
    }
}

/// Two searches of the same objects with the same ray and bounds return the same record, to
/// the last bit: whatever meets the contract of [`Scene::hit`] once is what meets it again.
pub proof fn lemma_hit_is_repeatable<H: Hittable + ?Sized>(
    objects: Seq<Box<H>>,
    ray: Ray,
    t_min: Fixed,
    t_max: Fixed,
    first: Option<HitRecord>,
    second: Option<HitRecord>,
)
    requires
        hit_view(first) == nearest_hit(objects, ray@, t_min@, t_max@),
        hit_view(second) == nearest_hit(objects, ray@, t_min@, t_max@),
    ensures
        first == second,
{
    lemma_hit_view_injective(first, second);
}

/// The colour white.
pub open spec fn white() -> V3 {
    V3 { x: 1_000_000, y: 1_000_000, z: 1_000_000 }
}

/// The blue of the sky, `(0.5, 0.7, 1.0)`.
pub open spec fn sky_blue() -> V3 {
    V3 { x: 500_000, y: 700_000, z: 1_000_000 }
}

/// The colour of the sky along `ray`: with `t = 0.5 * (unit(direction).y + 1)`, the blend
/// `(1 - t) * white + t * sky_blue`.
pub open spec fn background_spec(ray: RayModel) -> V3 {
    let t = fx_mul(500_000, fx_add(ray.direction.unit_vector().y, SCALE as int));
    white().scale(fx_sub(SCALE as int, t)).add(sky_blue().scale(t))
}

/// The random point that the next bounce uses: the first of `samples`, or the centre of the
/// ball once they are used up.
pub open spec fn first_sample(samples: Seq<V3>) -> V3 {
    if samples.len() > 0 {
        samples[0]
    } else {
        V3::zero()
    }
}

/// The random points left for the bounces after the next one.
pub open spec fn later_samples(samples: Seq<V3>) -> Seq<V3> {
    if samples.len() > 0 {
        samples.skip(1)
    } else {
        samples
    }
}

/// How many bounces a ray with the budget `depth` can make: none where the budget is
/// negative.
pub open spec fn bounces(depth: int) -> int {
    if depth > 0 {
        depth
    } else {
        0
    }
}

/// Whether every point of `samples` lies in the unit ball.
pub open spec fn all_in_unit_ball(samples: Seq<V3>) -> bool {
    forall|i: int| 0 <= i < samples.len() ==> in_unit_ball(#[trigger] samples[i])
}

/// The colour seen along `ray` with `depth` bounces left, when the bounces draw `samples`
/// in turn.
///
/// With no bounce left the colour is black. A ray that meets nothing at a parameter of
/// at least 0.001 sees the sky. A ray that meets a surface is scattered by its material:
/// absorbed, it brings black; sent on, it brings the colour seen along the scattered ray
/// with one bounce less, times the attenuation.
pub open spec fn ray_color_spec<H: Hittable + ?Sized>(
    objects: Seq<Box<H>>,
    ray: RayModel,
    depth: int,
    samples: Seq<V3>,
) -> V3
    decreases depth,
{
    if depth <= 0 {
        V3::zero()
    } else {
        match nearest_hit(objects, ray, T_MIN as int, LIMIT as int) {
            Some(rec) => match rec.material.scatter(ray, rec, first_sample(samples)) {
                Some((attenuation, scattered)) => attenuation.mul(
                    ray_color_spec(objects, scattered, depth - 1, later_samples(samples)),
                ),
                None => V3::zero(),
            },
            None => background_spec(ray),
        }
    }
}

/// The views of the points of `samples`.
pub open spec fn sample_views(samples: Seq<Vec3>) -> Seq<V3> {
    Seq::new(samples.len(), |i: int| samples[i]@)
}

/// With no bounce left, every ray brings black, whatever the scene holds.
pub proof fn lemma_exhausted_is_black<H: Hittable + ?Sized>(
    objects: Seq<Box<H>>,
    ray: RayModel,
    depth: int,
    samples: Seq<V3>,
)
    requires
        depth <= 0,
    ensures
        ray_color_spec(objects, ray, depth, samples) == V3::zero(),
{
}

/// A bounce at which the material absorbs the ray brings black.
pub proof fn lemma_absorbed_is_black<H: Hittable + ?Sized>(
    objects: Seq<Box<H>>,
    ray: RayModel,
    depth: int,
    samples: Seq<V3>,
    rec: HitModel,
)
    requires
        depth > 0,
        nearest_hit(objects, ray, T_MIN as int, LIMIT as int) == Some(rec),
        rec.material.scatter(ray, rec, first_sample(samples)) is None,
    ensures
        ray_color_spec(objects, ray, depth, samples) == V3::zero(),
{
}

/// Straight down the sky is white, and straight up it is sky blue.
pub proof fn lemma_background_boundary(ray: RayModel)
    ensures
        ray.direction.unit_vector().y == -SCALE ==> background_spec(ray) == white(),
        ray.direction.unit_vector().y == SCALE ==> background_spec(ray) == sky_blue(),
{
}

/// The sky is never brighter than white nor darker than black.
pub proof fn lemma_background_is_shade(ray: RayModel)
    requires
        ray.direction.in_range(),
    ensures
        background_spec(ray).is_shade(),
{
    lemma_unit_vector_bound(ray.direction);
}

/// Whether every answer that an object can give carries a normal within range and a material
/// whose albedo is a shade: no channel of it below zero or above one.
pub open spec fn reflects_shades<H: Hittable + ?Sized>(objects: Seq<Box<H>>) -> bool {
    forall|i: int, ray: RayModel, t_min: int, t_max: int|
        0 <= i < objects.len() ==> ((#[trigger] objects[i].hit_spec(ray, t_min, t_max))
            matches Some(rec) ==> rec.material.albedo().is_shade() && rec.normal.in_range())
}

/// Where no surface reflects more light than falls on it, no ray brings a colour brighter
/// than white or darker than black, however many bounces it has left.
pub proof fn lemma_ray_color_is_shade<H: Hittable + ?Sized>(
    objects: Seq<Box<H>>,
    ray: RayModel,
    depth: int,
    samples: Seq<V3>,
)
    requires
        reflects_shades(objects),
        ray.direction.in_range(),
    ensures
        ray_color_spec(objects, ray, depth, samples).is_shade(),
    decreases depth,
{
    if depth > 0 {
        let n = objects.len() as int;
        lemma_nearest_among_is_nearest(objects, n, ray, T_MIN as int, LIMIT as int);
        match nearest_hit(objects, ray, T_MIN as int, LIMIT as int) {
            Some(rec) => {
                let k = choose|k: int| wins_at(objects, n, k, ray, T_MIN as int, LIMIT as int, rec);
                assert(objects[k].hit_spec(ray, T_MIN as int, LIMIT as int) == Some(rec));
                lemma_scattered_ray(rec.material, ray, rec, first_sample(samples));
                match rec.material.scatter(ray, rec, first_sample(samples)) {
                    Some((attenuation, scattered)) => {
                        lemma_ray_color_is_shade(
                            objects,
                            scattered,
                            depth - 1,
                            later_samples(samples),
                        );
                        lemma_mul_of_shades(
                            attenuation,
                            ray_color_spec(objects, scattered, depth - 1, later_samples(samples)),
                        );
                    },
                    None => {},
                }
            },
            None => {
                lemma_background_is_shade(ray);
            },
        }
    }
}

/// A ray that points straight down sees white, and one that points straight up sees sky
/// blue, whatever its length.
pub proof fn lemma_background_of_vertical(ray: RayModel)
    requires
        ray.direction.x == 0,
        ray.direction.z == 0,
        -LIMIT <= ray.direction.y <= LIMIT,
        ray.direction.y != 0,
    ensures
        background_spec(ray) == (if ray.direction.y < 0 {
            white()
        } else {
            sky_blue()
        }),
{
    lemma_unit_vector_of_vertical(ray.direction);
    lemma_background_boundary(ray);
}

/// The colour of the sky along `r`.
pub fn background(r: &Ray) -> (c: Color)
    ensures
        c@ == background_spec(r@),
{
    let unit_direction = r.direction.unit_vector();
    let t = Fixed::from_raw(500_000).mul(unit_direction.y.add(Fixed::from_raw(SCALE)));
    let one = Fixed::from_raw(SCALE);
    let white = Vec3::new(one, one, one);
    let blue = Vec3::new(Fixed::from_raw(500_000), Fixed::from_raw(700_000), one);
    white.scale(one.sub(t)).add(blue.scale(t))
}

/// The objects of a scene, in the order in which they were added.
///
/// A scene holds objects of any kind behind `dyn Hittable` unless it is given one kind `H`
/// of objects to hold.
pub struct Scene<H: Hittable + ?Sized = dyn Hittable> {
    pub objects: Vec<Box<H>>,
}

impl Scene {
    /// The scene without objects, ready for objects of any kind.
    pub fn new() -> (s: Scene)
        ensures
            s.objects@.len() == 0,
    {
        Scene { objects: Vec::new() }
    }
}

impl<H: Hittable + ?Sized> Scene<H> {
    /// The answer of the scene to a query: the nearest of its objects' answers.
    pub open spec fn hit_spec(&self, ray: RayModel, t_min: int, t_max: int) -> Option<HitModel> {
        nearest_hit(self.objects@, ray, t_min, t_max)
    }

    /// Adds `object` behind the objects that the scene holds.
    pub fn add(&mut self, object: Box<H>)
        ensures
            final(self).objects@ == old(self).objects@.push(object),
            final(self).objects@.len() == old(self).objects@.len() + 1,
            forall|i: int|
                0 <= i < old(self).objects@.len() ==> final(self).objects@[i]
                    == old(self).objects@[i],
    {
        proof {
            let before = self.objects@;
            vstd::seq::axiom_seq_push_len(before, object);
            assert forall|i: int| 0 <= i < before.len() implies before.push(object)[i]
                == before[i] by {
                vstd::seq::axiom_seq_push_index_different(before, object, i);
            }
        }
        self.objects.push(object);
    }

    /// The nearest intersection of `r` with any object, over `[t_min, t_max]`; where objects
    /// tie, that of the object added first. Each object is asked only for what lies no
    /// farther than the best answer so far.
    pub fn hit(&self, r: &Ray, t_min: Fixed, t_max: Fixed) -> (res: Option<HitRecord<'_>>)
        ensures
            hit_view(res) == self.hit_spec(r@, t_min@, t_max@),
            is_nearest_among(
                self.objects@,
                self.objects@.len() as int,
                r@,
                t_min@,
                t_max@,
                hit_view(res),
            ),
            res matches Some(rec) ==> rec@.answers(r@, t_min@, t_max@),
    {
        let mut closest_so_far = t_max;
        let mut hit_record: Option<HitRecord> = None;
        let mut i: usize = 0;
        while i < self.objects.len()
            invariant
                i <= self.objects.len(),
                hit_view(hit_record) == nearest_among(
                    self.objects@,
                    i as int,
                    r@,
                    t_min@,
                    t_max@,
                ),
                closest_so_far@ == (match hit_record {
                    Some(rec) => rec.t@,
                    None => t_max@,
                }),
                closest_so_far@ <= t_max@,
                hit_record matches Some(rec) ==> rec@.answers(r@, t_min@, t_max@),
            decreases self.objects.len() - i,
        {
            let candidate = self.objects[i].hit(r, t_min, closest_so_far);
            proof {
                // The object would answer the whole interval with `full`.
                let full = self.objects@[i as int].hit_spec(r@, t_min@, t_max@);
                assert(hit_view(candidate) == narrowed(full, closest_so_far@));
            }
            if let Some(temp_rec) = candidate {
                if hit_record.is_none() || temp_rec.t.raw() < closest_so_far.raw() {
                    closest_so_far = temp_rec.t;
                    hit_record = Some(temp_rec);
                }
            }
            i += 1;
        }
        proof {
            lemma_nearest_among_is_nearest(
                self.objects@,
                self.objects@.len() as int,
                r@,
                t_min@,
                t_max@,
            );
        }
        hit_record
    }

    /// The colour seen along `r` with `depth` bounces left. Each bounce draws one fresh random
    /// point of the unit ball, so two calls may differ; the result is what
    /// [`ray_color_spec`] gives for the points that were drawn.
    pub fn ray_color(&self, r: &Ray, depth: i32) -> (c: Color)
        ensures
            exists|samples: Seq<V3>|
                all_in_unit_ball(samples) && samples.len() <= bounces(depth as int) && c@
                    == #[trigger] ray_color_spec(self.objects@, r@, depth as int, samples),
            depth <= 0 ==> c@ == V3::zero(),
            depth > 0 && self.hit_spec(r@, T_MIN as int, LIMIT as int) is None ==> c@
                == background_spec(r@),
        decreases depth,
    {
        let ghost none = Seq::<V3>::empty();
        // With the bounce limit exceeded, no more light is gathered.
        if depth <= 0 {
            assert(V3::zero() == ray_color_spec(self.objects@, r@, depth as int, none));
            return Vec3::zero();
        }
        // Check whether the ray hits any object of the scene.

        if let Some(rec) = self.hit(r, Fixed::from_raw(T_MIN), Fixed::from_raw(LIMIT)) {
            let scattering = rec.material.scatter(r, &rec);
            let ghost sample = choose|sample: V3|
                in_unit_ball(sample) && scatter_view(scattering)
                    == #[trigger] rec.material@.scatter(r@, rec@, sample);
            let ghost one = seq![sample];
            // Where the material scatters the ray, go on tracing.
            if let Some((attenuation, scattered)) = scattering {
                let further = self.ray_color(&scattered, depth - 1);
                proof {
                    let rest = choose|samples: Seq<V3>|
                        all_in_unit_ball(samples) && samples.len() <= bounces(depth - 1)
                            && further@ == #[trigger] ray_color_spec(
                            self.objects@,
                            scattered@,
                            depth - 1,
                            samples,
                        );
                    let all = one + rest;
                    assert(later_samples(all) =~= rest);
                    assert(attenuation@.mul(further@) == ray_color_spec(
                        self.objects@,
                        r@,
                        depth as int,
                        all,
                    ));
                }
                return attenuation.mul(further);
            }
            // Where the material absorbs the ray, the colour is black.

            proof {
                assert(V3::zero() == ray_color_spec(self.objects@, r@, depth as int, one));
            }
            return Vec3::zero();
        }
        // A ray that hits nothing sees the sky.

        proof {
            assert(background_spec(r@) == ray_color_spec(self.objects@, r@, depth as int, none));
        }
        background(r)
    }

    /// The colour seen along `r` with `depth` bounces left, when the bounces use the points
    /// of `samples` in turn in place of random draws, and the centre of the ball once
    /// `samples` is used up.
    pub fn ray_color_with(&self, r: &Ray, depth: i32, samples: &Vec<Vec3>) -> (c: Color)
        ensures
            c@ == ray_color_spec(self.objects@, r@, depth as int, sample_views(samples@)),
    {
        assert(sample_views(samples@).skip(0) =~= sample_views(samples@));
        self.ray_color_from(r, depth, samples, 0)
    }

    fn ray_color_from(&self, r: &Ray, depth: i32, samples: &Vec<Vec3>, from: usize) -> (c: Color)
        requires
            from <= samples.len(),
        ensures
            c@ == ray_color_spec(
                self.objects@,
                r@,
                depth as int,
                sample_views(samples@).skip(from as int),
            ),
        decreases depth,
    {
        if depth <= 0 {
            return Vec3::zero();
        }
        let ghost left = sample_views(samples@).skip(from as int);
        if let Some(rec) = self.hit(r, Fixed::from_raw(T_MIN), Fixed::from_raw(LIMIT)) {
            let sample = if from < samples.len() {
                samples[from]
            } else {
                Vec3::zero()
            };
            let next: usize = if from < samples.len() {
                from + 1
            } else {
                from
            };
            assert(later_samples(left) =~= sample_views(samples@).skip(next as int));
            if let Some((attenuation, scattered)) = rec.material.scatter_with(r, &rec, &sample) {
                return attenuation.mul(self.ray_color_from(&scattered, depth - 1, samples, next));
            }
            return Vec3::zero();
        }
        background(r)
    }
}

} // verus!
