use raytrace::fixed::{Fixed, LIMIT};
use raytrace::hittable::{HitRecord, Hittable};
use raytrace::material::{Lambertian, Material, Metal};
use raytrace::ray::Ray;
use raytrace::scene::Scene;
use raytrace::sphere::Sphere;
use raytrace::vec3::Vec3;

fn fx(raw: i64) -> Fixed {
    Fixed::from_raw(raw)
}

fn v(x: i64, y: i64, z: i64) -> Vec3 {
    Vec3::new(fx(x), fx(y), fx(z))
}

fn red() -> Material {
    Material::Lambertian(Lambertian::new(v(700_000, 300_000, 300_000)))
}

fn gold() -> Material {
    Material::Metal(Metal::new(v(800_000, 600_000, 200_000), fx(300_000)))
}

/// Radius 0.5 about (0, 0, -1): the forward ray meets it at 0.5.
fn near_ball() -> Sphere {
    Sphere::new(v(0, 0, -1_000_000), fx(500_000), red())
}

/// Radius 0.5 about (0, 0, -1.25): the forward ray meets it at 0.75, inside the near ball.
fn far_ball() -> Sphere {
    Sphere::new(v(0, 0, -1_250_000), fx(500_000), gold())
}

fn forward() -> Ray {
    Ray::new(v(0, 0, 0), v(0, 0, -1_000_000))
}

#[test]
fn new_scene_is_empty() {
    let scene = Scene::new();
    assert_eq!(scene.objects.len(), 0);
}

#[test]
fn add_appends_in_order() {
    let mut scene = Scene::new();
    scene.add(Box::new(near_ball()));
    assert_eq!(scene.objects.len(), 1);
    scene.add(Box::new(far_ball()));
    assert_eq!(scene.objects.len(), 2);
    let first = scene.objects[0].hit(&forward(), fx(1_000), fx(LIMIT)).expect("hit");
    let second = scene.objects[1].hit(&forward(), fx(1_000), fx(LIMIT)).expect("hit");
    assert_eq!(first.t.raw(), 500_000);
    assert_eq!(second.t.raw(), 750_000);
}

#[test]
fn scene_of_one_kind_of_object() {
    let scene: Scene<Sphere> = Scene { objects: vec![Box::new(far_ball()), Box::new(near_ball())] };
    let rec = scene.hit(&forward(), fx(1_000), fx(LIMIT)).expect("hit");
    assert_eq!(rec.t.raw(), 500_000);
    assert_eq!(*rec.material, red());
    assert_eq!(scene.objects[0].center, v(0, 0, -1_250_000));
}

#[test]
fn empty_scene_reports_nothing() {
    let scene = Scene::new();
    assert_eq!(scene.hit(&forward(), fx(1_000), fx(LIMIT)), None);
}

#[test]
fn nearest_object_wins_when_added_first() {
    let mut scene = Scene::new();
    scene.add(Box::new(near_ball()));
    scene.add(Box::new(far_ball()));
    let rec = scene.hit(&forward(), fx(1_000), fx(LIMIT)).expect("hit");
    assert_eq!(rec.t.raw(), 500_000);
    assert_eq!(rec.p, v(0, 0, -500_000));
    assert_eq!(*rec.material, red());
}

#[test]
fn nearest_object_wins_when_added_last() {
    let mut scene = Scene::new();
    scene.add(Box::new(far_ball()));
    scene.add(Box::new(near_ball()));
    let rec = scene.hit(&forward(), fx(1_000), fx(LIMIT)).expect("hit");
    assert_eq!(rec.t.raw(), 500_000);
    assert_eq!(rec.p, v(0, 0, -500_000));
    assert_eq!(*rec.material, red());
}

#[test]
fn scene_agrees_with_its_single_object() {
    let mut scene = Scene::new();
    scene.add(Box::new(far_ball()));
    let alone = far_ball();
    for t_min in [0i64, 1_000, 750_000, 750_001, 1_750_000, 1_750_001] {
        assert_eq!(
            scene.hit(&forward(), fx(t_min), fx(LIMIT)),
            alone.hit(&forward(), fx(t_min), fx(LIMIT))
        );
    }
}

#[test]
fn objects_that_tie_leave_the_first_added() {
    let mut scene = Scene::new();
    scene.add(Box::new(Sphere::new(v(0, 0, -1_000_000), fx(500_000), gold())));
    scene.add(Box::new(Sphere::new(v(0, 0, -1_000_000), fx(500_000), red())));
    let rec = scene.hit(&forward(), fx(1_000), fx(LIMIT)).expect("hit");
    assert_eq!(rec.t.raw(), 500_000);
    assert_eq!(*rec.material, gold());

    let mut other = Scene::new();
    other.add(Box::new(Sphere::new(v(0, 0, -1_000_000), fx(500_000), red())));
    other.add(Box::new(Sphere::new(v(0, 0, -1_000_000), fx(500_000), gold())));
    let rec = other.hit(&forward(), fx(1_000), fx(LIMIT)).expect("hit");
    assert_eq!(*rec.material, red());
}

#[test]
fn a_hit_at_the_upper_bound_is_reported() {
    let mut scene = Scene::new();
    scene.add(Box::new(far_ball()));
    scene.add(Box::new(near_ball()));
    let rec = scene.hit(&forward(), fx(1_000), fx(500_000)).expect("hit");
    assert_eq!(rec.t.raw(), 500_000);
    assert_eq!(scene.hit(&forward(), fx(1_000), fx(499_999)), None);
}

#[test]
fn lower_bound_can_hide_the_nearest_object() {
    let mut scene = Scene::new();
    scene.add(Box::new(near_ball()));
    scene.add(Box::new(far_ball()));
    // From 0.6 on, the near ball answers with its far side at 1.5, the far ball at 0.75.
    let rec = scene.hit(&forward(), fx(600_000), fx(LIMIT)).expect("hit");
    assert_eq!(rec.t.raw(), 750_000);
    assert_eq!(*rec.material, gold());
}

#[test]
fn nearest_of_three_in_every_order() {
    let balls = [
        Sphere::new(v(0, 0, -3_000_000), fx(500_000), red()),
        Sphere::new(v(0, 0, -5_000_000), fx(1_000_000), gold()),
        Sphere::new(v(0, 0, -2_000_000), fx(250_000), gold()),
    ];
    let orders = [[0, 1, 2], [0, 2, 1], [1, 0, 2], [1, 2, 0], [2, 0, 1], [2, 1, 0]];
    for order in orders.iter() {
        let mut scene = Scene::new();
        for i in order.iter() {
            scene.add(Box::new(balls[*i]));
        }
        let rec = scene.hit(&forward(), fx(1_000), fx(LIMIT)).expect("hit");
        assert_eq!(rec.t.raw(), 1_750_000);
        assert_eq!(rec.p, v(0, 0, -1_750_000));
        assert_eq!(*rec.material, gold());
    }
}

#[test]
fn scene_hit_twice_gives_the_same_record() {
    let mut scene = Scene::new();
    scene.add(Box::new(far_ball()));
    scene.add(Box::new(near_ball()));
    scene.add(Box::new(Sphere::new(v(0, -100_500_000, -1_000_000), fx(100_000_000), red())));
    for dx in -2..=2i64 {
        for dy in -2..=2i64 {
            let r = Ray::new(v(0, 0, 0), v(dx * 200_000, dy * 200_000, -1_000_000));
            let first = scene.hit(&r, fx(1_000), fx(LIMIT));
            let second = scene.hit(&r, fx(1_000), fx(LIMIT));
            assert_eq!(first, second);
        }
    }
}

#[test]
fn scene_record_opposes_the_ray() {
    let mut scene = Scene::new();
    scene.add(Box::new(far_ball()));
    scene.add(Box::new(near_ball()));
    scene.add(Box::new(Sphere::new(v(0, -100_500_000, -1_000_000), fx(100_000_000), red())));
    let mut hits = 0;
    for dx in -4..=4i64 {
        for dy in -4..=4i64 {
            let r = Ray::new(v(0, 0, 0), v(dx * 150_000, dy * 150_000, -1_000_000));
            if let Some(rec) = scene.hit(&r, fx(1_000), fx(LIMIT)) {
                hits += 1;
                assert!(rec.normal.dot(r.direction).raw() <= 0);
                for object in scene.objects.iter() {
                    if let Some(other) = object.hit(&r, fx(1_000), fx(LIMIT)) {
                        assert!(rec.t.raw() <= other.t.raw());
                    }
                }
            }
        }
    }
    assert!(hits > 20);
}

/// The horizontal plane at height `y`, seen from either side.
struct Floor {
    y: Fixed,
    material: Material,
}

impl Hittable for Floor {
    fn hit(&self, r: &Ray, t_min: Fixed, t_max: Fixed) -> Option<HitRecord<'_>> {
        if r.direction.y.raw() == 0 {
            return None;
        }
        let t = self.y.sub(r.origin.y).div(r.direction.y);
        if t.raw() < t_min.raw() || t_max.raw() < t.raw() {
            return None;
        }
        let mut rec = HitRecord {
            t,
            p: r.at(t),
            normal: Vec3::zero(),
            front_face: false,
            material: &self.material,
        };
        rec.set_face_normal(r, &v(0, 1_000_000, 0));
        Some(rec)
    }
}

#[test]
fn scene_holds_objects_of_several_kinds() {
    let mut scene = Scene::new();
    scene.add(Box::new(Floor { y: fx(-500_000), material: gold() }));
    scene.add(Box::new(near_ball()));
    // Straight ahead the ball is met, and the floor never.
    let rec = scene.hit(&forward(), fx(1_000), fx(LIMIT)).expect("hit");
    assert_eq!(rec.t.raw(), 500_000);
    assert_eq!(*rec.material, red());
    // Downward the ray passes the ball by and meets the floor: it reaches y = -0.5 at 0.5.
    let down = Ray::new(v(0, 0, 0), v(0, -1_000_000, -250_000));
    let rec = scene.hit(&down, fx(1_000), fx(LIMIT)).expect("hit");
    assert_eq!(rec.t.raw(), 500_000);
    assert_eq!(rec.p, v(0, -500_000, -125_000));
    assert_eq!(rec.normal, v(0, 1_000_000, 0));
    assert!(rec.front_face);
    assert_eq!(*rec.material, gold());
    assert_eq!(near_ball().hit(&down, fx(1_000), fx(LIMIT)), None);
}
