//! Tests of the hierarchy, the brute-force equivalence and the
//! integrator.

use ray_tracing::aabb::Aabb;
use ray_tracing::bvh::build;
use ray_tracing::fixed::Fx;
use ray_tracing::integrator::{background, ray_color};
use ray_tracing::material::Material;
use ray_tracing::object::{MovingSphere, Object, Point4, Sphere};
use ray_tracing::ray::Ray;
use ray_tracing::vec3::Vec3;
use ray_tracing::world::world_hit;

fn fx(raw: i64) -> Fx {
    Fx::from_raw(raw)
}

fn v3(x: i64, y: i64, z: i64) -> Vec3 {
    Vec3::new(fx(x), fx(y), fx(z))
}

const ONE: i64 = 65536;
const FAR: i64 = 0x10000000;

fn grey() -> Material {
    Material::lambertian(v3(32768, 32768, 32768))
}

fn scene() -> Vec<Object> {
    vec![
        Object::Sphere(Sphere::new(v3(0, 0, -2 * ONE), fx(ONE), grey())),
        Object::Sphere(Sphere::new(v3(2 * ONE, 0, -2 * ONE), fx(ONE), grey())),
        Object::Sphere(Sphere::new(v3(-2 * ONE, ONE, -4 * ONE), fx(ONE), grey())),
    ]
}

fn test_rays() -> Vec<Ray> {
    vec![
        Ray::new(v3(0, 0, 0), v3(0, 0, -ONE), fx(0)),
        Ray::new(v3(2 * ONE, 0, 0), v3(0, 0, -ONE), fx(0)),
        Ray::new(v3(-2 * ONE, ONE, 0), v3(0, 0, -ONE), fx(0)),
        Ray::new(v3(0, 8 * ONE, 0), v3(0, 0, -ONE), fx(0)),
        Ray::new(v3(-6 * ONE, 0, 0), v3(ONE, 0, -ONE), fx(0)),
        Ray::new(v3(0, 0, -8 * ONE), v3(0, 0, ONE), fx(0)),
    ]
}

#[test]
fn bvh_matches_brute_force() {
    let world = scene();
    let root = build(scene(), 0);
    for ray in test_rays() {
        let brute = world_hit(&world, &ray, fx(0), fx(FAR));
        let tree = root.hit(&ray, fx(0), fx(FAR));
        assert_eq!(brute.is_some(), tree.is_some());
        if let (Some(a), Some(b)) = (brute, tree) {
            assert_eq!(a.t, b.t);
            assert_eq!(a.p, b.p);
            assert_eq!(a, b);
        }
    }
}

fn small_scene(n: usize) -> Vec<Object> {
    // One object, or two overlapping objects along the same ray.
    let mut objects = vec![Object::Sphere(Sphere::new(v3(0, 0, -2 * ONE), fx(ONE), grey()))];
    if n > 1 {
        objects.push(Object::Sphere(Sphere::new(v3(0, 0, -3 * ONE), fx(2 * ONE), grey())));
    }
    objects
}

#[test]
fn bvh_matches_brute_force_small_scenes() {
    for n in [1usize, 2] {
        let world = small_scene(n);
        let root = build(small_scene(n), 0);
        for ray in test_rays() {
            let brute = world_hit(&world, &ray, fx(0), fx(FAR));
            let tree = root.hit(&ray, fx(0), fx(FAR));
            assert_eq!(brute.is_some(), tree.is_some());
            if let (Some(a), Some(b)) = (brute, tree) {
                assert_eq!(a.t, b.t);
                assert_eq!(a.p, b.p);
            }
        }
    }
}

fn mixed_scene() -> Vec<Object> {
    let mut objects = scene();
    objects.push(Object::MovingSphere(MovingSphere::new(
        Point4::new(v3(0, 3 * ONE, -3 * ONE), fx(0)),
        Point4::new(v3(0, 4 * ONE, -3 * ONE), fx(ONE)),
        fx(ONE),
        grey(),
    )));
    objects.push(Object::Translate {
        offset: v3(0, 0, -4 * ONE),
        inner: Box::new(Object::Sphere(Sphere::new(v3(0, 0, -2 * ONE), fx(ONE), grey()))),
    });
    objects
}

#[test]
fn bvh_matches_brute_force_with_compound_objects() {
    let world = mixed_scene();
    let root = build(mixed_scene(), 2);
    for time_raw in [0i64, 32768, 65535] {
        for mut ray in test_rays() {
            ray = Ray::new(ray.origin, ray.direction, fx(time_raw));
            let brute = world_hit(&world, &ray, fx(0), fx(FAR));
            let tree = root.hit(&ray, fx(0), fx(FAR));
            assert_eq!(brute.is_some(), tree.is_some());
            if let (Some(a), Some(b)) = (brute, tree) {
                assert_eq!(a.t, b.t);
                assert_eq!(a.p, b.p);
            }
        }
    }
}

#[test]
fn empty_world_never_hits() {
    let world: Vec<Object> = Vec::new();
    let ray = Ray::new(v3(0, 0, 0), v3(0, 0, -ONE), fx(0));
    assert!(world_hit(&world, &ray, fx(0), fx(FAR)).is_none());
}

#[test]
fn aabb_merge_is_commutative_and_associative() {
    let a = Aabb { min: v3(-ONE, 0, 0), max: v3(ONE, ONE, ONE) };
    let b = Aabb { min: v3(0, -ONE, 0), max: v3(2 * ONE, 0, 3 * ONE) };
    let c = Aabb { min: v3(-3 * ONE, 0, -ONE), max: v3(0, 0, 0) };
    assert_eq!(a.merge(b), b.merge(a));
    assert_eq!(a.merge(b).merge(c), a.merge(b.merge(c)));
    assert_eq!(a.merge(b).min, v3(-ONE, -ONE, 0));
    assert_eq!(a.merge(b).max, v3(2 * ONE, ONE, 3 * ONE));
}

#[test]
fn aabb_hit_reports_crossing_rays() {
    let b = Aabb { min: v3(-ONE, -ONE, -3 * ONE), max: v3(ONE, ONE, -ONE) };
    let through = Ray::new(v3(0, 0, 0), v3(0, 0, -ONE), fx(0));
    assert!(b.hit(&through, fx(0), fx(FAR)));
    let sideways = Ray::new(v3(0, 0, 0), v3(0, ONE, 0), fx(0));
    assert!(!b.hit(&sideways, fx(0), fx(FAR)));
}

#[test]
fn aabb_degenerate_box_still_hits() {
    // A box flat in y: the slab test must treat the zero-thickness axis
    // exactly, not divide by a zero direction component.
    let b = Aabb { min: v3(-ONE, 0, -3 * ONE), max: v3(ONE, 0, -ONE) };
    let grazing = Ray::new(v3(0, 0, 0), v3(0, 0, -ONE), fx(0));
    assert!(b.hit(&grazing, fx(0), fx(FAR)));
    let above = Ray::new(v3(0, ONE, 0), v3(0, 0, -ONE), fx(0));
    assert!(!b.hit(&above, fx(0), fx(FAR)));
    let falling = Ray::new(v3(0, ONE, -2 * ONE), v3(0, -ONE, 0), fx(0));
    assert!(b.hit(&falling, fx(0), fx(FAR)));
}

#[test]
fn depth_zero_is_black() {
    let root = build(scene(), 0);
    for ray in test_rays() {
        let c = ray_color(&ray, &root, 0);
        assert_eq!(c, v3(0, 0, 0));
    }
}

#[test]
fn single_sphere_scene_at_depth_one() {
    // A unit Lambertian sphere straight ahead, lit only by the sky.
    let world = Object::Sphere(Sphere::new(v3(0, 0, -ONE), fx(ONE), grey()));
    // A ray through the sphere: its single bounce is cut to black.
    let through = Ray::new(v3(0, 3 * ONE, 0), v3(0, -3 * ONE / 2, -ONE), fx(0));
    let centered = Ray::new(v3(0, 0, ONE), v3(0, 0, -ONE), fx(0));
    assert_eq!(ray_color(&centered, &world, 1), v3(0, 0, 0));
    assert_eq!(ray_color(&through, &world, 1), v3(0, 0, 0));
    // A ray missing the sphere returns exactly the sky gradient.
    let miss = Ray::new(v3(0, 0, ONE), v3(0, ONE, 0), fx(0));
    let c = ray_color(&miss, &world, 1);
    assert_eq!(c, background(&miss));
    assert_eq!(c, v3(32768, 45875, ONE));
    // Straight down: the gradient bottoms out at pure white.
    let down = Ray::new(v3(0, 0, ONE), v3(0, -ONE, 0), fx(0));
    assert_eq!(ray_color(&down, &world, 1), v3(ONE, ONE, ONE));
}

#[test]
fn deeper_bounces_stay_in_unit_range() {
    let root = build(scene(), 0);
    for ray in test_rays() {
        for depth in [1u32, 2, 5] {
            let c = ray_color(&ray, &root, depth);
            assert!(0 <= c.x.raw && c.x.raw <= ONE);
            assert!(0 <= c.y.raw && c.y.raw <= ONE);
            assert!(0 <= c.z.raw && c.z.raw <= ONE);
        }
    }
}

#[test]
fn constant_medium_scatters_inside_its_boundary() {
    let boundary = Object::Sphere(Sphere::new(v3(0, 0, -4 * ONE), fx(2 * ONE), grey()));
    let fog = Object::ConstantMedium {
        boundary: Box::new(boundary),
        density: fx(32768),
        phase: Material::isotropic(v3(13107, 13107, ONE)),
    };
    let ray = Ray::new(v3(0, 0, 0), v3(0, 0, -ONE), fx(0));
    for _ in 0..32 {
        if let Some(h) = fog.hit(&ray, fx(0), fx(FAR)) {
            // Any scattering event happens between the entry and exit of
            // the boundary, at t in [2, 6].
            assert!(2 * ONE <= h.t.raw && h.t.raw <= 6 * ONE);
            assert!(h.front_face);
        }
    }
}

#[test]
fn constant_medium_rejects_rays_missing_its_boundary() {
    // A ray that never crosses the boundary is rejected before any
    // random draw, so the medium can never report a hit on it.
    let boundary = Object::Sphere(Sphere::new(v3(0, 0, -4 * ONE), fx(2 * ONE), grey()));
    let fog = Object::ConstantMedium {
        boundary: Box::new(boundary),
        density: fx(32768),
        phase: Material::isotropic(v3(13107, 13107, ONE)),
    };
    let away = Ray::new(v3(0, 0, 0), v3(0, 0, ONE), fx(0));
    for _ in 0..8 {
        assert!(fog.hit(&away, fx(0), fx(FAR)).is_none());
    }
}

#[test]
fn translate_shifts_geometry() {
    let inner = Object::Sphere(Sphere::new(v3(0, 0, -2 * ONE), fx(ONE), grey()));
    let moved = Object::Translate { offset: v3(2 * ONE, 0, 0), inner: Box::new(inner) };
    let ray = Ray::new(v3(2 * ONE, 0, 0), v3(0, 0, -ONE), fx(0));
    let h = moved.hit(&ray, fx(0), fx(FAR)).expect("shifted sphere is in the ray's path");
    assert_eq!(h.t.raw, ONE);
    assert_eq!(h.p, v3(2 * ONE, 0, -ONE));
    let unmoved_ray = Ray::new(v3(0, 0, 0), v3(0, 0, -ONE), fx(0));
    assert!(moved.hit(&unmoved_ray, fx(0), fx(FAR)).is_none());
}
