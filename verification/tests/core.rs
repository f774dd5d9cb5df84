//! Tests of the numeric core, the geometry and the materials.

use ray_tracing::fixed::Fx;
use ray_tracing::hit::HitRecord;
use ray_tracing::material::{reflectance, Material};
use ray_tracing::object::{MovingSphere, Point4, Sphere};
use ray_tracing::ray::Ray;
use ray_tracing::vec3::Vec3;

fn fx(raw: i64) -> Fx {
    Fx::from_raw(raw)
}

fn v3(x: i64, y: i64, z: i64) -> Vec3 {
    Vec3::new(fx(x), fx(y), fx(z))
}

const ONE: i64 = 65536;

#[test]
fn test_center() {
    let center0 = Point4::new(v3(0, 0, 0), fx(0));
    let center1 = Point4::new(v3(ONE, 0, 0), fx(ONE));
    let ms = MovingSphere::new(center0, center1, fx(ONE), Material::dielectric(fx(98304)));

    let actual = ms.center(fx(32768));
    let expected = v3(32768, 0, 0);

    assert_eq!(actual, expected);
}

#[test]
fn moving_sphere_center() {
    let center0 = Point4::new(v3(0, 0, 0), fx(0));
    let center1 = Point4::new(v3(ONE, 0, 0), fx(ONE));
    let ms = MovingSphere::new(center0, center1, fx(ONE), Material::dielectric(fx(98304)));

    let actual = ms.center(fx(32768));
    let expected = v3(32768, 0, 0);

    assert_eq!(actual, expected);
}

#[test]
fn moving_sphere_center_extrapolates() {
    // Times outside the keyframe window extrapolate the line: at time 2
    // with keyframes at 0 and 1 the centre has travelled twice the span.
    let center0 = Point4::new(v3(0, 0, 0), fx(0));
    let center1 = Point4::new(v3(ONE, 0, 0), fx(ONE));
    let ms = MovingSphere::new(center0, center1, fx(ONE), Material::dielectric(fx(98304)));
    assert_eq!(ms.center(fx(2 * ONE)), v3(2 * ONE, 0, 0));
    assert_eq!(ms.center(fx(-ONE)), v3(-ONE, 0, 0));
    assert_eq!(ms.center(fx(0)), v3(0, 0, 0));
    assert_eq!(ms.center(fx(ONE)), v3(ONE, 0, 0));
}

#[test]
fn fixed_point_arithmetic_is_exact() {
    assert_eq!(fx(ONE).times(fx(ONE)).raw, ONE);
    assert_eq!(fx(3 * ONE).times(fx(2 * ONE)).raw, 6 * ONE);
    assert_eq!(fx(3 * ONE).over(fx(2 * ONE)).raw, 98304);
    assert_eq!(fx(4 * ONE).sqrt().raw, 2 * ONE);
    assert_eq!(fx(2 * ONE).sqrt().raw, 92681);
    assert_eq!(fx(-ONE).abs_of().raw, ONE);
    assert_eq!(fx(5).min_of(fx(3)).raw, 3);
    assert_eq!(fx(5).max_of(fx(3)).raw, 5);
}

#[test]
fn vector_operations() {
    let a = v3(ONE, 2 * ONE, 3 * ONE);
    let b = v3(2 * ONE, 0, -ONE);
    assert_eq!(a.plus(b), v3(3 * ONE, 2 * ONE, 2 * ONE));
    assert_eq!(a.minus(b), v3(-ONE, 2 * ONE, 4 * ONE));
    assert_eq!(a.dot(b).raw, -ONE);
    assert_eq!(a.cross(b), v3(-2 * ONE, 7 * ONE, -4 * ONE));
    let u = v3(3 * ONE, 0, 0).normalized();
    assert_eq!(u, v3(ONE, 0, 0));
    assert!(v3(100, -50, 3).near_zero());
    assert!(!v3(100, -500, 3).near_zero());
}

#[test]
fn reflect_mirrors_about_normal() {
    let d = v3(ONE, -ONE, 0);
    let n = v3(0, ONE, 0);
    assert_eq!(d.reflect(n), v3(ONE, ONE, 0));
}

#[test]
fn sphere_hit_head_on() {
    let s = Sphere::new(
        v3(0, 0, 0),
        fx(ONE),
        Material::lambertian(v3(32768, 32768, 32768)),
    );
    let ray = Ray::new(v3(3 * ONE, 0, 0), v3(-ONE, 0, 0), fx(0));
    let h = s.hit(&ray, fx(0), fx(0x10000000)).expect("head-on ray must hit");
    assert_eq!(h.t.raw, 2 * ONE);
    assert_eq!(h.p, v3(ONE, 0, 0));
    assert_eq!(h.norm, v3(ONE, 0, 0));
    assert!(h.front_face);
}

#[test]
fn sphere_miss_is_none() {
    let s = Sphere::new(
        v3(0, 0, 0),
        fx(ONE),
        Material::lambertian(v3(32768, 32768, 32768)),
    );
    let ray = Ray::new(v3(3 * ONE, 3 * ONE, 0), v3(-ONE, 0, 0), fx(0));
    assert!(s.hit(&ray, fx(0), fx(0x10000000)).is_none());
}

#[test]
fn sphere_respects_range() {
    let s = Sphere::new(
        v3(0, 0, 0),
        fx(ONE),
        Material::lambertian(v3(32768, 32768, 32768)),
    );
    let ray = Ray::new(v3(3 * ONE, 0, 0), v3(-ONE, 0, 0), fx(0));
    // The near root is at t = 2; a range ending earlier must miss it but
    // may still take the far root at t = 4 when the range reaches it.
    assert!(s.hit(&ray, fx(0), fx(ONE)).is_none());
    let far = s.hit(&ray, fx(3 * ONE), fx(5 * ONE)).expect("far root in range");
    assert_eq!(far.t.raw, 4 * ONE);
    assert!(!far.front_face);
}

#[test]
fn moving_sphere_hit_tracks_time() {
    let ms = MovingSphere::new(
        Point4::new(v3(0, 0, 0), fx(0)),
        Point4::new(v3(4 * ONE, 0, 0), fx(ONE)),
        fx(ONE),
        Material::lambertian(v3(32768, 32768, 32768)),
    );
    // At time 0 the centre is at the origin.
    let r0 = Ray::new(v3(3 * ONE, 0, 0), v3(-ONE, 0, 0), fx(0));
    let h0 = ms.hit(&r0, fx(0), fx(0x10000000)).expect("hit at time zero");
    assert_eq!(h0.t.raw, 2 * ONE);
    // At time 1 the centre has moved to x = 4 and the same ray starts
    // inside reach of the moved sphere from the other side.
    let r1 = Ray::new(v3(7 * ONE, 0, 0), v3(-ONE, 0, 0), fx(ONE));
    let h1 = ms.hit(&r1, fx(0), fx(0x10000000)).expect("hit at time one");
    assert_eq!(h1.t.raw, 2 * ONE);
}

#[test]
fn hit_record_orients_normal_against_ray() {
    let ray = Ray::new(v3(0, 0, 0), v3(0, 0, -ONE), fx(0));
    let m = Material::lambertian(v3(32768, 32768, 32768));
    let front = HitRecord::new(&ray, v3(0, 0, -ONE), v3(0, 0, ONE), m, fx(ONE));
    assert!(front.front_face);
    assert_eq!(front.norm, v3(0, 0, ONE));
    let back = HitRecord::new(&ray, v3(0, 0, ONE), v3(0, 0, -ONE), m, fx(ONE));
    assert!(!back.front_face);
    assert_eq!(back.norm, v3(0, 0, ONE));
    let mut rec = back;
    rec.set_face_normal(&ray, v3(0, 0, ONE));
    assert!(rec.front_face);
    assert_eq!(rec.norm, v3(0, 0, ONE));
}

#[test]
fn reflectance_at_normal_incidence_is_r0() {
    // Schlick at cosine one returns exactly r0 = ((1 - n) / (1 + n))^2.
    let ri = fx(98304);
    assert_eq!(reflectance(fx(ONE), ri).raw, 2621);
}

#[test]
fn reflectance_at_grazing_incidence_is_one() {
    let ri = fx(98304);
    assert_eq!(reflectance(fx(0), ri).raw, ONE);
    let ri2 = fx(2 * ONE);
    assert_eq!(reflectance(fx(0), ri2).raw, ONE);
}

#[test]
fn reflectance_grows_towards_grazing() {
    // Antitone in the cosine, and never below r0 nor above one.
    let ri = fx(98304);
    let r0 = 2621;
    let mut prev = reflectance(fx(ONE), ri).raw;
    assert_eq!(prev, r0);
    for cos_raw in [49152i64, 32768, 16384, 4096, 0] {
        let r = reflectance(fx(cos_raw), ri).raw;
        assert!(r >= prev);
        assert!(r0 <= r && r <= ONE);
        prev = r;
    }
    assert_eq!(prev, ONE);
}

#[test]
fn lambertian_scatter_attenuates_by_albedo() {
    let albedo = v3(32768, 16384, 8192);
    let m = Material::lambertian(albedo);
    let ray = Ray::new(v3(0, 0, 0), v3(0, 0, -ONE), fx(0));
    let hit = HitRecord::new(&ray, v3(0, 0, -ONE), v3(0, 0, ONE), m, fx(ONE));
    for _ in 0..8 {
        let (att, sc) = m.scatter(&ray, &hit).expect("lambertian always scatters");
        assert_eq!(att, albedo);
        assert_eq!(sc.origin, hit.p);
        assert_eq!(sc.time, ray.time);
        // Energy non-creation: no channel exceeds one.
        assert!(att.x.raw <= ONE && att.y.raw <= ONE && att.z.raw <= ONE);
    }
}

#[test]
fn metal_scatter_stays_off_the_surface() {
    let albedo = v3(ONE, ONE, ONE);
    let m = Material::metal(albedo, fx(16384));
    let ray = Ray::new(v3(0, 0, 0), v3(ONE, -ONE, 0), fx(0));
    let hit = HitRecord::new(&ray, v3(0, 0, 0), v3(0, ONE, 0), m, fx(ONE));
    for _ in 0..8 {
        if let Some((att, sc)) = m.scatter(&ray, &hit) {
            assert_eq!(att, albedo);
            assert!(sc.direction.dot_wide(hit.norm) > 0);
        }
    }
}

#[test]
fn metal_constructor_clamps_fuzz() {
    let high = Material::metal(v3(ONE, ONE, ONE), fx(3 * ONE));
    match high {
        Material::Metal { fuzz, .. } => assert_eq!(fuzz.raw, ONE),
        _ => panic!("metal constructor must build a metal"),
    }
    let low = Material::metal(v3(ONE, ONE, ONE), fx(-ONE));
    match low {
        Material::Metal { fuzz, .. } => assert_eq!(fuzz.raw, 0),
        _ => panic!("metal constructor must build a metal"),
    }
}

#[test]
fn dielectric_always_scatters_without_tint() {
    let m = Material::dielectric(fx(98304));
    let ray = Ray::new(v3(0, 0, 0), v3(0, -ONE, 0), fx(0));
    let hit = HitRecord::new(&ray, v3(0, -ONE, 0), v3(0, ONE, 0), m, fx(ONE));
    for _ in 0..8 {
        let (att, sc) = m.scatter(&ray, &hit).expect("glass never absorbs");
        assert_eq!(att, v3(ONE, ONE, ONE));
        assert_eq!(sc.origin, hit.p);
    }
}

#[test]
fn isotropic_scatter_attenuates_by_albedo() {
    let albedo = v3(13107, 13107, 65536);
    let m = Material::isotropic(albedo);
    let ray = Ray::new(v3(0, 0, 0), v3(0, 0, -ONE), fx(0));
    let hit = HitRecord::new(&ray, v3(0, 0, -ONE), v3(0, 0, ONE), m, fx(ONE));
    let (att, _sc) = m.scatter(&ray, &hit).expect("phase function always scatters");
    assert_eq!(att, albedo);
}

#[test]
fn quantize_color_to_bytes() {
    let c = v3(ONE, 16384, 0);
    assert_eq!(c.to_rgb8(1), (255, 128, 0));
    let doubled = v3(2 * ONE, 32768, 0);
    assert_eq!(doubled.to_rgb8(2), (255, 128, 0));
}
