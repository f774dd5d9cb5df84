//! Scene objects and hit testing.
//!
//! The closed set of scene primitives and compositors. Every object
//! reports (1) the nearest intersection of a ray within a parametric
//! range and (2) an axis-aligned box bounding its extent. For objects
//! that draw no random samples, the intersection is a deterministic
//! function of the arguments, captured exactly by `spec_obj_hit`.

use crate::aabb::{hit_in_box_at, spec_merge, wf_aabb, Aabb};
use crate::fixed::{fdiv, fxdiv, fxmul, is_sqrt_floor, sqrt_floor, Fx, ONE_RAW, SCALE};
use crate::hit::{wf_hit, HitRecord};
use crate::material::{wf_material, Material};
use crate::ray::{ray_at_x, ray_at_y, ray_at_z, wf_ray, Ray};
use crate::rng::sample_unit;
use crate::vec3::{dotw, vec_bounded, Point3, Vec3, LIM_COORD, LIM_DIR, LIM_ORIGIN, MIN_DIR_SQ};
use vstd::prelude::*;

verus! {

/// The deterministic description of a hit: the raw parameter, the raw
/// coordinates of the point and oriented normal, the face flag and the
/// material.
pub struct SpecHit {
    pub t: int,
    pub px: int,
    pub py: int,
    pub pz: int,
    pub nx: int,
    pub ny: int,
    pub nz: int,
    pub front: bool,
    pub material: Material,
}

/// An exec hit result agrees with a spec hit description.
pub open spec fn hit_matches(r: Option<HitRecord>, s: Option<SpecHit>) -> bool {
    match (r, s) {
        (Some(h), Some(sh)) => h.t@ == sh.t && h.p.x@ == sh.px && h.p.y@ == sh.py && h.p.z@
            == sh.pz && h.norm.x@ == sh.nx && h.norm.y@ == sh.ny && h.norm.z@ == sh.nz
            && h.front_face == sh.front && h.material == sh.material,
        (None, None) => true,
        _ => false,
    }
}

/// The point of `r` at parameter `t` lies on or inside the sphere of the
/// given raw centre and radius, stated exactly over scaled integers.
pub open spec fn sphere_in_ball(cx: int, cy: int, cz: int, rad: int, r: Ray, t: int) -> bool {
    let ex = (r.origin.x@ - cx) * (SCALE as int) + t * r.direction.x@;
    let ey = (r.origin.y@ - cy) * (SCALE as int) + t * r.direction.y@;
    let ez = (r.origin.z@ - cz) * (SCALE as int) + t * r.direction.z@;
    let rr = rad * (SCALE as int);
    ex * ex + ey * ey + ez * ez <= rr * rr
}

/// A candidate root is accepted: within the queried range and on or
/// inside the sphere (the latter check guards the root's rounding).
pub open spec fn sphere_accept(
    cx: int,
    cy: int,
    cz: int,
    rad: int,
    r: Ray,
    tmin: int,
    tmax: int,
    t: int,
) -> bool {
    tmin <= t <= tmax && sphere_in_ball(cx, cy, cz, rad, r, t)
}

/// A normal coordinate clamped into two whole units, guarding the one
/// raw unit of rounding slack the scaled division can introduce.
pub open spec fn clamp_norm_coord(x: int) -> int {
    if x > 0x20000 {
        0x20000
    } else if x < -0x20000 {
        -0x20000
    } else {
        x
    }
}

/// The record a sphere hit at parameter `t` produces: the point along
/// the ray, the outward normal scaled by the inverse radius, oriented
/// against the ray.
pub open spec fn sphere_record(
    cx: int,
    cy: int,
    cz: int,
    rad: int,
    material: Material,
    r: Ray,
    t: int,
) -> SpecHit {
    let px = ray_at_x(r, t);
    let py = ray_at_y(r, t);
    let pz = ray_at_z(r, t);
    let nox = clamp_norm_coord(fxdiv(px - cx, rad));
    let noy = clamp_norm_coord(fxdiv(py - cy, rad));
    let noz = clamp_norm_coord(fxdiv(pz - cz, rad));
    let front = r.direction.x@ * nox + r.direction.y@ * noy + r.direction.z@ * noz < 0;
    SpecHit {
        t,
        px,
        py,
        pz,
        nx: if front {
            nox
        } else {
            -nox
        },
        ny: if front {
            noy
        } else {
            -noy
        },
        nz: if front {
            noz
        } else {
            -noz
        },
        front,
        material,
    }
}

/// The nearest accepted root of the ray/sphere quadratic within
/// `[tmin, tmax]`, solved in the half-b form over exact integers with
/// floor-rounded square root and division.
pub open spec fn spec_sphere_hit(
    cx: int,
    cy: int,
    cz: int,
    rad: int,
    material: Material,
    r: Ray,
    tmin: int,
    tmax: int,
) -> Option<SpecHit> {
    let dx = r.direction.x@;
    let dy = r.direction.y@;
    let dz = r.direction.z@;
    let ocx = r.origin.x@ - cx;
    let ocy = r.origin.y@ - cy;
    let ocz = r.origin.z@ - cz;
    let aw = dx * dx + dy * dy + dz * dz;
    let hb = ocx * dx + ocy * dy + ocz * dz;
    let cw = ocx * ocx + ocy * ocy + ocz * ocz - rad * rad;
    let disc = hb * hb - aw * cw;
    if disc < 0 {
        None
    } else {
        let sq = sqrt_floor(disc);
        let t1 = fdiv((-hb - sq) * (SCALE as int), aw);
        let t2 = fdiv((-hb + sq) * (SCALE as int), aw);
        if sphere_accept(cx, cy, cz, rad, r, tmin, tmax, t1) {
            Some(sphere_record(cx, cy, cz, rad, material, r, t1))
        } else if sphere_accept(cx, cy, cz, rad, r, tmin, tmax, t2) {
            Some(sphere_record(cx, cy, cz, rad, material, r, t2))
        } else {
            None
        }
    }
}

/// A pair of keyframed positions: a point together with the time at
/// which the centre passes through it.
#[derive(Clone, Copy, Debug, PartialEq, Eq, Structural)]
pub struct Point4 {
    pub pos: Point3,
    pub time: Fx,
}

impl Point4 {
    /// A keyframe at the given position and time.
    pub fn new(pos: Point3, time: Fx) -> (r: Point4)
        ensures
            r.pos == pos,
            r.time == time,
    {
        Point4 { pos, time }
    }
}

/// A sphere.
#[derive(Clone, Copy, Debug, PartialEq, Eq, Structural)]
pub struct Sphere {
    pub center: Point3,
    pub radius: Fx,
    pub material: Material,
}

/// A sphere whose centre moves linearly between two keyframes.
#[derive(Clone, Copy, Debug, PartialEq, Eq, Structural)]
pub struct MovingSphere {
    pub center0: Point4,
    pub center1: Point4,
    pub radius: Fx,
    pub material: Material,
}

/// The interpolation factor from `time`: before the first keyframe it is
/// negative and past the second it exceeds one, so the centre is
/// extrapolated linearly, exactly as the interpolation formula reads.
pub open spec fn moving_lerp_s(time0: int, time1: int, time: int) -> int {
    fxdiv(time - time0, time1 - time0)
}

/// One coordinate of the moving centre at interpolation factor `s`.
pub open spec fn moving_center_coord(c0: int, c1: int, s: int) -> int {
    c0 + fxmul(c1 - c0, s)
}

/// The extrapolated centre at the ray's time stays within the scene
/// coordinate bound; a time so far outside the keyframe window that the
/// centre leaves it is treated as a miss by hit testing.
pub open spec fn moving_center_ok(ms: MovingSphere, time: int) -> bool {
    let f = moving_lerp_s(ms.center0.time@, ms.center1.time@, time);
    &&& -(LIM_COORD as int) <= moving_center_coord(ms.center0.pos.x@, ms.center1.pos.x@, f)
        <= LIM_COORD as int
    &&& -(LIM_COORD as int) <= moving_center_coord(ms.center0.pos.y@, ms.center1.pos.y@, f)
        <= LIM_COORD as int
    &&& -(LIM_COORD as int) <= moving_center_coord(ms.center0.pos.z@, ms.center1.pos.z@, f)
        <= LIM_COORD as int
}

/// A well-formed sphere: a bounded centre, a positive bounded radius, a
/// well-formed material.
pub open spec fn wf_sphere(s: Sphere) -> bool {
    &&& vec_bounded(s.center, LIM_COORD as int)
    &&& 0 < s.radius@ <= LIM_COORD as int
    &&& wf_material(s.material)
}

/// A well-formed moving sphere: bounded keyframes in increasing time
/// order, a positive bounded radius, a well-formed material.
pub open spec fn wf_moving_sphere(s: MovingSphere) -> bool {
    &&& vec_bounded(s.center0.pos, LIM_COORD as int)
    &&& vec_bounded(s.center1.pos, LIM_COORD as int)
    &&& -(LIM_COORD as int) <= s.center0.time@ <= LIM_COORD as int
    &&& -(LIM_COORD as int) <= s.center1.time@ <= LIM_COORD as int
    &&& s.center0.time@ != s.center1.time@
    &&& 0 < s.radius@ <= LIM_COORD as int
    &&& wf_material(s.material)
}

impl Sphere {
    /// Create a new `Sphere`.
    pub fn new(center: Point3, radius: Fx, material: Material) -> (s: Sphere)
        ensures
            s.center == center,
            s.radius == radius,
            s.material == material,
    {
        Sphere { center, radius, material }
    }
}

impl Sphere {
    /// The nearest intersection of `ray` with this sphere within
    /// `[t_min, t_max]`, agreeing exactly with the deterministic model.
    pub fn hit(&self, ray: &Ray, t_min: Fx, t_max: Fx) -> (r: Option<HitRecord>)
        requires
            wf_sphere(*self),
            wf_ray(*ray),
            -0x40000000 <= t_min@ <= 0x40000000,
            -0x40000000 <= t_max@ <= 0x40000000,
        ensures
            hit_matches(
                r,
                spec_sphere_hit(
                    self.center.x@,
                    self.center.y@,
                    self.center.z@,
                    self.radius@,
                    self.material,
                    *ray,
                    t_min@,
                    t_max@,
                ),
            ),
            r matches Some(h) ==> wf_hit(h) && t_min@ <= h.t@ <= t_max@,
    {
        sphere_hit_core(self.center, self.radius, self.material, ray, t_min, t_max)
    }
}

impl MovingSphere {
    /// The nearest intersection of `ray` with this sphere within
    /// `[t_min, t_max]`: the centre is first interpolated (or
    /// extrapolated) to the ray's time, then the sphere test runs
    /// against it. A time so extreme that the centre leaves the scene
    /// coordinate bound is treated as a miss.
    pub fn hit(&self, ray: &Ray, t_min: Fx, t_max: Fx) -> (r: Option<HitRecord>)
        requires
            wf_moving_sphere(*self),
            wf_ray(*ray),
            -0x40000000 <= t_min@ <= 0x40000000,
            -0x40000000 <= t_max@ <= 0x40000000,
        ensures
            ({
                let f = moving_lerp_s(self.center0.time@, self.center1.time@, ray.time@);
                hit_matches(
                    r,
                    if moving_center_ok(*self, ray.time@) {
                        spec_sphere_hit(
                            moving_center_coord(self.center0.pos.x@, self.center1.pos.x@, f),
                            moving_center_coord(self.center0.pos.y@, self.center1.pos.y@, f),
                            moving_center_coord(self.center0.pos.z@, self.center1.pos.z@, f),
                            self.radius@,
                            self.material,
                            *ray,
                            t_min@,
                            t_max@,
                        )
                    } else {
                        None::<SpecHit>
                    },
                )
            }),
            r matches Some(h) ==> wf_hit(h) && t_min@ <= h.t@ <= t_max@,
    {
        let c: Point3 = self.center(ray.time);
        if c.x.raw < -LIM_COORD || c.x.raw > LIM_COORD || c.y.raw < -LIM_COORD || c.y.raw
            > LIM_COORD || c.z.raw < -LIM_COORD || c.z.raw > LIM_COORD {
            return None;
        }
        sphere_hit_core(c, self.radius, self.material, ray, t_min, t_max)
    }
}

impl MovingSphere {
    /// Create a new `MovingSphere`.
    pub fn new(center0: Point4, center1: Point4, radius: Fx, material: Material) -> (s:
        MovingSphere)
        ensures
            s.center0 == center0,
            s.center1 == center1,
            s.radius == radius,
            s.material == material,
    {
        MovingSphere { center0, center1, radius, material }
    }

    /// The location of the centre at the given time: the keyframe
    /// positions interpolated linearly by the factor
    /// `(time - time0) / (time1 - time0)`, extrapolating beyond either
    /// keyframe exactly as the formula reads.
    pub fn center(&self, time: Fx) -> (c: Point3)
        requires
            wf_moving_sphere(*self),
            -0x40000000 <= time@ <= 0x40000000,
        ensures
            ({
                let s = moving_lerp_s(self.center0.time@, self.center1.time@, time@);
                c.x@ == moving_center_coord(self.center0.pos.x@, self.center1.pos.x@, s)
                    && c.y@ == moving_center_coord(self.center0.pos.y@, self.center1.pos.y@, s)
                    && c.z@ == moving_center_coord(self.center0.pos.z@, self.center1.pos.z@, s)
            }),
            vec_bounded(c, 0x1000000000000000),
    {
        proof {
            crate::fixed::lemma_abs_mul_le(
                time@ - self.center0.time@,
                SCALE as int,
                0x60000000,
                SCALE as int,
            );
            let num: int = (time@ - self.center0.time@) * (SCALE as int);
            let dt: int = self.center1.time@ - self.center0.time@;
            if dt > 0 {
                crate::fixed::lemma_fdiv_abs_le(num, dt, 0x600000000000);
            } else {
                crate::fixed::lemma_fdiv_abs_le(-num, -dt, 0x600000000000);
            }
        }
        let s: Fx = time.minus(self.center0.time).over(
            self.center1.time.minus(self.center0.time),
        );
        let delta: Vec3 = self.center1.pos.minus(self.center0.pos);
        proof {
            crate::fixed::lemma_fxmul_range(delta.x@, s@, 0x20000000, 0x600000000001);
            crate::fixed::lemma_fxmul_range(delta.y@, s@, 0x20000000, 0x600000000001);
            crate::fixed::lemma_fxmul_range(delta.z@, s@, 0x20000000, 0x600000000001);
        }
        self.center0.pos.plus(delta.scale(s))
    }
}

/// Clamp a normal coordinate into two whole units.
fn clamp_norm(x: Fx) -> (r: Fx)
    ensures
        r@ == clamp_norm_coord(x@),
{
    if x.raw > 0x20000 {
        Fx { raw: 0x20000 }
    } else if x.raw < -0x20000 {
        Fx { raw: -0x20000 }
    } else {
        x
    }
}

/// Try one candidate root of the sphere quadratic: accept it when it
/// lies in the queried range and its point lies on or inside the sphere,
/// and build the hit record for it.
fn sphere_try_root(
    center: Point3,
    radius: Fx,
    material: Material,
    ray: &Ray,
    t_min: Fx,
    t_max: Fx,
    t: i128,
) -> (r: Option<HitRecord>)
    requires
        vec_bounded(center, LIM_COORD as int),
        0 < radius@ <= LIM_COORD as int,
        wf_material(material),
        wf_ray(*ray),
        -0x40000000 <= t_min@ <= 0x40000000,
        -0x40000000 <= t_max@ <= 0x40000000,
    ensures
        r is Some <==> sphere_accept(
            center.x@,
            center.y@,
            center.z@,
            radius@,
            *ray,
            t_min@,
            t_max@,
            t as int,
        ),
        r is Some ==> hit_matches(
            r,
            Some(
                sphere_record(
                    center.x@,
                    center.y@,
                    center.z@,
                    radius@,
                    material,
                    *ray,
                    t as int,
                ),
            ),
        ),
        r matches Some(h) ==> wf_hit(h) && t_min@ <= h.t@ <= t_max@ && -(radius@ + 1) <= h.p.x@
            - center.x@ <= radius@ + 1 && -(radius@ + 1) <= h.p.y@ - center.y@ <= radius@ + 1 && -(
        radius@ + 1) <= h.p.z@ - center.z@ <= radius@ + 1,
{
    if t < t_min.raw as i128 || t > t_max.raw as i128 {
        return None;
    }
    let ocx: i128 = (ray.origin.x.raw as i128) - (center.x.raw as i128);
    let ocy: i128 = (ray.origin.y.raw as i128) - (center.y.raw as i128);
    let ocz: i128 = (ray.origin.z.raw as i128) - (center.z.raw as i128);
    proof {
        crate::fixed::lemma_abs_mul_le(t as int, ray.direction.x@, 0x40000000, LIM_DIR as int);
        crate::fixed::lemma_abs_mul_le(t as int, ray.direction.y@, 0x40000000, LIM_DIR as int);
        crate::fixed::lemma_abs_mul_le(t as int, ray.direction.z@, 0x40000000, LIM_DIR as int);
    }
    let ex: i128 = ocx * 65536i128 + t * (ray.direction.x.raw as i128);
    let ey: i128 = ocy * 65536i128 + t * (ray.direction.y.raw as i128);
    let ez: i128 = ocz * 65536i128 + t * (ray.direction.z.raw as i128);
    let rr: i128 = (radius.raw as i128) * 65536i128;
    proof {
        crate::fixed::lemma_abs_mul_le(ex as int, ex as int, 0x400000000000000, 0x400000000000000);
        crate::fixed::lemma_abs_mul_le(ey as int, ey as int, 0x400000000000000, 0x400000000000000);
        crate::fixed::lemma_abs_mul_le(ez as int, ez as int, 0x400000000000000, 0x400000000000000);
        crate::fixed::lemma_abs_mul_le(rr as int, rr as int, 0x100000000000, 0x100000000000);
    }
    if ex * ex + ey * ey + ez * ez > rr * rr {
        return None;
    }
    let t_fx: Fx = Fx::from_raw(t as i64);
    let p: Point3 = ray.at(t_fx);
    proof {
        crate::fixed::lemma_square_nonneg(ey as int);
        crate::fixed::lemma_square_nonneg(ez as int);
        crate::fixed::lemma_square_nonneg(ex as int);
        crate::fixed::lemma_square_le_bound(ex as int, rr as int);
        crate::fixed::lemma_square_le_bound(ey as int, rr as int);
        crate::fixed::lemma_square_le_bound(ez as int, rr as int);
        assert(t as int * ray.direction.x@ == ray.direction.x@ * (t as int)) by (nonlinear_arith);
        assert(t as int * ray.direction.y@ == ray.direction.y@ * (t as int)) by (nonlinear_arith);
        assert(t as int * ray.direction.z@ == ray.direction.z@ * (t as int)) by (nonlinear_arith);
        crate::fixed::lemma_fdiv_mul_back(ray.direction.x@ * (t as int), SCALE as int);
        crate::fixed::lemma_fdiv_mul_back(ray.direction.y@ * (t as int), SCALE as int);
        crate::fixed::lemma_fdiv_mul_back(ray.direction.z@ * (t as int), SCALE as int);
        assert(fdiv(ray.direction.x@ * (t as int), SCALE as int) * (SCALE as int) <= ray.direction.x@ * (t as int));
        assert(p.x@ - center.x@ <= radius@ + 1 && -(radius@ + 1) <= p.x@ - center.x@);
        assert(p.y@ - center.y@ <= radius@ + 1 && -(radius@ + 1) <= p.y@ - center.y@);
        assert(p.z@ - center.z@ <= radius@ + 1 && -(radius@ + 1) <= p.z@ - center.z@);
        crate::fixed::lemma_abs_mul_le(
            p.x@ - center.x@,
            SCALE as int,
            radius@ + 1,
            SCALE as int,
        );
        crate::fixed::lemma_abs_mul_le(
            p.y@ - center.y@,
            SCALE as int,
            radius@ + 1,
            SCALE as int,
        );
        crate::fixed::lemma_abs_mul_le(
            p.z@ - center.z@,
            SCALE as int,
            radius@ + 1,
            SCALE as int,
        );
        crate::fixed::lemma_fdiv_range(
            (p.x@ - center.x@) * (SCALE as int),
            radius@,
            (radius@ + 1) * (SCALE as int),
        );
        crate::fixed::lemma_fdiv_range(
            (p.y@ - center.y@) * (SCALE as int),
            radius@,
            (radius@ + 1) * (SCALE as int),
        );
        crate::fixed::lemma_fdiv_range(
            (p.z@ - center.z@) * (SCALE as int),
            radius@,
            (radius@ + 1) * (SCALE as int),
        );
        crate::fixed::lemma_fdiv_le_const(
            (radius@ + 1) * (SCALE as int),
            radius@,
            0x20000,
        );
    }
    let outward: Vec3 = Vec3 {
        x: clamp_norm(p.x.minus(center.x).over(radius)),
        y: clamp_norm(p.y.minus(center.y).over(radius)),
        z: clamp_norm(p.z.minus(center.z).over(radius)),
    };
    Some(HitRecord::new(ray, p, outward, material, t_fx))
}

/// The nearest sphere intersection in `[t_min, t_max]`: the quadratic
/// solved in the half-b form over exact wide integers, preferring the
/// smaller root.
fn sphere_hit_core(
    center: Point3,
    radius: Fx,
    material: Material,
    ray: &Ray,
    t_min: Fx,
    t_max: Fx,
) -> (r: Option<HitRecord>)
    requires
        vec_bounded(center, LIM_COORD as int),
        0 < radius@ <= LIM_COORD as int,
        wf_material(material),
        wf_ray(*ray),
        -0x40000000 <= t_min@ <= 0x40000000,
        -0x40000000 <= t_max@ <= 0x40000000,
    ensures
        hit_matches(
            r,
            spec_sphere_hit(
                center.x@,
                center.y@,
                center.z@,
                radius@,
                material,
                *ray,
                t_min@,
                t_max@,
            ),
        ),
        r matches Some(h) ==> wf_hit(h) && t_min@ <= h.t@ <= t_max@ && -(radius@ + 1) <= h.p.x@
            - center.x@ <= radius@ + 1 && -(radius@ + 1) <= h.p.y@ - center.y@ <= radius@ + 1 && -(
        radius@ + 1) <= h.p.z@ - center.z@ <= radius@ + 1,
{
    let dx: i128 = ray.direction.x.raw as i128;
    let dy: i128 = ray.direction.y.raw as i128;
    let dz: i128 = ray.direction.z.raw as i128;
    let ocx: i128 = (ray.origin.x.raw as i128) - (center.x.raw as i128);
    let ocy: i128 = (ray.origin.y.raw as i128) - (center.y.raw as i128);
    let ocz: i128 = (ray.origin.z.raw as i128) - (center.z.raw as i128);
    proof {
        let dlim: int = LIM_DIR as int;
        let oclim: int = 0x8000000000;
        crate::fixed::lemma_abs_mul_le(dx as int, dx as int, dlim, dlim);
        crate::fixed::lemma_abs_mul_le(dy as int, dy as int, dlim, dlim);
        crate::fixed::lemma_abs_mul_le(dz as int, dz as int, dlim, dlim);
        crate::fixed::lemma_abs_mul_le(ocx as int, dx as int, oclim, dlim);
        crate::fixed::lemma_abs_mul_le(ocy as int, dy as int, oclim, dlim);
        crate::fixed::lemma_abs_mul_le(ocz as int, dz as int, oclim, dlim);
        crate::fixed::lemma_abs_mul_le(ocx as int, ocx as int, oclim, oclim);
        crate::fixed::lemma_abs_mul_le(ocy as int, ocy as int, oclim, oclim);
        crate::fixed::lemma_abs_mul_le(ocz as int, ocz as int, oclim, oclim);
        crate::fixed::lemma_abs_mul_le(radius@, radius@, LIM_COORD as int, LIM_COORD as int);
    }
    let aw: i128 = dx * dx + dy * dy + dz * dz;
    let hb: i128 = ocx * dx + ocy * dy + ocz * dz;
    let cw: i128 = ocx * ocx + ocy * ocy + ocz * ocz - (radius.raw as i128) * (radius.raw
        as i128);
    proof {
        crate::fixed::lemma_square_nonneg(ocx as int);
        crate::fixed::lemma_square_nonneg(ocy as int);
        crate::fixed::lemma_square_nonneg(ocz as int);
        crate::fixed::lemma_abs_mul_le(hb as int, hb as int, 0x1800000000000000, 0x1800000000000000);
        crate::fixed::lemma_abs_mul_le(aw as int, cw as int, 0x30000000000, 0xc0000000000000000000);
    }
    let disc: i128 = hb * hb - aw * cw;
    if disc < 0 {
        return None;
    }
    proof {
        assert((1u128 << 126) == 0x40000000000000000000000000000000u128) by (bit_vector);
    }
    let squ: u128 = crate::fixed::isqrt_u128(disc as u128);
    proof {
        assert((squ as int) * (squ as int) <= disc as int);
        assert(squ as int <= 0x4000000000000000) by (nonlinear_arith)
            requires
                (squ as int) * (squ as int) <= disc as int,
                0 <= squ as int,
                disc as int <= 0x10000000000000000000000000000000,
        ;
    }
    let sq: i128 = squ as i128;
    proof {
        crate::fixed::lemma_abs_mul_le(
            (-(hb as int) - sq as int),
            SCALE as int,
            0x8000000000000000,
            SCALE as int,
        );
        crate::fixed::lemma_abs_mul_le(
            (-(hb as int) + sq as int),
            SCALE as int,
            0x8000000000000000,
            SCALE as int,
        );
    }
    let t1: i128 = crate::fixed::div_floor_i128((-hb - sq) * (SCALE as i128), aw);
    let first = sphere_try_root(center, radius, material, ray, t_min, t_max, t1);
    if first.is_some() {
        return first;
    }
    let t2: i128 = crate::fixed::div_floor_i128((-hb + sq) * (SCALE as i128), aw);
    sphere_try_root(center, radius, material, ray, t_min, t_max, t2)
}

/// A scene object: a primitive or a compositor. Every variant can report
/// the nearest intersection of a ray within a range and a bounding box;
/// a `BvhNode` composes transparently with leaves, so a whole
/// acceleration tree is itself an `Object`.
#[derive(Debug)]
pub enum Object {
    /// A sphere at rest.
    Sphere(Sphere),
    /// A sphere moving between two keyframes.
    MovingSphere(MovingSphere),
    /// A decorator shifting the inner geometry by an offset.
    Translate { offset: Vec3, inner: Box<Object> },
    /// A participating medium filling a boundary volume: a ray crossing
    /// it may scatter at a random depth inside, proportional to the
    /// density.
    ConstantMedium { boundary: Box<Object>, density: Fx, phase: Material },
    /// An interior node of a bounding-volume hierarchy.
    BvhNode { left: Box<Object>, right: Box<Object>, bbox: Aabb },
}

/// The bounding box of an object: a sphere takes its extent, a moving
/// sphere the whole region its extrapolated centre may reach within the
/// scene coordinate bound, a translation shifts the inner box, a medium
/// takes its boundary's box, and a hierarchy node carries its stored
/// box.
pub open spec fn spec_bbox(o: Object) -> Aabb
    decreases o,
{
    match o {
        Object::Sphere(s) => Aabb {
            min: Point3 {
                x: Fx { raw: (s.center.x@ - s.radius@) as i64 },
                y: Fx { raw: (s.center.y@ - s.radius@) as i64 },
                z: Fx { raw: (s.center.z@ - s.radius@) as i64 },
            },
            max: Point3 {
                x: Fx { raw: (s.center.x@ + s.radius@) as i64 },
                y: Fx { raw: (s.center.y@ + s.radius@) as i64 },
                z: Fx { raw: (s.center.z@ + s.radius@) as i64 },
            },
        },
        Object::MovingSphere(s) => Aabb {
            min: Point3 {
                x: Fx { raw: (-(LIM_COORD as int) - s.radius@) as i64 },
                y: Fx { raw: (-(LIM_COORD as int) - s.radius@) as i64 },
                z: Fx { raw: (-(LIM_COORD as int) - s.radius@) as i64 },
            },
            max: Point3 {
                x: Fx { raw: (LIM_COORD as int + s.radius@) as i64 },
                y: Fx { raw: (LIM_COORD as int + s.radius@) as i64 },
                z: Fx { raw: (LIM_COORD as int + s.radius@) as i64 },
            },
        },
        Object::Translate { offset, inner } => {
            let b = spec_bbox(*inner);
            Aabb {
                min: Point3 {
                    x: Fx { raw: (b.min.x@ + offset.x@) as i64 },
                    y: Fx { raw: (b.min.y@ + offset.y@) as i64 },
                    z: Fx { raw: (b.min.z@ + offset.z@) as i64 },
                },
                max: Point3 {
                    x: Fx { raw: (b.max.x@ + offset.x@) as i64 },
                    y: Fx { raw: (b.max.y@ + offset.y@) as i64 },
                    z: Fx { raw: (b.max.z@ + offset.z@) as i64 },
                },
            }
        },
        Object::ConstantMedium { boundary, density, phase } => spec_bbox(*boundary),
        Object::BvhNode { left, right, bbox } => bbox,
    }
}

/// The smaller of two integers.
pub open spec fn min_int(a: int, b: int) -> int {
    if a <= b {
        a
    } else {
        b
    }
}

/// The larger of two integers.
pub open spec fn max_int(a: int, b: int) -> int {
    if a >= b {
        a
    } else {
        b
    }
}

/// A well-formed object: bounded, ordered data at every level, and a
/// well-formed bounding box; a hierarchy node's stored box is exactly
/// the merge of its children's.
pub open spec fn wf_object(o: Object) -> bool
    decreases o,
{
    wf_aabb(spec_bbox(o)) && match o {
        Object::Sphere(s) => wf_sphere(s),
        Object::MovingSphere(s) => wf_moving_sphere(s),
        Object::Translate { offset, inner } => vec_bounded(offset, LIM_COORD as int) && wf_object(
            *inner,
        ),
        Object::ConstantMedium { boundary, density, phase } => wf_object(*boundary) && 0
            < density@ <= LIM_COORD as int && wf_material(phase),
        Object::BvhNode { left, right, bbox } => wf_object(*left) && wf_object(*right) && bbox
            == spec_merge(spec_bbox(*left), spec_bbox(*right)),
    }
}

/// The object draws no random samples while hit testing: every variant
/// except a participating medium, at every level.
pub open spec fn sample_free(o: Object) -> bool
    decreases o,
{
    match o {
        Object::Sphere(s) => true,
        Object::MovingSphere(s) => true,
        Object::Translate { offset, inner } => sample_free(*inner),
        Object::ConstantMedium { boundary, density, phase } => false,
        Object::BvhNode { left, right, bbox } => sample_free(*left) && sample_free(*right),
    }
}

/// The shifted ray that translated geometry delegates to stays within
/// the origin bound; a ray shifted out of it is treated as missing.
pub open spec fn origin_shift_ok(r: Ray, offset: Vec3) -> bool {
    &&& -(LIM_ORIGIN as int) <= r.origin.x@ - offset.x@ <= LIM_ORIGIN as int
    &&& -(LIM_ORIGIN as int) <= r.origin.y@ - offset.y@ <= LIM_ORIGIN as int
    &&& -(LIM_ORIGIN as int) <= r.origin.z@ - offset.z@ <= LIM_ORIGIN as int
}

/// The point lies inside the box, with one whole unit of slack per side
/// for fixed-point rounding.
pub open spec fn in_box_pad(b: Aabb, p: Point3) -> bool {
    &&& b.min.x@ - 65536 <= p.x@ <= b.max.x@ + 65536
    &&& b.min.y@ - 65536 <= p.y@ <= b.max.y@ + 65536
    &&& b.min.z@ - 65536 <= p.z@ <= b.max.z@ + 65536
}

/// The ray shifted so that hit testing against translated geometry can
/// delegate to the inner object.
pub open spec fn shifted_ray(r: Ray, offset: Vec3) -> Ray {
    Ray {
        origin: Point3 {
            x: Fx { raw: (r.origin.x@ - offset.x@) as i64 },
            y: Fx { raw: (r.origin.y@ - offset.y@) as i64 },
            z: Fx { raw: (r.origin.z@ - offset.z@) as i64 },
        },
        direction: r.direction,
        time: r.time,
    }
}

/// The deterministic intersection model: the nearest accepted hit of a
/// sample-free object within `[tmin, tmax]`. A hierarchy node combines
/// its children with range narrowing; a participating medium has no
/// deterministic model and maps to `None`.
pub open spec fn spec_obj_hit(o: Object, r: Ray, tmin: int, tmax: int) -> Option<SpecHit>
    decreases o,
{
    match o {
        Object::Sphere(s) => spec_sphere_hit(
            s.center.x@,
            s.center.y@,
            s.center.z@,
            s.radius@,
            s.material,
            r,
            tmin,
            tmax,
        ),
        Object::MovingSphere(s) => {
            if !moving_center_ok(s, r.time@) {
                None
            } else {
                let f = moving_lerp_s(s.center0.time@, s.center1.time@, r.time@);
                spec_sphere_hit(
                    moving_center_coord(s.center0.pos.x@, s.center1.pos.x@, f),
                    moving_center_coord(s.center0.pos.y@, s.center1.pos.y@, f),
                    moving_center_coord(s.center0.pos.z@, s.center1.pos.z@, f),
                    s.radius@,
                    s.material,
                    r,
                    tmin,
                    tmax,
                )
            }
        },
        Object::Translate { offset, inner } => {
            if !origin_shift_ok(r, offset) {
                None
            } else {
                match spec_obj_hit(*inner, shifted_ray(r, offset), tmin, tmax) {
                    Some(sh) => Some(
                        SpecHit {
                            px: sh.px + offset.x@,
                            py: sh.py + offset.y@,
                            pz: sh.pz + offset.z@,
                            ..sh
                        },
                    ),
                    None => None,
                }
            }
        },
        Object::ConstantMedium { boundary, density, phase } => None,
        Object::BvhNode { left, right, bbox } => {
            match spec_obj_hit(*left, r, tmin, tmax) {
                Some(lh) => match spec_obj_hit(*right, r, tmin, lh.t) {
                    Some(rh) => Some(rh),
                    None => Some(lh),
                },
                None => spec_obj_hit(*right, r, tmin, tmax),
            }
        },
    }
}

/// The deterministic part of a participating medium's hit test: the
/// boundary is probed for an entry, then again from just past it for an
/// exit, and the span is clamped to the queried range. `None` means the
/// medium rejects the ray before any random draw.
pub open spec fn medium_gate(boundary: Object, r: Ray, tmin: int, tmax: int) -> Option<(int, int)> {
    match spec_obj_hit(boundary, r, -0x40000000, 0x40000000) {
        None => None,
        Some(e1) => if e1.t + 66 > 0x40000000 {
            None
        } else {
            match spec_obj_hit(boundary, r, e1.t + 66, 0x40000000) {
                None => None,
                Some(e2) => {
                    let t1 = max_int(e1.t, tmin);
                    let t2 = min_int(e2.t, tmax);
                    if t1 < t2 {
                        Some((t1, t2))
                    } else {
                        None
                    }
                },
            }
        },
    }
}

/// An accepted sphere hit stays within the queried range, and its exact
/// parameter keeps the ray within one radius of the centre on every
/// axis.
proof fn lemma_sphere_hit_bounds(
    cx: int,
    cy: int,
    cz: int,
    rad: int,
    material: Material,
    r: Ray,
    tmin: int,
    tmax: int,
)
    requires
        rad > 0,
    ensures
        spec_sphere_hit(cx, cy, cz, rad, material, r, tmin, tmax) matches Some(sh) ==> tmin
            <= sh.t <= tmax && -(rad * 65536) <= (r.origin.x@ - cx) * 65536 + sh.t
            * r.direction.x@ <= rad * 65536 && -(rad * 65536) <= (r.origin.y@ - cy) * 65536 + sh.t
            * r.direction.y@ <= rad * 65536 && -(rad * 65536) <= (r.origin.z@ - cz) * 65536 + sh.t
            * r.direction.z@ <= rad * 65536,
{
    let res = spec_sphere_hit(cx, cy, cz, rad, material, r, tmin, tmax);
    if res is Some {
        let sh = res->Some_0;
        let t = sh.t;
        assert(sphere_accept(cx, cy, cz, rad, r, tmin, tmax, t));
        let ex = (r.origin.x@ - cx) * (SCALE as int) + t * r.direction.x@;
        let ey = (r.origin.y@ - cy) * (SCALE as int) + t * r.direction.y@;
        let ez = (r.origin.z@ - cz) * (SCALE as int) + t * r.direction.z@;
        let rr = rad * (SCALE as int);
        crate::fixed::lemma_square_nonneg(ex);
        crate::fixed::lemma_square_nonneg(ey);
        crate::fixed::lemma_square_nonneg(ez);
        crate::fixed::lemma_square_le_bound(ex, rr);
        crate::fixed::lemma_square_le_bound(ey, rr);
        crate::fixed::lemma_square_le_bound(ez, rr);
    }
}

/// A deterministic hit of a well-formed object stays within the queried
/// range, and its exact parameter puts the ray inside the object's
/// bounding box: pruning by the box can never hide a hit.
pub proof fn lemma_spec_hit_in_bbox(o: Object, r: Ray, tmin: int, tmax: int)
    requires
        wf_object(o),
    ensures
        spec_obj_hit(o, r, tmin, tmax) matches Some(sh) ==> tmin <= sh.t <= tmax && hit_in_box_at(
            spec_bbox(o),
            r,
            sh.t,
        ),
    decreases o,
{
    let res = spec_obj_hit(o, r, tmin, tmax);
    if res is Some {
        let sh = res->Some_0;
        match o {
            Object::Sphere(s) => {
                lemma_sphere_hit_bounds(
                    s.center.x@,
                    s.center.y@,
                    s.center.z@,
                    s.radius@,
                    s.material,
                    r,
                    tmin,
                    tmax,
                );
            },
            Object::MovingSphere(s) => {
                let f = moving_lerp_s(s.center0.time@, s.center1.time@, r.time@);
                let mcx = moving_center_coord(s.center0.pos.x@, s.center1.pos.x@, f);
                let mcy = moving_center_coord(s.center0.pos.y@, s.center1.pos.y@, f);
                let mcz = moving_center_coord(s.center0.pos.z@, s.center1.pos.z@, f);
                lemma_sphere_hit_bounds(mcx, mcy, mcz, s.radius@, s.material, r, tmin, tmax);
            },
            Object::Translate { offset, inner } => {
                lemma_spec_hit_in_bbox(*inner, shifted_ray(r, offset), tmin, tmax);
                assert(wf_object(*inner));
                assert(wf_aabb(spec_bbox(*inner)));
            },
            Object::ConstantMedium { boundary, density, phase } => {},
            Object::BvhNode { left, right, bbox } => {
                lemma_spec_hit_in_bbox(*left, r, tmin, tmax);
                lemma_spec_hit_in_bbox(*right, r, tmin, tmax);
                match spec_obj_hit(*left, r, tmin, tmax) {
                    Some(lh) => {
                        lemma_spec_hit_in_bbox(*right, r, tmin, lh.t);
                        crate::aabb::lemma_merge_covers(
                            spec_bbox(*left),
                            spec_bbox(*right),
                            r,
                            sh.t,
                        );
                    },
                    None => {
                        crate::aabb::lemma_merge_covers(
                            spec_bbox(*left),
                            spec_bbox(*right),
                            r,
                            sh.t,
                        );
                    },
                }
            },
        }
    }
}

impl Object {
    /// An axis-aligned box bounding the object's extent: a moving sphere
    /// is bounded over its whole keyframe segment, so the box is valid at
    /// every exposure time.
    pub fn bounding_box(&self) -> (b: Aabb)
        requires
            wf_object(*self),
        ensures
            b == spec_bbox(*self),
        decreases *self,
    {
        match self {
            Object::Sphere(s) => Aabb {
                min: Point3 {
                    x: s.center.x.minus(s.radius),
                    y: s.center.y.minus(s.radius),
                    z: s.center.z.minus(s.radius),
                },
                max: Point3 {
                    x: s.center.x.plus(s.radius),
                    y: s.center.y.plus(s.radius),
                    z: s.center.z.plus(s.radius),
                },
            },
            Object::MovingSphere(s) => {
                let lo = Fx { raw: -LIM_COORD }.minus(s.radius);
                let hi = Fx { raw: LIM_COORD }.plus(s.radius);
                Aabb { min: Point3 { x: lo, y: lo, z: lo }, max: Point3 { x: hi, y: hi, z: hi } }
            },
            Object::Translate { offset, inner } => {
                proof {
                    assert(wf_object(**inner));
                    assert(wf_aabb(spec_bbox(**inner)));
                }
                let b = inner.bounding_box();
                Aabb { min: b.min.plus(*offset), max: b.max.plus(*offset) }
            },
            Object::ConstantMedium { boundary, density, phase } => boundary.bounding_box(),
            Object::BvhNode { left, right, bbox } => *bbox,
        }
    }

    /// The nearest intersection of `ray` with this object within
    /// `[t_min, t_max]`, or `None`.
    ///
    /// For an object that draws no random samples, the result agrees
    /// exactly with the deterministic model `spec_obj_hit`; a
    /// participating medium decides stochastically, and only the range
    /// and well-formedness of any returned record are promised.
    #[verifier::rlimit(100)]
    pub fn hit(&self, ray: &Ray, t_min: Fx, t_max: Fx) -> (r: Option<HitRecord>)
        requires
            wf_object(*self),
            wf_ray(*ray),
            -0x40000000 <= t_min@ <= 0x40000000,
            -0x40000000 <= t_max@ <= 0x40000000,
        ensures
            r matches Some(h) ==> wf_hit(h) && t_min@ <= h.t@ <= t_max@ && in_box_pad(
                spec_bbox(*self),
                h.p,
            ),
            sample_free(*self) ==> hit_matches(r, spec_obj_hit(*self, *ray, t_min@, t_max@)),
            match (*self, r) {
                (Object::ConstantMedium { boundary, density, phase }, Some(h)) => h.material
                    == phase && h.front_face,
                _ => true,
            },
            match *self {
                Object::ConstantMedium { boundary, density, phase } => sample_free(*boundary)
                    ==> match (medium_gate(*boundary, *ray, t_min@, t_max@), r) {
                    (None, Some(h)) => false,
                    (Some(span), Some(h)) => span.0 <= h.t@ <= span.1 && exists|u: int|
                        0 <= u < 65536 && h.t@ == span.0 + fxdiv(
                            fxdiv(#[trigger] crate::fixed::spec_neg_ln(u), density@),
                            crate::vec3::spec_length(ray.direction),
                        ),
                    _ => true,
                },
                _ => true,
            },
        decreases *self,
    {
        match self {
            Object::Sphere(s) => sphere_hit_core(s.center, s.radius, s.material, ray, t_min, t_max),
            Object::MovingSphere(s) => {
                let c: Point3 = s.center(ray.time);
                if c.x.raw < -LIM_COORD || c.x.raw > LIM_COORD || c.y.raw < -LIM_COORD || c.y.raw
                    > LIM_COORD || c.z.raw < -LIM_COORD || c.z.raw > LIM_COORD {
                    return None;
                }
                sphere_hit_core(c, s.radius, s.material, ray, t_min, t_max)
            },
            Object::Translate { offset, inner } => {
                let sx: Fx = ray.origin.x.minus(offset.x);
                let sy: Fx = ray.origin.y.minus(offset.y);
                let sz: Fx = ray.origin.z.minus(offset.z);
                if sx.raw < -LIM_ORIGIN || sx.raw > LIM_ORIGIN || sy.raw < -LIM_ORIGIN || sy.raw
                    > LIM_ORIGIN || sz.raw < -LIM_ORIGIN || sz.raw > LIM_ORIGIN {
                    return None;
                }
                let moved = Ray {
                    origin: Point3 { x: sx, y: sy, z: sz },
                    direction: ray.direction,
                    time: ray.time,
                };
                proof {
                    assert(wf_object(**inner));
                    assert(wf_aabb(spec_bbox(**inner)));
                }
                match inner.hit(&moved, t_min, t_max) {
                    Some(h) => Some(
                        HitRecord {
                            p: Point3 {
                                x: h.p.x.plus(offset.x),
                                y: h.p.y.plus(offset.y),
                                z: h.p.z.plus(offset.z),
                            },
                            norm: h.norm,
                            material: h.material,
                            t: h.t,
                            front_face: h.front_face,
                        },
                    ),
                    None => None,
                }
            },
            Object::ConstantMedium { boundary, density, phase } => {
                proof {
                    assert(wf_object(**boundary));
                    assert(wf_aabb(spec_bbox(**boundary)));
                }
                // Probe the boundary twice: once for the entry point,
                // once from just past it for the exit, so a ray starting
                // inside the volume still finds where it leaves.
                let near = Fx { raw: -0x40000000 };
                let far = Fx { raw: 0x40000000 };
                let h1 = match boundary.hit(ray, near, far) {
                    Some(h) => h,
                    None => {
                        return None;
                    },
                };
                let lo2 = h1.t.plus(Fx { raw: 66 });
                if far.lt(lo2) {
                    return None;
                }
                let h2 = match boundary.hit(ray, lo2, far) {
                    Some(h) => h,
                    None => {
                        return None;
                    },
                };
                let t1 = h1.t.max_of(t_min);
                let t2 = h2.t.min_of(t_max);
                if !t1.lt(t2) {
                    return None;
                }
                proof {
                    crate::vec3::lemma_dotw_bound(
                        ray.direction,
                        ray.direction,
                        LIM_DIR as int,
                        LIM_DIR as int,
                    );
                    crate::fixed::lemma_fdiv_range(
                        dotw(ray.direction, ray.direction),
                        SCALE as int,
                        0x30000000000,
                    );
                }
                let len = ray.direction.length();
                proof {
                    let q: int = fdiv(dotw(ray.direction, ray.direction), SCALE as int);
                    let n: int = q * (SCALE as int);
                    crate::fixed::lemma_fdiv_ordered(
                        MIN_DIR_SQ as int,
                        dotw(ray.direction, ray.direction),
                        SCALE as int,
                    );
                    crate::fixed::lemma_sqrt_at_least(n, len@, 1);
                    crate::fixed::lemma_abs_mul_le(q, SCALE as int, 0x3000000, SCALE as int);
                    crate::fixed::lemma_square_le_bound(len@, 0x400000);
                    crate::fixed::lemma_fxmul_range(t2@ - t1@, len@, 0x80000000, 0x400000);
                }
                // The spatial distance through the medium, against a
                // free-flight distance drawn from an exponential law:
                // scattering happens only when the flight ends inside.
                let dist = t2.minus(t1).times(len);
                let u = sample_unit();
                let flight_raw: i64 = crate::fixed::neg_ln_unit(u.raw);
                proof {
                    crate::fixed::lemma_abs_mul_le(
                        flight_raw as int,
                        SCALE as int,
                        0x200000,
                        SCALE as int,
                    );
                    crate::fixed::lemma_fdiv_abs_le(
                        (flight_raw as int) * (SCALE as int),
                        density@,
                        0x20000000000,
                    );
                    crate::fixed::lemma_fdiv_ordered(
                        0,
                        (flight_raw as int) * (SCALE as int),
                        density@,
                    );
                }
                let flight = Fx { raw: flight_raw }.over(*density);
                if dist.lt(flight) {
                    return None;
                }
                proof {
                    crate::fixed::lemma_abs_mul_le(
                        flight@,
                        SCALE as int,
                        0x20000000001,
                        SCALE as int,
                    );
                    crate::fixed::lemma_fdiv_abs_le(
                        flight@ * (SCALE as int),
                        len@,
                        0x200000000010000,
                    );
                    crate::fixed::lemma_fdiv_ordered(0, flight@ * (SCALE as int), len@);
                }
                let dt = flight.over(len);
                proof {
                    // The free flight was checked against the distance
                    // through the medium, so the parameter step stays
                    // within the clamped span.
                    assert(dt@ <= t2@ - t1@) by {
                        crate::fixed::lemma_fdiv_mul_back((t2@ - t1@) * len@, SCALE as int);
                        crate::fixed::lemma_fdiv_ordered(
                            flight@ * (SCALE as int),
                            fxmul(t2@ - t1@, len@) * (SCALE as int),
                            len@,
                        );
                        crate::fixed::lemma_fdiv_ordered(
                            fxmul(t2@ - t1@, len@) * (SCALE as int),
                            (t2@ - t1@) * len@,
                            len@,
                        );
                        assert((t2@ - t1@) * len@ == len@ * (t2@ - t1@)) by (nonlinear_arith);
                        vstd::arithmetic::div_mod::lemma_div_multiples_vanish(t2@ - t1@, len@);
                    }
                }
                let t = t1.plus(dt);
                let p = ray.at(t);
                let b = boundary.bounding_box();
                if p.x.raw < b.min.x.raw - 65536 || p.x.raw > b.max.x.raw + 65536 || p.y.raw
                    < b.min.y.raw - 65536 || p.y.raw > b.max.y.raw + 65536 || p.z.raw < b.min.z.raw
                    - 65536 || p.z.raw > b.max.z.raw + 65536 {
                    return None;
                }
                // The normal is arbitrary: direction is irrelevant for
                // isotropic in-medium scattering.
                let norm = Vec3 { x: Fx { raw: ONE_RAW }, y: Fx { raw: 0 }, z: Fx { raw: 0 } };
                Some(HitRecord { p, norm, material: *phase, t, front_face: true })
            },
            Object::BvhNode { left, right, bbox } => {
                proof {
                    assert(wf_object(**left));
                    assert(wf_object(**right));
                    assert(wf_aabb(spec_bbox(**left)));
                    assert(wf_aabb(spec_bbox(**right)));
                }
                if !bbox.hit(ray, t_min, t_max) {
                    proof {
                        if sample_free(**left) && sample_free(**right) {
                            lemma_spec_hit_in_bbox(*self, *ray, t_min@, t_max@);
                        }
                    }
                    return None;
                }
                match left.hit(ray, t_min, t_max) {
                    Some(h) => {
                        match right.hit(ray, t_min, h.t) {
                            Some(h2) => Some(h2),
                            None => Some(h),
                        }
                    },
                    None => right.hit(ray, t_min, t_max),
                }
            },
        }
    }
}


/// Sphere hit symmetry along the x axis: a ray fired from outside a
/// sphere straight at its centre along the x axis (from either
/// side) hits at the near intersection point, with a positive parameter
/// `k - rad` and a unit normal parallel to the axis, facing the ray.
pub proof fn lemma_sphere_hit_symmetry_x(
    cx: int,
    cy: int,
    cz: int,
    rad: int,
    k: int,
    s: int,
    material: Material,
    r: Ray,
    tmin: int,
    tmax: int,
)
    requires
        s == 1 || s == -1,
        r.origin.x@ == cx + s * k,
        r.origin.y@ == cy,
        r.origin.z@ == cz,
        r.direction.x@ == -s * 65536,
        r.direction.y@ == 0,
        r.direction.z@ == 0,
        0 < rad < k,
        rad <= LIM_COORD as int,
        k <= 0x20000000,
        tmin <= k - rad <= tmax,
    ensures
        spec_sphere_hit(cx, cy, cz, rad, material, r, tmin, tmax) == Some(
            SpecHit {
                t: k - rad,
                px: cx + s * rad,
                py: cy,
                pz: cz,
                nx: s * 65536,
                ny: 0,
                nz: 0,
                front: true,
                material,
            },
        ),
{
    let aw = r.direction.x@ * r.direction.x@ + r.direction.y@ * r.direction.y@ + r.direction.z@
        * r.direction.z@;
    let hb = (r.origin.x@ - cx) * r.direction.x@ + (r.origin.y@ - cy) * r.direction.y@ + (
    r.origin.z@ - cz) * r.direction.z@;
    let cw = (r.origin.x@ - cx) * (r.origin.x@ - cx) + (r.origin.y@ - cy) * (r.origin.y@ - cy) + (
    r.origin.z@ - cz) * (r.origin.z@ - cz) - rad * rad;
    let disc = hb * hb - aw * cw;
    assert(aw == 65536 * 65536 && hb == -(65536 * k) && cw == k * k - rad * rad && disc == (65536
        * 65536) * (rad * rad)) by (nonlinear_arith)
        requires
            s == 1 || s == -1,
            r.origin.x@ == cx + s * k,
            r.origin.y@ == cy,
            r.origin.z@ == cz,
            r.direction.x@ == -s * 65536,
            r.direction.y@ == 0,
            r.direction.z@ == 0,
            aw == r.direction.x@ * r.direction.x@ + r.direction.y@ * r.direction.y@
                + r.direction.z@ * r.direction.z@,
            hb == (r.origin.x@ - cx) * r.direction.x@ + (r.origin.y@ - cy) * r.direction.y@ + (
            r.origin.z@ - cz) * r.direction.z@,
            cw == (r.origin.x@ - cx) * (r.origin.x@ - cx) + (r.origin.y@ - cy) * (r.origin.y@
                - cy) + (r.origin.z@ - cz) * (r.origin.z@ - cz) - rad * rad,
            disc == hb * hb - aw * cw,
    ;
    assert(is_sqrt_floor(disc, 65536 * rad)) by (nonlinear_arith)
        requires
            disc == (65536 * 65536) * (rad * rad),
            0 < rad,
    ;
    crate::fixed::lemma_sqrt_floor_exists(disc);
    crate::fixed::lemma_sqrt_floor_unique(disc, crate::fixed::sqrt_floor(disc), 65536 * rad);
    let sq = crate::fixed::sqrt_floor(disc);
    let t1 = fdiv((-hb - sq) * (SCALE as int), aw);
    assert((-hb - sq) * (SCALE as int) == (65536 * 65536) * (k - rad)) by (nonlinear_arith)
        requires
            hb == -(65536 * k),
            sq == 65536 * rad,
    ;
    vstd::arithmetic::div_mod::lemma_div_multiples_vanish(k - rad, (65536 * 65536) as int);
    assert(t1 == k - rad);
    let t = k - rad;
    assert(sphere_in_ball(cx, cy, cz, rad, r, t)) by (nonlinear_arith)
        requires
            s == 1 || s == -1,
            r.origin.x@ == cx + s * k,
            r.origin.y@ == cy,
            r.origin.z@ == cz,
            r.direction.x@ == -s * 65536,
            r.direction.y@ == 0,
            r.direction.z@ == 0,
            0 < rad < k,
            t == k - rad,
    ;
    let sh = sphere_record(cx, cy, cz, rad, material, r, t);
    assert(fxmul(r.direction.x@, t) == -(s * (k - rad))) by {
        assert(r.direction.x@ * t == (SCALE as int) * (-(s * (k - rad)))) by (nonlinear_arith)
            requires
                r.direction.x@ == -s * 65536,
                t == k - rad,
        ;
        vstd::arithmetic::div_mod::lemma_div_multiples_vanish(-(s * (k - rad)), SCALE as int);
    }
    assert(fxmul(r.direction.y@, t) == 0) by {
        assert(r.direction.y@ * t == 0) by (nonlinear_arith)
            requires r.direction.y@ == 0;
    }
    assert(fxmul(r.direction.z@, t) == 0) by {
        assert(r.direction.z@ * t == 0) by (nonlinear_arith)
            requires r.direction.z@ == 0;
    }
    assert(sh.px == cx + s * rad) by {
        assert(cx + s * k + -(s * (k - rad)) == cx + s * rad) by (nonlinear_arith);
    }
    assert(fxdiv(sh.px - cx, rad) == s * 65536) by {
        assert((sh.px - cx) * (SCALE as int) == rad * (s * 65536)) by (nonlinear_arith)
            requires sh.px == cx + s * rad;
        vstd::arithmetic::div_mod::lemma_div_multiples_vanish(s * 65536, rad);
    }
    assert(fxdiv(sh.py - cy, rad) == 0) by {
        assert((sh.py - cy) * (SCALE as int) == 0);
        assert(fdiv(0, rad) == 0) by {
            vstd::arithmetic::div_mod::lemma_div_multiples_vanish(0, rad);
            assert(rad * 0 == 0) by (nonlinear_arith);
        }
    }
    assert(fxdiv(sh.pz - cz, rad) == 0) by {
        assert((sh.pz - cz) * (SCALE as int) == 0);
        assert(fdiv(0, rad) == 0) by {
            vstd::arithmetic::div_mod::lemma_div_multiples_vanish(0, rad);
            assert(rad * 0 == 0) by (nonlinear_arith);
        }
    }
    assert(clamp_norm_coord(s * 65536) == s * 65536);
    assert(r.direction.x@ * (s * 65536) + r.direction.y@ * 0 + r.direction.z@ * 0 < 0)
        by (nonlinear_arith)
        requires
            s == 1 || s == -1,
            r.direction.x@ == -s * 65536,
            r.direction.y@ == 0,
            r.direction.z@ == 0,
    ;
    assert(sh.front);
}

/// Sphere hit symmetry along the y axis: a ray fired from outside a
/// sphere straight at its centre along the y axis (from either
/// side) hits at the near intersection point, with a positive parameter
/// `k - rad` and a unit normal parallel to the axis, facing the ray.
pub proof fn lemma_sphere_hit_symmetry_y(
    cx: int,
    cy: int,
    cz: int,
    rad: int,
    k: int,
    s: int,
    material: Material,
    r: Ray,
    tmin: int,
    tmax: int,
)
    requires
        s == 1 || s == -1,
        r.origin.y@ == cy + s * k,
        r.origin.x@ == cx,
        r.origin.z@ == cz,
        r.direction.y@ == -s * 65536,
        r.direction.x@ == 0,
        r.direction.z@ == 0,
        0 < rad < k,
        rad <= LIM_COORD as int,
        k <= 0x20000000,
        tmin <= k - rad <= tmax,
    ensures
        spec_sphere_hit(cx, cy, cz, rad, material, r, tmin, tmax) == Some(
            SpecHit {
                t: k - rad,
                py: cy + s * rad,
                px: cx,
                pz: cz,
                ny: s * 65536,
                nx: 0,
                nz: 0,
                front: true,
                material,
            },
        ),
{
    let aw = r.direction.x@ * r.direction.x@ + r.direction.y@ * r.direction.y@ + r.direction.z@
        * r.direction.z@;
    let hb = (r.origin.x@ - cx) * r.direction.x@ + (r.origin.y@ - cy) * r.direction.y@ + (
    r.origin.z@ - cz) * r.direction.z@;
    let cw = (r.origin.x@ - cx) * (r.origin.x@ - cx) + (r.origin.y@ - cy) * (r.origin.y@ - cy) + (
    r.origin.z@ - cz) * (r.origin.z@ - cz) - rad * rad;
    let disc = hb * hb - aw * cw;
    assert(aw == 65536 * 65536 && hb == -(65536 * k) && cw == k * k - rad * rad && disc == (65536
        * 65536) * (rad * rad)) by (nonlinear_arith)
        requires
            s == 1 || s == -1,
            r.origin.y@ == cy + s * k,
            r.origin.x@ == cx,
            r.origin.z@ == cz,
            r.direction.y@ == -s * 65536,
            r.direction.x@ == 0,
            r.direction.z@ == 0,
            aw == r.direction.x@ * r.direction.x@ + r.direction.y@ * r.direction.y@
                + r.direction.z@ * r.direction.z@,
            hb == (r.origin.x@ - cx) * r.direction.x@ + (r.origin.y@ - cy) * r.direction.y@ + (
            r.origin.z@ - cz) * r.direction.z@,
            cw == (r.origin.x@ - cx) * (r.origin.x@ - cx) + (r.origin.y@ - cy) * (r.origin.y@
                - cy) + (r.origin.z@ - cz) * (r.origin.z@ - cz) - rad * rad,
            disc == hb * hb - aw * cw,
    ;
    assert(is_sqrt_floor(disc, 65536 * rad)) by (nonlinear_arith)
        requires
            disc == (65536 * 65536) * (rad * rad),
            0 < rad,
    ;
    crate::fixed::lemma_sqrt_floor_exists(disc);
    crate::fixed::lemma_sqrt_floor_unique(disc, crate::fixed::sqrt_floor(disc), 65536 * rad);
    let sq = crate::fixed::sqrt_floor(disc);
    let t1 = fdiv((-hb - sq) * (SCALE as int), aw);
    assert((-hb - sq) * (SCALE as int) == (65536 * 65536) * (k - rad)) by (nonlinear_arith)
        requires
            hb == -(65536 * k),
            sq == 65536 * rad,
    ;
    vstd::arithmetic::div_mod::lemma_div_multiples_vanish(k - rad, (65536 * 65536) as int);
    assert(t1 == k - rad);
    let t = k - rad;
    assert(sphere_in_ball(cx, cy, cz, rad, r, t)) by (nonlinear_arith)
        requires
            s == 1 || s == -1,
            r.origin.y@ == cy + s * k,
            r.origin.x@ == cx,
            r.origin.z@ == cz,
            r.direction.y@ == -s * 65536,
            r.direction.x@ == 0,
            r.direction.z@ == 0,
            0 < rad < k,
            t == k - rad,
    ;
    let sh = sphere_record(cx, cy, cz, rad, material, r, t);
    assert(fxmul(r.direction.y@, t) == -(s * (k - rad))) by {
        assert(r.direction.y@ * t == (SCALE as int) * (-(s * (k - rad)))) by (nonlinear_arith)
            requires
                r.direction.y@ == -s * 65536,
                t == k - rad,
        ;
        vstd::arithmetic::div_mod::lemma_div_multiples_vanish(-(s * (k - rad)), SCALE as int);
    }
    assert(fxmul(r.direction.x@, t) == 0) by {
        assert(r.direction.x@ * t == 0) by (nonlinear_arith)
            requires r.direction.x@ == 0;
    }
    assert(fxmul(r.direction.z@, t) == 0) by {
        assert(r.direction.z@ * t == 0) by (nonlinear_arith)
            requires r.direction.z@ == 0;
    }
    assert(sh.py == cy + s * rad) by {
        assert(cy + s * k + -(s * (k - rad)) == cy + s * rad) by (nonlinear_arith);
    }
    assert(fxdiv(sh.py - cy, rad) == s * 65536) by {
        assert((sh.py - cy) * (SCALE as int) == rad * (s * 65536)) by (nonlinear_arith)
            requires sh.py == cy + s * rad;
        vstd::arithmetic::div_mod::lemma_div_multiples_vanish(s * 65536, rad);
    }
    assert(fxdiv(sh.px - cx, rad) == 0) by {
        assert((sh.px - cx) * (SCALE as int) == 0);
        assert(fdiv(0, rad) == 0) by {
            vstd::arithmetic::div_mod::lemma_div_multiples_vanish(0, rad);
            assert(rad * 0 == 0) by (nonlinear_arith);
        }
    }
    assert(fxdiv(sh.pz - cz, rad) == 0) by {
        assert((sh.pz - cz) * (SCALE as int) == 0);
        assert(fdiv(0, rad) == 0) by {
            vstd::arithmetic::div_mod::lemma_div_multiples_vanish(0, rad);
            assert(rad * 0 == 0) by (nonlinear_arith);
        }
    }
    assert(clamp_norm_coord(s * 65536) == s * 65536);
    assert(r.direction.y@ * (s * 65536) + r.direction.x@ * 0 + r.direction.z@ * 0 < 0)
        by (nonlinear_arith)
        requires
            s == 1 || s == -1,
            r.direction.y@ == -s * 65536,
            r.direction.x@ == 0,
            r.direction.z@ == 0,
    ;
    assert(sh.front);
}

/// Sphere hit symmetry along the z axis: a ray fired from outside a
/// sphere straight at its centre along the z axis (from either
/// side) hits at the near intersection point, with a positive parameter
/// `k - rad` and a unit normal parallel to the axis, facing the ray.
pub proof fn lemma_sphere_hit_symmetry_z(
    cx: int,
    cy: int,
    cz: int,
    rad: int,
    k: int,
    s: int,
    material: Material,
    r: Ray,
    tmin: int,
    tmax: int,
)
    requires
        s == 1 || s == -1,
        r.origin.z@ == cz + s * k,
        r.origin.x@ == cx,
        r.origin.y@ == cy,
        r.direction.z@ == -s * 65536,
        r.direction.x@ == 0,
        r.direction.y@ == 0,
        0 < rad < k,
        rad <= LIM_COORD as int,
        k <= 0x20000000,
        tmin <= k - rad <= tmax,
    ensures
        spec_sphere_hit(cx, cy, cz, rad, material, r, tmin, tmax) == Some(
            SpecHit {
                t: k - rad,
                pz: cz + s * rad,
                px: cx,
                py: cy,
                nz: s * 65536,
                nx: 0,
                ny: 0,
                front: true,
                material,
            },
        ),
{
    let aw = r.direction.x@ * r.direction.x@ + r.direction.y@ * r.direction.y@ + r.direction.z@
        * r.direction.z@;
    let hb = (r.origin.x@ - cx) * r.direction.x@ + (r.origin.y@ - cy) * r.direction.y@ + (
    r.origin.z@ - cz) * r.direction.z@;
    let cw = (r.origin.x@ - cx) * (r.origin.x@ - cx) + (r.origin.y@ - cy) * (r.origin.y@ - cy) + (
    r.origin.z@ - cz) * (r.origin.z@ - cz) - rad * rad;
    let disc = hb * hb - aw * cw;
    assert(aw == 65536 * 65536 && hb == -(65536 * k) && cw == k * k - rad * rad && disc == (65536
        * 65536) * (rad * rad)) by (nonlinear_arith)
        requires
            s == 1 || s == -1,
            r.origin.z@ == cz + s * k,
            r.origin.x@ == cx,
            r.origin.y@ == cy,
            r.direction.z@ == -s * 65536,
            r.direction.x@ == 0,
            r.direction.y@ == 0,
            aw == r.direction.x@ * r.direction.x@ + r.direction.y@ * r.direction.y@
                + r.direction.z@ * r.direction.z@,
            hb == (r.origin.x@ - cx) * r.direction.x@ + (r.origin.y@ - cy) * r.direction.y@ + (
            r.origin.z@ - cz) * r.direction.z@,
            cw == (r.origin.x@ - cx) * (r.origin.x@ - cx) + (r.origin.y@ - cy) * (r.origin.y@
                - cy) + (r.origin.z@ - cz) * (r.origin.z@ - cz) - rad * rad,
            disc == hb * hb - aw * cw,
    ;
    assert(is_sqrt_floor(disc, 65536 * rad)) by (nonlinear_arith)
        requires
            disc == (65536 * 65536) * (rad * rad),
            0 < rad,
    ;
    crate::fixed::lemma_sqrt_floor_exists(disc);
    crate::fixed::lemma_sqrt_floor_unique(disc, crate::fixed::sqrt_floor(disc), 65536 * rad);
    let sq = crate::fixed::sqrt_floor(disc);
    let t1 = fdiv((-hb - sq) * (SCALE as int), aw);
    assert((-hb - sq) * (SCALE as int) == (65536 * 65536) * (k - rad)) by (nonlinear_arith)
        requires
            hb == -(65536 * k),
            sq == 65536 * rad,
    ;
    vstd::arithmetic::div_mod::lemma_div_multiples_vanish(k - rad, (65536 * 65536) as int);
    assert(t1 == k - rad);
    let t = k - rad;
    assert(sphere_in_ball(cx, cy, cz, rad, r, t)) by (nonlinear_arith)
        requires
            s == 1 || s == -1,
            r.origin.z@ == cz + s * k,
            r.origin.x@ == cx,
            r.origin.y@ == cy,
            r.direction.z@ == -s * 65536,
            r.direction.x@ == 0,
            r.direction.y@ == 0,
            0 < rad < k,
            t == k - rad,
    ;
    let sh = sphere_record(cx, cy, cz, rad, material, r, t);
    assert(fxmul(r.direction.z@, t) == -(s * (k - rad))) by {
        assert(r.direction.z@ * t == (SCALE as int) * (-(s * (k - rad)))) by (nonlinear_arith)
            requires
                r.direction.z@ == -s * 65536,
                t == k - rad,
        ;
        vstd::arithmetic::div_mod::lemma_div_multiples_vanish(-(s * (k - rad)), SCALE as int);
    }
    assert(fxmul(r.direction.x@, t) == 0) by {
        assert(r.direction.x@ * t == 0) by (nonlinear_arith)
            requires r.direction.x@ == 0;
    }
    assert(fxmul(r.direction.y@, t) == 0) by {
        assert(r.direction.y@ * t == 0) by (nonlinear_arith)
            requires r.direction.y@ == 0;
    }
    assert(sh.pz == cz + s * rad) by {
        assert(cz + s * k + -(s * (k - rad)) == cz + s * rad) by (nonlinear_arith);
    }
    assert(fxdiv(sh.pz - cz, rad) == s * 65536) by {
        assert((sh.pz - cz) * (SCALE as int) == rad * (s * 65536)) by (nonlinear_arith)
            requires sh.pz == cz + s * rad;
        vstd::arithmetic::div_mod::lemma_div_multiples_vanish(s * 65536, rad);
    }
    assert(fxdiv(sh.px - cx, rad) == 0) by {
        assert((sh.px - cx) * (SCALE as int) == 0);
        assert(fdiv(0, rad) == 0) by {
            vstd::arithmetic::div_mod::lemma_div_multiples_vanish(0, rad);
            assert(rad * 0 == 0) by (nonlinear_arith);
        }
    }
    assert(fxdiv(sh.py - cy, rad) == 0) by {
        assert((sh.py - cy) * (SCALE as int) == 0);
        assert(fdiv(0, rad) == 0) by {
            vstd::arithmetic::div_mod::lemma_div_multiples_vanish(0, rad);
            assert(rad * 0 == 0) by (nonlinear_arith);
        }
    }
    assert(clamp_norm_coord(s * 65536) == s * 65536);
    assert(r.direction.z@ * (s * 65536) + r.direction.x@ * 0 + r.direction.y@ * 0 < 0)
        by (nonlinear_arith)
        requires
            s == 1 || s == -1,
            r.direction.z@ == -s * 65536,
            r.direction.x@ == 0,
            r.direction.y@ == 0,
    ;
    assert(sh.front);
}

} // verus!
