//! Hit records: the result of a successful ray/object intersection.

use crate::fixed::Fx;
use crate::material::{wf_material, Material};
use crate::ray::Ray;
use crate::vec3::{dotw, vec_bounded, Point3, Vec3, LIM_ORIGIN};
use vstd::prelude::*;

verus! {

/// The record of an intersection: the point struck, the unit-ish surface
/// normal oriented against the incoming ray, the material struck, the ray
/// parameter of the hit, and whether the ray met the front face.
#[derive(Clone, Copy, Debug, PartialEq, Eq, Structural)]
pub struct HitRecord {
    pub p: Point3,
    pub norm: Vec3,
    pub material: Material,
    pub t: Fx,
    pub front_face: bool,
}

/// A well-formed record: bounded point and parameter, a usable normal and
/// a well-formed material.
pub open spec fn wf_hit(h: HitRecord) -> bool {
    &&& vec_bounded(h.p, LIM_ORIGIN as int)
    &&& vec_bounded(h.norm, 0x20000)
    &&& -0x40000000 <= h.t@ <= 0x40000000
    &&& wf_material(h.material)
}

/// The normal stored in a record built from `outward_normal` against
/// `ray`: the outward normal itself on a front-face hit, its reverse
/// otherwise.
pub open spec fn oriented_normal(ray: Ray, outward_normal: Vec3, norm: Vec3) -> bool {
    if dotw(ray.direction, outward_normal) < 0 {
        norm == outward_normal
    } else {
        norm.x@ == -outward_normal.x@ && norm.y@ == -outward_normal.y@ && norm.z@
            == -outward_normal.z@
    }
}

impl HitRecord {
    /// Build a record, resolving the normal orientation against the ray:
    /// the stored normal always points against the incoming direction.
    pub fn new(ray: &Ray, p: Point3, outward_normal: Vec3, material: Material, t: Fx) -> (r:
        HitRecord)
        requires
            vec_bounded(ray.direction, 0x40000000000000),
            vec_bounded(outward_normal, 0x40000000000000),
        ensures
            r.p == p,
            r.material == material,
            r.t == t,
            r.front_face == (dotw(ray.direction, outward_normal) < 0),
            oriented_normal(*ray, outward_normal, r.norm),
    {
        let d: i128 = ray.direction.dot_wide(outward_normal);
        let front_face: bool = d < 0;
        let norm: Vec3 = if front_face {
            outward_normal
        } else {
            outward_normal.neg()
        };
        HitRecord { p, norm, material, t, front_face }
    }

    /// Re-orient the stored normal against `ray`, as `new` does at
    /// construction.
    pub fn set_face_normal(&mut self, ray: &Ray, outward_normal: Vec3)
        requires
            vec_bounded(ray.direction, 0x40000000000000),
            vec_bounded(outward_normal, 0x40000000000000),
        ensures
            final(self).p == old(self).p,
            final(self).material == old(self).material,
            final(self).t == old(self).t,
            final(self).front_face == (dotw(ray.direction, outward_normal) < 0),
            oriented_normal(*ray, outward_normal, final(self).norm),
    {
        let d: i128 = ray.direction.dot_wide(outward_normal);
        self.front_face = d < 0;
        self.norm = if self.front_face {
            outward_normal
        } else {
            outward_normal.neg()
        };
    }

    /// The point struck.
    pub fn p(&self) -> (r: Point3)
        ensures
            r == self.p,
    {
        self.p
    }

    /// The oriented surface normal.
    pub fn norm(&self) -> (r: Vec3)
        ensures
            r == self.norm,
    {
        self.norm
    }

    /// The ray parameter of the hit.
    pub fn t(&self) -> (r: Fx)
        ensures
            r == self.t,
    {
        self.t
    }

    /// Whether the front face was struck.
    pub fn front_face(&self) -> (r: bool)
        ensures
            r == self.front_face,
    {
        self.front_face
    }

    /// The material struck.
    pub fn material(&self) -> (r: Material)
        ensures
            r == self.material,
    {
        self.material
    }
}

} // verus!
