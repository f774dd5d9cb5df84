//! Axis-aligned bounding boxes and the slab test.
//!
//! The slab test here compares exact rational interval endpoints by
//! cross-multiplication, so it never divides and never rounds. Its contract
//! is the completeness direction that the hierarchy traversal relies on:
//! whenever some parameter `t` within the queried range puts the ray's
//! point inside the box, the test reports a hit.

use crate::fixed::Fx;
use crate::ray::Ray;
use crate::vec3::{vec_bounded, Point3, LIM_BOX, LIM_DIR, LIM_ORIGIN};
use vstd::prelude::*;

verus! {

/// An axis-aligned box, the component-wise interval `[min, max]`.
#[derive(Clone, Copy, Debug, PartialEq, Eq, Structural)]
pub struct Aabb {
    pub min: Point3,
    pub max: Point3,
}

/// A well-formed box: ordered corners within the box coordinate limit.
pub open spec fn wf_aabb(b: Aabb) -> bool {
    &&& b.min.x@ <= b.max.x@
    &&& b.min.y@ <= b.max.y@
    &&& b.min.z@ <= b.max.z@
    &&& vec_bounded(b.min, LIM_BOX as int)
    &&& vec_bounded(b.max, LIM_BOX as int)
}

/// The component-wise enclosing box of two boxes.
pub open spec fn spec_merge(a: Aabb, b: Aabb) -> Aabb {
    Aabb {
        min: Point3 {
            x: if a.min.x@ <= b.min.x@ { a.min.x } else { b.min.x },
            y: if a.min.y@ <= b.min.y@ { a.min.y } else { b.min.y },
            z: if a.min.z@ <= b.min.z@ { a.min.z } else { b.min.z },
        },
        max: Point3 {
            x: if a.max.x@ >= b.max.x@ { a.max.x } else { b.max.x },
            y: if a.max.y@ >= b.max.y@ { a.max.y } else { b.max.y },
            z: if a.max.z@ >= b.max.z@ { a.max.z } else { b.max.z },
        },
    }
}

/// The exact constraint that one axis of the slab test stands for: at
/// parameter `t` (a raw fixed-point value), the coordinate `o + t * d`
/// lies within `[bmin, bmax]`, stated without rounding by scaling both
/// sides by the fixed-point unit.
pub open spec fn axis_ok(o: int, d: int, bmin: int, bmax: int, t: int) -> bool {
    65536 * (bmin - o) <= t * d <= 65536 * (bmax - o)
}

/// The point of `r` at parameter `t` lies inside `b`, exactly.
pub open spec fn hit_in_box_at(b: Aabb, r: Ray, t: int) -> bool {
    &&& axis_ok(r.origin.x@, r.direction.x@, b.min.x@, b.max.x@, t)
    &&& axis_ok(r.origin.y@, r.direction.y@, b.min.y@, b.max.y@, t)
    &&& axis_ok(r.origin.z@, r.direction.z@, b.min.z@, b.max.z@, t)
}

/// `a/ad <= b/bd` for positive denominators, by cross-multiplication.
pub open spec fn frac_le(an: int, ad: int, bn: int, bd: int) -> bool {
    an * bd <= bn * ad
}

/// One axis constraint at the rational parameter `tn / td` (`td` must be
/// positive), scaled through by the denominator.
pub open spec fn axis_ok_frac(o: int, d: int, bmin: int, bmax: int, tn: int, td: int) -> bool {
    65536 * (bmin - o) * td <= tn * d <= 65536 * (bmax - o) * td
}

/// The point of `r` at the rational parameter `tn / td` lies inside `b`,
/// exactly.
pub open spec fn hit_in_box_frac(b: Aabb, r: Ray, tn: int, td: int) -> bool {
    &&& axis_ok_frac(r.origin.x@, r.direction.x@, b.min.x@, b.max.x@, tn, td)
    &&& axis_ok_frac(r.origin.y@, r.direction.y@, b.min.y@, b.max.y@, tn, td)
    &&& axis_ok_frac(r.origin.z@, r.direction.z@, b.min.z@, b.max.z@, tn, td)
}

/// The fraction order is transitive.
proof fn lemma_frac_le_trans(an: int, ad: int, bn: int, bd: int, cn: int, cd: int)
    requires
        ad >= 1,
        bd >= 1,
        cd >= 1,
        frac_le(an, ad, bn, bd),
        frac_le(bn, bd, cn, cd),
    ensures
        frac_le(an, ad, cn, cd),
{
    assert(an * cd <= cn * ad) by (nonlinear_arith)
        requires
            an * bd <= bn * ad,
            bn * cd <= cn * bd,
            ad >= 1,
            bd >= 1,
            cd >= 1,
    ;
}

/// Scaling by a nonnegative factor preserves order.
proof fn lemma_scale_mono(x: int, y: int, f: int)
    requires
        x <= y,
        f >= 0,
    ensures
        x * f <= y * f,
{
    assert(x * f <= y * f) by (nonlinear_arith)
        requires
            x <= y,
            f >= 0,
    ;
}

/// Merging is monotone: a point inside a box is inside any merge with it.
pub proof fn lemma_merge_covers(a: Aabb, b: Aabb, r: Ray, t: int)
    ensures
        hit_in_box_at(a, r, t) ==> hit_in_box_at(spec_merge(a, b), r, t),
        hit_in_box_at(b, r, t) ==> hit_in_box_at(spec_merge(a, b), r, t),
{
}

/// Merging is monotone for rational parameters too: together with the
/// slab test's two-sided contract, a reported hit on a box forces one
/// on any merge containing it.
pub proof fn lemma_merge_covers_frac(a: Aabb, b: Aabb, r: Ray, tn: int, td: int)
    requires
        td >= 1,
    ensures
        hit_in_box_frac(a, r, tn, td) ==> hit_in_box_frac(spec_merge(a, b), r, tn, td),
        hit_in_box_frac(b, r, tn, td) ==> hit_in_box_frac(spec_merge(a, b), r, tn, td),
{
    let m = spec_merge(a, b);
    lemma_scale_mono(65536 * (m.min.x@ - r.origin.x@), 65536 * (a.min.x@ - r.origin.x@), td);
    lemma_scale_mono(65536 * (m.min.y@ - r.origin.y@), 65536 * (a.min.y@ - r.origin.y@), td);
    lemma_scale_mono(65536 * (m.min.z@ - r.origin.z@), 65536 * (a.min.z@ - r.origin.z@), td);
    lemma_scale_mono(65536 * (a.max.x@ - r.origin.x@), 65536 * (m.max.x@ - r.origin.x@), td);
    lemma_scale_mono(65536 * (a.max.y@ - r.origin.y@), 65536 * (m.max.y@ - r.origin.y@), td);
    lemma_scale_mono(65536 * (a.max.z@ - r.origin.z@), 65536 * (m.max.z@ - r.origin.z@), td);
    lemma_scale_mono(65536 * (m.min.x@ - r.origin.x@), 65536 * (b.min.x@ - r.origin.x@), td);
    lemma_scale_mono(65536 * (m.min.y@ - r.origin.y@), 65536 * (b.min.y@ - r.origin.y@), td);
    lemma_scale_mono(65536 * (m.min.z@ - r.origin.z@), 65536 * (b.min.z@ - r.origin.z@), td);
    lemma_scale_mono(65536 * (b.max.x@ - r.origin.x@), 65536 * (m.max.x@ - r.origin.x@), td);
    lemma_scale_mono(65536 * (b.max.y@ - r.origin.y@), 65536 * (m.max.y@ - r.origin.y@), td);
    lemma_scale_mono(65536 * (b.max.z@ - r.origin.z@), 65536 * (m.max.z@ - r.origin.z@), td);
}

/// Merging boxes is commutative.
pub proof fn lemma_merge_comm(a: Aabb, b: Aabb)
    ensures
        spec_merge(a, b) == spec_merge(b, a),
{
}

/// Merging boxes is associative.
pub proof fn lemma_merge_assoc(a: Aabb, b: Aabb, c: Aabb)
    ensures
        spec_merge(spec_merge(a, b), c) == spec_merge(a, spec_merge(b, c)),
{
}

/// The running parameter interval of the slab test, as a pair of exact
/// fractions `lo_n / lo_d` and `hi_n / hi_d` with positive denominators.
struct Slab {
    lo_n: i128,
    lo_d: i128,
    hi_n: i128,
    hi_d: i128,
}

/// Denominators are positive and all entries small enough that the
/// cross-multiplied comparisons stay inside `i128`.
spec fn slab_wf(s: Slab) -> bool {
    &&& 1 <= s.lo_d as int <= 0x100000
    &&& 1 <= s.hi_d as int <= 0x100000
    &&& -0x200000000000000 <= s.lo_n as int <= 0x200000000000000
    &&& -0x200000000000000 <= s.hi_n as int <= 0x200000000000000
}

/// The rational parameter `tn / td` lies within the slab interval.
spec fn in_slab_frac(s: Slab, tn: int, td: int) -> bool {
    frac_le(s.lo_n as int, s.lo_d as int, tn, td) && frac_le(tn, td, s.hi_n as int, s.hi_d as int)
}

/// Narrow the slab interval by the constraint of one axis: the new
/// interval holds exactly the parameters of the old one that satisfy the
/// axis. `None` means no parameter at all can satisfy the axis.
fn slab_axis(o: Fx, d: Fx, bmin: Fx, bmax: Fx, s: Slab) -> (r: Option<Slab>)
    requires
        slab_wf(s),
        -(LIM_ORIGIN as int) <= o@ <= LIM_ORIGIN as int,
        -(LIM_DIR as int) <= d@ <= LIM_DIR as int,
        -(LIM_BOX as int) <= bmin@ <= LIM_BOX as int,
        -(LIM_BOX as int) <= bmax@ <= LIM_BOX as int,
    ensures
        match r {
            Some(s2) => slab_wf(s2) && forall|tn: int, td: int|
                td >= 1 ==> (#[trigger] in_slab_frac(s2, tn, td) <==> in_slab_frac(s, tn, td)
                    && axis_ok_frac(o@, d@, bmin@, bmax@, tn, td)),
            None => forall|tn: int, td: int|
                td >= 1 ==> !(in_slab_frac(s, tn, td) && #[trigger] axis_ok_frac(
                    o@,
                    d@,
                    bmin@,
                    bmax@,
                    tn,
                    td,
                )),
        },
{
    if d.raw == 0 {
        if o.raw < bmin.raw || o.raw > bmax.raw {
            proof {
                assert forall|tn: int, td: int|
                    td >= 1 implies !(in_slab_frac(s, tn, td) && #[trigger] axis_ok_frac(
                    o@,
                    d@,
                    bmin@,
                    bmax@,
                    tn,
                    td,
                )) by {
                    if axis_ok_frac(o@, d@, bmin@, bmax@, tn, td) {
                        assert(false) by (nonlinear_arith)
                            requires
                                d@ == 0,
                                bmin@ > o@ || bmax@ < o@,
                                td >= 1,
                                65536 * (bmin@ - o@) * td <= tn * d@,
                                tn * d@ <= 65536 * (bmax@ - o@) * td,
                        ;
                    }
                }
            }
            None
        } else {
            proof {
                assert forall|tn: int, td: int|
                    td >= 1 implies (#[trigger] in_slab_frac(s, tn, td) <==> in_slab_frac(
                    s,
                    tn,
                    td,
                ) && axis_ok_frac(o@, d@, bmin@, bmax@, tn, td)) by {
                    assert(axis_ok_frac(o@, d@, bmin@, bmax@, tn, td)) by (nonlinear_arith)
                        requires
                            d@ == 0,
                            bmin@ <= o@ <= bmax@,
                            td >= 1,
                    ;
                }
            }
            Some(s)
        }
    } else {
        let a_n: i128 = 65536i128 * ((bmin.raw as i128) - (o.raw as i128));
        let b_n: i128 = 65536i128 * ((bmax.raw as i128) - (o.raw as i128));
        let (low_n, up_n, den): (i128, i128, i128) = if d.raw > 0 {
            (a_n, b_n, d.raw as i128)
        } else {
            (-b_n, -a_n, -(d.raw as i128))
        };
        proof {
            crate::fixed::lemma_abs_mul_le(s.lo_n as int, den as int, 0x200000000000000, 0x100000);
            crate::fixed::lemma_abs_mul_le(s.hi_n as int, den as int, 0x200000000000000, 0x100000);
            crate::fixed::lemma_abs_mul_le(low_n as int, s.lo_d as int, 0x200000000000000, 0x100000);
            crate::fixed::lemma_abs_mul_le(up_n as int, s.hi_d as int, 0x200000000000000, 0x100000);
        }
        let keep_lo: bool = s.lo_n * den >= low_n * s.lo_d;
        let (nlo_n, nlo_d): (i128, i128) = if keep_lo {
            (s.lo_n, s.lo_d)
        } else {
            (low_n, den)
        };
        let keep_hi: bool = s.hi_n * den <= up_n * s.hi_d;
        let (nhi_n, nhi_d): (i128, i128) = if keep_hi {
            (s.hi_n, s.hi_d)
        } else {
            (up_n, den)
        };
        let s2 = Slab { lo_n: nlo_n, lo_d: nlo_d, hi_n: nhi_n, hi_d: nhi_d };
        proof {
            assert forall|tn: int, td: int|
                td >= 1 implies (#[trigger] in_slab_frac(s2, tn, td) <==> in_slab_frac(s, tn, td)
                    && axis_ok_frac(o@, d@, bmin@, bmax@, tn, td)) by {
                let lon: int = low_n as int;
                let upn: int = up_n as int;
                let dn: int = den as int;
                // The axis constraint is the fraction interval [low, up]
                // over the common positive denominator.
                assert(axis_ok_frac(o@, d@, bmin@, bmax@, tn, td) <==> (frac_le(lon, dn, tn, td)
                    && frac_le(tn, td, upn, dn))) by (nonlinear_arith)
                    requires
                        d@ != 0,
                        td >= 1,
                        d@ > 0 ==> lon == 65536 * (bmin@ - o@) && upn == 65536 * (bmax@ - o@)
                            && dn == d@,
                        d@ < 0 ==> lon == -(65536 * (bmax@ - o@)) && upn == -(65536 * (bmin@
                            - o@)) && dn == -d@,
                ;
                if in_slab_frac(s2, tn, td) {
                    // The new lower end is the larger of the old one and
                    // the axis's, so both are below the parameter; the
                    // upper end symmetrically.
                    if keep_lo {
                        lemma_frac_le_trans(lon, dn, s.lo_n as int, s.lo_d as int, tn, td);
                    } else {
                        lemma_frac_le_trans(s.lo_n as int, s.lo_d as int, lon, dn, tn, td);
                    }
                    if keep_hi {
                        lemma_frac_le_trans(tn, td, s.hi_n as int, s.hi_d as int, upn, dn);
                    } else {
                        lemma_frac_le_trans(tn, td, upn, dn, s.hi_n as int, s.hi_d as int);
                    }
                }
            }
        }
        Some(s2)
    }
}

impl Aabb {
    /// The component-wise enclosing box of `self` and `other`.
    pub fn merge(self, other: Aabb) -> (r: Aabb)
        ensures
            r == spec_merge(self, other),
    {
        Aabb {
            min: Point3 {
                x: self.min.x.min_of(other.min.x),
                y: self.min.y.min_of(other.min.y),
                z: self.min.z.min_of(other.min.z),
            },
            max: Point3 {
                x: self.max.x.max_of(other.max.x),
                y: self.max.y.max_of(other.max.y),
                z: self.max.z.max_of(other.max.z),
            },
        }
    }

    /// The slab test: whether the exact rational parameter interval in
    /// which the ray is inside the box meets `[t_start, t_end]`.
    ///
    /// The contract gives both directions: a reported miss means no
    /// parameter in the queried range places the ray inside the box
    /// (the completeness bounding-volume traversal needs), and a
    /// reported hit exhibits a rational parameter in the range whose
    /// point lies inside the box. The comparisons are inclusive, so a
    /// boundary-grazing overlap counts as a hit: pruning by a box can
    /// then never hide an intersection that the closed-interval sphere
    /// test accepts.
    pub fn hit(&self, ray: &Ray, t_start: Fx, t_end: Fx) -> (res: bool)
        requires
            wf_aabb(*self),
            crate::ray::wf_ray(*ray),
            -0x40000000 <= t_start@ <= 0x40000000,
            -0x40000000 <= t_end@ <= 0x40000000,
        ensures
            forall|t: int|
                t_start@ <= t <= t_end@ && #[trigger] hit_in_box_at(*self, *ray, t) ==> res,
            forall|tn: int, td: int|
                td >= 1 && t_start@ * td <= tn && tn <= t_end@ * td && #[trigger] hit_in_box_frac(
                    *self,
                    *ray,
                    tn,
                    td,
                ) ==> res,
            res ==> exists|tn: int, td: int|
                td >= 1 && t_start@ * td <= tn && tn <= t_end@ * td && #[trigger] hit_in_box_frac(
                    *self,
                    *ray,
                    tn,
                    td,
                ),
    {
        let s0 = Slab {
            lo_n: t_start.raw as i128,
            lo_d: 1i128,
            hi_n: t_end.raw as i128,
            hi_d: 1i128,
        };
        let s1 = match slab_axis(ray.origin.x, ray.direction.x, self.min.x, self.max.x, s0) {
            Some(s) => s,
            None => {
                proof {
                    assert forall|tn: int, td: int|
                        td >= 1 && t_start@ * td <= tn && tn <= t_end@ * td implies !(
                    #[trigger] hit_in_box_frac(*self, *ray, tn, td)) by {
                        if hit_in_box_frac(*self, *ray, tn, td) {
                            assert(in_slab_frac(s0, tn, td)) by {
                                assert(t_start@ * td <= tn * 1 && tn * 1 <= t_end@ * td)
                                    by (nonlinear_arith)
                                    requires
                                        t_start@ * td <= tn,
                                        tn <= t_end@ * td,
                                ;
                            }
                        }
                    }
                    assert forall|t: int|
                        t_start@ <= t <= t_end@ implies !(#[trigger] hit_in_box_at(
                        *self,
                        *ray,
                        t,
                    )) by {
                        if hit_in_box_at(*self, *ray, t) {
                            assert(hit_in_box_frac(*self, *ray, t, 1)) by (nonlinear_arith)
                                requires
                                    hit_in_box_at(*self, *ray, t),
                            ;
                            assert(t_start@ * 1 <= t && t <= t_end@ * 1);
                        }
                    }
                }
                return false;
            },
        };
        let s2 = match slab_axis(ray.origin.y, ray.direction.y, self.min.y, self.max.y, s1) {
            Some(s) => s,
            None => {
                proof {
                    assert forall|tn: int, td: int|
                        td >= 1 && t_start@ * td <= tn && tn <= t_end@ * td implies !(
                    #[trigger] hit_in_box_frac(*self, *ray, tn, td)) by {
                        if hit_in_box_frac(*self, *ray, tn, td) {
                            assert(in_slab_frac(s0, tn, td)) by {
                                assert(t_start@ * td <= tn * 1 && tn * 1 <= t_end@ * td)
                                    by (nonlinear_arith)
                                    requires
                                        t_start@ * td <= tn,
                                        tn <= t_end@ * td,
                                ;
                            }
                            assert(in_slab_frac(s1, tn, td));
                        }
                    }
                    assert forall|t: int|
                        t_start@ <= t <= t_end@ implies !(#[trigger] hit_in_box_at(
                        *self,
                        *ray,
                        t,
                    )) by {
                        if hit_in_box_at(*self, *ray, t) {
                            assert(hit_in_box_frac(*self, *ray, t, 1)) by (nonlinear_arith)
                                requires
                                    hit_in_box_at(*self, *ray, t),
                            ;
                            assert(t_start@ * 1 <= t && t <= t_end@ * 1);
                        }
                    }
                }
                return false;
            },
        };
        let s3 = match slab_axis(ray.origin.z, ray.direction.z, self.min.z, self.max.z, s2) {
            Some(s) => s,
            None => {
                proof {
                    assert forall|tn: int, td: int|
                        td >= 1 && t_start@ * td <= tn && tn <= t_end@ * td implies !(
                    #[trigger] hit_in_box_frac(*self, *ray, tn, td)) by {
                        if hit_in_box_frac(*self, *ray, tn, td) {
                            assert(in_slab_frac(s0, tn, td)) by {
                                assert(t_start@ * td <= tn * 1 && tn * 1 <= t_end@ * td)
                                    by (nonlinear_arith)
                                    requires
                                        t_start@ * td <= tn,
                                        tn <= t_end@ * td,
                                ;
                            }
                            assert(in_slab_frac(s1, tn, td));
                            assert(in_slab_frac(s2, tn, td));
                        }
                    }
                    assert forall|t: int|
                        t_start@ <= t <= t_end@ implies !(#[trigger] hit_in_box_at(
                        *self,
                        *ray,
                        t,
                    )) by {
                        if hit_in_box_at(*self, *ray, t) {
                            assert(hit_in_box_frac(*self, *ray, t, 1)) by (nonlinear_arith)
                                requires
                                    hit_in_box_at(*self, *ray, t),
                            ;
                            assert(t_start@ * 1 <= t && t <= t_end@ * 1);
                        }
                    }
                }
                return false;
            },
        };
        proof {
            crate::fixed::lemma_abs_mul_le(s3.lo_n as int, s3.hi_d as int, 0x200000000000000, 0x100000);
            crate::fixed::lemma_abs_mul_le(s3.hi_n as int, s3.lo_d as int, 0x200000000000000, 0x100000);
        }
        let nonempty: bool = s3.lo_n * s3.hi_d <= s3.hi_n * s3.lo_d;
        proof {
            let ln = s3.lo_n as int;
            let ld = s3.lo_d as int;
            let hn = s3.hi_n as int;
            let hd = s3.hi_d as int;
            assert forall|tn: int, td: int|
                td >= 1 && t_start@ * td <= tn && tn <= t_end@ * td && #[trigger] hit_in_box_frac(
                    *self,
                    *ray,
                    tn,
                    td,
                ) implies nonempty by {
                assert(in_slab_frac(s0, tn, td)) by {
                    assert(t_start@ * td <= tn * 1 && tn * 1 <= t_end@ * td) by (nonlinear_arith)
                        requires
                            t_start@ * td <= tn,
                            tn <= t_end@ * td,
                    ;
                }
                assert(in_slab_frac(s1, tn, td));
                assert(in_slab_frac(s2, tn, td));
                assert(in_slab_frac(s3, tn, td));
                assert(ln * hd <= hn * ld) by (nonlinear_arith)
                    requires
                        ln * td <= tn * ld,
                        tn * hd <= hn * td,
                        1 <= ld,
                        1 <= hd,
                        1 <= td,
                ;
            }
            assert forall|t: int|
                t_start@ <= t <= t_end@ && #[trigger] hit_in_box_at(*self, *ray, t)
                    implies nonempty by {
                assert(hit_in_box_frac(*self, *ray, t, 1)) by (nonlinear_arith)
                    requires
                        hit_in_box_at(*self, *ray, t),
                ;
                assert(t_start@ * 1 <= t && t <= t_end@ * 1);
            }
            if nonempty {
                let tn: int = s3.lo_n as int;
                let td: int = s3.lo_d as int;
                assert(in_slab_frac(s3, tn, td)) by {
                    assert(frac_le(tn, td, tn, td));
                    assert(frac_le(tn, td, s3.hi_n as int, s3.hi_d as int));
                }
                assert(in_slab_frac(s2, tn, td));
                assert(in_slab_frac(s1, tn, td));
                assert(in_slab_frac(s0, tn, td));
                assert(hit_in_box_frac(*self, *ray, tn, td));
                assert(t_start@ * td <= tn && tn <= t_end@ * td) by {
                    assert(t_start@ * td <= tn * 1 && tn * 1 <= t_end@ * td);
                    assert(tn * 1 == tn) by (nonlinear_arith);
                }
            }
        }
        nonempty
    }
}

} // verus!
