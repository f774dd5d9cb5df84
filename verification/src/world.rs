//! Brute-force hit testing over a flat list of objects.

use crate::fixed::Fx;
use crate::hit::{wf_hit, HitRecord};
use crate::object::{hit_matches, sample_free, spec_obj_hit, wf_object, Object, SpecHit};
use crate::ray::{wf_ray, Ray};
use vstd::prelude::*;

verus! {

/// A scene as a flat list of objects.
pub type World = Vec<Object>;

/// Every object in the sequence is well-formed.
pub open spec fn wf_objects(s: Seq<Object>) -> bool {
    forall|i: int| 0 <= i < s.len() ==> wf_object(#[trigger] s[i])
}

/// Every object in the sequence is sample-free.
pub open spec fn all_sample_free(s: Seq<Object>) -> bool {
    forall|i: int| 0 <= i < s.len() ==> sample_free(#[trigger] s[i])
}

/// The fold of deterministic hits over a list, in order, narrowing the
/// upper bound of the range to the closest hit found so far: the result
/// is the nearest hit over the whole list, with ties resolved in favour
/// of the later object.
pub open spec fn spec_list_hit(s: Seq<Object>, r: Ray, tmin: int, tmax: int) -> Option<SpecHit>
    decreases s.len(),
{
    if s.len() == 0 {
        None
    } else {
        let prev = spec_list_hit(s.drop_last(), r, tmin, tmax);
        let cur_max = match prev {
            Some(h) => h.t,
            None => tmax,
        };
        match spec_obj_hit(s.last(), r, tmin, cur_max) {
            Some(h2) => Some(h2),
            None => prev,
        }
    }
}

/// The nearest intersection of `ray` with any object in the list within
/// `[t_min, t_max]`, testing every object and keeping the closest.
pub fn world_hit(world: &World, ray: &Ray, t_min: Fx, t_max: Fx) -> (r: Option<HitRecord>)
    requires
        wf_objects(world@),
        wf_ray(*ray),
        -0x40000000 <= t_min@ <= 0x40000000,
        -0x40000000 <= t_max@ <= 0x40000000,
    ensures
        r matches Some(h) ==> wf_hit(h) && t_min@ <= h.t@ <= t_max@,
        all_sample_free(world@) ==> hit_matches(r, spec_list_hit(world@, *ray, t_min@, t_max@)),
{
    let mut best: Option<HitRecord> = None;
    let mut closest: Fx = t_max;
    let n: usize = world.len();
    let mut i: usize = 0;
    while i < n
        invariant
            n == world@.len(),
            0 <= i <= n,
            wf_objects(world@),
            wf_ray(*ray),
            -0x40000000 <= t_min@ <= 0x40000000,
            -0x40000000 <= t_max@ <= 0x40000000,
            best matches Some(h) ==> wf_hit(h) && t_min@ <= h.t@ <= t_max@ && closest == h.t,
            best is None ==> closest == t_max,
            all_sample_free(world@) ==> hit_matches(
                best,
                spec_list_hit(world@.take(i as int), *ray, t_min@, t_max@),
            ),
        decreases n - i,
    {
        proof {
            assert(world@.take(i as int + 1).drop_last() =~= world@.take(i as int));
            assert(world@.take(i as int + 1).last() == world@[i as int]);
        }
        match world[i].hit(ray, t_min, closest) {
            Some(h) => {
                closest = h.t;
                best = Some(h);
            },
            None => {},
        }
        i = i + 1;
    }
    proof {
        assert(world@.take(n as int) =~= world@);
    }
    best
}

} // verus!
