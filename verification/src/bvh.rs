//! Bounding-volume hierarchy construction, and the equivalence of
//! traversal with brute force.
//!
//! Building sorts the objects along a cycling axis by the minimum corner
//! of their boxes, splits at the median and recurses; any split yields a
//! correct tree, and the proofs here show it: intersecting the built
//! tree finds a hit exactly when testing every object linearly does, at
//! the same parameter and point.

use crate::fixed::{fdiv, lemma_fdiv_ordered, lemma_sqrt_floor_exists, SCALE};
use crate::object::{
    sample_free, shifted_ray, spec_bbox, spec_obj_hit, spec_sphere_hit, wf_object, Object, SpecHit,
};
use crate::ray::{ray_at_x, ray_at_y, ray_at_z, Ray};
use crate::material::Material;
use crate::vec3::dotw;
use crate::world::{all_sample_free, spec_list_hit, wf_objects};
use vstd::prelude::*;

verus! {

/// The sequence of primitive objects reachable from a tree, in traversal
/// order: hierarchy nodes flatten to their children's leaves, everything
/// else is its own single leaf.
pub open spec fn leaves(o: Object) -> Seq<Object>
    decreases o,
{
    match o {
        Object::BvhNode { left, right, bbox } => leaves(*left) + leaves(*right),
        _ => seq![o],
    }
}

/// A deterministic hit always lies within the queried range.
pub proof fn lemma_spec_hit_in_range(o: Object, r: Ray, tmin: int, tmax: int)
    ensures
        spec_obj_hit(o, r, tmin, tmax) matches Some(sh) ==> tmin <= sh.t <= tmax,
    decreases o,
{
    match o {
        Object::Translate { offset, inner } => {
            lemma_spec_hit_in_range(*inner, shifted_ray(r, offset), tmin, tmax);
        },
        Object::BvhNode { left, right, bbox } => {
            lemma_spec_hit_in_range(*left, r, tmin, tmax);
            lemma_spec_hit_in_range(*right, r, tmin, tmax);
            match spec_obj_hit(*left, r, tmin, tmax) {
                Some(lh) => {
                    lemma_spec_hit_in_range(*right, r, tmin, lh.t);
                },
                None => {},
            }
        },
        _ => {},
    }
}

/// Narrowing the upper end of the query range keeps a nearer hit and
/// discards a farther one, and nothing else changes: hit testing is
/// consistent under the range narrowing that traversal performs.
pub proof fn lemma_obj_hit_narrow(o: Object, r: Ray, tmin: int, tmax: int, tmax2: int)
    requires
        tmax2 <= tmax,
        dotw(r.direction, r.direction) > 0,
    ensures
        spec_obj_hit(o, r, tmin, tmax2) == match spec_obj_hit(o, r, tmin, tmax) {
            Some(h) => if h.t <= tmax2 {
                Some(h)
            } else {
                None::<SpecHit>
            },
            None => None::<SpecHit>,
        },
    decreases o,
{
    match o {
        Object::Sphere(s) => {
            lemma_sphere_hit_narrow(
                s.center.x@,
                s.center.y@,
                s.center.z@,
                s.radius@,
                s.material,
                r,
                tmin,
                tmax,
                tmax2,
            );
        },
        Object::MovingSphere(s) => {
            let f = crate::object::moving_lerp_s(s.center0.time@, s.center1.time@, r.time@);
            lemma_sphere_hit_narrow(
                crate::object::moving_center_coord(s.center0.pos.x@, s.center1.pos.x@, f),
                crate::object::moving_center_coord(s.center0.pos.y@, s.center1.pos.y@, f),
                crate::object::moving_center_coord(s.center0.pos.z@, s.center1.pos.z@, f),
                s.radius@,
                s.material,
                r,
                tmin,
                tmax,
                tmax2,
            );
        },
        Object::Translate { offset, inner } => {
            lemma_obj_hit_narrow(*inner, shifted_ray(r, offset), tmin, tmax, tmax2);
        },
        Object::ConstantMedium { boundary, density, phase } => {},
        Object::BvhNode { left, right, bbox } => {
            lemma_obj_hit_narrow(*left, r, tmin, tmax, tmax2);
            match spec_obj_hit(*left, r, tmin, tmax) {
                Some(lh) => {
                    lemma_spec_hit_in_range(*left, r, tmin, tmax);
                    if lh.t <= tmax2 {
                        // Both sides narrow the right child to the same range.
                        lemma_spec_hit_in_range(*right, r, tmin, lh.t);
                    } else {
                        lemma_obj_hit_narrow(*right, r, tmin, tmax, tmax2);
                        lemma_obj_hit_narrow(*right, r, tmin, tmax, lh.t);
                        match spec_obj_hit(*right, r, tmin, tmax) {
                            Some(rh) => {
                                if rh.t <= tmax2 {
                                } else {
                                }
                            },
                            None => {},
                        }
                    }
                },
                None => {
                    lemma_obj_hit_narrow(*right, r, tmin, tmax, tmax2);
                },
            }
        },
    }
}

/// Folding over a concatenation first folds the front, then folds the
/// back against the range narrowed by the front's best hit.
pub proof fn lemma_list_hit_append(s1: Seq<Object>, s2: Seq<Object>, r: Ray, tmin: int, tmax: int)
    ensures
        spec_list_hit(s1 + s2, r, tmin, tmax) == ({
            let a = spec_list_hit(s1, r, tmin, tmax);
            let mid = match a {
                Some(h) => h.t,
                None => tmax,
            };
            match spec_list_hit(s2, r, tmin, mid) {
                Some(h2) => Some(h2),
                None => a,
            }
        }),
    decreases s2.len(),
{
    if s2.len() == 0 {
        assert(s1 + s2 =~= s1);
    } else {
        assert((s1 + s2).drop_last() =~= s1 + s2.drop_last());
        assert((s1 + s2).last() == s2.last());
        lemma_list_hit_append(s1, s2.drop_last(), r, tmin, tmax);
    }
}

/// Intersecting a hierarchy equals folding over its leaves in traversal
/// order: the stored boxes and the pruning they allow change nothing.
pub proof fn lemma_bvh_leaves_equiv(o: Object, r: Ray, tmin: int, tmax: int)
    ensures
        spec_obj_hit(o, r, tmin, tmax) == spec_list_hit(leaves(o), r, tmin, tmax),
    decreases o,
{
    match o {
        Object::BvhNode { left, right, bbox } => {
            lemma_bvh_leaves_equiv(*left, r, tmin, tmax);
            lemma_list_hit_append(leaves(*left), leaves(*right), r, tmin, tmax);
            match spec_obj_hit(*left, r, tmin, tmax) {
                Some(lh) => {
                    lemma_bvh_leaves_equiv(*right, r, tmin, lh.t);
                },
                None => {
                    lemma_bvh_leaves_equiv(*right, r, tmin, tmax);
                },
            }
        },
        _ => {
            let s = leaves(o);
            assert(s.len() == 1);
            assert(s.drop_last() =~= Seq::<Object>::empty());
            assert(s.last() == o);
            assert(spec_list_hit(Seq::<Object>::empty(), r, tmin, tmax) is None);
            assert(spec_list_hit(s, r, tmin, tmax) == spec_obj_hit(o, r, tmin, tmax));
        },
    }
}

/// The parameter of a fold's best hit, `None` when nothing is hit.
pub open spec fn hit_t_opt(o: Option<SpecHit>) -> Option<int> {
    match o {
        Some(h) => Some(h.t),
        None => None,
    }
}

/// The smaller of two optional parameters, favouring presence.
pub open spec fn min_opt(a: Option<int>, b: Option<int>) -> Option<int> {
    match (a, b) {
        (Some(x), Some(y)) => if x <= y {
            Some(x)
        } else {
            Some(y)
        },
        (Some(x), None) => Some(x),
        (None, Some(y)) => Some(y),
        (None, None) => None,
    }
}

/// The least hit parameter over a list, each object tested against the
/// full range independently.
pub open spec fn min_hit_t(s: Seq<Object>, r: Ray, tmin: int, tmax: int) -> Option<int>
    decreases s.len(),
{
    if s.len() == 0 {
        None
    } else {
        min_opt(
            min_hit_t(s.drop_last(), r, tmin, tmax),
            hit_t_opt(spec_obj_hit(s.last(), r, tmin, tmax)),
        )
    }
}

/// The fold with range narrowing finds exactly the least hit parameter
/// over independent full-range tests.
pub proof fn lemma_list_hit_is_min(s: Seq<Object>, r: Ray, tmin: int, tmax: int)
    requires
        dotw(r.direction, r.direction) > 0,
    ensures
        hit_t_opt(spec_list_hit(s, r, tmin, tmax)) == min_hit_t(s, r, tmin, tmax),
    decreases s.len(),
{
    if s.len() != 0 {
        lemma_list_hit_is_min(s.drop_last(), r, tmin, tmax);
        let prev = spec_list_hit(s.drop_last(), r, tmin, tmax);
        match prev {
            Some(ph) => {
                lemma_spec_hit_in_range_list(s.drop_last(), r, tmin, tmax);
                lemma_obj_hit_narrow(s.last(), r, tmin, tmax, ph.t);
                lemma_spec_hit_in_range(s.last(), r, tmin, ph.t);
            },
            None => {
                lemma_spec_hit_in_range(s.last(), r, tmin, tmax);
            },
        }
    }
}

/// A fold's best hit lies within the queried range.
pub proof fn lemma_spec_hit_in_range_list(s: Seq<Object>, r: Ray, tmin: int, tmax: int)
    ensures
        spec_list_hit(s, r, tmin, tmax) matches Some(h) ==> tmin <= h.t <= tmax,
    decreases s.len(),
{
    if s.len() != 0 {
        lemma_spec_hit_in_range_list(s.drop_last(), r, tmin, tmax);
        match spec_list_hit(s.drop_last(), r, tmin, tmax) {
            Some(ph) => {
                lemma_spec_hit_in_range(s.last(), r, tmin, ph.t);
            },
            None => {
                lemma_spec_hit_in_range(s.last(), r, tmin, tmax);
            },
        }
    }
}

/// Removing any one element and re-accounting for it leaves the least
/// hit parameter unchanged.
proof fn lemma_min_hit_remove(s: Seq<Object>, j: int, r: Ray, tmin: int, tmax: int)
    requires
        0 <= j < s.len(),
    ensures
        min_hit_t(s, r, tmin, tmax) == min_opt(
            min_hit_t(s.remove(j), r, tmin, tmax),
            hit_t_opt(spec_obj_hit(s[j], r, tmin, tmax)),
        ),
    decreases s.len(),
{
    if j == s.len() - 1 {
        assert(s.remove(j) =~= s.drop_last());
    } else {
        assert(s.remove(j).drop_last() =~= s.drop_last().remove(j));
        assert(s.remove(j).last() == s.last());
        lemma_min_hit_remove(s.drop_last(), j, r, tmin, tmax);
    }
}

/// The least hit parameter depends only on which objects are present,
/// not on their order.
pub proof fn lemma_min_hit_permutation(s1: Seq<Object>, s2: Seq<Object>, r: Ray, tmin: int, tmax: int)
    requires
        s1.to_multiset() == s2.to_multiset(),
    ensures
        min_hit_t(s1, r, tmin, tmax) == min_hit_t(s2, r, tmin, tmax),
    decreases s1.len(),
{
    broadcast use vstd::seq_lib::group_seq_properties;

    s1.to_multiset_ensures();
    s2.to_multiset_ensures();
    if s1.len() == 0 {
        assert(s2.to_multiset().len() == 0);
        assert(s2 =~= Seq::<Object>::empty());
    } else {
        let x = s1.last();
        assert(s1.drop_last().push(x) =~= s1);
        assert(s1.drop_last().push(x).to_multiset() =~= s1.drop_last().to_multiset().insert(x));
        assert(s2.to_multiset().count(x) > 0);
        assert(s2.contains(x));
        let j = choose|j: int| 0 <= j < s2.len() && s2[j] == x;
        assert(s2.remove(j).to_multiset() =~= s2.to_multiset().remove(x));
        assert(s1.drop_last().to_multiset() =~= s2.remove(j).to_multiset()) by {
            assert(s1.to_multiset().remove(x) =~= s1.drop_last().to_multiset());
        }
        lemma_min_hit_permutation(s1.drop_last(), s2.remove(j), r, tmin, tmax);
        lemma_min_hit_remove(s2, j, r, tmin, tmax);
    }
}

/// A deterministic hit's point is the ray evaluated at its parameter,
/// whatever object produced it.
pub proof fn lemma_obj_hit_point(o: Object, r: Ray, tmin: int, tmax: int)
    ensures
        spec_obj_hit(o, r, tmin, tmax) matches Some(sh) ==> sh.px == ray_at_x(r, sh.t) && sh.py
            == ray_at_y(r, sh.t) && sh.pz == ray_at_z(r, sh.t),
    decreases o,
{
    match o {
        Object::Translate { offset, inner } => {
            lemma_obj_hit_point(*inner, shifted_ray(r, offset), tmin, tmax);
        },
        Object::BvhNode { left, right, bbox } => {
            lemma_obj_hit_point(*left, r, tmin, tmax);
            lemma_obj_hit_point(*right, r, tmin, tmax);
            match spec_obj_hit(*left, r, tmin, tmax) {
                Some(lh) => {
                    lemma_obj_hit_point(*right, r, tmin, lh.t);
                },
                None => {},
            }
        },
        _ => {},
    }
}

/// A fold's best hit point is the ray evaluated at its parameter.
pub proof fn lemma_list_hit_point(s: Seq<Object>, r: Ray, tmin: int, tmax: int)
    ensures
        spec_list_hit(s, r, tmin, tmax) matches Some(h) ==> h.px == ray_at_x(r, h.t) && h.py
            == ray_at_y(r, h.t) && h.pz == ray_at_z(r, h.t),
    decreases s.len(),
{
    if s.len() != 0 {
        lemma_list_hit_point(s.drop_last(), r, tmin, tmax);
        match spec_list_hit(s.drop_last(), r, tmin, tmax) {
            Some(ph) => {
                lemma_obj_hit_point(s.last(), r, tmin, ph.t);
            },
            None => {
                lemma_obj_hit_point(s.last(), r, tmin, tmax);
            },
        }
    }
}

/// Intersecting through a hierarchy built over a scene is equivalent to
/// testing every object of the scene linearly and keeping the nearest
/// hit: both find a hit on exactly the same rays, at the same parameter
/// and therefore the same point. The tree's leaves may come in any
/// order: only which objects are present matters.
pub proof fn lemma_bvh_brute_force_equivalence(
    root: Object,
    objs: Seq<Object>,
    r: Ray,
    tmin: int,
    tmax: int,
)
    requires
        leaves(root).to_multiset() == objs.to_multiset(),
        dotw(r.direction, r.direction) > 0,
    ensures
        match (spec_obj_hit(root, r, tmin, tmax), spec_list_hit(objs, r, tmin, tmax)) {
            (Some(a), Some(b)) => a.t == b.t && a.px == b.px && a.py == b.py && a.pz == b.pz,
            (None, None) => true,
            _ => false,
        },
{
    lemma_bvh_leaves_equiv(root, r, tmin, tmax);
    lemma_list_hit_is_min(leaves(root), r, tmin, tmax);
    lemma_list_hit_is_min(objs, r, tmin, tmax);
    lemma_min_hit_permutation(leaves(root), objs, r, tmin, tmax);
    lemma_list_hit_point(leaves(root), r, tmin, tmax);
    lemma_list_hit_point(objs, r, tmin, tmax);
}

/// The minimum corner coordinate of an object's bounding box along the
/// chosen axis: the sort key for the median split.
pub open spec fn spec_axis_key(o: Object, axis: int) -> int {
    let b = spec_bbox(o);
    if axis == 0 {
        b.min.x@
    } else if axis == 1 {
        b.min.y@
    } else {
        b.min.z@
    }
}

/// The objects of a sequence are ordered by their box corner along the
/// axis.
pub open spec fn sorted_by_axis(s: Seq<Object>, axis: int) -> bool {
    forall|a: int, b: int|
        0 <= a < b < s.len() ==> spec_axis_key(#[trigger] s[a], axis) <= spec_axis_key(
            #[trigger] s[b],
            axis,
        )
}

/// The minimum corner coordinate of an object's bounding box along the
/// chosen axis, used as the sort key for the median split.
fn axis_key(o: &Object, axis: usize) -> (k: i64)
    requires
        wf_object(*o),
    ensures
        k as int == spec_axis_key(*o, axis as int),
{
    let b = o.bounding_box();
    if axis == 0 {
        b.min.x.raw
    } else if axis == 1 {
        b.min.y.raw
    } else {
        b.min.z.raw
    }
}

/// Sort the objects by the minimum corner of their boxes along `axis`,
/// by insertion: the same objects come back, ordered by their key.
fn sort_by_axis(v: &mut Vec<Object>, axis: usize)
    requires
        wf_objects(old(v)@),
    ensures
        final(v)@.to_multiset() == old(v)@.to_multiset(),
        final(v)@.len() == old(v)@.len(),
        wf_objects(final(v)@),
        sorted_by_axis(final(v)@, axis as int),
{
    let n: usize = v.len();
    let mut i: usize = 1;
    while i < n
        invariant
            n == v@.len(),
            1 <= i,
            i <= n || n <= 1,
            v@.to_multiset() == old(v)@.to_multiset(),
            wf_objects(v@),
            n <= 1 || sorted_by_axis(v@.take(i as int), axis as int),
        decreases n - i,
    {
        let mut j: usize = i;
        proof {
            assert forall|a: int, b: int|
                0 <= a < b <= i as int && b != j as int implies spec_axis_key(
                #[trigger] v@[a],
                axis as int,
            ) <= spec_axis_key(#[trigger] v@[b], axis as int) by {
                assert(v@.take(i as int)[a] == v@[a]);
                assert(v@.take(i as int)[b] == v@[b]);
            }
        }
        while j > 0 && axis_key(&v[j - 1], axis) > axis_key(&v[j], axis)
            invariant
                n == v@.len(),
                0 <= j <= i < n,
                v@.to_multiset() == old(v)@.to_multiset(),
                wf_objects(v@),
                forall|a: int, b: int|
                    0 <= a < b <= i as int && b != j as int ==> spec_axis_key(
                        #[trigger] v@[a],
                        axis as int,
                    ) <= spec_axis_key(#[trigger] v@[b], axis as int),
            decreases j,
        {
            proof {
                broadcast use vstd::multiset::group_multiset_axioms;

                v@.to_multiset_ensures();
                let ms = v@.to_multiset();
                let x = v@[j as int];
                assert(v@.contains(x));
                assert(ms.count(x) > 0);
                assert(v@.remove(j as int).to_multiset() =~= ms.remove(x));
                vstd::seq_lib::to_multiset_insert(v@.remove(j as int), j as int - 1, x);
                assert(ms.remove(x).insert(x) =~= ms);
            }
            let ghost old_seq = v@;
            let x = v.remove(j);
            proof {
                assert(wf_objects(v@)) by {
                    assert(forall|k: int|
                        0 <= k < v@.len() ==> #[trigger] v@[k] == if k < j as int {
                            old_seq[k]
                        } else {
                            old_seq[k + 1]
                        });
                }
            }
            let ghost mid_seq = v@;
            v.insert(j - 1, x);
            proof {
                assert(wf_objects(v@)) by {
                    assert(forall|k: int|
                        0 <= k < v@.len() ==> #[trigger] v@[k] == if k < j as int - 1 {
                            mid_seq[k]
                        } else if k == j as int - 1 {
                            x
                        } else {
                            mid_seq[k - 1]
                        });
                }
            }
            j = j - 1;
        }
        proof {
            assert forall|a: int, b: int|
                0 <= a < b <= i as int implies spec_axis_key(#[trigger] v@[a], axis as int)
                    <= spec_axis_key(#[trigger] v@[b], axis as int) by {
                if b == j as int {
                    assert(j > 0);
                    assert(spec_axis_key(v@[j as int - 1], axis as int) <= spec_axis_key(
                        v@[j as int],
                        axis as int,
                    ));
                    if a < j as int - 1 {
                        assert(spec_axis_key(v@[a], axis as int) <= spec_axis_key(
                            v@[j as int - 1],
                            axis as int,
                        ));
                    }
                }
            }
            assert forall|a: int, b: int|
                0 <= a < b < v@.take(i as int + 1).len() implies spec_axis_key(
                #[trigger] v@.take(i as int + 1)[a],
                axis as int,
            ) <= spec_axis_key(#[trigger] v@.take(i as int + 1)[b], axis as int) by {
                assert(v@.take(i as int + 1)[a] == v@[a]);
                assert(v@.take(i as int + 1)[b] == v@[b]);
            }
        }
        i = i + 1;
    }
    proof {
        if n > 1 {
            assert(v@.take(n as int) =~= v@);
        }
    }
}

/// Build a bounding-volume hierarchy over a non-empty scene: sort along
/// a cycling axis by box corner, split at the median, recurse, and wrap
/// the halves in a node whose box is the merge of theirs. The result is
/// a single object holding exactly the given objects as leaves, in some
/// order.
pub fn build(objects: Vec<Object>, axis: usize) -> (root: Object)
    requires
        objects@.len() >= 1,
        wf_objects(objects@),
        forall|i: int|
            0 <= i < objects@.len() ==> !(#[trigger] objects@[i] is BvhNode),
    ensures
        wf_object(root),
        leaves(root).to_multiset() == objects@.to_multiset(),
        all_sample_free(objects@) ==> sample_free(root),
    decreases objects@.len(),
{
    broadcast use vstd::seq_lib::lemma_multiset_commutative;

    let ghost orig = objects@;
    let mut objects = objects;
    let n: usize = objects.len();
    if n == 1 {
        let o = objects.pop().unwrap();
        proof {
            assert(orig =~= Seq::<Object>::empty().push(o));
            Seq::<Object>::empty().to_multiset_ensures();
            assert(leaves(o) =~= seq![o]);
            assert(seq![o] =~= Seq::<Object>::empty().push(o));
        }
        return o;
    }
    sort_by_axis(&mut objects, axis % 3);
    let mid: usize = n / 2;
    let ghost sorted_seq = objects@;
    proof {
        lemma_multiset_contains_transfer(sorted_seq, orig);
        assert(forall|i: int|
            0 <= i < sorted_seq.len() ==> #[trigger] sorted_seq.contains(sorted_seq[i]));
        assert forall|i: int| 0 <= i < sorted_seq.len() implies !(#[trigger] sorted_seq[i]
            is BvhNode) && (all_sample_free(orig) ==> sample_free(sorted_seq[i])) by {
            assert(orig.contains(sorted_seq[i]));
            let k = choose|k: int| 0 <= k < orig.len() && orig[k] == sorted_seq[i];
        }
    }
    let right_vec = objects.split_off(mid);
    proof {
        assert(sorted_seq =~= objects@ + right_vec@);
        assert(forall|i: int|
            0 <= i < objects@.len() ==> #[trigger] objects@[i] == sorted_seq[i]);
        assert(forall|i: int|
            0 <= i < right_vec@.len() ==> #[trigger] right_vec@[i] == sorted_seq[i + mid as int]);
    }
    let next_axis: usize = if axis >= 2 {
        0
    } else {
        axis + 1
    };
    let ghost left_seq = objects@;
    let ghost right_seq = right_vec@;
    let left = build(objects, next_axis);
    let right = build(right_vec, next_axis);
    let lb = left.bounding_box();
    let rb = right.bounding_box();
    let bbox = lb.merge(rb);
    let root = Object::BvhNode { left: Box::new(left), right: Box::new(right), bbox };
    proof {
        assert(leaves(root) =~= leaves(left) + leaves(right));
        assert((leaves(left) + leaves(right)).to_multiset() == leaves(left).to_multiset().add(
            leaves(right).to_multiset(),
        ));
        assert((left_seq + right_seq).to_multiset() == left_seq.to_multiset().add(
            right_seq.to_multiset(),
        ));
        assert(leaves(root).to_multiset() =~= orig.to_multiset());
        if all_sample_free(orig) {
            assert(all_sample_free(left_seq));
            assert(all_sample_free(right_seq));
        }
    }
    root
}

/// Sequences with equal multisets hold exactly the same objects.
proof fn lemma_multiset_contains_transfer(s1: Seq<Object>, s2: Seq<Object>)
    requires
        s1.to_multiset() == s2.to_multiset(),
    ensures
        forall|x: Object| s1.contains(x) == s2.contains(x),
{
    s1.to_multiset_ensures();
    s2.to_multiset_ensures();
    assert forall|x: Object| s1.contains(x) == s2.contains(x) by {
        assert(s1.contains(x) <==> s1.to_multiset().count(x) > 0);
        assert(s2.contains(x) <==> s2.to_multiset().count(x) > 0);
    }
}

/// A fold's best hit is the full-range hit of one of the objects in the
/// list.
pub proof fn lemma_list_hit_witness(s: Seq<Object>, r: Ray, tmin: int, tmax: int)
    requires
        dotw(r.direction, r.direction) > 0,
    ensures
        spec_list_hit(s, r, tmin, tmax) matches Some(h) ==> exists|i: int|
            0 <= i < s.len() && spec_obj_hit(#[trigger] s[i], r, tmin, tmax) == Some(h),
    decreases s.len(),
{
    if s.len() != 0 {
        lemma_list_hit_witness(s.drop_last(), r, tmin, tmax);
        let prev = spec_list_hit(s.drop_last(), r, tmin, tmax);
        let cur_max = match prev {
            Some(ph) => ph.t,
            None => tmax,
        };
        match prev {
            Some(ph) => {
                lemma_spec_hit_in_range_list(s.drop_last(), r, tmin, tmax);
                lemma_obj_hit_narrow(s.last(), r, tmin, tmax, ph.t);
            },
            None => {},
        }
        match spec_obj_hit(s.last(), r, tmin, cur_max) {
            Some(h2) => {
                assert(spec_obj_hit(s[s.len() - 1], r, tmin, tmax) == Some(h2));
            },
            None => {
                if prev is Some {
                    let h = prev->Some_0;
                    let i = choose|i: int|
                        0 <= i < s.drop_last().len() && spec_obj_hit(
                            #[trigger] s.drop_last()[i],
                            r,
                            tmin,
                            tmax,
                        ) == Some(h);
                    assert(spec_obj_hit(s[i], r, tmin, tmax) == Some(h));
                }
            },
        }
    }
}

/// The full form of the equivalence: when no two scene objects are
/// struck at the same parameter with different records, hierarchy
/// traversal and brute force return identical hits: the same parameter,
/// point, normal, face and material.
pub proof fn lemma_bvh_brute_force_equivalence_full(
    root: Object,
    objs: Seq<Object>,
    r: Ray,
    tmin: int,
    tmax: int,
)
    requires
        leaves(root).to_multiset() == objs.to_multiset(),
        dotw(r.direction, r.direction) > 0,
        forall|i: int, j: int|
            0 <= i < objs.len() && 0 <= j < objs.len() && (spec_obj_hit(
                #[trigger] objs[i],
                r,
                tmin,
                tmax,
            ) matches Some(a) && spec_obj_hit(#[trigger] objs[j], r, tmin, tmax) matches Some(b)
                && a.t == b.t) ==> spec_obj_hit(objs[i], r, tmin, tmax) == spec_obj_hit(
                objs[j],
                r,
                tmin,
                tmax,
            ),
    ensures
        spec_obj_hit(root, r, tmin, tmax) == spec_list_hit(objs, r, tmin, tmax),
{
    lemma_bvh_brute_force_equivalence(root, objs, r, tmin, tmax);
    let a = spec_obj_hit(root, r, tmin, tmax);
    let b = spec_list_hit(objs, r, tmin, tmax);
    if a is Some {
        let ls = leaves(root);
        lemma_bvh_leaves_equiv(root, r, tmin, tmax);
        lemma_list_hit_witness(ls, r, tmin, tmax);
        lemma_list_hit_witness(objs, r, tmin, tmax);
        let ha = a->Some_0;
        let hb = b->Some_0;
        let iw = choose|i: int|
            0 <= i < ls.len() && spec_obj_hit(#[trigger] ls[i], r, tmin, tmax) == Some(ha);
        let jw = choose|j: int|
            0 <= j < objs.len() && spec_obj_hit(#[trigger] objs[j], r, tmin, tmax) == Some(hb);
        ls.to_multiset_ensures();
        objs.to_multiset_ensures();
        assert(ls.contains(ls[iw]));
        assert(objs.contains(ls[iw])) by {
            assert(objs.to_multiset().count(ls[iw]) > 0);
        }
        let k = choose|k: int| 0 <= k < objs.len() && objs[k] == ls[iw];
        assert(spec_obj_hit(objs[k], r, tmin, tmax) == Some(ha));
        assert(Some(ha) == Some(hb));
    }
}

/// Range narrowing for the sphere model: the candidate roots do not
/// depend on the range, only their acceptance does.
proof fn lemma_sphere_hit_narrow(
    cx: int,
    cy: int,
    cz: int,
    rad: int,
    material: Material,
    r: Ray,
    tmin: int,
    tmax: int,
    tmax2: int,
)
    requires
        tmax2 <= tmax,
        dotw(r.direction, r.direction) > 0,
    ensures
        spec_sphere_hit(cx, cy, cz, rad, material, r, tmin, tmax2) == match spec_sphere_hit(
            cx,
            cy,
            cz,
            rad,
            material,
            r,
            tmin,
            tmax,
        ) {
            Some(h) => if h.t <= tmax2 {
                Some(h)
            } else {
                None::<SpecHit>
            },
            None => None::<SpecHit>,
        },
{
    let dx = r.direction.x@;
    let dy = r.direction.y@;
    let dz = r.direction.z@;
    let ocx = r.origin.x@ - cx;
    let ocy = r.origin.y@ - cy;
    let ocz = r.origin.z@ - cz;
    let aw = dx * dx + dy * dy + dz * dz;
    let hb = ocx * dx + ocy * dy + ocz * dz;
    let cw = ocx * ocx + ocy * ocy + ocz * ocz - rad * rad;
    let disc = hb * hb - aw * cw;
    if disc >= 0 {
        let sq = crate::fixed::sqrt_floor(disc);
        lemma_sqrt_floor_exists(disc);
        lemma_fdiv_ordered((-hb - sq) * (SCALE as int), (-hb + sq) * (SCALE as int), aw);
        assert((-hb - sq) * (SCALE as int) <= (-hb + sq) * (SCALE as int)) by (nonlinear_arith)
            requires sq >= 0;
    }
}

} // verus!
