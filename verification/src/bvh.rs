//! The bounding-volume hierarchy: a binary tree over the scene's
//! primitives, built once and traversed per ray.
//!
//! Every node exclusively owns its children.  Traversal is proved to
//! report exactly the nearest hit among the primitives in the tree, so a
//! scene queried through the BVH answers as a brute-force scan of the
//! same primitives would.

use vstd::prelude::*;
use crate::fixed::ONE;
use crate::vector::in_range;
use crate::aabb::AABB;
use crate::aabb::box_covers;
use crate::aabb::box_hit_spec;
use crate::aabb::lemma_union_covers;
use crate::aabb::lemma_covers_at;
use crate::ray::Ray;
use crate::material::Material;
use crate::material::material_wf;
use crate::material::HitRecord;
use crate::hittable::Hittable;
use crate::hittable::HittableObjects;
use crate::hittable::object_hit_spec;
use crate::hittable::lemma_object_hit_shape;
use crate::hittable::lemma_object_hit_monotone;
use crate::hittable::all_solid;
use crate::hittable::all_wf;
use crate::hittable::no_hit;
use crate::hittable::nearest_hit;
use crate::hittable::hittable_wf;
use crate::fixed::COORD_LIMIT;
use crate::rng::Randomizer;

verus! {

/// A node of the hierarchy: empty, one primitive, or two subtrees whose
/// primitives its box covers.
pub enum BvhNode {
    Empty,
    Leaf { bbox: AABB, object: Box<Hittable> },
    Node { bbox: AABB, left: Box<BvhNode>, right: Box<BvhNode> },
}

/// The box covers the cached box of every primitive of the slice.
pub open spec fn covers_all(b: AABB, prims: Seq<Hittable>) -> bool {
    forall|i: int| 0 <= i < prims.len() ==> box_covers(b, (#[trigger] prims[i]).bbox)
}

impl BvhNode {
    /// The primitives beneath this node, in tree order.
    pub open spec fn prims(self) -> Seq<Hittable>
        decreases self,
    {
        match self {
            BvhNode::Empty => Seq::empty(),
            BvhNode::Leaf { object, .. } => seq![*object],
            BvhNode::Node { left, right, .. } => left.prims() + right.prims(),
        }
    }

    /// Structural soundness: every node's box covers the boxes of all
    /// primitives beneath it.
    pub open spec fn wf(self) -> bool
        decreases self,
    {
        match self {
            BvhNode::Empty => true,
            BvhNode::Leaf { bbox, object } => box_covers(bbox, object.bbox),
            BvhNode::Node { bbox, left, right } => {
                &&& left.wf()
                &&& right.wf()
                &&& covers_all(bbox, left.prims())
                &&& covers_all(bbox, right.prims())
            },
        }
    }

    /// The empty hierarchy.
    pub fn empty() -> (t: BvhNode)
        ensures
            t.prims().len() == 0,
            t.wf(),
    {
        BvhNode::Empty
    }

    /// This node's cached bounding box; the empty node reports the
    /// empty box.
    pub fn bounding_box(&self) -> (b: AABB)
        ensures
            b == (match *self {
                BvhNode::Empty => crate::aabb::AABB {
                    x: crate::aabb::pad_ivl(
                        crate::interval::Interval {
                            min: crate::fixed::T_LIMIT as i64,
                            max: (-crate::fixed::T_LIMIT) as i64,
                        },
                    ),
                    y: crate::aabb::pad_ivl(
                        crate::interval::Interval {
                            min: crate::fixed::T_LIMIT as i64,
                            max: (-crate::fixed::T_LIMIT) as i64,
                        },
                    ),
                    z: crate::aabb::pad_ivl(
                        crate::interval::Interval {
                            min: crate::fixed::T_LIMIT as i64,
                            max: (-crate::fixed::T_LIMIT) as i64,
                        },
                    ),
                },
                BvhNode::Leaf { bbox, .. } => bbox,
                BvhNode::Node { bbox, .. } => bbox,
            }),
    {
        match self {
            BvhNode::Empty => AABB::empty(),
            BvhNode::Leaf { bbox, .. } => *bbox,
            BvhNode::Node { bbox, .. } => *bbox,
        }
    }

    /// A leaf holding one primitive.
    pub fn new_from_object(hittable: Hittable) -> (t: BvhNode)
        ensures
            t.prims() == seq![hittable],
            t.wf(),
    {
        let bbox = hittable.bounding_box();
        BvhNode::Leaf { bbox, object: Box::new(hittable) }
    }

    /// Whether the first box starts lower on the given axis: the
    /// ordering the build sorts by.
    pub fn box_compare(a: &Hittable, b: &Hittable, axis_index: u64) -> (r: bool)
        ensures
            r == (crate::aabb::spec_axis_of(a.bbox, axis_index as int).min
                < crate::aabb::spec_axis_of(b.bbox, axis_index as int).min),
    {
        let ai = a.bounding_box().axis_interval(axis_index);
        let bi = b.bounding_box().axis_interval(axis_index);
        ai.min < bi.min
    }

    pub fn box_x_compare(a: &Hittable, b: &Hittable) -> (r: bool)
        ensures
            r == (crate::aabb::spec_axis_of(a.bbox, 0).min < crate::aabb::spec_axis_of(
                b.bbox,
                0,
            ).min),
    {
        Self::box_compare(a, b, 0)
    }

    pub fn box_y_compare(a: &Hittable, b: &Hittable) -> (r: bool)
        ensures
            r == (crate::aabb::spec_axis_of(a.bbox, 1).min < crate::aabb::spec_axis_of(
                b.bbox,
                1,
            ).min),
    {
        Self::box_compare(a, b, 1)
    }

    pub fn box_z_compare(a: &Hittable, b: &Hittable) -> (r: bool)
        ensures
            r == (crate::aabb::spec_axis_of(a.bbox, 2).min < crate::aabb::spec_axis_of(
                b.bbox,
                2,
            ).min),
    {
        Self::box_compare(a, b, 2)
    }

    /// The recursive halving pass over a range that orders neighbouring
    /// pairs by box start; it permutes the range and touches nothing
    /// outside it.
    pub fn sort_slice(list: &mut Vec<Hittable>, start: usize, end: usize, axis: u64)
        requires
            start <= end <= old(list)@.len(),
        ensures
            final(list)@.len() == old(list)@.len(),
            final(list)@.to_multiset() == old(list)@.to_multiset(),
            forall|i: int|
                0 <= i < start || end <= i < old(list)@.len() ==> #[trigger] final(list)@[i]
                    == old(list)@[i],
        decreases end - start,
    {
        let object_span = end - start;
        if object_span <= 1 {
            return ;
        } else if object_span == 2 {
            let swap = {
                let left = &list[start];
                let right = &list[start + 1];
                Self::box_compare(left, right, axis)
            };
            if swap {
                let a = list.remove(start);
                list.insert(start + 1, a);
                proof {
                    broadcast use vstd::seq_lib::group_to_multiset_ensures;

                    let s0 = old(list)@;
                    let s1 = s0.remove(start as int);
                    assert(s1.to_multiset() == s0.to_multiset().remove(s0[start as int]));
                    assert(s1.insert(start as int + 1, s0[start as int]).to_multiset()
                        == s1.to_multiset().insert(s0[start as int])) by {
                        vstd::seq_lib::to_multiset_insert(s1, start as int + 1, s0[start as int]);
                    };
                    assert(s0.to_multiset().remove(s0[start as int]).insert(s0[start as int])
                        =~= s0.to_multiset()) by {
                        assert(s0.to_multiset().count(s0[start as int]) > 0) by {
                            assert(s0.contains(s0[start as int]));
                        };
                    };
                }
            }
        } else {
            let mid = start + object_span / 2;
            Self::sort_slice(list, start, mid, axis);
            Self::sort_slice(list, mid, end, axis);
        }
    }

    /// Builds the hierarchy over an owned list of primitives: union the
    /// boxes, split along the longest axis, recurse.  The tree holds
    /// exactly the primitives given, and each node's box covers its
    /// subtree.
    pub fn new_from_objects(list: Vec<Hittable>) -> (t: BvhNode)
        requires
            crate::hittable::all_bbox_bounded(list@, 0x200_0000_0000),
        ensures
            t.wf(),
            t.prims().to_multiset() == list@.to_multiset(),
            t.prims().len() == list@.len(),
        decreases list@.len(),
    {
        let mut list = list;
        let ghost orig = list@;
        if list.len() == 0 {
            proof {
                broadcast use vstd::seq_lib::group_to_multiset_ensures;

                assert(list@.to_multiset() =~= Seq::<Hittable>::empty().to_multiset());
            }
            return BvhNode::Empty;
        }
        let mut bbox = AABB::empty();
        let mut idx: usize = 0;
        while idx < list.len()
            invariant
                idx <= list@.len(),
                crate::hittable::all_bbox_bounded(list@, 0x200_0000_0000),
                crate::interval::ivl_bounded(bbox.x, 0x1000_0000_0000),
                crate::interval::ivl_bounded(bbox.y, 0x1000_0000_0000),
                crate::interval::ivl_bounded(bbox.z, 0x1000_0000_0000),
                forall|j: int| 0 <= j < idx ==> box_covers(bbox, (#[trigger] list@[j]).bbox),
            decreases list@.len() - idx,
        {
            let ob = list[idx].bounding_box();
            let newbox = AABB::new_from_aabb(&bbox, &ob);
            proof {
                lemma_union_covers(bbox, ob);
            }
            bbox = newbox;
            idx = idx + 1;
        }
        let axis = bbox.longest_axis();
        if list.len() == 1 {
            let h = match list.pop() {
                Some(h) => h,
                None => unreached(),
            };
            proof {
                broadcast use vstd::seq_lib::group_to_multiset_ensures;

                assert(orig =~= seq![h]);
            }
            let t = Self::new_from_object(h);
            return t;
        }
        if list.len() == 2 {
            let h2 = match list.pop() {
                Some(h) => h,
                None => unreached(),
            };
            let h1 = match list.pop() {
                Some(h) => h,
                None => unreached(),
            };
            let left = Self::new_from_object(h1);
            let right = Self::new_from_object(h2);
            let lb = left.bounding_box();
            proof {
                broadcast use vstd::seq_lib::group_to_multiset_ensures;

                vstd::seq_lib::lemma_multiset_commutative(seq![h1], seq![h2]);
                assert(seq![h1] + seq![h2] =~= seq![h1, h2]);
                assert(orig =~= seq![h1, h2]);
            }
            return BvhNode::Node {
                bbox,
                left: Box::new(left),
                right: Box::new(right),
            };
        }
        let len = list.len();
        let ghost before_sort = list@;
        Self::sort_slice(&mut list, 0, len, axis);
        let ghost sorted_seq = list@;
        proof {
            lemma_multiset_pred_transfer(before_sort, sorted_seq);
        }
        let mid = len / 2;
        let right_vec = list.split_off(mid);
        let ghost left_seq = list@;
        let ghost right_seq = right_vec@;
        proof {
            assert(left_seq + right_seq =~= sorted_seq);
            lemma_multiset_pred_transfer_split(left_seq, right_seq);
        }
        let left = Box::new(Self::new_from_objects(list));
        let right = Box::new(Self::new_from_objects(right_vec));
        proof {
            broadcast use vstd::seq_lib::group_to_multiset_ensures;

            vstd::seq_lib::lemma_multiset_commutative(left.prims(), right.prims());
            vstd::seq_lib::lemma_multiset_commutative(left_seq, right_seq);
            assert(covers_all(bbox, sorted_seq)) by {
                lemma_covers_transfer(bbox, before_sort, sorted_seq);
            };
            lemma_covers_split(bbox, left_seq, right_seq);
            lemma_covers_transfer(bbox, left_seq, left.prims());
            lemma_covers_transfer(bbox, right_seq, right.prims());
        }
        BvhNode::Node { bbox, left, right }
    }

    /// Builds the hierarchy over a whole scene.
    pub fn new(world: HittableObjects) -> (t: BvhNode)
        requires
            crate::hittable::all_bbox_bounded(world.objects@, 0x200_0000_0000),
        ensures
            t.wf(),
            t.prims().to_multiset() == world.objects@.to_multiset(),
            t.prims().len() == world.objects@.len(),
    {
        Self::new_from_objects(world.objects)
    }
}

/// Sequences with equal multisets hold exactly the same elements, so a
/// per-element bound carries across a permutation.
pub proof fn lemma_multiset_pred_transfer(s1: Seq<Hittable>, s2: Seq<Hittable>)
    requires
        s1.to_multiset() == s2.to_multiset(),
        crate::hittable::all_bbox_bounded(s1, 0x200_0000_0000),
    ensures
        crate::hittable::all_bbox_bounded(s2, 0x200_0000_0000),
{
    broadcast use vstd::seq_lib::group_to_multiset_ensures;

    assert forall|i: int| 0 <= i < s2.len() implies {
        &&& crate::interval::ivl_bounded((#[trigger] s2[i]).bbox.x, 0x200_0000_0000)
        &&& crate::interval::ivl_bounded(s2[i].bbox.y, 0x200_0000_0000)
        &&& crate::interval::ivl_bounded(s2[i].bbox.z, 0x200_0000_0000)
    } by {
        assert(s2.contains(s2[i]));
        assert(s2.to_multiset().count(s2[i]) > 0);
        assert(s1.contains(s2[i]));
        let j = choose|j: int| 0 <= j < s1.len() && s1[j] == s2[i];
        assert(crate::interval::ivl_bounded(s1[j].bbox.x, 0x200_0000_0000));
    };
}

/// The box-bound predicate holds of both halves of a bounded list.
pub proof fn lemma_multiset_pred_transfer_split(l: Seq<Hittable>, r: Seq<Hittable>)
    requires
        crate::hittable::all_bbox_bounded(l + r, 0x200_0000_0000),
    ensures
        crate::hittable::all_bbox_bounded(l, 0x200_0000_0000),
        crate::hittable::all_bbox_bounded(r, 0x200_0000_0000),
{
    assert forall|i: int| 0 <= i < l.len() implies {
        &&& crate::interval::ivl_bounded((#[trigger] l[i]).bbox.x, 0x200_0000_0000)
        &&& crate::interval::ivl_bounded(l[i].bbox.y, 0x200_0000_0000)
        &&& crate::interval::ivl_bounded(l[i].bbox.z, 0x200_0000_0000)
    } by {
        assert((l + r)[i] == l[i]);
    };
    assert forall|i: int| 0 <= i < r.len() implies {
        &&& crate::interval::ivl_bounded((#[trigger] r[i]).bbox.x, 0x200_0000_0000)
        &&& crate::interval::ivl_bounded(r[i].bbox.y, 0x200_0000_0000)
        &&& crate::interval::ivl_bounded(r[i].bbox.z, 0x200_0000_0000)
    } by {
        assert((l + r)[l.len() + i] == r[i]);
    };
}

/// A box that covers every element of one arrangement covers every
/// element of any rearrangement with the same multiset.
pub proof fn lemma_covers_transfer(b: AABB, s1: Seq<Hittable>, s2: Seq<Hittable>)
    requires
        s1.to_multiset() == s2.to_multiset(),
        covers_all(b, s1),
    ensures
        covers_all(b, s2),
{
    broadcast use vstd::seq_lib::group_to_multiset_ensures;

    assert forall|i: int| 0 <= i < s2.len() implies box_covers(
        b,
        (#[trigger] s2[i]).bbox,
    ) by {
        assert(s2.contains(s2[i]));
        assert(s2.to_multiset().count(s2[i]) > 0);
        assert(s1.contains(s2[i]));
        let j = choose|j: int| 0 <= j < s1.len() && s1[j] == s2[i];
        assert(box_covers(b, s1[j].bbox));
    };
}

/// Covering every element of a concatenation covers both halves.
pub proof fn lemma_covers_split(b: AABB, l: Seq<Hittable>, r: Seq<Hittable>)
    requires
        covers_all(b, l + r),
    ensures
        covers_all(b, l),
        covers_all(b, r),
{
    assert forall|i: int| 0 <= i < l.len() implies box_covers(b, (#[trigger] l[i]).bbox) by {
        assert((l + r)[i] == l[i]);
    };
    assert forall|i: int| 0 <= i < r.len() implies box_covers(b, (#[trigger] r[i]).bbox) by {
        assert((l + r)[l.len() + i] == r[i]);
    };
}


impl BvhNode {
    /// The nearest hit beneath this node.  For a well-formed tree of
    /// solid primitives this answers exactly as a linear scan of
    /// `prims()` would: the slab test prunes a subtree only when no
    /// primitive beneath it can hit, because every solid hit lies inside
    /// its primitive's box and every node's box covers those boxes.
    pub fn hit<'a>(&'a self, ray: &Ray, tmin: i64, tmax: i64, rng: &mut Randomizer) -> (r:
        Option<(HitRecord, &'a Material)>)
        ensures
            self.wf() && all_solid(self.prims()) ==> (match r {
                None => no_hit(self.prims(), *ray, tmin as int, tmax as int),
                Some(pair) => nearest_hit(
                    self.prims(),
                    *ray,
                    tmin as int,
                    tmax as int,
                    pair.0,
                    *pair.1,
                ),
            }),
            r matches Some(pair) ==> {
                &&& tmin <= pair.0.t <= tmax
                &&& in_range(pair.0.p, COORD_LIMIT as int)
                &&& in_range(pair.0.normal, 2 * ONE as int)
            },
            all_wf(self.prims()) ==> (r matches Some(pair) ==> material_wf(*pair.1)),
        decreases *self,
    {
        match self {
            BvhNode::Empty => None,
            BvhNode::Leaf { bbox, object } => {
                if !bbox.hit(ray, tmin, tmax) {
                    proof {
                        if self.wf() && all_solid(self.prims()) {
                            lemma_object_hit_shape(**object, *ray, tmin as int, tmax as int);
                            if object_hit_spec(**object, *ray, tmin as int, tmax as int)
                                is Some {
                                let rec = object_hit_spec(
                                    **object,
                                    *ray,
                                    tmin as int,
                                    tmax as int,
                                )->Some_0;
                                lemma_covers_at(*bbox, object.bbox, *ray, rec.t as int);
                                assert(crate::aabb::box_contains_at(*bbox, *ray, rec.t as int));
                                assert(box_hit_spec(*bbox, *ray, tmin as int, tmax as int));
                            }
                            assert forall|i: int| 0 <= i < self.prims().len() implies
                                object_hit_spec(
                                #[trigger] self.prims()[i],
                                *ray,
                                tmin as int,
                                tmax as int,
                            ) is None by {
                                assert(self.prims()[i] == **object);
                            };
                        }
                    }
                    return None;
                }
                let res = object.hit(ray, tmin, tmax, rng);
                proof {
                    if self.wf() && all_solid(self.prims()) {
                        assert(self.prims()[0] == **object);
                        match res {
                            None => {},
                            Some(pair) => {
                                assert(object_hit_spec(
                                    self.prims()[0],
                                    *ray,
                                    tmin as int,
                                    tmax as int,
                                ) == Some(pair.0));
                            },
                        }
                    }
                    if all_wf(self.prims()) {
                        assert(self.prims()[0] == **object);
                        assert(hittable_wf(**object));
                    }
                }
                res
            },
            BvhNode::Node { bbox, left, right } => {
                let ghost prims = self.prims();
                let ghost lp = left.prims();
                let ghost rp = right.prims();
                proof {
                    assert(prims == lp + rp);
                    assert forall|i: int| 0 <= i < lp.len() implies #[trigger] lp[i]
                        == prims[i] by {
                        assert((lp + rp)[i] == lp[i]);
                    };
                    assert forall|i: int| 0 <= i < rp.len() implies #[trigger] rp[i]
                        == prims[lp.len() + i] by {
                        assert((lp + rp)[lp.len() + i] == rp[i]);
                    };
                }
                if !bbox.hit(ray, tmin, tmax) {
                    proof {
                        if self.wf() && all_solid(prims) {
                            assert forall|i: int| 0 <= i < prims.len() implies
                                object_hit_spec(
                                #[trigger] prims[i],
                                *ray,
                                tmin as int,
                                tmax as int,
                            ) is None by {
                                lemma_object_hit_shape(prims[i], *ray, tmin as int, tmax as int);
                                if object_hit_spec(prims[i], *ray, tmin as int, tmax as int)
                                    is Some {
                                    let rec = object_hit_spec(
                                        prims[i],
                                        *ray,
                                        tmin as int,
                                        tmax as int,
                                    )->Some_0;
                                    assert(box_covers(*bbox, prims[i].bbox));
                                    lemma_covers_at(*bbox, prims[i].bbox, *ray, rec.t as int);
                                    assert(box_hit_spec(*bbox, *ray, tmin as int, tmax as int));
                                }
                            };
                        }
                    }
                    return None;
                }
                let lres = left.hit(ray, tmin, tmax, rng);
                let new_max: i64 = match &lres {
                    Some(pair) => pair.0.t,
                    None => tmax,
                };
                let rres = right.hit(ray, tmin, new_max, rng);
                proof {
                    if self.wf() && all_solid(prims) {
                        assert(all_solid(lp));
                        assert(all_solid(rp));
                        assert forall|j: int| 0 <= j < rp.len() implies (object_hit_spec(
                            #[trigger] rp[j],
                            *ray,
                            tmin as int,
                            new_max as int,
                        ) == (match object_hit_spec(rp[j], *ray, tmin as int, tmax as int) {
                            Some(rec) => if (rec.t as int) < new_max as int {
                                Some(rec)
                            } else {
                                None
                            },
                            None => None::<HitRecord>,
                        })) by {
                            lemma_object_hit_monotone(
                                rp[j],
                                *ray,
                                tmin as int,
                                tmax as int,
                                new_max as int,
                            );
                        };
                        match rres {
                            Some(rpair) => {
                                let wj = choose|j: int|
                                    0 <= j < rp.len() && object_hit_spec(
                                        #[trigger] rp[j],
                                        *ray,
                                        tmin as int,
                                        new_max as int,
                                    ) == Some(rpair.0) && rp[j].material == *rpair.1;
                                assert(object_hit_spec(
                                    prims[lp.len() + wj],
                                    *ray,
                                    tmin as int,
                                    tmax as int,
                                ) == Some(rpair.0));
                                assert forall|i: int| 0 <= i < prims.len() implies (
                                object_hit_spec(
                                    #[trigger] prims[i],
                                    *ray,
                                    tmin as int,
                                    tmax as int,
                                ) matches Some(r2) ==> rpair.0.t <= r2.t) by {
                                    if i < lp.len() {
                                        assert(prims[i] == lp[i]);
                                    } else {
                                        assert(prims[i] == rp[i - lp.len()]);
                                    }
                                };
                            },
                            None => {
                                match lres {
                                    Some(lpair) => {
                                        let wj = choose|j: int|
                                            0 <= j < lp.len() && object_hit_spec(
                                                #[trigger] lp[j],
                                                *ray,
                                                tmin as int,
                                                tmax as int,
                                            ) == Some(lpair.0) && lp[j].material == *lpair.1;
                                        assert(object_hit_spec(
                                            prims[wj],
                                            *ray,
                                            tmin as int,
                                            tmax as int,
                                        ) == Some(lpair.0));
                                        assert forall|i: int| 0 <= i < prims.len() implies (
                                        object_hit_spec(
                                            #[trigger] prims[i],
                                            *ray,
                                            tmin as int,
                                            tmax as int,
                                        ) matches Some(r2) ==> lpair.0.t <= r2.t) by {
                                            if i < lp.len() {
                                                assert(prims[i] == lp[i]);
                                            } else {
                                                assert(prims[i] == rp[i - lp.len()]);
                                            }
                                        };
                                    },
                                    None => {
                                        assert forall|i: int| 0 <= i < prims.len() implies
                                            object_hit_spec(
                                            #[trigger] prims[i],
                                            *ray,
                                            tmin as int,
                                            tmax as int,
                                        ) is None by {
                                            if i < lp.len() {
                                                assert(prims[i] == lp[i]);
                                            } else {
                                                assert(prims[i] == rp[i - lp.len()]);
                                            }
                                        };
                                    },
                                }
                            },
                        }
                    }
                    if all_wf(prims) {
                        assert(all_wf(lp));
                        assert(all_wf(rp));
                    }
                }
                match rres {
                    Some(pair) => Some(pair),
                    None => lres,
                }
            },
        }
    }
}

/// For any two arrangements of the same primitives, the nearest-hit
/// relation agrees: this is the brute-force equivalence of the BVH, since
/// both the tree's primitive sequence and the flat scene satisfy the same
/// nearest-hit contract.
pub proof fn lemma_nearest_hit_agrees(
    prims1: Seq<Hittable>,
    prims2: Seq<Hittable>,
    ray: Ray,
    t0: int,
    t1: int,
)
    requires
        prims1.to_multiset() == prims2.to_multiset(),
    ensures
        no_hit(prims1, ray, t0, t1) <==> no_hit(prims2, ray, t0, t1),
        forall|rec: HitRecord, mat: Material|
            nearest_hit(prims1, ray, t0, t1, rec, mat) <==> #[trigger] nearest_hit(
                prims2,
                ray,
                t0,
                t1,
                rec,
                mat,
            ),
{
    broadcast use vstd::seq_lib::group_to_multiset_ensures;

    lemma_nearest_hit_one_way(prims1, prims2, ray, t0, t1);
    lemma_nearest_hit_one_way(prims2, prims1, ray, t0, t1);
}

/// One direction of the agreement.
proof fn lemma_nearest_hit_one_way(
    prims1: Seq<Hittable>,
    prims2: Seq<Hittable>,
    ray: Ray,
    t0: int,
    t1: int,
)
    requires
        prims1.to_multiset() == prims2.to_multiset(),
    ensures
        no_hit(prims1, ray, t0, t1) ==> no_hit(prims2, ray, t0, t1),
        forall|rec: HitRecord, mat: Material|
            nearest_hit(prims1, ray, t0, t1, rec, mat) ==> #[trigger] nearest_hit(
                prims2,
                ray,
                t0,
                t1,
                rec,
                mat,
            ),
{
    broadcast use vstd::seq_lib::group_to_multiset_ensures;

    if no_hit(prims1, ray, t0, t1) {
        assert forall|i: int| 0 <= i < prims2.len() implies object_hit_spec(
            #[trigger] prims2[i],
            ray,
            t0,
            t1,
        ) is None by {
            assert(prims2.contains(prims2[i]));
            assert(prims2.to_multiset().count(prims2[i]) > 0);
            assert(prims1.contains(prims2[i]));
            let j = choose|j: int| 0 <= j < prims1.len() && prims1[j] == prims2[i];
            assert(object_hit_spec(prims1[j], ray, t0, t1) is None);
        };
    }
    assert forall|rec: HitRecord, mat: Material|
        nearest_hit(prims1, ray, t0, t1, rec, mat) implies #[trigger] nearest_hit(
        prims2,
        ray,
        t0,
        t1,
        rec,
        mat,
    ) by {
        let i = choose|i: int|
            0 <= i < prims1.len() && object_hit_spec(#[trigger] prims1[i], ray, t0, t1)
                == Some(rec) && prims1[i].material == mat;
        assert(prims1.contains(prims1[i]));
        assert(prims1.to_multiset().count(prims1[i]) > 0);
        assert(prims2.contains(prims1[i]));
        let i2 = choose|i2: int| 0 <= i2 < prims2.len() && prims2[i2] == prims1[i];
        assert(object_hit_spec(prims2[i2], ray, t0, t1) == Some(rec) && prims2[i2].material
            == mat);
        assert forall|k: int| 0 <= k < prims2.len() implies (object_hit_spec(
            #[trigger] prims2[k],
            ray,
            t0,
            t1,
        ) matches Some(r2) ==> rec.t <= r2.t) by {
            assert(prims2.contains(prims2[k]));
            assert(prims2.to_multiset().count(prims2[k]) > 0);
            assert(prims1.contains(prims2[k]));
            let j = choose|j: int| 0 <= j < prims1.len() && prims1[j] == prims2[k];
            assert(object_hit_spec(prims1[j], ray, t0, t1) matches Some(r2) ==> rec.t <= r2.t);
        };
    };
}

/// Two nearest hits over the same primitives strike at the same
/// distance: together with the agreement lemma, the BVH's answer and the
/// linear scan's answer carry equal distances.
pub proof fn lemma_nearest_hit_t_unique(
    prims: Seq<Hittable>,
    ray: Ray,
    t0: int,
    t1: int,
    rec_a: HitRecord,
    mat_a: Material,
    rec_b: HitRecord,
    mat_b: Material,
)
    requires
        nearest_hit(prims, ray, t0, t1, rec_a, mat_a),
        nearest_hit(prims, ray, t0, t1, rec_b, mat_b),
    ensures
        rec_a.t == rec_b.t,
{
    let i = choose|i: int|
        0 <= i < prims.len() && object_hit_spec(#[trigger] prims[i], ray, t0, t1) == Some(
            rec_a,
        ) && prims[i].material == mat_a;
    let j = choose|j: int|
        0 <= j < prims.len() && object_hit_spec(#[trigger] prims[j], ray, t0, t1) == Some(
            rec_b,
        ) && prims[j].material == mat_b;
    assert(rec_a.t <= rec_b.t);
    assert(rec_b.t <= rec_a.t);
}

/// A nearest hit and an empty scan cannot coexist over rearrangements of
/// the same primitives.
pub proof fn lemma_nearest_hit_not_none(
    prims: Seq<Hittable>,
    ray: Ray,
    t0: int,
    t1: int,
    rec: HitRecord,
    mat: Material,
)
    requires
        nearest_hit(prims, ray, t0, t1, rec, mat),
    ensures
        !no_hit(prims, ray, t0, t1),
{
    let i = choose|i: int|
        0 <= i < prims.len() && object_hit_spec(#[trigger] prims[i], ray, t0, t1) == Some(rec)
            && prims[i].material == mat;
}

} // verus!
