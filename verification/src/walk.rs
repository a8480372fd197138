//! The traversal engine: the nearest-first pruning walk over a built tree,
//! the exhaustive linear scan it is proved to agree with, and the agreement
//! law itself.

use vstd::prelude::*;

use crate::aabb::{le, lemma_dist2_monotone, spec_dist2};
use crate::geometry::Ray;
use crate::shape::{all_inv, Intersected};
use crate::tree::{Node, NodeEnum, BVH};

verus! {

/// Every hit the object reports for the ray is at squared distance at
/// least `m`.
pub open spec fn hit_at_least<O: Intersected>(o: O, ray: Ray, m: u64) -> bool {
    o.s_hit(ray) matches Some(d) ==> d >= m
}

/// No object in `objs[lo..hi]` reports a hit below `m`.
pub open spec fn no_hit_below<O: Intersected>(
    objs: Seq<O>,
    ray: Ray,
    lo: int,
    hi: int,
    m: u64,
) -> bool {
    forall|j: int| lo <= j < hi ==> hit_at_least(#[trigger] objs[j], ray, m)
}

/// `d` is no farther than any hit reported by an object in `objs[lo..hi]`.
pub open spec fn min_of_range<O: Intersected>(
    objs: Seq<O>,
    ray: Ray,
    lo: int,
    hi: int,
    d: u64,
) -> bool {
    forall|j: int|
        lo <= j < hi ==> ((#[trigger] objs[j]).s_hit(ray) matches Some(dj) ==> d <= dj)
}

/// The nearest-hit characterization both the tree walk and the linear scan
/// satisfy: `None` exactly when no object reports a finite hit, otherwise
/// the reported pair is a finite hit of the named object and no object's
/// hit is closer. `u64::MAX` plays the role of the infinite distance.
pub open spec fn nearest_hit_post<O: Intersected>(
    objs: Seq<O>,
    ray: Ray,
    r: Option<(u64, usize)>,
) -> bool {
    match r {
        None => no_hit_below(objs, ray, 0, objs.len() as int, u64::MAX),
        Some((d, i)) => {
            &&& 0 <= i < objs.len()
            &&& objs[i as int].s_hit(ray) == Some(d)
            &&& d < u64::MAX
            &&& min_of_range(objs, ray, 0, objs.len() as int, d)
        },
    }
}

/// Every hit inside a node's range is at least as far as the node's box:
/// the pruning bound of the traversal.
proof fn lemma_subtree_hits_at_least<O: Intersected>(objs: Seq<O>, ray: Ray, node: Node, m: u64)
    requires
        node.wf(objs),
        all_inv(objs),
        ray.wf(),
        spec_dist2(ray.origin, node.bounds) >= m as int,
    ensures
        no_hit_below(objs, ray, node.begin as int, node.end as int, m),
{
    assert forall|j: int|
        node.begin <= j < node.end implies hit_at_least(#[trigger] objs[j], ray, m) by {
        let o = objs[j];
        assert(o.inv());
        o.lemma_box_wf();
        o.lemma_hit_not_closer_than_box(ray);
        assert(le(o.s_aabb(), node.bounds));
        lemma_dist2_monotone(ray.origin, o.s_aabb(), node.bounds);
    }
}

fn walk_rec_helper<O: Intersected>(ray: &Ray, objects: &Vec<O>, node: &Node, min: u64) -> (r:
    Option<(u64, usize)>)
    requires
        node.wf(objects@),
        all_inv(objects@),
        ray.wf(),
    ensures
        r is None ==> no_hit_below(objects@, *ray, node.begin as int, node.end as int, min),
        r matches Some((d, i)) ==> node.begin <= i < node.end && objects@[i as int].s_hit(*ray)
            == Some(d) && d < min && min_of_range(
            objects@,
            *ray,
            node.begin as int,
            node.end as int,
            d,
        ),
    decreases node,
{
    match &node.kind {
        // A leaf scans its objects linearly, keeping the closest hit below
        // the bound.
        NodeEnum::Leaf => scan_range(ray, objects, node.begin, node.end, min),
        // An internal node visits the child with the nearer box first and
        // prunes whatever provably cannot beat the best hit so far.
        NodeEnum::Internal { left, right } => {
            proof {
                assert(left.wf(objects@));
                assert(right.wf(objects@));
                assert(left.bounds.wf());
                assert(right.bounds.wf());
            }
            let left_dist = left.bounds.dist2_to_point(&ray.origin);
            let right_dist = right.bounds.dist2_to_point(&ray.origin);
            let (near, far, short_dist, far_dist) = if left_dist < right_dist {
                (left, right, left_dist, right_dist)
            } else {
                (right, left, right_dist, left_dist)
            };
            proof {
                assert(near.wf(objects@) && far.wf(objects@));
                assert(short_dist as int == spec_dist2(ray.origin, near.bounds));
                assert(far_dist as int == spec_dist2(ray.origin, far.bounds));
                assert((near.begin == node.begin && near.end == far.begin && far.end == node.end)
                    || (far.begin == node.begin && far.end == near.begin && near.end
                    == node.end));
            }
            // Neither child can hold a hit below the bound: stop here.
            if short_dist > min {
                proof {
                    lemma_subtree_hits_at_least(objects@, *ray, **near, min);
                    lemma_subtree_hits_at_least(objects@, *ray, **far, min);
                    assert forall|j: int|
                        node.begin <= j < node.end implies hit_at_least(
                        #[trigger] objects@[j],
                        *ray,
                        min,
                    ) by {
                        assert(hit_at_least(objects@[j], *ray, min));
                    }
                }
                return None;
            }
            let nearest_res = walk_rec_helper(ray, objects, &**near, min);
            // The far child cannot beat the bound either: its subtree is
            // provably unimprovable.
            if far_dist > min {
                proof {
                    lemma_subtree_hits_at_least(objects@, *ray, **far, min);
                    if let Some((d, i)) = nearest_res {
                        assert forall|j: int|
                            node.begin <= j < node.end implies ((#[trigger] objects@[j]).s_hit(
                            *ray,
                        ) matches Some(dj) ==> d <= dj) by {
                            if near.begin <= j < near.end {
                                assert(objects@[j].s_hit(*ray) matches Some(dj) ==> d <= dj);
                            } else {
                                assert(hit_at_least(objects@[j], *ray, min));
                            }
                        }
                    } else {
                        assert forall|j: int|
                            node.begin <= j < node.end implies hit_at_least(
                            #[trigger] objects@[j],
                            *ray,
                            min,
                        ) by {
                            assert(hit_at_least(objects@[j], *ray, min));
                        }
                    }
                }
                return nearest_res;
            }
            // A near hit at or under the far child's lower bound cannot be
            // beaten by anything in the far subtree.
            let take_near: bool = match &nearest_res {
                Some((t, _)) => *t <= far_dist,
                None => false,
            };
            if take_near {
                proof {
                    lemma_subtree_hits_at_least(objects@, *ray, **far, far_dist);
                    let (d, i) = nearest_res->0;
                    assert forall|j: int|
                        node.begin <= j < node.end implies ((#[trigger] objects@[j]).s_hit(*ray)
                        matches Some(dj) ==> d <= dj) by {
                        if near.begin <= j < near.end {
                            assert(objects@[j].s_hit(*ray) matches Some(dj) ==> d <= dj);
                        } else {
                            assert(hit_at_least(objects@[j], *ray, far_dist));
                        }
                    }
                }
                return nearest_res;
            }
            // Tighten the bound with the near hit, if any, and search the
            // far subtree for something closer.
            let new_min: u64 = match &nearest_res {
                Some((t, _)) => *t,
                None => min,
            };
            let far_res = walk_rec_helper(ray, objects, &**far, new_min);
            let result = match far_res {
                Some(p) => Some(p),
                None => nearest_res,
            };
            proof {
                if let Some((d2, i2)) = far_res {
                    assert forall|j: int|
                        node.begin <= j < node.end implies ((#[trigger] objects@[j]).s_hit(*ray)
                        matches Some(dj) ==> d2 <= dj) by {
                        if far.begin <= j < far.end {
                            assert(objects@[j].s_hit(*ray) matches Some(dj) ==> d2 <= dj);
                        } else {
                            if let Some((d, i)) = nearest_res {
                                assert(objects@[j].s_hit(*ray) matches Some(dj) ==> d <= dj);
                            } else {
                                assert(hit_at_least(objects@[j], *ray, min));
                            }
                        }
                    }
                } else {
                    if let Some((d, i)) = nearest_res {
                        assert forall|j: int|
                            node.begin <= j < node.end implies ((#[trigger] objects@[j]).s_hit(
                            *ray,
                        ) matches Some(dj) ==> d <= dj) by {
                            if far.begin <= j < far.end {
                                assert(hit_at_least(objects@[j], *ray, new_min));
                            } else {
                                assert(objects@[j].s_hit(*ray) matches Some(dj) ==> d <= dj);
                            }
                        }
                    } else {
                        assert forall|j: int|
                            node.begin <= j < node.end implies hit_at_least(
                            #[trigger] objects@[j],
                            *ray,
                            min,
                        ) by {
                            if far.begin <= j < far.end {
                                assert(hit_at_least(objects@[j], *ray, new_min));
                            } else {
                                assert(hit_at_least(objects@[j], *ray, min));
                            }
                        }
                    }
                }
            }
            result
        },
    }
}

/// Scans `objects[begin..end]` linearly, keeping the closest hit strictly
/// below `min`; on equal distances the later object wins, as a forward
/// fold of a minimum does.
fn scan_range<O: Intersected>(
    ray: &Ray,
    objects: &Vec<O>,
    begin: usize,
    end: usize,
    min: u64,
) -> (r: Option<(u64, usize)>)
    requires
        begin <= end <= objects.len(),
        all_inv(objects@),
        ray.wf(),
    ensures
        r is None ==> no_hit_below(objects@, *ray, begin as int, end as int, min),
        r matches Some((d, i)) ==> begin <= i < end && objects@[i as int].s_hit(*ray) == Some(d)
            && d < min && min_of_range(objects@, *ray, begin as int, end as int, d),
{
    let mut best: Option<(u64, usize)> = None;
    let mut i: usize = begin;
    while i < end
        invariant
            begin <= i <= end <= objects.len(),
            all_inv(objects@),
            ray.wf(),
            best is None ==> no_hit_below(objects@, *ray, begin as int, i as int, min),
            best matches Some((bd, bi)) ==> begin <= bi < i && objects@[bi as int].s_hit(*ray)
                == Some(bd) && bd < min && min_of_range(objects@, *ray, begin as int, i as int, bd),
        decreases end - i,
    {
        let hit = objects[i].intersect(ray);
        let ghost old_best = best;
        if let Some(d) = hit {
            if d < min {
                best = match best {
                    None => Some((d, i)),
                    Some((bd, bi)) => if d <= bd {
                        Some((d, i))
                    } else {
                        Some((bd, bi))
                    },
                };
            }
        }
        proof {
            if let Some((nd, ni)) = best {
                assert forall|j: int|
                    begin <= j < i + 1 implies ((#[trigger] objects@[j]).s_hit(*ray)
                    matches Some(dj) ==> nd <= dj) by {
                    if j < i {
                        if let Some((bd, bi)) = old_best {
                            assert(objects@[j].s_hit(*ray) matches Some(dj) ==> bd <= dj);
                        } else {
                            assert(hit_at_least(objects@[j], *ray, min));
                        }
                    }
                }
            } else {
                assert forall|j: int|
                    begin <= j < i + 1 implies hit_at_least(#[trigger] objects@[j], *ray, min) by {
                    if j < i {
                        assert(hit_at_least(objects@[j], *ray, min));
                    }
                }
            }
        }
        i += 1;
    }
    best
}

impl BVH {
    /// Answers a nearest-hit query against a built tree: the closest
    /// squared hit distance along the ray together with the index of the
    /// hit object in the collection, or `None` when nothing is hit. Agrees
    /// exactly with the exhaustive linear scan `cast_ray`.
    pub fn walk<O: Intersected>(&self, ray: &Ray, objects: &Vec<O>) -> (r: Option<(u64, usize)>)
        requires
            self.wf(objects@),
            all_inv(objects@),
            ray.wf(),
        ensures
            nearest_hit_post(objects@, *ray, r),
    {
        proof {
            crate::tree::lemma_bvh_elim(*self, objects@);
        }
        let r = walk_rec_helper(ray, objects, &self.tree, u64::MAX);
        proof {
            if let Some((d, i)) = r {
                assert(min_of_range(objects@, *ray, 0, objects@.len() as int, d));
            }
        }
        r
    }
}

/// The exhaustive reference query: tests every object and keeps the
/// closest finite hit. `walk` is proved to agree with it.
pub fn cast_ray<O: Intersected>(ray: &Ray, objects: &Vec<O>) -> (r: Option<(u64, usize)>)
    requires
        all_inv(objects@),
        ray.wf(),
    ensures
        nearest_hit_post(objects@, *ray, r),
{
    let n = objects.len();
    scan_range(ray, objects, 0, n, u64::MAX)
}

/// Nearest-hit agreement law: two results that both satisfy the nearest-hit
/// characterization — the pruning walk and the linear scan, in particular —
/// agree. They are a hit together or a miss together, and on a hit they
/// report the same distance (the witness object may differ only between
/// objects hit at exactly that distance).
pub proof fn lemma_nearest_hit_unique<O: Intersected>(
    objs: Seq<O>,
    ray: Ray,
    r1: Option<(u64, usize)>,
    r2: Option<(u64, usize)>,
)
    requires
        nearest_hit_post(objs, ray, r1),
        nearest_hit_post(objs, ray, r2),
    ensures
        r1 is Some <==> r2 is Some,
        r1 is Some && r2 is Some ==> (r1->0).0 == (r2->0).0,
{
    if let Some((d1, i1)) = r1 {
        if r2 is None {
            assert(hit_at_least(objs[i1 as int], ray, u64::MAX));
        } else {
            let (d2, i2) = r2->0;
            assert(objs[i2 as int].s_hit(ray) matches Some(dj) ==> d1 <= dj);
            assert(objs[i1 as int].s_hit(ray) matches Some(dj) ==> d2 <= dj);
        }
    } else {
        if let Some((d2, i2)) = r2 {
            assert(hit_at_least(objs[i2 as int], ray, u64::MAX));
        }
    }
}

} // verus!
