//! Construction: the surface area heuristic (SAH) split search and the
//! recursive partitioning that produces a tree.

use vstd::prelude::*;
use vstd::seq_lib::lemma_multiset_commutative;

use crate::aabb::{lemma_union_least, lemma_union_upper, Aabb, SURFACE_LIMIT};
use crate::geometry::{lemma_mul_bound, Axis};
use crate::shape::{all_inv, Intersected};
use crate::tree::{
    covers, is_bounds_of, lemma_all_inv_permuted, lemma_bounds_of_permuted, lemma_bounds_unique,
    lemma_union_is_lub, lemma_wf_frame, Node, NodeEnum, BVH,
};

verus! {

broadcast use vstd::seq_lib::group_to_multiset_ensures;

/// The largest collection the builder accepts; keeps the fixed-width cost
/// arithmetic of the split decision exact.
pub const MAX_OBJECTS: usize = 4294967295;

/// The exact union of the bounding boxes of `objects[begin..end]`.
fn bounds_from_slice<O: Intersected>(objects: &Vec<O>, begin: usize, end: usize) -> (r: Aabb)
    requires
        begin <= end <= objects.len(),
        all_inv(objects@),
    ensures
        is_bounds_of(r, objects@, begin as int, end as int),
{
    let ghost objs = objects@;
    let mut acc = Aabb::Empty;
    let mut i: usize = begin;
    while i < end
        invariant
            begin <= i <= end <= objects.len(),
            objects@ == objs,
            all_inv(objs),
            acc.wf(),
            covers(acc, objs, begin as int, i as int),
            forall|c: Aabb| #[trigger] covers(c, objs, begin as int, i as int) ==> crate::aabb::le(
                acc,
                c,
            ),
        decreases end - i,
    {
        let b = objects[i].aabb();
        let next = acc.union(&b);
        proof {
            objects@[i as int].lemma_box_wf();
            lemma_union_upper(acc, b);
            assert forall|j: int|
                begin <= j < i + 1 implies crate::aabb::le(
                (#[trigger] objs[j]).s_aabb(),
                next,
            ) by {
                if j < i {
                    crate::aabb::lemma_le_trans(objs[j].s_aabb(), acc, next);
                } else {
                    crate::aabb::lemma_le_trans(objs[j].s_aabb(), b, next);
                }
            }
            assert forall|c: Aabb|
                #[trigger] covers(c, objs, begin as int, i + 1) implies crate::aabb::le(
                next,
                c,
            ) by {
                assert forall|j: int|
                    begin <= j < i implies crate::aabb::le((#[trigger] objs[j]).s_aabb(), c) by {
                    assert(crate::aabb::le(objs[j].s_aabb(), c));
                }
                assert(covers(c, objs, begin as int, i as int));
                assert(crate::aabb::le(objs[i as int].s_aabb(), c));
                lemma_union_least(acc, b, c);
            }
        }
        acc = next;
        i += 1;
    }
    acc
}

/// One candidate object during cost evaluation: its centroid's projection on
/// the axis under consideration, and its bounding box.
#[derive(Clone, Copy, Debug)]
struct SahEntry {
    key: i64,
    bb: Aabb,
}

/// Sorts the scratch entries by key (insertion into a fresh vector), keeping
/// every box well-formed.
fn sort_entries(entries: &Vec<SahEntry>) -> (out: Vec<SahEntry>)
    requires
        forall|i: int| 0 <= i < entries@.len() ==> (#[trigger] entries@[i]).bb.wf(),
    ensures
        out@.len() == entries@.len(),
        forall|a: int, b: int| 0 <= a <= b < out@.len() ==> out@[a].key <= out@[b].key,
        forall|i: int| 0 <= i < out@.len() ==> (#[trigger] out@[i]).bb.wf(),
{
    let mut out: Vec<SahEntry> = Vec::new();
    let mut i: usize = 0;
    while i < entries.len()
        invariant
            0 <= i <= entries@.len(),
            out@.len() == i,
            forall|j: int| 0 <= j < entries@.len() ==> (#[trigger] entries@[j]).bb.wf(),
            forall|a: int, b: int| 0 <= a <= b < out@.len() ==> out@[a].key <= out@[b].key,
            forall|j: int| 0 <= j < out@.len() ==> (#[trigger] out@[j]).bb.wf(),
        decreases entries@.len() - i,
    {
        let e = entries[i];
        let mut pos: usize = 0;
        while pos < out.len() && out[pos].key <= e.key
            invariant
                0 <= pos <= out@.len(),
                forall|a: int| 0 <= a < pos ==> out@[a].key <= e.key,
            decreases out@.len() - pos,
        {
            pos += 1;
        }
        proof {
            assert(pos < out@.len() ==> out@[pos as int].key > e.key);
        }
        out.insert(pos, e);
        i += 1;
    }
    out
}

/// The result of the split search: a split position inside the range, the
/// axis it lies on, and the minimized surface-weighted cost numerator.
struct SahChoice {
    split: usize,
    axis: Axis,
    cost_s: u128,
}

/// For each axis, orders the range's objects by centroid projection, scans
/// prefix and suffix union surfaces, and minimizes
/// `k * left_surface(k) + (len - k) * right_surface(len - k)` over all
/// candidate splits `k` and the three axes. The `1 / capacity` and
/// `1 / total_surface` factors of the cost model are the same for every
/// candidate, so the minimizer of this numerator is the minimizer of the
/// full cost; the caller applies those factors exactly when deciding
/// leaf versus split.
fn compute_sah<O: Intersected>(objects: &Vec<O>, begin: usize, end: usize) -> (r: SahChoice)
    requires
        begin <= end <= objects.len() <= MAX_OBJECTS,
        end - begin >= 2,
        all_inv(objects@),
    ensures
        1 <= r.split < end - begin,
        r.cost_s as int <= 2 * (end - begin) as int * SURFACE_LIMIT as int,
{
    let len: usize = end - begin;
    let mut best_split: usize = len / 2;
    let mut best_axis = Axis::X;
    let mut best_s: u128 = u128::MAX;
    let ghost s_bound: int = 2 * (end - begin) as int * SURFACE_LIMIT as int;

    let mut ax: usize = 0;
    while ax < 3
        invariant
            begin <= end <= objects.len() <= MAX_OBJECTS,
            end - begin >= 2,
            len == end - begin,
            all_inv(objects@),
            s_bound == 2 * (end - begin) as int * SURFACE_LIMIT as int,
            ax == 0 ==> best_s == u128::MAX,
            ax > 0 ==> best_s as int <= s_bound && 1 <= best_split < len,
        decreases 3 - ax,
    {
        let axis = if ax == 0 {
            Axis::X
        } else if ax == 1 {
            Axis::Y
        } else {
            Axis::Z
        };
        // Gather the range's centroid keys and boxes.
        let mut entries: Vec<SahEntry> = Vec::new();
        let mut i: usize = begin;
        while i < end
            invariant
                begin <= i <= end <= objects.len(),
                all_inv(objects@),
                entries@.len() == i - begin,
                forall|j: int| 0 <= j < entries@.len() ==> (#[trigger] entries@[j]).bb.wf(),
            decreases end - i,
        {
            let key = objects[i].centroid().coord(axis);
            let bb = objects[i].aabb();
            proof {
                objects@[i as int].lemma_box_wf();
            }
            entries.push(SahEntry { key, bb });
            i += 1;
        }
        let sorted = sort_entries(&entries);
        // Prefix and suffix scans of running union surfaces.
        let mut left_surf: Vec<u64> = Vec::new();
        let mut right_surf: Vec<u64> = Vec::new();
        let mut left_box = Aabb::Empty;
        let mut right_box = Aabb::Empty;
        let mut k: usize = 0;
        while k < len - 1
            invariant
                2 <= len == sorted@.len(),
                0 <= k <= len - 1,
                forall|j: int| 0 <= j < sorted@.len() ==> (#[trigger] sorted@[j]).bb.wf(),
                left_box.wf(),
                right_box.wf(),
                left_surf@.len() == k,
                right_surf@.len() == k,
                forall|j: int| 0 <= j < k ==> (#[trigger] left_surf@[j]) <= SURFACE_LIMIT,
                forall|j: int| 0 <= j < k ==> (#[trigger] right_surf@[j]) <= SURFACE_LIMIT,
            decreases len - k,
        {
            proof {
                lemma_union_upper(left_box, sorted@[k as int].bb);
                lemma_union_upper(right_box, sorted@[len - 1 - k].bb);
            }
            left_box = left_box.union(&sorted[k].bb);
            left_surf.push(left_box.surface());
            right_box = right_box.union(&sorted[len - 1 - k].bb);
            right_surf.push(right_box.surface());
            k += 1;
        }
        // Minimize the cost numerator over the candidate splits.
        let mut lc: usize = 1;
        while lc < len
            invariant
                2 <= len,
                1 <= lc <= len,
                len <= MAX_OBJECTS,
                left_surf@.len() == len - 1,
                right_surf@.len() == len - 1,
                forall|j: int| 0 <= j < len - 1 ==> (#[trigger] left_surf@[j]) <= SURFACE_LIMIT,
                forall|j: int| 0 <= j < len - 1 ==> (#[trigger] right_surf@[j]) <= SURFACE_LIMIT,
                s_bound == 2 * (end - begin) as int * SURFACE_LIMIT as int,
                len == end - begin,
                best_s as int <= s_bound || best_s == u128::MAX,
                best_s as int <= s_bound ==> 1 <= best_split < len,
                best_s == u128::MAX ==> lc == 1,
            decreases len - lc,
        {
            let rc: usize = len - lc;
            proof {
                lemma_mul_bound(
                    lc as int,
                    left_surf@[lc - 1] as int,
                    MAX_OBJECTS as int,
                    SURFACE_LIMIT as int,
                );
                lemma_mul_bound(
                    rc as int,
                    right_surf@[rc - 1] as int,
                    MAX_OBJECTS as int,
                    SURFACE_LIMIT as int,
                );
                crate::aabb::lemma_mul_nonneg(lc as int, left_surf@[lc - 1] as int);
                crate::aabb::lemma_mul_nonneg(rc as int, right_surf@[rc - 1] as int);
            }
            let s: u128 = (lc as u128) * (left_surf[lc - 1] as u128) + (rc as u128) * (
            right_surf[rc - 1] as u128);
            proof {
                assert(lc as int * left_surf@[lc - 1] as int <= (end - begin) as int
                    * SURFACE_LIMIT as int) by {
                    lemma_mul_le_le(
                        lc as int,
                        left_surf@[lc - 1] as int,
                        (end - begin) as int,
                        SURFACE_LIMIT as int,
                    );
                }
                assert(rc as int * right_surf@[rc - 1] as int <= (end - begin) as int
                    * SURFACE_LIMIT as int) by {
                    lemma_mul_le_le(
                        rc as int,
                        right_surf@[rc - 1] as int,
                        (end - begin) as int,
                        SURFACE_LIMIT as int,
                    );
                }
            }
            if s < best_s {
                best_s = s;
                best_split = lc;
                best_axis = axis;
            }
            lc += 1;
        }
        ax += 1;
    }
    SahChoice { split: best_split, axis: best_axis, cost_s: best_s }
}

/// Factors bounded above by non-negative bounds give a bounded product.
proof fn lemma_mul_le_le(a: int, b: int, m: int, n: int)
    by (nonlinear_arith)
    requires
        0 <= a <= m,
        0 <= b <= n,
    ensures
        a * b <= m * n,
{
}

/// Relies on `pdqselect::select_by` (pattern-defeating quickselect): it
/// reorders `objects[begin..end]` in place so that the element at
/// `begin + k` is at its final sorted position under the centroid ordering
/// along `axis` — everything before it compares no greater, everything
/// after it no less — touching nothing outside the range and neither adding
/// nor removing elements.
#[verifier::external_body]
fn select_around<O: Intersected>(
    objects: &mut Vec<O>,
    begin: usize,
    end: usize,
    k: usize,
    axis: Axis,
)
    requires
        begin <= end <= old(objects).len(),
        k < end - begin,
        all_inv(old(objects)@),
    ensures
        final(objects).len() == old(objects).len(),
        forall|i: int|
            0 <= i < final(objects)@.len() && !(begin <= i < end) ==> final(objects)@[i] == old(
                objects,
            )@[i],
        final(objects)@.subrange(begin as int, end as int).to_multiset() == old(
            objects,
        )@.subrange(begin as int, end as int).to_multiset(),
        forall|i: int|
            begin <= i < begin + k ==> (#[trigger] final(objects)@[i]).s_centroid().spec_coord(axis)
                <= final(objects)@[begin + k as int].s_centroid().spec_coord(axis),
        forall|i: int|
            begin + k < i < end ==> final(objects)@[begin + k as int].s_centroid().spec_coord(axis)
                <= (#[trigger] final(objects)@[i]).s_centroid().spec_coord(axis),
{
    pdqselect::select_by(
        &mut objects[begin..end],
        k,
        |a: &O, b: &O| a.centroid().coord(axis).cmp(&b.centroid().coord(axis)),
    );
}

/// A range's multiset-preserving, outside-preserving update extends to any
/// enclosing range.
proof fn lemma_ms_local<O>(s1: Seq<O>, s2: Seq<O>, a: int, b: int, c: int, d: int)
    requires
        0 <= a <= c <= d <= b <= s1.len(),
        s1.len() == s2.len(),
        s1.subrange(c, d).to_multiset() == s2.subrange(c, d).to_multiset(),
        forall|i: int| 0 <= i < s1.len() && !(c <= i < d) ==> s2[i] == s1[i],
    ensures
        s1.subrange(a, b).to_multiset() == s2.subrange(a, b).to_multiset(),
        forall|i: int| 0 <= i < s1.len() && !(a <= i < b) ==> s2[i] == s1[i],
{
    assert(s1.subrange(a, c) =~= s2.subrange(a, c));
    assert(s1.subrange(d, b) =~= s2.subrange(d, b));
    assert(s1.subrange(a, b) =~= s1.subrange(a, c) + s1.subrange(c, d) + s1.subrange(d, b));
    assert(s2.subrange(a, b) =~= s2.subrange(a, c) + s2.subrange(c, d) + s2.subrange(d, b));
    lemma_multiset_commutative(s1.subrange(a, c), s1.subrange(c, d));
    lemma_multiset_commutative(s1.subrange(a, c) + s1.subrange(c, d), s1.subrange(d, b));
    lemma_multiset_commutative(s2.subrange(a, c), s2.subrange(c, d));
    lemma_multiset_commutative(s2.subrange(a, c) + s2.subrange(c, d), s2.subrange(d, b));
}

/// Recursive construction over `[begin, end)`, following the surface area
/// heuristic and reordering the collection in place.
fn build_node<O: Intersected>(
    objects: &mut Vec<O>,
    begin: usize,
    end: usize,
    max_cap: usize,
) -> (n: Node)
    requires
        begin < end <= old(objects).len() <= MAX_OBJECTS,
        all_inv(old(objects)@),
    ensures
        final(objects).len() == old(objects).len(),
        forall|i: int|
            0 <= i < final(objects)@.len() && !(begin <= i < end) ==> final(objects)@[i] == old(
                objects,
            )@[i],
        final(objects)@.subrange(begin as int, end as int).to_multiset() == old(
            objects,
        )@.subrange(begin as int, end as int).to_multiset(),
        all_inv(final(objects)@),
        n.wf(final(objects)@),
        n.begin == begin,
        n.end == end,
        end - begin <= max_cap ==> n.kind is Leaf,
    decreases end - begin,
{
    let ghost objs0 = objects@;
    let bounds = bounds_from_slice(objects, begin, end);
    let len: usize = end - begin;
    // A range within capacity, or one too small to split, becomes a leaf.
    if len <= max_cap || len < 2 {
        return Node { bounds, begin, end, kind: NodeEnum::Leaf };
    }
    let total: u64 = bounds.surface();
    let choice = compute_sah(objects, begin, end);
    // Split only when the minimal cost `1/max_cap + s/total` is below the
    // range length, evaluated exactly over the integers: with a positive
    // total surface and capacity this is
    // `total + max_cap * s < max_cap * len * total`.
    let worth_splitting: bool = if total == 0 {
        false
    } else {
        proof {
            lemma_mul_le_le(max_cap as int, choice.cost_s as int, MAX_OBJECTS as int, 2 * (end
                - begin) as int * SURFACE_LIMIT as int);
            lemma_mul_le_le(max_cap as int, len as int, MAX_OBJECTS as int, MAX_OBJECTS as int);
            lemma_mul_le_le(
                max_cap as int * len as int,
                total as int,
                MAX_OBJECTS as int * MAX_OBJECTS as int,
                SURFACE_LIMIT as int,
            );
            crate::aabb::lemma_mul_nonneg(max_cap as int, choice.cost_s as int);
            crate::aabb::lemma_mul_nonneg(max_cap as int, len as int);
            crate::aabb::lemma_mul_nonneg(max_cap as int * len as int, total as int);
            lemma_mul_le_le(2 * (end - begin) as int, SURFACE_LIMIT as int, 2 * MAX_OBJECTS as int,
                SURFACE_LIMIT as int);
        }
        (total as u128) + (max_cap as u128) * choice.cost_s < ((max_cap as u128) * (len as u128))
            * (total as u128)
    };
    if !worth_splitting {
        return Node { bounds, begin, end, kind: NodeEnum::Leaf };
    }
    // Guard against degenerate splits at the edges of the range.
    let split_rel: usize = if choice.split == 0 || choice.split >= len - 1 {
        len / 2
    } else {
        choice.split
    };
    let mid: usize = begin + split_rel;
    // Physically partition the range around the split along the chosen axis.
    select_around(objects, begin, end, split_rel, axis_of(&choice));
    let ghost objs1 = objects@;
    proof {
        lemma_all_inv_permuted(objs0, objs1, begin as int, end as int);
    }
    let left = Box::new(build_node(objects, begin, mid, max_cap));
    let ghost objs2 = objects@;
    proof {
        lemma_ms_local(objs1, objs2, begin as int, end as int, begin as int, mid as int);
    }
    let right = Box::new(build_node(objects, mid, end, max_cap));
    let ghost objs3 = objects@;
    proof {
        lemma_ms_local(objs2, objs3, begin as int, end as int, mid as int, end as int);
        // Compose the three permutations of the range.
        assert(objs0.subrange(begin as int, end as int).to_multiset() == objs3.subrange(
            begin as int,
            end as int,
        ).to_multiset());
        // The bounds computed on entry are still the exact bounds of the
        // (now reordered) range.
        lemma_bounds_of_permuted(objs0, objs1, begin as int, end as int, bounds);
        lemma_bounds_of_permuted(objs1, objs2, begin as int, end as int, bounds);
        lemma_bounds_of_permuted(objs2, objs3, begin as int, end as int, bounds);
        // The left child's invariant survives the right child's reordering.
        lemma_wf_frame(*left, objs2, objs3);
        // The node's box is the union of its children's boxes, because both
        // are the unique exact bounds of the range.
        assert(is_bounds_of(left.bounds, objs3, begin as int, mid as int));
        assert(is_bounds_of(right.bounds, objs3, mid as int, end as int));
        lemma_union_is_lub(
            left.bounds,
            right.bounds,
            objs3,
            begin as int,
            mid as int,
            end as int,
        );
        lemma_bounds_unique(
            bounds,
            crate::aabb::spec_union(left.bounds, right.bounds),
            objs3,
            begin as int,
            end as int,
        );
    }
    Node { bounds, begin, end, kind: NodeEnum::Internal { left, right } }
}

fn axis_of(c: &SahChoice) -> (a: Axis)
    ensures
        a == c.axis,
{
    match c.axis {
        Axis::X => Axis::X,
        Axis::Y => Axis::Y,
        Axis::Z => Axis::Z,
    }
}

impl BVH {
    /// Builds a tree for the given collection with the default target leaf
    /// capacity of 32, reordering the collection in place.
    pub fn build<O: Intersected>(objects: &mut Vec<O>) -> (bvh: BVH)
        requires
            1 <= old(objects).len() <= MAX_OBJECTS,
            all_inv(old(objects)@),
        ensures
            final(objects).len() == old(objects).len(),
            final(objects)@.to_multiset() == old(objects)@.to_multiset(),
            all_inv(final(objects)@),
            bvh.wf(final(objects)@),
            bvh.spec_shaped(),
            old(objects).len() <= 32 ==> bvh.spec_leaf_count() == 1,
    {
        Self::with_max_capacity(objects, 32)
    }

    /// Builds a tree for the given collection, reordering it in place.
    /// `max_cap` guides — but does not strictly bound — the leaf size: a
    /// range no longer than `max_cap` always becomes one leaf, and a longer
    /// range still becomes one leaf when the cost model finds no split
    /// cheaper than scanning it linearly.
    pub fn with_max_capacity<O: Intersected>(objects: &mut Vec<O>, max_cap: usize) -> (bvh: BVH)
        requires
            1 <= old(objects).len() <= MAX_OBJECTS,
            all_inv(old(objects)@),
        ensures
            final(objects).len() == old(objects).len(),
            final(objects)@.to_multiset() == old(objects)@.to_multiset(),
            all_inv(final(objects)@),
            bvh.wf(final(objects)@),
            bvh.spec_shaped(),
            old(objects).len() <= max_cap ==> bvh.spec_leaf_count() == 1,
    {
        let n = objects.len();
        let tree = build_node(objects, 0, n, max_cap);
        let bvh = BVH { tree };
        proof {
            assert(old(objects)@.subrange(0, n as int) =~= old(objects)@);
            assert(objects@.subrange(0, n as int) =~= objects@);
            crate::tree::lemma_bvh_intro(bvh, objects@);
        }
        bvh
    }
}

} // verus!
