//! The tree produced by construction: nodes, their invariants, the
//! diagnostic soundness check, and the structural laws (leaf coverage,
//! containment, leaf counting).

use vstd::prelude::*;

use crate::aabb::{
    le, lemma_le_antisym, lemma_le_trans, lemma_union_absorb, lemma_union_least,
    lemma_union_upper, spec_union, Aabb,
};
use crate::shape::{all_inv, Intersected};

verus! {

broadcast use vstd::seq_lib::group_to_multiset_ensures;

/// Either an internal node owning two children, or a leaf.
#[derive(Debug)]
pub(crate) enum NodeEnum {
    Internal { left: Box<Node>, right: Box<Node> },
    Leaf,
}

/// A node: a bounding box, a contiguous index range `[begin, end)` into the
/// object collection, and the leaf/internal variant.
#[derive(Debug)]
pub(crate) struct Node {
    pub bounds: Aabb,
    pub begin: usize,
    pub end: usize,
    pub kind: NodeEnum,
}

/// `b` contains the bounding box of every object in `objs[lo..hi]`.
pub open spec fn covers<O: Intersected>(b: Aabb, objs: Seq<O>, lo: int, hi: int) -> bool {
    forall|i: int| lo <= i < hi ==> le((#[trigger] objs[i]).s_aabb(), b)
}

/// `b` is contained in every box that contains all of `objs[lo..hi]`.
pub open spec fn tight<O: Intersected>(b: Aabb, objs: Seq<O>, lo: int, hi: int) -> bool {
    forall|c: Aabb| #[trigger] covers(c, objs, lo, hi) ==> le(b, c)
}

/// `b` is exactly the union of the bounding boxes of `objs[lo..hi]`:
/// the least well-formed box containing all of them.
pub open spec fn is_bounds_of<O: Intersected>(b: Aabb, objs: Seq<O>, lo: int, hi: int) -> bool {
    &&& b.wf()
    &&& covers(b, objs, lo, hi)
    &&& tight(b, objs, lo, hi)
}

impl Node {
    /// The purely structural invariant: ranges are ordered, and an internal
    /// node's children tile its range with two non-empty halves.
    pub(crate) open spec fn shaped(self) -> bool
        decreases self,
    {
        &&& self.begin <= self.end
        &&& match self.kind {
            NodeEnum::Leaf => true,
            NodeEnum::Internal { left, right } => {
                &&& left.begin == self.begin
                &&& left.end == right.begin
                &&& right.end == self.end
                &&& self.begin < left.end
                &&& right.begin < self.end
                &&& left.shaped()
                &&& right.shaped()
            },
        }
    }

    /// The full invariant of a built node over the object collection:
    /// structure, plus `bounds` being exactly the union of the boxes of the
    /// objects in range, with an internal node's box the union of its
    /// children's.
    pub(crate) open spec fn wf<O: Intersected>(self, objs: Seq<O>) -> bool
        decreases self,
    {
        &&& self.begin <= self.end <= objs.len()
        &&& is_bounds_of(self.bounds, objs, self.begin as int, self.end as int)
        &&& match self.kind {
            NodeEnum::Leaf => true,
            NodeEnum::Internal { left, right } => {
                &&& left.begin == self.begin
                &&& left.end == right.begin
                &&& right.end == self.end
                &&& self.begin < left.end
                &&& right.begin < self.end
                &&& left.wf(objs)
                &&& right.wf(objs)
                &&& self.bounds == spec_union(left.bounds, right.bounds)
            },
        }
    }

    /// What the diagnostic check verifies: ordered ranges, every leaf object
    /// absorbed by its leaf's box, every child box absorbed by its parent's.
    pub(crate) open spec fn sound<O: Intersected>(self, objs: Seq<O>) -> bool
        decreases self,
    {
        &&& self.begin <= self.end
        &&& match self.kind {
            NodeEnum::Leaf => self.end <= objs.len() && forall|i: int|
                self.begin <= i < self.end ==> spec_union(
                    self.bounds,
                    (#[trigger] objs[i]).s_aabb(),
                ) == self.bounds,
            NodeEnum::Internal { left, right } => {
                &&& left.sound(objs)
                &&& right.sound(objs)
                &&& spec_union(self.bounds, left.bounds) == self.bounds
                &&& spec_union(self.bounds, right.bounds) == self.bounds
            },
        }
    }

    /// The leaves' index ranges in left-to-right order.
    pub(crate) open spec fn spec_spans(self) -> Seq<(usize, usize)>
        decreases self,
    {
        match self.kind {
            NodeEnum::Leaf => seq![(self.begin, self.end)],
            NodeEnum::Internal { left, right } => left.spec_spans() + right.spec_spans(),
        }
    }

    /// The number of leaves.
    pub(crate) open spec fn spec_leaf_count(self) -> nat
        decreases self,
    {
        match self.kind {
            NodeEnum::Leaf => 1,
            NodeEnum::Internal { left, right } => left.spec_leaf_count() + right.spec_leaf_count(),
        }
    }
}

/// The bounding volume hierarchy over a caller-provided object collection.
#[derive(Debug)]
pub struct BVH {
    pub(crate) tree: Node,
}

impl BVH {
    /// The invariant every built tree satisfies with respect to the (then
    /// current) object collection; the root's range is the whole collection.
    pub closed spec fn wf<O: Intersected>(self, objs: Seq<O>) -> bool {
        &&& self.tree.wf(objs)
        &&& self.tree.begin == 0
        &&& self.tree.end == objs.len()
    }

    /// The structural part of the invariant, independent of the objects.
    pub closed spec fn spec_shaped(self) -> bool {
        self.tree.shaped()
    }

    /// What `is_sound` returns.
    pub closed spec fn spec_sound<O: Intersected>(self, objs: Seq<O>) -> bool {
        self.tree.sound(objs)
    }

    /// The leaves' index ranges in left-to-right order.
    pub closed spec fn spec_spans(self) -> Seq<(usize, usize)> {
        self.tree.spec_spans()
    }

    /// The number of leaves.
    pub closed spec fn spec_leaf_count(self) -> nat {
        self.tree.spec_leaf_count()
    }

    /// The diagnostic soundness check: every node's range is ordered, every
    /// leaf object's box is contained in the leaf's box, and every child's
    /// box is contained in its parent's, all phrased as union-absorption.
    pub fn is_sound<O: Intersected>(&self, objects: &Vec<O>) -> (r: bool)
        requires
            all_inv(objects@),
        ensures
            r == self.spec_sound(objects@),
    {
        check_node(objects, &self.tree)
    }

    /// The leaves' index ranges in left-to-right order, as data.
    pub fn leaf_spans(&self) -> (v: Vec<(usize, usize)>)
        ensures
            v@ == self.spec_spans(),
    {
        let mut v: Vec<(usize, usize)> = Vec::new();
        collect_spans(&self.tree, &mut v);
        proof {
            assert(v@ =~= self.spec_spans());
        }
        v
    }

    /// The number of leaves of the tree.
    pub fn leaf_count(&self) -> (n: usize)
        requires
            self.spec_shaped(),
        ensures
            n == self.spec_leaf_count(),
            1 <= n,
    {
        count_node(&self.tree)
    }
}

fn check_node<O: Intersected>(objects: &Vec<O>, node: &Node) -> (r: bool)
    requires
        all_inv(objects@),
    ensures
        r == node.sound(objects@),
    decreases node,
{
    if node.begin > node.end {
        return false;
    }
    match &node.kind {
        NodeEnum::Leaf => {
            if node.end > objects.len() {
                return false;
            }
            let mut i: usize = node.begin;
            while i < node.end
                invariant
                    all_inv(objects@),
                    node.kind is Leaf,
                    node.begin <= i <= node.end <= objects.len(),
                    forall|j: int|
                        node.begin <= j < i ==> spec_union(
                            node.bounds,
                            (#[trigger] objects@[j]).s_aabb(),
                        ) == node.bounds,
                decreases node.end - i,
            {
                let b = objects[i].aabb();
                if !(node.bounds.union(&b) == node.bounds) {
                    proof {
                        if node.sound(objects@) {
                            assert(node.kind is Leaf);
                            assert(forall|k: int|
                                node.begin <= k < node.end ==> spec_union(
                                    node.bounds,
                                    (#[trigger] objects@[k]).s_aabb(),
                                ) == node.bounds);
                            assert(spec_union(node.bounds, objects@[i as int].s_aabb())
                                == node.bounds);
                        }
                    }
                    return false;
                }
                i += 1;
            }
            true
        },
        NodeEnum::Internal { left, right } => {
            if !check_node(objects, &**left) {
                return false;
            }
            if !check_node(objects, &**right) {
                return false;
            }
            node.bounds.union(&left.bounds) == node.bounds && node.bounds.union(&right.bounds)
                == node.bounds
        },
    }
}

fn collect_spans(node: &Node, out: &mut Vec<(usize, usize)>)
    ensures
        final(out)@ == old(out)@ + node.spec_spans(),
    decreases node,
{
    match &node.kind {
        NodeEnum::Leaf => {
            out.push((node.begin, node.end));
            proof {
                assert(out@ =~= old(out)@ + node.spec_spans());
            }
        },
        NodeEnum::Internal { left, right } => {
            collect_spans(&**left, out);
            collect_spans(&**right, out);
            proof {
                assert(out@ =~= old(out)@ + node.spec_spans());
            }
        },
    }
}

fn count_node(node: &Node) -> (n: usize)
    requires
        node.shaped(),
    ensures
        n == node.spec_leaf_count(),
        1 <= n <= node.end - node.begin || (node.begin == node.end && n == 1),
    decreases node,
{
    match &node.kind {
        NodeEnum::Leaf => 1,
        NodeEnum::Internal { left, right } => {
            let a = count_node(&**left);
            let b = count_node(&**right);
            a + b
        },
    }
}

/// Every structurally valid tree has at least one leaf, and no more leaves
/// than objects in its range.
pub(crate) proof fn lemma_count_bounds(node: Node)
    requires
        node.shaped(),
    ensures
        1 <= node.spec_leaf_count(),
        node.begin < node.end ==> node.spec_leaf_count() <= node.end - node.begin,
    decreases node,
{
    match node.kind {
        NodeEnum::Leaf => {
        },
        NodeEnum::Internal { left, right } => {
            lemma_count_bounds(*left);
            lemma_count_bounds(*right);
        },
    }
}

/// Law (restricted leaf-size monotonicity): a capacity large enough to admit
/// the whole collection in one leaf yields the minimal possible leaf count;
/// no other built tree for the same collection has fewer leaves. Together
/// with the builder's guarantee that `len <= max_leaf_capacity` produces a
/// one-leaf tree, this covers the case where the larger of two capacities
/// reaches the whole collection. (With both capacities below the collection
/// size the count is not monotone in general: the split decision compares
/// `1/capacity + s` against the integer range length, so a larger capacity
/// can tip a range from one leaf into a split.)
pub proof fn lemma_single_leaf_is_minimal(coarse: BVH, fine: BVH)
    requires
        coarse.spec_leaf_count() == 1,
        fine.spec_shaped(),
    ensures
        coarse.spec_leaf_count() <= fine.spec_leaf_count(),
{
    lemma_count_bounds(fine.tree);
}

/// Unpacks the public invariant for the traversal.
pub(crate) proof fn lemma_bvh_elim<O: Intersected>(bvh: BVH, objs: Seq<O>)
    requires
        bvh.wf(objs),
    ensures
        bvh.tree.wf(objs),
        bvh.tree.begin == 0,
        bvh.tree.end == objs.len(),
{
}

/// Packages a built root node as a tree value satisfying the public
/// invariant.
pub(crate) proof fn lemma_bvh_intro<O: Intersected>(bvh: BVH, objs: Seq<O>)
    requires
        bvh.tree.wf(objs),
        bvh.tree.begin == 0,
        bvh.tree.end == objs.len(),
    ensures
        bvh.wf(objs),
        bvh.spec_shaped(),
        bvh.tree.kind is Leaf ==> bvh.spec_leaf_count() == 1,
{
    lemma_wf_shaped(bvh.tree, objs);
}

pub(crate) proof fn lemma_wf_shaped<O: Intersected>(node: Node, objs: Seq<O>)
    requires
        node.wf(objs),
    ensures
        node.shaped(),
    decreases node,
{
    match node.kind {
        NodeEnum::Leaf => {
        },
        NodeEnum::Internal { left, right } => {
            lemma_wf_shaped(*left, objs);
            lemma_wf_shaped(*right, objs);
        },
    }
}

proof fn lemma_node_spans_count(node: Node)
    ensures
        node.spec_spans().len() == node.spec_leaf_count(),
    decreases node,
{
    match node.kind {
        NodeEnum::Leaf => {
        },
        NodeEnum::Internal { left, right } => {
            lemma_node_spans_count(*left);
            lemma_node_spans_count(*right);
        },
    }
}

proof fn lemma_spans_tile(node: Node)
    requires
        node.shaped(),
    ensures
        node.spec_spans().len() >= 1,
        node.spec_spans()[0].0 == node.begin,
        node.spec_spans()[node.spec_spans().len() - 1].1 == node.end,
        forall|i: int|
            0 <= i < node.spec_spans().len() - 1 ==> (#[trigger] node.spec_spans()[i]).1
                == node.spec_spans()[i + 1].0,
        forall|i: int|
            0 <= i < node.spec_spans().len() ==> (#[trigger] node.spec_spans()[i]).0
                <= node.spec_spans()[i].1,
    decreases node,
{
    match node.kind {
        NodeEnum::Leaf => {
        },
        NodeEnum::Internal { left, right } => {
            lemma_spans_tile(*left);
            lemma_spans_tile(*right);
            let ls = left.spec_spans();
            let rs = right.spec_spans();
            assert(node.spec_spans() == ls + rs);
            assert forall|i: int| 0 <= i < node.spec_spans().len() - 1 implies (
            #[trigger] node.spec_spans()[i]).1 == node.spec_spans()[i + 1].0 by {
                if i < ls.len() - 1 {
                    assert((ls + rs)[i] == ls[i]);
                    assert((ls + rs)[i + 1] == ls[i + 1]);
                } else if i == ls.len() - 1 {
                    assert((ls + rs)[i] == ls[i]);
                    assert((ls + rs)[i + 1] == rs[0]);
                } else {
                    assert((ls + rs)[i] == rs[i - ls.len()]);
                    assert((ls + rs)[i + 1] == rs[i + 1 - ls.len()]);
                }
            }
        },
    }
}

/// Coverage law: for every built tree, the leaves' index ranges, read in
/// left-to-right order, exactly tile `[0, N)` — the first starts at 0, the
/// last ends at N, and each range begins where the previous one ends.
pub proof fn lemma_leaves_tile<O: Intersected>(bvh: BVH, objs: Seq<O>)
    requires
        bvh.wf(objs),
    ensures
        bvh.spec_spans().len() >= 1,
        bvh.spec_spans()[0].0 == 0,
        bvh.spec_spans()[bvh.spec_spans().len() - 1].1 == objs.len(),
        forall|i: int|
            0 <= i < bvh.spec_spans().len() - 1 ==> (#[trigger] bvh.spec_spans()[i]).1
                == bvh.spec_spans()[i + 1].0,
        forall|i: int|
            0 <= i < bvh.spec_spans().len() ==> (#[trigger] bvh.spec_spans()[i]).0
                <= bvh.spec_spans()[i].1,
        bvh.spec_spans().len() == bvh.spec_leaf_count(),
{
    lemma_wf_shaped(bvh.tree, objs);
    lemma_spans_tile(bvh.tree);
    lemma_node_spans_count(bvh.tree);
}

proof fn lemma_node_wf_sound<O: Intersected>(node: Node, objs: Seq<O>)
    requires
        node.wf(objs),
    ensures
        node.sound(objs),
    decreases node,
{
    match node.kind {
        NodeEnum::Leaf => {
            assert forall|i: int| node.begin <= i < node.end implies spec_union(
                node.bounds,
                (#[trigger] objs[i]).s_aabb(),
            ) == node.bounds by {
                assert(le(objs[i].s_aabb(), node.bounds));
                lemma_union_absorb(node.bounds, objs[i].s_aabb());
                if node.bounds is Empty && objs[i].s_aabb() is Bounds {
                    assert(false);
                }
            }
        },
        NodeEnum::Internal { left, right } => {
            lemma_node_wf_sound(*left, objs);
            lemma_node_wf_sound(*right, objs);
            assert(left.wf(objs));
            assert(right.wf(objs));
            assert(left.bounds.wf());
            assert(right.bounds.wf());
            lemma_union_upper(left.bounds, right.bounds);
            lemma_union_absorb(node.bounds, left.bounds);
            lemma_union_absorb(node.bounds, right.bounds);
            if node.bounds is Empty {
                assert(le(left.bounds, node.bounds));
                assert(le(right.bounds, node.bounds));
            }
        },
    }
}

/// Containment law: every tree satisfying the builder's invariant passes the
/// diagnostic soundness check. In particular, rebuilding from the same
/// object collection — in whatever order a previous build left it — always
/// yields a sound tree.
pub proof fn lemma_wf_is_sound<O: Intersected>(bvh: BVH, objs: Seq<O>)
    requires
        bvh.wf(objs),
    ensures
        bvh.spec_sound(objs),
{
    lemma_node_wf_sound(bvh.tree, objs);
}

/// The union of the exact bounds of two adjacent ranges is the exact bounds
/// of their concatenation.
pub(crate) proof fn lemma_union_is_lub<O: Intersected>(
    b1: Aabb,
    b2: Aabb,
    objs: Seq<O>,
    lo: int,
    mid: int,
    hi: int,
)
    requires
        lo <= mid <= hi,
        is_bounds_of(b1, objs, lo, mid),
        is_bounds_of(b2, objs, mid, hi),
    ensures
        is_bounds_of(spec_union(b1, b2), objs, lo, hi),
{
    let u = spec_union(b1, b2);
    lemma_union_upper(b1, b2);
    assert forall|i: int| lo <= i < hi implies le((#[trigger] objs[i]).s_aabb(), u) by {
        if i < mid {
            lemma_le_trans(objs[i].s_aabb(), b1, u);
        } else {
            lemma_le_trans(objs[i].s_aabb(), b2, u);
        }
    }
    assert forall|c: Aabb| #[trigger] covers(c, objs, lo, hi) implies le(u, c) by {
        assert(covers(c, objs, lo, mid));
        assert(covers(c, objs, mid, hi));
        lemma_union_least(b1, b2, c);
    }
}

/// Exact bounds of a range are unique.
pub(crate) proof fn lemma_bounds_unique<O: Intersected>(
    b1: Aabb,
    b2: Aabb,
    objs: Seq<O>,
    lo: int,
    hi: int,
)
    requires
        is_bounds_of(b1, objs, lo, hi),
        is_bounds_of(b2, objs, lo, hi),
    ensures
        b1 == b2,
{
    assert(covers(b2, objs, lo, hi));
    assert(covers(b1, objs, lo, hi));
    lemma_le_antisym(b1, b2);
}

/// Covering transfers across any permutation of the covered range.
pub(crate) proof fn lemma_covers_permuted<O: Intersected>(
    objs1: Seq<O>,
    objs2: Seq<O>,
    lo: int,
    hi: int,
    c: Aabb,
)
    requires
        0 <= lo <= hi <= objs1.len(),
        objs1.len() == objs2.len(),
        objs1.subrange(lo, hi).to_multiset() == objs2.subrange(lo, hi).to_multiset(),
        covers(c, objs1, lo, hi),
    ensures
        covers(c, objs2, lo, hi),
{
    assert forall|i: int| lo <= i < hi implies le((#[trigger] objs2[i]).s_aabb(), c) by {
        let x = objs2[i];
        assert(objs2.subrange(lo, hi)[i - lo] == x);
        assert(objs2.subrange(lo, hi).contains(x));
        assert(objs1.subrange(lo, hi).to_multiset().count(x) > 0);
        assert(objs1.subrange(lo, hi).contains(x));
        let j = choose|j: int| 0 <= j < hi - lo && objs1.subrange(lo, hi)[j] == x;
        assert(objs1[lo + j] == x);
        assert(le(objs1[lo + j].s_aabb(), c));
    }
}

/// Exact bounds transfer across any permutation of the bounded range.
pub(crate) proof fn lemma_bounds_of_permuted<O: Intersected>(
    objs1: Seq<O>,
    objs2: Seq<O>,
    lo: int,
    hi: int,
    b: Aabb,
)
    requires
        0 <= lo <= hi <= objs1.len(),
        objs1.len() == objs2.len(),
        objs1.subrange(lo, hi).to_multiset() == objs2.subrange(lo, hi).to_multiset(),
        is_bounds_of(b, objs1, lo, hi),
    ensures
        is_bounds_of(b, objs2, lo, hi),
{
    lemma_covers_permuted(objs1, objs2, lo, hi, b);
    assert forall|c: Aabb| #[trigger] covers(c, objs2, lo, hi) implies le(b, c) by {
        lemma_covers_permuted(objs2, objs1, lo, hi, c);
    }
}

/// Object well-formedness transfers across a permutation of a range that
/// leaves everything outside the range in place.
pub(crate) proof fn lemma_all_inv_permuted<O: Intersected>(
    objs1: Seq<O>,
    objs2: Seq<O>,
    lo: int,
    hi: int,
)
    requires
        0 <= lo <= hi <= objs1.len(),
        objs1.len() == objs2.len(),
        objs1.subrange(lo, hi).to_multiset() == objs2.subrange(lo, hi).to_multiset(),
        forall|i: int| 0 <= i < objs2.len() && !(lo <= i < hi) ==> objs2[i] == objs1[i],
        all_inv(objs1),
    ensures
        all_inv(objs2),
{
    assert forall|i: int| 0 <= i < objs2.len() implies (#[trigger] objs2[i]).inv() by {
        if lo <= i < hi {
            let x = objs2[i];
            assert(objs2.subrange(lo, hi)[i - lo] == x);
            assert(objs2.subrange(lo, hi).contains(x));
            assert(objs1.subrange(lo, hi).to_multiset().count(x) > 0);
            assert(objs1.subrange(lo, hi).contains(x));
            let j = choose|j: int| 0 <= j < hi - lo && objs1.subrange(lo, hi)[j] == x;
            assert(objs1[lo + j] == x);
            assert(objs1[lo + j].inv());
        } else {
            assert(objs1[i].inv());
        }
    }
}

/// A node's invariant depends only on the objects in its range.
pub(crate) proof fn lemma_wf_frame<O: Intersected>(node: Node, objs1: Seq<O>, objs2: Seq<O>)
    requires
        node.wf(objs1),
        objs1.len() == objs2.len(),
        forall|i: int| node.begin <= i < node.end ==> objs2[i] == objs1[i],
    ensures
        node.wf(objs2),
    decreases node,
{
    assert forall|i: int|
        node.begin <= i < node.end implies le((#[trigger] objs2[i]).s_aabb(), node.bounds) by {
        assert(le(objs1[i].s_aabb(), node.bounds));
    }
    assert forall|c: Aabb| #[trigger] covers(c, objs2, node.begin as int, node.end as int) implies le(
        node.bounds,
        c,
    ) by {
        assert forall|i: int|
            node.begin <= i < node.end implies le((#[trigger] objs1[i]).s_aabb(), c) by {
            assert(le(objs2[i].s_aabb(), c));
        }
        assert(covers(c, objs1, node.begin as int, node.end as int));
    }
    match node.kind {
        NodeEnum::Leaf => {
        },
        NodeEnum::Internal { left, right } => {
            lemma_wf_frame(*left, objs1, objs2);
            lemma_wf_frame(*right, objs1, objs2);
        },
    }
}

} // verus!
