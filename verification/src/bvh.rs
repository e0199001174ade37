//! Bounding-volume hierarchy over an array of primitives.
//!
//! The hierarchy is a binary tree stored in a flat vector. It is generic in
//! the bounding volume `B`: the geometry (how two volumes are merged, on
//! which side of a node's split plane a primitive lies, whether a ray meets
//! a volume) comes in through closures, and the tree itself only decides
//! where nodes are stored and which slice of `primitive_indices` each owns.

use vstd::prelude::*;
use crate::math::lemma_pigeonhole;
use crate::shapes::ShapeIntersection;

verus! {

/// Distance keys at or beyond this one count as "no hit".
pub const FARTHEST_HIT: u32 = 0x7149_f2ca;

/// One node of the hierarchy. `num_prims > 0` marks a leaf that owns the
/// slice `[first_prim, first_prim + num_prims)` of the index array; an
/// interior node has its two children at `left_node` and `left_node + 1`.
pub struct BVHNode<B> {
    pub bbox: B,
    pub left_node: u32,
    pub first_prim: u32,
    pub num_prims: u32,
}

impl<B> BVHNode<B> {
    /// The node owns primitives of its own.
    pub open spec fn leaf(&self) -> bool {
        self.num_prims > 0
    }

    #[verifier::when_used_as_spec(leaf)]
    pub fn is_leaf(&self) -> (b: bool)
        ensures
            b == self.leaf(),
    {
        self.num_prims > 0
    }
}

/// The hierarchy: the nodes, the root first, and the order in which the
/// leaves refer to the primitives.
pub struct BVH<B> {
    nodes: Vec<BVHNode<B>>,
    primitive_indices: Vec<u32>,
}

/// Number of primitives below node `k`: what a leaf owns, or the sum over
/// the two children of an interior node.
pub open spec fn span<B>(nodes: Seq<BVHNode<B>>, k: int) -> nat
    decreases nodes.len() - k,
{
    if 0 <= k < nodes.len() {
        let node = nodes[k];
        if node.num_prims > 0 {
            node.num_prims as nat
        } else if k < node.left_node && node.left_node + 1 < nodes.len() {
            span(nodes, node.left_node as int) + span(nodes, node.left_node + 1)
        } else {
            0
        }
    } else {
        0
    }
}

/// A leaf with `c` primitives weighs `2c - 1`, an interior node weighs 1.
/// Splitting a leaf leaves the total unchanged.
pub open spec fn node_weight<B>(node: BVHNode<B>) -> int {
    if node.num_prims > 0 {
        2 * node.num_prims - 1
    } else {
        1
    }
}

pub open spec fn total_weight<B>(nodes: Seq<BVHNode<B>>) -> int
    decreases nodes.len(),
{
    if nodes.len() == 0 {
        0
    } else {
        total_weight(nodes.drop_last()) + node_weight(nodes.last())
    }
}

/// Node `k` owns a non-empty slice inside `[0, n)`; the children of an
/// interior node come later in the vector and split its slice in two.
pub open spec fn node_ok<B>(nodes: Seq<BVHNode<B>>, n: int, k: int) -> bool {
    let node = nodes[k];
    &&& span(nodes, k) >= 1
    &&& node.first_prim + span(nodes, k) <= n
    &&& node.num_prims == 0 ==> {
        &&& k < node.left_node
        &&& node.left_node + 1 < nodes.len()
        &&& nodes[node.left_node as int].first_prim == node.first_prim
        &&& nodes[node.left_node + 1].first_prim == node.first_prim + span(
            nodes,
            node.left_node as int,
        )
    }
}

/// Every number below the length occurs exactly once.
pub open spec fn is_permutation(indices: Seq<u32>) -> bool {
    &&& forall|p: int| 0 <= p < indices.len() ==> (#[trigger] indices[p]) < indices.len()
    &&& forall|p: int, q: int|
        0 <= p < indices.len() && 0 <= q < indices.len() && p != q ==> #[trigger] indices[p]
            != #[trigger] indices[q]
}

/// The shape of a hierarchy over `indices.len()` primitives.
pub open spec fn tree_wf<B>(nodes: Seq<BVHNode<B>>, indices: Seq<u32>) -> bool {
    let n = indices.len() as int;
    &&& n <= 0x8000_0000
    &&& is_permutation(indices)
    &&& if n == 0 {
        nodes.len() == 0
    } else {
        &&& nodes.len() > 0
        &&& nodes[0].first_prim == 0
        &&& span(nodes, 0) == n
        &&& total_weight(nodes) == 2 * n - 1
        &&& forall|k: int| 0 <= k < nodes.len() ==> node_ok(nodes, n, k)
    }
}

/// The primitive `prim` was classified as `flag` against the node volume
/// `node_box`: some volume that `bbox_fn` may return for it makes `left_fn`
/// answer `flag`.
pub open spec fn classified<B, F: Fn(usize) -> B, S: Fn(&B, &B) -> bool>(
    bbox_fn: F,
    left_fn: S,
    node_box: B,
    prim: usize,
    flag: bool,
) -> bool {
    exists|pb: B| #[trigger]
        call_ensures(bbox_fn, (prim,), pb) && call_ensures(left_fn, (&node_box, &pb), flag)
}

/// One past the last position of node `k`'s slice.
pub open spec fn node_end<B>(nodes: Seq<BVHNode<B>>, k: int) -> int {
    nodes[k].first_prim + span(nodes, k)
}

/// Where the slice of the interior node `k` is cut into the slices of its
/// two children.
pub open spec fn split_point<B>(nodes: Seq<BVHNode<B>>, k: int) -> int {
    nodes[k].first_prim + span(nodes, nodes[k].left_node as int)
}

/// Leaf `m` owns position `p` of the index array.
pub open spec fn owns<B>(nodes: Seq<BVHNode<B>>, m: int, p: int) -> bool {
    &&& 0 <= m < nodes.len()
    &&& nodes[m].num_prims > 0
    &&& nodes[m].first_prim <= p < nodes[m].first_prim + nodes[m].num_prims
}

/// Some leaf owns position `p`.
pub open spec fn covered<B>(nodes: Seq<BVHNode<B>>, p: int) -> bool {
    exists|m: int| #[trigger] owns(nodes, m, p)
}

/// Every position of the index array belongs to exactly one leaf.
pub open spec fn leaves_partition<B>(nodes: Seq<BVHNode<B>>, n: int) -> bool {
    &&& forall|p: int| 0 <= p < n ==> #[trigger] covered(nodes, p)
    &&& forall|a: int, b: int, p: int| #[trigger]
        owns(nodes, a, p) && #[trigger] owns(nodes, b, p) ==> a == b
}

/// The value `v` stands somewhere in `indices[first .. first + count]`.
pub open spec fn from_slice(indices: Seq<u32>, first: int, count: int, v: u32) -> bool {
    exists|q: int| first <= q < first + count && #[trigger] indices[q] == v
}

/// How the interior node `k` was split. Either the partition by `left_fn`
/// against the node's volume put primitives on both sides: then the first
/// child holds the primitives classified as left and the second child the
/// others. Or the slice was cut in the middle.
pub open spec fn split_rule<B, F: Fn(usize) -> B, S: Fn(&B, &B) -> bool>(
    nodes: Seq<BVHNode<B>>,
    indices: Seq<u32>,
    bbox_fn: F,
    left_fn: S,
    k: int,
) -> bool {
    ||| {
        &&& forall|p: int|
            nodes[k].first_prim <= p < split_point(nodes, k) ==> classified(
                bbox_fn,
                left_fn,
                nodes[k].bbox,
                #[trigger] indices[p] as usize,
                true,
            )
        &&& forall|p: int|
            split_point(nodes, k) <= p < node_end(nodes, k) ==> classified(
                bbox_fn,
                left_fn,
                nodes[k].bbox,
                #[trigger] indices[p] as usize,
                false,
            )
    }
    ||| span(nodes, nodes[k].left_node as int) == span(nodes, k) / 2
}

/// Every interior node was split by the rule.
pub open spec fn all_split_by_rule<B, F: Fn(usize) -> B, S: Fn(&B, &B) -> bool>(
    nodes: Seq<BVHNode<B>>,
    indices: Seq<u32>,
    bbox_fn: F,
    left_fn: S,
) -> bool {
    forall|k: int|
        0 <= k < nodes.len() && (#[trigger] nodes[k]).num_prims == 0 ==> split_rule(
            nodes,
            indices,
            bbox_fn,
            left_fn,
            k,
        )
}

/// The volume `b` was merged from the volumes of the primitives in `order`,
/// one after the other: some volumes that `bbox_fn` may return for them,
/// joined by `union_fn` from the first on, give `b`.
pub open spec fn merged<B, F: Fn(usize) -> B, U: Fn(&B, &B) -> B>(
    bbox_fn: F,
    union_fn: U,
    order: Seq<u32>,
    b: B,
) -> bool
    decreases order.len(),
{
    if order.len() == 0 {
        false
    } else if order.len() == 1 {
        call_ensures(bbox_fn, (order[0] as usize,), b)
    } else {
        exists|before: B, last: B|
            merged(bbox_fn, union_fn, order.drop_last(), before) && call_ensures(
                bbox_fn,
                (order.last() as usize,),
                last,
            ) && #[trigger] call_ensures(union_fn, (&before, &last), b)
    }
}

/// The volume of node `k` was merged from the volumes of exactly the
/// primitives of its slice, each taken once, in some order.
pub open spec fn box_rule<B, F: Fn(usize) -> B, U: Fn(&B, &B) -> B>(
    nodes: Seq<BVHNode<B>>,
    indices: Seq<u32>,
    bbox_fn: F,
    union_fn: U,
    k: int,
) -> bool {
    exists|order: Seq<u32>| #[trigger]
        merged(bbox_fn, union_fn, order, nodes[k].bbox) && order.len() == span(nodes, k)
            && order.no_duplicates() && forall|i: int|
            0 <= i < order.len() ==> from_slice(
                indices,
                nodes[k].first_prim as int,
                span(nodes, k) as int,
                #[trigger] order[i],
            )
}

/// Every node's volume was merged from the volumes of its primitives.
pub open spec fn all_boxes_merged<B, F: Fn(usize) -> B, U: Fn(&B, &B) -> B>(
    nodes: Seq<BVHNode<B>>,
    indices: Seq<u32>,
    bbox_fn: F,
    union_fn: U,
) -> bool {
    forall|k: int| 0 <= k < nodes.len() ==> #[trigger] box_rule(nodes, indices, bbox_fn, union_fn, k)
}

/// The slice `[first, first + count)` lies in one half of the interior node
/// `k`'s slice, or outside of it.
spec fn slice_nested<B>(nodes: Seq<BVHNode<B>>, k: int, first: int, count: int) -> bool {
    ||| nodes[k].first_prim <= first && first + count <= split_point(nodes, k)
    ||| split_point(nodes, k) <= first && first + count <= node_end(nodes, k)
    ||| first + count <= nodes[k].first_prim
    ||| node_end(nodes, k) <= first
}

/// The slice of every leaf lies in one half of every interior node's slice,
/// or outside of it.
spec fn leaves_nested<B>(nodes: Seq<BVHNode<B>>) -> bool {
    forall|k: int, m: int|
        0 <= k < nodes.len() && 0 <= m < nodes.len() && nodes[k].num_prims == 0
            && nodes[m].num_prims > 0 ==> #[trigger] slice_nested(
            nodes,
            k,
            nodes[m].first_prim as int,
            nodes[m].num_prims as int,
        )
}

/// What the volume test answers for `b`.
pub open spec fn box_hit<B, H: Fn(&B) -> bool>(hit_fn: H, b: B) -> bool {
    choose|r: bool| call_ensures(hit_fn, (&b,), r)
}

/// What the primitive test answers for primitive `i`.
pub open spec fn prim_hit<I: Fn(usize) -> Option<u32>>(isect_fn: I, i: usize) -> Option<u32> {
    choose|r: Option<u32>| call_ensures(isect_fn, (i,), r)
}

/// The volume test has one answer for each volume.
pub open spec fn box_test_is_function<B, H: Fn(&B) -> bool>(hit_fn: H) -> bool {
    forall|b: B, r1: bool, r2: bool|
        #[trigger] call_ensures(hit_fn, (&b,), r1) && #[trigger] call_ensures(hit_fn, (&b,), r2)
            ==> r1 == r2
}

/// The primitive test has one answer for each primitive.
pub open spec fn prim_test_is_function<I: Fn(usize) -> Option<u32>>(isect_fn: I) -> bool {
    forall|i: usize, r1: Option<u32>, r2: Option<u32>|
        #[trigger] call_ensures(isect_fn, (i,), r1) && #[trigger] call_ensures(isect_fn, (i,), r2)
            ==> r1 == r2
}

/// The closer of the best hit so far and a candidate: the candidate wins
/// only with a strictly smaller key.
pub open spec fn closer_spec(best: ShapeIntersection, candidate: Option<u32>, id: usize)
    -> ShapeIntersection {
    match candidate {
        Some(t) => if t < best.t {
            ShapeIntersection { t, shape_id: id }
        } else {
            best
        },
        None => best,
    }
}

/// The best hit after testing the primitives at positions
/// `first .. first + count` of `indices`, in that order, starting from `best`.
pub open spec fn visit_leaf<I: Fn(usize) -> Option<u32>>(
    indices: Seq<u32>,
    isect_fn: I,
    first: int,
    count: int,
    best: ShapeIntersection,
) -> ShapeIntersection
    decreases count,
{
    if count <= 0 {
        best
    } else {
        let before = visit_leaf(indices, isect_fn, first, count - 1, best);
        let id = indices[first + count - 1] as usize;
        closer_spec(before, prim_hit(isect_fn, id), id)
    }
}

/// The best hit after walking the subtree of node `k`, starting from `best`:
/// a subtree whose volume the ray misses is skipped, a leaf tests its
/// primitives, an interior node walks its second child, then its first.
pub open spec fn visit<B, H: Fn(&B) -> bool, I: Fn(usize) -> Option<u32>>(
    nodes: Seq<BVHNode<B>>,
    indices: Seq<u32>,
    hit_fn: H,
    isect_fn: I,
    k: int,
    best: ShapeIntersection,
) -> ShapeIntersection
    decreases nodes.len() - k,
{
    if 0 <= k < nodes.len() {
        let node = nodes[k];
        if !box_hit(hit_fn, node.bbox) {
            best
        } else if node.num_prims > 0 {
            visit_leaf(indices, isect_fn, node.first_prim as int, node.num_prims as int, best)
        } else if k < node.left_node && node.left_node + 1 < nodes.len() {
            visit(
                nodes,
                indices,
                hit_fn,
                isect_fn,
                node.left_node as int,
                visit(nodes, indices, hit_fn, isect_fn, node.left_node + 1, best),
            )
        } else {
            best
        }
    } else {
        best
    }
}

/// The best hit after walking the subtrees on the stack, top first.
pub open spec fn visit_pending<B, H: Fn(&B) -> bool, I: Fn(usize) -> Option<u32>>(
    nodes: Seq<BVHNode<B>>,
    indices: Seq<u32>,
    hit_fn: H,
    isect_fn: I,
    stack: Seq<usize>,
    best: ShapeIntersection,
) -> ShapeIntersection
    decreases stack.len(),
{
    if stack.len() == 0 {
        best
    } else {
        visit_pending(
            nodes,
            indices,
            hit_fn,
            isect_fn,
            stack.drop_last(),
            visit(nodes, indices, hit_fn, isect_fn, stack.last() as int, best),
        )
    }
}

/// Work left for a stack of subtrees: each one counts `2 * span - 1`.
pub open spec fn pending_work<B>(nodes: Seq<BVHNode<B>>, stack: Seq<usize>) -> int
    decreases stack.len(),
{
    if stack.len() == 0 {
        0
    } else {
        pending_work(nodes, stack.drop_last()) + 2 * span(nodes, stack.last() as int) - 1
    }
}

/// A walk that ends on the sentinel found nothing.
pub open spec fn as_hit(best: ShapeIntersection) -> Option<ShapeIntersection> {
    if best.t < FARTHEST_HIT {
        Some(best)
    } else {
        None
    }
}

/// The closer of the best hit so far and what the primitive test gave for
/// primitive `id`.
pub fn closer(best: ShapeIntersection, candidate: Option<u32>, id: usize) -> (r: ShapeIntersection)
    ensures
        r == closer_spec(best, candidate, id),
{
    match candidate {
        Some(t) => {
            if t < best.t {
                ShapeIntersection { t, shape_id: id }
            } else {
                best
            }
        },
        None => best,
    }
}


/// The ray meets primitive `i` at a distance key below `key`.
pub open spec fn hit_before<I: Fn(usize) -> Option<u32>>(isect_fn: I, i: usize, key: u32) -> bool {
    match prim_hit(isect_fn, i) {
        Some(t) => t < key,
        None => false,
    }
}

/// The volumes are drawn around the primitives: a ray that meets a
/// primitive before the farthest distance meets the volume of every node
/// whose slice holds the primitive.
pub open spec fn volumes_enclose<B, H: Fn(&B) -> bool, I: Fn(usize) -> Option<u32>>(
    nodes: Seq<BVHNode<B>>,
    indices: Seq<u32>,
    hit_fn: H,
    isect_fn: I,
) -> bool {
    forall|k: int, p: int|
        0 <= k < nodes.len() && (#[trigger] nodes[k]).first_prim <= p < node_end(nodes, k)
            && hit_before(isect_fn, #[trigger] indices[p] as usize, FARTHEST_HIT) ==> box_hit(
            hit_fn,
            nodes[k].bbox,
        )
}

/// `found` is the outcome of a search that started from `best` and looked at
/// the positions `lo .. hi`: it is no farther than `best` and than any hit
/// there, and it is `best` or the hit of a primitive there.
pub open spec fn nearest_in<I: Fn(usize) -> Option<u32>>(
    indices: Seq<u32>,
    isect_fn: I,
    lo: int,
    hi: int,
    best: ShapeIntersection,
    found: ShapeIntersection,
) -> bool {
    &&& found.t <= best.t
    &&& forall|p: int| lo <= p < hi ==> !hit_before(isect_fn, #[trigger] indices[p] as usize, found.t)
    &&& found == best || exists|p: int|
        lo <= p < hi && #[trigger] indices[p] as usize == found.shape_id && prim_hit(
            isect_fn,
            found.shape_id,
        ) == Some(found.t)
}

proof fn lemma_visit_leaf_nearest<I: Fn(usize) -> Option<u32>>(
    indices: Seq<u32>,
    isect_fn: I,
    first: int,
    count: int,
    best: ShapeIntersection,
)
    requires
        0 <= count,
    ensures
        nearest_in(
            indices,
            isect_fn,
            first,
            first + count,
            best,
            visit_leaf(indices, isect_fn, first, count, best),
        ),
    decreases count,
{
    if count > 0 {
        lemma_visit_leaf_nearest(indices, isect_fn, first, count - 1, best);
        let before = visit_leaf(indices, isect_fn, first, count - 1, best);
        let found = visit_leaf(indices, isect_fn, first, count, best);
        let last = first + count - 1;
        if found != best {
            if found == before {
                let p = choose|p: int|
                    first <= p < first + count - 1 && #[trigger] indices[p] as usize
                        == before.shape_id && prim_hit(isect_fn, before.shape_id) == Some(
                        before.t,
                    );
                assert(indices[p] as usize == found.shape_id);
            } else {
                assert(indices[last] as usize == found.shape_id);
            }
        }
    }
}

/// Where the volumes enclose the primitives, the walk of a subtree finds the
/// nearest hit of the subtree's slice.
proof fn lemma_visit_nearest<B, H: Fn(&B) -> bool, I: Fn(usize) -> Option<u32>>(
    nodes: Seq<BVHNode<B>>,
    indices: Seq<u32>,
    hit_fn: H,
    isect_fn: I,
    k: int,
    best: ShapeIntersection,
)
    requires
        tree_wf(nodes, indices),
        volumes_enclose(nodes, indices, hit_fn, isect_fn),
        0 <= k < nodes.len(),
        best.t <= FARTHEST_HIT,
    ensures
        nearest_in(
            indices,
            isect_fn,
            nodes[k].first_prim as int,
            node_end(nodes, k),
            best,
            visit(nodes, indices, hit_fn, isect_fn, k, best),
        ),
    decreases nodes.len() - k,
{
    let node = nodes[k];
    let lo = node.first_prim as int;
    let hi = node_end(nodes, k);
    let found = visit(nodes, indices, hit_fn, isect_fn, k, best);
    assert(node_ok(nodes, indices.len() as int, k));
    if !box_hit(hit_fn, node.bbox) {
        assert forall|p: int| lo <= p < hi implies !hit_before(
            isect_fn,
            #[trigger] indices[p] as usize,
            found.t,
        ) by {
            if hit_before(isect_fn, indices[p] as usize, FARTHEST_HIT) {
                assert(nodes[k].first_prim <= p < node_end(nodes, k));
                assert(box_hit(hit_fn, nodes[k].bbox));
            }
        }
    } else if node.num_prims > 0 {
        lemma_visit_leaf_nearest(indices, isect_fn, lo, node.num_prims as int, best);
    } else {
        let l = node.left_node as int;
        let r = l + 1;
        let mid = split_point(nodes, k);
        assert(node_ok(nodes, indices.len() as int, l));
        assert(node_ok(nodes, indices.len() as int, r));
        let first_found = visit(nodes, indices, hit_fn, isect_fn, r, best);
        lemma_visit_nearest(nodes, indices, hit_fn, isect_fn, r, best);
        lemma_visit_nearest(nodes, indices, hit_fn, isect_fn, l, first_found);
        assert(node_end(nodes, l) == mid);
        assert(node_end(nodes, r) == hi);
        if found != best {
            if found == first_found {
                let p = choose|p: int|
                    mid <= p < hi && #[trigger] indices[p] as usize == first_found.shape_id
                        && prim_hit(isect_fn, first_found.shape_id) == Some(first_found.t);
                assert(lo <= p < hi && indices[p] as usize == found.shape_id);
            } else {
                let p = choose|p: int|
                    lo <= p < mid && #[trigger] indices[p] as usize == found.shape_id && prim_hit(
                        isect_fn,
                        found.shape_id,
                    ) == Some(found.t);
                assert(lo <= p < hi && indices[p] as usize == found.shape_id);
            }
        }
    }
}

/// Every number below the length stands somewhere in a permutation.
pub proof fn lemma_permutation_holds_all(indices: Seq<u32>, v: int) -> (p: int)
    requires
        is_permutation(indices),
        0 <= v < indices.len(),
    ensures
        0 <= p < indices.len(),
        indices[p] == v,
{
    if exists|p: int| 0 <= p < indices.len() && #[trigger] indices[p] == v {
        choose|p: int| 0 <= p < indices.len() && #[trigger] indices[p] == v
    } else {
        // Otherwise the positions would share the other numbers, one too few.
        let m = indices.len() - 1;
        let f = |p: int|
            if indices[p] > v {
                indices[p] - 1
            } else {
                indices[p] as int
            };
        assert forall|p: int| 0 <= p <= m implies 0 <= #[trigger] f(p) < m by {
            assert(indices[p] < indices.len());
            assert(indices[p] != v);
        }
        let (a, b) = lemma_pigeonhole(f, m);
        assert(indices[a] != v && indices[b] != v);
        assert(indices[a] != indices[b]);
        0
    }
}

proof fn lemma_weight_push<B>(nodes: Seq<BVHNode<B>>, node: BVHNode<B>)
    ensures
        total_weight(nodes.push(node)) == total_weight(nodes) + node_weight(node),
{
    assert(nodes.push(node).drop_last() =~= nodes);
}

proof fn lemma_weight_update<B>(nodes: Seq<BVHNode<B>>, k: int, node: BVHNode<B>)
    requires
        0 <= k < nodes.len(),
    ensures
        total_weight(nodes.update(k, node)) == total_weight(nodes) - node_weight(nodes[k])
            + node_weight(node),
    decreases nodes.len(),
{
    let updated = nodes.update(k, node);
    if k == nodes.len() - 1 {
        assert(updated.drop_last() =~= nodes.drop_last());
    } else {
        assert(updated.drop_last() =~= nodes.drop_last().update(k, node));
        lemma_weight_update(nodes.drop_last(), k, node);
    }
}

/// Every node weighs at least 1, so the total bounds the node count.
pub proof fn lemma_weight_bounds_len<B>(nodes: Seq<BVHNode<B>>, k: int)
    requires
        0 <= k < nodes.len(),
    ensures
        total_weight(nodes) >= nodes.len() - 1 + node_weight(nodes[k]),
        total_weight(nodes) >= nodes.len(),
    decreases nodes.len(),
{
    if nodes.len() == 1 {
        assert(total_weight(nodes.drop_last()) == 0);
    } else if k == nodes.len() - 1 {
        lemma_weight_bounds_len(nodes.drop_last(), 0);
    } else {
        lemma_weight_bounds_len(nodes.drop_last(), k);
    }
}

/// Splitting leaf `k` into two new leaves at the end of the vector changes no
/// span of a node that was there before.
proof fn lemma_span_after_split<B>(
    nodes: Seq<BVHNode<B>>,
    after: Seq<BVHNode<B>>,
    n: int,
    k: int,
    j: int,
)
    requires
        0 <= k < nodes.len(),
        0 <= j < nodes.len(),
        forall|m: int| 0 <= m < nodes.len() ==> node_ok(nodes, n, m),
        nodes[k].num_prims > 0,
        after.len() == nodes.len() + 2,
        forall|m: int| 0 <= m < nodes.len() && m != k ==> after[m] == nodes[m],
        after[k].num_prims == 0,
        after[k].left_node == nodes.len(),
        after[nodes.len() as int].num_prims > 0,
        after[nodes.len() as int + 1].num_prims > 0,
        after[nodes.len() as int].num_prims + after[nodes.len() as int + 1].num_prims
            == nodes[k].num_prims,
    ensures
        span(after, j) == span(nodes, j),
    decreases nodes.len() - j,
{
    if j == k {
        assert(span(after, nodes.len() as int) == after[nodes.len() as int].num_prims);
        assert(span(after, nodes.len() as int + 1) == after[nodes.len() as int + 1].num_prims);
    } else if nodes[j].num_prims > 0 {
    } else {
        assert(node_ok(nodes, n, j));
        lemma_span_after_split(nodes, after, n, k, nodes[j].left_node as int);
        lemma_span_after_split(nodes, after, n, k, nodes[j].left_node + 1);
    }
}

/// Every pending subtree holds a primitive, so the work left is never negative.
proof fn lemma_pending_work_bound<B>(nodes: Seq<BVHNode<B>>, n: int, stack: Seq<usize>)
    requires
        forall|k: int| 0 <= k < nodes.len() ==> node_ok(nodes, n, k),
        forall|s: int| 0 <= s < stack.len() ==> (#[trigger] stack[s]) < nodes.len(),
    ensures
        pending_work(nodes, stack) >= stack.len(),
    decreases stack.len(),
{
    if stack.len() > 0 {
        lemma_pending_work_bound(nodes, n, stack.drop_last());
        assert(node_ok(nodes, n, stack.last() as int));
    }
}

/// A split stays by the rule when a slice that lies in one of its halves,
/// or outside of it, is reordered.
proof fn lemma_split_rule_kept<B, F: Fn(usize) -> B, S: Fn(&B, &B) -> bool>(
    nodes: Seq<BVHNode<B>>,
    after: Seq<BVHNode<B>>,
    indices: Seq<u32>,
    indices_after: Seq<u32>,
    bbox_fn: F,
    left_fn: S,
    k: int,
    first: int,
    count: int,
)
    requires
        0 <= k < nodes.len() <= after.len(),
        nodes[k].num_prims == 0,
        after[k] == nodes[k],
        span(after, k) == span(nodes, k),
        span(after, nodes[k].left_node as int) == span(nodes, nodes[k].left_node as int),
        split_rule(nodes, indices, bbox_fn, left_fn, k),
        slice_nested(nodes, k, first, count),
        nodes[k].first_prim <= split_point(nodes, k) <= node_end(nodes, k),
        node_end(nodes, k) <= indices.len(),
        indices.len() == indices_after.len(),
        forall|p: int|
            0 <= p < first || first + count <= p < indices.len() ==> indices_after[p]
                == indices[p],
        forall|p: int|
            first <= p < first + count ==> from_slice(
                indices,
                first,
                count,
                #[trigger] indices_after[p],
            ),
    ensures
        split_rule(after, indices_after, bbox_fn, left_fn, k),
{
    let f = nodes[k].first_prim as int;
    let mid = split_point(nodes, k);
    let e = node_end(nodes, k);
    let bbox = nodes[k].bbox;
    if span(nodes, nodes[k].left_node as int) != span(nodes, k) / 2 {
        assert forall|p: int| f <= p < mid implies classified(
            bbox_fn,
            left_fn,
            bbox,
            #[trigger] indices_after[p] as usize,
            true,
        ) by {
            if first <= p < first + count {
                assert(from_slice(indices, first, count, indices_after[p]));
                let q = choose|q: int|
                    first <= q < first + count && #[trigger] indices[q] == indices_after[p];
                assert(classified(bbox_fn, left_fn, bbox, indices[q] as usize, true));
            } else {
                assert(classified(bbox_fn, left_fn, bbox, indices[p] as usize, true));
            }
        }
        assert forall|p: int| mid <= p < e implies classified(
            bbox_fn,
            left_fn,
            bbox,
            #[trigger] indices_after[p] as usize,
            false,
        ) by {
            if first <= p < first + count {
                assert(from_slice(indices, first, count, indices_after[p]));
                let q = choose|q: int|
                    first <= q < first + count && #[trigger] indices[q] == indices_after[p];
                assert(classified(bbox_fn, left_fn, bbox, indices[q] as usize, false));
            } else {
                assert(classified(bbox_fn, left_fn, bbox, indices[p] as usize, false));
            }
        }
    }
}

/// Leaf `k` of `nodes` was split at position `mid` of its slice: in `after`
/// it is an interior node whose children are two new leaves at the end.
spec fn split_step<B>(nodes: Seq<BVHNode<B>>, after: Seq<BVHNode<B>>, n: int, k: int, mid: int)
    -> bool {
    let len = nodes.len() as int;
    &&& 0 <= k < len
    &&& forall|m: int| 0 <= m < len ==> node_ok(nodes, n, m)
    &&& nodes[k].num_prims > 0
    &&& nodes[k].first_prim < mid < nodes[k].first_prim + nodes[k].num_prims
    &&& after.len() == len + 2
    &&& forall|m: int| 0 <= m < len && m != k ==> after[m] == nodes[m]
    &&& after[k].num_prims == 0
    &&& after[k].left_node == len
    &&& after[k].first_prim == nodes[k].first_prim
    &&& after[k].bbox == nodes[k].bbox
    &&& after[len].first_prim == nodes[k].first_prim
    &&& after[len].num_prims == mid - nodes[k].first_prim
    &&& after[len + 1].first_prim == mid
    &&& after[len + 1].num_prims == nodes[k].first_prim + nodes[k].num_prims - mid
}

proof fn lemma_spans_after_step<B>(
    nodes: Seq<BVHNode<B>>,
    after: Seq<BVHNode<B>>,
    n: int,
    k: int,
    mid: int,
)
    requires
        split_step(nodes, after, n, k, mid),
    ensures
        forall|j: int| 0 <= j < nodes.len() ==> #[trigger] span(after, j) == span(nodes, j),
        span(after, nodes.len() as int) == mid - nodes[k].first_prim,
        span(after, nodes.len() as int + 1) == nodes[k].first_prim + nodes[k].num_prims - mid,
        forall|j: int| 0 <= j < after.len() ==> node_ok(after, n, j),
{
    assert forall|j: int| 0 <= j < nodes.len() implies #[trigger] span(after, j) == span(
        nodes,
        j,
    ) by {
        lemma_span_after_split(nodes, after, n, k, j);
    }
    assert forall|j: int| 0 <= j < after.len() implies node_ok(after, n, j) by {
        if j < nodes.len() {
            assert(node_ok(nodes, n, j));
            assert(node_ok(nodes, n, k));
            if j != k && nodes[j].num_prims == 0 {
                assert(span(after, nodes[j].left_node as int) == span(
                    nodes,
                    nodes[j].left_node as int,
                ));
            }
        } else {
            assert(node_ok(nodes, n, k));
        }
    }
}

proof fn lemma_partition_after_step<B>(
    nodes: Seq<BVHNode<B>>,
    after: Seq<BVHNode<B>>,
    n: int,
    k: int,
    mid: int,
)
    requires
        split_step(nodes, after, n, k, mid),
        leaves_partition(nodes, n),
    ensures
        leaves_partition(after, n),
{
    let l = nodes.len() as int;
    let r = l + 1;
    assert forall|p: int| 0 <= p < n implies #[trigger] covered(after, p) by {
        assert(covered(nodes, p));
        let m = choose|m: int| #[trigger] owns(nodes, m, p);
        if m == k {
            if p < mid {
                assert(owns(after, l, p));
            } else {
                assert(owns(after, r, p));
            }
        } else {
            assert(owns(after, m, p));
        }
    }
    assert forall|a: int, b: int, p: int| #[trigger]
        owns(after, a, p) && #[trigger] owns(after, b, p) implies a == b by {
        if a < l && b < l {
            assert(owns(nodes, a, p) && owns(nodes, b, p));
        } else if a < l {
            assert(owns(nodes, a, p) && owns(nodes, k, p));
        } else if b < l {
            assert(owns(nodes, b, p) && owns(nodes, k, p));
        }
    }
}

proof fn lemma_nested_after_step<B>(
    nodes: Seq<BVHNode<B>>,
    after: Seq<BVHNode<B>>,
    n: int,
    k: int,
    mid: int,
)
    requires
        split_step(nodes, after, n, k, mid),
        leaves_partition(nodes, n),
        leaves_nested(nodes),
    ensures
        leaves_nested(after),
{
    let l = nodes.len() as int;
    let first = nodes[k].first_prim as int;
    let count = nodes[k].num_prims as int;
    lemma_spans_after_step(nodes, after, n, k, mid);
    assert forall|i: int, m: int|
        0 <= i < after.len() && 0 <= m < after.len() && after[i].num_prims == 0
            && after[m].num_prims > 0 implies #[trigger] slice_nested(
        after,
        i,
        after[m].first_prim as int,
        after[m].num_prims as int,
    ) by {
        if i == k {
            if m < l {
                let fm = nodes[m].first_prim as int;
                let em = fm + nodes[m].num_prims;
                if fm < first + count && first < em {
                    let p = if fm < first {
                        first
                    } else {
                        fm
                    };
                    assert(owns(nodes, m, p) && owns(nodes, k, p));
                }
            }
        } else {
            assert(node_ok(nodes, n, i));
            assert(span(after, i) == span(nodes, i));
            assert(span(after, nodes[i].left_node as int) == span(nodes, nodes[i].left_node as int));
            if m < l {
                assert(slice_nested(
                    nodes,
                    i,
                    nodes[m].first_prim as int,
                    nodes[m].num_prims as int,
                ));
            } else {
                assert(slice_nested(nodes, i, first, count));
            }
        }
    }
}

proof fn lemma_rules_after_step<B, F: Fn(usize) -> B, S: Fn(&B, &B) -> bool>(
    nodes: Seq<BVHNode<B>>,
    after: Seq<BVHNode<B>>,
    indices: Seq<u32>,
    indices_after: Seq<u32>,
    bbox_fn: F,
    left_fn: S,
    n: int,
    k: int,
    mid: int,
)
    requires
        split_step(nodes, after, n, k, mid),
        leaves_nested(nodes),
        all_split_by_rule(nodes, indices, bbox_fn, left_fn),
        indices.len() == n,
        indices_after.len() == n,
        forall|p: int|
            0 <= p < nodes[k].first_prim || nodes[k].first_prim + nodes[k].num_prims <= p < n
                ==> indices_after[p] == indices[p],
        forall|p: int|
            nodes[k].first_prim <= p < nodes[k].first_prim + nodes[k].num_prims ==> from_slice(
                indices,
                nodes[k].first_prim as int,
                nodes[k].num_prims as int,
                #[trigger] indices_after[p],
            ),
        split_rule(after, indices_after, bbox_fn, left_fn, k),
    ensures
        all_split_by_rule(after, indices_after, bbox_fn, left_fn),
{
    let first = nodes[k].first_prim as int;
    let count = nodes[k].num_prims as int;
    lemma_spans_after_step(nodes, after, n, k, mid);
    assert forall|i: int|
        0 <= i < after.len() && (#[trigger] after[i]).num_prims == 0 implies split_rule(
        after,
        indices_after,
        bbox_fn,
        left_fn,
        i,
    ) by {
        if i != k {
            assert(nodes[i].num_prims == 0);
            assert(node_ok(nodes, n, i));
            assert(node_ok(nodes, n, nodes[i].left_node as int));
            assert(node_ok(nodes, n, nodes[i].left_node + 1));
            assert(span(after, i) == span(nodes, i));
            assert(span(after, nodes[i].left_node as int) == span(nodes, nodes[i].left_node as int));
            assert(slice_nested(nodes, i, first, count));
            lemma_split_rule_kept(
                nodes,
                after,
                indices,
                indices_after,
                bbox_fn,
                left_fn,
                i,
                first,
                count,
            );
        }
    }
}

/// A node's volume stays merged from the primitives of its slice when a
/// slice that lies inside the node's slice, or outside of it, is reordered.
proof fn lemma_box_rule_kept<B, F: Fn(usize) -> B, U: Fn(&B, &B) -> B>(
    nodes: Seq<BVHNode<B>>,
    after: Seq<BVHNode<B>>,
    indices: Seq<u32>,
    indices_after: Seq<u32>,
    bbox_fn: F,
    union_fn: U,
    k: int,
    first: int,
    count: int,
)
    requires
        0 <= k < nodes.len() <= after.len(),
        after[k].bbox == nodes[k].bbox,
        after[k].first_prim == nodes[k].first_prim,
        span(after, k) == span(nodes, k),
        box_rule(nodes, indices, bbox_fn, union_fn, k),
        (nodes[k].first_prim <= first && first + count <= node_end(nodes, k)) || first + count
            <= nodes[k].first_prim || node_end(nodes, k) <= first,
        node_end(nodes, k) <= indices.len(),
        indices.len() == indices_after.len(),
        0 <= first,
        forall|p: int|
            0 <= p < first || first + count <= p < indices.len() ==> indices_after[p]
                == indices[p],
        forall|q: int|
            first <= q < first + count ==> from_slice(
                indices_after,
                first,
                count,
                #[trigger] indices[q],
            ),
    ensures
        box_rule(after, indices_after, bbox_fn, union_fn, k),
{
    let lo = nodes[k].first_prim as int;
    let len = span(nodes, k) as int;
    let order = choose|order: Seq<u32>| #[trigger]
        merged(bbox_fn, union_fn, order, nodes[k].bbox) && order.len() == span(nodes, k)
            && order.no_duplicates() && forall|i: int|
            0 <= i < order.len() ==> from_slice(indices, lo, len, #[trigger] order[i]);
    assert forall|i: int| 0 <= i < order.len() implies from_slice(
        indices_after,
        lo,
        len,
        #[trigger] order[i],
    ) by {
        assert(from_slice(indices, lo, len, order[i]));
        let q = choose|q: int| lo <= q < lo + len && #[trigger] indices[q] == order[i];
        if first <= q < first + count {
            assert(from_slice(indices_after, first, count, indices[q]));
            let p = choose|p: int|
                first <= p < first + count && #[trigger] indices_after[p] == indices[q];
            assert(lo <= p < lo + len && indices_after[p] == order[i]);
        } else {
            assert(indices_after[q] == order[i]);
        }
    }
}

proof fn lemma_boxes_after_step<B, F: Fn(usize) -> B, U: Fn(&B, &B) -> B>(
    nodes: Seq<BVHNode<B>>,
    after: Seq<BVHNode<B>>,
    indices: Seq<u32>,
    indices_after: Seq<u32>,
    bbox_fn: F,
    union_fn: U,
    n: int,
    k: int,
    mid: int,
)
    requires
        split_step(nodes, after, n, k, mid),
        leaves_partition(nodes, n),
        leaves_nested(nodes),
        all_boxes_merged(nodes, indices, bbox_fn, union_fn),
        indices.len() == n,
        indices_after.len() == n,
        forall|p: int|
            0 <= p < nodes[k].first_prim || nodes[k].first_prim + nodes[k].num_prims <= p < n
                ==> indices_after[p] == indices[p],
        forall|q: int|
            nodes[k].first_prim <= q < nodes[k].first_prim + nodes[k].num_prims ==> from_slice(
                indices_after,
                nodes[k].first_prim as int,
                nodes[k].num_prims as int,
                #[trigger] indices[q],
            ),
        box_rule(after, indices_after, bbox_fn, union_fn, nodes.len() as int),
        box_rule(after, indices_after, bbox_fn, union_fn, nodes.len() as int + 1),
    ensures
        all_boxes_merged(after, indices_after, bbox_fn, union_fn),
{
    let first = nodes[k].first_prim as int;
    let count = nodes[k].num_prims as int;
    lemma_spans_after_step(nodes, after, n, k, mid);
    assert forall|i: int| 0 <= i < after.len() implies #[trigger] box_rule(
        after,
        indices_after,
        bbox_fn,
        union_fn,
        i,
    ) by {
        if i < nodes.len() {
            assert(node_ok(nodes, n, i));
            assert(node_ok(nodes, n, k));
            assert(span(after, i) == span(nodes, i));
            assert(box_rule(nodes, indices, bbox_fn, union_fn, i));
            if i != k {
                if nodes[i].num_prims == 0 {
                    assert(node_ok(nodes, n, nodes[i].left_node as int));
                    assert(slice_nested(nodes, i, first, count));
                } else {
                    // two leaves share no position
                    let fi = nodes[i].first_prim as int;
                    let ei = fi + nodes[i].num_prims;
                    if fi < first + count && first < ei {
                        let p = if fi < first {
                            first
                        } else {
                            fi
                        };
                        assert(owns(nodes, i, p) && owns(nodes, k, p));
                    }
                }
            }
            lemma_box_rule_kept(
                nodes,
                after,
                indices,
                indices_after,
                bbox_fn,
                union_fn,
                i,
                first,
                count,
            );
        }
    }
}

/// A leaf whose volume was merged from its slice as it stands is by the rule.
proof fn lemma_slice_box_rule<B, F: Fn(usize) -> B, U: Fn(&B, &B) -> B>(
    nodes: Seq<BVHNode<B>>,
    indices: Seq<u32>,
    bbox_fn: F,
    union_fn: U,
    k: int,
)
    requires
        0 <= k < nodes.len(),
        nodes[k].num_prims > 0,
        nodes[k].first_prim + nodes[k].num_prims <= indices.len(),
        is_permutation(indices),
        merged(
            bbox_fn,
            union_fn,
            indices.subrange(
                nodes[k].first_prim as int,
                nodes[k].first_prim + nodes[k].num_prims,
            ),
            nodes[k].bbox,
        ),
    ensures
        box_rule(nodes, indices, bbox_fn, union_fn, k),
{
    let first = nodes[k].first_prim as int;
    let count = nodes[k].num_prims as int;
    let order = indices.subrange(first, first + count);
    assert forall|i: int| 0 <= i < order.len() implies from_slice(
        indices,
        first,
        count,
        #[trigger] order[i],
    ) by {
        assert(indices[first + i] == order[i]);
    }
    assert(order.no_duplicates()) by {
        assert forall|i: int, j: int| 0 <= i < order.len() && 0 <= j < order.len() && i
            != j implies order[i] != order[j] by {
            assert(indices[first + i] != indices[first + j]);
        }
    }
    assert(span(nodes, k) == count);
}

/// Merges the volumes of the primitives in `indices[start .. start + count]`.
fn calculate_bbox<B, F: Fn(usize) -> B, U: Fn(&B, &B) -> B>(
    indices: &Vec<u32>,
    start: usize,
    count: usize,
    bbox_fn: &F,
    union_fn: &U,
) -> (bbox: B)
    requires
        count > 0,
        start + count <= indices.len(),
        is_permutation(indices@),
        forall|i: usize| i < indices.len() ==> call_requires(*bbox_fn, (i,)),
        forall|a: &B, b: &B| call_requires(*union_fn, (a, b)),
    ensures
        merged(*bbox_fn, *union_fn, indices@.subrange(start as int, start + count), bbox),
{
    let mut bbox = bbox_fn(indices[start] as usize);
    let mut i: usize = start + 1;
    assert(indices@.subrange(start as int, start + 1)[0] == indices@[start as int]);
    while i < start + count
        invariant
            start < i <= start + count,
            start + count <= indices.len(),
            is_permutation(indices@),
            forall|i: usize| i < indices.len() ==> call_requires(*bbox_fn, (i,)),
            forall|a: &B, b: &B| call_requires(*union_fn, (a, b)),
            merged(*bbox_fn, *union_fn, indices@.subrange(start as int, i as int), bbox),
        decreases start + count - i,
    {
        let prim_box = bbox_fn(indices[i] as usize);
        let joined = union_fn(&bbox, &prim_box);
        proof {
            let longer = indices@.subrange(start as int, i + 1);
            assert(longer.drop_last() =~= indices@.subrange(start as int, i as int));
            assert(longer.last() == indices@[i as int]);
            assert(call_ensures(*union_fn, (&bbox, &prim_box), joined));
        }
        bbox = joined;
        i += 1;
    }
    bbox
}

/// Two-pointer partition of `indices[first .. first + count]`: primitives
/// that `left_fn` puts left of the node's split come first. Returns where
/// the right part begins.
fn partition_primitives<B, F: Fn(usize) -> B, S: Fn(&B, &B) -> bool>(
    indices: &mut Vec<u32>,
    bbox: &B,
    first: usize,
    count: usize,
    bbox_fn: &F,
    left_fn: &S,
) -> (mid: usize)
    requires
        first + count <= old(indices).len(),
        is_permutation(old(indices)@),
        forall|i: usize| i < old(indices).len() ==> call_requires(*bbox_fn, (i,)),
        forall|a: &B, b: &B| call_requires(*left_fn, (a, b)),
    ensures
        final(indices).len() == old(indices).len(),
        is_permutation(final(indices)@),
        first <= mid <= first + count,
        forall|p: int|
            0 <= p < first || first + count <= p < old(indices).len() ==> final(indices)[p]
                == old(indices)[p],
        forall|p: int|
            first <= p < first + count ==> from_slice(
                old(indices)@,
                first as int,
                count as int,
                #[trigger] final(indices)[p],
            ),
        forall|q: int|
            first <= q < first + count ==> from_slice(
                final(indices)@,
                first as int,
                count as int,
                #[trigger] old(indices)[q],
            ),
        forall|p: int|
            first <= p < mid ==> classified(
                *bbox_fn,
                *left_fn,
                *bbox,
                #[trigger] final(indices)[p] as usize,
                true,
            ),
        forall|p: int|
            mid <= p < first + count ==> classified(
                *bbox_fn,
                *left_fn,
                *bbox,
                #[trigger] final(indices)[p] as usize,
                false,
            ),
{
    let mut i: usize = first;
    let mut j: usize = first + count;
    assert forall|p: int| first <= p < first + count implies from_slice(
        indices@,
        first as int,
        count as int,
        #[trigger] indices[p],
    ) by {
        assert(indices@[p] == indices[p]);
    }
    while i < j
        invariant
            first <= i <= j <= first + count,
            first + count <= indices.len(),
            indices.len() == old(indices).len(),
            is_permutation(indices@),
            forall|i: usize| i < indices.len() ==> call_requires(*bbox_fn, (i,)),
            forall|a: &B, b: &B| call_requires(*left_fn, (a, b)),
            forall|p: int|
                0 <= p < first || first + count <= p < indices.len()
                    ==> indices[p] == old(indices)[p],
            forall|p: int|
                first <= p < first + count ==> from_slice(
                    old(indices)@,
                    first as int,
                    count as int,
                    #[trigger] indices[p],
                ),
            forall|q: int|
                first <= q < first + count ==> from_slice(
                    indices@,
                    first as int,
                    count as int,
                    #[trigger] old(indices)[q],
                ),
            forall|p: int|
                first <= p < i ==> classified(
                    *bbox_fn,
                    *left_fn,
                    *bbox,
                    #[trigger] indices[p] as usize,
                    true,
                ),
            forall|p: int|
                j <= p < first + count ==> classified(
                    *bbox_fn,
                    *left_fn,
                    *bbox,
                    #[trigger] indices[p] as usize,
                    false,
                ),
        decreases j - i,
    {
        let prim = indices[i];
        let prim_box = bbox_fn(prim as usize);
        let goes_left = left_fn(bbox, &prim_box);
        assert(classified(*bbox_fn, *left_fn, *bbox, prim as usize, goes_left)) by {
            assert(call_ensures(*bbox_fn, (prim as usize,), prim_box));
        }
        if goes_left {
            i += 1;
        } else {
            let ghost before = indices@;
            let other = indices[j - 1];
            indices.set(j - 1, prim);
            indices.set(i, other);
            proof {
                assert forall|q: int| first <= q < first + count implies from_slice(
                    indices@,
                    first as int,
                    count as int,
                    #[trigger] old(indices)[q],
                ) by {
                    assert(from_slice(before, first as int, count as int, old(indices)[q]));
                    let p = choose|p: int|
                        first <= p < first + count && #[trigger] before[p] == old(indices)[q];
                    if p == i {
                        assert(indices@[j - 1] == old(indices)[q]);
                    } else if p == j - 1 {
                        assert(indices@[i as int] == old(indices)[q]);
                    } else {
                        assert(indices@[p] == old(indices)[q]);
                    }
                }
            }
            j -= 1;
        }
    }
    i
}

impl<B> BVH<B> {
    /// The nodes, root first.
    pub closed spec fn nodes(&self) -> Seq<BVHNode<B>> {
        self.nodes@
    }

    /// The order in which the leaves refer to the primitives.
    pub closed spec fn indices(&self) -> Seq<u32> {
        self.primitive_indices@
    }

    pub open spec fn wf(&self) -> bool {
        tree_wf(self.nodes(), self.indices())
    }

    /// A hierarchy over no primitives.
    pub fn new() -> (bvh: Self)
        ensures
            bvh.wf(),
            bvh.nodes().len() == 0,
            bvh.indices().len() == 0,
    {
        Self { nodes: Vec::new(), primitive_indices: Vec::new() }
    }

    pub fn node_count(&self) -> (n: usize)
        ensures
            n == self.nodes().len(),
    {
        self.nodes.len()
    }

    pub fn primitive_count(&self) -> (n: usize)
        ensures
            n == self.indices().len(),
    {
        self.primitive_indices.len()
    }

    /// Node `k`'s place in the tree: its first child, the start of its slice
    /// and its primitive count (0 for an interior node).
    pub fn node_layout(&self, k: usize) -> (r: Option<(u32, u32, u32)>)
        ensures
            k < self.nodes().len() ==> r == Some(
                (
                    self.nodes()[k as int].left_node,
                    self.nodes()[k as int].first_prim,
                    self.nodes()[k as int].num_prims,
                ),
            ),
            k >= self.nodes().len() ==> r.is_none(),
    {
        if k < self.nodes.len() {
            let node = &self.nodes[k];
            Some((node.left_node, node.first_prim, node.num_prims))
        } else {
            None
        }
    }

    /// The primitive stored at position `p` of the index array.
    pub fn primitive_at(&self, p: usize) -> (r: Option<u32>)
        ensures
            p < self.indices().len() ==> r == Some(self.indices()[p as int]),
            p >= self.indices().len() ==> r.is_none(),
    {
        if p < self.primitive_indices.len() {
            Some(self.primitive_indices[p])
        } else {
            None
        }
    }

    /// Builds the hierarchy over the primitives `0 .. n_primitives`, top
    /// down. A node with more than two primitives is split: its slice is
    /// partitioned by `left_fn` against the node's volume, or cut in the
    /// middle when that leaves one side empty, and the two halves become
    /// children stored next to each other.
    pub fn build<F, U, S>(&mut self, n_primitives: usize, bbox_fn: F, union_fn: U, left_fn: S) where
        F: Fn(usize) -> B,
        U: Fn(&B, &B) -> B,
        S: Fn(&B, &B) -> bool,

        requires
            n_primitives <= 0x8000_0000,
            forall|i: usize| i < n_primitives ==> call_requires(bbox_fn, (i,)),
            forall|a: &B, b: &B| call_requires(union_fn, (a, b)),
            forall|a: &B, b: &B| call_requires(left_fn, (a, b)),
        ensures
            final(self).wf(),
            final(self).indices().len() == n_primitives,
            n_primitives > 0 ==> 1 <= final(self).nodes().len() <= 2 * n_primitives - 1,
            forall|k: int|
                0 <= k < final(self).nodes().len()
                    ==> (#[trigger] final(self).nodes()[k]).num_prims <= 2,
            leaves_partition(final(self).nodes(), n_primitives as int),
            all_split_by_rule(final(self).nodes(), final(self).indices(), bbox_fn, left_fn),
            all_boxes_merged(final(self).nodes(), final(self).indices(), bbox_fn, union_fn),
    {
        let mut indices: Vec<u32> = Vec::new();
        let mut p: usize = 0;
        while p < n_primitives
            invariant
                p <= n_primitives <= 0x8000_0000,
                indices.len() == p,
                forall|q: int| 0 <= q < p ==> indices[q] == q,
            decreases n_primitives - p,
        {
            indices.push(p as u32);
            p += 1;
        }
        let mut nodes: Vec<BVHNode<B>> = Vec::new();
        if n_primitives == 0 {
            self.nodes = nodes;
            self.primitive_indices = indices;
            return ;
        }
        let root_box = calculate_bbox(&indices, 0, n_primitives, &bbox_fn, &union_fn);
        nodes.push(
            BVHNode { bbox: root_box, left_node: 0, first_prim: 0, num_prims: n_primitives as u32 },
        );
        proof {
            assert(nodes@.drop_last() =~= Seq::<BVHNode<B>>::empty());
            assert(total_weight(nodes@.drop_last()) == 0);
        }
        let mut stack: Vec<usize> = Vec::new();
        stack.push(0);
        assert(stack@[0] == 0);
        proof {
            assert forall|p: int| 0 <= p < n_primitives implies #[trigger] covered(nodes@, p) by {
                assert(owns(nodes@, 0, p));
            }
            lemma_slice_box_rule(nodes@, indices@, bbox_fn, union_fn, 0);
        }
        while stack.len() > 0
            invariant
                0 < n_primitives <= 0x8000_0000,
                indices.len() == n_primitives,
                tree_wf(nodes@, indices@),
                leaves_partition(nodes@, n_primitives as int),
                leaves_nested(nodes@),
                all_split_by_rule(nodes@, indices@, bbox_fn, left_fn),
                all_boxes_merged(nodes@, indices@, bbox_fn, union_fn),
                forall|i: usize| i < n_primitives ==> call_requires(bbox_fn, (i,)),
                forall|a: &B, b: &B| call_requires(union_fn, (a, b)),
                forall|a: &B, b: &B| call_requires(left_fn, (a, b)),
                forall|s: int| 0 <= s < stack.len() ==> (#[trigger] stack[s]) < nodes.len(),
                forall|k: int|
                    0 <= k < nodes.len() && (#[trigger] nodes[k]).num_prims > 2 ==> exists|s: int|
                        0 <= s < stack.len() && #[trigger] stack[s] == k,
            decreases 2 * (2 * n_primitives - 1 - nodes.len()) + stack.len(),
        {
            proof {
                lemma_weight_bounds_len(nodes@, 0);
            }
            let ghost stack_before = stack@;
            let node_idx = stack.pop().unwrap();
            let first_prim = nodes[node_idx].first_prim;
            let num_prims = nodes[node_idx].num_prims;
            if num_prims > 2 {
                let ghost nodes_before = nodes@;
                proof {
                    assert(node_ok(nodes@, n_primitives as int, node_idx as int));
                    lemma_weight_bounds_len(nodes@, node_idx as int);
                }
                let first = first_prim as usize;
                let count = num_prims as usize;
                let ghost indices_before = indices@;
                let ghost node_box = nodes[node_idx as int].bbox;
                let mut mid = partition_primitives(
                    &mut indices,
                    &nodes[node_idx].bbox,
                    first,
                    count,
                    &bbox_fn,
                    &left_fn,
                );
                let ghost cut = mid;
                if mid == first || mid == first + count {
                    mid = first + count / 2;
                }
                let left_count = mid - first;
                let right_count = count - left_count;
                let left_box = calculate_bbox(&indices, first, left_count, &bbox_fn, &union_fn);
                let right_box = calculate_bbox(&indices, mid, right_count, &bbox_fn, &union_fn);
                let left_idx = nodes.len();
                let left_node = BVHNode {
                    bbox: left_box,
                    left_node: 0,
                    first_prim,
                    num_prims: left_count as u32,
                };
                let right_node = BVHNode {
                    bbox: right_box,
                    left_node: 0,
                    first_prim: mid as u32,
                    num_prims: right_count as u32,
                };
                nodes[node_idx].left_node = left_idx as u32;
                nodes[node_idx].num_prims = 0;
                let ghost nodes_updated = nodes@;
                nodes.push(left_node);
                nodes.push(right_node);
                stack.push(left_idx);
                stack.push(left_idx + 1);
                proof {
                    let n = n_primitives as int;
                    let k = node_idx as int;
                    lemma_weight_update(nodes_before, k, nodes_updated[k]);
                    assert(nodes_updated =~= nodes_before.update(k, nodes_updated[k]));
                    lemma_weight_push(nodes_updated, left_node);
                    lemma_weight_push(nodes_updated.push(left_node), right_node);
                    assert(split_step(nodes_before, nodes@, n, k, mid as int));
                    lemma_spans_after_step(nodes_before, nodes@, n, k, mid as int);
                    lemma_partition_after_step(nodes_before, nodes@, n, k, mid as int);
                    lemma_nested_after_step(nodes_before, nodes@, n, k, mid as int);
                    assert(split_rule(nodes@, indices@, bbox_fn, left_fn, k)) by {
                        assert(nodes@[k].bbox == node_box);
                        assert(split_point(nodes@, k) == mid);
                        assert(node_end(nodes@, k) == first + count);
                        if cut == mid {
                            assert forall|p: int| first <= p < mid implies classified(
                                bbox_fn,
                                left_fn,
                                node_box,
                                #[trigger] indices@[p] as usize,
                                true,
                            ) by {}
                            assert forall|p: int| mid <= p < first + count implies classified(
                                bbox_fn,
                                left_fn,
                                node_box,
                                #[trigger] indices@[p] as usize,
                                false,
                            ) by {}
                        }
                    }
                    lemma_rules_after_step(
                        nodes_before,
                        nodes@,
                        indices_before,
                        indices@,
                        bbox_fn,
                        left_fn,
                        n,
                        k,
                        mid as int,
                    );
                    lemma_slice_box_rule(nodes@, indices@, bbox_fn, union_fn, nodes_before.len() as int);
                    lemma_slice_box_rule(
                        nodes@,
                        indices@,
                        bbox_fn,
                        union_fn,
                        nodes_before.len() as int + 1,
                    );
                    lemma_boxes_after_step(
                        nodes_before,
                        nodes@,
                        indices_before,
                        indices@,
                        bbox_fn,
                        union_fn,
                        n,
                        k,
                        mid as int,
                    );
                    assert forall|m: int|
                        0 <= m < nodes@.len() && (#[trigger] nodes@[m]).num_prims
                            > 2 implies exists|s: int|
                        0 <= s < stack@.len() && #[trigger] stack@[s] == m by {
                        if m < nodes_before.len() {
                            assert(nodes_before[m].num_prims > 2);
                            let s = choose|s: int|
                                0 <= s < stack_before.len() && #[trigger] stack_before[s] == m;
                            assert(s < stack_before.len() - 1);
                            assert(stack@[s] == m);
                        } else if m == nodes_before.len() {
                            assert(stack@[stack@.len() - 2] == m);
                        } else {
                            assert(stack@[stack@.len() - 1] == m);
                        }
                    }
                }
            } else {
                proof {
                    assert forall|m: int|
                        0 <= m < nodes@.len() && (#[trigger] nodes@[m]).num_prims
                            > 2 implies exists|s: int|
                        0 <= s < stack@.len() && #[trigger] stack@[s] == m by {
                        let s = choose|s: int|
                            0 <= s < stack_before.len() && #[trigger] stack_before[s] == m;
                        assert(stack@[s] == m);
                    }
                }
            }
        }
        proof {
            lemma_weight_bounds_len(nodes@, 0);
        }
        self.nodes = nodes;
        self.primitive_indices = indices;
    }
    /// The hit that a walk of the whole tree ends with.
    pub open spec fn closest<H: Fn(&B) -> bool, I: Fn(usize) -> Option<u32>>(
        &self,
        hit_fn: H,
        isect_fn: I,
    ) -> Option<ShapeIntersection> {
        as_hit(
            visit(
                self.nodes(),
                self.indices(),
                hit_fn,
                isect_fn,
                0,
                ShapeIntersection { t: FARTHEST_HIT, shape_id: 0 },
            ),
        )
    }

    /// Finds the closest primitive that a ray meets. `hit_fn` tells whether
    /// the ray meets a node's volume, `isect_fn` gives the distance key at
    /// which it meets a primitive. Subtrees are walked with an explicit
    /// stack; of two hits with the same key the one tested first stays.
    pub fn intersect<H, I>(&self, hit_fn: H, isect_fn: I) -> (r: Option<ShapeIntersection>) where
        H: Fn(&B) -> bool,
        I: Fn(usize) -> Option<u32>,

        requires
            self.wf(),
            forall|b: &B| call_requires(hit_fn, (b,)),
            forall|i: usize| i < self.indices().len() ==> call_requires(isect_fn, (i,)),
            box_test_is_function(hit_fn),
            prim_test_is_function(isect_fn),
        ensures
            r == self.closest(hit_fn, isect_fn),
    {
        let mut best = ShapeIntersection { t: FARTHEST_HIT, shape_id: 0 };
        let node_count = self.nodes.len();
        let prim_count = self.primitive_indices.len();
        if node_count == 0 {
            return None;
        }
        let ghost start = best;
        let ghost nodes = self.nodes@;
        let ghost indices = self.primitive_indices@;
        let mut stack: Vec<usize> = Vec::new();
        stack.push(0);
        proof {
            assert(stack@.drop_last() =~= Seq::<usize>::empty());
            let after_root = visit(nodes, indices, hit_fn, isect_fn, 0, best);
            assert(visit_pending(nodes, indices, hit_fn, isect_fn, stack@.drop_last(), after_root)
                == after_root);
        }
        while stack.len() > 0
            invariant
                self.wf(),
                nodes == self.nodes@,
                indices == self.primitive_indices@,
                nodes.len() == node_count > 0,
                indices.len() == prim_count,
                forall|b: &B| call_requires(hit_fn, (b,)),
                forall|i: usize| i < prim_count ==> call_requires(isect_fn, (i,)),
                box_test_is_function(hit_fn),
                prim_test_is_function(isect_fn),
                forall|s: int| 0 <= s < stack.len() ==> (#[trigger] stack[s]) < node_count,
                visit_pending(nodes, indices, hit_fn, isect_fn, stack@, best) == visit(
                    nodes,
                    indices,
                    hit_fn,
                    isect_fn,
                    0,
                    start,
                ),
            decreases pending_work(nodes, stack@),
        {
            let ghost stack_before = stack@;
            let ghost best_before = best;
            let node_idx = stack.pop().unwrap();
            let node = &self.nodes[node_idx];
            let ghost rest = stack@;
            proof {
                assert(rest =~= stack_before.drop_last());
                assert(node_ok(nodes, prim_count as int, node_idx as int));
                lemma_pending_work_bound(nodes, prim_count as int, rest);
                assert(pending_work(nodes, stack_before) == pending_work(nodes, rest) + 2 * span(
                    nodes,
                    node_idx as int,
                ) - 1);
                assert(visit_pending(nodes, indices, hit_fn, isect_fn, stack_before, best_before)
                    == visit_pending(
                    nodes,
                    indices,
                    hit_fn,
                    isect_fn,
                    rest,
                    visit(nodes, indices, hit_fn, isect_fn, node_idx as int, best_before),
                ));
            }
            let hit = hit_fn(&node.bbox);
            assert(hit == box_hit(hit_fn, node.bbox));
            if hit {
                if node.is_leaf() {
                    let first = node.first_prim as usize;
                    let count = node.num_prims as usize;
                    let mut i: usize = 0;
                    while i < count
                        invariant
                            i <= count,
                            first + count <= prim_count,
                            indices == self.primitive_indices@,
                            indices.len() == prim_count,
                            is_permutation(indices),
                            forall|i: usize| i < prim_count ==> call_requires(isect_fn, (i,)),
                            prim_test_is_function(isect_fn),
                            best == visit_leaf(indices, isect_fn, first as int, i as int, best_before),
                        decreases count - i,
                    {
                        let idx = self.primitive_indices[first + i] as usize;
                        let result = isect_fn(idx);
                        assert(result == prim_hit(isect_fn, idx));
                        best = closer(best, result, idx);
                        i += 1;
                    }
                } else {
                    let left = node.left_node as usize;
                    stack.push(left);
                    stack.push(left + 1);
                    proof {
                        let one = rest.push(left);
                        assert(stack@.drop_last() =~= one);
                        assert(one.drop_last() =~= rest);
                        let after_second = visit(
                            nodes,
                            indices,
                            hit_fn,
                            isect_fn,
                            left as int + 1,
                            best,
                        );
                        assert(visit_pending(nodes, indices, hit_fn, isect_fn, stack@, best)
                            == visit_pending(nodes, indices, hit_fn, isect_fn, one, after_second));
                        assert(visit_pending(nodes, indices, hit_fn, isect_fn, one, after_second)
                            == visit_pending(
                            nodes,
                            indices,
                            hit_fn,
                            isect_fn,
                            rest,
                            visit(nodes, indices, hit_fn, isect_fn, left as int, after_second),
                        ));
                        assert(pending_work(nodes, stack@) == pending_work(nodes, one) + 2 * span(
                            nodes,
                            left as int + 1,
                        ) - 1);
                        assert(pending_work(nodes, one) == pending_work(nodes, rest) + 2 * span(
                            nodes,
                            left as int,
                        ) - 1);
                        assert(span(nodes, node_idx as int) == span(nodes, left as int) + span(
                            nodes,
                            left as int + 1,
                        ));
                    }
                }
            }
        }
        if best.t < FARTHEST_HIT {
            Some(best)
        } else {
            None
        }
    }
    /// Completeness of the search: where the volumes enclose the primitives,
    /// the walk of the tree finds a nearest hit among all primitives, as a
    /// test of every primitive would. It finds none only where no primitive
    /// is hit before the farthest distance.
    pub proof fn lemma_closest_is_nearest<H: Fn(&B) -> bool, I: Fn(usize) -> Option<u32>>(
        &self,
        hit_fn: H,
        isect_fn: I,
    )
        requires
            self.wf(),
            volumes_enclose(self.nodes(), self.indices(), hit_fn, isect_fn),
        ensures
            match self.closest(hit_fn, isect_fn) {
                Some(hit) => {
                    &&& hit.t < FARTHEST_HIT
                    &&& hit.shape_id < self.indices().len()
                    &&& prim_hit(isect_fn, hit.shape_id) == Some(hit.t)
                    &&& forall|i: usize|
                        i < self.indices().len() ==> !#[trigger] hit_before(isect_fn, i, hit.t)
                },
                None => forall|i: usize|
                    i < self.indices().len() ==> !#[trigger] hit_before(isect_fn, i, FARTHEST_HIT),
            },
    {
        let nodes = self.nodes();
        let indices = self.indices();
        let n = indices.len() as int;
        let start = ShapeIntersection { t: FARTHEST_HIT, shape_id: 0 };
        let found = visit(nodes, indices, hit_fn, isect_fn, 0, start);
        if n > 0 {
            lemma_visit_nearest(nodes, indices, hit_fn, isect_fn, 0, start);
            assert(node_end(nodes, 0) == n);
            assert forall|i: usize| i < n implies !#[trigger] hit_before(isect_fn, i, found.t) by {
                let p = lemma_permutation_holds_all(indices, i as int);
                assert(indices[p] as usize == i);
            }
            if found.t < FARTHEST_HIT {
                let p = choose|p: int|
                    0 <= p < n && #[trigger] indices[p] as usize == found.shape_id && prim_hit(
                        isect_fn,
                        found.shape_id,
                    ) == Some(found.t);
                assert(indices[p] < n);
            }
        }
    }
    /// A hierarchy over `n` primitives has at most `2n - 1` nodes.
    pub proof fn lemma_node_count(&self)
        requires
            self.wf(),
            self.indices().len() > 0,
        ensures
            1 <= self.nodes().len() <= 2 * self.indices().len() - 1,
    {
        lemma_weight_bounds_len(self.nodes(), 0);
    }
}

} // verus!
