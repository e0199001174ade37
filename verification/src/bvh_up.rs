//! A bounding-volume hierarchy that is built from the leaves up: as long as
//! more than one tree is left, the two trees whose joint volume has the
//! smallest area are joined under a new node.
//!
//! Like the top-down hierarchy it is generic in the volume `B`. The area of
//! a volume comes in as a key, a number that orders as the areas do: the
//! bit pattern of the area in single precision, with the sign bit set for
//! an area from zero up and with every bit turned for an area below zero.
//! Keys from `INFINITE_AREA` on stand for no area at all.

use vstd::prelude::*;
use crate::bvh::{
    as_hit,
    box_hit,
    box_test_is_function,
    closer,
    closer_spec,
    prim_hit,
    prim_test_is_function,
    FARTHEST_HIT,
};
use crate::shapes::ShapeIntersection;

verus! {

/// The key of an infinite area. A pair of trees is joined only if the key
/// of its joint area is below.
pub const INFINITE_AREA: u32 = 0xff80_0000;

/// One node: a leaf with its primitive, or the join of two earlier nodes.
pub struct BVHUpNode<B> {
    pub bbox: B,
    pub is_leaf: bool,
    pub left_node: u32,
    pub right_node: u32,
    pub primitive_id: u32,
}

/// The hierarchy: the leaves of the primitives `0 .. n` first, then the
/// joins in the order in which they were made. Where the building came to
/// its end the last node is the root.
pub struct BVHUp<B> {
    nodes: Vec<BVHUpNode<B>>,
    leaves: usize,
}

/// What `union_fn` makes of two volumes.
pub open spec fn union_of<B, U: Fn(&B, &B) -> B>(union_fn: U, a: B, b: B) -> B {
    choose|u: B| call_ensures(union_fn, (&a, &b), u)
}

/// The area key that `area_fn` gives for a volume.
pub open spec fn area_of<B, A: Fn(&B) -> u32>(area_fn: A, b: B) -> u32 {
    choose|key: u32| call_ensures(area_fn, (&b,), key)
}

/// `union_fn` has one result for each pair of volumes.
pub open spec fn union_is_function<B, U: Fn(&B, &B) -> B>(union_fn: U) -> bool {
    forall|a: B, b: B, u1: B, u2: B|
        #[trigger] call_ensures(union_fn, (&a, &b), u1) && #[trigger] call_ensures(
            union_fn,
            (&a, &b),
            u2,
        ) ==> u1 == u2
}

/// `area_fn` has one result for each volume.
pub open spec fn area_is_function<B, A: Fn(&B) -> u32>(area_fn: A) -> bool {
    forall|b: B, k1: u32, k2: u32|
        #[trigger] call_ensures(area_fn, (&b,), k1) && #[trigger] call_ensures(area_fn, (&b,), k2)
            ==> k1 == k2
}

/// The area key of the joint volume of the nodes `a` and `b`.
pub open spec fn pair_key<B, U: Fn(&B, &B) -> B, A: Fn(&B) -> u32>(
    nodes: Seq<BVHUpNode<B>>,
    union_fn: U,
    area_fn: A,
    a: int,
    b: int,
) -> u32 {
    area_of(area_fn, union_of(union_fn, nodes[a].bbox, nodes[b].bbox))
}

/// Node `a` is the root of a tree when there are `k` nodes: none of the
/// joins before `k` has it as a child.
pub open spec fn is_root_at<B>(nodes: Seq<BVHUpNode<B>>, n: int, a: int, k: int) -> bool {
    &&& 0 <= a < k
    &&& forall|j: int|
        n <= j < k ==> (#[trigger] nodes[j]).left_node != a && nodes[j].right_node != a
}

/// The shape of the node array over `n` primitives: the leaves first, each
/// with its primitive, then joins of two different earlier nodes.
pub open spec fn forest_wf<B>(nodes: Seq<BVHUpNode<B>>, n: int) -> bool {
    &&& 0 <= n <= 0x8000_0000
    &&& n <= nodes.len() <= 2 * n
    &&& n > 0 ==> nodes.len() < 2 * n
    &&& forall|k: int|
        0 <= k < n ==> (#[trigger] nodes[k]).is_leaf && nodes[k].primitive_id == k
    &&& forall|k: int|
        n <= k < nodes.len() ==> !(#[trigger] nodes[k]).is_leaf && nodes[k].left_node < k
            && nodes[k].right_node < k && nodes[k].left_node != nodes[k].right_node
}

/// How join `k` was made: it joins two different roots of that time and has
/// their joint volume, the area of that volume is finite, and no two roots
/// of that time have a joint volume of smaller area.
pub open spec fn join_rule<B, U: Fn(&B, &B) -> B, A: Fn(&B) -> u32>(
    nodes: Seq<BVHUpNode<B>>,
    n: int,
    union_fn: U,
    area_fn: A,
    k: int,
) -> bool {
    let l = nodes[k].left_node as int;
    let r = nodes[k].right_node as int;
    &&& is_root_at(nodes, n, l, k)
    &&& is_root_at(nodes, n, r, k)
    &&& l != r
    &&& nodes[k].bbox == union_of(union_fn, nodes[l].bbox, nodes[r].bbox)
    &&& pair_key(nodes, union_fn, area_fn, l, r) < INFINITE_AREA
    &&& forall|a: int, b: int|
        is_root_at(nodes, n, a, k) && is_root_at(nodes, n, b, k) && a != b ==> pair_key(
            nodes,
            union_fn,
            area_fn,
            l,
            r,
        ) <= #[trigger] pair_key(nodes, union_fn, area_fn, a, b)
}

/// The building came to its end: one tree holds everything.
pub open spec fn complete<B>(nodes: Seq<BVHUpNode<B>>, n: int) -> bool {
    n > 0 && nodes.len() == 2 * n - 1
}

/// The building stopped: no two of the trees that are left have a joint
/// volume of finite area.
pub open spec fn stuck<B, U: Fn(&B, &B) -> B, A: Fn(&B) -> u32>(
    nodes: Seq<BVHUpNode<B>>,
    n: int,
    union_fn: U,
    area_fn: A,
) -> bool {
    forall|a: int, b: int|
        is_root_at(nodes, n, a, nodes.len() as int) && is_root_at(nodes, n, b, nodes.len() as int)
            && a != b ==> #[trigger] pair_key(nodes, union_fn, area_fn, a, b) >= INFINITE_AREA
}

/// The best hit after walking the tree under node `k`, starting from
/// `best`: a tree whose volume the ray misses is skipped, a leaf tests its
/// primitive, a join walks its second child, then its first.
pub open spec fn visit_up<B, H: Fn(&B) -> bool, I: Fn(usize) -> Option<u32>>(
    nodes: Seq<BVHUpNode<B>>,
    hit_fn: H,
    isect_fn: I,
    k: int,
    best: ShapeIntersection,
) -> ShapeIntersection
    decreases k,
{
    if 0 <= k < nodes.len() {
        let node = nodes[k];
        if !box_hit(hit_fn, node.bbox) {
            best
        } else if node.is_leaf {
            closer_spec(
                best,
                prim_hit(isect_fn, node.primitive_id as usize),
                node.primitive_id as usize,
            )
        } else if node.left_node < k && node.right_node < k {
            visit_up(
                nodes,
                hit_fn,
                isect_fn,
                node.left_node as int,
                visit_up(nodes, hit_fn, isect_fn, node.right_node as int, best),
            )
        } else {
            best
        }
    } else {
        best
    }
}

/// The best hit after walking the trees on the stack, top first.
pub open spec fn visit_up_pending<B, H: Fn(&B) -> bool, I: Fn(usize) -> Option<u32>>(
    nodes: Seq<BVHUpNode<B>>,
    hit_fn: H,
    isect_fn: I,
    stack: Seq<usize>,
    best: ShapeIntersection,
) -> ShapeIntersection
    decreases stack.len(),
{
    if stack.len() == 0 {
        best
    } else {
        visit_up_pending(
            nodes,
            hit_fn,
            isect_fn,
            stack.drop_last(),
            visit_up(nodes, hit_fn, isect_fn, stack.last() as int, best),
        )
    }
}

/// The number of nodes of the tree under node `k`.
pub open spec fn tree_size<B>(nodes: Seq<BVHUpNode<B>>, k: int) -> nat
    decreases k,
{
    if 0 <= k < nodes.len() && !nodes[k].is_leaf && nodes[k].left_node < k && nodes[k].right_node
        < k {
        1 + tree_size(nodes, nodes[k].left_node as int) + tree_size(
            nodes,
            nodes[k].right_node as int,
        )
    } else {
        1
    }
}

/// Work left for a stack of trees: the number of their nodes.
pub open spec fn pending_nodes<B>(nodes: Seq<BVHUpNode<B>>, stack: Seq<usize>) -> nat
    decreases stack.len(),
{
    if stack.len() == 0 {
        0
    } else {
        pending_nodes(nodes, stack.drop_last()) + tree_size(nodes, stack.last() as int)
    }
}

/// The roots that a list holds: every root once, and nothing else.
spec fn lists_roots<B>(nodes: Seq<BVHUpNode<B>>, n: int, active: Seq<usize>) -> bool {
    &&& forall|i: int|
        0 <= i < active.len() ==> is_root_at(nodes, n, #[trigger] active[i] as int, nodes.len() as int)
    &&& forall|i: int, j: int|
        0 <= i < active.len() && 0 <= j < active.len() && i != j ==> #[trigger] active[i]
            != #[trigger] active[j]
    &&& forall|a: int| #[trigger]
        is_root_at(nodes, n, a, nodes.len() as int) ==> holds(active, a)
}

/// The list holds `a`.
spec fn holds(list: Seq<usize>, a: int) -> bool {
    exists|i: int| 0 <= i < list.len() && #[trigger] list[i] == a
}

/// The list holds `a` before position `upto`, at a position other than the
/// two given ones.
spec fn holds_beside(list: Seq<usize>, upto: int, at1: int, at2: int, a: int) -> bool {
    exists|q: int| 0 <= q < upto && q != at1 && q != at2 && #[trigger] list[q] == a
}

/// The pairs of a list that come before the pair `(i, j)`, row by row.
spec fn pair_before(i2: int, j2: int, i: int, j: int) -> bool {
    i2 < i || (i2 == i && j2 < j)
}

impl<B> BVHUp<B> {
    /// The nodes: the leaves first, then the joins in their order.
    pub closed spec fn nodes(&self) -> Seq<BVHUpNode<B>> {
        self.nodes@
    }

    /// The number of primitives.
    pub closed spec fn leaves(&self) -> int {
        self.leaves as int
    }

    pub open spec fn wf(&self) -> bool {
        forest_wf(self.nodes(), self.leaves())
    }

    /// A hierarchy over no primitives.
    pub fn new() -> (bvh: Self)
        ensures
            bvh.wf(),
            bvh.nodes().len() == 0,
            bvh.leaves() == 0,
    {
        Self { nodes: Vec::new(), leaves: 0 }
    }

    pub fn node_count(&self) -> (n: usize)
        ensures
            n == self.nodes().len(),
    {
        self.nodes.len()
    }

    /// Node `k`: whether it is a leaf, its two children and its primitive.
    pub fn node_layout(&self, k: usize) -> (r: Option<(bool, u32, u32, u32)>)
        ensures
            k < self.nodes().len() ==> r == Some(
                (
                    self.nodes()[k as int].is_leaf,
                    self.nodes()[k as int].left_node,
                    self.nodes()[k as int].right_node,
                    self.nodes()[k as int].primitive_id,
                ),
            ),
            k >= self.nodes().len() ==> r.is_none(),
    {
        if k < self.nodes.len() {
            let node = &self.nodes[k];
            Some((node.is_leaf, node.left_node, node.right_node, node.primitive_id))
        } else {
            None
        }
    }

    /// Builds the hierarchy over the primitives `0 .. n_primitives`.
    pub fn build<F, U, A>(&mut self, n_primitives: usize, bbox_fn: F, union_fn: U, area_fn: A) where
        F: Fn(usize) -> B,
        U: Fn(&B, &B) -> B,
        A: Fn(&B) -> u32,

        requires
            n_primitives <= 0x8000_0000,
            forall|i: usize| i < n_primitives ==> call_requires(bbox_fn, (i,)),
            forall|a: &B, b: &B| call_requires(union_fn, (a, b)),
            forall|b: &B| call_requires(area_fn, (b,)),
            union_is_function(union_fn),
            area_is_function(area_fn),
        ensures
            final(self).wf(),
            final(self).leaves() == n_primitives,
            forall|i: int|
                0 <= i < n_primitives ==> call_ensures(
                    bbox_fn,
                    (i as usize,),
                    (#[trigger] final(self).nodes()[i]).bbox,
                ),
            forall|k: int|
                n_primitives <= k < final(self).nodes().len() ==> #[trigger] join_rule(
                    final(self).nodes(),
                    n_primitives as int,
                    union_fn,
                    area_fn,
                    k,
                ),
            n_primitives > 0 ==> complete(final(self).nodes(), n_primitives as int) || stuck(
                final(self).nodes(),
                n_primitives as int,
                union_fn,
                area_fn,
            ),
    {
        let ghost n = n_primitives as int;
        let mut nodes: Vec<BVHUpNode<B>> = Vec::new();
        let mut active: Vec<usize> = Vec::new();
        let mut i: usize = 0;
        while i < n_primitives
            invariant
                i <= n_primitives <= 0x8000_0000,
                nodes.len() == i,
                active.len() == i,
                forall|k: usize| k < n_primitives ==> call_requires(bbox_fn, (k,)),
                forall|k: int| 0 <= k < i ==> active[k] == k,
                forall|k: int|
                    0 <= k < i ==> (#[trigger] nodes[k]).is_leaf && nodes[k].primitive_id == k,
                forall|k: int|
                    0 <= k < i ==> call_ensures(bbox_fn, (k as usize,), (#[trigger] nodes[k]).bbox),
            decreases n_primitives - i,
        {
            let node = BVHUpNode {
                bbox: bbox_fn(i),
                is_leaf: true,
                left_node: 0,
                right_node: 0,
                primitive_id: i as u32,
            };
            nodes.push(node);
            active.push(i);
            i += 1;
        }
        proof {
            assert forall|a: int| #[trigger]
                is_root_at(nodes@, n, a, nodes@.len() as int) implies holds(active@, a) by {
                assert(active@[a] == a);
            }
        }
        let mut halted = false;
        while active.len() > 1 && !halted
            invariant
                n == n_primitives,
                n_primitives <= 0x8000_0000,
                forest_wf(nodes@, n),
                n > 0 ==> active.len() >= 1,
                active.len() + nodes.len() == 2 * n,
                lists_roots(nodes@, n, active@),
                forall|a: &B, b: &B| call_requires(union_fn, (a, b)),
                forall|b: &B| call_requires(area_fn, (b,)),
                union_is_function(union_fn),
                area_is_function(area_fn),
                forall|k: int|
                    0 <= k < n ==> call_ensures(bbox_fn, (k as usize,), (#[trigger] nodes[k]).bbox),
                forall|k: int|
                    n <= k < nodes.len() ==> #[trigger] join_rule(nodes@, n, union_fn, area_fn, k),
                halted ==> stuck(nodes@, n, union_fn, area_fn),
            decreases active.len() + (if halted { 0int } else { 1int }),
        {
            let count = active.len();
            let mut min_key: u32 = INFINITE_AREA;
            let mut l1: usize = 0;
            let mut l2: usize = 0;
            let mut at1: usize = 0;
            let mut at2: usize = 0;
            let mut i: usize = 0;
            while i < count
                invariant
                    i <= count == active.len(),
                    forest_wf(nodes@, n),
                    lists_roots(nodes@, n, active@),
                    forall|a: &B, b: &B| call_requires(union_fn, (a, b)),
                    forall|b: &B| call_requires(area_fn, (b,)),
                    union_is_function(union_fn),
                    area_is_function(area_fn),
                    min_key <= INFINITE_AREA,
                    min_key < INFINITE_AREA ==> at1 < count && at2 < count && at1 != at2 && l1
                        == active[at1 as int] && l2 == active[at2 as int] && min_key == pair_key(
                        nodes@,
                        union_fn,
                        area_fn,
                        l1 as int,
                        l2 as int,
                    ),
                    forall|i2: int, j2: int|
                        0 <= i2 < i && 0 <= j2 < count && i2 != j2 ==> min_key <= #[trigger] pair_key(
                            nodes@,
                            union_fn,
                            area_fn,
                            active[i2] as int,
                            active[j2] as int,
                        ),
                decreases count - i,
            {
                let mut j: usize = 0;
                while j < count
                    invariant
                        i < count == active.len(),
                        j <= count,
                        forest_wf(nodes@, n),
                        lists_roots(nodes@, n, active@),
                        forall|a: &B, b: &B| call_requires(union_fn, (a, b)),
                        forall|b: &B| call_requires(area_fn, (b,)),
                        union_is_function(union_fn),
                        area_is_function(area_fn),
                        min_key <= INFINITE_AREA,
                        min_key < INFINITE_AREA ==> at1 < count && at2 < count && at1 != at2 && l1
                            == active[at1 as int] && l2 == active[at2 as int] && min_key
                            == pair_key(nodes@, union_fn, area_fn, l1 as int, l2 as int),
                        forall|i2: int, j2: int|
                            0 <= i2 < count && 0 <= j2 < count && i2 != j2 && pair_before(
                                i2,
                                j2,
                                i as int,
                                j as int,
                            ) ==> min_key <= #[trigger] pair_key(
                                nodes@,
                                union_fn,
                                area_fn,
                                active[i2] as int,
                                active[j2] as int,
                            ),
                    decreases count - j,
                {
                    if i != j {
                        let a = active[i];
                        let b = active[j];
                        assert(is_root_at(nodes@, n, active@[i as int] as int, nodes@.len() as int));
                        assert(is_root_at(nodes@, n, active@[j as int] as int, nodes@.len() as int));
                        let joint = union_fn(&nodes[a].bbox, &nodes[b].bbox);
                        let key = area_fn(&joint);
                        assert(joint == union_of(
                            union_fn,
                            nodes@[a as int].bbox,
                            nodes@[b as int].bbox,
                        ));
                        assert(key == pair_key(nodes@, union_fn, area_fn, a as int, b as int));
                        if key < min_key {
                            l1 = a;
                            l2 = b;
                            at1 = i;
                            at2 = j;
                            min_key = key;
                        }
                    }
                    j += 1;
                }
                i += 1;
            }
            if min_key >= INFINITE_AREA {
                proof {
                    assert forall|a: int, b: int|
                        is_root_at(nodes@, n, a, nodes@.len() as int) && is_root_at(
                            nodes@,
                            n,
                            b,
                            nodes@.len() as int,
                        ) && a != b implies #[trigger] pair_key(nodes@, union_fn, area_fn, a, b)
                        >= INFINITE_AREA by {
                        assert(holds(active@, a) && holds(active@, b));
                        let i2 = choose|i2: int| 0 <= i2 < active@.len() && #[trigger] active@[i2] == a;
                        let j2 = choose|j2: int| 0 <= j2 < active@.len() && #[trigger] active@[j2] == b;
                        assert(pair_key(
                            nodes@,
                            union_fn,
                            area_fn,
                            active@[i2] as int,
                            active@[j2] as int,
                        ) >= min_key);
                    }
                }
                halted = true;
            } else {
                let ghost nodes_before = nodes@;
                let ghost active_before = active@;
                assert(is_root_at(nodes@, n, l1 as int, nodes@.len() as int));
                assert(is_root_at(nodes@, n, l2 as int, nodes@.len() as int));
                let bbox = union_fn(&nodes[l1].bbox, &nodes[l2].bbox);
                let new_index = nodes.len();
                let node = BVHUpNode {
                    bbox,
                    is_leaf: false,
                    left_node: l1 as u32,
                    right_node: l2 as u32,
                    primitive_id: 0,
                };
                nodes.push(node);
                let mut rest: Vec<usize> = Vec::new();
                let mut k: usize = 0;
                while k < count
                    invariant
                        k <= count == active.len(),
                        active@ == active_before,
                        at1 < count,
                        at2 < count,
                        at1 != at2,
                        rest.len() == k - (if at1 < k { 1int } else { 0int }) - (if at2 < k {
                            1int
                        } else {
                            0int
                        }),
                        forall|m: int|
                            0 <= m < rest.len() ==> holds_beside(
                                active@,
                                k as int,
                                at1 as int,
                                at2 as int,
                                #[trigger] rest[m] as int,
                            ),
                        forall|q: int|
                            0 <= q < k && q != at1 && q != at2 ==> holds(
                                rest@,
                                #[trigger] active[q] as int,
                            ),
                        forall|m1: int, m2: int|
                            0 <= m1 < rest.len() && 0 <= m2 < rest.len() && m1 != m2
                                ==> #[trigger] rest[m1] != #[trigger] rest[m2],
                        forall|i: int, j: int|
                            0 <= i < active.len() && 0 <= j < active.len() && i != j
                                ==> #[trigger] active[i] != #[trigger] active[j],
                    decreases count - k,
                {
                    if k != at1 && k != at2 {
                        let ghost before_push = rest@;
                        rest.push(active[k]);
                        proof {
                            assert forall|m: int| 0 <= m < rest@.len() implies holds_beside(
                                active@,
                                k + 1,
                                at1 as int,
                                at2 as int,
                                #[trigger] rest@[m] as int,
                            ) by {
                                if m < before_push.len() {
                                    assert(holds_beside(
                                        active@,
                                        k as int,
                                        at1 as int,
                                        at2 as int,
                                        before_push[m] as int,
                                    ));
                                    let q = choose|q: int|
                                        0 <= q < k && q != at1 && q != at2 && #[trigger] active@[q]
                                            == before_push[m];
                                    assert(active@[q] == rest@[m]);
                                } else {
                                    assert(active@[k as int] == rest@[m]);
                                }
                            }
                            assert forall|q: int|
                                0 <= q < k + 1 && q != at1 && q != at2 implies holds(
                                rest@,
                                #[trigger] active@[q] as int,
                            ) by {
                                if q < k {
                                    assert(holds(before_push, active@[q] as int));
                                    let m = choose|m: int|
                                        0 <= m < before_push.len() && #[trigger] before_push[m]
                                            == active@[q];
                                    assert(rest@[m] == active@[q]);
                                } else {
                                    assert(rest@[rest@.len() - 1] == active@[q]);
                                }
                            }
                            assert forall|m1: int, m2: int|
                                0 <= m1 < rest@.len() && 0 <= m2 < rest@.len() && m1
                                    != m2 implies #[trigger] rest@[m1] != #[trigger] rest@[m2] by {
                                if m1 == rest@.len() - 1 && m2 < before_push.len() {
                                    assert(holds_beside(
                                        active@,
                                        k as int,
                                        at1 as int,
                                        at2 as int,
                                        before_push[m2] as int,
                                    ));
                                    let q = choose|q: int|
                                        0 <= q < k && q != at1 && q != at2 && #[trigger] active@[q]
                                            == before_push[m2];
                                    assert(active@[q] != active@[k as int]);
                                }
                                if m2 == rest@.len() - 1 && m1 < before_push.len() {
                                    assert(holds_beside(
                                        active@,
                                        k as int,
                                        at1 as int,
                                        at2 as int,
                                        before_push[m1] as int,
                                    ));
                                    let q = choose|q: int|
                                        0 <= q < k && q != at1 && q != at2 && #[trigger] active@[q]
                                            == before_push[m1];
                                    assert(active@[q] != active@[k as int]);
                                }
                            }
                        }
                    }
                    k += 1;
                }
                let ghost kept = rest@;
                rest.push(new_index);
                active = rest;
                proof {
                    let len = nodes@.len() as int;
                    let k_new = new_index as int;
                    assert(nodes@[k_new].left_node == l1 && nodes@[k_new].right_node == l2);
                    // the join is by the rule
                    assert forall|a: int| #![trigger is_root_at(nodes@, n, a, k_new)]
                        is_root_at(nodes@, n, a, k_new) == is_root_at(
                            nodes_before,
                            n,
                            a,
                            nodes_before.len() as int,
                        ) by {
                        if 0 <= a < k_new {
                            assert forall|j: int| n <= j < k_new implies nodes@[j]
                                == nodes_before[j] by {}
                        }
                    }
                    assert forall|a: int, b: int|
                        is_root_at(nodes@, n, a, k_new) && is_root_at(nodes@, n, b, k_new) && a
                            != b implies pair_key(nodes@, union_fn, area_fn, l1 as int, l2 as int)
                        <= #[trigger] pair_key(nodes@, union_fn, area_fn, a, b) by {
                        assert(holds(active_before, a) && holds(active_before, b));
                        let i2 = choose|i2: int|
                            0 <= i2 < active_before.len() && #[trigger] active_before[i2] == a;
                        let j2 = choose|j2: int|
                            0 <= j2 < active_before.len() && #[trigger] active_before[j2] == b;
                        assert(min_key <= pair_key(
                            nodes_before,
                            union_fn,
                            area_fn,
                            active_before[i2] as int,
                            active_before[j2] as int,
                        ));
                        assert(nodes@[a] == nodes_before[a] && nodes@[b] == nodes_before[b]);
                    }
                    assert(nodes@[l1 as int] == nodes_before[l1 as int]);
                    assert(nodes@[l2 as int] == nodes_before[l2 as int]);
                    assert(join_rule(nodes@, n, union_fn, area_fn, k_new));
                    // the older joins stay by the rule
                    assert forall|k: int| n <= k < k_new implies #[trigger] join_rule(
                        nodes@,
                        n,
                        union_fn,
                        area_fn,
                        k,
                    ) by {
                        assert(join_rule(nodes_before, n, union_fn, area_fn, k));
                        assert forall|a: int| #![trigger is_root_at(nodes@, n, a, k)]
                            is_root_at(nodes@, n, a, k) == is_root_at(nodes_before, n, a, k) by {
                            if 0 <= a < k {
                                assert forall|j: int| n <= j < k implies nodes@[j]
                                    == nodes_before[j] by {}
                            }
                        }
                        assert forall|a: int, b: int|
                            is_root_at(nodes@, n, a, k) && is_root_at(nodes@, n, b, k) && a
                                != b implies pair_key(
                            nodes@,
                            union_fn,
                            area_fn,
                            nodes@[k].left_node as int,
                            nodes@[k].right_node as int,
                        ) <= #[trigger] pair_key(nodes@, union_fn, area_fn, a, b) by {
                            assert(nodes@[a] == nodes_before[a] && nodes@[b] == nodes_before[b]);
                            assert(pair_key(nodes_before, union_fn, area_fn, a, b) == pair_key(
                                nodes@,
                                union_fn,
                                area_fn,
                                a,
                                b,
                            ));
                        }
                    }
                    // the list holds the roots again
                    assert forall|i: int| 0 <= i < active@.len() implies is_root_at(
                        nodes@,
                        n,
                        #[trigger] active@[i] as int,
                        len,
                    ) by {
                        if i < kept.len() {
                            assert(holds_beside(
                                active_before,
                                count as int,
                                at1 as int,
                                at2 as int,
                                kept[i] as int,
                            ));
                            let q = choose|q: int|
                                0 <= q < count && q != at1 && q != at2 && #[trigger] active_before[q]
                                    == kept[i];
                            assert(is_root_at(
                                nodes_before,
                                n,
                                active_before[q] as int,
                                nodes_before.len() as int,
                            ));
                            assert(active_before[q] != active_before[at1 as int]);
                            assert(active_before[q] != active_before[at2 as int]);
                            assert forall|j: int| n <= j < len implies (#[trigger] nodes@[j]).left_node
                                != active@[i] && nodes@[j].right_node != active@[i] by {
                                if j < k_new {
                                    assert(nodes@[j] == nodes_before[j]);
                                }
                            }
                        } else {
                            assert(active@[i] == new_index);
                            assert forall|j: int| n <= j < len implies (#[trigger] nodes@[j]).left_node
                                != new_index && nodes@[j].right_node != new_index by {}
                        }
                    }
                    assert forall|i: int, j: int|
                        0 <= i < active@.len() && 0 <= j < active@.len() && i
                            != j implies #[trigger] active@[i] != #[trigger] active@[j] by {
                        if i < kept.len() {
                            assert(holds_beside(
                                active_before,
                                count as int,
                                at1 as int,
                                at2 as int,
                                kept[i] as int,
                            ));
                            let q = choose|q: int|
                                0 <= q < count && q != at1 && q != at2 && #[trigger] active_before[q]
                                    == kept[i];
                            assert(is_root_at(
                                nodes_before,
                                n,
                                active_before[q] as int,
                                nodes_before.len() as int,
                            ));
                        }
                        if j < kept.len() {
                            assert(holds_beside(
                                active_before,
                                count as int,
                                at1 as int,
                                at2 as int,
                                kept[j] as int,
                            ));
                            let q = choose|q: int|
                                0 <= q < count && q != at1 && q != at2 && #[trigger] active_before[q]
                                    == kept[j];
                            assert(is_root_at(
                                nodes_before,
                                n,
                                active_before[q] as int,
                                nodes_before.len() as int,
                            ));
                        }
                    }
                    assert forall|a: int| #[trigger]
                        is_root_at(nodes@, n, a, len) implies holds(active@, a) by {
                        if a == k_new {
                            assert(active@[active@.len() - 1] == a);
                        } else {
                            assert(nodes@[k_new].left_node != a && nodes@[k_new].right_node != a);
                            assert(is_root_at(nodes_before, n, a, nodes_before.len() as int)) by {
                                assert forall|j: int| n <= j < k_new implies (
                                #[trigger] nodes_before[j]).left_node != a
                                    && nodes_before[j].right_node != a by {
                                    assert(nodes@[j] == nodes_before[j]);
                                }
                            }
                            assert(holds(active_before, a));
                            let q = choose|q: int|
                                0 <= q < active_before.len() && #[trigger] active_before[q] == a;
                            assert(q != at1 && q != at2);
                            assert(holds(kept, active_before[q] as int));
                            let m = choose|m: int|
                                0 <= m < kept.len() && #[trigger] kept[m] == active_before[q];
                            assert(active@[m] == a);
                        }
                    }
                }
            }
        }
        proof {
            if n > 0 && !halted {
                assert(active@.len() == 1);
            }
        }
        self.nodes = nodes;
        self.leaves = n_primitives;
    }

    /// The hit that a walk from the last node ends with.
    pub open spec fn closest<H: Fn(&B) -> bool, I: Fn(usize) -> Option<u32>>(
        &self,
        hit_fn: H,
        isect_fn: I,
    ) -> Option<ShapeIntersection> {
        if self.nodes().len() == 0 {
            None
        } else {
            as_hit(
                visit_up(
                    self.nodes(),
                    hit_fn,
                    isect_fn,
                    self.nodes().len() - 1,
                    ShapeIntersection { t: FARTHEST_HIT, shape_id: 0 },
                ),
            )
        }
    }

    /// Finds the closest primitive that a ray meets in the tree of the last
    /// node.
    pub fn intersect<H, I>(&self, hit_fn: H, isect_fn: I) -> (r: Option<ShapeIntersection>) where
        H: Fn(&B) -> bool,
        I: Fn(usize) -> Option<u32>,

        requires
            self.wf(),
            forall|b: &B| call_requires(hit_fn, (b,)),
            forall|i: usize| i < self.leaves() ==> call_requires(isect_fn, (i,)),
            box_test_is_function(hit_fn),
            prim_test_is_function(isect_fn),
        ensures
            r == self.closest(hit_fn, isect_fn),
    {
        let mut best = ShapeIntersection { t: FARTHEST_HIT, shape_id: 0 };
        let node_count = self.nodes.len();
        if node_count == 0 {
            return None;
        }
        let ghost start = best;
        let ghost nodes = self.nodes@;
        let ghost root = (node_count - 1) as int;
        let mut stack: Vec<usize> = Vec::new();
        stack.push(node_count - 1);
        proof {
            assert(stack@.drop_last() =~= Seq::<usize>::empty());
            let after_root = visit_up(nodes, hit_fn, isect_fn, root, best);
            assert(visit_up_pending(nodes, hit_fn, isect_fn, stack@.drop_last(), after_root)
                == after_root);
            assert(pending_nodes(nodes, stack@.drop_last()) == 0);
        }
        while stack.len() > 0
            invariant
                self.wf(),
                nodes == self.nodes@,
                nodes.len() == node_count > 0,
                forall|b: &B| call_requires(hit_fn, (b,)),
                forall|i: usize| i < self.leaves() ==> call_requires(isect_fn, (i,)),
                box_test_is_function(hit_fn),
                prim_test_is_function(isect_fn),
                forall|s: int| 0 <= s < stack.len() ==> (#[trigger] stack[s]) < node_count,
                visit_up_pending(nodes, hit_fn, isect_fn, stack@, best) == visit_up(
                    nodes,
                    hit_fn,
                    isect_fn,
                    root,
                    start,
                ),
            decreases pending_nodes(nodes, stack@),
        {
            let ghost stack_before = stack@;
            let ghost best_before = best;
            let node_idx = stack.pop().unwrap();
            let node = &self.nodes[node_idx];
            let ghost rest = stack@;
            proof {
                assert(rest =~= stack_before.drop_last());
                assert(pending_nodes(nodes, stack_before) == pending_nodes(nodes, rest) + tree_size(
                    nodes,
                    node_idx as int,
                ));
                assert(visit_up_pending(nodes, hit_fn, isect_fn, stack_before, best_before)
                    == visit_up_pending(
                    nodes,
                    hit_fn,
                    isect_fn,
                    rest,
                    visit_up(nodes, hit_fn, isect_fn, node_idx as int, best_before),
                ));
            }
            let hit = hit_fn(&node.bbox);
            assert(hit == box_hit(hit_fn, node.bbox));
            if hit {
                if node.is_leaf {
                    let id = node.primitive_id as usize;
                    assert(node_idx < self.leaves()) by {
                        if node_idx >= self.leaves() {
                            assert(!nodes[node_idx as int].is_leaf);
                        }
                    }
                    let result = isect_fn(id);
                    assert(result == prim_hit(isect_fn, id));
                    best = closer(best, result, id);
                } else {
                    assert(node_idx >= self.leaves()) by {
                        if node_idx < self.leaves() {
                            assert(nodes[node_idx as int].is_leaf);
                        }
                    }
                    let left = node.left_node as usize;
                    let right = node.right_node as usize;
                    stack.push(left);
                    stack.push(right);
                    proof {
                        let one = rest.push(left);
                        assert(stack@.drop_last() =~= one);
                        assert(one.drop_last() =~= rest);
                        let after_second = visit_up(nodes, hit_fn, isect_fn, right as int, best);
                        assert(visit_up_pending(nodes, hit_fn, isect_fn, stack@, best)
                            == visit_up_pending(nodes, hit_fn, isect_fn, one, after_second));
                        assert(visit_up_pending(nodes, hit_fn, isect_fn, one, after_second)
                            == visit_up_pending(
                            nodes,
                            hit_fn,
                            isect_fn,
                            rest,
                            visit_up(nodes, hit_fn, isect_fn, left as int, after_second),
                        ));
                        assert(pending_nodes(nodes, stack@) == pending_nodes(nodes, one)
                            + tree_size(nodes, right as int));
                        assert(pending_nodes(nodes, one) == pending_nodes(nodes, rest) + tree_size(
                            nodes,
                            left as int,
                        ));
                        assert(tree_size(nodes, node_idx as int) == 1 + tree_size(
                            nodes,
                            left as int,
                        ) + tree_size(nodes, right as int));
                    }
                }
            }
        }
        if best.t < FARTHEST_HIT {
            Some(best)
        } else {
            None
        }
    }
}

} // verus!
