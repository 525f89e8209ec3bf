//! Walks of a map's binary space partition tree: which side of a partition line a viewpoint
//! lies on, and the order in which the tree's leaves (subsectors) are visited from it.
use vstd::prelude::*;
use vstd::set_lib::set_int_range;

use crate::archive::{MapData, WAD};
use crate::error::WadError;
use crate::records::{Node, Seg};

verus! {

/// A position on the map, in map units.
#[derive(Clone, Copy, Debug, PartialEq, Eq, Structural)]
pub struct Viewpoint {
    pub x: i32,
    pub y: i32,
}

/// Twice the signed area spanned by the node's partition direction and the vector from the
/// partition origin to `v`.
pub open spec fn cross(v: Viewpoint, n: Node) -> int {
    (v.x - n.x_partition) * n.dy_partition - (v.y - n.y_partition) * n.dx_partition
}

/// `v` lies on the back side of the node's partition line. A viewpoint on the line itself
/// counts as back.
pub open spec fn on_back_side(v: Viewpoint, n: Node) -> bool {
    cross(v, n) <= 0
}

/// A child reference with its high bit set names a subsector, not a node.
pub open spec fn is_leaf_ref(c: u16) -> bool {
    c >= 0x8000
}

/// The subsector that a leaf reference names.
pub open spec fn leaf_of(c: u16) -> u16 {
    (c - 0x8000) as u16
}

/// The child walked first from `v`: the back child when `v` is on the back side.
pub open spec fn first_child(v: Viewpoint, n: Node) -> u16 {
    if on_back_side(v, n) {
        n.back_child as u16
    } else {
        n.front_child as u16
    }
}

/// The child walked second from `v`.
pub open spec fn second_child(v: Viewpoint, n: Node) -> u16 {
    if on_back_side(v, n) {
        n.front_child as u16
    } else {
        n.back_child as u16
    }
}

/// The walk of the subtree that reference `c` names, from viewpoint `v`, over a map with node
/// array `nodes` and `n_sub` subsectors, allowed to visit `budget` nodes: the subsectors in
/// visiting order and the budget left, or the first failure met.
pub open spec fn walk(nodes: Seq<Node>, n_sub: int, v: Viewpoint, c: u16, budget: nat) -> Result<
    (Seq<u16>, nat),
    WadError,
>
    decreases budget,
{
    if is_leaf_ref(c) {
        if leaf_of(c) < n_sub {
            Ok((seq![leaf_of(c)], budget))
        } else {
            Err(WadError::SubSectorOutOfRange)
        }
    } else if c >= nodes.len() {
        Err(WadError::NodeOutOfRange)
    } else if budget == 0 {
        Err(WadError::BudgetExceeded)
    } else {
        let n = nodes[c as int];
        match walk(nodes, n_sub, v, first_child(v, n), (budget - 1) as nat) {
            Err(e) => Err(e),
            Ok((s1, b1)) => {
                // a walk never gives back more budget than it got: the bound only
                // makes that visible to the termination check
                let b1 = if b1 < budget {
                    b1
                } else {
                    0
                };
                match walk(nodes, n_sub, v, second_child(v, n), b1) {
                    Err(e) => Err(e),
                    Ok((s2, b2)) => Ok((s1 + s2, b2)),
                }
            },
        }
    }
}

/// The subsectors visited from `v` when walking from reference `c` with a budget of one
/// visit per node, or the failure met.
pub open spec fn visit_order(nodes: Seq<Node>, n_sub: int, v: Viewpoint, c: u16) -> Result<
    Seq<u16>,
    WadError,
> {
    match walk(nodes, n_sub, v, c, nodes.len()) {
        Ok((s, _)) => Ok(s),
        Err(e) => Err(e),
    }
}

/// The walks of the references of `stack`, last one first, one after the other.
pub open spec fn walk_all(
    nodes: Seq<Node>,
    n_sub: int,
    v: Viewpoint,
    stack: Seq<u16>,
    budget: nat,
) -> Result<(Seq<u16>, nat), WadError>
    decreases stack.len(),
{
    if stack.len() == 0 {
        Ok((seq![], budget))
    } else {
        match walk(nodes, n_sub, v, stack.last(), budget) {
            Err(e) => Err(e),
            Ok((s1, b1)) => match walk_all(nodes, n_sub, v, stack.drop_last(), b1) {
                Err(e) => Err(e),
                Ok((s2, b2)) => Ok((s1 + s2, b2)),
            },
        }
    }
}

/// `out` followed by what the walk `r` visits.
pub open spec fn after(out: Seq<u16>, r: Result<(Seq<u16>, nat), WadError>) -> Result<
    (Seq<u16>, nat),
    WadError,
> {
    match r {
        Ok((s, b)) => Ok((out + s, b)),
        Err(e) => Err(e),
    }
}

/// The root of a tree over `n` nodes: the last node, or none when there are no nodes.
pub open spec fn last_node(n: nat) -> Option<usize> {
    if n == 0 {
        None
    } else {
        Some((n - 1) as usize)
    }
}

/// The subsectors visited from `v` when walking the whole tree from node `root`: the root
/// node is walked like any other, with one unit of the budget of one visit per node. Without
/// a root node the map is the single subsector 0.
pub open spec fn root_order(nodes: Seq<Node>, n_sub: int, v: Viewpoint, root: Option<usize>) -> Result<
    Seq<u16>,
    WadError,
> {
    match root {
        None => visit_order(nodes, n_sub, v, 0x8000),
        Some(r) => if r >= nodes.len() {
            Err(WadError::NodeOutOfRange)
        } else {
            let n = nodes[r as int];
            match walk(nodes, n_sub, v, first_child(v, n), (nodes.len() - 1) as nat) {
                Err(e) => Err(e),
                Ok((s1, b1)) => match walk(nodes, n_sub, v, second_child(v, n), b1) {
                    Err(e) => Err(e),
                    Ok((s2, _)) => Ok(s1 + s2),
                },
            }
        },
    }
}

/// A walk never ends with more budget than it started with.
proof fn lemma_walk_budget(nodes: Seq<Node>, n_sub: int, v: Viewpoint, c: u16, budget: nat)
    ensures
        walk(nodes, n_sub, v, c, budget) matches Ok((_, b)) ==> b <= budget,
    decreases budget,
{
    if !is_leaf_ref(c) && c < nodes.len() && budget > 0 {
        let n = nodes[c as int];
        lemma_walk_budget(nodes, n_sub, v, first_child(v, n), (budget - 1) as nat);
        if let Ok((_, b1)) = walk(nodes, n_sub, v, first_child(v, n), (budget - 1) as nat) {
            lemma_walk_budget(nodes, n_sub, v, second_child(v, n), b1);
        }
    }
}

/// Walking a node on top of the stack is walking its first child, then its second child,
/// then the rest.
proof fn lemma_walk_all_node(
    nodes: Seq<Node>,
    n_sub: int,
    v: Viewpoint,
    rest: Seq<u16>,
    c: u16,
    budget: nat,
)
    requires
        !is_leaf_ref(c),
        c < nodes.len(),
        budget > 0,
    ensures
        walk_all(nodes, n_sub, v, rest.push(c), budget) == walk_all(
            nodes,
            n_sub,
            v,
            rest.push(second_child(v, nodes[c as int])).push(first_child(v, nodes[c as int])),
            (budget - 1) as nat,
        ),
{
    let n = nodes[c as int];
    let p = first_child(v, n);
    let q = second_child(v, n);
    let with_c = rest.push(c);
    let with_pq = rest.push(q).push(p);
    assert(with_c.drop_last() =~= rest);
    assert(with_pq.drop_last() =~= rest.push(q));
    assert(rest.push(q).drop_last() =~= rest);
    lemma_walk_budget(nodes, n_sub, v, p, (budget - 1) as nat);
    match walk(nodes, n_sub, v, p, (budget - 1) as nat) {
        Err(e) => {},
        Ok((s1, b1)) => {
            match walk(nodes, n_sub, v, q, b1) {
                Err(e) => {},
                Ok((s2, b2)) => {
                    match walk_all(nodes, n_sub, v, rest, b2) {
                        Err(e) => {},
                        Ok((s3, b3)) => {
                            assert(s1 + s2 + s3 =~= s1 + (s2 + s3));
                            assert(walk(nodes, n_sub, v, c, budget) == Ok::<
                                (Seq<u16>, nat),
                                WadError,
                            >((s1 + s2, b2)));
                            assert(walk_all(nodes, n_sub, v, rest.push(q), b1) == Ok::<
                                (Seq<u16>, nat),
                                WadError,
                            >((s2 + s3, b3)));
                        },
                    }
                },
            }
        },
    }
}

/// Walking a leaf on top of the stack visits that leaf, then walks the rest.
proof fn lemma_walk_all_leaf(
    nodes: Seq<Node>,
    n_sub: int,
    v: Viewpoint,
    out: Seq<u16>,
    rest: Seq<u16>,
    c: u16,
    budget: nat,
)
    requires
        is_leaf_ref(c),
        leaf_of(c) < n_sub,
    ensures
        after(out, walk_all(nodes, n_sub, v, rest.push(c), budget)) == after(
            out.push(leaf_of(c)),
            walk_all(nodes, n_sub, v, rest, budget),
        ),
{
    assert(rest.push(c).drop_last() =~= rest);
    if let Ok((s, b)) = walk_all(nodes, n_sub, v, rest, budget) {
        assert(out + (seq![leaf_of(c)] + s) =~= out.push(leaf_of(c)) + s);
    }
}

/// A failing walk on top of the stack fails the whole stack.
proof fn lemma_walk_all_fails(
    nodes: Seq<Node>,
    n_sub: int,
    v: Viewpoint,
    out: Seq<u16>,
    rest: Seq<u16>,
    c: u16,
    budget: nat,
)
    requires
        walk(nodes, n_sub, v, c, budget) is Err,
    ensures
        after(out, walk_all(nodes, n_sub, v, rest.push(c), budget)) == walk(
            nodes,
            n_sub,
            v,
            c,
            budget,
        ),
{
    assert(rest.push(c).drop_last() =~= rest);
}

proof fn lemma_leaf_bits(c: u16)
    ensures
        (c & 0x8000 != 0) == is_leaf_ref(c),
        is_leaf_ref(c) ==> c & 0x7fff == leaf_of(c),
{
    assert((c & 0x8000 != 0) == (c >= 0x8000)) by (bit_vector);
    assert(c >= 0x8000 ==> c & 0x7fff == c - 0x8000) by (bit_vector);
}

/// A partition tree over the geometry arrays of a loaded map.
pub struct BSP<'a> {
    pub map_data: &'a MapData,
    /// The index of the root node, the last one; none for a map without nodes.
    pub root_node_id: Option<usize>,
}

impl<'a> BSP<'a> {
    /// The tree over the map that `wad` has published. Its root is the last node; a map
    /// without nodes has no root and is a single subsector, subsector 0.
    pub fn new(wad: &'a WAD) -> (r: Result<BSP<'a>, WadError>)
        ensures
            wad.map is None ==> r == Err::<BSP<'a>, WadError>(WadError::NoMapLoaded),
            wad.map matches Some(md) ==> r matches Ok(b) && *b.map_data == md && b.root_node_id
                == last_node(md.nodes@.len()),
    {
        let map_data = match wad.map() {
            Ok(md) => md,
            Err(e) => return Err(e),
        };
        let n = map_data.nodes.len();
        let root_node_id = if n == 0 {
            None
        } else {
            Some(n - 1)
        };
        Ok(BSP { map_data, root_node_id })
    }

    /// Whether `v` lies on the back side of the node's partition line (on the line counts
    /// as back).
    pub fn is_on_back_side(&self, v: Viewpoint, node: &Node) -> (r: bool)
        ensures
            r == on_back_side(v, *node),
    {
        let dx: i64 = v.x as i64 - node.x_partition as i64;
        let dy: i64 = v.y as i64 - node.y_partition as i64;
        let ddx: i64 = node.dx_partition as i64;
        let ddy: i64 = node.dy_partition as i64;
        assert(-0x1_0000_0000 * 0x8000 <= dx * ddy <= 0x1_0000_0000 * 0x8000) by (nonlinear_arith)
            requires
                -0x8000_8000 <= dx <= 0x8000_8000,
                -0x8000 <= ddy <= 0x8000,
        ;
        assert(-0x1_0000_0000 * 0x8000 <= dy * ddx <= 0x1_0000_0000 * 0x8000) by (nonlinear_arith)
            requires
                -0x8000_8000 <= dy <= 0x8000_8000,
                -0x8000 <= ddx <= 0x8000,
        ;
        dx * ddy - dy * ddx <= 0
    }

    /// The segs of subsector `id`, in order: `num_segs` of them from index `first_seg` on,
    /// none when `num_segs` is not positive. A negative first index, or a range past the end
    /// of the seg array, is an error.
    pub fn render_sub_sector(&self, id: u16) -> (r: Result<Vec<Seg>, WadError>)
        ensures
            id >= self.map_data.ssectors@.len() ==> r == Err::<Vec<Seg>, WadError>(
                WadError::SubSectorOutOfRange,
            ),
            id < self.map_data.ssectors@.len() ==> {
                let ss = self.map_data.ssectors@[id as int];
                let first = ss.first_seg as int;
                let count = if ss.num_segs > 0 {
                    ss.num_segs as int
                } else {
                    0
                };
                if first < 0 || first + count > self.map_data.segs@.len() {
                    r == Err::<Vec<Seg>, WadError>(WadError::SegOutOfRange)
                } else {
                    r matches Ok(segs) && segs@ == self.map_data.segs@.subrange(
                        first,
                        first + count,
                    )
                }
            },
    {
        if id as usize >= self.map_data.ssectors.len() {
            return Err(WadError::SubSectorOutOfRange);
        }
        let ss = self.map_data.ssectors[id as usize];
        if ss.first_seg < 0 {
            return Err(WadError::SegOutOfRange);
        }
        let first = ss.first_seg as usize;
        let count: usize = if ss.num_segs > 0 {
            ss.num_segs as usize
        } else {
            0
        };
        if first + count > self.map_data.segs.len() {
            return Err(WadError::SegOutOfRange);
        }
        let end = first + count;
        let mut segs: Vec<Seg> = Vec::new();
        let mut i: usize = first;
        while i < end
            invariant
                end == first + count,
                first <= i <= end,
                end <= self.map_data.segs@.len(),
                segs@ == self.map_data.segs@.subrange(first as int, i as int),
            decreases end - i,
        {
            segs.push(self.map_data.segs[i]);
            i = i + 1;
            assert(segs@ =~= self.map_data.segs@.subrange(first as int, i as int));
        }
        Ok(segs)
    }

    /// Walks the references of `stack`, the last one first, allowed `budget` node visits.
    fn walk_stack(&self, v: Viewpoint, pending: Vec<u16>, budget: usize) -> (r: Result<
        Vec<u16>,
        WadError,
    >)
        ensures
            match walk_all(
                self.map_data.nodes@,
                self.map_data.ssectors@.len() as int,
                v,
                pending@,
                budget as nat,
            ) {
                Ok((s, _)) => r matches Ok(out) && out@ == s,
                Err(e) => r == Err::<Vec<u16>, WadError>(e),
            },
    {
        let nodes = &self.map_data.nodes;
        let n_sub = self.map_data.ssectors.len();
        let ghost gn = nodes@;
        let ghost start = pending@;
        let ghost target = walk_all(gn, n_sub as int, v, start, budget as nat);
        // references still to walk, the next one last; a node's second child is pushed first
        let mut stack = pending;
        let mut left = budget;
        let mut out: Vec<u16> = Vec::new();
        proof {
            if let Ok((s, b)) = target {
                assert(out@ + s =~= s);
            }
        }
        while stack.len() > 0
            invariant
                gn == nodes@,
                gn == self.map_data.nodes@,
                n_sub == self.map_data.ssectors@.len(),
                after(out@, walk_all(gn, n_sub as int, v, stack@, left as nat)) == target,
                start == pending@,
                target == walk_all(
                    self.map_data.nodes@,
                    self.map_data.ssectors@.len() as int,
                    v,
                    start,
                    budget as nat,
                ),
            decreases left, stack@.len(),
        {
            let ghost before = stack@;
            let c = stack.pop().unwrap();
            proof {
                assert(before == stack@.push(c));
                lemma_leaf_bits(c);
            }
            if c & 0x8000 != 0 {
                let s = c & 0x7fff;
                if s as usize >= n_sub {
                    proof {
                        lemma_walk_all_fails(gn, n_sub as int, v, out@, stack@, c, left as nat);
                    }
                    return Err(WadError::SubSectorOutOfRange);
                }
                proof {
                    lemma_walk_all_leaf(gn, n_sub as int, v, out@, stack@, c, left as nat);
                }
                out.push(s);
            } else {
                if c as usize >= nodes.len() {
                    proof {
                        lemma_walk_all_fails(gn, n_sub as int, v, out@, stack@, c, left as nat);
                    }
                    return Err(WadError::NodeOutOfRange);
                }
                if left == 0 {
                    proof {
                        lemma_walk_all_fails(gn, n_sub as int, v, out@, stack@, c, left as nat);
                    }
                    return Err(WadError::BudgetExceeded);
                }
                proof {
                    lemma_walk_all_node(gn, n_sub as int, v, stack@, c, left as nat);
                }
                let node = &nodes[c as usize];
                left = left - 1;
                if self.is_on_back_side(v, node) {
                    stack.push(node.front_child as u16);
                    stack.push(node.back_child as u16);
                } else {
                    stack.push(node.back_child as u16);
                    stack.push(node.front_child as u16);
                }
            }
        }
        proof {
            assert(walk_all(gn, n_sub as int, v, stack@, left as nat) == Ok::<
                (Seq<u16>, nat),
                WadError,
            >((seq![], left as nat)));
            assert(out@ + seq![] =~= out@);
        }
        Ok(out)
    }

    /// The subsectors of the subtree that reference `node_id` names, in the order a walk from
    /// `v` visits them: at each node the child on `v`'s side of the partition is walked
    /// first (the back child when `v` is on the back side, the partition line included).
    /// Visiting more nodes than the map has, or meeting a reference past the end of its
    /// array, is an error.
    pub fn render_bsp_node(&self, v: Viewpoint, node_id: u16) -> (r: Result<Vec<u16>, WadError>)
        ensures
            match visit_order(
                self.map_data.nodes@,
                self.map_data.ssectors@.len() as int,
                v,
                node_id,
            ) {
                Ok(s) => r matches Ok(out) && out@ == s,
                Err(e) => r == Err::<Vec<u16>, WadError>(e),
            },
    {
        let mut stack: Vec<u16> = Vec::new();
        stack.push(node_id);
        let budget = self.map_data.nodes.len();
        proof {
            let gn = self.map_data.nodes@;
            let n_sub = self.map_data.ssectors@.len() as int;
            assert(stack@.drop_last() =~= Seq::<u16>::empty());
            if let Ok((s, b)) = walk(gn, n_sub, v, node_id, budget as nat) {
                assert(walk_all(gn, n_sub, v, Seq::<u16>::empty(), b) == Ok::<
                    (Seq<u16>, nat),
                    WadError,
                >((seq![], b)));
                assert(s + seq![] =~= s);
            }
        }
        self.walk_stack(v, stack, budget)
    }

    /// The subsectors of the whole map in the order a walk from `v` visits them, starting at
    /// the root node (or at subsector 0 when there is none).
    pub fn update(&self, v: Viewpoint) -> (r: Result<Vec<u16>, WadError>)
        ensures
            match root_order(
                self.map_data.nodes@,
                self.map_data.ssectors@.len() as int,
                v,
                self.root_node_id,
            ) {
                Ok(s) => r matches Ok(out) && out@ == s,
                Err(e) => r == Err::<Vec<u16>, WadError>(e),
            },
    {
        let root = match self.root_node_id {
            None => return self.render_bsp_node(v, 0x8000),
            Some(root) => root,
        };
        let n_nodes = self.map_data.nodes.len();
        if root >= n_nodes {
            return Err(WadError::NodeOutOfRange);
        }
        let node = &self.map_data.nodes[root];
        let mut stack: Vec<u16> = Vec::new();
        if self.is_on_back_side(v, node) {
            stack.push(node.front_child as u16);
            stack.push(node.back_child as u16);
        } else {
            stack.push(node.back_child as u16);
            stack.push(node.front_child as u16);
        }
        proof {
            let gn = self.map_data.nodes@;
            let n_sub = self.map_data.ssectors@.len() as int;
            let p = first_child(v, *node);
            let q = second_child(v, *node);
            assert(stack@ == seq![q, p]);
            assert(stack@.drop_last() =~= seq![q]);
            assert(seq![q].drop_last() =~= Seq::<u16>::empty());
            let bud = (n_nodes - 1) as nat;
            assert(*node == gn[root as int]);
            assert(stack@.last() == p);
            assert(seq![q].last() == q);
            match walk(gn, n_sub, v, p, bud) {
                Err(e) => {
                    assert(walk_all(gn, n_sub, v, stack@, bud) == Err::<(Seq<u16>, nat), WadError>(
                        e,
                    ));
                },
                Ok((s1, b1)) => {
                    match walk(gn, n_sub, v, q, b1) {
                        Err(e) => {
                            assert(walk_all(gn, n_sub, v, seq![q], b1) == Err::<
                                (Seq<u16>, nat),
                                WadError,
                            >(e));
                        },
                        Ok((s2, b2)) => {
                            assert(walk_all(gn, n_sub, v, Seq::<u16>::empty(), b2) == Ok::<
                                (Seq<u16>, nat),
                                WadError,
                            >((seq![], b2)));
                            assert(walk_all(gn, n_sub, v, seq![q], b1) == Ok::<
                                (Seq<u16>, nat),
                                WadError,
                            >((s2 + seq![], b2)));
                            assert(s1 + (s2 + seq![]) =~= s1 + s2);
                        },
                    }
                },
            }
        }
        self.walk_stack(v, stack, n_nodes - 1)
    }
}

/// The nodes of the subtree that reference `c` names, followed at most `depth` levels down.
pub open spec fn tree_nodes(nodes: Seq<Node>, c: u16, depth: nat) -> Set<int>
    decreases depth,
{
    if is_leaf_ref(c) || c >= nodes.len() || depth == 0 {
        Set::empty()
    } else {
        let n = nodes[c as int];
        tree_nodes(nodes, n.front_child as u16, (depth - 1) as nat).union(
            tree_nodes(nodes, n.back_child as u16, (depth - 1) as nat),
        ).insert(c as int)
    }
}

/// The subsectors of the subtree that reference `c` names, followed at most `depth` levels down.
pub open spec fn tree_leaves(nodes: Seq<Node>, c: u16, depth: nat) -> Set<u16>
    decreases depth,
{
    if is_leaf_ref(c) {
        set![leaf_of(c)]
    } else if c >= nodes.len() || depth == 0 {
        Set::empty()
    } else {
        let n = nodes[c as int];
        tree_leaves(nodes, n.front_child as u16, (depth - 1) as nat).union(
            tree_leaves(nodes, n.back_child as u16, (depth - 1) as nat),
        )
    }
}

/// Reference `c` names a well-formed tree of depth at most `depth`: every reference in it is in
/// range, and no node or subsector is reached twice (so in particular no node is its own
/// descendant).
pub open spec fn is_tree(nodes: Seq<Node>, n_sub: int, c: u16, depth: nat) -> bool
    decreases depth,
{
    if is_leaf_ref(c) {
        leaf_of(c) < n_sub
    } else if c >= nodes.len() || depth == 0 {
        false
    } else {
        let n = nodes[c as int];
        let f = n.front_child as u16;
        let b = n.back_child as u16;
        let d = (depth - 1) as nat;
        &&& is_tree(nodes, n_sub, f, d)
        &&& is_tree(nodes, n_sub, b, d)
        &&& tree_nodes(nodes, f, d).disjoint(tree_nodes(nodes, b, d))
        &&& !tree_nodes(nodes, f, d).contains(c as int)
        &&& !tree_nodes(nodes, b, d).contains(c as int)
        &&& tree_leaves(nodes, f, d).disjoint(tree_leaves(nodes, b, d))
    }
}

/// The nodes of a subtree are indexes into the node array.
proof fn lemma_tree_nodes_in_range(nodes: Seq<Node>, c: u16, depth: nat)
    ensures
        tree_nodes(nodes, c, depth).finite(),
        tree_nodes(nodes, c, depth).subset_of(set_int_range(0, nodes.len() as int)),
    decreases depth,
{
    if !(is_leaf_ref(c) || c >= nodes.len() || depth == 0) {
        let n = nodes[c as int];
        lemma_tree_nodes_in_range(nodes, n.front_child as u16, (depth - 1) as nat);
        lemma_tree_nodes_in_range(nodes, n.back_child as u16, (depth - 1) as nat);
    }
}

/// On a well-formed tree a walk succeeds whenever the budget covers its nodes, spends exactly
/// one unit per node, and visits each of its subsectors exactly once.
proof fn lemma_walk_tree(
    nodes: Seq<Node>,
    n_sub: int,
    v: Viewpoint,
    c: u16,
    depth: nat,
    budget: nat,
)
    requires
        is_tree(nodes, n_sub, c, depth),
        budget >= tree_nodes(nodes, c, depth).len(),
    ensures
        walk(nodes, n_sub, v, c, budget) matches Ok((s, b)) && {
            &&& b == budget - tree_nodes(nodes, c, depth).len()
            &&& s.no_duplicates()
            &&& s.to_set() == tree_leaves(nodes, c, depth)
        },
    decreases depth,
{
    lemma_tree_nodes_in_range(nodes, c, depth);
    if is_leaf_ref(c) {
        assert(seq![leaf_of(c)].to_set() =~= set![leaf_of(c)]) by {
            assert(seq![leaf_of(c)][0] == leaf_of(c));
        }
    } else {
        let n = nodes[c as int];
        let f = n.front_child as u16;
        let bk = n.back_child as u16;
        let d = (depth - 1) as nat;
        let p = first_child(v, n);
        let q = second_child(v, n);
        lemma_tree_nodes_in_range(nodes, f, d);
        lemma_tree_nodes_in_range(nodes, bk, d);
        let nf = tree_nodes(nodes, f, d);
        let nb = tree_nodes(nodes, bk, d);
        vstd::set_lib::lemma_set_disjoint_lens(nf, nb);
        assert(tree_nodes(nodes, c, depth).len() == nf.len() + nb.len() + 1);
        let np = tree_nodes(nodes, p, d);
        let nq = tree_nodes(nodes, q, d);
        assert(np.len() + nq.len() == nf.len() + nb.len());
        lemma_walk_tree(nodes, n_sub, v, p, d, (budget - 1) as nat);
        let (s1, b1) = walk(nodes, n_sub, v, p, (budget - 1) as nat)->Ok_0;
        assert(b1 == budget - 1 - np.len());
        lemma_walk_tree(nodes, n_sub, v, q, d, b1);
        let (s2, b2) = walk(nodes, n_sub, v, q, b1)->Ok_0;
        assert(walk(nodes, n_sub, v, c, budget) == Ok::<(Seq<u16>, nat), WadError>((s1 + s2, b2)));
        assert(tree_leaves(nodes, p, d).disjoint(tree_leaves(nodes, q, d)));
        assert forall|i: int, j: int|
            0 <= i < s1.len() && 0 <= j < s2.len() implies s1[i] != s2[j] by {
            assert(s1.to_set().contains(s1[i]));
            assert(s2.to_set().contains(s2[j]));
        }
        vstd::seq_lib::lemma_no_dup_in_concat(s1, s2);
        vstd::seq_lib::seq_to_set_distributes_over_add(s1, s2);
        assert(tree_leaves(nodes, c, depth) =~= tree_leaves(nodes, p, d).union(
            tree_leaves(nodes, q, d),
        ));
    }
}

/// A child reference with its high bit set is a leaf: the walk visits subsector `c & 0x7fff`
/// (when it exists) and goes no further. One with the bit clear is a node index: the walk
/// visits that node's two children, the first child's subsectors before the second's.
pub proof fn lemma_child_reference(nodes: Seq<Node>, n_sub: int, v: Viewpoint, c: u16, budget: nat)
    ensures
        c & 0x8000 != 0 ==> walk(nodes, n_sub, v, c, budget) == if (c & 0x7fff) < n_sub {
            Ok::<(Seq<u16>, nat), WadError>((seq![c & 0x7fff], budget))
        } else {
            Err::<(Seq<u16>, nat), WadError>(WadError::SubSectorOutOfRange)
        },
        c & 0x8000 == 0 && c < nodes.len() && budget > 0 ==> {
            let n = nodes[c as int];
            walk(nodes, n_sub, v, c, budget) == match walk(
                nodes,
                n_sub,
                v,
                first_child(v, n),
                (budget - 1) as nat,
            ) {
                Err(e) => Err(e),
                Ok((s1, b1)) => match walk(nodes, n_sub, v, second_child(v, n), b1) {
                    Err(e) => Err(e),
                    Ok((s2, b2)) => Ok((s1 + s2, b2)),
                },
            }
        },
{
    lemma_leaf_bits(c);
    if c & 0x8000 == 0 && c < nodes.len() && budget > 0 {
        lemma_walk_budget(nodes, n_sub, v, first_child(v, nodes[c as int]), (budget - 1) as nat);
    }
}

/// The node array forms one well-formed tree rooted at its last node: both children of the
/// root name well-formed trees, these share no node and no subsector, and neither reaches the
/// root. Without nodes the map is the single subsector 0, which must exist.
pub open spec fn is_root_tree(nodes: Seq<Node>, n_sub: int) -> bool {
    if nodes.len() == 0 {
        0 < n_sub
    } else {
        let r = nodes.len() - 1;
        let n = nodes[r];
        let f = n.front_child as u16;
        let b = n.back_child as u16;
        let d = (nodes.len() - 1) as nat;
        &&& is_tree(nodes, n_sub, f, d)
        &&& is_tree(nodes, n_sub, b, d)
        &&& tree_nodes(nodes, f, d).disjoint(tree_nodes(nodes, b, d))
        &&& !tree_nodes(nodes, f, d).contains(r)
        &&& !tree_nodes(nodes, b, d).contains(r)
        &&& tree_leaves(nodes, f, d).disjoint(tree_leaves(nodes, b, d))
    }
}

/// The subsectors reachable from the root (subsector 0 alone when there are no nodes).
pub open spec fn root_leaves(nodes: Seq<Node>) -> Set<u16> {
    if nodes.len() == 0 {
        set![0u16]
    } else {
        let n = nodes[nodes.len() - 1];
        let d = (nodes.len() - 1) as nat;
        tree_leaves(nodes, n.front_child as u16, d).union(
            tree_leaves(nodes, n.back_child as u16, d),
        )
    }
}

/// On a well-formed tree the walk from the root visits every subsector reachable from the root
/// exactly once, whatever the viewpoint; only the order depends on it.
pub proof fn lemma_tree_visits_each_leaf_once(nodes: Seq<Node>, n_sub: int, v: Viewpoint)
    requires
        nodes.len() <= usize::MAX,
        is_root_tree(nodes, n_sub),
    ensures
        root_order(nodes, n_sub, v, last_node(nodes.len())) matches Ok(s) && {
            &&& s.no_duplicates()
            &&& s.to_set() == root_leaves(nodes)
            &&& s.len() == root_leaves(nodes).len()
        },
{
    if nodes.len() == 0 {
        lemma_walk_tree(nodes, n_sub, v, 0x8000, 0, 0);
        assert(leaf_of(0x8000) == 0);
        let s = walk(nodes, n_sub, v, 0x8000, 0)->Ok_0.0;
        s.unique_seq_to_set();
    } else {
        let len = nodes.len();
        let r = len - 1;
        let n = nodes[r];
        let f = n.front_child as u16;
        let bk = n.back_child as u16;
        let d = (len - 1) as nat;
        let p = first_child(v, n);
        let q = second_child(v, n);
        lemma_tree_nodes_in_range(nodes, f, d);
        lemma_tree_nodes_in_range(nodes, bk, d);
        let nf = tree_nodes(nodes, f, d);
        let nb = tree_nodes(nodes, bk, d);
        vstd::set_lib::lemma_set_disjoint_lens(nf, nb);
        vstd::set_lib::lemma_int_range(0, r);
        assert(nf.union(nb).subset_of(set_int_range(0, r)));
        vstd::set_lib::lemma_len_subset(nf.union(nb), set_int_range(0, r));
        let np = tree_nodes(nodes, p, d);
        let nq = tree_nodes(nodes, q, d);
        assert(np.len() + nq.len() == nf.len() + nb.len());
        lemma_walk_tree(nodes, n_sub, v, p, d, d);
        let (s1, b1) = walk(nodes, n_sub, v, p, d)->Ok_0;
        lemma_walk_tree(nodes, n_sub, v, q, d, b1);
        let (s2, b2) = walk(nodes, n_sub, v, q, b1)->Ok_0;
        assert(last_node(len) == Some(r as usize));
        assert(root_order(nodes, n_sub, v, last_node(len)) == Ok::<Seq<u16>, WadError>(s1 + s2));
        assert forall|i: int, j: int|
            0 <= i < s1.len() && 0 <= j < s2.len() implies s1[i] != s2[j] by {
            assert(s1.to_set().contains(s1[i]));
            assert(s2.to_set().contains(s2[j]));
        }
        vstd::seq_lib::lemma_no_dup_in_concat(s1, s2);
        vstd::seq_lib::seq_to_set_distributes_over_add(s1, s2);
        assert(root_leaves(nodes) =~= tree_leaves(nodes, p, d).union(tree_leaves(nodes, q, d)));
        (s1 + s2).unique_seq_to_set();
    }
}

/// A viewpoint on a node's partition line lies on its back side; the side depends on the
/// viewpoint and the node alone.
pub proof fn lemma_on_line_is_back(v: Viewpoint, n: Node)
    requires
        cross(v, n) == 0,
    ensures
        on_back_side(v, n),
        first_child(v, n) == n.back_child as u16,
{
}

} // verus!
