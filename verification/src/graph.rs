//! The execution graph of a stage: one node per prim, one edge per wire
//! along which values flow, and the order in which nodes run. The graph is a
//! `petgraph` `StableGraph`; its order comes from `petgraph::algo::toposort`.

use crate::otc::OtcCompiledAsset;
use crate::stage_graph::{
    attr_lookup, attr_views, attribute_of, is_execution_relationship, resolve_prim_otl_expression,
    spec_is_execution_relationship, spec_prim_expression, GraphCompileWire, GraphEngineError,
    StageGraphPrim, StageGraphSnapshot,
};
use petgraph::stable_graph::StableGraph;
use petgraph::Directed;
use vstd::prelude::*;

verus! {

#[verifier::external_type_specification]
#[verifier::external_body]
#[verifier::reject_recursive_types(N)]
#[verifier::reject_recursive_types(E)]
#[verifier::reject_recursive_types(Ty)]
#[verifier::reject_recursive_types(Ix)]
pub struct ExStableGraph<N, E, Ty, Ix>(StableGraph<N, E, Ty, Ix>);

#[verifier::external_type_specification]
#[verifier::external_body]
pub struct ExDirected(Directed);

/// The node slots of a graph by index: the weight of a live node, `None` for
/// a vacant slot.
pub uninterp spec fn graph_nodes(g: StableGraph<usize, ()>) -> Seq<Option<usize>>;

/// The edge slots of a graph by index: `(source, target)` of a live edge,
/// `None` for a vacant slot.
pub uninterp spec fn graph_edges(g: StableGraph<usize, ()>) -> Seq<Option<(int, int)>>;

/// `StableGraph::new`: a directed graph with no node and no edge.
#[verifier::external_body]
fn empty_graph() -> (g: StableGraph<usize, ()>)
    ensures
        graph_nodes(g) == Seq::<Option<usize>>::empty(),
        graph_edges(g) == Seq::<Option<(int, int)>>::empty(),
{
    StableGraph::new()
}

/// `StableGraph::add_node`: the node takes a vacant slot when the graph has
/// one (which one, its free list decides), else a new slot at the end. A new
/// slot at the largest index panics, so that case is left out.
#[verifier::external_body]
fn graph_add_node(g: &mut StableGraph<usize, ()>, weight: usize) -> (i: usize)
    requires
        graph_nodes(*old(g)).len() < 0xffff_ffff,
    ensures
        graph_edges(*final(g)) == graph_edges(*old(g)),
        i <= graph_nodes(*old(g)).len(),
        (i == graph_nodes(*old(g)).len()) == (forall|j: int|
            0 <= j < graph_nodes(*old(g)).len() ==> #[trigger] graph_nodes(*old(g))[j] is Some),
        i < graph_nodes(*old(g)).len() ==> graph_nodes(*old(g))[i as int] is None && graph_nodes(
            *final(g),
        ) == graph_nodes(*old(g)).update(i as int, Some(weight)),
        i == graph_nodes(*old(g)).len() ==> graph_nodes(*final(g)) == graph_nodes(*old(g)).push(
            Some(weight),
        ),
{
    g.add_node(weight).index()
}

/// `StableGraph::add_edge` from node `a` to node `b`: the edge takes a vacant
/// slot when the graph has one, else a new slot at the end. It panics when an
/// endpoint is not a live node, or when a new slot would take the largest
/// index, so those cases are left out.
#[verifier::external_body]
fn graph_add_edge(g: &mut StableGraph<usize, ()>, a: usize, b: usize) -> (k: usize)
    requires
        a < graph_nodes(*old(g)).len(),
        graph_nodes(*old(g))[a as int] is Some,
        b < graph_nodes(*old(g)).len(),
        graph_nodes(*old(g))[b as int] is Some,
        graph_edges(*old(g)).len() < 0xffff_ffff,
    ensures
        graph_nodes(*final(g)) == graph_nodes(*old(g)),
        k <= graph_edges(*old(g)).len(),
        (k == graph_edges(*old(g)).len()) == (forall|j: int|
            0 <= j < graph_edges(*old(g)).len() ==> #[trigger] graph_edges(*old(g))[j] is Some),
        k < graph_edges(*old(g)).len() ==> graph_edges(*old(g))[k as int] is None && graph_edges(
            *final(g),
        ) == graph_edges(*old(g)).update(k as int, Some((a as int, b as int))),
        k == graph_edges(*old(g)).len() ==> graph_edges(*final(g)) == graph_edges(*old(g)).push(
            Some((a as int, b as int)),
        ),
    no_unwind
{
    g.add_edge(petgraph::stable_graph::NodeIndex::new(a), petgraph::stable_graph::NodeIndex::new(b), ()).index()
}

/// `petgraph::algo::toposort`: every live node once, each before its
/// successors; an error when the graph has a cycle (a self loop counts).
#[verifier::external_body]
fn graph_toposort(g: &StableGraph<usize, ()>) -> (r: Result<Vec<usize>, usize>)
    ensures
        match r {
            Ok(order) => is_topological_order(graph_nodes(*g), graph_edges(*g), order@),
            Err(_) => has_cycle(graph_edges(*g)),
        },
{
    match petgraph::algo::toposort(g, None) {
        Ok(order) => Ok(order.into_iter().map(|n| n.index()).collect()),
        Err(cycle) => Err(cycle.node_id().index()),
    }
}

// ---------------------------------------------------------------------------
// Orders and cycles
// ---------------------------------------------------------------------------

pub open spec fn is_live(nodes: Seq<Option<usize>>, i: int) -> bool {
    0 <= i < nodes.len() && nodes[i] is Some
}

/// A live edge runs from `a` to `b`.
pub open spec fn has_edge(edges: Seq<Option<(int, int)>>, a: int, b: int) -> bool {
    exists|k: int| 0 <= k < edges.len() && edges[k] == Some((a, b))
}

/// Node `i` has a place in `order`.
pub open spec fn runs(order: Seq<usize>, i: int) -> bool {
    exists|x: int| 0 <= x < order.len() && order[x] as int == i
}

/// The place of node `i` in `order`.
pub open spec fn position(order: Seq<usize>, i: int) -> int {
    choose|x: int| 0 <= x < order.len() && order[x] as int == i
}

/// `order` lists every live node once and puts each before its successors.
pub open spec fn is_topological_order(
    nodes: Seq<Option<usize>>,
    edges: Seq<Option<(int, int)>>,
    order: Seq<usize>,
) -> bool {
    &&& order.no_duplicates()
    &&& forall|x: int| 0 <= x < order.len() ==> is_live(nodes, #[trigger] order[x] as int)
    &&& forall|i: int| is_live(nodes, i) ==> #[trigger] runs(order, i)
    &&& forall|x: int, y: int|
        0 <= x < order.len() && 0 <= y < order.len() && has_edge(
            edges,
            #[trigger] order[x] as int,
            #[trigger] order[y] as int,
        ) ==> x < y
}

/// Consecutive nodes of `path` are joined by live edges.
pub open spec fn is_walk(edges: Seq<Option<(int, int)>>, path: Seq<int>) -> bool {
    forall|k: int| 0 <= k < path.len() - 1 ==> has_edge(edges, #[trigger] path[k], path[k + 1])
}

/// Some walk of at least one edge comes back to where it started.
pub open spec fn has_cycle(edges: Seq<Option<(int, int)>>) -> bool {
    exists|path: Seq<int>| path.len() >= 2 && path[0] == path.last() && #[trigger] is_walk(edges, path)
}

/// Each live edge joins live nodes.
pub open spec fn edges_join_live_nodes(nodes: Seq<Option<usize>>, edges: Seq<Option<(int, int)>>) -> bool {
    forall|k: int|
        0 <= k < edges.len() ==> match #[trigger] edges[k] {
            Some((a, b)) => is_live(nodes, a) && is_live(nodes, b),
            None => true,
        }
}

proof fn lemma_walk_moves_forward(
    nodes: Seq<Option<usize>>,
    edges: Seq<Option<(int, int)>>,
    order: Seq<usize>,
    path: Seq<int>,
    j: int,
)
    requires
        is_topological_order(nodes, edges, order),
        edges_join_live_nodes(nodes, edges),
        is_walk(edges, path),
        1 <= j < path.len(),
    ensures
        runs(order, path[0]),
        runs(order, path[j]),
        position(order, path[0]) < position(order, path[j]),
    decreases j,
{
    let k = choose|k: int| 0 <= k < edges.len() && edges[k] == Some((path[j - 1], path[j]));
    assert(has_edge(edges, path[j - 1], path[j]));
    assert(edges[k] is Some);
    assert(is_live(nodes, path[j - 1]) && is_live(nodes, path[j]));
    assert(runs(order, path[j - 1]));
    assert(runs(order, path[j]));
    let x = position(order, path[j - 1]);
    let y = position(order, path[j]);
    assert(order[x] as int == path[j - 1]);
    assert(order[y] as int == path[j]);
    assert(has_edge(edges, order[x] as int, order[y] as int));
    assert(x < y);
    if j > 1 {
        lemma_walk_moves_forward(nodes, edges, order, path, j - 1);
    }
}

/// A graph whose live nodes have a topological order has no cycle.
pub proof fn lemma_ordered_graph_is_acyclic(
    nodes: Seq<Option<usize>>,
    edges: Seq<Option<(int, int)>>,
    order: Seq<usize>,
)
    requires
        is_topological_order(nodes, edges, order),
        edges_join_live_nodes(nodes, edges),
    ensures
        !has_cycle(edges),
{
    if has_cycle(edges) {
        let path = choose|path: Seq<int>| path.len() >= 2 && path[0] == path.last() && #[trigger] is_walk(edges, path);
        lemma_walk_moves_forward(nodes, edges, order, path, path.len() - 1);
    }
}

// ---------------------------------------------------------------------------
// Execution levels
// ---------------------------------------------------------------------------

/// `depth` gives each of the `n` nodes the number of edges on the longest
/// walk that ends at it: a node with no incoming edge is at depth 0, any
/// other one level below its deepest predecessor.
pub open spec fn is_longest_path_depth(n: nat, edges: Seq<Option<(int, int)>>, depth: Seq<usize>) -> bool {
    &&& depth.len() == n
    &&& forall|a: int, b: int|
        0 <= a < n && 0 <= b < n && #[trigger] has_edge(edges, a, b) ==> depth[a] < depth[b]
    &&& forall|b: int|
        0 <= b < n && #[trigger] depth[b] > 0 ==> exists|a: int|
            0 <= a < n && #[trigger] has_edge(edges, a, b) && depth[a] + 1 == depth[b]
}

/// The nodes of `order` at depth `d`, in the order they run.
pub open spec fn level_members(order: Seq<usize>, depth: Seq<usize>, d: int) -> Seq<usize>
    decreases order.len(),
{
    if order.len() == 0 {
        Seq::empty()
    } else {
        let rest = level_members(order.drop_last(), depth, d);
        if depth[order.last() as int] == d {
            rest.push(order.last())
        } else {
            rest
        }
    }
}

/// One more than the greatest depth (0 when there is no node).
pub open spec fn level_count(depth: Seq<usize>) -> nat
    decreases depth.len(),
{
    if depth.len() == 0 {
        0
    } else {
        let rest = level_count(depth.drop_last());
        if rest > depth.last() {
            rest
        } else {
            (depth.last() + 1) as nat
        }
    }
}

/// The nodes grouped by depth: level `d` holds the nodes at depth `d` in
/// execution order.
pub open spec fn levels_of(order: Seq<usize>, depth: Seq<usize>) -> Seq<Seq<usize>> {
    Seq::new(level_count(depth), |d: int| level_members(order, depth, d))
}

/// The edge slots of a list of edges.
pub open spec fn pair_edges(list: Seq<(usize, usize)>) -> Seq<Option<(int, int)>> {
    Seq::new(list.len(), |j: int| Some((list[j].0 as int, list[j].1 as int)))
}

proof fn lemma_depths_agree_at(
    n: nat,
    edges: Seq<Option<(int, int)>>,
    order: Seq<usize>,
    d1: Seq<usize>,
    d2: Seq<usize>,
    y: int,
)
    requires
        is_topological_order(live_nodes(n), edges, order),
        edges_join_live_nodes(live_nodes(n), edges),
        is_longest_path_depth(n, edges, d1),
        is_longest_path_depth(n, edges, d2),
        0 <= y < order.len(),
    ensures
        d1[order[y] as int] == d2[order[y] as int],
    decreases y,
{
    let v = order[y] as int;
    assert(is_live(live_nodes(n), v));
    if d1[v] < d2[v] {
        assert(d2[v] > 0);
        let a = choose|a: int| 0 <= a < n && #[trigger] has_edge(edges, a, v) && d2[a] + 1 == d2[v];
        assert(is_live(live_nodes(n), a));
        assert(runs(order, a));
        let p = position(order, a);
        assert(has_edge(edges, order[p] as int, order[y] as int));
        lemma_depths_agree_at(n, edges, order, d1, d2, p);
        assert(d1[a] < d1[v]);
    } else if d2[v] < d1[v] {
        assert(d1[v] > 0);
        let a = choose|a: int| 0 <= a < n && #[trigger] has_edge(edges, a, v) && d1[a] + 1 == d1[v];
        assert(is_live(live_nodes(n), a));
        assert(runs(order, a));
        let p = position(order, a);
        assert(has_edge(edges, order[p] as int, order[y] as int));
        lemma_depths_agree_at(n, edges, order, d1, d2, p);
        assert(d2[a] < d2[v]);
    }
}

/// An acyclic graph has one longest-path depth: two depth assignments that
/// both meet the definition agree on every node.
pub proof fn lemma_longest_path_depth_is_unique(
    n: nat,
    edges: Seq<Option<(int, int)>>,
    order: Seq<usize>,
    d1: Seq<usize>,
    d2: Seq<usize>,
)
    requires
        is_topological_order(live_nodes(n), edges, order),
        edges_join_live_nodes(live_nodes(n), edges),
        is_longest_path_depth(n, edges, d1),
        is_longest_path_depth(n, edges, d2),
    ensures
        d1 == d2,
{
    assert forall|v: int| 0 <= v < n implies d1[v] == d2[v] by {
        assert(is_live(live_nodes(n), v));
        assert(runs(order, v));
        let y = position(order, v);
        lemma_depths_agree_at(n, edges, order, d1, d2, y);
    }
    assert(d1 =~= d2);
}

proof fn lemma_level_member_depth(order: Seq<usize>, depth: Seq<usize>, d: int, i: int)
    requires
        0 <= i < level_members(order, depth, d).len(),
    ensures
        depth[level_members(order, depth, d)[i] as int] == d,
        order.contains(level_members(order, depth, d)[i]),
    decreases order.len(),
{
    let rest = level_members(order.drop_last(), depth, d);
    if i < rest.len() {
        lemma_level_member_depth(order.drop_last(), depth, d, i);
        let x = choose|x: int| 0 <= x < order.drop_last().len() && order.drop_last()[x] == rest[i];
        assert(order[x] == rest[i]);
    } else {
        assert(order[order.len() - 1] == order.last());
    }
}

/// Nodes that share a level have no edge between them, and every edge runs
/// from an earlier level to a later one: the nodes of one level can run side
/// by side once the levels before it are done.
pub proof fn lemma_levels_respect_edges(
    n: nat,
    edges: Seq<Option<(int, int)>>,
    order: Seq<usize>,
    depth: Seq<usize>,
    i: int,
    j: int,
    x: int,
    y: int,
)
    requires
        is_topological_order(live_nodes(n), edges, order),
        is_longest_path_depth(n, edges, depth),
        0 <= i < levels_of(order, depth).len(),
        0 <= j < levels_of(order, depth).len(),
        0 <= x < levels_of(order, depth)[i].len(),
        0 <= y < levels_of(order, depth)[j].len(),
        has_edge(edges, levels_of(order, depth)[i][x] as int, levels_of(order, depth)[j][y] as int),
    ensures
        i < j,
{
    let a = levels_of(order, depth)[i][x];
    let b = levels_of(order, depth)[j][y];
    lemma_level_member_depth(order, depth, i, x);
    lemma_level_member_depth(order, depth, j, y);
    let p = choose|p: int| 0 <= p < order.len() && order[p] == a;
    let q = choose|q: int| 0 <= q < order.len() && order[q] == b;
    assert(is_live(live_nodes(n), order[p] as int));
    assert(is_live(live_nodes(n), order[q] as int));
    assert(has_edge(edges, a as int, b as int));
}

/// The longest-path depth of each of the `n` nodes, filled in along a
/// topological order.
fn longest_path_depths(n: usize, edge_list: &Vec<(usize, usize)>, order: &Vec<usize>) -> (depth: Vec<usize>)
    requires
        is_topological_order(live_nodes(n as nat), pair_edges(edge_list@), order@),
        forall|j: int| 0 <= j < edge_list@.len() ==> #[trigger] edge_list@[j].0 < n && edge_list@[j].1 < n,
    ensures
        is_longest_path_depth(n as nat, pair_edges(edge_list@), depth@),
        forall|i: int| 0 <= i < n ==> #[trigger] depth@[i] < order@.len(),
{
    let ghost edges = pair_edges(edge_list@);
    let ghost nodes = live_nodes(n as nat);
    let mut depth: Vec<usize> = Vec::new();
    let mut i: usize = 0;
    while i < n
        invariant
            i <= n,
            depth@.len() == i,
            forall|k: int| 0 <= k < i ==> #[trigger] depth@[k] == 0,
        decreases n - i,
    {
        depth.push(0);
        i = i + 1;
    }
    let mut x: usize = 0;
    while x < order.len()
        invariant
            x <= order@.len(),
            depth@.len() == n,
            edges == pair_edges(edge_list@),
            nodes == live_nodes(n as nat),
            is_topological_order(nodes, edges, order@),
            forall|j: int| 0 <= j < edge_list@.len() ==> #[trigger] edge_list@[j].0 < n && edge_list@[j].1 < n,
            forall|k: int| 0 <= k < n ==> #[trigger] depth@[k] <= x,
            forall|y: int| 0 <= y < x ==> #[trigger] depth@[order@[y] as int] <= y,
            forall|k: int| 0 <= k < n && !(exists|y: int| 0 <= y < x && order@[y] as int == k) ==> #[trigger] depth@[k] == 0,
            forall|y: int, a: int|
                0 <= y < x && 0 <= a < n && #[trigger] has_edge(edges, a, order@[y] as int) ==> depth@[a]
                    < depth@[order@[y] as int],
            forall|y: int|
                0 <= y < x && #[trigger] depth@[order@[y] as int] > 0 ==> exists|a: int|
                    0 <= a < n && #[trigger] has_edge(edges, a, order@[y] as int) && depth@[a] + 1
                        == depth@[order@[y] as int],
        decreases order.len() - x,
    {
        let v = order[x];
        assert(is_live(nodes, order@[x as int] as int));
        let mut d: usize = 0;
        let mut j: usize = 0;
        while j < edge_list.len()
            invariant
                j <= edge_list@.len(),
                x < order@.len(),
                v == order@[x as int],
                v < n,
                depth@.len() == n,
                edges == pair_edges(edge_list@),
                nodes == live_nodes(n as nat),
                is_topological_order(nodes, edges, order@),
                forall|j: int| 0 <= j < edge_list@.len() ==> #[trigger] edge_list@[j].0 < n && edge_list@[j].1 < n,
                forall|y: int| 0 <= y < x ==> #[trigger] depth@[order@[y] as int] <= y,
                d <= x,
                forall|i: int|
                    0 <= i < j && #[trigger] edge_list@[i].1 == v ==> depth@[edge_list@[i].0 as int] + 1 <= d,
                d == 0 || exists|i: int|
                    0 <= i < j && #[trigger] edge_list@[i].1 == v && depth@[edge_list@[i].0 as int] + 1 == d,
            decreases edge_list.len() - j,
        {
            let (a, b) = edge_list[j];
            if b == v {
                proof {
                    assert(edges[j as int] == Some((a as int, b as int)));
                    assert(has_edge(edges, a as int, v as int));
                    assert(is_live(nodes, a as int));
                    assert(runs(order@, a as int));
                    let p = position(order@, a as int);
                    assert(has_edge(edges, order@[p] as int, order@[x as int] as int));
                    assert(depth@[order@[p] as int] <= p);
                }
                if depth[a] + 1 > d {
                    d = depth[a] + 1;
                }
            }
            j = j + 1;
        }
        let ghost before = depth@;
        depth.set(v, d);
        proof {
            assert forall|y: int| 0 <= y < x implies order@[y] != v by {
                assert(order@.no_duplicates());
            }
            assert forall|y: int, a: int|
                0 <= y <= x && 0 <= a < n && #[trigger] has_edge(edges, a, order@[y] as int) implies depth@[a]
                    < depth@[order@[y] as int] by {
                let k = choose|k: int| 0 <= k < edges.len() && edges[k] == Some((a, order@[y] as int));
                assert(edge_list@[k].0 as int == a && edge_list@[k].1 == order@[y]);
                assert(is_live(nodes, a));
                assert(runs(order@, a));
                let p = position(order@, a);
                assert(has_edge(edges, order@[p] as int, order@[y] as int));
                assert(p < y);
                assert(order@[p] != v);
                if y < x {
                    assert(order@[y] != v);
                    assert(before[a] < before[order@[y] as int]);
                } else {
                    assert(edge_list@[k].1 == v);
                    assert(before[a] + 1 <= d);
                }
            }
            assert forall|y: int|
                0 <= y <= x && #[trigger] depth@[order@[y] as int] > 0 implies exists|a: int|
                    0 <= a < n && #[trigger] has_edge(edges, a, order@[y] as int) && depth@[a] + 1
                        == depth@[order@[y] as int] by {
                if y < x {
                    assert(order@[y] != v);
                    assert(before[order@[y] as int] > 0);
                    let a = choose|a: int|
                        0 <= a < n && #[trigger] has_edge(edges, a, order@[y] as int) && before[a] + 1
                            == before[order@[y] as int];
                    assert(is_live(nodes, a));
                    assert(runs(order@, a));
                    let p = position(order@, a);
                    assert(has_edge(edges, order@[p] as int, order@[y] as int));
                    assert(order@[p] != v);
                    assert(depth@[a] == before[a]);
                } else {
                    let i = choose|i: int|
                        0 <= i < edge_list@.len() && #[trigger] edge_list@[i].1 == v && before[edge_list@[i].0 as int] + 1 == d;
                    let a = edge_list@[i].0 as int;
                    assert(edges[i] == Some((a, v as int)));
                    assert(has_edge(edges, a, order@[y] as int));
                    assert(is_live(nodes, a));
                    assert(runs(order@, a));
                    let p = position(order@, a);
                    assert(has_edge(edges, order@[p] as int, order@[x as int] as int));
                    assert(order@[p] != v);
                    assert(depth@[a] == before[a]);
                }
            }
            assert forall|k: int|
                0 <= k < n && !(exists|y: int| 0 <= y < x + 1 && order@[y] as int == k) implies #[trigger] depth@[k] == 0 by {
                assert(order@[x as int] as int != k);
                assert(!(exists|y: int| 0 <= y < x && order@[y] as int == k));
            }
        }
        x = x + 1;
    }
    proof {
        assert forall|i: int| 0 <= i < n implies #[trigger] depth@[i] < order@.len() by {
            assert(is_live(nodes, i));
            assert(runs(order@, i));
            let p = position(order@, i);
            assert(depth@[order@[p] as int] <= p);
        }
        assert forall|a: int, b: int|
            0 <= a < n && 0 <= b < n && #[trigger] has_edge(edges, a, b) implies depth@[a] < depth@[b] by {
            assert(is_live(nodes, b));
            assert(runs(order@, b));
            let p = position(order@, b);
            assert(has_edge(edges, a, order@[p] as int));
        }
        assert forall|b: int|
            0 <= b < n && #[trigger] depth@[b] > 0 implies exists|a: int|
                0 <= a < n && #[trigger] has_edge(edges, a, b) && depth@[a] + 1 == depth@[b] by {
            assert(is_live(nodes, b));
            assert(runs(order@, b));
            let p = position(order@, b);
            assert(depth@[order@[p] as int] > 0);
        }
    }
    depth
}

/// The nodes of `order` grouped by `depth`.
fn group_levels(order: &Vec<usize>, depth: &Vec<usize>) -> (levels: Vec<Vec<usize>>)
    requires
        forall|x: int| 0 <= x < order@.len() ==> #[trigger] order@[x] < depth@.len(),
        forall|i: int| 0 <= i < depth@.len() ==> #[trigger] depth@[i] < usize::MAX,
    ensures
        levels@.len() == levels_of(order@, depth@).len(),
        forall|d: int| 0 <= d < levels@.len() ==> #[trigger] levels@[d]@ == levels_of(order@, depth@)[d],
{
    let mut count: usize = 0;
    let mut i: usize = 0;
    while i < depth.len()
        invariant
            i <= depth@.len(),
            forall|i: int| 0 <= i < depth@.len() ==> #[trigger] depth@[i] < usize::MAX,
            count == level_count(depth@.subrange(0, i as int)),
        decreases depth.len() - i,
    {
        assert(depth@.subrange(0, i + 1).drop_last() =~= depth@.subrange(0, i as int));
        if depth[i] + 1 > count {
            count = depth[i] + 1;
        }
        i = i + 1;
    }
    assert(depth@.subrange(0, depth@.len() as int) =~= depth@);
    let mut levels: Vec<Vec<usize>> = Vec::new();
    let mut d: usize = 0;
    while d < count
        invariant
            d <= count,
            count == level_count(depth@),
            forall|x: int| 0 <= x < order@.len() ==> #[trigger] order@[x] < depth@.len(),
            levels@.len() == d,
            forall|e: int| 0 <= e < d ==> #[trigger] levels@[e]@ == level_members(order@, depth@, e),
        decreases count - d,
    {
        let mut row: Vec<usize> = Vec::new();
        let mut x: usize = 0;
        while x < order.len()
            invariant
                x <= order@.len(),
                forall|x: int| 0 <= x < order@.len() ==> #[trigger] order@[x] < depth@.len(),
                row@ == level_members(order@.subrange(0, x as int), depth@, d as int),
            decreases order.len() - x,
        {
            assert(order@.subrange(0, x + 1).drop_last() =~= order@.subrange(0, x as int));
            assert(order@.subrange(0, x + 1).last() == order@[x as int]);
            let v = order[x];
            if depth[v] == d {
                row.push(v);
            }
            x = x + 1;
        }
        assert(order@.subrange(0, order@.len() as int) =~= order@);
        levels.push(row);
        d = d + 1;
    }
    levels
}

// ---------------------------------------------------------------------------
// Nodes
// ---------------------------------------------------------------------------

/// What a node of the execution graph does.
#[derive(Clone, Debug, PartialEq, Eq)]
pub enum GraphNode {
    /// An asset series, keyed by the asset prim's path.
    DataInput { symbol: String },
    /// An OTL transform of the upstream series.
    SignalTransform { expression: String },
    /// A portfolio integrator: its allocation method, its initial capital as
    /// authored (none when the prim does not author one), and its OTL hook.
    PortfolioSink { method: String, initial_capital: Option<String>, otl_script: String },
}

pub enum GraphNodeModel {
    DataInput(Seq<char>),
    SignalTransform(Seq<char>),
    PortfolioSink(Seq<char>, Option<Seq<char>>, Seq<char>),
}

impl View for GraphNode {
    type V = GraphNodeModel;

    open spec fn view(&self) -> GraphNodeModel {
        match self {
            GraphNode::DataInput { symbol } => GraphNodeModel::DataInput(symbol@),
            GraphNode::SignalTransform { expression } => GraphNodeModel::SignalTransform(expression@),
            GraphNode::PortfolioSink { method, initial_capital, otl_script } => GraphNodeModel::PortfolioSink(
                method@,
                match initial_capital {
                    Some(c) => Some(c@),
                    None => None,
                },
                otl_script@,
            ),
        }
    }
}

/// The node a prim becomes, or the prim's type and path when the graph has
/// no node of that type. `compiled` is the bytecode of the prim's compiled
/// script asset, when one was loaded.
pub open spec fn spec_prim_node(
    path: Seq<char>,
    prim_type: Seq<char>,
    attrs: Seq<(Seq<char>, Seq<char>)>,
    compiled: Option<Seq<u8>>,
) -> Result<GraphNodeModel, (Seq<char>, Seq<char>)> {
    if prim_type == "FinancialAsset"@ {
        Ok(GraphNodeModel::DataInput(path))
    } else if prim_type == "OtlOperator"@ || prim_type == "OtlTaUberSignal"@ {
        Ok(GraphNodeModel::SignalTransform(spec_prim_expression(attrs, compiled)))
    } else if prim_type == "PortfolioIntegrator"@ {
        Ok(
            GraphNodeModel::PortfolioSink(
                match attr_lookup(attrs, "inputs:id"@) {
                    Some(m) => m,
                    None => "Allocation::EqualWeight"@,
                },
                attr_lookup(attrs, "inputs:initial_capital"@),
                spec_prim_expression(attrs, compiled),
            ),
        )
    } else {
        Err((prim_type, path))
    }
}

pub open spec fn asset_bytes(compiled: Option<&OtcCompiledAsset>) -> Option<Seq<u8>> {
    match compiled {
        Some(a) => Some(a.bytecode@),
        None => None,
    }
}

/// The execution node of one stage prim.
pub fn prim_node(prim: &StageGraphPrim, compiled: Option<&OtcCompiledAsset>) -> (r: Result<
    GraphNode,
    GraphEngineError,
>)
    ensures
        match spec_prim_node(prim.path@, prim.prim_type@, attr_views(prim.attributes@), asset_bytes(compiled)) {
            Ok(n) => r matches Ok(node) && node@ == n,
            Err((t, p)) => r matches Err(GraphEngineError::UnsupportedPrimType { prim_type, path })
                && prim_type@ == t && path@ == p,
        },
{
    let t = prim.prim_type.clone();
    if t == "FinancialAsset".to_owned() {
        Ok(GraphNode::DataInput { symbol: prim.path.clone() })
    } else if t == "OtlOperator".to_owned() || t == "OtlTaUberSignal".to_owned() {
        Ok(GraphNode::SignalTransform { expression: resolve_prim_otl_expression(prim, compiled) })
    } else if t == "PortfolioIntegrator".to_owned() {
        let method = match attribute_of(prim, "inputs:id") {
            Some(m) => m.clone(),
            None => "Allocation::EqualWeight".to_owned(),
        };
        let initial_capital = match attribute_of(prim, "inputs:initial_capital") {
            Some(c) => Some(c.clone()),
            None => None,
        };
        Ok(
            GraphNode::PortfolioSink {
                method,
                initial_capital,
                otl_script: resolve_prim_otl_expression(prim, compiled),
            },
        )
    } else {
        Err(GraphEngineError::UnsupportedPrimType { prim_type: t, path: prim.path.clone() })
    }
}

// ---------------------------------------------------------------------------
// Compiling a graph
// ---------------------------------------------------------------------------

/// Nodes keyed by prim path, and the wires between prims.
pub struct GraphCompileSpec {
    pub nodes: Vec<(String, GraphNode)>,
    pub wires: Vec<GraphCompileWire>,
}

pub open spec fn node_paths(nodes: Seq<(String, GraphNode)>) -> Seq<Seq<char>> {
    Seq::new(nodes.len(), |i: int| nodes[i].0@)
}

pub open spec fn node_views(nodes: Seq<(String, GraphNode)>) -> Seq<(Seq<char>, GraphNodeModel)> {
    Seq::new(nodes.len(), |i: int| (nodes[i].0@, nodes[i].1@))
}

pub open spec fn wire_pairs(wires: Seq<GraphCompileWire>) -> Seq<(Seq<char>, Seq<char>)> {
    Seq::new(wires.len(), |i: int| (wires[i].source_prim_path@, wires[i].target_prim_path@))
}

/// The node a prim path names: the last node with that path.
pub open spec fn index_of_path(paths: Seq<Seq<char>>, p: Seq<char>) -> Option<int>
    decreases paths.len(),
{
    if paths.len() == 0 {
        None
    } else if paths.last() == p {
        Some(paths.len() - 1)
    } else {
        index_of_path(paths.drop_last(), p)
    }
}

pub proof fn lemma_index_of_path(paths: Seq<Seq<char>>, p: Seq<char>)
    ensures
        index_of_path(paths, p) matches Some(i) ==> 0 <= i < paths.len() && paths[i] == p && forall|
            j: int,
        | i < j < paths.len() ==> #[trigger] paths[j] != p,
        index_of_path(paths, p) is None ==> forall|j: int| 0 <= j < paths.len() ==> #[trigger] paths[j] != p,
    decreases paths.len(),
{
    if paths.len() > 0 {
        lemma_index_of_path(paths.drop_last(), p);
        if paths.last() != p {
            assert forall|j: int| 0 <= j < paths.len() - 1 implies #[trigger] paths[j] == paths.drop_last()[j] by {}
        }
    }
}

/// The edges of the first `k` wires, node to node, or the first wire end
/// that names no node (a wire's source is looked at before its target).
pub open spec fn wire_edges(paths: Seq<Seq<char>>, wires: Seq<(Seq<char>, Seq<char>)>, k: int) -> Result<
    Seq<Option<(int, int)>>,
    Seq<char>,
>
    decreases k,
{
    if k <= 0 || k > wires.len() {
        Ok(Seq::empty())
    } else {
        match wire_edges(paths, wires, k - 1) {
            Err(p) => Err(p),
            Ok(es) => match index_of_path(paths, wires[k - 1].0) {
                None => Err(wires[k - 1].0),
                Some(a) => match index_of_path(paths, wires[k - 1].1) {
                    None => Err(wires[k - 1].1),
                    Some(b) => Ok(es.push(Some((a, b)))),
                },
            },
        }
    }
}

proof fn lemma_wire_error_stays(paths: Seq<Seq<char>>, wires: Seq<(Seq<char>, Seq<char>)>, k: int, m: int)
    requires
        0 < k <= m <= wires.len(),
        wire_edges(paths, wires, k) is Err,
    ensures
        wire_edges(paths, wires, m) == wire_edges(paths, wires, k),
    decreases m - k,
{
    if m > k {
        lemma_wire_error_stays(paths, wires, k, m - 1);
    }
}

proof fn lemma_wire_edges_shape(paths: Seq<Seq<char>>, wires: Seq<(Seq<char>, Seq<char>)>, k: int)
    requires
        0 <= k <= wires.len(),
        wire_edges(paths, wires, k) is Ok,
    ensures
        wire_edges(paths, wires, k)->Ok_0.len() == k,
        edges_join_live_nodes(live_nodes(paths.len()), wire_edges(paths, wires, k)->Ok_0),
        forall|j: int|
            0 <= j < k ==> #[trigger] wire_edges(paths, wires, k)->Ok_0[j] is Some,
    decreases k,
{
    if k > 0 {
        lemma_wire_edges_shape(paths, wires, k - 1);
        lemma_index_of_path(paths, wires[k - 1].0);
        lemma_index_of_path(paths, wires[k - 1].1);
        let es = wire_edges(paths, wires, k - 1)->Ok_0;
        let all = wire_edges(paths, wires, k)->Ok_0;
        assert forall|j: int| 0 <= j < all.len() implies match #[trigger] all[j] {
            Some((a, b)) => is_live(live_nodes(paths.len()), a) && is_live(live_nodes(paths.len()), b),
            None => true,
        } by {
            if j < es.len() {
                assert(all[j] == es[j]);
            }
        }
        assert forall|j: int| 0 <= j < k implies #[trigger] all[j] is Some by {
            if j < es.len() {
                assert(all[j] == es[j]);
            }
        }
    }
}

/// Every slot `0..n` holds a live node (whose weight is its index).
pub open spec fn live_nodes(n: nat) -> Seq<Option<usize>> {
    Seq::new(n, |i: int| Some(i as usize))
}

/// A compiled execution graph: nodes by prim path, the edges along wires and
/// the order in which nodes run.
pub struct ExecutionGraph {
    graph: StableGraph<usize, ()>,
    nodes: Vec<(String, GraphNode)>,
    execution_order: Vec<usize>,
    depths: Vec<usize>,
    execution_levels: Vec<Vec<usize>>,
}

pub struct ExecutionGraphModel {
    /// Prim path and payload of each node, by node index.
    pub nodes: Seq<(Seq<char>, GraphNodeModel)>,
    /// The edges, one per wire, in wire order.
    pub edges: Seq<Option<(int, int)>>,
    /// Node indices in execution order.
    pub order: Seq<usize>,
    /// Longest-path depth of each node, by node index.
    pub depth: Seq<usize>,
    /// Node indices grouped by depth, each level in execution order.
    pub levels: Seq<Seq<usize>>,
}

impl View for ExecutionGraph {
    type V = ExecutionGraphModel;

    closed spec fn view(&self) -> ExecutionGraphModel {
        ExecutionGraphModel {
            nodes: node_views(self.nodes@),
            edges: graph_edges(self.graph),
            order: self.execution_order@,
            depth: self.depths@,
            levels: Seq::new(self.execution_levels@.len(), |d: int| self.execution_levels@[d]@),
        }
    }
}

/// `r` is what compiling nodes at `paths` with `payloads` and the wires
/// `pairs` gives: an error for no node, for a wire end that names no node,
/// or for a cycle; else the graph with one edge per wire, a topological
/// execution order, and its nodes grouped by longest-path depth.
pub open spec fn compiled_as(
    nodes: Seq<(Seq<char>, GraphNodeModel)>,
    pairs: Seq<(Seq<char>, Seq<char>)>,
    r: Result<ExecutionGraph, GraphEngineError>,
) -> bool {
    let paths = Seq::new(nodes.len(), |i: int| nodes[i].0);
    if nodes.len() == 0 {
        r matches Err(GraphEngineError::EmptyGraph)
    } else {
        match wire_edges(paths, pairs, pairs.len() as int) {
            Err(p) => r matches Err(GraphEngineError::UnknownPrimPath(q)) && q@ == p,
            Ok(es) => if has_cycle(es) {
                r matches Err(GraphEngineError::CycleDetected)
            } else {
                r matches Ok(g) && g@.nodes == nodes && g@.edges == es && is_topological_order(
                    live_nodes(nodes.len()),
                    es,
                    g@.order,
                ) && is_longest_path_depth(nodes.len(), es, g@.depth) && g@.levels == levels_of(
                    g@.order,
                    g@.depth,
                )
            },
        }
    }
}

/// The last node whose path is `path`.
fn index_for_path(nodes: &Vec<(String, GraphNode)>, path: &String) -> (r: Option<usize>)
    ensures
        match index_of_path(node_paths(nodes@), path@) {
            Some(i) => r == Some(i as usize),
            None => r is None,
        },
{
    let ghost ps = node_paths(nodes@);
    let mut i: usize = nodes.len();
    assert(ps.subrange(0, i as int) =~= ps);
    while i > 0
        invariant
            i <= nodes@.len(),
            ps == node_paths(nodes@),
            index_of_path(ps, path@) == index_of_path(ps.subrange(0, i as int), path@),
        decreases i,
    {
        assert(ps.subrange(0, i as int).drop_last() =~= ps.subrange(0, i - 1));
        if nodes[i - 1].0 == *path {
            return Some(i - 1);
        }
        i = i - 1;
    }
    None
}

impl ExecutionGraph {
    #[verifier::type_invariant]
    spec fn well_formed(self) -> bool {
        &&& graph_nodes(self.graph) == live_nodes(self.nodes@.len())
        &&& self.nodes@.len() < 0xffff_ffff
    }

    /// Build the graph: one node per entry, one edge per wire, then the
    /// order in which nodes run.
    pub fn compile(spec: GraphCompileSpec) -> (r: Result<ExecutionGraph, GraphEngineError>)
        requires
            spec.nodes@.len() < 0xffff_ffff,
            spec.wires@.len() < 0xffff_ffff,
        ensures
            compiled_as(node_views(spec.nodes@), wire_pairs(spec.wires@), r),
    {
        let ghost paths = node_paths(spec.nodes@);
        let ghost pairs = wire_pairs(spec.wires@);
        assert(Seq::new(node_views(spec.nodes@).len(), |i: int| node_views(spec.nodes@)[i].0) =~= paths);
        if spec.nodes.len() == 0 {
            return Err(GraphEngineError::EmptyGraph);
        }
        let mut graph = empty_graph();
        let mut i: usize = 0;
        while i < spec.nodes.len()
            invariant
                i <= spec.nodes@.len(),
                spec.nodes@.len() < 0xffff_ffff,
                graph_nodes(graph) == live_nodes(i as nat),
                graph_edges(graph) == Seq::<Option<(int, int)>>::empty(),
            decreases spec.nodes.len() - i,
        {
            let ghost before = graph_nodes(graph);
            assert forall|j: int| 0 <= j < before.len() implies #[trigger] before[j] is Some by {}
            let k = graph_add_node(&mut graph, i);
            assert(graph_nodes(graph) =~= live_nodes((i + 1) as nat));
            i = i + 1;
        }
        let mut edge_list: Vec<(usize, usize)> = Vec::new();
        let mut w: usize = 0;
        while w < spec.wires.len()
            invariant
                w <= spec.wires@.len(),
                graph_edges(graph) == pair_edges(edge_list@),
                forall|j: int|
                    0 <= j < edge_list@.len() ==> #[trigger] edge_list@[j].0 < spec.nodes@.len()
                        && edge_list@[j].1 < spec.nodes@.len(),
                spec.wires@.len() < 0xffff_ffff,
                spec.nodes@.len() < 0xffff_ffff,
                spec.nodes@.len() > 0,
                Seq::new(node_views(spec.nodes@).len(), |i: int| node_views(spec.nodes@)[i].0) == paths,
                paths == node_paths(spec.nodes@),
                pairs == wire_pairs(spec.wires@),
                graph_nodes(graph) == live_nodes(spec.nodes@.len()),
                wire_edges(paths, pairs, w as int) == Ok::<Seq<Option<(int, int)>>, Seq<char>>(
                    graph_edges(graph),
                ),
            decreases spec.wires.len() - w,
        {
            proof {
                lemma_wire_edges_shape(paths, pairs, w as int);
            }
            let wire = &spec.wires[w];
            assert(pairs[w as int] == (wire.source_prim_path@, wire.target_prim_path@));
            let a = match index_for_path(&spec.nodes, &wire.source_prim_path) {
                Some(a) => a,
                None => {
                    proof {
                        assert(wire_edges(paths, pairs, w + 1) == Err::<Seq<Option<(int, int)>>, Seq<char>>(wire.source_prim_path@));
                        if w + 1 < pairs.len() {
                            lemma_wire_error_stays(paths, pairs, w + 1, pairs.len() as int);
                        }
                    }
                    return Err(GraphEngineError::UnknownPrimPath(wire.source_prim_path.clone()));
                },
            };
            let b = match index_for_path(&spec.nodes, &wire.target_prim_path) {
                Some(b) => b,
                None => {
                    proof {
                        assert(wire_edges(paths, pairs, w + 1) == Err::<Seq<Option<(int, int)>>, Seq<char>>(wire.target_prim_path@));
                        if w + 1 < pairs.len() {
                            lemma_wire_error_stays(paths, pairs, w + 1, pairs.len() as int);
                        }
                    }
                    return Err(GraphEngineError::UnknownPrimPath(wire.target_prim_path.clone()));
                },
            };
            proof {
                lemma_index_of_path(paths, wire.source_prim_path@);
                lemma_index_of_path(paths, wire.target_prim_path@);
            }
            let ghost before = graph_edges(graph);
            assert forall|j: int| 0 <= j < before.len() implies #[trigger] before[j] is Some by {
                assert(wire_edges(paths, pairs, w as int)->Ok_0[j] is Some);
            }
            let k = graph_add_edge(&mut graph, a, b);
            assert(graph_edges(graph) == before.push(Some((a as int, b as int))));
            edge_list.push((a, b));
            assert(pair_edges(edge_list@) =~= before.push(Some((a as int, b as int))));
            w = w + 1;
        }
        proof {
            lemma_wire_edges_shape(paths, pairs, pairs.len() as int);
        }
        match graph_toposort(&graph) {
            Err(_) => Err(GraphEngineError::CycleDetected),
            Ok(order) => {
                proof {
                    lemma_ordered_graph_is_acyclic(graph_nodes(graph), graph_edges(graph), order@);
                }
                let n = spec.nodes.len();
                let depths = longest_path_depths(n, &edge_list, &order);
                let m = order.len();
                proof {
                    assert forall|i: int| 0 <= i < depths@.len() implies #[trigger] depths@[i] < usize::MAX by {
                        assert(depths@[i] < m);
                    }
                    assert forall|x: int| 0 <= x < order@.len() implies #[trigger] order@[x] < depths@.len() by {
                        assert(is_live(live_nodes(n as nat), order@[x] as int));
                    }
                }
                let execution_levels = group_levels(&order, &depths);
                let g = ExecutionGraph { graph, nodes: spec.nodes, execution_order: order, depths, execution_levels };
                assert(g@.levels =~= levels_of(g@.order, g@.depth));
                Ok(g)
            },
        }
    }
}

/// The edge slots with `e` put in slot `k`, or appended when `k` is past
/// the last slot.
pub open spec fn put_edge(edges: Seq<Option<(int, int)>>, k: int, e: (int, int)) -> Seq<Option<(int, int)>> {
    if k == edges.len() {
        edges.push(Some(e))
    } else {
        edges.update(k, Some(e))
    }
}

// ---------------------------------------------------------------------------
// Reading a compiled graph
// ---------------------------------------------------------------------------

/// The prim paths in execution order, each node listed under the path that
/// names it (a node whose path a later node took is left out).
pub open spec fn order_paths(paths: Seq<Seq<char>>, order: Seq<usize>) -> Seq<Seq<char>>
    decreases order.len(),
{
    if order.len() == 0 {
        Seq::empty()
    } else {
        let rest = order_paths(paths, order.drop_last());
        let i = order.last() as int;
        if 0 <= i < paths.len() && index_of_path(paths, paths[i]) == Some(i) {
            rest.push(paths[i])
        } else {
            rest
        }
    }
}

impl ExecutionGraph {
    /// Node indices in the order they run.
    pub fn execution_order(&self) -> (r: &Vec<usize>)
        ensures
            r@ == self@.order,
    {
        &self.execution_order
    }

    /// Node indices grouped by longest-path depth: level `d` holds, in
    /// execution order, the nodes whose longest incoming walk has `d` edges.
    pub fn execution_levels(&self) -> (r: &Vec<Vec<usize>>)
        ensures
            Seq::new(r@.len(), |d: int| r@[d]@) == self@.levels,
    {
        &self.execution_levels
    }

    /// Prim path and payload of each node, by node index.
    pub fn nodes(&self) -> (r: &Vec<(String, GraphNode)>)
        ensures
            node_views(r@) == self@.nodes,
    {
        &self.nodes
    }

    /// The underlying `petgraph` graph; node weights are node indices.
    pub fn graph(&self) -> (r: &StableGraph<usize, ()>)
        ensures
            graph_edges(*r) == self@.edges,
            graph_nodes(*r) == live_nodes(self@.nodes.len()),
    {
        proof {
            use_type_invariant(self);
        }
        &self.graph
    }

    /// The node a prim path names.
    pub fn prim_index(&self, prim_path: &str) -> (r: Option<usize>)
        ensures
            match index_of_path(Seq::new(self@.nodes.len(), |i: int| self@.nodes[i].0), prim_path@) {
                Some(i) => r == Some(i as usize),
                None => r is None,
            },
    {
        assert(Seq::new(self@.nodes.len(), |i: int| self@.nodes[i].0) =~= node_paths(self.nodes@));
        index_for_path(&self.nodes, &prim_path.to_owned())
    }

    /// The prim paths in execution order.
    pub fn execution_order_prim_paths(&self) -> (r: Vec<String>)
        ensures
            Seq::new(r@.len(), |i: int| r@[i]@) == order_paths(
                Seq::new(self@.nodes.len(), |i: int| self@.nodes[i].0),
                self@.order,
            ),
    {
        let ghost paths = Seq::new(self@.nodes.len(), |i: int| self@.nodes[i].0);
        assert(paths =~= node_paths(self.nodes@));
        let mut out: Vec<String> = Vec::new();
        let mut k: usize = 0;
        while k < self.execution_order.len()
            invariant
                k <= self.execution_order@.len(),
                paths == node_paths(self.nodes@),
                Seq::new(out@.len(), |i: int| out@[i]@) == order_paths(
                    paths,
                    self.execution_order@.subrange(0, k as int),
                ),
            decreases self.execution_order.len() - k,
        {
            let ghost pre = self.execution_order@.subrange(0, k as int);
            let ghost post = self.execution_order@.subrange(0, k + 1);
            assert(post.drop_last() =~= pre);
            let i = self.execution_order[k];
            assert(post.last() == i);
            let ghost before = Seq::new(out@.len(), |j: int| out@[j]@);
            if i < self.nodes.len() {
                let path = &self.nodes[i].0;
                proof {
                    lemma_index_of_path(paths, path@);
                }
                match index_for_path(&self.nodes, path) {
                    Some(j) => {
                        if j == i {
                            out.push(path.clone());
                            assert(Seq::new(out@.len(), |j: int| out@[j]@) =~= before.push(paths[i as int]));
                        }
                    },
                    None => {},
                }
            }
            proof {
                if i < paths.len() {
                    lemma_index_of_path(paths, paths[i as int]);
                }
                let c = 0 <= i < paths.len() && index_of_path(paths, paths[i as int]) == Some(i as int);
                assert(order_paths(paths, post) == if c {
                    order_paths(paths, pre).push(paths[i as int])
                } else {
                    order_paths(paths, pre)
                });
                if c {
                    assert(Seq::new(out@.len(), |j: int| out@[j]@) == before.push(paths[i as int]));
                } else {
                    assert(Seq::new(out@.len(), |j: int| out@[j]@) == before);
                }
            }
            k = k + 1;
        }
        assert(self.execution_order@.subrange(0, self.execution_order@.len() as int) =~= self.execution_order@);
        out
    }

    /// Add an edge from the node of `source_prim_path` to the node of
    /// `target_prim_path`; the execution order and levels are left as they were.
    pub fn connect(&mut self, source_prim_path: &str, target_prim_path: &str) -> (r: Result<
        (),
        GraphEngineError,
    >)
        requires
            old(self)@.edges.len() < 0xffff_ffff,
        ensures
            ({
                let paths = Seq::new(old(self)@.nodes.len(), |i: int| old(self)@.nodes[i].0);
                match index_of_path(paths, source_prim_path@) {
                    None => r matches Err(GraphEngineError::UnknownPrimPath(p)) && p@ == source_prim_path@
                        && final(self)@ == old(self)@,
                    Some(a) => match index_of_path(paths, target_prim_path@) {
                        None => r matches Err(GraphEngineError::UnknownPrimPath(p)) && p@
                            == target_prim_path@ && final(self)@ == old(self)@,
                        Some(b) => r is Ok && final(self)@.nodes == old(self)@.nodes && final(self)@.order
                            == old(self)@.order && final(self)@.depth == old(self)@.depth
                            && final(self)@.levels == old(self)@.levels && exists|k: int|
                            0 <= k <= old(self)@.edges.len() && #[trigger] put_edge(
                                old(self)@.edges,
                                k,
                                (a, b),
                            ) == final(self)@.edges,
                    },
                }
            }),
    {
        proof {
            use_type_invariant(&*self);
        }
        let ghost paths = node_paths(self.nodes@);
        assert(Seq::new(self@.nodes.len(), |i: int| self@.nodes[i].0) =~= paths);
        let a = match index_for_path(&self.nodes, &source_prim_path.to_owned()) {
            Some(a) => a,
            None => return Err(GraphEngineError::UnknownPrimPath(source_prim_path.to_owned())),
        };
        let b = match index_for_path(&self.nodes, &target_prim_path.to_owned()) {
            Some(b) => b,
            None => return Err(GraphEngineError::UnknownPrimPath(target_prim_path.to_owned())),
        };
        proof {
            lemma_index_of_path(paths, source_prim_path@);
            lemma_index_of_path(paths, target_prim_path@);
        }
        let k = graph_add_edge(&mut self.graph, a, b);
        proof {
            assert(put_edge(old(self)@.edges, k as int, (a as int, b as int)) == self@.edges);
        }
        Ok(())
    }
}

// ---------------------------------------------------------------------------
// Compiling a stage
// ---------------------------------------------------------------------------

/// The bytecode of the compiled asset loaded for prim `i`, if any.
pub open spec fn compiled_bytes_at(compiled: Seq<Option<OtcCompiledAsset>>, i: int) -> Option<Seq<u8>> {
    if 0 <= i < compiled.len() {
        match compiled[i] {
            Some(a) => Some(a.bytecode@),
            None => None,
        }
    } else {
        None
    }
}

/// The nodes of the first `k` prims, or the type and path of the first prim
/// that has no node.
pub open spec fn stage_nodes(
    prims: Seq<StageGraphPrim>,
    compiled: Seq<Option<OtcCompiledAsset>>,
    k: int,
) -> Result<Seq<(Seq<char>, GraphNodeModel)>, (Seq<char>, Seq<char>)>
    decreases k,
{
    if k <= 0 || k > prims.len() {
        Ok(Seq::empty())
    } else {
        match stage_nodes(prims, compiled, k - 1) {
            Err(e) => Err(e),
            Ok(ns) => match spec_prim_node(
                prims[k - 1].path@,
                prims[k - 1].prim_type@,
                attr_views(prims[k - 1].attributes@),
                compiled_bytes_at(compiled, k - 1),
            ) {
                Err(e) => Err(e),
                Ok(n) => Ok(ns.push((prims[k - 1].path@, n))),
            },
        }
    }
}

proof fn lemma_stage_error_stays(
    prims: Seq<StageGraphPrim>,
    compiled: Seq<Option<OtcCompiledAsset>>,
    k: int,
    m: int,
)
    requires
        0 < k <= m <= prims.len(),
        stage_nodes(prims, compiled, k) is Err,
    ensures
        stage_nodes(prims, compiled, m) == stage_nodes(prims, compiled, k),
    decreases m - k,
{
    if m > k {
        lemma_stage_error_stays(prims, compiled, k, m - 1);
    }
}

/// The wires along which values flow, as (source, target) paths in order.
pub open spec fn execution_wire_pairs(ws: Seq<GraphCompileWire>) -> Seq<(Seq<char>, Seq<char>)>
    decreases ws.len(),
{
    if ws.len() == 0 {
        Seq::empty()
    } else {
        let rest = execution_wire_pairs(ws.drop_last());
        if spec_is_execution_relationship(ws.last().relationship@) {
            rest.push((ws.last().source_prim_path@, ws.last().target_prim_path@))
        } else {
            rest
        }
    }
}

fn copy_wire(w: &GraphCompileWire) -> (r: GraphCompileWire)
    ensures
        r.source_prim_path@ == w.source_prim_path@,
        r.target_prim_path@ == w.target_prim_path@,
        r.relationship@ == w.relationship@,
{
    GraphCompileWire {
        source_prim_path: w.source_prim_path.clone(),
        target_prim_path: w.target_prim_path.clone(),
        relationship: w.relationship.clone(),
    }
}

impl ExecutionGraph {
    /// Compile the execution graph of a stage: a node per prim (an error for
    /// a prim type the graph does not run) and an edge per execution wire.
    /// `compiled` holds, by prim index, the compiled script asset loaded for
    /// the prim, if any.
    pub fn compile_from_stage(snapshot: &StageGraphSnapshot, compiled: &[Option<OtcCompiledAsset>]) -> (r: Result<
        ExecutionGraph,
        GraphEngineError,
    >)
        requires
            snapshot.prims@.len() < 0xffff_ffff,
            snapshot.wires@.len() < 0xffff_ffff,
        ensures
            match stage_nodes(snapshot.prims@, compiled@, snapshot.prims@.len() as int) {
                Err((t, p)) => r matches Err(GraphEngineError::UnsupportedPrimType { prim_type, path })
                    && prim_type@ == t && path@ == p,
                Ok(nodes) => compiled_as(nodes, execution_wire_pairs(snapshot.wires@), r),
            },
    {
        let ghost prims = snapshot.prims@;
        let mut nodes: Vec<(String, GraphNode)> = Vec::new();
        let mut i: usize = 0;
        assert(node_views(nodes@) =~= Seq::<(Seq<char>, GraphNodeModel)>::empty());
        while i < snapshot.prims.len()
            invariant
                i <= prims.len(),
                prims == snapshot.prims@,
                nodes@.len() == i,
                stage_nodes(prims, compiled@, i as int) == Ok::<
                    Seq<(Seq<char>, GraphNodeModel)>,
                    (Seq<char>, Seq<char>),
                >(node_views(nodes@)),
            decreases prims.len() - i,
        {
            let prim = &snapshot.prims[i];
            let asset: Option<&OtcCompiledAsset> = if i < compiled.len() {
                match &compiled[i] {
                    Some(a) => Some(a),
                    None => None,
                }
            } else {
                None
            };
            assert(asset_bytes(asset) == compiled_bytes_at(compiled@, i as int));
            match prim_node(prim, asset) {
                Err(e) => {
                    proof {
                        if i + 1 < prims.len() {
                            lemma_stage_error_stays(prims, compiled@, i + 1, prims.len() as int);
                        }
                    }
                    return Err(e);
                },
                Ok(node) => {
                    let ghost before = node_views(nodes@);
                    nodes.push((prim.path.clone(), node));
                    assert(node_views(nodes@) =~= before.push((prim.path@, nodes@[i as int].1@)));
                },
            }
            i = i + 1;
        }
        let mut wires: Vec<GraphCompileWire> = Vec::new();
        let mut w: usize = 0;
        assert(wire_pairs(wires@) =~= Seq::<(Seq<char>, Seq<char>)>::empty());
        while w < snapshot.wires.len()
            invariant
                w <= snapshot.wires@.len(),
                wires@.len() <= w,
                wire_pairs(wires@) == execution_wire_pairs(snapshot.wires@.subrange(0, w as int)),
            decreases snapshot.wires.len() - w,
        {
            let ghost pre = snapshot.wires@.subrange(0, w as int);
            let ghost post = snapshot.wires@.subrange(0, w + 1);
            assert(post.drop_last() =~= pre);
            let ghost before = wire_pairs(wires@);
            if is_execution_relationship(snapshot.wires[w].relationship.as_str()) {
                wires.push(copy_wire(&snapshot.wires[w]));
                assert(wire_pairs(wires@) =~= before.push(
                    (snapshot.wires@[w as int].source_prim_path@, snapshot.wires@[w as int].target_prim_path@),
                ));
            }
            w = w + 1;
        }
        assert(snapshot.wires@.subrange(0, snapshot.wires@.len() as int) =~= snapshot.wires@);
        ExecutionGraph::compile(GraphCompileSpec { nodes, wires })
    }
}

// ---------------------------------------------------------------------------
// Wires run in order
// ---------------------------------------------------------------------------

impl ExecutionGraph {
    /// Compile from a canvas-built graph snapshot: the same as
    /// `compile_from_stage`.
    pub fn compile_from_canvas(snapshot: &StageGraphSnapshot, compiled: &[Option<OtcCompiledAsset>]) -> (r: Result<
        ExecutionGraph,
        GraphEngineError,
    >)
        requires
            snapshot.prims@.len() < 0xffff_ffff,
            snapshot.wires@.len() < 0xffff_ffff,
        ensures
            match stage_nodes(snapshot.prims@, compiled@, snapshot.prims@.len() as int) {
                Err((t, p)) => r matches Err(GraphEngineError::UnsupportedPrimType { prim_type, path })
                    && prim_type@ == t && path@ == p,
                Ok(nodes) => compiled_as(nodes, execution_wire_pairs(snapshot.wires@), r),
            },
    {
        ExecutionGraph::compile_from_stage(snapshot, compiled)
    }
}

proof fn lemma_wire_edge_at(paths: Seq<Seq<char>>, wires: Seq<(Seq<char>, Seq<char>)>, k: int, w: int)
    requires
        0 <= w < k <= wires.len(),
        wire_edges(paths, wires, k) is Ok,
    ensures
        index_of_path(paths, wires[w].0) is Some,
        index_of_path(paths, wires[w].1) is Some,
        wire_edges(paths, wires, k)->Ok_0.len() == k,
        wire_edges(paths, wires, k)->Ok_0[w] == Some(
            (index_of_path(paths, wires[w].0)->0, index_of_path(paths, wires[w].1)->0),
        ),
    decreases k,
{
    lemma_wire_edges_shape(paths, wires, k);
    if w < k - 1 {
        lemma_wire_edge_at(paths, wires, k - 1, w);
        lemma_wire_edges_shape(paths, wires, k - 1);
    }
}

/// In a compiled graph both ends of every wire name nodes, and the node at
/// a wire's source runs before the node at its target.
pub proof fn lemma_wire_source_runs_first(
    nodes: Seq<(Seq<char>, GraphNodeModel)>,
    pairs: Seq<(Seq<char>, Seq<char>)>,
    g: ExecutionGraph,
    w: int,
)
    requires
        compiled_as(nodes, pairs, Ok(g)),
        0 <= w < pairs.len(),
    ensures
        ({
            let paths = Seq::new(nodes.len(), |i: int| nodes[i].0);
            &&& index_of_path(paths, pairs[w].0) is Some
            &&& index_of_path(paths, pairs[w].1) is Some
            &&& runs(g@.order, index_of_path(paths, pairs[w].0)->0)
            &&& runs(g@.order, index_of_path(paths, pairs[w].1)->0)
            &&& position(g@.order, index_of_path(paths, pairs[w].0)->0) < position(
                g@.order,
                index_of_path(paths, pairs[w].1)->0,
            )
        }),
{
    let paths = Seq::new(nodes.len(), |i: int| nodes[i].0);
    let es = wire_edges(paths, pairs, pairs.len() as int)->Ok_0;
    lemma_wire_edge_at(paths, pairs, pairs.len() as int, w);
    lemma_wire_edges_shape(paths, pairs, pairs.len() as int);
    let a = index_of_path(paths, pairs[w].0)->0;
    let b = index_of_path(paths, pairs[w].1)->0;
    let path: Seq<int> = seq![a, b];
    assert(has_edge(es, a, b));
    assert(is_walk(es, path));
    lemma_walk_moves_forward(live_nodes(nodes.len()), es, g@.order, path, 1);
}

} // verus!
