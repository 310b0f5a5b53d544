//! The graph type of the `petgraph` crate, made known to the verifier, the
//! names for what its graphs hold, and the calls the library makes on them.
//! Nodes are plain keys: tuples of integers, which petgraph hashes and
//! orders as Rust does.
use vstd::prelude::*;
use std::hash::{BuildHasher, RandomState};
use petgraph::graphmap::{DiGraphMap, GraphMap, UnGraphMap};
use petgraph::{Directed, Undirected};
use crate::layout_primitives::TrackConnectionID as LinkConnection;

verus! {

/// petgraph's `GraphMap`, a graph keyed by its node values; opaque here.
#[verifier::external_type_specification]
#[verifier::external_body]
#[verifier::reject_recursive_types(N)]
#[verifier::reject_recursive_types(E)]
#[verifier::reject_recursive_types(Ty)]
#[verifier::reject_recursive_types(S)]
pub struct ExGraphMap<N, E, Ty, S>(petgraph::graphmap::GraphMap<N, E, Ty, S>) where S: BuildHasher;

/// petgraph's marker for directed edges.
#[verifier::external_type_specification]
#[verifier::external_body]
pub struct ExDirected(petgraph::Directed);

/// petgraph's marker for undirected edges.
#[verifier::external_type_specification]
#[verifier::external_body]
pub struct ExUndirected(petgraph::Undirected);

/// A logical track as petgraph stores it: cell coordinates, then the
/// orientation, direction and facing as small numbers.
pub type NodeKey = (i32, i32, i32, u8, u8, u8);

/// A track as petgraph stores it: cell coordinates and orientation number.
pub type TrackKey = (i32, i32, i32, u8);

/// The most edges a logical graph may hold.
pub const MAX_LOGICAL_EDGES: usize = 0x1000_0000;

// ---------------------------------------------------------------------------
// Walks
// ---------------------------------------------------------------------------

/// A walk in a graph: a non-empty sequence of nodes from `from` to `to`
/// in which each node is joined to the next by an edge.
pub open spec fn is_walk<T>(edges: Set<(T, T)>, w: Seq<T>, from: T, to: T) -> bool {
    &&& w.len() >= 1
    &&& w[0] == from
    &&& w.last() == to
    &&& forall|i: int| 0 <= i < w.len() - 1 ==> #[trigger] edges.contains((w[i], w[i + 1]))
}

/// A walk with no shorter walk between the same ends.
pub open spec fn is_shortest_walk<T>(edges: Set<(T, T)>, w: Seq<T>, from: T, to: T) -> bool {
    is_walk(edges, w, from, to) && forall|v: Seq<T>| #[trigger] is_walk(edges, v, from, to) ==> w.len() <= v.len()
}

pub open spec fn reachable<T>(edges: Set<(T, T)>, from: T, to: T) -> bool {
    exists|w: Seq<T>| #[trigger] is_walk(edges, w, from, to)
}

// ---------------------------------------------------------------------------
// Directed graphs of logical track keys
// ---------------------------------------------------------------------------

/// The edges of a directed petgraph graph over logical track keys.
pub uninterp spec fn logical_graph_edges(g: GraphMap<NodeKey, (), Directed, RandomState>) -> Set<(NodeKey, NodeKey)>;

/// The nodes of a directed petgraph graph over logical track keys.
pub uninterp spec fn logical_graph_nodes(g: GraphMap<NodeKey, (), Directed, RandomState>) -> Set<NodeKey>;

/// `DiGraphMap::new`: a graph without nodes or edges.
#[verifier::external_body]
pub(crate) fn digraph_new() -> (g: DiGraphMap<NodeKey, ()>)
    ensures
        logical_graph_edges(g) == Set::<(NodeKey, NodeKey)>::empty(),
        logical_graph_nodes(g) == Set::<NodeKey>::empty(),
{
    DiGraphMap::new()
}

/// `GraphMap::add_node`: the node is in the graph afterwards.
#[verifier::external_body]
pub(crate) fn digraph_add_node(g: &mut DiGraphMap<NodeKey, ()>, n: NodeKey)
    ensures
        logical_graph_nodes(*final(g)) == logical_graph_nodes(*old(g)).insert(n),
        logical_graph_edges(*final(g)) == logical_graph_edges(*old(g)),
{
    g.add_node(n);
}

/// `GraphMap::remove_node`: the node and every edge at it are gone; the
/// result says whether the node was there.
#[verifier::external_body]
pub(crate) fn digraph_remove_node(g: &mut DiGraphMap<NodeKey, ()>, n: NodeKey) -> (r: bool)
    ensures
        r == logical_graph_nodes(*old(g)).contains(n),
        logical_graph_nodes(*final(g)) == logical_graph_nodes(*old(g)).remove(n),
        logical_graph_edges(*final(g)) == logical_graph_edges(*old(g)).filter(|e: (NodeKey, NodeKey)| e.0 != n && e.1 != n),
{
    g.remove_node(n)
}

/// `GraphMap::contains_node`.
#[verifier::external_body]
pub(crate) fn digraph_contains_node(g: &DiGraphMap<NodeKey, ()>, n: NodeKey) -> (r: bool)
    ensures
        r == logical_graph_nodes(*g).contains(n),
{
    g.contains_node(n)
}

/// `GraphMap::add_edge` on a directed graph: the edge `a -> b` and both its
/// ends are in the graph afterwards; the result is `Some` exactly when the
/// edge already was.
#[verifier::external_body]
pub(crate) fn digraph_add_edge(g: &mut DiGraphMap<NodeKey, ()>, a: NodeKey, b: NodeKey) -> (r: Option<()>)
    ensures
        logical_graph_edges(*final(g)) == logical_graph_edges(*old(g)).insert((a, b)),
        logical_graph_nodes(*final(g)) == logical_graph_nodes(*old(g)).insert(a).insert(b),
        r is Some <==> logical_graph_edges(*old(g)).contains((a, b)),
{
    g.add_edge(a, b, ())
}

/// `GraphMap::remove_edge` on a directed graph: the edge `a -> b` is gone;
/// the result is `Some` exactly when it was there.
#[verifier::external_body]
pub(crate) fn digraph_remove_edge(g: &mut DiGraphMap<NodeKey, ()>, a: NodeKey, b: NodeKey) -> (r: Option<()>)
    ensures
        logical_graph_edges(*final(g)) == logical_graph_edges(*old(g)).remove((a, b)),
        logical_graph_nodes(*final(g)) == logical_graph_nodes(*old(g)),
        r is Some <==> logical_graph_edges(*old(g)).contains((a, b)),
{
    g.remove_edge(a, b)
}

/// `GraphMap::contains_edge` on a directed graph.
#[verifier::external_body]
pub(crate) fn digraph_contains_edge(g: &DiGraphMap<NodeKey, ()>, a: NodeKey, b: NodeKey) -> (r: bool)
    ensures
        r == logical_graph_edges(*g).contains((a, b)),
{
    g.contains_edge(a, b)
}

/// The targets of the edges from a node, in the order the graph lists them.
pub uninterp spec fn logical_graph_neighbors(g: GraphMap<NodeKey, (), Directed, RandomState>, a: NodeKey) -> Seq<NodeKey>;

/// `GraphMap::neighbors` on a directed graph: the targets of the edges from
/// `a`, each once, in the graph's order (which is named, not restated).
#[verifier::external_body]
pub(crate) fn digraph_neighbors(g: &DiGraphMap<NodeKey, ()>, a: NodeKey) -> (r: Vec<NodeKey>)
    ensures
        r@ == logical_graph_neighbors(*g, a),
        r@.no_duplicates(),
        forall|b: NodeKey| r@.contains(b) <==> logical_graph_edges(*g).contains((a, b)),
{
    g.neighbors(a).collect()
}

/// `GraphMap::nodes`: every node, each once.
#[verifier::external_body]
pub(crate) fn digraph_nodes(g: &DiGraphMap<NodeKey, ()>) -> (r: Vec<NodeKey>)
    ensures
        r@.no_duplicates(),
        forall|n: NodeKey| r@.contains(n) <==> logical_graph_nodes(*g).contains(n),
{
    g.nodes().collect()
}

/// `GraphMap::all_edges` on a directed graph, ends only: every edge, each once.
#[verifier::external_body]
pub(crate) fn digraph_all_edges(g: &DiGraphMap<NodeKey, ()>) -> (r: Vec<(NodeKey, NodeKey)>)
    ensures
        r@.no_duplicates(),
        forall|e: (NodeKey, NodeKey)| r@.contains(e) <==> logical_graph_edges(*g).contains(e),
{
    g.all_edges().map(|e| (e.0, e.1)).collect()
}

/// `GraphMap::edge_count` on a directed graph: the number of edges.
#[verifier::external_body]
pub(crate) fn digraph_edge_count(g: &DiGraphMap<NodeKey, ()>) -> (r: usize)
    ensures
        r == logical_graph_edges(*g).len(),
{
    g.edge_count()
}

fn is_target(n: NodeKey, target: NodeKey) -> (r: bool)
    ensures
        r == (n == target),
{
    n.0 == target.0 && n.1 == target.1 && n.2 == target.2 && n.3 == target.3 && n.4 == target.4 && n.5 == target.5
}

fn step_cost(_from: NodeKey, _to: NodeKey) -> (r: u32)
    ensures
        r == 1,
{
    1
}

fn no_estimate(_n: NodeKey) -> (r: u32)
    ensures
        r == 0,
{
    0
}

/// `petgraph::algo::astar` with unit edge costs and no estimate, searching
/// from `start` for `target`. Its documentation promises the shortest path
/// when one exists (here: fewest edges) with its total cost, starting at
/// `start` and ending at `target`, and `None` when there is none. Which of
/// several shortest paths comes back is not stated. The graph's size bound
/// keeps the `u32` costs from overflowing.
#[verifier::external_body]
pub(crate) fn digraph_shortest_path(g: &DiGraphMap<NodeKey, ()>, start: NodeKey, target: NodeKey) -> (r: Option<(u32, Vec<NodeKey>)>)
    requires
        logical_graph_edges(*g).finite(),
        logical_graph_edges(*g).len() <= MAX_LOGICAL_EDGES,
    ensures
        match r {
            Some((cost, path)) => is_shortest_walk(logical_graph_edges(*g), path@, start, target)
                && cost == path@.len() - 1,
            None => !reachable(logical_graph_edges(*g), start, target),
        },
{
    petgraph::algo::astar(g, start, |n| is_target(n, target), |e| step_cost(e.0, e.1), |n| no_estimate(n))
}

/// The order of Rust tuples: lexicographic.
pub open spec fn key_le(a: TrackKey, b: TrackKey) -> bool {
    a.0 < b.0 || (a.0 == b.0 && (a.1 < b.1 || (a.1 == b.1 && (a.2 < b.2 || (a.2 == b.2 && a.3 <= b.3)))))
}

/// Where an undirected petgraph graph files the edge between `a` and `b`:
/// under the pair in ascending order.
pub open spec fn edge_slot(a: TrackKey, b: TrackKey) -> (TrackKey, TrackKey) {
    if key_le(a, b) {
        (a, b)
    } else {
        (b, a)
    }
}

// ---------------------------------------------------------------------------
// Undirected graphs of track keys, weighted with the editor's connections
// ---------------------------------------------------------------------------

/// The nodes of an undirected petgraph graph of the editor's tracks.
pub uninterp spec fn link_graph_nodes(g: GraphMap<TrackKey, LinkConnection, Undirected, RandomState>) -> Set<TrackKey>;

/// The edges of an undirected petgraph graph of the editor's tracks, each
/// filed under its slot, with its connection.
pub uninterp spec fn link_graph_edges(g: GraphMap<TrackKey, LinkConnection, Undirected, RandomState>) -> Map<(TrackKey, TrackKey), LinkConnection>;

/// `UnGraphMap::new`: a graph without nodes or edges.
#[verifier::external_body]
pub(crate) fn linkgraph_new() -> (g: UnGraphMap<TrackKey, LinkConnection>)
    ensures
        link_graph_nodes(g).is_empty(),
        link_graph_edges(g).dom().is_empty(),
{
    UnGraphMap::new()
}

/// `GraphMap::add_node`: the node is in the graph afterwards.
#[verifier::external_body]
pub(crate) fn linkgraph_add_node(g: &mut UnGraphMap<TrackKey, LinkConnection>, n: TrackKey)
    ensures
        link_graph_nodes(*final(g)) == link_graph_nodes(*old(g)).insert(n),
        link_graph_edges(*final(g)) == link_graph_edges(*old(g)),
{
    g.add_node(n);
}

/// `GraphMap::contains_node`.
#[verifier::external_body]
pub(crate) fn linkgraph_contains_node(g: &UnGraphMap<TrackKey, LinkConnection>, n: TrackKey) -> (r: bool)
    ensures
        r == link_graph_nodes(*g).contains(n),
{
    g.contains_node(n)
}

/// `GraphMap::remove_node`: the node and every edge at it are gone; the
/// result says whether the node was there.
#[verifier::external_body]
pub(crate) fn linkgraph_remove_node(g: &mut UnGraphMap<TrackKey, LinkConnection>, n: TrackKey) -> (r: bool)
    ensures
        r == link_graph_nodes(*old(g)).contains(n),
        link_graph_nodes(*final(g)) == link_graph_nodes(*old(g)).remove(n),
        link_graph_edges(*final(g)) == link_graph_edges(*old(g)).restrict(
            link_graph_edges(*old(g)).dom().filter(|k: (TrackKey, TrackKey)| k.0 != n && k.1 != n),
        ),
{
    g.remove_node(n)
}

/// `GraphMap::add_edge` on an undirected graph: the edge between `a` and
/// `b` carries `w` and both ends are nodes afterwards; the previous weight
/// comes back if there was one.
#[verifier::external_body]
pub(crate) fn linkgraph_add_edge(
    g: &mut UnGraphMap<TrackKey, LinkConnection>,
    a: TrackKey,
    b: TrackKey,
    w: LinkConnection,
) -> (r: Option<LinkConnection>)
    ensures
        link_graph_edges(*final(g)) == link_graph_edges(*old(g)).insert(edge_slot(a, b), w),
        link_graph_nodes(*final(g)) == link_graph_nodes(*old(g)).insert(a).insert(b),
        r == (if link_graph_edges(*old(g)).contains_key(edge_slot(a, b)) {
            Some(link_graph_edges(*old(g))[edge_slot(a, b)])
        } else {
            None
        }),
{
    g.add_edge(a, b, w)
}

/// The connections of the edges at `a`, each once, in some order.
pub open spec fn lists_link_edges(m: Map<(TrackKey, TrackKey), LinkConnection>, r: Seq<LinkConnection>, a: TrackKey) -> bool {
    exists|slots: Seq<(TrackKey, TrackKey)>| {
        &&& slots.len() == r.len()
        &&& slots.no_duplicates()
        &&& forall|i: int| 0 <= i < slots.len() ==> m.contains_key(#[trigger] slots[i]) && (slots[i].0 == a || slots[i].1 == a)
            && r[i] == m[slots[i]]
        &&& forall|k: (TrackKey, TrackKey)| m.contains_key(k) && (k.0 == a || k.1 == a) ==> #[trigger] slots.contains(k)
    }
}

/// `GraphMap::edges` on an undirected graph, weights only: every edge at
/// `a`, each once, in some order.
#[verifier::external_body]
pub(crate) fn linkgraph_edges_at(g: &UnGraphMap<TrackKey, LinkConnection>, a: TrackKey) -> (r: Vec<LinkConnection>)
    ensures
        lists_link_edges(link_graph_edges(*g), r@, a),
{
    g.edges(a).map(|e| *e.2).collect()
}

} // verus!
