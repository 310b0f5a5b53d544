//! Physical connections between tracks, kept in an undirected petgraph
//! graph keyed by track.
use vstd::prelude::*;
use std::hash::RandomState;
use petgraph::graphmap::{GraphMap, UnGraphMap};
use petgraph::Undirected;
use crate::common::layout_primitives::{CellID, Orientation, TrackConnectionID, TrackID};
pub use crate::common::graph::{edge_slot, key_le, TrackKey};

verus! {

/// Marker type for the connection element kind.
#[derive(Clone, Copy, Debug)]
pub struct Connection;

/// Layout data of a connection; the identifier holds everything.
#[derive(Clone, Copy, Debug, PartialEq, Eq, Structural)]
pub struct ConnectionData;

impl Default for ConnectionData {
    fn default() -> (r: Self)
        ensures
            r == ConnectionData,
    {
        ConnectionData
    }
}

pub open spec fn orientation_number(o: Orientation) -> u8 {
    match o {
        Orientation::NS => 0,
        Orientation::NE => 1,
        Orientation::NW => 2,
        Orientation::SE => 3,
        Orientation::SW => 4,
        Orientation::EW => 5,
    }
}

pub open spec fn track_key(t: TrackID) -> TrackKey {
    (t.cell.x, t.cell.y, t.cell.l, orientation_number(t.orientation))
}

/// The edges of an undirected petgraph graph over track keys, each filed
/// under its slot, with its weight.
pub uninterp spec fn track_graph_edges(g: GraphMap<TrackKey, TrackConnectionID, Undirected, RandomState>) -> Map<(TrackKey, TrackKey), TrackConnectionID>;

/// The nodes of an undirected petgraph graph over track keys.
pub uninterp spec fn track_graph_nodes(g: GraphMap<TrackKey, TrackConnectionID, Undirected, RandomState>) -> Set<TrackKey>;

/// The weights of the edges whose slots satisfy `pick`, each once, in
/// some order.
pub open spec fn lists_edges(
    m: Map<(TrackKey, TrackKey), TrackConnectionID>,
    r: Seq<TrackConnectionID>,
    pick: spec_fn((TrackKey, TrackKey)) -> bool,
) -> bool {
    exists|slots: Seq<(TrackKey, TrackKey)>| {
        &&& slots.len() == r.len()
        &&& slots.no_duplicates()
        &&& forall|i: int| 0 <= i < slots.len() ==> m.contains_key(#[trigger] slots[i]) && pick(slots[i]) && r[i] == m[slots[i]]
        &&& forall|k: (TrackKey, TrackKey)| m.contains_key(k) && pick(k) ==> #[trigger] slots.contains(k)
    }
}

/// `UnGraphMap::new`: a graph without edges.
#[verifier::external_body]
fn ungraph_new() -> (g: UnGraphMap<TrackKey, TrackConnectionID>)
    ensures
        track_graph_edges(g).dom().is_empty(),
        track_graph_nodes(g).is_empty(),
{
    UnGraphMap::new()
}

/// `GraphMap::add_edge` on an undirected graph: the edge between `a` and `b`
/// gets weight `w`; the previous weight comes back if there was one.
#[verifier::external_body]
fn ungraph_add_edge(g: &mut UnGraphMap<TrackKey, TrackConnectionID>, a: TrackKey, b: TrackKey, w: TrackConnectionID) -> (r: Option<TrackConnectionID>)
    ensures
        track_graph_edges(*final(g)) == track_graph_edges(*old(g)).insert(edge_slot(a, b), w),
        track_graph_nodes(*final(g)) == track_graph_nodes(*old(g)).insert(a).insert(b),
        r == (if track_graph_edges(*old(g)).contains_key(edge_slot(a, b)) {
            Some(track_graph_edges(*old(g))[edge_slot(a, b)])
        } else {
            None
        }),
{
    g.add_edge(a, b, w)
}

/// `GraphMap::remove_edge` on an undirected graph: the edge between `a`
/// and `b` is gone afterwards; its weight comes back if there was one.
#[verifier::external_body]
fn ungraph_remove_edge(g: &mut UnGraphMap<TrackKey, TrackConnectionID>, a: TrackKey, b: TrackKey) -> (r: Option<TrackConnectionID>)
    ensures
        track_graph_edges(*final(g)) == track_graph_edges(*old(g)).remove(edge_slot(a, b)),
        track_graph_nodes(*final(g)) == track_graph_nodes(*old(g)),
        r == (if track_graph_edges(*old(g)).contains_key(edge_slot(a, b)) {
            Some(track_graph_edges(*old(g))[edge_slot(a, b)])
        } else {
            None
        }),
{
    g.remove_edge(a, b)
}

/// `GraphMap::edges` on an undirected graph, weights only: every edge at
/// `a`, each once.
#[verifier::external_body]
fn ungraph_edges_at(g: &UnGraphMap<TrackKey, TrackConnectionID>, a: TrackKey) -> (r: Vec<TrackConnectionID>)
    ensures
        lists_edges(track_graph_edges(*g), r@, |k: (TrackKey, TrackKey)| k.0 == a || k.1 == a),
{
    g.edges(a).map(|e| *e.2).collect()
}

/// `GraphMap::node_count`: the number of nodes.
#[verifier::external_body]
fn ungraph_node_count(g: &UnGraphMap<TrackKey, TrackConnectionID>) -> (r: usize)
    ensures
        r == track_graph_nodes(*g).len(),
{
    g.node_count()
}

/// `GraphMap::all_edges`, weights only: every edge of the graph, each once.
#[verifier::external_body]
fn ungraph_all_edges(g: &UnGraphMap<TrackKey, TrackConnectionID>) -> (r: Vec<TrackConnectionID>)
    ensures
        lists_edges(track_graph_edges(*g), r@, |k: (TrackKey, TrackKey)| true),
{
    g.all_edges().map(|e| *e.2).collect()
}

/// The key of a track.
pub fn key_of_track(t: TrackID) -> (r: TrackKey)
    ensures
        r == track_key(t),
{
    let o: u8 = match t.orientation {
        Orientation::NS => 0,
        Orientation::NE => 1,
        Orientation::NW => 2,
        Orientation::SE => 3,
        Orientation::SW => 4,
        Orientation::EW => 5,
    };
    (t.cell.x, t.cell.y, t.cell.l, o)
}

/// Track keys tell tracks apart.
pub proof fn lemma_track_key_injective(a: TrackID, b: TrackID)
    ensures
        track_key(a) == track_key(b) ==> a == b,
{
    let _c: CellID = a.cell;
}

/// Undirected structural graph of track connections.
pub struct ConnectionGraph {
    graph: UnGraphMap<TrackKey, TrackConnectionID>,
}

impl ConnectionGraph {
    /// The connections, each filed under the slot of its two tracks' keys.
    pub closed spec fn view(&self) -> Map<(TrackKey, TrackKey), TrackConnectionID> {
        track_graph_edges(self.graph)
    }

    /// The tracks the graph has met, by key: the ends of every connection
    /// ever added (removing a connection keeps its tracks).
    pub closed spec fn nodes(&self) -> Set<TrackKey> {
        track_graph_nodes(self.graph)
    }

    pub fn new() -> (r: Self)
        ensures
            r@ == Map::<(TrackKey, TrackKey), TrackConnectionID>::empty(),
            r.nodes().is_empty(),
    {
        let r = ConnectionGraph { graph: ungraph_new() };
        assert(r@ =~= Map::<(TrackKey, TrackKey), TrackConnectionID>::empty());
        r
    }

    /// Records a connection between its two tracks (a later one between the
    /// same tracks replaces an earlier one).
    pub fn add_connection(&mut self, conn: TrackConnectionID)
        ensures
            final(self)@ == old(self)@.insert(
                edge_slot(track_key(conn.track_a.track), track_key(conn.track_b.track)),
                conn,
            ),
            final(self).nodes() == old(self).nodes().insert(track_key(conn.track_a.track)).insert(track_key(conn.track_b.track)),
    {
        let a = key_of_track(conn.track_a.track);
        let b = key_of_track(conn.track_b.track);
        let _ = ungraph_add_edge(&mut self.graph, a, b, conn);
    }

    /// Forgets the connection between the two tracks of `conn`.
    pub fn remove_connection(&mut self, conn: TrackConnectionID)
        ensures
            final(self)@ == old(self)@.remove(edge_slot(track_key(conn.track_a.track), track_key(conn.track_b.track))),
            final(self).nodes() == old(self).nodes(),
    {
        let a = key_of_track(conn.track_a.track);
        let b = key_of_track(conn.track_b.track);
        let _ = ungraph_remove_edge(&mut self.graph, a, b);
    }

    /// All connections from a given track, each once.
    pub fn connections_from(&self, track: TrackID) -> (r: Vec<TrackConnectionID>)
        ensures
            lists_edges(self@, r@, |k: (TrackKey, TrackKey)| k.0 == track_key(track) || k.1 == track_key(track)),
    {
        let k = key_of_track(track);
        ungraph_edges_at(&self.graph, k)
    }

    /// The number of tracks the graph has met.
    pub fn node_count(&self) -> (r: usize)
        ensures
            r == self.nodes().len(),
    {
        ungraph_node_count(&self.graph)
    }

    /// All connections, each once.
    pub fn connections(&self) -> (r: Vec<TrackConnectionID>)
        ensures
            lists_edges(self@, r@, |k: (TrackKey, TrackKey)| true),
    {
        ungraph_all_edges(&self.graph)
    }
}

} // verus!
