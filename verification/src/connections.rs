//! The editor's track graph: which tracks exist, how they are physically
//! linked, and the directed graph of logical tracks (a directed track and a
//! facing) that trains can travel, held in petgraph graphs.
use vstd::prelude::*;
use petgraph::graphmap::{DiGraphMap, UnGraphMap};
use crate::common::graph::{
    digraph_add_edge, digraph_add_node, digraph_all_edges, digraph_contains_edge, digraph_contains_node,
    digraph_neighbors, logical_graph_neighbors, digraph_new, digraph_nodes, digraph_remove_edge, digraph_remove_node, edge_slot,
    link_graph_edges, link_graph_nodes, linkgraph_add_edge, linkgraph_add_node, linkgraph_contains_node,
    linkgraph_edges_at, linkgraph_new, linkgraph_remove_node, lists_link_edges, logical_graph_edges,
    logical_graph_nodes, NodeKey, TrackKey,
};
use crate::keyed::{Key, KeyedMap};
use crate::layout_primitives::{
    connection_to_directed, directed_to_logical, CellID, ConnectionDirection, DirectedTrackConnectionID,
    DirectedTrackID, Facing, LogicalDiscriminator, LogicalTrackConnectionID, LogicalTrackID, Orientation,
    TrackConnectionID, TrackDirection, TrackID,
};

verus! {

pub open spec fn orientation_key(o: Orientation) -> u8 {
    match o {
        Orientation::NS => 0,
        Orientation::NE => 1,
        Orientation::NW => 2,
        Orientation::SE => 3,
        Orientation::SW => 4,
        Orientation::EW => 5,
    }
}

pub open spec fn key_orientation(c: u8) -> Orientation {
    if c == 0 {
        Orientation::NS
    } else if c == 1 {
        Orientation::NE
    } else if c == 2 {
        Orientation::NW
    } else if c == 3 {
        Orientation::SE
    } else if c == 4 {
        Orientation::SW
    } else {
        Orientation::EW
    }
}

/// The key of a track.
pub open spec fn tk(t: TrackID) -> TrackKey {
    (t.cell.x, t.cell.y, t.cell.l, orientation_key(t.orientation))
}

pub open spec fn key_track(k: TrackKey) -> TrackID {
    TrackID { cell: CellID { x: k.0, y: k.1, l: k.2 }, orientation: key_orientation(k.3) }
}

/// The key of a logical track.
pub open spec fn lk(t: LogicalTrackID) -> NodeKey {
    (
        t.dirtrack.track.cell.x,
        t.dirtrack.track.cell.y,
        t.dirtrack.track.cell.l,
        orientation_key(t.dirtrack.track.orientation),
        if t.dirtrack.direction == TrackDirection::First { 0u8 } else { 1u8 },
        if t.facing == Facing::Forward { 0u8 } else { 1u8 },
    )
}

pub open spec fn key_logical(k: NodeKey) -> LogicalTrackID {
    LogicalTrackID {
        dirtrack: DirectedTrackID {
            track: key_track((k.0, k.1, k.2, k.3)),
            direction: if k.4 == 0 { TrackDirection::First } else { TrackDirection::Last },
        },
        facing: if k.5 == 0 { Facing::Forward } else { Facing::Backward },
    }
}

/// Keys tell tracks and logical tracks apart.
pub proof fn lemma_keys_round_trip(t: TrackID, l: LogicalTrackID)
    ensures
        key_track(tk(t)) == t,
        key_logical(lk(l)) == l,
{
}

fn track_key(t: TrackID) -> (r: TrackKey)
    ensures
        r == tk(t),
{
    let o: u8 = match t.orientation {
        Orientation::NS => 0,
        Orientation::NE => 1,
        Orientation::NW => 2,
        Orientation::SE => 3,
        Orientation::SW => 4,
        Orientation::EW => 5,
    };
    (t.cell.x, t.cell.y, t.cell.l, o)
}

fn logical_key(t: LogicalTrackID) -> (r: NodeKey)
    ensures
        r == lk(t),
{
    let k = track_key(t.dirtrack.track);
    let d: u8 = match t.dirtrack.direction {
        TrackDirection::First => 0,
        TrackDirection::Last => 1,
    };
    let f: u8 = match t.facing {
        Facing::Forward => 0,
        Facing::Backward => 1,
    };
    (k.0, k.1, k.2, k.3, d, f)
}

fn key_to_track(k: TrackKey) -> (r: TrackID)
    ensures
        r == key_track(k),
{
    let orientation = if k.3 == 0 {
        Orientation::NS
    } else if k.3 == 1 {
        Orientation::NE
    } else if k.3 == 2 {
        Orientation::NW
    } else if k.3 == 3 {
        Orientation::SE
    } else if k.3 == 4 {
        Orientation::SW
    } else {
        Orientation::EW
    };
    TrackID { cell: CellID { x: k.0, y: k.1, l: k.2 }, orientation }
}

fn key_to_logical(k: NodeKey) -> (r: LogicalTrackID)
    ensures
        r == key_logical(k),
{
    let track = key_to_track((k.0, k.1, k.2, k.3));
    let direction = if k.4 == 0 { TrackDirection::First } else { TrackDirection::Last };
    let facing = if k.5 == 0 { Facing::Forward } else { Facing::Backward };
    LogicalTrackID { dirtrack: DirectedTrackID { track, direction }, facing }
}

/// The four logical connections a physical connection allows: either way
/// through it, with either facing.
pub open spec fn connection_pairs(c: TrackConnectionID) -> Set<(LogicalTrackID, LogicalTrackID)> {
    let l0 = directed_to_logical(connection_to_directed(c, ConnectionDirection::Aligned), Facing::Forward);
    let l1 = directed_to_logical(connection_to_directed(c, ConnectionDirection::Aligned), Facing::Backward);
    let l2 = directed_to_logical(connection_to_directed(c, ConnectionDirection::Opposite), Facing::Forward);
    let l3 = directed_to_logical(connection_to_directed(c, ConnectionDirection::Opposite), Facing::Backward);
    set![(l0.from_track, l0.to_track), (l1.from_track, l1.to_track), (l2.from_track, l2.to_track), (l3.from_track, l3.to_track)]
}

/// The four logical tracks on a track.
pub open spec fn logicals_of(t: TrackID) -> Set<LogicalTrackID> {
    Set::new(|l: LogicalTrackID| l.dirtrack.track == t)
}

/// The connections filed at a track.
pub open spec fn links_at(links: Map<(TrackKey, TrackKey), TrackConnectionID>, t: TrackID) -> Set<TrackConnectionID> {
    Set::new(|c: TrackConnectionID| exists|k: (TrackKey, TrackKey)| #[trigger] links.contains_key(k) && links[k] == c && (k.0 == tk(t) || k.1 == tk(t)))
}

/// The logical connections of some physical connections whose ends are
/// both among `nodes`.
pub open spec fn usable_pairs(conns: Set<TrackConnectionID>, nodes: Set<LogicalTrackID>) -> Set<(LogicalTrackID, LogicalTrackID)> {
    Set::new(|e: (LogicalTrackID, LogicalTrackID)| nodes.contains(e.0) && nodes.contains(e.1) && exists|c: TrackConnectionID| conns.contains(c) && #[trigger] connection_pairs(c).contains(e))
}

/// The edges that stay when some nodes go.
pub open spec fn edges_avoiding(edges: Set<(LogicalTrackID, LogicalTrackID)>, gone: Set<LogicalTrackID>) -> Set<(LogicalTrackID, LogicalTrackID)> {
    edges.filter(|e: (LogicalTrackID, LogicalTrackID)| !gone.contains(e.0) && !gone.contains(e.1))
}

impl Key for LogicalDiscriminator {
    fn same(&self, other: &Self) -> (r: bool) {
        *self == *other
    }
}

/// Which logical tracks of a track exist, by direction and facing; those not
/// listed exist.
pub struct TrackLogicalFilter {
    pub filters: KeyedMap<LogicalDiscriminator, bool>,
}

pub open spec fn filter_allows(filters: Map<LogicalDiscriminator, bool>, d: LogicalDiscriminator) -> bool {
    !filters.contains_key(d) || filters[d]
}

impl TrackLogicalFilter {
    /// Every logical track exists.
    pub fn default() -> (r: Self)
        ensures
            forall|d: LogicalDiscriminator| #[trigger] r.filters@.contains_key(d) && r.filters@[d],
    {
        let mut filters = KeyedMap::new();
        filters.insert(LogicalDiscriminator { direction: TrackDirection::First, facing: Facing::Forward }, true);
        filters.insert(LogicalDiscriminator { direction: TrackDirection::Last, facing: Facing::Forward }, true);
        filters.insert(LogicalDiscriminator { direction: TrackDirection::First, facing: Facing::Backward }, true);
        filters.insert(LogicalDiscriminator { direction: TrackDirection::Last, facing: Facing::Backward }, true);
        TrackLogicalFilter { filters }
    }

    /// No logical track is filtered out.
    pub fn is_default(&self) -> (r: bool)
        ensures
            r == forall|d: LogicalDiscriminator| #[trigger] self.filters@.contains_key(d) ==> self.filters@[d],
    {
        let entries = self.filters.entries();
        let mut i: usize = 0;
        while i < entries.len()
            invariant
                0 <= i <= entries@.len(),
                forall|k: int| 0 <= k < entries@.len() ==> self.filters@.contains_key(#[trigger] entries@[k].0) && self.filters@[entries@[k].0] == entries@[k].1,
                forall|d: LogicalDiscriminator| self.filters@.contains_key(d) ==> exists|k: int| 0 <= k < entries@.len() && #[trigger] entries@[k].0 == d,
                forall|k: int| 0 <= k < i ==> (#[trigger] entries@[k]).1,
            decreases entries@.len() - i,
        {
            if !entries[i].1 {
                assert(self.filters@.contains_key(entries@[i as int].0) && !self.filters@[entries@[i as int].0]);
                return false;
            }
            i = i + 1;
        }
        true
    }

    /// Whether the logical tracks with this direction and facing exist.
    pub fn allows(&self, d: LogicalDiscriminator) -> (r: bool)
        ensures
            r == filter_allows(self.filters@, d),
    {
        match self.filters.get(&d) {
            Some(v) => *v,
            None => true,
        }
    }
}

/// The track graph and the logical graph of the layout.
pub struct Connections {
    logical_graph: DiGraphMap<NodeKey, ()>,
    connection_graph: UnGraphMap<TrackKey, TrackConnectionID>,
}

impl Connections {
    /// The logical tracks.
    pub closed spec fn nodes(&self) -> Set<LogicalTrackID> {
        Set::new(|t: LogicalTrackID| logical_graph_nodes(self.logical_graph).contains(lk(t)))
    }

    /// The logical connections.
    pub closed spec fn edges(&self) -> Set<(LogicalTrackID, LogicalTrackID)> {
        Set::new(|e: (LogicalTrackID, LogicalTrackID)| logical_graph_edges(self.logical_graph).contains((lk(e.0), lk(e.1))))
    }

    /// The tracks.
    pub closed spec fn tracks(&self) -> Set<TrackID> {
        Set::new(|t: TrackID| link_graph_nodes(self.connection_graph).contains(tk(t)))
    }

    /// The physical connections, filed under the slot of their tracks' keys.
    pub closed spec fn links(&self) -> Map<(TrackKey, TrackKey), TrackConnectionID> {
        link_graph_edges(self.connection_graph)
    }

    #[verifier::type_invariant]
    closed spec fn wf(&self) -> bool {
        &&& forall|k: NodeKey| #[trigger] logical_graph_nodes(self.logical_graph).contains(k) ==> lk(key_logical(k)) == k
        &&& forall|e: (NodeKey, NodeKey)| #[trigger] logical_graph_edges(self.logical_graph).contains(e) ==> lk(key_logical(e.0)) == e.0
            && lk(key_logical(e.1)) == e.1
        &&& forall|k: TrackKey| #[trigger] link_graph_nodes(self.connection_graph).contains(k) ==> tk(key_track(k)) == k
        &&& forall|k: (TrackKey, TrackKey)| #[trigger] link_graph_edges(self.connection_graph).contains_key(k) ==> {
            let c = link_graph_edges(self.connection_graph)[k];
            &&& k == edge_slot(tk(c.track_a.track), tk(c.track_b.track))
            &&& link_graph_nodes(self.connection_graph).contains(k.0)
            &&& link_graph_nodes(self.connection_graph).contains(k.1)
        }
    }

    pub fn new() -> (r: Self)
        ensures
            r.nodes().is_empty(),
            r.edges().is_empty(),
            r.tracks().is_empty(),
            r.links().dom().is_empty(),
    {
        let r = Connections { logical_graph: digraph_new(), connection_graph: linkgraph_new() };
        assert(r.nodes() =~= Set::<LogicalTrackID>::empty());
        assert(r.edges() =~= Set::<(LogicalTrackID, LogicalTrackID)>::empty());
        assert(r.tracks() =~= Set::<TrackID>::empty());
        r
    }

    /// Whether the track is in the layout.
    pub fn has_track(&self, track: TrackID) -> (r: bool)
        ensures
            r == self.tracks().contains(track),
    {
        linkgraph_contains_node(&self.connection_graph, track_key(track))
    }

    /// Whether the logical connection exists.
    pub fn has_logical_connection(&self, connection: &LogicalTrackConnectionID) -> (r: bool)
        ensures
            r == self.edges().contains((connection.from_track, connection.to_track)),
    {
        digraph_contains_edge(&self.logical_graph, logical_key(connection.from_track), logical_key(connection.to_track))
    }

    /// Whether the directed connection exists with either facing.
    pub fn has_directed_connection(&self, connection: &DirectedTrackConnectionID) -> (r: bool)
        ensures
            r == (self.edges().contains(
                (directed_to_logical(*connection, Facing::Forward).from_track, directed_to_logical(*connection, Facing::Forward).to_track),
            ) || self.edges().contains(
                (directed_to_logical(*connection, Facing::Backward).from_track, directed_to_logical(*connection, Facing::Backward).to_track),
            )),
    {
        if self.has_logical_connection(&connection.to_logical(Facing::Forward)) {
            return true;
        }
        self.has_logical_connection(&connection.to_logical(Facing::Backward))
    }

    /// Whether any logical connection of the physical connection exists.
    pub fn has_connection(&self, connection: &TrackConnectionID) -> (r: bool)
        ensures
            r == exists|e: (LogicalTrackID, LogicalTrackID)| #[trigger] connection_pairs(*connection).contains(e) && self.edges().contains(e),
    {
        let logicals = connection.logical_connections();
        let mut i: usize = 0;
        while i < 4
            invariant
                0 <= i <= 4,
                logicals@ == seq![
                    directed_to_logical(connection_to_directed(*connection, ConnectionDirection::Aligned), Facing::Forward),
                    directed_to_logical(connection_to_directed(*connection, ConnectionDirection::Aligned), Facing::Backward),
                    directed_to_logical(connection_to_directed(*connection, ConnectionDirection::Opposite), Facing::Forward),
                    directed_to_logical(connection_to_directed(*connection, ConnectionDirection::Opposite), Facing::Backward),
                ],
                forall|j: int| 0 <= j < i ==> !self.edges().contains(((#[trigger] logicals@[j]).from_track, logicals@[j].to_track)),
            decreases 4 - i,
        {
            let l = logicals[i];
            if self.has_logical_connection(&l) {
                assert(connection_pairs(*connection).contains((l.from_track, l.to_track)));
                return true;
            }
            i = i + 1;
        }
        proof {
            assert forall|e: (LogicalTrackID, LogicalTrackID)| #[trigger] connection_pairs(*connection).contains(e) implies !self.edges().contains(e) by {
                assert(!self.edges().contains((logicals@[0].from_track, logicals@[0].to_track)));
                assert(!self.edges().contains((logicals@[1].from_track, logicals@[1].to_track)));
                assert(!self.edges().contains((logicals@[2].from_track, logicals@[2].to_track)));
                assert(!self.edges().contains((logicals@[3].from_track, logicals@[3].to_track)));
            }
        }
        false
    }

    /// Adds the logical connection; both ends must be logical tracks of the layout.
    pub fn connect_tracks(&mut self, track_a: &LogicalTrackID, track_b: &LogicalTrackID)
        requires
            old(self).nodes().contains(*track_a),
            old(self).nodes().contains(*track_b),
        ensures
            final(self).edges() == old(self).edges().insert((*track_a, *track_b)),
            final(self).nodes() == old(self).nodes(),
            final(self).tracks() == old(self).tracks(),
            final(self).links() == old(self).links(),
    {
        proof {
            use_type_invariant(&*self);
        }
        let a = logical_key(*track_a);
        let b = logical_key(*track_b);
        let mut g = digraph_new();
        std::mem::swap(&mut g, &mut self.logical_graph);
        let _ = digraph_add_edge(&mut g, a, b);
        self.logical_graph = g;
        proof {
            lemma_keys_round_trip(track_a.dirtrack.track, *track_a);
            lemma_keys_round_trip(track_b.dirtrack.track, *track_b);
            assert forall|e: (LogicalTrackID, LogicalTrackID)| #[trigger] self.edges().contains(e) == old(self).edges().insert((*track_a, *track_b)).contains(e) by {
                lemma_keys_round_trip(e.0.dirtrack.track, e.0);
                lemma_keys_round_trip(e.1.dirtrack.track, e.1);
            }
            assert(self.edges() =~= old(self).edges().insert((*track_a, *track_b)));
            assert(self.nodes() =~= old(self).nodes());
        }
    }

    /// Removes the logical connection.
    pub fn disconnect_tracks(&mut self, track_a: &LogicalTrackID, track_b: &LogicalTrackID)
        ensures
            final(self).edges() == old(self).edges().remove((*track_a, *track_b)),
            final(self).nodes() == old(self).nodes(),
            final(self).tracks() == old(self).tracks(),
            final(self).links() == old(self).links(),
    {
        proof {
            use_type_invariant(&*self);
        }
        let a = logical_key(*track_a);
        let b = logical_key(*track_b);
        let mut g = digraph_new();
        std::mem::swap(&mut g, &mut self.logical_graph);
        let _ = digraph_remove_edge(&mut g, a, b);
        self.logical_graph = g;
        proof {
            assert forall|e: (LogicalTrackID, LogicalTrackID)| #[trigger] self.edges().contains(e) == old(self).edges().remove((*track_a, *track_b)).contains(e) by {
                lemma_keys_round_trip(e.0.dirtrack.track, e.0);
                lemma_keys_round_trip(e.1.dirtrack.track, e.1);
                lemma_keys_round_trip(track_a.dirtrack.track, *track_a);
                lemma_keys_round_trip(track_b.dirtrack.track, *track_b);
            }
            assert(self.edges() =~= old(self).edges().remove((*track_a, *track_b)));
            assert(self.nodes() =~= old(self).nodes());
        }
    }

    /// The logical tracks reachable in one step, in the order the graph
    /// lists them.
    pub closed spec fn next_order(&self, track: LogicalTrackID) -> Seq<LogicalTrackID> {
        logical_graph_neighbors(self.logical_graph, lk(track)).map_values(|k: NodeKey| key_logical(k))
    }

    /// The logical tracks reachable in one step.
    pub fn iter_next_tracks(&self, track: LogicalTrackID) -> (r: Vec<LogicalTrackID>)
        ensures
            r@ == self.next_order(track),
            r@.no_duplicates(),
            forall|n: LogicalTrackID| r@.contains(n) <==> self.edges().contains((track, n)),
    {
        proof {
            use_type_invariant(self);
        }
        let keys = digraph_neighbors(&self.logical_graph, logical_key(track));
        let mut r: Vec<LogicalTrackID> = Vec::new();
        let mut i: usize = 0;
        while i < keys.len()
            invariant
                0 <= i <= keys@.len(),
                keys@.no_duplicates(),
                forall|b: NodeKey| keys@.contains(b) <==> logical_graph_edges(self.logical_graph).contains((lk(track), b)),
                forall|e: (NodeKey, NodeKey)| #[trigger] logical_graph_edges(self.logical_graph).contains(e) ==> lk(key_logical(e.0)) == e.0
                    && lk(key_logical(e.1)) == e.1,
                r@.len() == i,
                forall|j: int| 0 <= j < i ==> r@[j] == key_logical(#[trigger] keys@[j]),
            decreases keys@.len() - i,
        {
            r.push(key_to_logical(keys[i]));
            i = i + 1;
        }
        proof {
            assert(r@ =~= self.next_order(track));
            assert forall|j: int, k: int| 0 <= j < k < r@.len() implies r@[j] != r@[k] by {
                assert(keys@.contains(keys@[j]) && keys@.contains(keys@[k]));
                assert(lk(key_logical(keys@[j])) == keys@[j]);
                assert(lk(key_logical(keys@[k])) == keys@[k]);
            }
            assert forall|n: LogicalTrackID| r@.contains(n) <==> self.edges().contains((track, n)) by {
                lemma_keys_round_trip(n.dirtrack.track, n);
                if r@.contains(n) {
                    let j = choose|j: int| 0 <= j < r@.len() && r@[j] == n;
                    assert(keys@.contains(keys@[j]));
                    assert(lk(key_logical(keys@[j])) == keys@[j]);
                }
                if self.edges().contains((track, n)) {
                    assert(keys@.contains(lk(n)));
                    let j = choose|j: int| 0 <= j < keys@.len() && keys@[j] == lk(n);
                    assert(r@[j] == n);
                }
            }
        }
        r
    }
}


/// The side of a connection that lies on track `t`.
pub open spec fn side_at(c: TrackConnectionID, t: TrackID) -> DirectedTrackID {
    if c.track_a.track == t {
        c.track_a
    } else {
        c.track_b
    }
}

/// Some connection at the track leaves it through `d`.
pub open spec fn end_used(links: Map<(TrackKey, TrackKey), TrackConnectionID>, t: TrackID, d: DirectedTrackID) -> bool {
    exists|c: TrackConnectionID| #[trigger] links_at(links, t).contains(c) && side_at(c, t) == d
}

/// The logical tracks of a track that a filter removes.
pub open spec fn blocked(t: TrackID, filters: Map<LogicalDiscriminator, bool>) -> Set<LogicalTrackID> {
    Set::new(|l: LogicalTrackID| l.dirtrack.track == t && !filter_allows(
        filters,
        LogicalDiscriminator { direction: l.dirtrack.direction, facing: l.facing },
    ))
}

impl Connections {
    proof fn lemma_edges_keys(&self, e: (LogicalTrackID, LogicalTrackID))
        ensures
            self.edges().contains(e) == logical_graph_edges(self.logical_graph).contains((lk(e.0), lk(e.1))),
    {
    }

    /// Adds a logical track.
    fn add_logical(&mut self, l: LogicalTrackID)
        ensures
            final(self).nodes() == old(self).nodes().insert(l),
            final(self).edges() == old(self).edges(),
            final(self).tracks() == old(self).tracks(),
            final(self).links() == old(self).links(),
    {
        proof {
            use_type_invariant(&*self);
            lemma_keys_round_trip(l.dirtrack.track, l);
        }
        let k = logical_key(l);
        let mut g = digraph_new();
        std::mem::swap(&mut g, &mut self.logical_graph);
        digraph_add_node(&mut g, k);
        self.logical_graph = g;
        proof {
            assert forall|t: LogicalTrackID| #[trigger] self.nodes().contains(t) == old(self).nodes().insert(l).contains(t) by {
                lemma_keys_round_trip(t.dirtrack.track, t);
            }
            assert(self.nodes() =~= old(self).nodes().insert(l));
            assert(self.edges() =~= old(self).edges());
        }
    }

    /// Removes a logical track with its connections.
    fn remove_logical(&mut self, l: LogicalTrackID)
        ensures
            final(self).nodes() == old(self).nodes().remove(l),
            final(self).edges() == edges_avoiding(old(self).edges(), set![l]),
            final(self).tracks() == old(self).tracks(),
            final(self).links() == old(self).links(),
    {
        proof {
            use_type_invariant(&*self);
            lemma_keys_round_trip(l.dirtrack.track, l);
        }
        let k = logical_key(l);
        let mut g = digraph_new();
        std::mem::swap(&mut g, &mut self.logical_graph);
        let _ = digraph_remove_node(&mut g, k);
        self.logical_graph = g;
        proof {
            assert forall|t: LogicalTrackID| #[trigger] self.nodes().contains(t) == old(self).nodes().remove(l).contains(t) by {
                lemma_keys_round_trip(t.dirtrack.track, t);
            }
            assert(self.nodes() =~= old(self).nodes().remove(l));
            assert forall|e: (LogicalTrackID, LogicalTrackID)| #[trigger] self.edges().contains(e) == edges_avoiding(old(self).edges(), set![l]).contains(e) by {
                lemma_keys_round_trip(e.0.dirtrack.track, e.0);
                lemma_keys_round_trip(e.1.dirtrack.track, e.1);
            }
            assert(self.edges() =~= edges_avoiding(old(self).edges(), set![l]));
        }
    }

    /// Links two tracks by a physical connection and adds those of its
    /// logical connections whose ends are logical tracks of the layout. Both
    /// tracks must be in the layout.
    pub fn connect_tracks_simple(&mut self, connection: &TrackConnectionID)
        requires
            old(self).tracks().contains(connection.track_a.track),
            old(self).tracks().contains(connection.track_b.track),
        ensures
            final(self).links() == old(self).links().insert(
                edge_slot(tk(connection.track_a.track), tk(connection.track_b.track)),
                *connection,
            ),
            final(self).edges() == old(self).edges().union(usable_pairs(set![*connection], old(self).nodes())),
            final(self).nodes() == old(self).nodes(),
            final(self).tracks() == old(self).tracks(),
    {
        proof {
            use_type_invariant(&*self);
        }
        let a = track_key(connection.track_a.track);
        let b = track_key(connection.track_b.track);
        let mut g = linkgraph_new();
        std::mem::swap(&mut g, &mut self.connection_graph);
        proof {
            assert(link_graph_nodes(g).contains(a) && link_graph_nodes(g).contains(b));
        }
        let _ = linkgraph_add_edge(&mut g, a, b, *connection);
        proof {
            assert(link_graph_nodes(g) =~= link_graph_nodes(old(self).connection_graph));
        }
        self.connection_graph = g;
        proof {
            assert(self.tracks() =~= old(self).tracks());
        }
        let ghost mid = self.edges();
        let logicals = connection.logical_connections();
        let mut i: usize = 0;
        while i < 4
            invariant
                0 <= i <= 4,
                logicals@ == seq![
                    directed_to_logical(connection_to_directed(*connection, ConnectionDirection::Aligned), Facing::Forward),
                    directed_to_logical(connection_to_directed(*connection, ConnectionDirection::Aligned), Facing::Backward),
                    directed_to_logical(connection_to_directed(*connection, ConnectionDirection::Opposite), Facing::Forward),
                    directed_to_logical(connection_to_directed(*connection, ConnectionDirection::Opposite), Facing::Backward),
                ],
                self.nodes() == old(self).nodes(),
                self.tracks() == old(self).tracks(),
                self.links() == old(self).links().insert(edge_slot(tk(connection.track_a.track), tk(connection.track_b.track)), *connection),
                mid == old(self).edges(),
                self.edges() == mid.union(Set::new(|e: (LogicalTrackID, LogicalTrackID)| exists|j: int| 0 <= j < i && e == ((#[trigger] logicals@[j]).from_track, logicals@[j].to_track)
                    && old(self).nodes().contains(e.0) && old(self).nodes().contains(e.1))),
            decreases 4 - i,
        {
            let l = logicals[i];
            let from_in = digraph_contains_node(&self.logical_graph, logical_key(l.from_track));
            let to_in = digraph_contains_node(&self.logical_graph, logical_key(l.to_track));
            proof {
                use_type_invariant(&*self);
                lemma_keys_round_trip(l.from_track.dirtrack.track, l.from_track);
                lemma_keys_round_trip(l.to_track.dirtrack.track, l.to_track);
            }
            if from_in && to_in {
                self.connect_tracks(&l.from_track, &l.to_track);
            }
            proof {
                assert(self.edges() =~= mid.union(Set::new(|e: (LogicalTrackID, LogicalTrackID)| exists|j: int| 0 <= j < i + 1 && e == ((#[trigger] logicals@[j]).from_track, logicals@[j].to_track)
                    && old(self).nodes().contains(e.0) && old(self).nodes().contains(e.1)))) by {
                    assert forall|e: (LogicalTrackID, LogicalTrackID)| (exists|j: int| 0 <= j < i + 1 && e == ((#[trigger] logicals@[j]).from_track, logicals@[j].to_track)
                        && old(self).nodes().contains(e.0) && old(self).nodes().contains(e.1)) implies self.edges().contains(e) by {
                        let j = choose|j: int| 0 <= j < i + 1 && e == ((#[trigger] logicals@[j]).from_track, logicals@[j].to_track)
                            && old(self).nodes().contains(e.0) && old(self).nodes().contains(e.1);
                        if j == i {
                            assert(e == (l.from_track, l.to_track));
                        }
                    }
                }
            }
            i = i + 1;
        }
        proof {
            let added = Set::new(|e: (LogicalTrackID, LogicalTrackID)| exists|j: int| 0 <= j < 4 && e == ((#[trigger] logicals@[j]).from_track, logicals@[j].to_track)
                && old(self).nodes().contains(e.0) && old(self).nodes().contains(e.1));
            assert forall|e: (LogicalTrackID, LogicalTrackID)| added.contains(e) == usable_pairs(set![*connection], old(self).nodes()).contains(e) by {
                if usable_pairs(set![*connection], old(self).nodes()).contains(e) {
                    assert(connection_pairs(*connection).contains(e));
                    if e == (logicals@[0].from_track, logicals@[0].to_track) {
                    } else if e == (logicals@[1].from_track, logicals@[1].to_track) {
                    } else if e == (logicals@[2].from_track, logicals@[2].to_track) {
                    } else {
                        assert(e == (logicals@[3].from_track, logicals@[3].to_track));
                    }
                }
                if added.contains(e) {
                    assert(set![*connection].contains(*connection));
                    assert(connection_pairs(*connection).contains(e));
                }
            }
            assert(added =~= usable_pairs(set![*connection], old(self).nodes()));
        }
    }

    /// The end of a track that no connection uses, when exactly one is free.
    pub fn get_unconnected_dirtrack(&self, track: TrackID) -> (r: Option<DirectedTrackID>)
        ensures
            ({
                let d0 = DirectedTrackID { track, direction: TrackDirection::First };
                let d1 = DirectedTrackID { track, direction: TrackDirection::Last };
                let u0 = end_used(self.links(), track, d0);
                let u1 = end_used(self.links(), track, d1);
                r == (if u0 && !u1 { Some(d1) } else if !u0 && u1 { Some(d0) } else { None })
            }),
    {
        proof {
            use_type_invariant(self);
        }
        let conns = linkgraph_edges_at(&self.connection_graph, track_key(track));
        let d0 = DirectedTrackID { track, direction: TrackDirection::First };
        let d1 = DirectedTrackID { track, direction: TrackDirection::Last };
        let mut used0 = false;
        let mut used1 = false;
        let mut i: usize = 0;
        while i < conns.len()
            invariant
                0 <= i <= conns@.len(),
                used0 == exists|j: int| 0 <= j < i && side_at(#[trigger] conns@[j], track) == d0,
                used1 == exists|j: int| 0 <= j < i && side_at(#[trigger] conns@[j], track) == d1,
            decreases conns@.len() - i,
        {
            let c = conns[i];
            let side = if c.track_a.track == track { c.track_a } else { c.track_b };
            if side == d0 {
                used0 = true;
            }
            if side == d1 {
                used1 = true;
            }
            i = i + 1;
        }
        proof {
            let links = self.links();
            let slots = choose|slots: Seq<(TrackKey, TrackKey)>| {
                &&& slots.len() == conns@.len()
                &&& slots.no_duplicates()
                &&& forall|i: int| 0 <= i < slots.len() ==> links.contains_key(#[trigger] slots[i]) && (slots[i].0 == tk(track)
                    || slots[i].1 == tk(track)) && conns@[i] == links[slots[i]]
                &&& forall|k: (TrackKey, TrackKey)| links.contains_key(k) && (k.0 == tk(track) || k.1 == tk(track)) ==> #[trigger] slots.contains(k)
            };
            assert forall|c: TrackConnectionID| links_at(links, track).contains(c) <==> conns@.contains(c) by {
                if links_at(links, track).contains(c) {
                    let k = choose|k: (TrackKey, TrackKey)| #[trigger] links.contains_key(k) && links[k] == c && (k.0 == tk(track) || k.1 == tk(track));
                    assert(slots.contains(k));
                    let j = choose|j: int| 0 <= j < slots.len() && slots[j] == k;
                    assert(conns@[j] == c);
                }
                if conns@.contains(c) {
                    let j = choose|j: int| 0 <= j < conns@.len() && conns@[j] == c;
                    assert(links.contains_key(slots[j]));
                }
            }
            assert(used0 == end_used(links, track, d0)) by {
                if end_used(links, track, d0) {
                    let c = choose|c: TrackConnectionID| #[trigger] links_at(links, track).contains(c) && side_at(c, track) == d0;
                    assert(conns@.contains(c));
                    let j = choose|j: int| 0 <= j < conns@.len() && conns@[j] == c;
                    assert(side_at(conns@[j], track) == d0);
                }
                if used0 {
                    let j = choose|j: int| 0 <= j < conns@.len() && side_at(#[trigger] conns@[j], track) == d0;
                    assert(conns@.contains(conns@[j]));
                    assert(links_at(links, track).contains(conns@[j]));
                }
            }
            assert(used1 == end_used(links, track, d1)) by {
                if end_used(links, track, d1) {
                    let c = choose|c: TrackConnectionID| #[trigger] links_at(links, track).contains(c) && side_at(c, track) == d1;
                    assert(conns@.contains(c));
                    let j = choose|j: int| 0 <= j < conns@.len() && conns@[j] == c;
                    assert(side_at(conns@[j], track) == d1);
                }
                if used1 {
                    let j = choose|j: int| 0 <= j < conns@.len() && side_at(#[trigger] conns@[j], track) == d1;
                    assert(conns@.contains(conns@[j]));
                    assert(links_at(links, track).contains(conns@[j]));
                }
            }
        }
        if used0 && !used1 {
            Some(d1)
        } else if !used0 && used1 {
            Some(d0)
        } else {
            None
        }
    }
}

pub open spec fn track_logicals_seq(t: TrackID) -> Seq<LogicalTrackID> {
    seq![
        LogicalTrackID { dirtrack: DirectedTrackID { track: t, direction: TrackDirection::First }, facing: Facing::Forward },
        LogicalTrackID { dirtrack: DirectedTrackID { track: t, direction: TrackDirection::First }, facing: Facing::Backward },
        LogicalTrackID { dirtrack: DirectedTrackID { track: t, direction: TrackDirection::Last }, facing: Facing::Forward },
        LogicalTrackID { dirtrack: DirectedTrackID { track: t, direction: TrackDirection::Last }, facing: Facing::Backward },
    ]
}

proof fn lemma_logicals_of(t: TrackID)
    ensures
        logicals_of(t) == track_logicals_seq(t).to_set(),
{
    assert forall|l: LogicalTrackID| logicals_of(t).contains(l) == track_logicals_seq(t).to_set().contains(l) by {
        if l.dirtrack.track == t {
            let s = track_logicals_seq(t);
            if l.dirtrack.direction == TrackDirection::First && l.facing == Facing::Forward {
                assert(s[0] == l);
            } else if l.dirtrack.direction == TrackDirection::First {
                assert(s[1] == l);
            } else if l.facing == Facing::Forward {
                assert(s[2] == l);
            } else {
                assert(s[3] == l);
            }
        }
    }
    assert(logicals_of(t) =~= track_logicals_seq(t).to_set());
}

proof fn lemma_usable_pairs_insert(s: Set<TrackConnectionID>, c: TrackConnectionID, n: Set<LogicalTrackID>)
    ensures
        usable_pairs(s.insert(c), n) == usable_pairs(s, n).union(usable_pairs(set![c], n)),
{
    assert forall|e: (LogicalTrackID, LogicalTrackID)| usable_pairs(s.insert(c), n).contains(e) == usable_pairs(s, n).union(usable_pairs(set![c], n)).contains(e) by {
        if usable_pairs(s.insert(c), n).contains(e) {
            let d = choose|d: TrackConnectionID| s.insert(c).contains(d) && #[trigger] connection_pairs(d).contains(e);
            if d == c {
                assert(set![c].contains(c));
            }
        }
        if usable_pairs(set![c], n).contains(e) {
            assert(s.insert(c).contains(c));
        }
    }
    assert(usable_pairs(s.insert(c), n) =~= usable_pairs(s, n).union(usable_pairs(set![c], n)));
}

proof fn lemma_avoiding_more(e: Set<(LogicalTrackID, LogicalTrackID)>, a: Set<LogicalTrackID>, l: LogicalTrackID)
    ensures
        edges_avoiding(edges_avoiding(e, a), set![l]) == edges_avoiding(e, a.insert(l)),
{
    assert(edges_avoiding(edges_avoiding(e, a), set![l]) =~= edges_avoiding(e, a.insert(l)));
}

impl Connections {
    fn add_track_node(&mut self, track: TrackID)
        ensures
            final(self).tracks() == old(self).tracks().insert(track),
            final(self).links() == old(self).links(),
            final(self).nodes() == old(self).nodes(),
            final(self).edges() == old(self).edges(),
    {
        proof {
            use_type_invariant(&*self);
            lemma_keys_round_trip(track, LogicalTrackID { dirtrack: DirectedTrackID { track, direction: TrackDirection::First }, facing: Facing::Forward });
        }
        let k = track_key(track);
        let mut g = linkgraph_new();
        std::mem::swap(&mut g, &mut self.connection_graph);
        linkgraph_add_node(&mut g, k);
        self.connection_graph = g;
        proof {
            assert forall|t: TrackID| #[trigger] self.tracks().contains(t) == old(self).tracks().insert(track).contains(t) by {
                lemma_keys_round_trip(t, LogicalTrackID { dirtrack: DirectedTrackID { track: t, direction: TrackDirection::First }, facing: Facing::Forward });
            }
            assert(self.tracks() =~= old(self).tracks().insert(track));
        }
    }

    /// Adds a track with its logical tracks (except those the filter
    /// removes), and restores the logical connections of the physical
    /// connections already filed at it.
    pub fn add_filtered_track(&mut self, track: TrackID, logical_filter: &TrackLogicalFilter)
        ensures
            final(self).tracks() == old(self).tracks().insert(track),
            final(self).links() == old(self).links(),
            final(self).nodes() == old(self).nodes().union(logicals_of(track)).difference(blocked(track, logical_filter.filters@)),
            final(self).edges() == edges_avoiding(
                old(self).edges().union(usable_pairs(links_at(old(self).links(), track), old(self).nodes().union(logicals_of(track)))),
                blocked(track, logical_filter.filters@),
            ),
    {
        self.add_track_node(track);
        let logicals = track.logical_tracks();
        proof {
            lemma_logicals_of(track);
            assert(logicals@ =~= track_logicals_seq(track));
        }
        let mut i: usize = 0;
        while i < 4
            invariant
                0 <= i <= 4,
                logicals@ == track_logicals_seq(track),
                self.tracks() == old(self).tracks().insert(track),
                self.links() == old(self).links(),
                self.edges() == old(self).edges(),
                self.nodes() == old(self).nodes().union(logicals@.subrange(0, i as int).to_set()),
            decreases 4 - i,
        {
            let l = logicals[i];
            proof {
                use_type_invariant(&*self);
                lemma_keys_round_trip(track, l);
            }
            if !digraph_contains_node(&self.logical_graph, logical_key(l)) {
                self.add_logical(l);
            }
            proof {
                assert(logicals@.subrange(0, i + 1) =~= logicals@.subrange(0, i as int).push(l));
                logicals@.subrange(0, i as int).lemma_push_to_set_commute(l);
                assert(self.nodes() =~= old(self).nodes().union(logicals@.subrange(0, i + 1).to_set()));
            }
            i = i + 1;
        }
        let ghost n1 = self.nodes();
        proof {
            assert(logicals@.subrange(0, 4) =~= logicals@);
            assert(n1 == old(self).nodes().union(logicals_of(track)));
            use_type_invariant(&*self);
        }
        let conns = linkgraph_edges_at(&self.connection_graph, track_key(track));
        let ghost links0 = self.links();
        let ghost slots = choose|slots: Seq<(TrackKey, TrackKey)>| {
            &&& slots.len() == conns@.len()
            &&& slots.no_duplicates()
            &&& forall|i: int| 0 <= i < slots.len() ==> links0.contains_key(#[trigger] slots[i]) && (slots[i].0 == tk(track)
                || slots[i].1 == tk(track)) && conns@[i] == links0[slots[i]]
            &&& forall|k: (TrackKey, TrackKey)| links0.contains_key(k) && (k.0 == tk(track) || k.1 == tk(track)) ==> #[trigger] slots.contains(k)
        };
        proof {
            assert(lists_link_edges(links0, conns@, tk(track)));
            assert(conns@.subrange(0, 0).to_set() =~= Set::<TrackConnectionID>::empty());
            assert(usable_pairs(Set::empty(), n1) =~= Set::<(LogicalTrackID, LogicalTrackID)>::empty());
            assert(self.edges() =~= old(self).edges().union(usable_pairs(Set::empty(), n1)));
        }
        let mut j: usize = 0;
        while j < conns.len()
            invariant
                0 <= j <= conns@.len(),
                links0 == old(self).links(),
                slots.len() == conns@.len(),
                forall|i: int| 0 <= i < slots.len() ==> links0.contains_key(#[trigger] slots[i]) && (slots[i].0 == tk(track)
                    || slots[i].1 == tk(track)) && conns@[i] == links0[slots[i]],
                forall|k: (TrackKey, TrackKey)| #[trigger] links0.contains_key(k) ==> {
                    let c = links0[k];
                    &&& k == edge_slot(tk(c.track_a.track), tk(c.track_b.track))
                    &&& self.tracks().contains(key_track(k.0)) && tk(key_track(k.0)) == k.0
                    &&& self.tracks().contains(key_track(k.1)) && tk(key_track(k.1)) == k.1
                },
                self.tracks() == old(self).tracks().insert(track),
                self.links() == links0,
                self.nodes() == n1,
                self.edges() == old(self).edges().union(usable_pairs(conns@.subrange(0, j as int).to_set(), n1)),
            decreases conns@.len() - j,
        {
            let c = conns[j];
            proof {
                let k = slots[j as int];
                assert(links0.contains_key(k));
                lemma_keys_round_trip(c.track_a.track, LogicalTrackID { dirtrack: c.track_a, facing: Facing::Forward });
                lemma_keys_round_trip(c.track_b.track, LogicalTrackID { dirtrack: c.track_b, facing: Facing::Forward });
                if k.0 == tk(c.track_a.track) {
                    assert(key_track(k.0) == c.track_a.track);
                } else {
                    assert(key_track(k.1) == c.track_a.track);
                }
                if k.0 == tk(c.track_b.track) {
                    assert(key_track(k.0) == c.track_b.track);
                } else {
                    assert(key_track(k.1) == c.track_b.track);
                }
            }
            self.connect_tracks_simple(&c);
            proof {
                let k = slots[j as int];
                assert(links0.insert(k, c) =~= links0);
                assert(conns@.subrange(0, j + 1) =~= conns@.subrange(0, j as int).push(c));
                conns@.subrange(0, j as int).lemma_push_to_set_commute(c);
                lemma_usable_pairs_insert(conns@.subrange(0, j as int).to_set(), c, n1);
            }
            j = j + 1;
        }
        proof {
            assert(conns@.subrange(0, conns@.len() as int) =~= conns@);
            assert forall|c: TrackConnectionID| conns@.to_set().contains(c) == links_at(old(self).links(), track).contains(c) by {
                if links_at(old(self).links(), track).contains(c) {
                    let k = choose|k: (TrackKey, TrackKey)| #[trigger] links0.contains_key(k) && links0[k] == c && (k.0 == tk(track) || k.1 == tk(track));
                    assert(slots.contains(k));
                    let i = choose|i: int| 0 <= i < slots.len() && slots[i] == k;
                    assert(conns@[i] == c);
                }
                if conns@.to_set().contains(c) {
                    let i = choose|i: int| 0 <= i < conns@.len() && conns@[i] == c;
                    assert(links0.contains_key(slots[i]));
                }
            }
            assert(conns@.to_set() =~= links_at(old(self).links(), track));
        }
        let ghost e1 = self.edges();
        proof {
            assert(Set::<LogicalTrackID>::new(|l: LogicalTrackID| exists|k: int| 0 <= k < 0 && l == logicals@[k] && !filter_allows(
                logical_filter.filters@,
                LogicalDiscriminator { direction: l.dirtrack.direction, facing: l.facing },
            )) =~= Set::<LogicalTrackID>::empty());
            assert(edges_avoiding(e1, Set::empty()) =~= e1);
            assert(n1.difference(Set::empty()) =~= n1);
        }
        let mut m: usize = 0;
        while m < 4
            invariant
                0 <= m <= 4,
                logicals@ == track_logicals_seq(track),
                self.tracks() == old(self).tracks().insert(track),
                self.links() == old(self).links(),
                ({
                    let gone = Set::<LogicalTrackID>::new(|l: LogicalTrackID| exists|k: int| 0 <= k < m && l == logicals@[k] && !filter_allows(
                        logical_filter.filters@,
                        LogicalDiscriminator { direction: l.dirtrack.direction, facing: l.facing },
                    ));
                    &&& self.nodes() == n1.difference(gone)
                    &&& self.edges() == edges_avoiding(e1, gone)
                }),
            decreases 4 - m,
        {
            let l = logicals[m];
            let ghost before = Set::<LogicalTrackID>::new(|x: LogicalTrackID| exists|k: int| 0 <= k < m && x == logicals@[k] && !filter_allows(
                logical_filter.filters@,
                LogicalDiscriminator { direction: x.dirtrack.direction, facing: x.facing },
            ));
            let ghost after = Set::<LogicalTrackID>::new(|x: LogicalTrackID| exists|k: int| 0 <= k < m + 1 && x == logicals@[k] && !filter_allows(
                logical_filter.filters@,
                LogicalDiscriminator { direction: x.dirtrack.direction, facing: x.facing },
            ));
            if !logical_filter.allows(l.discriminator()) {
                self.remove_logical(l);
                proof {
                    assert(after =~= before.insert(l));
                    lemma_avoiding_more(e1, before, l);
                    assert(self.nodes() =~= n1.difference(after));
                }
            } else {
                proof {
                    assert forall|x: LogicalTrackID| after.contains(x) implies before.contains(x) by {
                        let k = choose|k: int| 0 <= k < m + 1 && x == logicals@[k] && !filter_allows(
                            logical_filter.filters@,
                            LogicalDiscriminator { direction: x.dirtrack.direction, facing: x.facing },
                        );
                        assert(k != m);
                    }
                    assert(after =~= before);
                }
            }
            m = m + 1;
        }
        proof {
            let gone = Set::<LogicalTrackID>::new(|l: LogicalTrackID| exists|k: int| 0 <= k < 4 && l == logicals@[k] && !filter_allows(
                logical_filter.filters@,
                LogicalDiscriminator { direction: l.dirtrack.direction, facing: l.facing },
            ));
            assert forall|l: LogicalTrackID| gone.contains(l) == blocked(track, logical_filter.filters@).contains(l) by {
                if blocked(track, logical_filter.filters@).contains(l) {
                    assert(logicals_of(track).contains(l));
                    assert(track_logicals_seq(track).to_set().contains(l));
                    let k = choose|k: int| 0 <= k < 4 && track_logicals_seq(track)[k] == l;
                    assert(logicals@[k] == l);
                }
            }
            assert(gone =~= blocked(track, logical_filter.filters@));
        }
    }

    /// Removes a track with its physical connections, its logical tracks
    /// and their logical connections.
    pub fn remove_track(&mut self, track: TrackID)
        ensures
            final(self).tracks() == old(self).tracks().remove(track),
            final(self).links() == old(self).links().restrict(
                old(self).links().dom().filter(|k: (TrackKey, TrackKey)| k.0 != tk(track) && k.1 != tk(track)),
            ),
            final(self).nodes() == old(self).nodes().difference(logicals_of(track)),
            final(self).edges() == edges_avoiding(old(self).edges(), logicals_of(track)),
    {
        proof {
            use_type_invariant(&*self);
        }
        let k = track_key(track);
        let mut g = linkgraph_new();
        std::mem::swap(&mut g, &mut self.connection_graph);
        let _ = linkgraph_remove_node(&mut g, k);
        self.connection_graph = g;
        proof {
            assert forall|t: TrackID| #[trigger] self.tracks().contains(t) == old(self).tracks().remove(track).contains(t) by {
                lemma_keys_round_trip(t, LogicalTrackID { dirtrack: DirectedTrackID { track: t, direction: TrackDirection::First }, facing: Facing::Forward });
                lemma_keys_round_trip(track, LogicalTrackID { dirtrack: DirectedTrackID { track, direction: TrackDirection::First }, facing: Facing::Forward });
            }
            assert(self.tracks() =~= old(self).tracks().remove(track));
        }
        let logicals = track.logical_tracks();
        proof {
            lemma_logicals_of(track);
            assert(logicals@ =~= track_logicals_seq(track));
            assert(logicals@.subrange(0, 0).to_set() =~= Set::<LogicalTrackID>::empty());
            assert(old(self).nodes().difference(Set::empty()) =~= old(self).nodes());
            assert(edges_avoiding(old(self).edges(), Set::empty()) =~= old(self).edges());
        }
        let ghost links1 = self.links();
        let mut i: usize = 0;
        while i < 4
            invariant
                0 <= i <= 4,
                logicals@ == track_logicals_seq(track),
                self.tracks() == old(self).tracks().remove(track),
                self.links() == links1,
                self.nodes() == old(self).nodes().difference(logicals@.subrange(0, i as int).to_set()),
                self.edges() == edges_avoiding(old(self).edges(), logicals@.subrange(0, i as int).to_set()),
            decreases 4 - i,
        {
            let l = logicals[i];
            self.remove_logical(l);
            proof {
                assert(logicals@.subrange(0, i + 1) =~= logicals@.subrange(0, i as int).push(l));
                logicals@.subrange(0, i as int).lemma_push_to_set_commute(l);
                lemma_avoiding_more(old(self).edges(), logicals@.subrange(0, i as int).to_set(), l);
                assert(self.nodes() =~= old(self).nodes().difference(logicals@.subrange(0, i + 1).to_set()));
            }
            i = i + 1;
        }
        proof {
            assert(logicals@.subrange(0, 4) =~= logicals@);
        }
    }
}

impl Connections {
    /// Every logical track, each once.
    pub fn iter_logical_tracks(&self) -> (r: Vec<LogicalTrackID>)
        ensures
            r@.no_duplicates(),
            forall|t: LogicalTrackID| r@.contains(t) <==> self.nodes().contains(t),
    {
        proof {
            use_type_invariant(self);
        }
        let keys = digraph_nodes(&self.logical_graph);
        let mut r: Vec<LogicalTrackID> = Vec::new();
        let mut i: usize = 0;
        while i < keys.len()
            invariant
                0 <= i <= keys@.len(),
                keys@.no_duplicates(),
                forall|n: NodeKey| keys@.contains(n) <==> logical_graph_nodes(self.logical_graph).contains(n),
                forall|k: NodeKey| #[trigger] logical_graph_nodes(self.logical_graph).contains(k) ==> lk(key_logical(k)) == k,
                r@.len() == i,
                forall|j: int| 0 <= j < i ==> r@[j] == key_logical(#[trigger] keys@[j]),
            decreases keys@.len() - i,
        {
            r.push(key_to_logical(keys[i]));
            i = i + 1;
        }
        proof {
            assert forall|j: int, k: int| 0 <= j < k < r@.len() implies r@[j] != r@[k] by {
                assert(keys@.contains(keys@[j]) && keys@.contains(keys@[k]));
            }
            assert forall|t: LogicalTrackID| r@.contains(t) <==> self.nodes().contains(t) by {
                lemma_keys_round_trip(t.dirtrack.track, t);
                if r@.contains(t) {
                    let j = choose|j: int| 0 <= j < r@.len() && r@[j] == t;
                    assert(keys@.contains(keys@[j]));
                }
                if self.nodes().contains(t) {
                    assert(keys@.contains(lk(t)));
                    let j = choose|j: int| 0 <= j < keys@.len() && keys@[j] == lk(t);
                    assert(r@[j] == t);
                }
            }
        }
        r
    }

    /// The track of every logical track (a track appears once per logical track).
    pub fn iter_tracks(&self) -> (r: Vec<TrackID>)
        ensures
            forall|t: TrackID| r@.contains(t) <==> exists|l: LogicalTrackID| #[trigger] self.nodes().contains(l) && l.dirtrack.track == t,
    {
        let logicals = self.iter_logical_tracks();
        let mut r: Vec<TrackID> = Vec::new();
        let mut i: usize = 0;
        while i < logicals.len()
            invariant
                0 <= i <= logicals@.len(),
                r@.len() == i,
                forall|j: int| 0 <= j < i ==> r@[j] == (#[trigger] logicals@[j]).dirtrack.track,
            decreases logicals@.len() - i,
        {
            r.push(logicals[i].dirtrack.track);
            i = i + 1;
        }
        proof {
            assert forall|t: TrackID| r@.contains(t) <==> exists|l: LogicalTrackID| #[trigger] self.nodes().contains(l) && l.dirtrack.track == t by {
                if r@.contains(t) {
                    let j = choose|j: int| 0 <= j < r@.len() && r@[j] == t;
                    assert(logicals@.contains(logicals@[j]));
                    assert(self.nodes().contains(logicals@[j]));
                }
                if exists|l: LogicalTrackID| #[trigger] self.nodes().contains(l) && l.dirtrack.track == t {
                    let l = choose|l: LogicalTrackID| #[trigger] self.nodes().contains(l) && l.dirtrack.track == t;
                    assert(logicals@.contains(l));
                    let j = choose|j: int| 0 <= j < logicals@.len() && logicals@[j] == l;
                    assert(r@[j] == t);
                }
            }
        }
        r
    }

    /// Every logical connection, each once.
    pub fn iter_logical_connections(&self) -> (r: Vec<LogicalTrackConnectionID>)
        ensures
            r@.no_duplicates(),
            forall|c: LogicalTrackConnectionID| r@.contains(c) <==> self.edges().contains((c.from_track, c.to_track)),
    {
        proof {
            use_type_invariant(self);
        }
        let keys = digraph_all_edges(&self.logical_graph);
        let mut r: Vec<LogicalTrackConnectionID> = Vec::new();
        let mut i: usize = 0;
        while i < keys.len()
            invariant
                0 <= i <= keys@.len(),
                keys@.no_duplicates(),
                forall|e: (NodeKey, NodeKey)| keys@.contains(e) <==> logical_graph_edges(self.logical_graph).contains(e),
                forall|e: (NodeKey, NodeKey)| #[trigger] logical_graph_edges(self.logical_graph).contains(e) ==> lk(key_logical(e.0)) == e.0
                    && lk(key_logical(e.1)) == e.1,
                r@.len() == i,
                forall|j: int| 0 <= j < i ==> r@[j] == (LogicalTrackConnectionID {
                    from_track: key_logical((#[trigger] keys@[j]).0),
                    to_track: key_logical(keys@[j].1),
                }),
            decreases keys@.len() - i,
        {
            let (a, b) = keys[i];
            r.push(LogicalTrackConnectionID { from_track: key_to_logical(a), to_track: key_to_logical(b) });
            i = i + 1;
        }
        proof {
            assert forall|j: int, k: int| 0 <= j < k < r@.len() implies r@[j] != r@[k] by {
                assert(keys@.contains(keys@[j]) && keys@.contains(keys@[k]));
            }
            assert forall|c: LogicalTrackConnectionID| r@.contains(c) <==> self.edges().contains((c.from_track, c.to_track)) by {
                lemma_keys_round_trip(c.from_track.dirtrack.track, c.from_track);
                lemma_keys_round_trip(c.to_track.dirtrack.track, c.to_track);
                if r@.contains(c) {
                    let j = choose|j: int| 0 <= j < r@.len() && r@[j] == c;
                    assert(keys@.contains(keys@[j]));
                }
                if self.edges().contains((c.from_track, c.to_track)) {
                    assert(keys@.contains((lk(c.from_track), lk(c.to_track))));
                    let j = choose|j: int| 0 <= j < keys@.len() && keys@[j] == (lk(c.from_track), lk(c.to_track));
                    assert(r@[j] == c);
                }
            }
        }
        r
    }

    /// The physical connection of every logical connection (one appears once
    /// per logical connection).
    pub fn iter_connections(&self) -> (r: Vec<TrackConnectionID>)
        ensures
            forall|c: TrackConnectionID| r@.contains(c) <==> exists|e: (LogicalTrackID, LogicalTrackID)| #[trigger] self.edges().contains(e)
                && c == (TrackConnectionID { track_a: e.0.dirtrack, track_b: crate::layout_primitives::dirtrack_opposite(e.1.dirtrack) }),
    {
        let logicals = self.iter_logical_connections();
        let mut r: Vec<TrackConnectionID> = Vec::new();
        let mut i: usize = 0;
        while i < logicals.len()
            invariant
                0 <= i <= logicals@.len(),
                r@.len() == i,
                forall|j: int| 0 <= j < i ==> r@[j] == (TrackConnectionID {
                    track_a: (#[trigger] logicals@[j]).from_track.dirtrack,
                    track_b: crate::layout_primitives::dirtrack_opposite(logicals@[j].to_track.dirtrack),
                }),
            decreases logicals@.len() - i,
        {
            r.push(logicals[i].to_directed().to_connection());
            i = i + 1;
        }
        proof {
            assert forall|c: TrackConnectionID| r@.contains(c) <==> exists|e: (LogicalTrackID, LogicalTrackID)| #[trigger] self.edges().contains(e)
                && c == (TrackConnectionID { track_a: e.0.dirtrack, track_b: crate::layout_primitives::dirtrack_opposite(e.1.dirtrack) }) by {
                if r@.contains(c) {
                    let j = choose|j: int| 0 <= j < r@.len() && r@[j] == c;
                    assert(logicals@.contains(logicals@[j]));
                    assert(self.edges().contains((logicals@[j].from_track, logicals@[j].to_track)));
                }
                if exists|e: (LogicalTrackID, LogicalTrackID)| #[trigger] self.edges().contains(e)
                    && c == (TrackConnectionID { track_a: e.0.dirtrack, track_b: crate::layout_primitives::dirtrack_opposite(e.1.dirtrack) }) {
                    let e = choose|e: (LogicalTrackID, LogicalTrackID)| #[trigger] self.edges().contains(e)
                        && c == (TrackConnectionID { track_a: e.0.dirtrack, track_b: crate::layout_primitives::dirtrack_opposite(e.1.dirtrack) });
                    let lc = LogicalTrackConnectionID { from_track: e.0, to_track: e.1 };
                    assert(logicals@.contains(lc));
                    let j = choose|j: int| 0 <= j < logicals@.len() && logicals@[j] == lc;
                    assert(r@[j] == c);
                }
            }
        }
        r
    }

    /// The directed connections leaving a directed track with either
    /// facing, each once.
    pub fn get_directed_connections_from(&self, track: DirectedTrackID) -> (r: Vec<DirectedTrackConnectionID>)
        ensures
            r@.no_duplicates(),
            forall|c: DirectedTrackConnectionID| r@.contains(c) <==> c.from_track == track && leaves_to(self.edges(), track, c.to_track),
    {
        let lf = LogicalTrackID { dirtrack: track, facing: Facing::Forward };
        let lb = LogicalTrackID { dirtrack: track, facing: Facing::Backward };
        let fwd = self.iter_next_tracks(lf);
        let bwd = self.iter_next_tracks(lb);
        let mut nexts: Vec<LogicalTrackID> = Vec::new();
        let mut i: usize = 0;
        while i < fwd.len()
            invariant
                0 <= i <= fwd@.len(),
                nexts@ == fwd@.subrange(0, i as int),
            decreases fwd@.len() - i,
        {
            nexts.push(fwd[i]);
            assert(fwd@.subrange(0, i + 1) =~= fwd@.subrange(0, i as int).push(fwd@[i as int]));
            i = i + 1;
        }
        let mut k: usize = 0;
        while k < bwd.len()
            invariant
                0 <= k <= bwd@.len(),
                nexts@ == fwd@ + bwd@.subrange(0, k as int),
            decreases bwd@.len() - k,
        {
            nexts.push(bwd[k]);
            assert(fwd@ + bwd@.subrange(0, k + 1) =~= (fwd@ + bwd@.subrange(0, k as int)).push(bwd@[k as int]));
            k = k + 1;
        }
        proof {
            assert(fwd@.subrange(0, fwd@.len() as int) =~= fwd@);
            assert(bwd@.subrange(0, bwd@.len() as int) =~= bwd@);
            assert forall|n: LogicalTrackID| nexts@.contains(n) <==> (self.edges().contains((lf, n)) || self.edges().contains((lb, n))) by {
                if nexts@.contains(n) {
                    let j = choose|j: int| 0 <= j < nexts@.len() && nexts@[j] == n;
                    if j < fwd@.len() {
                        assert(fwd@[j] == n);
                        assert(fwd@.contains(n));
                    } else {
                        assert(bwd@[j - fwd@.len()] == n);
                        assert(bwd@.contains(n));
                    }
                }
                if self.edges().contains((lf, n)) {
                    assert(fwd@.contains(n));
                    let j = choose|j: int| 0 <= j < fwd@.len() && fwd@[j] == n;
                    assert(nexts@[j] == n);
                }
                if self.edges().contains((lb, n)) {
                    assert(bwd@.contains(n));
                    let j = choose|j: int| 0 <= j < bwd@.len() && bwd@[j] == n;
                    assert(nexts@[fwd@.len() + j] == n);
                }
            }
        }
        let mut connections: Vec<DirectedTrackConnectionID> = Vec::new();
        let mut m: usize = 0;
        while m < nexts.len()
            invariant
                0 <= m <= nexts@.len(),
                connections@.no_duplicates(),
                forall|c: DirectedTrackConnectionID| connections@.contains(c) <==> c.from_track == track && exists|j: int| 0 <= j < m
                    && (#[trigger] nexts@[j]).dirtrack == c.to_track,
            decreases nexts@.len() - m,
        {
            let c = DirectedTrackConnectionID { from_track: track, to_track: nexts[m].dirtrack };
            let ghost prev = connections@;
            let present = contains_directed(&connections, c);
            if !present {
                connections.push(c);
            }
            proof {
                assert forall|d: DirectedTrackConnectionID| prev.contains(d) implies connections@.contains(d) by {
                    let idx = choose|idx: int| 0 <= idx < prev.len() && prev[idx] == d;
                    assert(connections@[idx] == d);
                }
                if !present {
                    assert(connections@[prev.len() as int] == c);
                    assert forall|d: DirectedTrackConnectionID| connections@.contains(d) implies prev.contains(d) || d == c by {
                        let idx = choose|idx: int| 0 <= idx < connections@.len() && connections@[idx] == d;
                        if idx < prev.len() {
                            assert(prev[idx] == d);
                        }
                    }
                    assert forall|a: int, b: int| 0 <= a < b < connections@.len() implies connections@[a] != connections@[b] by {
                        if b == prev.len() {
                            assert(prev.contains(prev[a]));
                        }
                    }
                } else {
                    assert(prev.contains(c));
                }
                assert forall|d: DirectedTrackConnectionID| connections@.contains(d) <==> d.from_track == track && exists|j: int| 0 <= j < m + 1
                    && (#[trigger] nexts@[j]).dirtrack == d.to_track by {
                    if connections@.contains(d) {
                        if prev.contains(d) {
                            let j = choose|j: int| 0 <= j < m && (#[trigger] nexts@[j]).dirtrack == d.to_track;
                            assert(0 <= j < m + 1);
                        } else {
                            assert(d == c);
                            assert(nexts@[m as int].dirtrack == d.to_track);
                        }
                    }
                    if d.from_track == track && exists|j: int| 0 <= j < m + 1 && (#[trigger] nexts@[j]).dirtrack == d.to_track {
                        let j = choose|j: int| 0 <= j < m + 1 && (#[trigger] nexts@[j]).dirtrack == d.to_track;
                        if j < m {
                            assert(prev.contains(d));
                        } else {
                            assert(d == c);
                        }
                    }
                }
            }
            m = m + 1;
        }
        proof {
            assert forall|c: DirectedTrackConnectionID| connections@.contains(c) <==> c.from_track == track && leaves_to(self.edges(), track, c.to_track) by {
                if connections@.contains(c) {
                    let j = choose|j: int| 0 <= j < nexts@.len() && (#[trigger] nexts@[j]).dirtrack == c.to_track;
                    assert(nexts@.contains(nexts@[j]));
                    assert(self.edges().contains((lf, nexts@[j])) || self.edges().contains((lb, nexts@[j])));
                }
                if c.from_track == track && leaves_to(self.edges(), track, c.to_track) {
                    let n = choose|n: LogicalTrackID| (#[trigger] self.edges().contains((LogicalTrackID { dirtrack: track, facing: Facing::Forward }, n))
                        || self.edges().contains((LogicalTrackID { dirtrack: track, facing: Facing::Backward }, n))) && n.dirtrack == c.to_track;
                    assert(nexts@.contains(n));
                    let j = choose|j: int| 0 <= j < nexts@.len() && nexts@[j] == n;
                    assert(nexts@[j].dirtrack == c.to_track);
                }
            }
        }
        connections
    }
}

/// Some logical connection leads from the directed track (with either
/// facing) onto `to`.
pub open spec fn leaves_to(edges: Set<(LogicalTrackID, LogicalTrackID)>, track: DirectedTrackID, to: DirectedTrackID) -> bool {
    exists|n: LogicalTrackID| (#[trigger] edges.contains((LogicalTrackID { dirtrack: track, facing: Facing::Forward }, n))
        || edges.contains((LogicalTrackID { dirtrack: track, facing: Facing::Backward }, n))) && n.dirtrack == to
}

fn contains_directed(v: &Vec<DirectedTrackConnectionID>, c: DirectedTrackConnectionID) -> (r: bool)
    ensures
        r == v@.contains(c),
{
    let mut i: usize = 0;
    while i < v.len()
        invariant
            0 <= i <= v@.len(),
            forall|k: int| 0 <= k < i ==> v@[k] != c,
        decreases v@.len() - i,
    {
        if v[i] == c {
            assert(v@[i as int] == c);
            return true;
        }
        i = i + 1;
    }
    false
}

/// Follows the logical tracks from a start as long as the way is
/// unambiguous (or, when asked to, always taking one of the branches).
pub struct ConnectionIterator<'a> {
    pub current_track: LogicalTrackID,
    pub continue_at_fork: bool,
    pub connections: &'a Connections,
}

impl<'a> ConnectionIterator<'a> {
    /// The next logical track: the only successor of the current one, or
    /// at a fork the first of them when continuing at forks; `None` at a
    /// dead end or at a fork otherwise.
    pub fn next(&mut self) -> (r: Option<LogicalTrackID>)
        ensures
            final(self).connections == old(self).connections,
            final(self).continue_at_fork == old(self).continue_at_fork,
            ({
                let ns = old(self).connections.next_order(old(self).current_track);
                &&& ns.len() == 0 ==> r is None
                &&& ns.len() == 1 ==> r == Some(ns[0])
                &&& ns.len() >= 2 ==> r == (if old(self).continue_at_fork { Some(ns[0]) } else { None })
            }),
            match r {
                Some(t) => final(self).current_track == t && old(self).connections.edges().contains((old(self).current_track, t))
                    && (old(self).continue_at_fork || forall|u: LogicalTrackID| #[trigger] old(self).connections.edges().contains((old(self).current_track, u)) ==> u == t),
                None => final(self).current_track == old(self).current_track && ((forall|u: LogicalTrackID| !#[trigger] old(self).connections.edges().contains((old(self).current_track, u)))
                    || (!old(self).continue_at_fork && exists|u: LogicalTrackID, v: LogicalTrackID| u != v && #[trigger] old(self).connections.edges().contains((old(self).current_track, u))
                    && #[trigger] old(self).connections.edges().contains((old(self).current_track, v)))),
            },
    {
        let next_tracks = self.connections.iter_next_tracks(self.current_track);
        if next_tracks.len() == 0 {
            proof {
                assert forall|u: LogicalTrackID| !#[trigger] old(self).connections.edges().contains((old(self).current_track, u)) by {
                    if old(self).connections.edges().contains((old(self).current_track, u)) {
                        assert(next_tracks@.contains(u));
                    }
                }
            }
            None
        } else if next_tracks.len() == 1 {
            let t = next_tracks[0];
            proof {
                assert(next_tracks@.contains(t));
                assert forall|u: LogicalTrackID| #[trigger] old(self).connections.edges().contains((old(self).current_track, u)) implies u == t by {
                    assert(next_tracks@.contains(u));
                }
            }
            self.current_track = t;
            Some(t)
        } else if self.continue_at_fork {
            let t = next_tracks[0];
            assert(next_tracks@.contains(t));
            self.current_track = t;
            Some(t)
        } else {
            proof {
                assert(next_tracks@.contains(next_tracks@[0]) && next_tracks@.contains(next_tracks@[1]));
                assert(next_tracks@[0] != next_tracks@[1]);
            }
            None
        }
    }
}

impl Connections {
    /// Follows the layout from a logical track while the way is unambiguous.
    pub fn iter_from_track<'a>(&'a self, track: LogicalTrackID) -> (r: ConnectionIterator<'a>)
        ensures
            r.current_track == track,
            !r.continue_at_fork,
            r.connections == self,
    {
        ConnectionIterator { current_track: track, continue_at_fork: false, connections: self }
    }
}
} // verus!
