//! The directed graph of logical tracks (a directed track and the train's
//! facing) used for path finding. Normal edges follow the physical
//! connections and keep the facing; flip edges at the block ends let a train
//! reverse there.
use vstd::prelude::*;
use petgraph::graphmap::DiGraphMap;
use crate::common::graph::{
    digraph_add_edge, digraph_edge_count, digraph_new, digraph_shortest_path, logical_graph_edges, NodeKey,
    MAX_LOGICAL_EDGES,
};
use crate::common::block::{enter_track, BlockData};
use crate::common::connection::{lists_edges, ConnectionGraph, TrackKey};
pub use crate::common::graph::{is_shortest_walk, is_walk, reachable};
use crate::common::route::BlockDataMap;
use crate::common::layout_primitives::{
    dirtrack_opposite, logical_reversed, BlockDirection, BlockID, DirectedTrackID, Facing, LogicalTrackID, Orientation,
    TrackConnectionID, TrackDirection, TrackID, CellID,
};

verus! {


pub open spec fn orientation_code(o: Orientation) -> u8 {
    match o {
        Orientation::NS => 0,
        Orientation::NE => 1,
        Orientation::NW => 2,
        Orientation::SE => 3,
        Orientation::SW => 4,
        Orientation::EW => 5,
    }
}

pub open spec fn code_orientation(c: u8) -> Orientation {
    if c == 0 {
        Orientation::NS
    } else if c == 1 {
        Orientation::NE
    } else if c == 2 {
        Orientation::NW
    } else if c == 3 {
        Orientation::SE
    } else if c == 4 {
        Orientation::SW
    } else {
        Orientation::EW
    }
}

pub open spec fn direction_code(d: TrackDirection) -> u8 {
    match d {
        TrackDirection::First => 0,
        TrackDirection::Last => 1,
    }
}

pub open spec fn facing_code(f: Facing) -> u8 {
    match f {
        Facing::Forward => 0,
        Facing::Backward => 1,
    }
}

/// The key of a logical track.
pub open spec fn node_key(t: LogicalTrackID) -> NodeKey {
    (
        t.directed.track.cell.x,
        t.directed.track.cell.y,
        t.directed.track.cell.l,
        orientation_code(t.directed.track.orientation),
        direction_code(t.directed.direction),
        facing_code(t.facing),
    )
}

/// The logical track a key stands for.
pub open spec fn key_node(k: NodeKey) -> LogicalTrackID {
    LogicalTrackID {
        directed: DirectedTrackID {
            track: TrackID { cell: CellID { x: k.0, y: k.1, l: k.2 }, orientation: code_orientation(k.3) },
            direction: if k.4 == 0 { TrackDirection::First } else { TrackDirection::Last },
        },
        facing: if k.5 == 0 { Facing::Forward } else { Facing::Backward },
    }
}

pub open spec fn key_valid(k: NodeKey) -> bool {
    node_key(key_node(k)) == k
}

/// Keys tell logical tracks apart: decoding a key gives its track back.
pub proof fn lemma_node_key_round_trip(t: LogicalTrackID)
    ensures
        key_node(node_key(t)) == t,
        key_valid(node_key(t)),
{
}

/// Directed graph of logical tracks.
pub struct LogicalGraph {
    graph: DiGraphMap<NodeKey, ()>,
}

impl LogicalGraph {
    pub closed spec fn key_edges(&self) -> Set<(NodeKey, NodeKey)> {
        logical_graph_edges(self.graph)
    }

    #[verifier::type_invariant]
    closed spec fn wf(&self) -> bool {
        &&& self.key_edges().finite()
        &&& self.key_edges().len() <= MAX_LOGICAL_EDGES
        &&& forall|e: (NodeKey, NodeKey)| #[trigger] self.key_edges().contains(e) ==> key_valid(e.0) && key_valid(e.1)
    }

    /// The edges of the graph.
    pub closed spec fn view(&self) -> Set<(LogicalTrackID, LogicalTrackID)> {
        Set::new(|e: (LogicalTrackID, LogicalTrackID)| self.key_edges().contains((node_key(e.0), node_key(e.1))))
    }

    /// Number of edges.
    pub closed spec fn size(&self) -> nat {
        self.key_edges().len()
    }

    /// The number of edges.
    pub fn edge_count(&self) -> (r: usize)
        ensures
            r == self.size(),
    {
        digraph_edge_count(&self.graph)
    }

    /// A graph without edges.
    pub fn new() -> (r: Self)
        ensures
            r@ == Set::<(LogicalTrackID, LogicalTrackID)>::empty(),
            r.size() == 0,
    {
        let r = LogicalGraph { graph: digraph_new() };
        assert(r@ =~= Set::<(LogicalTrackID, LogicalTrackID)>::empty());
        r
    }

    fn add_edge(&mut self, a: LogicalTrackID, b: LogicalTrackID)
        requires
            old(self).size() < MAX_LOGICAL_EDGES,
        ensures
            final(self)@ == old(self)@.insert((a, b)),
            final(self).size() <= old(self).size() + 1,
    {
        proof {
            use_type_invariant(&*self);
        }
        let ka = logical_key(a);
        let kb = logical_key(b);
        let ghost before = self.key_edges();
        let mut graph = digraph_new();
        std::mem::swap(&mut graph, &mut self.graph);
        let _ = digraph_add_edge(&mut graph, ka, kb);
        proof {
            let after = logical_graph_edges(graph);
            assert(after == before.insert((ka, kb)));
            lemma_node_key_round_trip(a);
            lemma_node_key_round_trip(b);
        }
        self.graph = graph;
        proof {
            assert forall|e: (LogicalTrackID, LogicalTrackID)| #[trigger] self@.contains(e) == old(self)@.insert((a, b)).contains(e) by {
                lemma_node_key_round_trip(e.0);
                lemma_node_key_round_trip(e.1);
            }
            assert(self@ =~= old(self)@.insert((a, b)));
        }
    }

    /// A shortest path (fewest edges) from `start` to `target`, or `None`
    /// when there is none.
    pub fn shortest_path(&self, start: LogicalTrackID, target: LogicalTrackID) -> (r: Option<Vec<LogicalTrackID>>)
        ensures
            match r {
                Some(path) => is_shortest_walk(self@, path@, start, target),
                None => !reachable(self@, start, target),
            },
    {
        proof {
            use_type_invariant(self);
            lemma_node_key_round_trip(start);
            lemma_node_key_round_trip(target);
        }
        let ks = logical_key(start);
        let kt = logical_key(target);
        match digraph_shortest_path(&self.graph, ks, kt) {
            Some((_cost, keys)) => {
                let mut path: Vec<LogicalTrackID> = Vec::new();
                let mut i: usize = 0;
                while i < keys.len()
                    invariant
                        0 <= i <= keys@.len(),
                        is_walk(self.key_edges(), keys@, ks, kt),
                        forall|e: (NodeKey, NodeKey)| #[trigger] self.key_edges().contains(e) ==> key_valid(e.0) && key_valid(e.1),
                        key_valid(ks),
                        path@.len() == i,
                        forall|j: int| 0 <= j < i ==> path@[j] == key_node(#[trigger] keys@[j]) && key_valid(keys@[j]),
                    decreases keys@.len() - i,
                {
                    let k = keys[i];
                    proof {
                        if i > 0 {
                            let j: int = i - 1;
                            assert(self.key_edges().contains((keys@[j], keys@[j + 1])));
                        }
                    }
                    path.push(key_logical(k));
                    i = i + 1;
                }
                proof {
                    self.lemma_walk_from_keys(keys@, path@, start, target);
                }
                Some(path)
            },
            None => {
                proof {
                    if reachable(self@, start, target) {
                        let w = choose|w: Seq<LogicalTrackID>| #[trigger] is_walk(self@, w, start, target);
                        self.lemma_keys_from_walk(w, start, target);
                    }
                }
                None
            },
        }
    }

    proof fn lemma_keys_from_walk(&self, w: Seq<LogicalTrackID>, from: LogicalTrackID, to: LogicalTrackID)
        requires
            is_walk(self@, w, from, to),
        ensures
            is_walk(self.key_edges(), w.map_values(|t: LogicalTrackID| node_key(t)), node_key(from), node_key(to)),
    {
        let kw = w.map_values(|t: LogicalTrackID| node_key(t));
        assert forall|i: int| 0 <= i < kw.len() - 1 implies #[trigger] self.key_edges().contains((kw[i], kw[i + 1])) by {
            assert(self@.contains((w[i], w[i + 1])));
        }
    }

    proof fn lemma_walk_from_keys(&self, keys: Seq<NodeKey>, path: Seq<LogicalTrackID>, from: LogicalTrackID, to: LogicalTrackID)
        requires
            is_shortest_walk(self.key_edges(), keys, node_key(from), node_key(to)),
            path.len() == keys.len(),
            forall|j: int| 0 <= j < keys.len() ==> path[j] == key_node(#[trigger] keys[j]) && key_valid(keys[j]),
        ensures
            is_shortest_walk(self@, path, from, to),
    {
        lemma_node_key_round_trip(from);
        lemma_node_key_round_trip(to);
        assert(path[0] == key_node(keys[0]));
        assert(path.last() == key_node(keys[keys.len() - 1]));
        assert forall|i: int| 0 <= i < path.len() - 1 implies #[trigger] self@.contains((path[i], path[i + 1])) by {
            assert(self.key_edges().contains((keys[i], keys[i + 1])));
            assert(node_key(path[i]) == keys[i]);
            assert(node_key(path[i + 1]) == keys[i + 1]);
        }
        assert forall|v: Seq<LogicalTrackID>| #[trigger] is_walk(self@, v, from, to) implies path.len() <= v.len() by {
            self.lemma_keys_from_walk(v, from, to);
            let kv = v.map_values(|t: LogicalTrackID| node_key(t));
            assert(is_walk(self.key_edges(), kv, node_key(from), node_key(to)));
        }
    }
}

// ---------------------------------------------------------------------------
// Building the graph
// ---------------------------------------------------------------------------

/// The four normal edges of a physical connection: crossing it from either
/// side, with either facing, keeping the facing.
pub open spec fn connection_edges(c: TrackConnectionID) -> Set<(LogicalTrackID, LogicalTrackID)> {
    set![
        (LogicalTrackID { directed: c.track_a, facing: Facing::Forward }, LogicalTrackID { directed: dirtrack_opposite(c.track_b), facing: Facing::Forward }),
        (LogicalTrackID { directed: c.track_b, facing: Facing::Forward }, LogicalTrackID { directed: dirtrack_opposite(c.track_a), facing: Facing::Forward }),
        (LogicalTrackID { directed: c.track_a, facing: Facing::Backward }, LogicalTrackID { directed: dirtrack_opposite(c.track_b), facing: Facing::Backward }),
        (LogicalTrackID { directed: c.track_b, facing: Facing::Backward }, LogicalTrackID { directed: dirtrack_opposite(c.track_a), facing: Facing::Backward }),
    ]
}

/// The four flip edges of a block section: at its last track and at its
/// first track (seen from the far side), each way between a logical track
/// and its reverse. None for an empty section.
pub open spec fn flip_edges(section: Seq<DirectedTrackID>) -> Set<(LogicalTrackID, LogicalTrackID)> {
    if section.len() == 0 {
        Set::empty()
    } else {
        let tn = LogicalTrackID { directed: section.last(), facing: Facing::Forward };
        let t0 = LogicalTrackID { directed: dirtrack_opposite(section[0]), facing: Facing::Forward };
        set![(tn, logical_reversed(tn)), (logical_reversed(tn), tn), (t0, logical_reversed(t0)), (logical_reversed(t0), t0)]
    }
}

/// The edges of the logical graph of a set of connections and a list of blocks.
pub open spec fn logical_edges(conns: Set<TrackConnectionID>, blocks: Seq<(BlockID, BlockData)>) -> Set<(LogicalTrackID, LogicalTrackID)> {
    Set::new(|e: (LogicalTrackID, LogicalTrackID)|
        (exists|c: TrackConnectionID| conns.contains(c) && #[trigger] connection_edges(c).contains(e))
        || (exists|i: int| 0 <= i < blocks.len() && #[trigger] flip_edges(blocks[i].1.section@).contains(e)))
}

proof fn lemma_logical_edges_add_connection(conns: Set<TrackConnectionID>, c: TrackConnectionID)
    ensures
        logical_edges(conns.insert(c), Seq::empty()) == logical_edges(conns, Seq::empty()).union(connection_edges(c)),
{
    assert(logical_edges(conns.insert(c), Seq::empty()) =~= logical_edges(conns, Seq::empty()).union(connection_edges(c)));
}

proof fn lemma_logical_edges_add_block(conns: Set<TrackConnectionID>, blocks: Seq<(BlockID, BlockData)>, b: (BlockID, BlockData))
    ensures
        logical_edges(conns, blocks.push(b)) == logical_edges(conns, blocks).union(flip_edges(b.1.section@)),
{
    let l = logical_edges(conns, blocks.push(b));
    let r = logical_edges(conns, blocks).union(flip_edges(b.1.section@));
    assert forall|e: (LogicalTrackID, LogicalTrackID)| l.contains(e) == r.contains(e) by {
        if l.contains(e) && !(exists|c: TrackConnectionID| conns.contains(c) && #[trigger] connection_edges(c).contains(e)) {
            let i = choose|i: int| 0 <= i < blocks.push(b).len() && #[trigger] flip_edges(blocks.push(b)[i].1.section@).contains(e);
            if i < blocks.len() {
                assert(blocks.push(b)[i] == blocks[i]);
            }
        }
        if r.contains(e) && !(exists|c: TrackConnectionID| conns.contains(c) && #[trigger] connection_edges(c).contains(e)) {
            if flip_edges(b.1.section@).contains(e) {
                assert(blocks.push(b)[blocks.len() as int] == b);
            } else {
                let i = choose|i: int| 0 <= i < blocks.len() && #[trigger] flip_edges(blocks[i].1.section@).contains(e);
                assert(blocks.push(b)[i] == blocks[i]);
            }
        }
    }
    assert(l =~= r);
}

impl LogicalGraph {
    fn add_connection_edges(&mut self, c: TrackConnectionID)
        requires
            old(self).size() + 4 <= MAX_LOGICAL_EDGES,
        ensures
            final(self)@ == old(self)@.union(connection_edges(c)),
            final(self).size() <= old(self).size() + 4,
    {
        self.add_edge(LogicalTrackID::new(c.track_a, Facing::Forward), LogicalTrackID::new(c.track_b.opposite(), Facing::Forward));
        self.add_edge(LogicalTrackID::new(c.track_b, Facing::Forward), LogicalTrackID::new(c.track_a.opposite(), Facing::Forward));
        self.add_edge(LogicalTrackID::new(c.track_a, Facing::Backward), LogicalTrackID::new(c.track_b.opposite(), Facing::Backward));
        self.add_edge(LogicalTrackID::new(c.track_b, Facing::Backward), LogicalTrackID::new(c.track_a.opposite(), Facing::Backward));
        proof {
            assert(self@ =~= old(self)@.union(connection_edges(c)));
        }
    }
}

/// Whether a train may turn around at both ends of a block with this
/// section: at the far end, from entering it aligned facing forward to
/// entering it against facing backward, and back; at the near end, from
/// entering it against facing forward to entering it aligned facing
/// backward, and back.
pub open spec fn turns_at_ends(edges: Set<(LogicalTrackID, LogicalTrackID)>, s: Seq<DirectedTrackID>) -> bool {
    &&& edges.contains((enter_track(s, BlockDirection::Aligned, Facing::Forward), enter_track(s, BlockDirection::Against, Facing::Backward)))
    &&& edges.contains((enter_track(s, BlockDirection::Against, Facing::Backward), enter_track(s, BlockDirection::Aligned, Facing::Forward)))
    &&& edges.contains((enter_track(s, BlockDirection::Against, Facing::Forward), enter_track(s, BlockDirection::Aligned, Facing::Backward)))
    &&& edges.contains((enter_track(s, BlockDirection::Aligned, Facing::Backward), enter_track(s, BlockDirection::Against, Facing::Forward)))
}

/// A train entering a block may turn around at either of its ends: the
/// logical graph links the two ways of standing at each end of every block
/// with a non-empty section, in both directions.
pub proof fn lemma_trains_turn_at_block_ends(conns: Set<TrackConnectionID>, blocks: Seq<(BlockID, BlockData)>, i: int)
    requires
        0 <= i < blocks.len(),
        blocks[i].1.section@.len() > 0,
    ensures
        turns_at_ends(logical_edges(conns, blocks), blocks[i].1.section@),
{
    let s = blocks[i].1.section@;
    let f = flip_edges(s);
    let e1 = (enter_track(s, BlockDirection::Aligned, Facing::Forward), enter_track(s, BlockDirection::Against, Facing::Backward));
    let e2 = (enter_track(s, BlockDirection::Against, Facing::Backward), enter_track(s, BlockDirection::Aligned, Facing::Forward));
    let e3 = (enter_track(s, BlockDirection::Against, Facing::Forward), enter_track(s, BlockDirection::Aligned, Facing::Backward));
    let e4 = (enter_track(s, BlockDirection::Aligned, Facing::Backward), enter_track(s, BlockDirection::Against, Facing::Forward));
    assert(f.contains(e1));
    assert(f.contains(e2));
    assert(f.contains(e3));
    assert(f.contains(e4));
    assert(logical_edges(conns, blocks).contains(e1));
    assert(logical_edges(conns, blocks).contains(e2));
    assert(logical_edges(conns, blocks).contains(e3));
    assert(logical_edges(conns, blocks).contains(e4));
}

/// Builds the logical graph: the normal edges of every connection and the
/// flip edges at both ends of every block with a non-empty section.
pub fn build_logical_graph(conn_graph: &ConnectionGraph, blocks: &BlockDataMap) -> (r: LogicalGraph)
    requires
        conn_graph@.dom().len() + blocks.entries_view().len() <= MAX_LOGICAL_EDGES / 4,
    ensures
        r@ == logical_edges(conn_graph@.values(), blocks.entries_view()),
        forall|i: int| 0 <= i < blocks.entries_view().len() && #[trigger] blocks.entries_view()[i].1.section@.len() > 0
            ==> turns_at_ends(r@, blocks.entries_view()[i].1.section@),
{
    let conns = conn_graph.connections();
    let mut graph = LogicalGraph::new();
    proof {
        let slots = choose|slots: Seq<(TrackKey, TrackKey)>| {
            &&& slots.len() == conns@.len()
            &&& slots.no_duplicates()
            &&& forall|i: int| 0 <= i < slots.len() ==> conn_graph@.contains_key(#[trigger] slots[i]) && conns@[i] == conn_graph@[slots[i]]
            &&& forall|k: (TrackKey, TrackKey)| conn_graph@.contains_key(k) ==> #[trigger] slots.contains(k)
        };
        assert(slots.to_set() =~= conn_graph@.dom());
        slots.unique_seq_to_set();
        assert(conns@.to_set() =~= conn_graph@.values()) by {
            assert forall|v: TrackConnectionID| conn_graph@.values().contains(v) implies conns@.to_set().contains(v) by {
                let k = choose|k: (TrackKey, TrackKey)| conn_graph@.contains_key(k) && conn_graph@[k] == v;
                assert(slots.contains(k));
                let i = choose|i: int| 0 <= i < slots.len() && slots[i] == k;
                assert(conns@[i] == v);
            }
            assert forall|v: TrackConnectionID| conns@.to_set().contains(v) implies conn_graph@.values().contains(v) by {
                let i = choose|i: int| 0 <= i < conns@.len() && conns@[i] == v;
                assert(conn_graph@.contains_key(slots[i]));
            }
        }
        assert(conns@.subrange(0, 0).to_set() =~= Set::<TrackConnectionID>::empty());
        assert(graph@ =~= logical_edges(Set::empty(), Seq::empty()));
    }
    let n = conns.len();
    let mut i: usize = 0;
    while i < n
        invariant
            n == conns@.len(),
            n + blocks.entries_view().len() <= MAX_LOGICAL_EDGES / 4,
            0 <= i <= n,
            graph.size() <= 4 * i,
            graph@ == logical_edges(conns@.subrange(0, i as int).to_set(), Seq::empty()),
        decreases n - i,
    {
        let c = conns[i];
        graph.add_connection_edges(c);
        proof {
            assert(conns@.subrange(0, i + 1) =~= conns@.subrange(0, i as int).push(c));
            conns@.subrange(0, i as int).lemma_push_to_set_commute(c);
            lemma_logical_edges_add_connection(conns@.subrange(0, i as int).to_set(), c);
        }
        i = i + 1;
    }
    proof {
        assert(conns@.subrange(0, n as int) =~= conns@);
        assert(conns@.to_set() =~= conn_graph@.values());
        assert(blocks.entries_view().subrange(0, 0) =~= Seq::<(BlockID, BlockData)>::empty());
    }
    let m = blocks.len();
    let mut j: usize = 0;
    while j < m
        invariant
            m == blocks.entries_view().len(),
            n + m <= MAX_LOGICAL_EDGES / 4,
            0 <= j <= m,
            graph.size() <= 4 * n + 4 * j,
            graph@ == logical_edges(conn_graph@.values(), blocks.entries_view().subrange(0, j as int)),
        decreases m - j,
    {
        let entry = blocks.entry(j);
        let section = &entry.1.section;
        if section.len() > 0 {
            let tn = LogicalTrackID::new(section[section.len() - 1], Facing::Forward);
            let t0 = LogicalTrackID::new(section[0].opposite(), Facing::Forward);
            graph.add_edge(tn, tn.reversed());
            graph.add_edge(tn.reversed(), tn);
            graph.add_edge(t0, t0.reversed());
            graph.add_edge(t0.reversed(), t0);
        }
        proof {
            let prefix = blocks.entries_view().subrange(0, j as int);
            assert(blocks.entries_view().subrange(0, j + 1) =~= prefix.push(*entry));
            lemma_logical_edges_add_block(conn_graph@.values(), prefix, *entry);
        }
        j = j + 1;
    }
    proof {
        assert(blocks.entries_view().subrange(0, m as int) =~= blocks.entries_view());
        assert forall|i: int| 0 <= i < blocks.entries_view().len() && #[trigger] blocks.entries_view()[i].1.section@.len()
            > 0 implies turns_at_ends(graph@, blocks.entries_view()[i].1.section@) by {
            lemma_trains_turn_at_block_ends(conn_graph@.values(), blocks.entries_view(), i);
        }
    }
    graph
}

/// The key of a logical track.
pub fn logical_key(t: LogicalTrackID) -> (r: NodeKey)
    ensures
        r == node_key(t),
{
    let o: u8 = match t.directed.track.orientation {
        Orientation::NS => 0,
        Orientation::NE => 1,
        Orientation::NW => 2,
        Orientation::SE => 3,
        Orientation::SW => 4,
        Orientation::EW => 5,
    };
    let d: u8 = match t.directed.direction {
        TrackDirection::First => 0,
        TrackDirection::Last => 1,
    };
    let f: u8 = match t.facing {
        Facing::Forward => 0,
        Facing::Backward => 1,
    };
    let c = t.directed.track.cell;
    (c.x, c.y, c.l, o, d, f)
}

/// The logical track a key stands for.
pub fn key_logical(k: NodeKey) -> (r: LogicalTrackID)
    ensures
        r == key_node(k),
{
    let orientation = if k.3 == 0 {
        Orientation::NS
    } else if k.3 == 1 {
        Orientation::NE
    } else if k.3 == 2 {
        Orientation::NW
    } else if k.3 == 3 {
        Orientation::SE
    } else if k.3 == 4 {
        Orientation::SW
    } else {
        Orientation::EW
    };
    let direction = if k.4 == 0 { TrackDirection::First } else { TrackDirection::Last };
    let facing = if k.5 == 0 { Facing::Forward } else { Facing::Backward };
    LogicalTrackID {
        directed: DirectedTrackID {
            track: TrackID { cell: CellID { x: k.0, y: k.1, l: k.2 }, orientation },
            direction,
        },
        facing,
    }
}

} // verus!
