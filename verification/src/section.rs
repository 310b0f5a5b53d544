//! Sections: runs of tracks that a train travels, as directed tracks or as
//! logical tracks, with the connections between consecutive ones.
use vstd::prelude::*;
use crate::connections::Connections;
use crate::layout_primitives::{
    block_new, connection_to_directed, directed_to_logical, dirtrack_opposite, BlockID, ConnectionDirection,
    DirectedTrackConnectionID, DirectedTrackID, Facing, LogicalTrackConnectionID, LogicalTrackID,
    TrackConnectionID, TrackDirection, TrackID,
};

verus! {

/// A run of tracks.
#[derive(Debug)]
pub struct TrackSection {
    pub tracks: Vec<TrackID>,
}

/// A run of logical tracks.
#[derive(Debug)]
pub struct LogicalSection {
    pub tracks: Vec<LogicalTrackID>,
}

/// A run of directed tracks.
#[derive(Debug)]
pub struct DirectedSection {
    pub tracks: Vec<DirectedTrackID>,
}

/// The connections between consecutive elements.
pub open spec fn windows<T>(s: Seq<T>) -> Seq<(T, T)> {
    Seq::new(if s.len() == 0 { 0 } else { (s.len() - 1) as nat }, |i: int| (s[i], s[i + 1]))
}

/// Positions of `s` whose element is one of `marks`.
pub open spec fn mark_indices(s: Seq<LogicalTrackID>, marks: Seq<LogicalTrackID>) -> Seq<int>
    decreases s.len(),
{
    if s.len() == 0 {
        Seq::empty()
    } else if marks.contains(s.last()) {
        mark_indices(s.drop_last(), marks).push(s.len() - 1)
    } else {
        mark_indices(s.drop_last(), marks)
    }
}

/// The pieces a section splits into at marked tracks: each runs from the
/// previous mark (or the start) to the next mark, both included, and comes
/// with that mark; whatever follows the last mark is dropped.
pub open spec fn split_pieces(s: Seq<LogicalTrackID>, marks: Seq<LogicalTrackID>) -> Seq<(Seq<LogicalTrackID>, LogicalTrackID)> {
    let idx = mark_indices(s, marks);
    Seq::new(idx.len(), |k: int| (s.subrange(if k == 0 { 0 } else { idx[k - 1] }, idx[k] + 1), s[idx[k]]))
}

pub proof fn lemma_mark_indices_bounds(s: Seq<LogicalTrackID>, marks: Seq<LogicalTrackID>)
    ensures
        forall|k: int| 0 <= k < mark_indices(s, marks).len() ==> 0 <= #[trigger] mark_indices(s, marks)[k] < s.len()
            && marks.contains(s[mark_indices(s, marks)[k]]),
        forall|k: int, j: int| 0 <= k < j < mark_indices(s, marks).len() ==> mark_indices(s, marks)[k] < mark_indices(s, marks)[j],
        forall|p: int| 0 <= p < s.len() && marks.contains(s[p]) ==> exists|k: int| 0 <= k < mark_indices(s, marks).len() && #[trigger] mark_indices(s, marks)[k] == p,
    decreases s.len(),
{
    if s.len() > 0 {
        let t = s.drop_last();
        let prev = mark_indices(t, marks);
        lemma_mark_indices_bounds(t, marks);
        if marks.contains(s.last()) {
            let cur = prev.push(s.len() - 1);
            assert(mark_indices(s, marks) == cur);
            assert forall|k: int| 0 <= k < cur.len() implies 0 <= #[trigger] cur[k] < s.len() && marks.contains(s[cur[k]]) by {
                if k < prev.len() {
                    assert(cur[k] == prev[k]);
                    assert(t[prev[k]] == s[prev[k]]);
                }
            }
            assert forall|k: int, j: int| 0 <= k < j < cur.len() implies cur[k] < cur[j] by {
                assert(cur[k] == prev[k]);
                if j < prev.len() {
                    assert(cur[j] == prev[j]);
                }
            }
            assert forall|p: int| 0 <= p < s.len() && marks.contains(s[p]) implies exists|k: int| 0 <= k < cur.len() && #[trigger] cur[k] == p by {
                if p < s.len() - 1 {
                    assert(t[p] == s[p]);
                    let k = choose|k: int| 0 <= k < prev.len() && #[trigger] prev[k] == p;
                    assert(cur[k] == p);
                } else {
                    assert(cur[prev.len() as int] == p);
                }
            }
        } else {
            assert(mark_indices(s, marks) == prev);
            assert forall|k: int| 0 <= k < prev.len() implies 0 <= #[trigger] prev[k] < s.len() && marks.contains(s[prev[k]]) by {
                assert(t[prev[k]] == s[prev[k]]);
            }
            assert forall|p: int| 0 <= p < s.len() && marks.contains(s[p]) implies exists|k: int| 0 <= k < prev.len() && #[trigger] prev[k] == p by {
                assert(p < s.len() - 1);
                assert(t[p] == s[p]);
            }
        }
    }
}

fn copy_logicals(v: &Vec<LogicalTrackID>, lo: usize, hi: usize) -> (r: Vec<LogicalTrackID>)
    requires
        lo <= hi <= v@.len(),
    ensures
        r@ == v@.subrange(lo as int, hi as int),
{
    let mut r: Vec<LogicalTrackID> = Vec::new();
    let mut i: usize = lo;
    while i < hi
        invariant
            lo <= i <= hi <= v@.len(),
            r@ == v@.subrange(lo as int, i as int),
        decreases hi - i,
    {
        r.push(v[i]);
        assert(v@.subrange(lo as int, i + 1) =~= v@.subrange(lo as int, i as int).push(v@[i as int]));
        i = i + 1;
    }
    r
}

fn contains_logical(v: &Vec<LogicalTrackID>, t: LogicalTrackID) -> (r: bool)
    ensures
        r == v@.contains(t),
{
    let mut i: usize = 0;
    while i < v.len()
        invariant
            0 <= i <= v@.len(),
            forall|k: int| 0 <= k < i ==> v@[k] != t,
        decreases v@.len() - i,
    {
        if v[i] == t {
            assert(v@[i as int] == t);
            return true;
        }
        i = i + 1;
    }
    false
}

fn contains_dirtrack(v: &Vec<DirectedTrackID>, t: DirectedTrackID) -> (r: bool)
    ensures
        r == v@.contains(t),
{
    let mut i: usize = 0;
    while i < v.len()
        invariant
            0 <= i <= v@.len(),
            forall|k: int| 0 <= k < i ==> v@[k] != t,
        decreases v@.len() - i,
    {
        if v[i] == t {
            assert(v@[i as int] == t);
            return true;
        }
        i = i + 1;
    }
    false
}

/// The elements of `b` not in `a`, appended to `a` in order, each once
/// even if `b` repeats it.
pub open spec fn merged(a: Seq<LogicalTrackID>, b: Seq<LogicalTrackID>) -> Seq<LogicalTrackID>
    decreases b.len(),
{
    if b.len() == 0 {
        a
    } else {
        let m = merged(a, b.drop_last());
        if m.contains(b.last()) {
            m
        } else {
            m.push(b.last())
        }
    }
}

impl LogicalSection {
    pub fn new() -> (r: Self)
        ensures
            r.tracks@.len() == 0,
    {
        LogicalSection { tracks: Vec::new() }
    }

    pub fn len(&self) -> (r: usize)
        ensures
            r == self.tracks@.len(),
    {
        self.tracks.len()
    }

    /// Appends the tracks of `other` that are not yet in this section.
    pub fn extend_merge(&mut self, other: &LogicalSection)
        ensures
            final(self).tracks@ == merged(old(self).tracks@, other.tracks@),
    {
        let mut i: usize = 0;
        while i < other.tracks.len()
            invariant
                0 <= i <= other.tracks@.len(),
                self.tracks@ == merged(old(self).tracks@, other.tracks@.subrange(0, i as int)),
            decreases other.tracks@.len() - i,
        {
            let t = other.tracks[i];
            proof {
                assert(other.tracks@.subrange(0, i + 1).drop_last() =~= other.tracks@.subrange(0, i as int));
            }
            if !contains_logical(&self.tracks, t) {
                self.tracks.push(t);
            }
            i = i + 1;
        }
        proof {
            assert(other.tracks@.subrange(0, other.tracks@.len() as int) =~= other.tracks@);
        }
    }

    /// Splits the section at the given tracks, keeping each mark at the end
    /// of one piece and the start of the next.
    pub fn split_by_tracks_with_overlap(&self, tracks: &Vec<LogicalTrackID>) -> (r: Vec<(LogicalSection, LogicalTrackID)>)
        ensures
            r@.len() == split_pieces(self.tracks@, tracks@).len(),
            forall|k: int| 0 <= k < r@.len() ==> (#[trigger] r@[k]).0.tracks@ == split_pieces(self.tracks@, tracks@)[k].0 && r@[k].1
                == split_pieces(self.tracks@, tracks@)[k].1,
    {
        let ghost s = self.tracks@;
        let mut idx: Vec<usize> = Vec::new();
        let mut i: usize = 0;
        while i < self.tracks.len()
            invariant
                0 <= i <= s.len(),
                s == self.tracks@,
                idx@.len() == mark_indices(s.subrange(0, i as int), tracks@).len(),
                forall|k: int| 0 <= k < idx@.len() ==> idx@[k] as int == mark_indices(s.subrange(0, i as int), tracks@)[k],
            decreases s.len() - i,
        {
            proof {
                assert(s.subrange(0, i + 1).drop_last() =~= s.subrange(0, i as int));
            }
            if contains_logical(tracks, self.tracks[i]) {
                idx.push(i);
            }
            i = i + 1;
        }
        proof {
            assert(s.subrange(0, s.len() as int) =~= s);
            lemma_mark_indices_bounds(s, tracks@);
        }
        let ghost m = mark_indices(s, tracks@);
        let mut r: Vec<(LogicalSection, LogicalTrackID)> = Vec::new();
        let mut k: usize = 0;
        while k < idx.len()
            invariant
                0 <= k <= idx@.len(),
                s == self.tracks@,
                m == mark_indices(s, tracks@),
                idx@.len() == m.len(),
                forall|j: int| 0 <= j < idx@.len() ==> idx@[j] as int == m[j],
                forall|j: int| 0 <= j < m.len() ==> 0 <= #[trigger] m[j] < s.len(),
                forall|a: int, b: int| 0 <= a < b < m.len() ==> m[a] < m[b],
                r@.len() == k,
                forall|j: int| 0 <= j < k ==> (#[trigger] r@[j]).0.tracks@ == split_pieces(s, tracks@)[j].0 && r@[j].1 == split_pieces(s, tracks@)[j].1,
            decreases idx@.len() - k,
        {
            let lo = if k == 0 { 0 } else { idx[k - 1] };
            let hi = idx[k];
            let n = self.tracks.len();
            proof {
                assert(0 <= m[k as int] < s.len());
                assert(hi as int == m[k as int]);
                if k > 0 {
                    assert(m[k - 1] < m[k as int]);
                }
            }
            let piece = copy_logicals(&self.tracks, lo, hi + 1);
            r.push((LogicalSection { tracks: piece }, self.tracks[hi]));
            k = k + 1;
        }
        r
    }

    /// The logical connections between consecutive tracks.
    pub fn connection_iter(&self) -> (r: Vec<LogicalTrackConnectionID>)
        ensures
            r@.len() == windows(self.tracks@).len(),
            forall|i: int| 0 <= i < r@.len() ==> (#[trigger] r@[i]).from_track == self.tracks@[i] && r@[i].to_track == self.tracks@[i + 1],
    {
        let mut r: Vec<LogicalTrackConnectionID> = Vec::new();
        let n = self.tracks.len();
        if n == 0 {
            return r;
        }
        let mut i: usize = 0;
        while i < n - 1
            invariant
                n == self.tracks@.len(),
                n > 0,
                0 <= i <= n - 1,
                r@.len() == i,
                forall|j: int| 0 <= j < i ==> (#[trigger] r@[j]).from_track == self.tracks@[j] && r@[j].to_track == self.tracks@[j + 1],
            decreases n - 1 - i,
        {
            r.push(LogicalTrackConnectionID::new(self.tracks[i], self.tracks[i + 1]));
            i = i + 1;
        }
        r
    }

    /// The directed connections between consecutive tracks.
    pub fn directed_connection_iter(&self) -> (r: Vec<DirectedTrackConnectionID>)
        ensures
            r@.len() == windows(self.tracks@).len(),
            forall|i: int| 0 <= i < r@.len() ==> (#[trigger] r@[i]).from_track == self.tracks@[i].dirtrack && r@[i].to_track
                == self.tracks@[i + 1].dirtrack,
    {
        let mut r: Vec<DirectedTrackConnectionID> = Vec::new();
        let n = self.tracks.len();
        if n == 0 {
            return r;
        }
        let mut i: usize = 0;
        while i < n - 1
            invariant
                n == self.tracks@.len(),
                n > 0,
                0 <= i <= n - 1,
                r@.len() == i,
                forall|j: int| 0 <= j < i ==> (#[trigger] r@[j]).from_track == self.tracks@[j].dirtrack && r@[j].to_track
                    == self.tracks@[j + 1].dirtrack,
            decreases n - 1 - i,
        {
            r.push(DirectedTrackConnectionID::new(self.tracks[i].dirtrack, self.tracks[i + 1].dirtrack));
            i = i + 1;
        }
        r
    }
}

/// Consecutive directed tracks `a`, `b` of a section.
pub open spec fn has_window(s: Seq<DirectedTrackID>, a: DirectedTrackID, b: DirectedTrackID) -> bool {
    exists|i: int| 0 <= i < s.len() - 1 && s[i] == a && #[trigger] s[i + 1] == b
}

/// Whether `push` accepts the directed track after the section: always on
/// an empty section, otherwise when the layout connects the last track to
/// it in either facing.
pub open spec fn push_ok(s: Seq<DirectedTrackID>, track: DirectedTrackID, connections: &Connections) -> bool {
    s.len() == 0 || {
        let c = DirectedTrackConnectionID { from_track: s.last(), to_track: track };
        connections.edges().contains((directed_to_logical(c, Facing::Forward).from_track, directed_to_logical(c, Facing::Forward).to_track))
            || connections.edges().contains((directed_to_logical(c, Facing::Backward).from_track, directed_to_logical(c, Facing::Backward).to_track))
    }
}

/// The section after `push_track`: the track appended in its first
/// direction if that is accepted, else in its last, else nothing.
pub open spec fn push_track_result(s: Seq<DirectedTrackID>, track: TrackID, connections: &Connections) -> Option<Seq<DirectedTrackID>> {
    let first = DirectedTrackID { track, direction: TrackDirection::First };
    let last = DirectedTrackID { track, direction: TrackDirection::Last };
    if push_ok(s, first, connections) {
        Some(s.push(first))
    } else if push_ok(s, last, connections) {
        Some(s.push(last))
    } else {
        None
    }
}

impl DirectedSection {
    pub fn new() -> (r: Self)
        ensures
            r.tracks@.len() == 0,
    {
        DirectedSection { tracks: Vec::new() }
    }

    /// Appends a directed track: always to an empty section, otherwise only
    /// when the layout connects the last track to it.
    pub fn push(&mut self, track: DirectedTrackID, connections: &Connections) -> (r: Result<(), ()>)
        ensures
            ({
                let ok = old(self).tracks@.len() == 0 || {
                    let c = DirectedTrackConnectionID { from_track: old(self).tracks@.last(), to_track: track };
                    connections.edges().contains((directed_to_logical(c, Facing::Forward).from_track, directed_to_logical(c, Facing::Forward).to_track))
                        || connections.edges().contains((directed_to_logical(c, Facing::Backward).from_track, directed_to_logical(c, Facing::Backward).to_track))
                };
                &&& r is Ok == ok
                &&& ok ==> final(self).tracks@ == old(self).tracks@.push(track)
                &&& !ok ==> final(self).tracks@ == old(self).tracks@
            }),
    {
        let n = self.tracks.len();
        if n == 0 {
            self.tracks.push(track);
            return Ok(());
        }
        let last = self.tracks[n - 1];
        if connections.has_directed_connection(&DirectedTrackConnectionID::new(last, track)) {
            self.tracks.push(track);
            Ok(())
        } else {
            Err(())
        }
    }

    /// Appends the track in the first of its two directions that `push` accepts.
    pub fn push_track(&mut self, track: TrackID, connections: &Connections) -> (r: Result<(), ()>)
        ensures
            match push_track_result(old(self).tracks@, track, connections) {
                Some(s) => r is Ok && final(self).tracks@ == s,
                None => r is Err && final(self).tracks@ == old(self).tracks@,
            },
    {
        let first = DirectedTrackID { track, direction: TrackDirection::First };
        if self.push(first, connections).is_ok() {
            return Ok(());
        }
        let last = DirectedTrackID { track, direction: TrackDirection::Last };
        self.push(last, connections)
    }

    /// The section travelled the other way: reversed, every track turned round.
    pub fn get_opposite(&self) -> (r: Self)
        ensures
            r.tracks@.len() == self.tracks@.len(),
            forall|i: int| 0 <= i < r.tracks@.len() ==> r.tracks@[i] == dirtrack_opposite(#[trigger] self.tracks@[self.tracks@.len() - 1 - i]),
    {
        let n = self.tracks.len();
        let mut opposite = DirectedSection::new();
        let mut i: usize = 0;
        while i < n
            invariant
                n == self.tracks@.len(),
                0 <= i <= n,
                opposite.tracks@.len() == i,
                forall|j: int| 0 <= j < i ==> opposite.tracks@[j] == dirtrack_opposite(#[trigger] self.tracks@[n - 1 - j]),
            decreases n - i,
        {
            opposite.tracks.push(self.tracks[n - 1 - i].opposite());
            i = i + 1;
        }
        opposite
    }

    /// The section as logical tracks with one facing.
    pub fn get_logical(&self, facing: Facing) -> (r: LogicalSection)
        ensures
            r.tracks@.len() == self.tracks@.len(),
            forall|i: int| 0 <= i < r.tracks@.len() ==> r.tracks@[i] == (LogicalTrackID { dirtrack: #[trigger] self.tracks@[i], facing }),
    {
        let mut logical = LogicalSection::new();
        let mut i: usize = 0;
        while i < self.tracks.len()
            invariant
                0 <= i <= self.tracks@.len(),
                logical.tracks@.len() == i,
                forall|j: int| 0 <= j < i ==> logical.tracks@[j] == (LogicalTrackID { dirtrack: #[trigger] self.tracks@[j], facing }),
            decreases self.tracks@.len() - i,
        {
            logical.tracks.push(self.tracks[i].get_logical(facing));
            i = i + 1;
        }
        logical
    }

    /// Whether the connection joins two consecutive tracks of the section.
    pub fn has_directed_connection(&self, connection: &DirectedTrackConnectionID) -> (r: bool)
        ensures
            r == has_window(self.tracks@, connection.from_track, connection.to_track),
    {
        let n = self.tracks.len();
        if n == 0 {
            return false;
        }
        let mut i: usize = 0;
        while i < n - 1
            invariant
                n == self.tracks@.len(),
                n > 0,
                0 <= i <= n - 1,
                forall|j: int| 0 <= j < i ==> !(self.tracks@[j] == connection.from_track && #[trigger] self.tracks@[j + 1] == connection.to_track),
            decreases n - 1 - i,
        {
            if self.tracks[i] == connection.from_track && self.tracks[i + 1] == connection.to_track {
                return true;
            }
            i = i + 1;
        }
        false
    }

    /// Whether the section passes the track in either direction.
    pub fn has_track(&self, track: &TrackID) -> (r: bool)
        ensures
            r == (self.tracks@.contains(DirectedTrackID { track: *track, direction: TrackDirection::First })
                || self.tracks@.contains(DirectedTrackID { track: *track, direction: TrackDirection::Last })),
    {
        contains_dirtrack(&self.tracks, DirectedTrackID { track: *track, direction: TrackDirection::First })
            || contains_dirtrack(&self.tracks, DirectedTrackID { track: *track, direction: TrackDirection::Last })
    }

    /// Whether the section crosses the physical connection either way.
    pub fn has_connection(&self, connection: &TrackConnectionID) -> (r: bool)
        ensures
            r == (has_window(
                self.tracks@,
                connection_to_directed(*connection, ConnectionDirection::Aligned).from_track,
                connection_to_directed(*connection, ConnectionDirection::Aligned).to_track,
            ) || has_window(
                self.tracks@,
                connection_to_directed(*connection, ConnectionDirection::Opposite).from_track,
                connection_to_directed(*connection, ConnectionDirection::Opposite).to_track,
            )),
    {
        self.has_directed_connection(&connection.to_directed(ConnectionDirection::Aligned))
            || self.has_directed_connection(&connection.to_directed(ConnectionDirection::Opposite))
    }

    pub fn len(&self) -> (r: usize)
        ensures
            r == self.tracks@.len(),
    {
        self.tracks.len()
    }

    /// The directed connections between consecutive tracks.
    pub fn connection_iter(&self) -> (r: Vec<DirectedTrackConnectionID>)
        ensures
            r@.len() == windows(self.tracks@).len(),
            forall|i: int| 0 <= i < r@.len() ==> (#[trigger] r@[i]).from_track == self.tracks@[i] && r@[i].to_track == self.tracks@[i + 1],
    {
        let mut r: Vec<DirectedTrackConnectionID> = Vec::new();
        let n = self.tracks.len();
        if n == 0 {
            return r;
        }
        let mut i: usize = 0;
        while i < n - 1
            invariant
                n == self.tracks@.len(),
                n > 0,
                0 <= i <= n - 1,
                r@.len() == i,
                forall|j: int| 0 <= j < i ==> (#[trigger] r@[j]).from_track == self.tracks@[j] && r@[j].to_track == self.tracks@[j + 1],
            decreases n - 1 - i,
        {
            r.push(DirectedTrackConnectionID::new(self.tracks[i], self.tracks[i + 1]));
            i = i + 1;
        }
        r
    }

    /// The block this section spans: from its first track to its last one
    /// turned round.
    pub fn to_block_id(&self) -> (r: BlockID)
        requires
            self.tracks@.len() > 0,
        ensures
            r == block_new(self.tracks@[0], dirtrack_opposite(self.tracks@.last())),
    {
        let n = self.tracks.len();
        BlockID::new(self.tracks[0], self.tracks[n - 1].opposite())
    }
}

/// Reversing a section twice gives it back.
pub proof fn lemma_opposite_involutive(s: Seq<DirectedTrackID>, o: Seq<DirectedTrackID>, oo: Seq<DirectedTrackID>)
    requires
        o.len() == s.len(),
        forall|i: int| 0 <= i < o.len() ==> o[i] == dirtrack_opposite(#[trigger] s[s.len() - 1 - i]),
        oo.len() == o.len(),
        forall|i: int| 0 <= i < oo.len() ==> oo[i] == dirtrack_opposite(#[trigger] o[o.len() - 1 - i]),
    ensures
        oo == s,
{
    assert forall|i: int| 0 <= i < s.len() implies oo[i] == s[i] by {
        assert(oo[i] == dirtrack_opposite(o[o.len() - 1 - i]));
        assert(o[o.len() - 1 - i] == dirtrack_opposite(s[s.len() - 1 - (o.len() - 1 - i)]));
    }
    assert(oo =~= s);
}

} // verus!
