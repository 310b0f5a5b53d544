//! Identifiers of the layout elements: tracks, directed and logical tracks,
//! connections, blocks, trains, and marker colours. Cells, cardinals,
//! orientations and facings are shared with the editor's grid model.
use vstd::prelude::*;
pub use crate::layout_primitives::{Cardinal, CellID, Facing, Orientation, TrackDirection};
use crate::layout_primitives::{
    cardinal_opposite, cell_cardinal_to, cell_lt, direction_opposite, facing_opposite,
    orientation_cardinal, orientation_direction_to, orientation_rank,
};
use crate::layout_names::{
    cell_from_name, cell_name, lemma_cell_name_round_trip, lemma_orientation_names_plain,
    orientation_arrow, orientation_from_name, orientation_name,
};
use crate::keyed::Key;
use crate::text::{chars_to_string, lemma_split_after, lemma_split_whole, push_str, split_field, str_chars};

verus! {

/// Identifies a track segment by its grid cell and orientation.
#[derive(Clone, Copy, PartialEq, Eq, Debug, Hash, PartialOrd, Ord, Structural)]
pub struct TrackID {
    pub cell: CellID,
    pub orientation: Orientation,
}

/// A track with a travel direction: First heads to the first cardinal of the
/// orientation, Last to the second.
#[derive(Clone, Copy, PartialEq, Eq, Debug, Hash, PartialOrd, Ord, Structural)]
pub struct DirectedTrackID {
    pub track: TrackID,
    pub direction: TrackDirection,
}

/// A physical connection between two tracks; both directed tracks point at
/// the link. Normalized so that `track_a.track <= track_b.track`.
#[derive(Clone, Copy, PartialEq, Eq, Debug, Hash, Structural)]
pub struct TrackConnectionID {
    pub track_a: DirectedTrackID,
    pub track_b: DirectedTrackID,
}

/// Colour of a physical marker tile; `Any` (the default) matches any colour.
#[derive(Clone, Copy, PartialEq, Eq, Debug, Hash, PartialOrd, Ord, Structural)]
pub enum MarkerColor {
    Any,
    Red,
    Yellow,
    Green,
    Blue,
    Cyan,
    White,
    Black,
}

impl Default for MarkerColor {
    fn default() -> (r: MarkerColor)
        ensures
            r == MarkerColor::Any,
    {
        MarkerColor::Any
    }
}

/// A block, named by the end tracks of its section; normalized so that `track_a <= track_b`.
#[derive(Clone, Copy, PartialEq, Eq, Debug, Hash, PartialOrd, Ord, Structural)]
pub struct BlockID {
    pub track_a: TrackID,
    pub track_b: TrackID,
}

/// Discrete speed level for trains.
#[derive(Clone, Copy, PartialEq, Eq, Debug, Hash, PartialOrd, Ord, Structural)]
pub enum TrainSpeed {
    Slow,
    Cruise,
    Fast,
}

/// Numeric train identifier.
#[derive(Clone, Copy, PartialEq, Eq, Debug, Hash, PartialOrd, Ord, Structural)]
pub struct TrainID(pub u32);

/// Which way a train travels through a block relative to the block's section.
#[derive(Clone, Copy, PartialEq, Eq, Debug, Hash, PartialOrd, Ord, Structural)]
pub enum BlockDirection {
    Aligned,
    Against,
}

/// A directed track together with the way the train faces on it.
#[derive(Clone, Copy, PartialEq, Eq, Debug, Hash, PartialOrd, Ord, Structural)]
pub struct LogicalTrackID {
    pub directed: DirectedTrackID,
    pub facing: Facing,
}

/// A block together with the direction of travel and the train's facing.
#[derive(Clone, Copy, PartialEq, Eq, Debug, Hash, PartialOrd, Ord, Structural)]
pub struct LogicalBlockID {
    pub block: BlockID,
    pub direction: BlockDirection,
    pub facing: Facing,
}

// ---------------------------------------------------------------------------
// Specifications
// ---------------------------------------------------------------------------

/// The order `derive(Ord)` gives tracks: by cell, then by orientation.
pub open spec fn track_lt(a: TrackID, b: TrackID) -> bool {
    cell_lt(a.cell, b.cell) || (a.cell == b.cell && orientation_rank(a.orientation)
        < orientation_rank(b.orientation))
}

pub open spec fn track_le(a: TrackID, b: TrackID) -> bool {
    track_lt(a, b) || a == b
}

pub open spec fn dirtrack_opposite(d: DirectedTrackID) -> DirectedTrackID {
    DirectedTrackID { track: d.track, direction: direction_opposite(d.direction) }
}

pub open spec fn dirtrack_to_cardinal(d: DirectedTrackID) -> Cardinal {
    orientation_cardinal(d.track.orientation, d.direction)
}

pub open spec fn track_directed_to(t: TrackID, c: Cardinal) -> Option<DirectedTrackID> {
    match orientation_direction_to(t.orientation, c) {
        Some(dir) => Some(DirectedTrackID { track: t, direction: dir }),
        None => None,
    }
}

pub open spec fn connection_new(a: DirectedTrackID, b: DirectedTrackID) -> TrackConnectionID {
    if track_le(a.track, b.track) {
        TrackConnectionID { track_a: a, track_b: b }
    } else {
        TrackConnectionID { track_a: b, track_b: a }
    }
}

pub open spec fn track_connection_to(a: TrackID, b: TrackID) -> Option<TrackConnectionID> {
    match cell_cardinal_to(a.cell, b.cell) {
        Some(c) => match (track_directed_to(a, c), track_directed_to(b, cardinal_opposite(c))) {
            (Some(ta), Some(tb)) => Some(connection_new(ta, tb)),
            _ => None,
        },
        None => None,
    }
}

/// Continuous connections join tracks in neighbouring cells that both face
/// the shared edge; all others are portals.
pub open spec fn connection_is_continuous(c: TrackConnectionID) -> bool {
    match cell_cardinal_to(c.track_a.track.cell, c.track_b.track.cell) {
        Some(k) => dirtrack_to_cardinal(c.track_a) == k && dirtrack_to_cardinal(c.track_b)
            == cardinal_opposite(k),
        None => false,
    }
}

pub open spec fn block_new(a: TrackID, b: TrackID) -> BlockID {
    if track_le(a, b) {
        BlockID { track_a: a, track_b: b }
    } else {
        BlockID { track_a: b, track_b: a }
    }
}

pub open spec fn logical_reversed(t: LogicalTrackID) -> LogicalTrackID {
    LogicalTrackID { directed: dirtrack_opposite(t.directed), facing: facing_opposite(t.facing) }
}

pub open spec fn track_name(t: TrackID) -> Seq<char> {
    cell_name(t.cell) + seq!['|'] + orientation_name(t.orientation)
}

pub open spec fn track_from_name(s: Seq<char>) -> Option<TrackID> {
    match (split_field(s, seq!['|'], 0), split_field(s, seq!['|'], 1)) {
        (Some(c), Some(o)) => match (cell_from_name(c), orientation_from_name(o)) {
            (Some(cell), Some(orientation)) => Some(TrackID { cell, orientation }),
            _ => None,
        },
        _ => None,
    }
}

pub open spec fn track_display(t: TrackID) -> Seq<char> {
    seq!['T', '('] + track_name(t) + seq!['|', orientation_arrow(t.orientation), ')']
}

// ---------------------------------------------------------------------------
// Tracks
// ---------------------------------------------------------------------------

impl TrackID {
    pub fn new(cell: CellID, orientation: Orientation) -> (r: Self)
        ensures
            r == (TrackID { cell, orientation }),
    {
        Self { cell, orientation }
    }

    /// The order `derive(Ord)` gives tracks.
    pub fn less_than(&self, other: &Self) -> (r: bool)
        ensures
            r == track_lt(*self, *other),
    {
        self.cell.less_than(&other.cell) || (self.cell == other.cell && self.orientation.rank()
            < other.orientation.rank())
    }

    pub fn less_or_equal(&self, other: &Self) -> (r: bool)
        ensures
            r == track_le(*self, *other),
    {
        self.less_than(other) || *self == *other
    }

    pub fn get_name(&self) -> (r: String)
        ensures
            r@ == track_name(*self),
    {
        let v1 = crate::layout_primitives::TrackID { cell: self.cell, orientation: self.orientation };
        v1.get_name()
    }

    pub fn from_name(name: &str) -> (r: Option<Self>)
        ensures
            r == track_from_name(name@),
    {
        match crate::layout_primitives::TrackID::from_name(name) {
            Some(t) => Some(TrackID { cell: t.cell, orientation: t.orientation }),
            None => None,
        }
    }

    /// `T(<name>|<arrow>)`.
    pub fn to_string(&self) -> (r: String)
        ensures
            r@ == track_display(*self),
    {
        let mut v: Vec<char> = Vec::new();
        v.push('T');
        v.push('(');
        let name = self.get_name();
        push_str(&mut v, name.as_str());
        v.push('|');
        v.push(self.orientation.get_unicode_arrow());
        v.push(')');
        assert(v@ =~= track_display(*self));
        chars_to_string(&v)
    }

    /// Reads `T(<name>...)`: the name between the first two characters and the last.
    pub fn from_str(s: &str) -> (r: Result<Self, String>)
        requires
            s@.len() >= 3,
        ensures
            match track_from_name(s@.subrange(2, s@.len() - 1)) {
                Some(t) => r == Ok::<TrackID, String>(t),
                None => r matches Err(e) && e@ == "invalid track id: "@ + s@.subrange(2, s@.len() - 1),
            },
    {
        match crate::layout_primitives::TrackID::from_str(s) {
            Ok(t) => Ok(TrackID { cell: t.cell, orientation: t.orientation }),
            Err(e) => Err(e),
        }
    }

    /// This track directed toward `cardinal`, if its orientation faces it.
    pub fn get_directed_to(&self, cardinal: Cardinal) -> (r: Option<DirectedTrackID>)
        ensures
            r == track_directed_to(*self, cardinal),
    {
        Some(DirectedTrackID { track: *self, direction: self.orientation.get_direction_to(cardinal)? })
    }

    /// The connection between this track and `other`, if they lie in
    /// neighbouring cells and both face the shared edge.
    pub fn get_connection_to(&self, other: TrackID) -> (r: Option<TrackConnectionID>)
        ensures
            r == track_connection_to(*self, other),
    {
        let cardinal = self.cell.cardinal_to(&other.cell)?;
        let track_a = self.get_directed_to(cardinal)?;
        let track_b = other.get_directed_to(cardinal.opposite())?;
        Some(TrackConnectionID::new(track_a, track_b))
    }
}

impl DirectedTrackID {
    pub fn new(track: TrackID, direction: TrackDirection) -> (r: Self)
        ensures
            r == (DirectedTrackID { track, direction }),
    {
        Self { track, direction }
    }

    /// The cardinal this directed track heads toward.
    pub fn to_cardinal(&self) -> (r: Cardinal)
        ensures
            r == dirtrack_to_cardinal(*self),
    {
        self.track.orientation.get_cardinal(self.direction)
    }

    /// The cardinal this directed track comes from.
    pub fn from_cardinal(&self) -> (r: Cardinal)
        ensures
            r == cardinal_opposite(dirtrack_to_cardinal(*self)),
    {
        self.to_cardinal().opposite()
    }

    pub fn opposite(&self) -> (r: Self)
        ensures
            r == dirtrack_opposite(*self),
    {
        Self { track: self.track, direction: self.direction.opposite() }
    }
}

impl TrackConnectionID {
    /// A normalized connection (`track_a.track <= track_b.track`).
    pub fn new(a: DirectedTrackID, b: DirectedTrackID) -> (r: Self)
        ensures
            r == connection_new(a, b),
    {
        if a.track.less_or_equal(&b.track) {
            Self { track_a: a, track_b: b }
        } else {
            Self { track_a: b, track_b: a }
        }
    }

    /// The other directed track of this connection.
    pub fn other(&self, track: TrackID) -> (r: Option<DirectedTrackID>)
        ensures
            r == (if self.track_a.track == track {
                Some(self.track_b)
            } else if self.track_b.track == track {
                Some(self.track_a)
            } else {
                None
            }),
    {
        if self.track_a.track == track {
            Some(self.track_b)
        } else if self.track_b.track == track {
            Some(self.track_a)
        } else {
            None
        }
    }

    pub fn is_continuous(&self) -> (r: bool)
        ensures
            r == connection_is_continuous(*self),
    {
        let cardinal = match self.track_a.track.cell.cardinal_to(&self.track_b.track.cell) {
            Some(c) => c,
            None => {
                return false;
            },
        };
        self.track_a.to_cardinal() == cardinal && self.track_b.to_cardinal() == cardinal.opposite()
    }

    pub fn is_portal(&self) -> (r: bool)
        ensures
            r == !connection_is_continuous(*self),
    {
        !self.is_continuous()
    }
}

impl BlockID {
    /// A normalized block ID (`track_a <= track_b`).
    pub fn new(a: TrackID, b: TrackID) -> (r: Self)
        ensures
            r == block_new(a, b),
    {
        if a.less_or_equal(&b) {
            Self { track_a: a, track_b: b }
        } else {
            Self { track_a: b, track_b: a }
        }
    }
}

impl LogicalTrackID {
    pub fn new(directed: DirectedTrackID, facing: Facing) -> (r: Self)
        ensures
            r == (LogicalTrackID { directed, facing }),
    {
        Self { directed, facing }
    }

    pub fn reversed(&self) -> (r: Self)
        ensures
            r == logical_reversed(*self),
    {
        Self { directed: self.directed.opposite(), facing: self.facing.opposite() }
    }

    pub fn track(&self) -> (r: TrackID)
        ensures
            r == self.directed.track,
    {
        self.directed.track
    }
}


impl Key for TrackID {
    fn same(&self, other: &Self) -> (r: bool) {
        *self == *other
    }
}

impl Key for BlockID {
    fn same(&self, other: &Self) -> (r: bool) {
        *self == *other
    }
}

impl Key for LogicalTrackID {
    fn same(&self, other: &Self) -> (r: bool) {
        *self == *other
    }
}

impl Key for TrainID {
    fn same(&self, other: &Self) -> (r: bool) {
        *self == *other
    }
}

impl Key for TrackConnectionID {
    fn same(&self, other: &Self) -> (r: bool) {
        *self == *other
    }
}

// ---------------------------------------------------------------------------
// Laws
// ---------------------------------------------------------------------------

/// A track's name reads back as the track.
pub proof fn lemma_track_name_round_trip(t: TrackID)
    ensures
        track_from_name(track_name(t)) == Some(t),
{
    lemma_cell_name_round_trip(t.cell);
    lemma_orientation_names_plain(t.orientation);
    lemma_split_after(cell_name(t.cell), seq!['|'], orientation_name(t.orientation));
    lemma_split_whole(orientation_name(t.orientation), seq!['|']);
}

proof fn lemma_no_bar_no_match(s: Seq<char>, i: int)
    requires
        0 <= i,
        forall|k: int| 0 <= k < s.len() ==> s[k] != '|',
    ensures
        crate::text::first_match_from(s, seq!['|'], i) is None,
    decreases s.len() + 1 - i,
{
    if i + 1 <= s.len() {
        assert(s.subrange(i, i + 1)[0] == s[i]);
        assert(s.subrange(i, i + 1) != seq!['|']);
        lemma_no_bar_no_match(s, i + 1);
    }
}

/// Which names a track is not read from: a name without `|`; one whose
/// part before the first `|` is no cell (three `,`-separated numbers); one
/// whose part after it (up to a next `|`) is not one of the six orientation
/// names. Every other name is read.
pub proof fn lemma_track_name_rejects(s: Seq<char>)
    ensures
        (forall|k: int| 0 <= k < s.len() ==> s[k] != '|') ==> track_from_name(s) is None,
        (split_field(s, seq!['|'], 0) matches Some(c) && cell_from_name(c) is None) ==> track_from_name(s) is None,
        (split_field(s, seq!['|'], 1) matches Some(o) && orientation_from_name(o) is None) ==> track_from_name(s) is None,
        forall|o: Seq<char>| orientation_from_name(o) is None <==> (o != seq!['E', 'W'] && o != seq!['N', 'E'] && o != seq![
            'N',
            'S',
        ] && o != seq!['N', 'W'] && o != seq!['S', 'E'] && o != seq!['S', 'W']),
        track_from_name(s) is Some <==> ({
            &&& split_field(s, seq!['|'], 0) matches Some(c) && cell_from_name(c) is Some
            &&& split_field(s, seq!['|'], 1) matches Some(o) && orientation_from_name(o) is Some
        }),
{
    if forall|k: int| 0 <= k < s.len() ==> s[k] != '|' {
        lemma_no_bar_no_match(s, 0);
    }
}

/// A displayed track reads back as the track.
pub proof fn lemma_track_display_round_trip(t: TrackID)
    ensures
        track_display(t).len() >= 3,
        track_from_name(track_display(t).subrange(2, track_display(t).len() - 1)) == Some(t),
{
    let v1 = crate::layout_primitives::TrackID { cell: t.cell, orientation: t.orientation };
    crate::layout_display::lemma_track_display_round_trip(v1);
    assert(track_display(t) =~= crate::layout_display::track_display(v1));
}

/// The connection between two tracks is the same whichever track it is asked from.
pub proof fn lemma_connection_to_symmetric(a: TrackID, b: TrackID)
    ensures
        track_connection_to(a, b) == track_connection_to(b, a),
        track_connection_to(a, b) matches Some(c) ==> connection_is_continuous(c),
{
}

/// Normalizing a connection does not depend on the order of its tracks.
pub proof fn lemma_connection_new_symmetric(a: DirectedTrackID, b: DirectedTrackID)
    requires
        a.track != b.track,
    ensures
        connection_new(a, b) == connection_new(b, a),
        track_le(connection_new(a, b).track_a.track, connection_new(a, b).track_b.track),
{
}

/// Normalizing a block does not depend on the order of its ends.
pub proof fn lemma_block_new_symmetric(a: TrackID, b: TrackID)
    ensures
        block_new(a, b) == block_new(b, a),
        track_le(block_new(a, b).track_a, block_new(a, b).track_b),
{
}

/// Reversing a logical track twice gives it back.
pub proof fn lemma_reversed_involutive(t: LogicalTrackID)
    ensures
        logical_reversed(logical_reversed(t)) == t,
        logical_reversed(t) != t,
{
}

} // verus!
