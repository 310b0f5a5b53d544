//! The display forms of layout identifiers (the text a saved layout holds
//! for them) and the parsers that read those forms back.
use vstd::prelude::*;
use crate::layout_names::{
    block_from_name, block_name, block_name_ok, connection_from_name, connection_name,
    dirtrack_from_name, dirtrack_name, direction_arrow, lemma_block_name_round_trip,
    lemma_connection_name_round_trip, lemma_dirtrack_name_round_trip,
    lemma_logical_block_name_round_trip, lemma_logical_name_round_trip,
    lemma_track_name_round_trip, logical_block_from_name, logical_block_name, logical_from_name,
    logical_name, logical_name_ok, orientation_arrow, orientation_name, track_from_name, track_name,
    cell_name, plain, facing_name, lemma_cell_name_round_trip, lemma_orientation_names_plain,
    orientation_reversed_name, orientation_from_name, dirtrack_orientation_from_name,
};
use crate::layout_primitives::{
    TrackDirection, block_new, dir_index, BlockDirection, BlockID, DestinationID, DirectedTrackID, HubID, HubType,
    LayoutDeviceID, LayoutDeviceType, LogicalBlockID, LogicalTrackID, ScheduleID, SwitchPosition,
    TrackConnectionID, TrackID, TrainID,
};
use crate::text::{
    chars_to_string, lacks, lemma_split_after, lemma_nat_digits, digits_value, all_digits, nat_digits, parse_usize, parse_usize_window,
    push_str, push_usize, split_field, split_window, str_chars, window_is,
};

verus! {

// ---------------------------------------------------------------------------
// Display forms
// ---------------------------------------------------------------------------

pub open spec fn track_display(t: TrackID) -> Seq<char> {
    seq!['T', '('] + track_name(t) + seq!['|', orientation_arrow(t.orientation), ')']
}

pub open spec fn dirtrack_display(d: DirectedTrackID) -> Seq<char> {
    seq!['D', '('] + dirtrack_name(d) + seq!['|', direction_arrow(dir_index(d)), ')']
}

pub open spec fn logical_display(t: LogicalTrackID) -> Seq<char> {
    seq!['L', '('] + logical_name(t) + seq!['|', direction_arrow(dir_index(t.dirtrack)), ')']
}

pub open spec fn block_display(b: BlockID) -> Seq<char> {
    seq!['B', '['] + block_name(b) + seq![']']
}

pub open spec fn logical_block_display(b: LogicalBlockID) -> Seq<char> {
    seq!['L', 'B', '['] + logical_block_name(b) + seq![']']
}

pub open spec fn connection_display(c: TrackConnectionID) -> Seq<char> {
    seq!['C', '('] + connection_name(c) + seq![')']
}

/// What a displayed track, directed track or logical track holds between its
/// opening `X(` and its closing `)`.
pub open spec fn display_inner(s: Seq<char>) -> Seq<char> {
    s.subrange(2, s.len() - 1)
}

/// A logical track name with the arrow after its second `|` cut off, if it has one.
pub open spec fn without_arrow(s: Seq<char>) -> Seq<char> {
    match (split_field(s, seq!['|'], 0), split_field(s, seq!['|'], 1), split_field(s, seq!['|'], 2)) {
        (Some(a), Some(b), Some(_)) => a + seq!['|'] + b,
        _ => s,
    }
}

pub open spec fn ascii(c: char) -> bool {
    (c as u32) < 128
}

/// A string whose first `n` characters and last character are ASCII, and that
/// is longer than `n`.
pub open spec fn bracketed(s: Seq<char>, n: int) -> bool {
    s.len() > n && (forall|k: int| 0 <= k < n ==> ascii(#[trigger] s[k])) && ascii(s.last())
}

/// The text `str::parse` failures of the identifier parsers report.
pub open spec fn invalid(what: Seq<char>, s: Seq<char>) -> Seq<char> {
    what + s
}

fn display_string(prefix: &str, v: &Vec<char>) -> (r: String)
    ensures
        r@ == prefix@ + v@,
{
    let mut out: Vec<char> = Vec::new();
    push_str(&mut out, prefix);
    let mut i: usize = 0;
    while i < v.len()
        invariant
            0 <= i <= v@.len(),
            out@ == prefix@ + v@.subrange(0, i as int),
        decreases v@.len() - i,
    {
        out.push(v[i]);
        assert(v@.subrange(0, i + 1) =~= v@.subrange(0, i as int).push(v@[i as int]));
        i = i + 1;
    }
    assert(v@.subrange(0, v@.len() as int) =~= v@);
    chars_to_string(&out)
}

fn window_vec(v: &Vec<char>, lo: usize, hi: usize) -> (r: Vec<char>)
    requires
        lo <= hi <= v@.len(),
    ensures
        r@ == v@.subrange(lo as int, hi as int),
{
    let mut r: Vec<char> = Vec::new();
    let mut i: usize = lo;
    while i < hi
        invariant
            lo <= i <= hi <= v@.len(),
            r@ == v@.subrange(lo as int, i as int),
        decreases hi - i,
    {
        r.push(v[i]);
        assert(v@.subrange(lo as int, i + 1) =~= v@.subrange(lo as int, i as int).push(v@[i as int]));
        i = i + 1;
    }
    r
}

impl TrackID {
    /// `T(<name>|<arrow>)`.
    pub fn to_string(&self) -> (r: String)
        ensures
            r@ == track_display(*self),
    {
        let name = self.get_name();
        let mut v: Vec<char> = Vec::new();
        v.push('T');
        v.push('(');
        push_str(&mut v, name.as_str());
        v.push('|');
        v.push(self.orientation.get_unicode_arrow());
        v.push(')');
        assert(v@ =~= track_display(*self));
        chars_to_string(&v)
    }

    /// Reads `T(<name>...)`: the name between the first two characters and the last.
    pub fn from_str(s: &str) -> (r: Result<Self, String>)
        requires
            s@.len() >= 3,
        ensures
            match track_from_name(display_inner(s@)) {
                Some(t) => r == Ok::<TrackID, String>(t),
                None => r matches Err(e) && e@ == invalid("invalid track id: "@, display_inner(s@)),
            },
    {
        let v = str_chars(s);
        let inner = window_vec(&v, 2, v.len() - 1);
        let name = chars_to_string(&inner);
        match TrackID::from_name(name.as_str()) {
            Some(t) => Ok(t),
            None => Err(display_string("invalid track id: ", &inner)),
        }
    }
}

impl DirectedTrackID {
    /// `D(<name>|<arrow>)`.
    pub fn to_string(&self) -> (r: String)
        ensures
            r@ == dirtrack_display(*self),
    {
        let name = self.get_name();
        let mut v: Vec<char> = Vec::new();
        v.push('D');
        v.push('(');
        push_str(&mut v, name.as_str());
        v.push('|');
        v.push(self.get_unicode_arrow());
        v.push(')');
        assert(v@ =~= dirtrack_display(*self));
        chars_to_string(&v)
    }

    /// Reads `D(<name>...)`: the name between the first two characters and the last.
    pub fn from_str(s: &str) -> (r: Result<Self, String>)
        requires
            s@.len() >= 3,
        ensures
            match dirtrack_from_name(display_inner(s@)) {
                Some(t) => r == Ok::<DirectedTrackID, String>(t),
                None => r matches Err(e) && e@ == invalid("invalid directed track id: "@, display_inner(s@)),
            },
    {
        let v = str_chars(s);
        let inner = window_vec(&v, 2, v.len() - 1);
        let name = chars_to_string(&inner);
        match DirectedTrackID::from_name(name.as_str()) {
            Some(t) => Ok(t),
            None => Err(display_string("invalid directed track id: ", &inner)),
        }
    }
}

impl LogicalTrackID {
    /// `L(<name>|<arrow>)`.
    pub fn to_string(&self) -> (r: String)
        ensures
            r@ == logical_display(*self),
    {
        let name = self.get_name();
        let mut v: Vec<char> = Vec::new();
        v.push('L');
        v.push('(');
        push_str(&mut v, name.as_str());
        v.push('|');
        v.push(self.dirtrack.get_unicode_arrow());
        v.push(')');
        assert(v@ =~= logical_display(*self));
        chars_to_string(&v)
    }

    /// Reads `L(<name>)` or `L(<name>|<arrow>)`.
    pub fn from_str(s: &str) -> (r: Result<Self, String>)
        requires
            s@.len() >= 3,
            logical_name_ok(without_arrow(display_inner(s@))),
        ensures
            match logical_from_name(without_arrow(display_inner(s@))) {
                Some(t) => r == Ok::<LogicalTrackID, String>(t),
                None => r matches Err(e) && e@ == invalid("invalid logical track id: "@, without_arrow(
                    display_inner(s@),
                )),
            },
    {
        let v = str_chars(s);
        let hi = v.len() - 1;
        let bar: Vec<char> = vec!['|'];
        assert(bar@ =~= seq!['|']);
        let ghost inner = v@.subrange(2, hi as int);
        let f0 = split_window(&v, 2, hi, &bar, 0);
        let f1 = split_window(&v, 2, hi, &bar, 1);
        let f2 = split_window(&v, 2, hi, &bar, 2);
        let name_chars = match (f0, f1, f2) {
            (Some((a0, b0)), Some((a1, b1)), Some(_)) => {
                let mut w = window_vec(&v, a0, b0);
                w.push('|');
                let tail = window_vec(&v, a1, b1);
                let mut i: usize = 0;
                let ghost head = w@;
                while i < tail.len()
                    invariant
                        0 <= i <= tail@.len(),
                        w@ == head + tail@.subrange(0, i as int),
                    decreases tail@.len() - i,
                {
                    w.push(tail[i]);
                    assert(tail@.subrange(0, i + 1) =~= tail@.subrange(0, i as int).push(tail@[i as int]));
                    i = i + 1;
                }
                assert(tail@.subrange(0, tail@.len() as int) =~= tail@);
                assert(w@ =~= without_arrow(inner));
                w
            },
            _ => {
                let w = window_vec(&v, 2, hi);
                assert(w@ =~= without_arrow(inner));
                w
            },
        };
        let name = chars_to_string(&name_chars);
        match LogicalTrackID::from_name(name.as_str()) {
            Some(t) => Ok(t),
            None => Err(display_string("invalid logical track id: ", &name_chars)),
        }
    }
}

impl BlockID {
    /// `B[<name>]`.
    pub fn to_string(&self) -> (r: String)
        ensures
            r@ == block_display(*self),
    {
        let name = self.get_name();
        let mut v: Vec<char> = Vec::new();
        v.push('B');
        v.push('[');
        push_str(&mut v, name.as_str());
        v.push(']');
        assert(v@ =~= block_display(*self));
        chars_to_string(&v)
    }

    /// Reads `B[<name>]`.
    pub fn from_str(s: &str) -> (r: Result<Self, String>)
        requires
            bracketed(s@, 2),
            block_name_ok(s@.subrange(2, s@.len() - 1)),
        ensures
            match block_from_name(s@.subrange(2, s@.len() - 1)) {
                Some(b) => r == Ok::<BlockID, String>(b),
                None => r matches Err(e) && e@ == invalid("invalid block id: "@, s@.subrange(2, s@.len() - 1)),
            },
    {
        let v = str_chars(s);
        let inner = window_vec(&v, 2, v.len() - 1);
        let name = chars_to_string(&inner);
        match BlockID::from_name(name.as_str()) {
            Some(b) => Ok(b),
            None => Err(display_string("invalid block id: ", &inner)),
        }
    }
}

impl LogicalBlockID {
    /// `LB[<name>]`.
    pub fn to_string(&self) -> (r: String)
        ensures
            r@ == logical_block_display(*self),
    {
        let name = self.get_name();
        let mut v: Vec<char> = Vec::new();
        v.push('L');
        v.push('B');
        v.push('[');
        push_str(&mut v, name.as_str());
        v.push(']');
        assert(v@ =~= logical_block_display(*self));
        chars_to_string(&v)
    }

    /// Reads `LB[<name>]`.
    pub fn from_str(s: &str) -> (r: Result<Self, String>)
        requires
            bracketed(s@, 3),
        ensures
            match logical_block_from_name(s@.subrange(3, s@.len() - 1)) {
                Some(b) => r == Ok::<LogicalBlockID, String>(b),
                None => r matches Err(e) && e@ == invalid("invalid logical block id: "@, s@.subrange(3, s@.len() - 1)),
            },
    {
        let v = str_chars(s);
        let inner = window_vec(&v, 3, v.len() - 1);
        let name = chars_to_string(&inner);
        match LogicalBlockID::from_name(name.as_str()) {
            Some(b) => Ok(b),
            None => Err(display_string("invalid logical block id: ", &inner)),
        }
    }
}

impl TrackConnectionID {
    /// `C(<name>)`.
    pub fn to_string(&self) -> (r: String)
        ensures
            r@ == connection_display(*self),
    {
        let name = self.get_name();
        let mut v: Vec<char> = Vec::new();
        v.push('C');
        v.push('(');
        push_str(&mut v, name.as_str());
        v.push(')');
        assert(v@ =~= connection_display(*self));
        chars_to_string(&v)
    }

    /// Reads `C(<name>)`.
    pub fn from_str(s: &str) -> (r: Result<Self, String>)
        requires
            bracketed(s@, 2),
        ensures
            match connection_from_name(s@.subrange(2, s@.len() - 1)) {
                Some(c) => r == Ok::<TrackConnectionID, String>(c),
                None => r matches Err(e) && e@ == invalid("invalid track connection id: "@, s@.subrange(2, s@.len() - 1)),
            },
    {
        let v = str_chars(s);
        let inner = window_vec(&v, 2, v.len() - 1);
        let name = chars_to_string(&inner);
        match TrackConnectionID::from_name(name.as_str()) {
            Some(c) => Ok(c),
            None => Err(display_string("invalid track connection id: ", &inner)),
        }
    }
}

// ---------------------------------------------------------------------------
// Plain identifiers
// ---------------------------------------------------------------------------

pub open spec fn hub_type_name(k: HubType) -> Seq<char> {
    match k {
        HubType::Train => "Train"@,
        HubType::Layout => "Layout"@,
    }
}

pub open spec fn hub_display(h: HubID) -> Seq<char> {
    hub_type_name(h.kind) + nat_digits(h.id as nat)
}

pub open spec fn starts_with(s: Seq<char>, p: Seq<char>) -> bool {
    s.len() >= p.len() && s.subrange(0, p.len() as int) == p
}

/// Whether the number after a hub kind prefix parses, as the hub parser insists.
pub open spec fn hub_str_ok(s: Seq<char>) -> bool {
    &&& starts_with(s, "Train"@) ==> parse_usize(s.subrange(5, s.len() as int)) is Some
    &&& (!starts_with(s, "Train"@) && starts_with(s, "Layout"@)) ==> parse_usize(
        s.subrange(6, s.len() as int),
    ) is Some
}

/// The hub identifier a text names: `Train` or `Layout` and the number
/// after it (`None` when it starts with neither).
pub open spec fn hub_parse(s: Seq<char>) -> Option<HubID> {
    if starts_with(s, "Train"@) {
        Some(HubID { id: parse_usize(s.subrange(5, s.len() as int)).unwrap(), kind: HubType::Train })
    } else if starts_with(s, "Layout"@) {
        Some(HubID { id: parse_usize(s.subrange(6, s.len() as int)).unwrap(), kind: HubType::Layout })
    } else {
        None
    }
}

impl HubID {
    /// `Train<id>` or `Layout<id>`.
    pub fn to_string(&self) -> (r: String)
        ensures
            r@ == hub_display(*self),
    {
        let mut v: Vec<char> = Vec::new();
        match self.kind {
            HubType::Train => push_str(&mut v, "Train"),
            HubType::Layout => push_str(&mut v, "Layout"),
        }
        push_usize(&mut v, self.id);
        chars_to_string(&v)
    }

    pub fn from_str(s: &str) -> (r: Result<Self, String>)
        requires
            hub_str_ok(s@),
        ensures
            hub_parse(s@) matches Some(h) ==> r == Ok::<HubID, String>(h),
            hub_parse(s@) is None <==> r is Err,
            starts_with(s@, "Train"@) ==> r == Ok::<HubID, String>(HubID {
                id: parse_usize(s@.subrange(5, s@.len() as int)).unwrap(),
                kind: HubType::Train,
            }),
            (!starts_with(s@, "Train"@) && starts_with(s@, "Layout"@)) ==> r == Ok::<HubID, String>(HubID {
                id: parse_usize(s@.subrange(6, s@.len() as int)).unwrap(),
                kind: HubType::Layout,
            }),
            (!starts_with(s@, "Train"@) && !starts_with(s@, "Layout"@)) ==> (r matches Err(e) && e@
                == invalid("invalid hub id: "@, s@)),
    {
        let v = str_chars(s);
        proof {
            reveal_strlit("Train");
            reveal_strlit("Layout");
        }
        if v.len() >= 5 && window_is(&v, 0, 5, "Train") {
            let id = parse_usize_window(&v, 5, v.len());
            match id {
                Some(id) => Ok(HubID { id, kind: HubType::Train }),
                None => {
                    proof {
                        assert(false);
                    }
                    Err(String::new())
                },
            }
        } else if v.len() >= 6 && window_is(&v, 0, 6, "Layout") {
            let id = parse_usize_window(&v, 6, v.len());
            match id {
                Some(id) => Ok(HubID { id, kind: HubType::Layout }),
                None => {
                    proof {
                        assert(false);
                    }
                    Err(String::new())
                },
            }
        } else {
            Err(display_string("invalid hub id: ", &v))
        }
    }
}

impl ScheduleID {
    /// `Schedule<id>`.
    pub fn to_string(&self) -> (r: String)
        ensures
            r@ == "Schedule"@ + nat_digits(self.id as nat),
    {
        let mut v: Vec<char> = Vec::new();
        push_str(&mut v, "Schedule");
        push_usize(&mut v, self.id);
        chars_to_string(&v)
    }
}

impl DestinationID {
    /// `Random destination` or `Destination<id>`.
    pub fn to_string(&self) -> (r: String)
        ensures
            r@ == match *self {
                DestinationID::Random => "Random destination"@,
                DestinationID::Specific(id) => "Destination"@ + nat_digits(id as nat),
            },
    {
        let mut v: Vec<char> = Vec::new();
        match self {
            DestinationID::Random => push_str(&mut v, "Random destination"),
            DestinationID::Specific(id) => {
                push_str(&mut v, "Destination");
                push_usize(&mut v, *id);
            },
        }
        chars_to_string(&v)
    }
}

impl TrainID {
    /// `Train<id>`.
    pub fn to_string(&self) -> (r: String)
        ensures
            r@ == "Train"@ + nat_digits(self.id as nat),
    {
        let mut v: Vec<char> = Vec::new();
        push_str(&mut v, "Train");
        push_usize(&mut v, self.id);
        chars_to_string(&v)
    }
}

impl SwitchPosition {
    pub fn to_string(&self) -> (r: String)
        ensures
            r@ == match *self {
                SwitchPosition::Left => "Left"@,
                SwitchPosition::Center => "Center"@,
                SwitchPosition::Right => "Right"@,
            },
    {
        let mut v: Vec<char> = Vec::new();
        match self {
            SwitchPosition::Left => push_str(&mut v, "Left"),
            SwitchPosition::Center => push_str(&mut v, "Center"),
            SwitchPosition::Right => push_str(&mut v, "Right"),
        }
        chars_to_string(&v)
    }
}

impl LayoutDeviceID {
    /// `PulseMotor<id>` or `Signal<id>`.
    pub fn to_string(&self) -> (r: String)
        ensures
            r@ == match self.kind {
                LayoutDeviceType::PulseMotor => "PulseMotor"@,
                LayoutDeviceType::Signal => "Signal"@,
            } + nat_digits(self.id as nat),
    {
        let mut v: Vec<char> = Vec::new();
        match self.kind {
            LayoutDeviceType::PulseMotor => push_str(&mut v, "PulseMotor"),
            LayoutDeviceType::Signal => push_str(&mut v, "Signal"),
        }
        push_usize(&mut v, self.id);
        chars_to_string(&v)
    }
}


// ---------------------------------------------------------------------------
// Display forms read back to what they show
// ---------------------------------------------------------------------------

/// A displayed track reads back as the track.
pub proof fn lemma_track_display_round_trip(t: TrackID)
    ensures
        track_display(t).len() >= 3,
        track_from_name(display_inner(track_display(t))) == Some(t),
{
    let s = track_display(t);
    let bar = seq!['|'];
    let c = cell_name(t.cell);
    let o = orientation_name(t.orientation);
    let tail = o + bar + seq![orientation_arrow(t.orientation)];
    assert(display_inner(s) =~= c + bar + tail);
    lemma_cell_name_round_trip(t.cell);
    lemma_orientation_names_plain(t.orientation);
    lemma_split_after(c, bar, tail);
    lemma_split_after(o, bar, seq![orientation_arrow(t.orientation)]);
}

/// A displayed directed track reads back as the directed track.
pub proof fn lemma_dirtrack_display_round_trip(d: DirectedTrackID)
    ensures
        dirtrack_display(d).len() >= 3,
        dirtrack_from_name(display_inner(dirtrack_display(d))) == Some(d),
{
    let s = dirtrack_display(d);
    let bar = seq!['|'];
    let c = cell_name(d.track.cell);
    let o = match d.direction {
        TrackDirection::First => orientation_reversed_name(d.track.orientation),
        TrackDirection::Last => orientation_name(d.track.orientation),
    };
    let a = seq![direction_arrow(dir_index(d))];
    let tail = o + bar + a;
    assert(display_inner(s) =~= c + bar + tail);
    lemma_cell_name_round_trip(d.track.cell);
    lemma_orientation_names_plain(d.track.orientation);
    lemma_split_after(c, bar, tail);
    lemma_split_after(o, bar, a);
    lemma_dirtrack_name_round_trip(d);
}

/// A displayed logical track reads back as the logical track.
pub proof fn lemma_logical_display_round_trip(t: LogicalTrackID)
    ensures
        logical_display(t).len() >= 3,
        without_arrow(display_inner(logical_display(t))) == logical_name(t),
        logical_name_ok(without_arrow(display_inner(logical_display(t)))),
        logical_from_name(without_arrow(display_inner(logical_display(t)))) == Some(t),
{
    let s = logical_display(t);
    let bar = seq!['|'];
    let d = t.dirtrack;
    let c = cell_name(d.track.cell);
    let o = match d.direction {
        TrackDirection::First => orientation_reversed_name(d.track.orientation),
        TrackDirection::Last => orientation_name(d.track.orientation),
    };
    let of = o + facing_name(t.facing);
    let a = seq![direction_arrow(dir_index(d))];
    assert(display_inner(s) =~= c + bar + (of + bar + a));
    lemma_cell_name_round_trip(d.track.cell);
    lemma_orientation_names_plain(d.track.orientation);
    assert(lacks(of, '|')) by {
        assert forall|k: int| 0 <= k < of.len() implies of[k] != '|' by {
            if k < o.len() {
                assert(of[k] == o[k]);
            }
        }
    }
    lemma_split_after(c, bar, of + bar + a);
    lemma_split_after(of, bar, a);
    assert(without_arrow(display_inner(s)) =~= logical_name(t));
    lemma_logical_name_round_trip(t);
}

/// A displayed block reads back as the block.
pub proof fn lemma_block_display_round_trip(b: BlockID)
    ensures
        bracketed(block_display(b), 2),
        block_display(b).subrange(2, block_display(b).len() - 1) == block_name(b),
        block_name_ok(block_name(b)),
        block_from_name(block_name(b)) == Some(b),
{
    let s = block_display(b);
    assert(s.subrange(2, s.len() - 1) =~= block_name(b));
    assert(s[0] == 'B' && s[1] == '[' && s.last() == ']');
    lemma_block_name_round_trip(b);
}

/// A displayed logical block reads back as the logical block (for blocks
/// named as `BlockID::new` names them, see the name law).
pub proof fn lemma_logical_block_display_round_trip(b: LogicalBlockID)
    requires
        b.block == block_new(b.block.track1, b.block.track2),
        b.direction == BlockDirection::Opposite ==> b.block.track1.track.cell != b.block.track2.track.cell,
    ensures
        bracketed(logical_block_display(b), 3),
        logical_block_from_name(logical_block_display(b).subrange(3, logical_block_display(b).len() - 1))
            == Some(b),
{
    let s = logical_block_display(b);
    assert(s.subrange(3, s.len() - 1) =~= logical_block_name(b));
    assert(s[0] == 'L' && s[1] == 'B' && s[2] == '[' && s.last() == ']');
    lemma_logical_block_name_round_trip(b);
}

/// A displayed sorted connection reads back as the connection.
pub proof fn lemma_connection_display_round_trip(c: TrackConnectionID)
    requires
        crate::layout_primitives::connection_sorted(c),
    ensures
        bracketed(connection_display(c), 2),
        connection_from_name(connection_display(c).subrange(2, connection_display(c).len() - 1)) == Some(c),
{
    let s = connection_display(c);
    assert(s.subrange(2, s.len() - 1) =~= connection_name(c));
    assert(s[0] == 'C' && s[1] == '(' && s.last() == ')');
    lemma_connection_name_round_trip(c);
}

/// A displayed hub identifier reads back as the hub identifier.
pub proof fn lemma_hub_display_round_trip(h: HubID)
    ensures
        hub_str_ok(hub_display(h)),
        h.kind == HubType::Train ==> starts_with(hub_display(h), "Train"@) && parse_usize(
            hub_display(h).subrange(5, hub_display(h).len() as int),
        ) == Some(h.id),
        h.kind == HubType::Layout ==> !starts_with(hub_display(h), "Train"@) && starts_with(
            hub_display(h),
            "Layout"@,
        ) && parse_usize(hub_display(h).subrange(6, hub_display(h).len() as int)) == Some(h.id),
{
    reveal_strlit("Train");
    reveal_strlit("Layout");
    let s = hub_display(h);
    let d = nat_digits(h.id as nat);
    lemma_nat_digits(h.id as nat);
    assert(d.len() > 0 && all_digits(d));
    assert(!(d[0] == '+')) by {
        assert(crate::text::is_digit(d[0]));
    }
    if h.kind == HubType::Train {
        assert(s.subrange(0, 5) =~= "Train"@);
        assert(s.subrange(5, s.len() as int) =~= d);
        assert(!starts_with(s, "Layout"@) || true);
    } else {
        assert(s.subrange(0, 6) =~= "Layout"@);
        assert(s.subrange(6, s.len() as int) =~= d);
        assert(!starts_with(s, "Train"@)) by {
            if starts_with(s, "Train"@) {
                assert(s[0] == 'L');
                assert(s.subrange(0, 5)[0] == 'T');
            }
        }
    }
}

/// Reading a displayed hub identifier gives it back, and a text is refused
/// exactly when it starts with neither `Train` nor `Layout`.
pub proof fn lemma_hub_name_round_trip(h: HubID, s: Seq<char>)
    ensures
        hub_str_ok(hub_display(h)),
        hub_parse(hub_display(h)) == Some(h),
        hub_parse(s) is None <==> (!starts_with(s, "Train"@) && !starts_with(s, "Layout"@)),
{
    lemma_hub_display_round_trip(h);
}

} // verus!
