//! Textual names of layout primitives, as written into saved layouts, and
//! their parsers. Every name parses back to the value it was made from.
use vstd::prelude::*;
use crate::layout_primitives::{
    block_new, connection_new, connection_sorted, dir_index, dirtrack_opposite, BlockDirection, BlockID, CellID, DirectedTrackID,
    Facing, LogicalBlockID, LogicalTrackID, Orientation, TrackConnectionID, TrackDirection, TrackID,
};
use crate::text::{
    chars_to_string, find_pattern, first_match_from, int_chars, lemma_first_match_from_bounds,
    parse_i32, parse_i32_window, push_int, split_field, split_field_any, split_window,
    split_window_any, str_chars, lacks, is_digit, lemma_int_chars_lacks, lemma_parse_int_chars,
    lemma_split_after, lemma_split_whole, lemma_split_any_after,
};

verus! {

// ---------------------------------------------------------------------------
// Names, as sequences of characters
// ---------------------------------------------------------------------------

pub open spec fn orientation_name(o: Orientation) -> Seq<char> {
    match o {
        Orientation::EW => seq!['E', 'W'],
        Orientation::NE => seq!['N', 'E'],
        Orientation::NS => seq!['N', 'S'],
        Orientation::NW => seq!['N', 'W'],
        Orientation::SE => seq!['S', 'E'],
        Orientation::SW => seq!['S', 'W'],
    }
}

pub open spec fn orientation_reversed_name(o: Orientation) -> Seq<char> {
    match o {
        Orientation::EW => seq!['W', 'E'],
        Orientation::NE => seq!['E', 'N'],
        Orientation::NS => seq!['S', 'N'],
        Orientation::NW => seq!['W', 'N'],
        Orientation::SE => seq!['E', 'S'],
        Orientation::SW => seq!['W', 'S'],
    }
}

pub open spec fn orientation_from_name(s: Seq<char>) -> Option<Orientation> {
    if s == seq!['E', 'W'] {
        Some(Orientation::EW)
    } else if s == seq!['N', 'E'] {
        Some(Orientation::NE)
    } else if s == seq!['N', 'S'] {
        Some(Orientation::NS)
    } else if s == seq!['N', 'W'] {
        Some(Orientation::NW)
    } else if s == seq!['S', 'E'] {
        Some(Orientation::SE)
    } else if s == seq!['S', 'W'] {
        Some(Orientation::SW)
    } else {
        None
    }
}

pub open spec fn orientation_from_reversed_name(s: Seq<char>) -> Option<Orientation> {
    if s == seq!['W', 'E'] {
        Some(Orientation::EW)
    } else if s == seq!['E', 'N'] {
        Some(Orientation::NE)
    } else if s == seq!['S', 'N'] {
        Some(Orientation::NS)
    } else if s == seq!['W', 'N'] {
        Some(Orientation::NW)
    } else if s == seq!['E', 'S'] {
        Some(Orientation::SE)
    } else if s == seq!['W', 'S'] {
        Some(Orientation::SW)
    } else {
        None
    }
}

pub open spec fn orientation_arrow(o: Orientation) -> char {
    match o {
        Orientation::EW => '\u{2194}',
        Orientation::NE => '\u{2921}',
        Orientation::NS => '\u{2195}',
        Orientation::NW => '\u{2922}',
        Orientation::SE => '\u{2922}',
        Orientation::SW => '\u{2921}',
    }
}

pub open spec fn direction_arrow(i: int) -> char {
    if i == 0 {
        '\u{2192}'
    } else if i == 1 {
        '\u{2198}'
    } else if i == 2 {
        '\u{2193}'
    } else if i == 3 {
        '\u{2199}'
    } else if i == 4 {
        '\u{2190}'
    } else if i == 5 {
        '\u{2196}'
    } else if i == 6 {
        '\u{2191}'
    } else if i == 7 {
        '\u{2197}'
    } else {
        'X'
    }
}

pub open spec fn facing_name(f: Facing) -> Seq<char> {
    match f {
        Facing::Forward => seq!['>'],
        Facing::Backward => seq!['<'],
    }
}

pub open spec fn facing_from_name(s: Seq<char>) -> Option<Facing> {
    if s == seq!['>'] {
        Some(Facing::Forward)
    } else if s == seq!['<'] {
        Some(Facing::Backward)
    } else {
        None
    }
}

pub open spec fn block_direction_name(d: BlockDirection) -> Seq<char> {
    match d {
        BlockDirection::Aligned => seq!['-', '>'],
        BlockDirection::Opposite => seq!['<', '-'],
    }
}

pub open spec fn cell_name(c: CellID) -> Seq<char> {
    int_chars(c.x as int) + seq![','] + int_chars(c.y as int) + seq![','] + int_chars(c.l as int)
}

pub open spec fn track_name(t: TrackID) -> Seq<char> {
    cell_name(t.cell) + seq!['|'] + orientation_name(t.orientation)
}

pub open spec fn dirtrack_name(d: DirectedTrackID) -> Seq<char> {
    cell_name(d.track.cell) + seq!['|'] + match d.direction {
        TrackDirection::First => orientation_reversed_name(d.track.orientation),
        TrackDirection::Last => orientation_name(d.track.orientation),
    }
}

pub open spec fn logical_name(t: LogicalTrackID) -> Seq<char> {
    dirtrack_name(t.dirtrack) + facing_name(t.facing)
}

pub open spec fn block_name(b: BlockID) -> Seq<char> {
    seq!['('] + dirtrack_name(b.track1) + seq![')', '-', '('] + dirtrack_name(b.track2) + seq![')']
}

/// The two directed tracks a logical block's name shows: where the train
/// enters, and the far end pointing out.
pub open spec fn logical_block_ends(b: LogicalBlockID) -> (DirectedTrackID, DirectedTrackID) {
    match b.direction {
        BlockDirection::Aligned => (b.block.track1, dirtrack_opposite(b.block.track2)),
        BlockDirection::Opposite => (b.block.track2, dirtrack_opposite(b.block.track1)),
    }
}

pub open spec fn logical_block_name(b: LogicalBlockID) -> Seq<char> {
    seq!['('] + dirtrack_name(logical_block_ends(b).0) + seq![')'] + facing_name(b.facing) + seq!['(']
        + dirtrack_name(logical_block_ends(b).1) + seq![')']
}

pub open spec fn connection_name(c: TrackConnectionID) -> Seq<char> {
    dirtrack_name(c.track_a) + seq!['>', '<'] + dirtrack_name(c.track_b)
}

// ---------------------------------------------------------------------------
// Parsing, as the parsers read names
// ---------------------------------------------------------------------------

pub open spec fn cell_from_name(s: Seq<char>) -> Option<CellID> {
    match (split_field(s, seq![','], 0), split_field(s, seq![','], 1), split_field(s, seq![','], 2)) {
        (Some(xs), Some(ys), Some(ls)) => match (parse_i32(xs), parse_i32(ys), parse_i32(ls)) {
            (Some(x), Some(y), Some(l)) => Some(CellID { x, y, l }),
            _ => None,
        },
        _ => None,
    }
}

pub open spec fn track_from_name(s: Seq<char>) -> Option<TrackID> {
    match (split_field(s, seq!['|'], 0), split_field(s, seq!['|'], 1)) {
        (Some(c), Some(o)) => match (cell_from_name(c), orientation_from_name(o)) {
            (Some(cell), Some(orientation)) => Some(TrackID { cell, orientation }),
            _ => None,
        },
        _ => None,
    }
}

pub open spec fn dirtrack_orientation_from_name(s: Seq<char>) -> Option<(TrackDirection, Orientation)> {
    match orientation_from_name(s) {
        Some(o) => Some((TrackDirection::Last, o)),
        None => match orientation_from_reversed_name(s) {
            Some(o) => Some((TrackDirection::First, o)),
            None => None,
        },
    }
}

pub open spec fn dirtrack_from_name(s: Seq<char>) -> Option<DirectedTrackID> {
    match (split_field(s, seq!['|'], 0), split_field(s, seq!['|'], 1)) {
        (Some(c), Some(o)) => match (cell_from_name(c), dirtrack_orientation_from_name(o)) {
            (Some(cell), Some((direction, orientation))) => Some(DirectedTrackID {
                track: TrackID { cell, orientation },
                direction,
            }),
            _ => None,
        },
        _ => None,
    }
}

/// A logical track name ends in one ASCII character, the facing.
pub open spec fn logical_name_ok(s: Seq<char>) -> bool {
    s.len() > 0 && (s.last() as u32) < 128
}

pub open spec fn logical_from_name(s: Seq<char>) -> Option<LogicalTrackID> {
    match (facing_from_name(seq![s.last()]), dirtrack_from_name(s.drop_last())) {
        (Some(facing), Some(dirtrack)) => Some(LogicalTrackID { dirtrack, facing }),
        _ => None,
    }
}

/// A block name whose `)-(` separator sits where the block parser can cut around it.
pub open spec fn block_name_ok(s: Seq<char>) -> bool {
    match first_match_from(s, seq![')', '-', '('], 0) {
        None => true,
        Some(k) => k >= 1 && (s[0] as u32) < 128 && s.len() >= k + 4 && (s.last() as u32) < 128,
    }
}

pub open spec fn block_from_name(s: Seq<char>) -> Option<BlockID> {
    match first_match_from(s, seq![')', '-', '('], 0) {
        None => None,
        Some(k) => match (dirtrack_from_name(s.subrange(1, k)), dirtrack_from_name(s.subrange(k + 3, s.len() - 1))) {
            (Some(track1), Some(track2)) => Some(BlockID { track1, track2 }),
            _ => None,
        },
    }
}

/// Rebuilds a logical block from the two ends its name shows.
pub open spec fn logical_block_from_ends(first: DirectedTrackID, second: DirectedTrackID, facing: Facing) -> LogicalBlockID {
    let b = block_new(first, dirtrack_opposite(second));
    if b.track1 == first {
        LogicalBlockID { block: b, direction: BlockDirection::Aligned, facing }
    } else {
        LogicalBlockID {
            block: block_new(dirtrack_opposite(second), first),
            direction: BlockDirection::Opposite,
            facing,
        }
    }
}

pub open spec fn logical_block_from_name(s: Seq<char>) -> Option<LogicalBlockID> {
    match (split_field_any(s, '(', ')', 1), split_field_any(s, '(', ')', 2), split_field_any(s, '(', ')', 3)) {
        (Some(f), Some(fc), Some(sc)) => match (dirtrack_from_name(f), dirtrack_from_name(sc), facing_from_name(fc)) {
            (Some(first), Some(second), Some(facing)) => Some(logical_block_from_ends(first, second, facing)),
            _ => None,
        },
        _ => None,
    }
}

pub open spec fn connection_from_name(s: Seq<char>) -> Option<TrackConnectionID> {
    match (split_field(s, seq!['>', '<'], 0), split_field(s, seq!['>', '<'], 1)) {
        (Some(a), Some(b)) => match (dirtrack_from_name(a), dirtrack_from_name(b)) {
            (Some(track_a), Some(track_b)) => Some(connection_new(track_a, track_b)),
            _ => None,
        },
        _ => None,
    }
}

// ---------------------------------------------------------------------------
// Writing names
// ---------------------------------------------------------------------------

fn push_pair(out: &mut Vec<char>, a: char, b: char)
    ensures
        final(out)@ == old(out)@ + seq![a, b],
{
    out.push(a);
    out.push(b);
    assert(final(out)@ =~= old(out)@ + seq![a, b]);
}

fn push_orientation_name(out: &mut Vec<char>, o: Orientation)
    ensures
        final(out)@ == old(out)@ + orientation_name(o),
{
    match o {
        Orientation::EW => push_pair(out, 'E', 'W'),
        Orientation::NE => push_pair(out, 'N', 'E'),
        Orientation::NS => push_pair(out, 'N', 'S'),
        Orientation::NW => push_pair(out, 'N', 'W'),
        Orientation::SE => push_pair(out, 'S', 'E'),
        Orientation::SW => push_pair(out, 'S', 'W'),
    }
}

fn push_orientation_reversed_name(out: &mut Vec<char>, o: Orientation)
    ensures
        final(out)@ == old(out)@ + orientation_reversed_name(o),
{
    match o {
        Orientation::EW => push_pair(out, 'W', 'E'),
        Orientation::NE => push_pair(out, 'E', 'N'),
        Orientation::NS => push_pair(out, 'S', 'N'),
        Orientation::NW => push_pair(out, 'W', 'N'),
        Orientation::SE => push_pair(out, 'E', 'S'),
        Orientation::SW => push_pair(out, 'W', 'S'),
    }
}

fn push_facing_name(out: &mut Vec<char>, f: Facing)
    ensures
        final(out)@ == old(out)@ + facing_name(f),
{
    match f {
        Facing::Forward => out.push('>'),
        Facing::Backward => out.push('<'),
    }
    assert(final(out)@ =~= old(out)@ + facing_name(f));
}

fn push_cell_name(out: &mut Vec<char>, c: CellID)
    ensures
        final(out)@ == old(out)@ + cell_name(c),
{
    push_int(out, c.x);
    out.push(',');
    push_int(out, c.y);
    out.push(',');
    push_int(out, c.l);
    assert(final(out)@ =~= old(out)@ + cell_name(c));
}

fn push_track_name(out: &mut Vec<char>, t: TrackID)
    ensures
        final(out)@ == old(out)@ + track_name(t),
{
    push_cell_name(out, t.cell);
    out.push('|');
    push_orientation_name(out, t.orientation);
    assert(final(out)@ =~= old(out)@ + track_name(t));
}

fn push_dirtrack_name(out: &mut Vec<char>, d: DirectedTrackID)
    ensures
        final(out)@ == old(out)@ + dirtrack_name(d),
{
    push_cell_name(out, d.track.cell);
    out.push('|');
    match d.direction {
        TrackDirection::First => push_orientation_reversed_name(out, d.track.orientation),
        TrackDirection::Last => push_orientation_name(out, d.track.orientation),
    }
    assert(final(out)@ =~= old(out)@ + dirtrack_name(d));
}

fn orientation_arrow_char(o: Orientation) -> (r: char)
    ensures
        r == orientation_arrow(o),
{
    match o {
        Orientation::EW => '\u{2194}',
        Orientation::NE => '\u{2921}',
        Orientation::NS => '\u{2195}',
        Orientation::NW => '\u{2922}',
        Orientation::SE => '\u{2922}',
        Orientation::SW => '\u{2921}',
    }
}

fn direction_arrow_char(i: i32) -> (r: char)
    ensures
        r == direction_arrow(i as int),
{
    if i == 0 {
        '\u{2192}'
    } else if i == 1 {
        '\u{2198}'
    } else if i == 2 {
        '\u{2193}'
    } else if i == 3 {
        '\u{2199}'
    } else if i == 4 {
        '\u{2190}'
    } else if i == 5 {
        '\u{2196}'
    } else if i == 6 {
        '\u{2191}'
    } else if i == 7 {
        '\u{2197}'
    } else {
        'X'
    }
}

impl Orientation {
    pub fn get_name(&self) -> (r: String)
        ensures
            r@ == orientation_name(*self),
    {
        let mut v: Vec<char> = Vec::new();
        push_orientation_name(&mut v, *self);
        assert(v@ =~= orientation_name(*self));
        chars_to_string(&v)
    }

    pub fn get_reversed_name(&self) -> (r: String)
        ensures
            r@ == orientation_reversed_name(*self),
    {
        let mut v: Vec<char> = Vec::new();
        push_orientation_reversed_name(&mut v, *self);
        assert(v@ =~= orientation_reversed_name(*self));
        chars_to_string(&v)
    }

    pub fn get_unicode_arrow(&self) -> (r: char)
        ensures
            r == orientation_arrow(*self),
    {
        orientation_arrow_char(*self)
    }

    pub fn from_name(name: &str) -> (r: Option<Self>)
        ensures
            r == orientation_from_name(name@),
    {
        let v = str_chars(name);
        proof {
            assert(v@.subrange(0, v@.len() as int) =~= name@);
        }
        orientation_from_window(&v, 0, v.len())
    }

    pub fn from_reversed_name(name: &str) -> (r: Option<Self>)
        ensures
            r == orientation_from_reversed_name(name@),
    {
        let v = str_chars(name);
        proof {
            assert(v@.subrange(0, v@.len() as int) =~= name@);
        }
        orientation_from_reversed_window(&v, 0, v.len())
    }
}

impl DirectedTrackID {
    pub fn get_unicode_arrow(&self) -> (r: char)
        ensures
            r == direction_arrow(dir_index(*self)),
    {
        direction_arrow_char(self.dir_index())
    }

    pub fn get_name(&self) -> (r: String)
        ensures
            r@ == dirtrack_name(*self),
    {
        let mut v: Vec<char> = Vec::new();
        push_dirtrack_name(&mut v, *self);
        assert(v@ =~= dirtrack_name(*self));
        chars_to_string(&v)
    }
}

impl TrackID {
    pub fn get_name(&self) -> (r: String)
        ensures
            r@ == track_name(*self),
    {
        let mut v: Vec<char> = Vec::new();
        push_track_name(&mut v, *self);
        assert(v@ =~= track_name(*self));
        chars_to_string(&v)
    }
}

impl LogicalTrackID {
    pub fn get_name(&self) -> (r: String)
        ensures
            r@ == logical_name(*self),
    {
        let mut v: Vec<char> = Vec::new();
        push_dirtrack_name(&mut v, self.dirtrack);
        push_facing_name(&mut v, self.facing);
        assert(v@ =~= logical_name(*self));
        chars_to_string(&v)
    }
}

impl BlockID {
    pub fn get_name(&self) -> (r: String)
        ensures
            r@ == block_name(*self),
    {
        let mut v: Vec<char> = Vec::new();
        v.push('(');
        push_dirtrack_name(&mut v, self.track1);
        v.push(')');
        v.push('-');
        v.push('(');
        push_dirtrack_name(&mut v, self.track2);
        v.push(')');
        assert(v@ =~= block_name(*self));
        chars_to_string(&v)
    }
}

impl LogicalBlockID {
    pub fn get_name(&self) -> (r: String)
        ensures
            r@ == logical_block_name(*self),
    {
        let (first, second) = match self.direction {
            BlockDirection::Aligned => (self.block.track1, self.block.track2.opposite()),
            BlockDirection::Opposite => (self.block.track2, self.block.track1.opposite()),
        };
        let mut v: Vec<char> = Vec::new();
        v.push('(');
        push_dirtrack_name(&mut v, first);
        v.push(')');
        push_facing_name(&mut v, self.facing);
        v.push('(');
        push_dirtrack_name(&mut v, second);
        v.push(')');
        assert(v@ =~= logical_block_name(*self));
        chars_to_string(&v)
    }
}

impl TrackConnectionID {
    pub fn get_name(&self) -> (r: String)
        ensures
            r@ == connection_name(*self),
    {
        let mut v: Vec<char> = Vec::new();
        push_dirtrack_name(&mut v, self.track_a);
        v.push('>');
        v.push('<');
        push_dirtrack_name(&mut v, self.track_b);
        assert(v@ =~= connection_name(*self));
        chars_to_string(&v)
    }
}

// ---------------------------------------------------------------------------
// Reading names
// ---------------------------------------------------------------------------

fn orientation_from_window(v: &Vec<char>, lo: usize, hi: usize) -> (r: Option<Orientation>)
    requires
        lo <= hi <= v@.len(),
    ensures
        r == orientation_from_name(v@.subrange(lo as int, hi as int)),
{
    let ghost s = v@.subrange(lo as int, hi as int);
    if hi - lo != 2 {
        proof {
            assert(seq!['E', 'W'].len() == 2);
            assert(seq!['N', 'E'].len() == 2);
            assert(seq!['N', 'S'].len() == 2);
            assert(seq!['N', 'W'].len() == 2);
            assert(seq!['S', 'E'].len() == 2);
            assert(seq!['S', 'W'].len() == 2);
        }
        return None;
    }
    let a = v[lo];
    let b = v[lo + 1];
    proof {
        assert(s =~= seq![a, b]);
    }
    if a == 'E' && b == 'W' {
        Some(Orientation::EW)
    } else if a == 'N' && b == 'E' {
        Some(Orientation::NE)
    } else if a == 'N' && b == 'S' {
        Some(Orientation::NS)
    } else if a == 'N' && b == 'W' {
        Some(Orientation::NW)
    } else if a == 'S' && b == 'E' {
        Some(Orientation::SE)
    } else if a == 'S' && b == 'W' {
        Some(Orientation::SW)
    } else {
        proof {
            assert(s != seq!['E', 'W'] && s != seq!['N', 'E'] && s != seq!['N', 'S'] && s != seq!['N', 'W']
                && s != seq!['S', 'E'] && s != seq!['S', 'W']) by {
                if s == seq!['E', 'W'] || s == seq!['N', 'E'] || s == seq!['N', 'S'] || s == seq!['N', 'W']
                    || s == seq!['S', 'E'] || s == seq!['S', 'W'] {
                    assert(s[0] == a && s[1] == b);
                }
            }
        }
        None
    }
}

fn orientation_from_reversed_window(v: &Vec<char>, lo: usize, hi: usize) -> (r: Option<Orientation>)
    requires
        lo <= hi <= v@.len(),
    ensures
        r == orientation_from_reversed_name(v@.subrange(lo as int, hi as int)),
{
    let ghost s = v@.subrange(lo as int, hi as int);
    if hi - lo != 2 {
        proof {
            assert(seq!['W', 'E'].len() == 2);
            assert(seq!['E', 'N'].len() == 2);
            assert(seq!['S', 'N'].len() == 2);
            assert(seq!['W', 'N'].len() == 2);
            assert(seq!['E', 'S'].len() == 2);
            assert(seq!['W', 'S'].len() == 2);
        }
        return None;
    }
    let a = v[lo];
    let b = v[lo + 1];
    proof {
        assert(s =~= seq![a, b]);
    }
    if a == 'W' && b == 'E' {
        Some(Orientation::EW)
    } else if a == 'E' && b == 'N' {
        Some(Orientation::NE)
    } else if a == 'S' && b == 'N' {
        Some(Orientation::NS)
    } else if a == 'W' && b == 'N' {
        Some(Orientation::NW)
    } else if a == 'E' && b == 'S' {
        Some(Orientation::SE)
    } else if a == 'W' && b == 'S' {
        Some(Orientation::SW)
    } else {
        proof {
            assert(s != seq!['W', 'E'] && s != seq!['E', 'N'] && s != seq!['S', 'N'] && s != seq!['W', 'N']
                && s != seq!['E', 'S'] && s != seq!['W', 'S']) by {
                if s == seq!['W', 'E'] || s == seq!['E', 'N'] || s == seq!['S', 'N'] || s == seq!['W', 'N']
                    || s == seq!['E', 'S'] || s == seq!['W', 'S'] {
                    assert(s[0] == a && s[1] == b);
                }
            }
        }
        None
    }
}

fn facing_from_char(c: char) -> (r: Option<Facing>)
    ensures
        r == facing_from_name(seq![c]),
{
    if c == '>' {
        Some(Facing::Forward)
    } else if c == '<' {
        Some(Facing::Backward)
    } else {
        proof {
            if seq![c] == seq!['>'] || seq![c] == seq!['<'] {
                assert(seq![c][0] == c);
            }
        }
        None
    }
}

fn cell_from_window(v: &Vec<char>, lo: usize, hi: usize) -> (r: Option<CellID>)
    requires
        lo <= hi <= v@.len(),
    ensures
        r == cell_from_name(v@.subrange(lo as int, hi as int)),
{
    let comma: Vec<char> = vec![','];
    assert(comma@ =~= seq![',']);
    let xs = split_window(v, lo, hi, &comma, 0);
    let ys = split_window(v, lo, hi, &comma, 1);
    let ls = split_window(v, lo, hi, &comma, 2);
    match (xs, ys, ls) {
        (Some((xa, xb)), Some((ya, yb)), Some((la, lb))) => {
            let x = parse_i32_window(v, xa, xb);
            let y = parse_i32_window(v, ya, yb);
            let l = parse_i32_window(v, la, lb);
            match (x, y, l) {
                (Some(x), Some(y), Some(l)) => Some(CellID { x, y, l }),
                _ => None,
            }
        },
        _ => None,
    }
}

fn track_from_window(v: &Vec<char>, lo: usize, hi: usize) -> (r: Option<TrackID>)
    requires
        lo <= hi <= v@.len(),
    ensures
        r == track_from_name(v@.subrange(lo as int, hi as int)),
{
    let bar: Vec<char> = vec!['|'];
    assert(bar@ =~= seq!['|']);
    let cs = split_window(v, lo, hi, &bar, 0);
    let os = split_window(v, lo, hi, &bar, 1);
    match (cs, os) {
        (Some((ca, cb)), Some((oa, ob))) => {
            let cell = cell_from_window(v, ca, cb);
            let orientation = orientation_from_window(v, oa, ob);
            match (cell, orientation) {
                (Some(cell), Some(orientation)) => Some(TrackID { cell, orientation }),
                _ => None,
            }
        },
        _ => None,
    }
}

fn dirtrack_from_window(v: &Vec<char>, lo: usize, hi: usize) -> (r: Option<DirectedTrackID>)
    requires
        lo <= hi <= v@.len(),
    ensures
        r == dirtrack_from_name(v@.subrange(lo as int, hi as int)),
{
    let bar: Vec<char> = vec!['|'];
    assert(bar@ =~= seq!['|']);
    let cs = split_window(v, lo, hi, &bar, 0);
    let os = split_window(v, lo, hi, &bar, 1);
    match (cs, os) {
        (Some((ca, cb)), Some((oa, ob))) => {
            let cell = cell_from_window(v, ca, cb);
            let oriented = match orientation_from_window(v, oa, ob) {
                Some(o) => Some((TrackDirection::Last, o)),
                None => match orientation_from_reversed_window(v, oa, ob) {
                    Some(o) => Some((TrackDirection::First, o)),
                    None => None,
                },
            };
            match (cell, oriented) {
                (Some(cell), Some((direction, orientation))) => Some(DirectedTrackID {
                    track: TrackID { cell, orientation },
                    direction,
                }),
                _ => None,
            }
        },
        _ => None,
    }
}

fn logical_from_window(v: &Vec<char>, lo: usize, hi: usize) -> (r: Option<LogicalTrackID>)
    requires
        lo < hi <= v@.len(),
    ensures
        r == logical_from_name(v@.subrange(lo as int, hi as int)),
{
    let ghost s = v@.subrange(lo as int, hi as int);
    proof {
        assert(s.drop_last() =~= v@.subrange(lo as int, hi - 1));
        assert(s.last() == v@[hi - 1]);
    }
    let facing = facing_from_char(v[hi - 1]);
    let dirtrack = dirtrack_from_window(v, lo, hi - 1);
    match (facing, dirtrack) {
        (Some(facing), Some(dirtrack)) => Some(LogicalTrackID { dirtrack, facing }),
        _ => None,
    }
}

fn block_from_window(v: &Vec<char>, lo: usize, hi: usize) -> (r: Option<BlockID>)
    requires
        lo <= hi <= v@.len(),
        block_name_ok(v@.subrange(lo as int, hi as int)),
    ensures
        r == block_from_name(v@.subrange(lo as int, hi as int)),
{
    let ghost s = v@.subrange(lo as int, hi as int);
    let sep: Vec<char> = vec![')', '-', '('];
    assert(sep@ =~= seq![')', '-', '(']);
    let k = match find_pattern(v, lo, hi, &sep) {
        Some(k) => k,
        None => {
            return None;
        },
    };
    proof {
        lemma_first_match_from_bounds(s, sep@, 0);
        assert(s.subrange(1, k - lo) =~= v@.subrange(lo + 1, k as int));
        assert(s.subrange(k - lo + 3, s.len() - 1) =~= v@.subrange(k + 3, hi - 1));
    }
    let track1 = dirtrack_from_window(v, lo + 1, k);
    let track2 = dirtrack_from_window(v, k + 3, hi - 1);
    match (track1, track2) {
        (Some(track1), Some(track2)) => Some(BlockID { track1, track2 }),
        _ => None,
    }
}

fn logical_block_from_window(v: &Vec<char>, lo: usize, hi: usize) -> (r: Option<LogicalBlockID>)
    requires
        lo <= hi <= v@.len(),
    ensures
        r == logical_block_from_name(v@.subrange(lo as int, hi as int)),
{
    let fs = split_window_any(v, lo, hi, '(', ')', 1);
    let fcs = split_window_any(v, lo, hi, '(', ')', 2);
    let scs = split_window_any(v, lo, hi, '(', ')', 3);
    match (fs, fcs, scs) {
        (Some((fa, fb)), Some((ca, cb)), Some((sa, sb))) => {
            let first = dirtrack_from_window(v, fa, fb);
            let second = dirtrack_from_window(v, sa, sb);
            let facing = if cb - ca == 1 {
                proof {
                    assert(v@.subrange(ca as int, cb as int) =~= seq![v@[ca as int]]);
                }
                facing_from_char(v[ca])
            } else {
                proof {
                    let t = v@.subrange(ca as int, cb as int);
                    assert(t.len() != 1);
                    assert(t != seq!['>'] && t != seq!['<']);
                }
                None
            };
            match (first, second, facing) {
                (Some(first), Some(second), Some(facing)) => {
                    let block_id = BlockID::new(first, second.opposite());
                    if block_id.track1 == first {
                        Some(LogicalBlockID { block: block_id, direction: BlockDirection::Aligned, facing })
                    } else {
                        Some(LogicalBlockID {
                            block: BlockID::new(second.opposite(), first),
                            direction: BlockDirection::Opposite,
                            facing,
                        })
                    }
                },
                _ => None,
            }
        },
        _ => None,
    }
}

fn connection_from_window(v: &Vec<char>, lo: usize, hi: usize) -> (r: Option<TrackConnectionID>)
    requires
        lo <= hi <= v@.len(),
    ensures
        r == connection_from_name(v@.subrange(lo as int, hi as int)),
{
    let sep: Vec<char> = vec!['>', '<'];
    assert(sep@ =~= seq!['>', '<']);
    let a = split_window(v, lo, hi, &sep, 0);
    let b = split_window(v, lo, hi, &sep, 1);
    match (a, b) {
        (Some((aa, ab)), Some((ba, bb))) => {
            let track_a = dirtrack_from_window(v, aa, ab);
            let track_b = dirtrack_from_window(v, ba, bb);
            match (track_a, track_b) {
                (Some(track_a), Some(track_b)) => Some(TrackConnectionID::new(track_a, track_b)),
                _ => None,
            }
        },
        _ => None,
    }
}

impl TrackID {
    pub fn from_name(name: &str) -> (r: Option<Self>)
        ensures
            r == track_from_name(name@),
    {
        let v = str_chars(name);
        proof {
            assert(v@.subrange(0, v@.len() as int) =~= name@);
        }
        track_from_window(&v, 0, v.len())
    }
}

impl DirectedTrackID {
    pub fn from_name(name: &str) -> (r: Option<Self>)
        ensures
            r == dirtrack_from_name(name@),
    {
        let v = str_chars(name);
        proof {
            assert(v@.subrange(0, v@.len() as int) =~= name@);
        }
        dirtrack_from_window(&v, 0, v.len())
    }
}

impl LogicalTrackID {
    pub fn from_name(name: &str) -> (r: Option<Self>)
        requires
            logical_name_ok(name@),
        ensures
            r == logical_from_name(name@),
    {
        let v = str_chars(name);
        proof {
            assert(v@.subrange(0, v@.len() as int) =~= name@);
        }
        logical_from_window(&v, 0, v.len())
    }
}

impl BlockID {
    pub fn from_name(name: &str) -> (r: Option<Self>)
        requires
            block_name_ok(name@),
        ensures
            r == block_from_name(name@),
    {
        let v = str_chars(name);
        proof {
            assert(v@.subrange(0, v@.len() as int) =~= name@);
        }
        block_from_window(&v, 0, v.len())
    }
}

impl LogicalBlockID {
    pub fn from_name(name: &str) -> (r: Option<Self>)
        ensures
            r == logical_block_from_name(name@),
    {
        let v = str_chars(name);
        proof {
            assert(v@.subrange(0, v@.len() as int) =~= name@);
        }
        logical_block_from_window(&v, 0, v.len())
    }
}

impl TrackConnectionID {
    pub fn from_name(name: &str) -> (r: Option<Self>)
        ensures
            r == connection_from_name(name@),
    {
        let v = str_chars(name);
        proof {
            assert(v@.subrange(0, v@.len() as int) =~= name@);
        }
        connection_from_window(&v, 0, v.len())
    }
}


// ---------------------------------------------------------------------------
// Names read back to what they were made from
// ---------------------------------------------------------------------------

/// Characters that occur in cell, track and directed track names.
pub open spec fn name_char(c: char) -> bool {
    is_digit(c) || c == '-' || c == ',' || c == '|' || c == 'N' || c == 'S' || c == 'E' || c == 'W'
}

pub open spec fn plain(s: Seq<char>) -> bool {
    forall|k: int| 0 <= k < s.len() ==> name_char(#[trigger] s[k])
}

proof fn lemma_plain_lacks(s: Seq<char>, c: char)
    requires
        plain(s),
        !name_char(c),
    ensures
        lacks(s, c),
{
    assert forall|k: int| 0 <= k < s.len() implies s[k] != c by {
        assert(name_char(s[k]));
    }
}

proof fn lemma_plain_concat(a: Seq<char>, b: Seq<char>)
    requires
        plain(a),
        plain(b),
    ensures
        plain(a + b),
{
    assert forall|k: int| 0 <= k < (a + b).len() implies name_char(#[trigger] (a + b)[k]) by {
        if k < a.len() {
            assert((a + b)[k] == a[k]);
        } else {
            assert((a + b)[k] == b[k - a.len()]);
        }
    }
}

proof fn lemma_int_plain(i: i32)
    ensures
        plain(int_chars(i as int)),
        lacks(int_chars(i as int), ','),
        lacks(int_chars(i as int), '|'),
{
    lemma_parse_int_chars(i);
    lemma_int_chars_lacks(i, ',');
    lemma_int_chars_lacks(i, '|');
}

pub proof fn lemma_orientation_names_plain(o: Orientation)
    ensures
        plain(orientation_name(o)),
        plain(orientation_reversed_name(o)),
        lacks(orientation_name(o), '|'),
        lacks(orientation_reversed_name(o), '|'),
{
}

/// A cell's name reads back as the cell.
pub proof fn lemma_cell_name_round_trip(c: CellID)
    ensures
        cell_from_name(cell_name(c)) == Some(c),
        plain(cell_name(c)),
        lacks(cell_name(c), '|'),
{
    let x = int_chars(c.x as int);
    let y = int_chars(c.y as int);
    let l = int_chars(c.l as int);
    lemma_int_plain(c.x);
    lemma_int_plain(c.y);
    lemma_int_plain(c.l);
    lemma_parse_int_chars(c.x);
    lemma_parse_int_chars(c.y);
    lemma_parse_int_chars(c.l);
    let comma = seq![','];
    let rest = y + comma + l;
    assert(cell_name(c) =~= x + comma + rest);
    lemma_split_after(x, comma, rest);
    lemma_split_after(y, comma, l);
    lemma_split_whole(l, comma);
    lemma_plain_concat(x, comma);
    lemma_plain_concat(x + comma, y);
    lemma_plain_concat(x + comma + y, comma);
    lemma_plain_concat(x + comma + y + comma, l);
    assert(cell_name(c) =~= x + comma + y + comma + l);
    assert(lacks(cell_name(c), '|')) by {
        assert forall|k: int| 0 <= k < cell_name(c).len() implies cell_name(c)[k] != '|' by {
            let s = cell_name(c);
            if k < x.len() {
                assert(s[k] == x[k]);
            } else if k == x.len() {
            } else if k < x.len() + 1 + y.len() {
                assert(s[k] == y[k - x.len() - 1]);
            } else if k == x.len() + 1 + y.len() {
            } else {
                assert(s[k] == l[k - x.len() - 2 - y.len()]);
            }
        }
    }
}

pub proof fn lemma_plain_char_lacks(s: Seq<char>)
    requires
        plain(s),
    ensures
        lacks(s, '>'),
        lacks(s, '<'),
        lacks(s, '('),
        lacks(s, ')'),
{
    lemma_plain_lacks(s, '>');
    lemma_plain_lacks(s, '<');
    lemma_plain_lacks(s, '(');
    lemma_plain_lacks(s, ')');
}

/// A track's name reads back as the track.
pub proof fn lemma_track_name_round_trip(t: TrackID)
    ensures
        track_from_name(track_name(t)) == Some(t),
{
    lemma_cell_name_round_trip(t.cell);
    lemma_orientation_names_plain(t.orientation);
    let bar = seq!['|'];
    lemma_split_after(cell_name(t.cell), bar, orientation_name(t.orientation));
    lemma_split_whole(orientation_name(t.orientation), bar);
}

/// A directed track's name reads back as the directed track, and uses only
/// the characters of cell and orientation names.
pub proof fn lemma_dirtrack_name_round_trip(d: DirectedTrackID)
    ensures
        dirtrack_from_name(dirtrack_name(d)) == Some(d),
        plain(dirtrack_name(d)),
{
    lemma_cell_name_round_trip(d.track.cell);
    lemma_orientation_names_plain(d.track.orientation);
    let bar = seq!['|'];
    let o = match d.direction {
        TrackDirection::First => orientation_reversed_name(d.track.orientation),
        TrackDirection::Last => orientation_name(d.track.orientation),
    };
    assert(dirtrack_name(d) == cell_name(d.track.cell) + bar + o);
    lemma_split_after(cell_name(d.track.cell), bar, o);
    lemma_split_whole(o, bar);
    lemma_plain_concat(cell_name(d.track.cell), bar);
    lemma_plain_concat(cell_name(d.track.cell) + bar, o);
}

/// A logical track's name reads back as the logical track.
pub proof fn lemma_logical_name_round_trip(t: LogicalTrackID)
    ensures
        logical_name_ok(logical_name(t)),
        logical_from_name(logical_name(t)) == Some(t),
{
    lemma_dirtrack_name_round_trip(t.dirtrack);
    let s = logical_name(t);
    assert(s.drop_last() =~= dirtrack_name(t.dirtrack));
    assert(seq![s.last()] =~= facing_name(t.facing));
}

/// A block's name reads back as the block.
pub proof fn lemma_block_name_round_trip(b: BlockID)
    ensures
        block_name_ok(block_name(b)),
        block_from_name(block_name(b)) == Some(b),
{
    let d1 = dirtrack_name(b.track1);
    let d2 = dirtrack_name(b.track2);
    lemma_dirtrack_name_round_trip(b.track1);
    lemma_dirtrack_name_round_trip(b.track2);
    lemma_plain_char_lacks(d1);
    let s = block_name(b);
    let sep = seq![')', '-', '('];
    let a = seq!['('] + d1;
    assert(s =~= a + sep + (d2 + seq![')']));
    assert(lacks(a, ')')) by {
        assert forall|k: int| 0 <= k < a.len() implies a[k] != ')' by {
            if k > 0 {
                assert(a[k] == d1[k - 1]);
            }
        }
    }
    lemma_split_after(a, sep, d2 + seq![')']);
    crate::text::lemma_first_match_from_bounds(s, sep, 0);
    let k = a.len() as int;
    assert(crate::text::first_match_from(s, sep, 0) == Some(k)) by {
        crate::text::lemma_first_match_at_pub(s, sep, 0, k);
    }
    assert(s.subrange(1, k) =~= d1);
    assert(s.subrange(k + 3, s.len() - 1) =~= d2);
}

/// A logical block's name reads back as the logical block, provided the
/// block is named as `BlockID::new` names it and, when it is travelled
/// against its direction, its two ends lie in different cells.
pub proof fn lemma_logical_block_name_round_trip(b: LogicalBlockID)
    requires
        b.block == block_new(b.block.track1, b.block.track2),
        b.direction == BlockDirection::Opposite ==> b.block.track1.track.cell != b.block.track2.track.cell,
    ensures
        logical_block_from_name(logical_block_name(b)) == Some(b),
{
    let (first, second) = logical_block_ends(b);
    let d1 = dirtrack_name(first);
    let d2 = dirtrack_name(second);
    lemma_dirtrack_name_round_trip(first);
    lemma_dirtrack_name_round_trip(second);
    lemma_plain_char_lacks(d1);
    lemma_plain_char_lacks(d2);
    let f = facing_name(b.facing);
    let fc = f[0];
    assert(f =~= seq![fc]);
    let s = logical_block_name(b);
    let empty = Seq::<char>::empty();
    let r1 = d1 + seq![')'] + f + seq!['('] + d2 + seq![')'];
    assert(s =~= empty + seq!['('] + r1);
    lemma_split_any_after(empty, '(', r1, '(', ')');
    let r2 = f + seq!['('] + d2 + seq![')'];
    assert(r1 =~= d1 + seq![')'] + r2);
    lemma_split_any_after(d1, ')', r2, '(', ')');
    let r3 = d2 + seq![')'];
    assert(r2 =~= seq![fc] + seq!['('] + r3);
    lemma_split_any_after(seq![fc], '(', r3, '(', ')');
    lemma_split_any_after(d2, ')', empty, '(', ')');
    assert(r3 =~= d2 + seq![')'] + empty);
}

/// A sorted connection's name reads back as the connection.
pub proof fn lemma_connection_name_round_trip(c: TrackConnectionID)
    requires
        connection_sorted(c),
    ensures
        connection_from_name(connection_name(c)) == Some(c),
{
    let a = dirtrack_name(c.track_a);
    let b = dirtrack_name(c.track_b);
    lemma_dirtrack_name_round_trip(c.track_a);
    lemma_dirtrack_name_round_trip(c.track_b);
    lemma_plain_char_lacks(a);
    lemma_plain_char_lacks(b);
    let sep = seq!['>', '<'];
    lemma_split_after(a, sep, b);
    lemma_split_whole(b, sep);
}

} // verus!
