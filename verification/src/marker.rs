//! Marker tiles on tracks: their colours, the speed a train takes past them
//! in each logical direction, and how a train hub reads them.
use vstd::prelude::*;
use crate::keyed::KeyedMap;
use crate::layout_primitives::{LogicalTrackID, TrackID, TrackDirection, Facing, DirectedTrackID};

verus! {

/// What a marker means to a train heading into a block.
#[derive(Clone, Copy, Debug, PartialEq, Eq, Hash, Structural)]
pub enum MarkerKey {
    Enter,
    In,
    Other,
}

impl MarkerKey {
    /// The key as a train hub reads it.
    pub fn as_train_u8(&self) -> (r: u8)
        ensures
            r == match *self {
                MarkerKey::Enter => 1u8,
                MarkerKey::In => 2u8,
                MarkerKey::Other => 0u8,
            },
    {
        match self {
            MarkerKey::Enter => 1,
            MarkerKey::In => 2,
            MarkerKey::Other => 0,
        }
    }
}

/// The speed a train takes past a marker.
#[derive(Clone, Copy, Debug, PartialEq, Eq, Hash, Structural)]
pub enum MarkerSpeed {
    Slow,
    Cruise,
    Fast,
}

impl Default for MarkerSpeed {
    fn default() -> (r: Self)
        ensures
            r == MarkerSpeed::Cruise,
    {
        MarkerSpeed::Cruise
    }
}

pub open spec fn speed_code(s: MarkerSpeed) -> u8 {
    match s {
        MarkerSpeed::Slow => 2,
        MarkerSpeed::Cruise => 3,
        MarkerSpeed::Fast => 1,
    }
}

impl MarkerSpeed {
    /// The speed as a train hub reads it.
    pub fn as_train_u8(&self) -> (r: u8)
        ensures
            r == speed_code(*self),
    {
        match self {
            MarkerSpeed::Slow => 2,
            MarkerSpeed::Cruise => 3,
            MarkerSpeed::Fast => 1,
        }
    }
}

/// The colour of a marker tile.
#[derive(Clone, Copy, Debug, PartialEq, Eq, Hash, Structural)]
pub enum MarkerColor {
    Any,
    Red,
    Blue,
    Yellow,
    Green,
}

pub open spec fn color_code(c: MarkerColor) -> u8 {
    match c {
        MarkerColor::Any => 15,
        MarkerColor::Red => 3,
        MarkerColor::Blue => 1,
        MarkerColor::Yellow => 0,
        MarkerColor::Green => 2,
    }
}

impl MarkerColor {
    /// The colour as a train hub reads it.
    pub fn as_train_u8(&self) -> (r: u8)
        ensures
            r == color_code(*self),
    {
        match self {
            MarkerColor::Any => 15,
            MarkerColor::Red => 3,
            MarkerColor::Blue => 1,
            MarkerColor::Yellow => 0,
            MarkerColor::Green => 2,
        }
    }

    /// The colour a train hub reports; none for a number no colour has.
    pub fn from_train_u8(value: u8) -> (r: Option<Self>)
        ensures
            match r {
                Some(c) => color_code(c) == value,
                None => forall|c: MarkerColor| color_code(c) != value,
            },
    {
        if value == 15 {
            Some(MarkerColor::Any)
        } else if value == 3 {
            Some(MarkerColor::Red)
        } else if value == 1 {
            Some(MarkerColor::Blue)
        } else if value == 0 {
            Some(MarkerColor::Yellow)
        } else if value == 2 {
            Some(MarkerColor::Green)
        } else {
            None
        }
    }
}

/// Reading a colour back from its number gives the colour.
pub proof fn lemma_color_code_round_trip(c: MarkerColor)
    ensures
        forall|d: MarkerColor| color_code(d) == color_code(c) ==> d == c,
{
}

/// What a marker asks of trains passing in one logical direction.
#[derive(Clone, Copy, Debug, PartialEq, Eq, Structural)]
pub struct LogicalMarkerData {
    pub speed: MarkerSpeed,
}

impl Default for LogicalMarkerData {
    fn default() -> (r: Self)
        ensures
            r.speed == MarkerSpeed::Cruise,
    {
        LogicalMarkerData { speed: MarkerSpeed::Cruise }
    }
}

/// A marker on a track.
pub struct Marker {
    pub track: TrackID,
    pub color: MarkerColor,
    pub logical_data: KeyedMap<LogicalTrackID, LogicalMarkerData>,
}

impl Marker {
    /// A marker with the default speed in all four logical directions of its track.
    pub fn new(track: TrackID, color: MarkerColor) -> (r: Self)
        ensures
            r.track == track,
            r.color == color,
            forall|l: LogicalTrackID| #[trigger] r.logical_data@.contains_key(l) <==> l.dirtrack.track == track,
            forall|l: LogicalTrackID| #[trigger] r.logical_data@.contains_key(l) ==> r.logical_data@[l].speed == MarkerSpeed::Cruise,
    {
        let mut logical_data = KeyedMap::new();
        let first = DirectedTrackID { track, direction: TrackDirection::First };
        let last = DirectedTrackID { track, direction: TrackDirection::Last };
        logical_data.insert(LogicalTrackID { dirtrack: first, facing: Facing::Forward }, LogicalMarkerData::default());
        logical_data.insert(LogicalTrackID { dirtrack: first, facing: Facing::Backward }, LogicalMarkerData::default());
        logical_data.insert(LogicalTrackID { dirtrack: last, facing: Facing::Forward }, LogicalMarkerData::default());
        logical_data.insert(LogicalTrackID { dirtrack: last, facing: Facing::Backward }, LogicalMarkerData::default());
        Marker { track, color, logical_data }
    }

    pub fn get_logical_data(&self, logical: LogicalTrackID) -> (r: Option<&LogicalMarkerData>)
        ensures
            match r {
                Some(d) => self.logical_data@.contains_key(logical) && self.logical_data@[logical] == *d,
                None => !self.logical_data@.contains_key(logical),
            },
    {
        self.logical_data.get(&logical)
    }

    pub fn set_logical_data(&mut self, logical: LogicalTrackID, data: LogicalMarkerData)
        ensures
            final(self).logical_data@ == old(self).logical_data@.insert(logical, data),
            final(self).track == old(self).track,
            final(self).color == old(self).color,
    {
        self.logical_data.insert(logical, data);
    }
}

} // verus!
