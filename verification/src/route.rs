//! A train's route through the layout: legs from block to block, the
//! markers along each leg, what the train is told at each marker, and the
//! locks the route takes as it goes.
use vstd::prelude::*;
use crate::layout::{
    claimed_tracks, connection_free, connection_free_at, demanded, demanded_at, extends_held, motor_demands_agree,
    section_free, switch_settings, switches_ready, SwitchMap, TrackLocks,
};
use crate::layout_primitives::dirtrack_switch_position;
use crate::switch::{first_index, motor_position_for};
use crate::layout_primitives::{BlockID, Facing, LayoutDeviceID, LogicalBlockID, LogicalTrackID, TrackID, TrainID, DirectedTrackID};
use crate::marker::{color_code, speed_code, MarkerColor, MarkerKey, MarkerSpeed};
use crate::block::{logical_block_tracks, Block};
use crate::keyed::KeyedMap;
use crate::layout::{marker_key_of, MarkerMap};
use crate::marker::Marker;
use crate::section::{lemma_mark_indices_bounds, merged, split_pieces, LogicalSection};
use crate::switch::{SetSwitchPositionMessage, Switch};
use crate::switch_motor::MotorPosition;

verus! {

/// A marker along a leg, as the train is told of it. (Where along the leg
/// it lies, a length, is kept with the leg's geometry.)
#[derive(Clone, Copy, Debug, PartialEq, Eq, Structural)]
pub struct RouteMarkerData {
    pub track: LogicalTrackID,
    pub color: MarkerColor,
    pub speed: MarkerSpeed,
    pub key: MarkerKey,
}

pub open spec fn key_code(k: MarkerKey) -> u8 {
    match k {
        MarkerKey::Enter => 1,
        MarkerKey::In => 2,
        MarkerKey::Other => 0,
    }
}

/// One marker byte: speed in the top two bits, key in the next two, colour
/// in the low four.
pub open spec fn marker_byte(speed: u8, color: u8, key: u8) -> u8 {
    ((speed << 6u8) | color | (key << 4u8)) as u8
}

pub open spec fn route_marker_byte(m: RouteMarkerData, override_enter_key: bool) -> u8 {
    marker_byte(
        speed_code(m.speed),
        color_code(m.color),
        key_code(if override_enter_key { MarkerKey::Enter } else { m.key }),
    )
}

impl RouteMarkerData {
    /// The byte the train hub gets for this marker; with
    /// `override_enter_key` the marker is sent as the one where the train
    /// enters its target block.
    pub fn as_train_u8(&self, override_enter_key: bool) -> (r: u8)
        ensures
            r == route_marker_byte(*self, override_enter_key),
    {
        let speed = self.speed.as_train_u8();
        let color = self.color.as_train_u8();
        let key = if override_enter_key {
            MarkerKey::Enter.as_train_u8()
        } else {
            self.key.as_train_u8()
        };
        (speed << 6u8) | color | (key << 4u8)
    }
}

/// A marker byte gives back its speed, key and colour.
pub proof fn lemma_marker_byte_fields(m: RouteMarkerData, override_enter_key: bool)
    ensures
        route_marker_byte(m, override_enter_key) >> 6u8 == speed_code(m.speed),
        (route_marker_byte(m, override_enter_key) >> 4u8) & 3u8 == key_code(
            if override_enter_key { MarkerKey::Enter } else { m.key },
        ),
        route_marker_byte(m, override_enter_key) & 15u8 == color_code(m.color),
{
    let s = speed_code(m.speed);
    let c = color_code(m.color);
    let k = key_code(if override_enter_key { MarkerKey::Enter } else { m.key });
    assert(s < 4 && c < 16 && k < 4);
    assert(((s << 6u8) | c | (k << 4u8)) >> 6u8 == s && (((s << 6u8) | c | (k << 4u8)) >> 4u8) & 3u8 == k
        && ((s << 6u8) | c | (k << 4u8)) & 15u8 == c) by (bit_vector)
        requires
            s < 4u8,
            c < 16u8,
            k < 4u8,
    ;
}

/// What a train is told to do.
#[derive(Clone, Copy, Debug, PartialEq, Eq, Structural)]
pub enum TrainState {
    Stop,
    Run { facing: Facing, speed: MarkerSpeed },
}

impl Default for TrainState {
    fn default() -> (r: Self)
        ensures
            r == TrainState::Stop,
    {
        TrainState::Stop
    }
}

/// Whether a train passes through the target block of a leg or stops in it.
#[derive(Clone, Copy, Debug, PartialEq, Eq, Structural)]
pub enum LegIntention {
    Pass,
    Stop,
}

pub open spec fn intention_flag(i: LegIntention) -> u8 {
    match i {
        LegIntention::Pass => 0,
        LegIntention::Stop => 2,
    }
}

impl LegIntention {
    pub fn as_train_flag(&self) -> (r: u8)
        ensures
            r == intention_flag(*self),
    {
        match self {
            LegIntention::Pass => 0,
            LegIntention::Stop => 2,
        }
    }
}

/// How far a train has come along a leg: not yet into the target block,
/// into it, or at its last marker.
#[derive(Clone, Copy, Debug, PartialEq, Eq, Structural)]
pub enum LegState {
    NotEntered,
    Entered,
    Completed,
}

/// The first marker with the enter key.
pub open spec fn is_first_enter(ms: Seq<RouteMarkerData>, i: int) -> bool {
    &&& 0 <= i < ms.len()
    &&& ms[i].key == MarkerKey::Enter
    &&& forall|j: int| 0 <= j < i ==> ms[j].key != MarkerKey::Enter
}

/// The marker at which the train counts as entering the target block: the
/// first marker with the enter key, or else the last but one (the only one
/// when there is one).
pub open spec fn enter_index(ms: Seq<RouteMarkerData>) -> int {
    if exists|i: int| is_first_enter(ms, i) {
        choose|i: int| is_first_enter(ms, i)
    } else if ms.len() == 1 {
        0
    } else {
        ms.len() - 2
    }
}

pub open spec fn leg_state_of(ms: Seq<RouteMarkerData>, index: int) -> LegState {
    if index == ms.len() - 1 {
        LegState::Completed
    } else if index >= enter_index(ms) {
        LegState::Entered
    } else {
        LegState::NotEntered
    }
}

/// One leg of a route: from one block to the next, with the markers on the
/// way and the index of the last marker the train has passed.
#[derive(Debug)]
pub struct RouteLeg {
    pub to_section: LogicalSection,
    pub from_section: LogicalSection,
    pub travel_section: LogicalSection,
    pub markers: Vec<RouteMarkerData>,
    pub index: usize,
    pub intention: LegIntention,
    pub target_block: LogicalBlockID,
    pub from_block: LogicalBlockID,
    pub intention_synced: bool,
}

/// The facing a train has at the end of the leg.
pub open spec fn final_facing(leg: &RouteLeg) -> Facing {
    leg.travel_section.tracks@.last().facing
}

pub open spec fn leg_train_state(leg: &RouteLeg, will_turn: bool) -> TrainState {
    let should_stop = leg.intention == LegIntention::Stop;
    let state = leg_state_of(leg.markers@, leg.index as int);
    if should_stop && state == LegState::Completed {
        TrainState::Stop
    } else {
        TrainState::Run {
            facing: final_facing(leg),
            speed: if (should_stop || will_turn) && state == LegState::Entered {
                MarkerSpeed::Slow
            } else {
                leg.markers@[leg.index as int].speed
            },
        }
    }
}

/// The bytes a train hub gets for a leg: one per marker, the entering one
/// sent with the enter key, then the intention and facing flags.
pub open spec fn leg_train_data(leg: &RouteLeg) -> Seq<u8> {
    Seq::new(
        leg.markers@.len(),
        |i: int| route_marker_byte(leg.markers@[i], i == enter_index(leg.markers@)),
    ).push(intention_flag(leg.intention) | (if final_facing(leg) == Facing::Forward { 0u8 } else { 1u8 }))
}

impl RouteLeg {
    /// The leg a route is built from: the train at its first marker,
    /// planning to stop.
    pub fn new(
        travel_section: LogicalSection,
        markers: Vec<RouteMarkerData>,
        target_block: LogicalBlockID,
        from_block: LogicalBlockID,
        to_section: LogicalSection,
        from_section: LogicalSection,
    ) -> (r: Self)
        ensures
            r.travel_section == travel_section,
            r.markers == markers,
            r.target_block == target_block,
            r.from_block == from_block,
            r.to_section == to_section,
            r.from_section == from_section,
            r.index == 0,
            r.intention == LegIntention::Stop,
            !r.intention_synced,
    {
        RouteLeg {
            to_section,
            from_section,
            travel_section,
            markers,
            index: 0,
            intention: LegIntention::Stop,
            target_block,
            from_block,
            intention_synced: false,
        }
    }

    /// The well-formed leg: markers to pass, the index among them, and
    /// sections to start from and travel.
    pub open spec fn wf(&self) -> bool {
        &&& self.markers@.len() > 0
        &&& self.index < self.markers@.len()
        &&& self.travel_section.tracks@.len() > 0
        &&& self.from_section.tracks@.len() > 0
    }

    pub fn get_enter_index(&self) -> (r: usize)
        requires
            self.markers@.len() > 0,
        ensures
            r == enter_index(self.markers@),
    {
        let ghost ms = self.markers@;
        let mut i: usize = 0;
        while i < self.markers.len()
            invariant
                ms == self.markers@,
                0 <= i <= ms.len(),
                forall|j: int| 0 <= j < i ==> ms[j].key != MarkerKey::Enter,
            decreases ms.len() - i,
        {
            if self.markers[i].key == MarkerKey::Enter {
                proof {
                    assert(is_first_enter(ms, i as int));
                    let c = choose|c: int| is_first_enter(ms, c);
                    if c < i {
                        assert(ms[c].key == MarkerKey::Enter);
                    }
                    if c > i {
                        assert(ms[i as int].key == MarkerKey::Enter);
                    }
                }
                return i;
            }
            i = i + 1;
        }
        proof {
            assert(!exists|c: int| is_first_enter(ms, c)) by {
                if exists|c: int| is_first_enter(ms, c) {
                    let c = choose|c: int| is_first_enter(ms, c);
                    assert(ms[c].key == MarkerKey::Enter);
                }
            }
        }
        if self.markers.len() == 1 {
            return 0;
        }
        self.markers.len() - 2
    }

    /// Moves to the next marker; the last marker has none after it.
    pub fn advance_marker(&mut self)
        requires
            old(self).index + 1 < old(self).markers@.len(),
        ensures
            final(self).index == old(self).index + 1,
            final(self).markers == old(self).markers,
            final(self).intention == old(self).intention,
            final(self).intention_synced == old(self).intention_synced,
            final(self).travel_section == old(self).travel_section,
            final(self).from_section == old(self).from_section,
            final(self).to_section == old(self).to_section,
            final(self).target_block == old(self).target_block,
            final(self).from_block == old(self).from_block,
    {
        let n = self.markers.len();
        assert(self.index + 1 < n);
        self.index = self.index + 1;
    }

    pub fn get_leg_state(&self) -> (r: LegState)
        requires
            self.index < self.markers@.len(),
        ensures
            r == leg_state_of(self.markers@, self.index as int),
    {
        if self.index == self.markers.len() - 1 {
            return LegState::Completed;
        }
        if self.index >= self.get_enter_index() {
            return LegState::Entered;
        }
        LegState::NotEntered
    }

    /// The last marker the train has passed.
    pub fn get_previous_marker(&self) -> (r: &RouteMarkerData)
        requires
            self.index < self.markers@.len(),
        ensures
            *r == self.markers@[self.index as int],
    {
        &self.markers[self.index]
    }

    /// What the train is told on this leg: stop once it has completed a leg
    /// it stops at; otherwise run in the leg's final facing, slowly once it
    /// has entered a block it stops at or turns in, else at the speed of
    /// the last marker passed.
    pub fn get_train_state(&self, will_turn: bool) -> (r: TrainState)
        requires
            self.wf(),
        ensures
            r == leg_train_state(self, will_turn),
            self.intention == LegIntention::Stop && self.index == self.markers@.len() - 1 ==> r == TrainState::Stop,
            (will_turn || self.intention == LegIntention::Stop) && self.index < self.markers@.len() - 1 && self.index
                >= enter_index(self.markers@) ==> r == (TrainState::Run {
                facing: self.travel_section.tracks@.last().facing,
                speed: MarkerSpeed::Slow,
            }),
            !(will_turn || self.intention == LegIntention::Stop) ==> r == (TrainState::Run {
                facing: self.travel_section.tracks@.last().facing,
                speed: self.markers@[self.index as int].speed,
            }),
            self.intention == LegIntention::Pass && self.index == self.markers@.len() - 1 ==> r == (TrainState::Run {
                facing: self.travel_section.tracks@.last().facing,
                speed: self.markers@[self.index as int].speed,
            }),
    {
        proof {
            lemma_train_state_speed(self, will_turn);
        }
        let should_stop = self.intention == LegIntention::Stop;
        let leg_state = self.get_leg_state();
        if should_stop && leg_state == LegState::Completed {
            return TrainState::Stop;
        }
        let speed = if (should_stop || will_turn) && leg_state == LegState::Entered {
            MarkerSpeed::Slow
        } else {
            self.get_previous_marker().speed
        };
        TrainState::Run { facing: self.get_final_facing(), speed }
    }

    pub fn get_final_facing(&self) -> (r: Facing)
        requires
            self.travel_section.tracks@.len() > 0,
        ensures
            r == final_facing(self),
    {
        self.travel_section.tracks[self.travel_section.tracks.len() - 1].facing
    }

    /// Whether the train reverses on this leg: it leaves its start block
    /// facing otherwise than it ends.
    pub fn is_flip(&self) -> (r: bool)
        requires
            self.travel_section.tracks@.len() > 0,
            self.from_section.tracks@.len() > 0,
        ensures
            r == (self.from_section.tracks@[0].facing != final_facing(self)),
    {
        self.from_section.tracks[0].facing != self.get_final_facing()
    }

    /// Puts the train at the last marker.
    pub fn set_completed(&mut self)
        requires
            old(self).markers@.len() > 0,
        ensures
            final(self).index == old(self).markers@.len() - 1,
            final(self).markers == old(self).markers,
            final(self).intention == old(self).intention,
            final(self).intention_synced == old(self).intention_synced,
            final(self).travel_section == old(self).travel_section,
            final(self).from_section == old(self).from_section,
            final(self).to_section == old(self).to_section,
            final(self).target_block == old(self).target_block,
            final(self).from_block == old(self).from_block,
    {
        self.index = self.markers.len() - 1;
    }

    pub fn get_target_block_id(&self) -> (r: LogicalBlockID)
        ensures
            r == self.target_block,
    {
        self.target_block
    }

    /// The leg as the train hub gets it.
    pub fn as_train_data(&self) -> (r: Vec<u8>)
        requires
            self.markers@.len() > 0,
            self.travel_section.tracks@.len() > 0,
        ensures
            r@ == leg_train_data(self),
            r@.len() == self.markers@.len() + 1,
            r@.last() < 4,
            r@.last() % 2 == 1 <==> self.travel_section.tracks@.last().facing == Facing::Backward,
            r@.last() / 2 == 1 <==> self.intention == LegIntention::Stop,
    {
        proof {
            lemma_leg_flags(self);
        }
        let enter = self.get_enter_index();
        let mut data: Vec<u8> = Vec::new();
        let mut i: usize = 0;
        while i < self.markers.len()
            invariant
                0 <= i <= self.markers@.len(),
                enter == enter_index(self.markers@),
                data@ == Seq::new(i as nat, |k: int| route_marker_byte(self.markers@[k], k == enter_index(self.markers@))),
            decreases self.markers@.len() - i,
        {
            data.push(self.markers[i].as_train_u8(i == enter));
            assert(data@ =~= Seq::new((i + 1) as nat, |k: int| route_marker_byte(self.markers@[k], k == enter_index(self.markers@))));
            i = i + 1;
        }
        data.push(self.intention.as_train_flag() | self.get_final_facing().as_train_flag());
        assert(data@ =~= leg_train_data(self));
        data
    }
}

/// A leg with its intention and sync flag replaced.
pub open spec fn with_intention(leg: RouteLeg, intention: LegIntention, synced: bool) -> RouteLeg {
    RouteLeg { intention, intention_synced: synced, ..leg }
}

/// A leg can be locked: both its travel section and the section in its
/// target block are free for the train.
pub open spec fn leg_free(locks: &TrackLocks, switches: Map<DirectedTrackID, Switch>, train: TrainID, leg: RouteLeg) -> bool {
    section_free(locks, switches, train, leg.travel_section.tracks@) && section_free(locks, switches, train, leg.to_section.tracks@)
}

/// The first leg from `i` on that cannot be locked (the number of legs
/// when all can).
pub open spec fn first_blocked(
    locks: &TrackLocks,
    switches: Map<DirectedTrackID, Switch>,
    train: TrainID,
    legs: Seq<RouteLeg>,
    i: int,
) -> int
    decreases legs.len() - i,
{
    if i >= legs.len() {
        legs.len() as int
    } else if !leg_free(locks, switches, train, legs[i]) {
        i
    } else {
        first_blocked(locks, switches, train, legs, i + 1)
    }
}

proof fn lemma_first_blocked(
    locks: &TrackLocks,
    switches: Map<DirectedTrackID, Switch>,
    train: TrainID,
    legs: Seq<RouteLeg>,
    a: int,
    k: int,
)
    requires
        0 <= a <= k <= legs.len(),
        forall|j: int| a <= j < k ==> leg_free(locks, switches, train, #[trigger] legs[j]),
        k == legs.len() || !leg_free(locks, switches, train, legs[k]),
    ensures
        first_blocked(locks, switches, train, legs, a) == k,
    decreases k - a,
{
    if a < k {
        lemma_first_blocked(locks, switches, train, legs, a + 1, k);
    }
}

/// A route of one train: its legs and the leg it is on.
#[derive(Debug)]
pub struct Route {
    pub legs: Vec<RouteLeg>,
    pub train_id: TrainID,
    pub leg_index: usize,
}

impl Route {
    pub open spec fn legs_wf(&self) -> bool {
        forall|i: int| 0 <= i < self.legs@.len() ==> (#[trigger] self.legs@[i]).wf()
    }

    /// The legs up to which a train may pass through its target blocks:
    /// up to, not including, the last of the legs from the current one on
    /// that can all be locked.
    pub open spec fn free_until(&self, locks: &TrackLocks, switches: Map<DirectedTrackID, Switch>) -> int {
        let fb = first_blocked(locks, switches, self.train_id, self.legs@, self.leg_index as int);
        if fb == self.leg_index {
            0
        } else {
            fb - 1
        }
    }

    pub fn new(id: TrainID) -> (r: Self)
        ensures
            r.legs@.len() == 0,
            r.train_id == id,
            r.leg_index == 0,
    {
        Route { legs: Vec::new(), train_id: id, leg_index: 0 }
    }

    pub fn num_legs(&self) -> (r: usize)
        ensures
            r == self.legs@.len(),
    {
        self.legs.len()
    }

    pub fn iter_legs(&self) -> (r: &[RouteLeg])
        ensures
            r@ == self.legs@,
    {
        self.legs.as_slice()
    }

    /// The legs from the current one on.
    pub fn iter_legs_remaining(&self) -> (r: &[RouteLeg])
        requires
            self.leg_index <= self.legs@.len(),
        ensures
            r@ == self.legs@.subrange(self.leg_index as int, self.legs@.len() as int),
    {
        vstd::slice::slice_subrange(self.legs.as_slice(), self.leg_index, self.legs.len())
    }

    pub fn push_leg(&mut self, leg: RouteLeg)
        ensures
            final(self).legs@ == old(self).legs@.push(leg),
            final(self).train_id == old(self).train_id,
            final(self).leg_index == old(self).leg_index,
    {
        self.legs.push(leg);
    }

    /// Moves on to the next leg; the last leg has none after it.
    pub fn next_leg(&mut self)
        requires
            old(self).leg_index + 1 < old(self).legs@.len(),
        ensures
            final(self).leg_index == old(self).leg_index + 1,
            final(self).legs == old(self).legs,
            final(self).train_id == old(self).train_id,
    {
        let n = self.legs.len();
        assert(self.leg_index + 1 < n);
        self.leg_index = self.leg_index + 1;
    }

    pub fn get_current_leg(&self) -> (r: &RouteLeg)
        requires
            self.leg_index < self.legs@.len(),
        ensures
            *r == self.legs@[self.leg_index as int],
    {
        &self.legs[self.leg_index]
    }

    pub fn get_next_leg(&self) -> (r: Option<&RouteLeg>)
        ensures
            self.leg_index + 1 < self.legs@.len() ==> r == Some(&self.legs@[self.leg_index + 1]),
            self.leg_index + 1 >= self.legs@.len() ==> r is None,
    {
        let n = self.legs.len();
        if self.leg_index < n && self.leg_index + 1 < n {
            Some(&self.legs[self.leg_index + 1])
        } else {
            None
        }
    }

    pub fn get_current_leg_mut(&mut self) -> (r: &mut RouteLeg)
        requires
            old(self).leg_index < old(self).legs@.len(),
        ensures
            *r == old(self).legs@[old(self).leg_index as int],
            final(self).legs@ == old(self).legs@.update(old(self).leg_index as int, *final(r)),
            final(self).leg_index == old(self).leg_index,
            final(self).train_id == old(self).train_id,
    {
        let i = self.leg_index;
        &mut self.legs[i]
    }

    /// Marks the legs the train may pass through: those before
    /// `free_until`. A leg whose intention changes is no longer in sync with
    /// the train.
    pub fn update_intentions(&mut self, track_locks: &TrackLocks, switches: &SwitchMap)
        requires
            old(self).leg_index <= old(self).legs@.len(),
            forall|i: int| old(self).leg_index <= i < old(self).legs@.len() ==> switches_ready(switches@, (#[trigger] old(self).legs@[i]).travel_section.tracks@)
                && switches_ready(switches@, old(self).legs@[i].to_section.tracks@),
        ensures
            final(self).train_id == old(self).train_id,
            final(self).leg_index == old(self).leg_index,
            final(self).legs@.len() == old(self).legs@.len(),
            forall|i: int| 0 <= i < old(self).legs@.len() ==> #[trigger] final(self).legs@[i] == {
                let leg = old(self).legs@[i];
                let intention = if i < old(self).free_until(track_locks, switches@) { LegIntention::Pass } else { LegIntention::Stop };
                with_intention(leg, intention, leg.intention_synced && leg.intention == intention)
            },
    {
        let ghost fu = self.free_until(track_locks, switches@);
        let n = self.legs.len();
        let mut free_until: usize = 0;
        let mut k: usize = self.leg_index;
        while k < n
            invariant
                n == self.legs@.len(),
                self.leg_index <= k <= n,
                self == old(self),
                forall|i: int| self.leg_index <= i < self.legs@.len() ==> switches_ready(switches@, (#[trigger] self.legs@[i]).travel_section.tracks@)
                    && switches_ready(switches@, self.legs@[i].to_section.tracks@),
                forall|j: int| self.leg_index <= j < k ==> leg_free(track_locks, switches@, self.train_id, #[trigger] self.legs@[j]),
                free_until == (if k == self.leg_index { 0 } else { k - 1 }),
            ensures
                k == n || !leg_free(track_locks, switches@, self.train_id, self.legs@[k as int]),
            decreases n - k,
        {
            let leg = &self.legs[k];
            assert(switches_ready(switches@, self.legs@[k as int].travel_section.tracks@));
            if track_locks.can_lock(&self.train_id, &leg.travel_section, switches) && track_locks.can_lock(
                &self.train_id,
                &leg.to_section,
                switches,
            ) {
                free_until = k;
                k = k + 1;
            } else {
                break;
            }
        }
        proof {
            lemma_first_blocked(track_locks, switches@, self.train_id, self.legs@, self.leg_index as int, k as int);
        }
        assert(free_until == fu);
        let mut i: usize = 0;
        while i < n
            invariant
                n == self.legs@.len(),
                n == old(self).legs@.len(),
                0 <= i <= n,
                free_until == fu,
                fu == old(self).free_until(track_locks, switches@),
                self.train_id == old(self).train_id,
                self.leg_index == old(self).leg_index,
                forall|j: int| 0 <= j < n ==> #[trigger] self.legs@[j] == if j < i {
                    let leg = old(self).legs@[j];
                    let intention = if j < fu { LegIntention::Pass } else { LegIntention::Stop };
                    with_intention(leg, intention, leg.intention_synced && leg.intention == intention)
                } else {
                    old(self).legs@[j]
                },
            decreases n - i,
        {
            let intention = if i < free_until { LegIntention::Pass } else { LegIntention::Stop };
            self.legs[i].set_intention(intention);
            i = i + 1;
        }
    }
}

impl RouteLeg {
    /// Records that the train knows the leg's intention.
    pub fn set_synced(&mut self)
        ensures
            *final(self) == with_intention(*old(self), old(self).intention, true),
    {
        self.intention_synced = true;
    }

    /// Sets the intention; a change leaves the train out of sync.
    fn set_intention(&mut self, intention: LegIntention)
        ensures
            *final(self) == with_intention(*old(self), intention, old(self).intention_synced && old(self).intention == intention),
    {
        if self.intention != intention {
            self.intention_synced = false;
        }
        self.intention = intention;
    }
}

/// The tracks a map of locks keeps once the train lets go of everything.
pub open spec fn released_tracks(m: Map<TrackID, TrainID>, train: TrainID) -> Map<TrackID, TrainID> {
    m.restrict(m.dom().filter(|t: TrackID| m[t] != train))
}

/// The motors a map of locks keeps once the train lets go of everything.
pub open spec fn released_motors(
    m: Map<LayoutDeviceID, (TrainID, MotorPosition)>,
    train: TrainID,
) -> Map<LayoutDeviceID, (TrainID, MotorPosition)> {
    m.restrict(m.dom().filter(|d: LayoutDeviceID| m[d].0 != train))
}

/// The train can lock the section once it has let go of everything: no
/// track of it is held by another train, no switch motor it needs is held
/// elsewhere, it needs each motor at one position, and each switch on it
/// can take the position the section needs.
pub open spec fn lockable(locks: &TrackLocks, train: TrainID, switches: Map<DirectedTrackID, Switch>, s: Seq<LogicalTrackID>) -> bool {
    &&& switches_ready(switches, s)
    &&& forall|i: int| 0 <= i < s.len() && locks.locked_tracks@.contains_key(#[trigger] s[i].dirtrack.track)
        ==> locks.locked_tracks@[s[i].dirtrack.track] == train
    &&& forall|i: int| 0 <= i < s.len() - 1 ==> #[trigger] connection_free_at(released_motors(locks.locked_switch_motors@, train), switches, s, i)
    &&& motor_demands_agree(switches, s)
}

/// Two sections never need one motor at two positions.
pub open spec fn demands_agree_across(switches: Map<DirectedTrackID, Switch>, a: Seq<LogicalTrackID>, b: Seq<LogicalTrackID>) -> bool {
    forall|d: LayoutDeviceID, p: MotorPosition, q: MotorPosition| #[trigger] demanded(switches, a, d, p) && #[trigger] demanded(switches, b, d, q) ==> p == q
}

/// The motors after locking two sections in turn: each lock keeps what was
/// held and adds motors the train holds where its section needs them.
pub open spec fn held_in_turn(
    before: Map<LayoutDeviceID, (TrainID, MotorPosition)>,
    after: Map<LayoutDeviceID, (TrainID, MotorPosition)>,
    train: TrainID,
    switches: Map<DirectedTrackID, Switch>,
    a: Seq<LogicalTrackID>,
    b: Seq<LogicalTrackID>,
) -> bool {
    exists|mid: Map<LayoutDeviceID, (TrainID, MotorPosition)>| #[trigger] extends_held(before, mid, train, switches, a) && extends_held(mid, after, train, switches, b)
}

/// Motors held for one section stand where a second section needs them,
/// when the two sections agree on every motor.
proof fn lemma_second_section_free(
    before: Map<LayoutDeviceID, (TrainID, MotorPosition)>,
    mid: Map<LayoutDeviceID, (TrainID, MotorPosition)>,
    train: TrainID,
    switches: Map<DirectedTrackID, Switch>,
    a: Seq<LogicalTrackID>,
    b: Seq<LogicalTrackID>,
)
    requires
        extends_held(before, mid, train, switches, a),
        forall|i: int| 0 <= i < b.len() - 1 ==> #[trigger] connection_free_at(before, switches, b, i),
        demands_agree_across(switches, a, b),
    ensures
        forall|i: int| 0 <= i < b.len() - 1 ==> #[trigger] connection_free_at(mid, switches, b, i),
{
    reveal(extends_held);
    reveal(connection_free);
    assert forall|i: int| 0 <= i < b.len() - 1 implies #[trigger] connection_free_at(mid, switches, b, i) by {
        assert(connection_free_at(before, switches, b, i));
        if switches.contains_key(b[i].dirtrack) {
            let sw = switches[b[i].dirtrack];
            let pi = first_index(sw.positions_spec(), dirtrack_switch_position(b[i + 1].dirtrack));
            assert forall|q: int| 0 <= q < sw.motor_ids().len() && (#[trigger] sw.motor_ids()[q]) is Some && mid.contains_key(sw.motor_ids()[q]->0)
                implies mid[sw.motor_ids()[q]->0].1 == motor_position_for(pi, q) by {
                let d = sw.motor_ids()[q]->0;
                if !before.contains_key(d) {
                    assert(demanded_at(switches, b, i, q, d, motor_position_for(pi, q)));
                    assert(demanded(switches, b, d, motor_position_for(pi, q)));
                    assert(demanded(switches, a, d, mid[d].1));
                }
            }
        }
    }
}

impl Route {
    /// Whether the train turns at the start of the next leg.
    pub open spec fn will_turn(&self) -> bool {
        &&& self.leg_index + 1 < self.legs@.len()
        &&& self.legs@[self.leg_index + 1].from_section.tracks@[0].facing != final_facing(&self.legs@[self.leg_index + 1])
    }

    /// What the train is told: as its current leg says, knowing whether it
    /// turns after it.
    pub fn get_train_state(&self) -> (r: TrainState)
        requires
            self.leg_index < self.legs@.len(),
            self.legs_wf(),
        ensures
            r == leg_train_state(&self.legs@[self.leg_index as int], self.will_turn()),
    {
        let mut will_turn = false;
        match self.get_next_leg() {
            Some(next_leg) => {
                assert(next_leg.wf());
                if next_leg.is_flip() {
                    will_turn = true;
                }
            },
            None => {},
        }
        self.get_current_leg().get_train_state(will_turn)
    }

    /// The train has passed the next marker of its current leg.
    pub fn advance_sensor(&mut self)
        requires
            old(self).leg_index < old(self).legs@.len(),
            old(self).legs@[old(self).leg_index as int].index + 1 < old(self).legs@[old(self).leg_index as int].markers@.len(),
        ensures
            final(self).leg_index == old(self).leg_index,
            final(self).train_id == old(self).train_id,
            final(self).legs@ == old(self).legs@.update(old(self).leg_index as int, RouteLeg {
                index: (old(self).legs@[old(self).leg_index as int].index + 1) as usize,
                ..old(self).legs@[old(self).leg_index as int]
            }),
    {
        let current_leg = self.get_current_leg_mut();
        current_leg.advance_marker();
    }

    /// The section the train holds on its current leg: the travel section
    /// until it completes the leg, the target block's section after.
    pub open spec fn first_lock_section(&self) -> Seq<LogicalTrackID> {
        let cur = self.legs@[self.leg_index as int];
        if leg_state_of(cur.markers@, cur.index as int) != LegState::Completed {
            cur.travel_section.tracks@
        } else {
            cur.to_section.tracks@
        }
    }

    /// Whether the train also holds the next leg's travel section: it has
    /// entered its target block and passes through it.
    pub open spec fn locks_next_leg(&self) -> bool {
        let cur = self.legs@[self.leg_index as int];
        &&& self.leg_index + 1 < self.legs@.len()
        &&& leg_state_of(cur.markers@, cur.index as int) != LegState::NotEntered
        &&& cur.intention == LegIntention::Pass
    }

    pub open spec fn second_lock_section(&self) -> Seq<LogicalTrackID> {
        self.legs@[self.leg_index + 1].travel_section.tracks@
    }

    /// Lets go of everything the train holds and locks what its position on
    /// the route needs; returns the switch positions to set.
    pub fn update_locks(&self, track_locks: &mut TrackLocks, switches: &SwitchMap) -> (r: Vec<SetSwitchPositionMessage>)
        requires
            self.leg_index < self.legs@.len(),
            self.legs@[self.leg_index as int].wf(),
            lockable(&*old(track_locks), self.train_id, switches@, self.first_lock_section()),
            self.locks_next_leg() ==> lockable(&*old(track_locks), self.train_id, switches@, self.second_lock_section())
                && demands_agree_across(switches@, self.first_lock_section(), self.second_lock_section()),
        ensures
            final(track_locks).locked_tracks@ == if self.locks_next_leg() {
                claimed_tracks(
                    claimed_tracks(released_tracks(old(track_locks).locked_tracks@, self.train_id), self.train_id, self.first_lock_section()),
                    self.train_id,
                    self.second_lock_section(),
                )
            } else {
                claimed_tracks(released_tracks(old(track_locks).locked_tracks@, self.train_id), self.train_id, self.first_lock_section())
            },
            self.locks_next_leg() ==> held_in_turn(
                released_motors(old(track_locks).locked_switch_motors@, self.train_id),
                final(track_locks).locked_switch_motors@,
                self.train_id,
                switches@,
                self.first_lock_section(),
                self.second_lock_section(),
            ),
            !self.locks_next_leg() ==> extends_held(
                released_motors(old(track_locks).locked_switch_motors@, self.train_id),
                final(track_locks).locked_switch_motors@,
                self.train_id,
                switches@,
                self.first_lock_section(),
            ),
            r@ == switch_settings(switches@, self.first_lock_section()) + if self.locks_next_leg() {
                switch_settings(switches@, self.second_lock_section())
            } else {
                Seq::<SetSwitchPositionMessage>::empty()
            },
    {
        let current_leg = self.get_current_leg();
        let ghost old_locks = *track_locks;
        track_locks.unlock_all(&self.train_id);
        proof {
            assert(track_locks.locked_tracks@ == released_tracks(old_locks.locked_tracks@, self.train_id));
            assert(track_locks.locked_switch_motors@ == released_motors(old_locks.locked_switch_motors@, self.train_id));
        }
        let state = current_leg.get_leg_state();
        let ghost first = self.first_lock_section();
        let ghost released_m = track_locks.locked_switch_motors@;
        let mut events = if state != LegState::Completed {
            track_locks.lock(&self.train_id, &current_leg.travel_section, switches)
        } else {
            track_locks.lock(&self.train_id, &current_leg.to_section, switches)
        };
        let ghost mid = track_locks.locked_switch_motors@;
        match self.get_next_leg() {
            Some(next_leg) => {
                if state != LegState::NotEntered && current_leg.intention == LegIntention::Pass {
                    let ghost second = self.second_lock_section();
                    proof {
                        lemma_second_section_free(released_m, mid, self.train_id, switches@, first, second);
                        assert forall|i: int| 0 <= i < second.len() && track_locks.locked_tracks@.contains_key(#[trigger] second[i].dirtrack.track)
                            implies track_locks.locked_tracks@[second[i].dirtrack.track] == self.train_id by {
                            assert(old_locks.locked_tracks@.contains_key(second[i].dirtrack.track) ==> old_locks.locked_tracks@[second[i].dirtrack.track] == self.train_id);
                        }
                    }
                    let mut more = track_locks.lock(&self.train_id, &next_leg.travel_section, switches);
                    events.append(&mut more);
                }
            },
            None => {},
        }
        events
    }
}

// ---------------------------------------------------------------------------
// Building a route
// ---------------------------------------------------------------------------

/// The tracks with in-markers, in the order the marker map holds them.
pub open spec fn in_marker_tracks(marker_map: &MarkerMap) -> Seq<LogicalTrackID> {
    marker_map.in_markers.entries_view().map_values(|e: (LogicalTrackID, LogicalBlockID)| e.0)
}

/// The markers a leg passes: one for each track of the path that carries a
/// marker, keyed by what the marker means for the leg's target block.
pub open spec fn leg_marker_data(
    path: Seq<LogicalTrackID>,
    markers: Map<TrackID, Marker>,
    marker_map: &MarkerMap,
    target: LogicalBlockID,
) -> Seq<RouteMarkerData>
    decreases path.len(),
{
    if path.len() == 0 {
        Seq::empty()
    } else {
        let rest = leg_marker_data(path.drop_last(), markers, marker_map, target);
        let logical = path.last();
        if markers.contains_key(logical.dirtrack.track) {
            let marker = markers[logical.dirtrack.track];
            rest.push(RouteMarkerData {
                track: logical,
                color: marker.color,
                speed: marker.logical_data@[logical].speed,
                key: marker_key_of(marker_map.in_markers@, marker_map.enter_markers@, logical, target),
            })
        } else {
            rest
        }
    }
}

/// Every marker on the path knows the speed for the direction the path
/// passes it in.
pub open spec fn path_markers_known(path: Seq<LogicalTrackID>, markers: Map<TrackID, Marker>) -> bool {
    forall|i: int| 0 <= i < path.len() && markers.contains_key(#[trigger] path[i].dirtrack.track)
        ==> markers[path[i].dirtrack.track].logical_data@.contains_key(path[i])
}

/// The tracks a leg travels: from its start block along the path into the
/// target block; when the train turns on the way, only the target block.
pub open spec fn travel_tracks(path: Seq<LogicalTrackID>, from: Seq<LogicalTrackID>, to: Seq<LogicalTrackID>) -> Seq<LogicalTrackID> {
    if path[0].facing == path.last().facing {
        merged(merged(merged(Seq::empty(), from), path), to)
    } else {
        merged(Seq::empty(), to)
    }
}

/// A path between two in-markers can become a leg: both ends lead into
/// known blocks, and its markers know their speeds.
pub open spec fn leg_buildable(
    piece: (Seq<LogicalTrackID>, LogicalTrackID),
    markers: Map<TrackID, Marker>,
    blocks: Map<BlockID, Block>,
    marker_map: &MarkerMap,
) -> bool {
    &&& marker_map.in_markers@.contains_key(piece.0[0])
    &&& marker_map.in_markers@.contains_key(piece.1)
    &&& blocks.contains_key(marker_map.in_markers@[piece.1].block)
    &&& blocks.contains_key(marker_map.in_markers@[piece.0[0]].block)
    &&& path_markers_known(piece.0, markers)
}

/// The leg built from a path: what it travels, the markers on it, the
/// blocks at its ends.
pub open spec fn leg_built(
    leg: &RouteLeg,
    piece: (Seq<LogicalTrackID>, LogicalTrackID),
    markers: Map<TrackID, Marker>,
    blocks: Map<BlockID, Block>,
    marker_map: &MarkerMap,
) -> bool {
    let target = marker_map.in_markers@[piece.1];
    let from = marker_map.in_markers@[piece.0[0]];
    let to_tracks = logical_block_tracks(blocks[target.block].section.tracks@, target);
    let from_tracks = logical_block_tracks(blocks[from.block].section.tracks@, from);
    &&& leg.target_block == target
    &&& leg.from_block == from
    &&& leg.to_section.tracks@ == to_tracks
    &&& leg.from_section.tracks@ == from_tracks
    &&& leg.travel_section.tracks@ == travel_tracks(piece.0, from_tracks, to_tracks)
    &&& leg.markers@ == leg_marker_data(piece.0, markers, marker_map, target)
    &&& leg.intention == LegIntention::Stop
    &&& !leg.intention_synced
}

/// The markers of a leg, read off its path.
fn collect_leg_markers(
    path: &LogicalSection,
    markers: &KeyedMap<TrackID, Marker>,
    marker_map: &MarkerMap,
    target: &LogicalBlockID,
) -> (r: Vec<RouteMarkerData>)
    requires
        path_markers_known(path.tracks@, markers@),
    ensures
        r@ == leg_marker_data(path.tracks@, markers@, marker_map, *target),
{
    let mut r: Vec<RouteMarkerData> = Vec::new();
    let mut i: usize = 0;
    while i < path.tracks.len()
        invariant
            0 <= i <= path.tracks@.len(),
            path_markers_known(path.tracks@, markers@),
            r@ == leg_marker_data(path.tracks@.subrange(0, i as int), markers@, marker_map, *target),
        decreases path.tracks@.len() - i,
    {
        let logical = path.tracks[i];
        proof {
            assert(path.tracks@.subrange(0, i + 1).drop_last() =~= path.tracks@.subrange(0, i as int));
            assert(path.tracks@.subrange(0, i + 1).last() == logical);
        }
        match markers.get(&logical.track()) {
            Some(marker) => {
                let data = marker.get_logical_data(logical);
                match data {
                    Some(d) => {
                        r.push(RouteMarkerData {
                            track: logical,
                            color: marker.color,
                            speed: d.speed,
                            key: marker_map.get_marker_key(&logical, target),
                        });
                    },
                    None => {
                        proof {
                            assert(markers@.contains_key(path.tracks@[i as int].dirtrack.track));
                        }
                    },
                }
            },
            None => {},
        }
        i = i + 1;
    }
    proof {
        assert(path.tracks@.subrange(0, path.tracks@.len() as int) =~= path.tracks@);
    }
    r
}

/// The leg for one path between in-markers.
fn build_leg(
    path: LogicalSection,
    in_track: LogicalTrackID,
    markers: &KeyedMap<TrackID, Marker>,
    blocks: &KeyedMap<BlockID, Block>,
    marker_map: &MarkerMap,
) -> (r: RouteLeg)
    requires
        path.tracks@.len() > 0,
        leg_buildable((path.tracks@, in_track), markers@, blocks@, marker_map),
    ensures
        leg_built(&r, (path.tracks@, in_track), markers@, blocks@, marker_map),
        r.index == 0,
{
    let target_id = *marker_map.in_markers.get(&in_track).unwrap();
    let from_id = *marker_map.in_markers.get(&path.tracks[0]).unwrap();
    let target_block = blocks.get(&target_id.block).unwrap();
    let from_block = blocks.get(&from_id.block).unwrap();
    let to_section = target_block.get_logical_section(target_id);
    let from_section = from_block.get_logical_section(from_id);
    let mut travel_section = LogicalSection::new();
    assert(travel_section.tracks@ =~= Seq::<LogicalTrackID>::empty());
    let n = path.tracks.len();
    if path.tracks[0].facing == path.tracks[n - 1].facing {
        travel_section.extend_merge(&from_section);
        travel_section.extend_merge(&path);
    }
    travel_section.extend_merge(&to_section);
    proof {
        assert(travel_section.tracks@ == travel_tracks(path.tracks@, from_section.tracks@, to_section.tracks@));
    }
    let leg_markers = collect_leg_markers(&path, markers, marker_map, &target_id);
    RouteLeg::new(travel_section, leg_markers, target_id, from_id, to_section, from_section)
}

/// The route that takes a train along a section: one leg between each two
/// in-markers on it, the train at the end of the first.
pub fn build_route(
    train_id: TrainID,
    logical_section: &LogicalSection,
    markers: &KeyedMap<TrackID, Marker>,
    blocks: &KeyedMap<BlockID, Block>,
    marker_map: &MarkerMap,
) -> (r: Route)
    requires
        split_pieces(logical_section.tracks@, in_marker_tracks(marker_map)).len() > 0,
        forall|k: int| 0 <= k < split_pieces(logical_section.tracks@, in_marker_tracks(marker_map)).len()
            ==> leg_buildable(#[trigger] split_pieces(logical_section.tracks@, in_marker_tracks(marker_map))[k], markers@, blocks@, marker_map),
        leg_marker_data(
            split_pieces(logical_section.tracks@, in_marker_tracks(marker_map))[0].0,
            markers@,
            marker_map,
            marker_map.in_markers@[split_pieces(logical_section.tracks@, in_marker_tracks(marker_map))[0].1],
        ).len() > 0,
    ensures
        r.train_id == train_id,
        r.leg_index == 0,
        r.legs@.len() == split_pieces(logical_section.tracks@, in_marker_tracks(marker_map)).len(),
        forall|k: int| 0 <= k < r.legs@.len() ==> leg_built(
            &#[trigger] r.legs@[k],
            split_pieces(logical_section.tracks@, in_marker_tracks(marker_map))[k],
            markers@,
            blocks@,
            marker_map,
        ),
        r.legs@[0].index == r.legs@[0].markers@.len() - 1,
        forall|k: int| 0 < k < r.legs@.len() ==> (#[trigger] r.legs@[k]).index == 0,
{
    let ghost pieces = split_pieces(logical_section.tracks@, in_marker_tracks(marker_map));
    let entries = marker_map.in_markers.entries();
    let mut in_tracks: Vec<LogicalTrackID> = Vec::new();
    let mut j: usize = 0;
    while j < entries.len()
        invariant
            0 <= j <= entries@.len(),
            entries@ == marker_map.in_markers.entries_view(),
            in_tracks@ == entries@.subrange(0, j as int).map_values(|e: (LogicalTrackID, LogicalBlockID)| e.0),
        decreases entries@.len() - j,
    {
        in_tracks.push(entries[j].0);
        assert(entries@.subrange(0, j + 1).map_values(|e: (LogicalTrackID, LogicalBlockID)| e.0)
            =~= entries@.subrange(0, j as int).map_values(|e: (LogicalTrackID, LogicalBlockID)| e.0).push(entries@[j as int].0));
        j = j + 1;
    }
    assert(entries@.subrange(0, entries@.len() as int) =~= entries@);
    assert(in_tracks@ == in_marker_tracks(marker_map));
    let mut split = logical_section.split_by_tracks_with_overlap(&in_tracks);
    let mut route = Route::new(train_id);
    let mut pieces_left: Vec<(LogicalSection, LogicalTrackID)> = Vec::new();
    // Reverse the pieces so they can be taken from the end in order.
    while split.len() > 0
        invariant
            split@.len() + pieces_left@.len() == pieces.len(),
            forall|k: int| 0 <= k < split@.len() ==> (#[trigger] split@[k]).0.tracks@ == pieces[k].0 && split@[k].1 == pieces[k].1,
            forall|k: int| 0 <= k < pieces_left@.len() ==> (#[trigger] pieces_left@[k]).0.tracks@ == pieces[pieces.len() - 1 - k].0
                && pieces_left@[k].1 == pieces[pieces.len() - 1 - k].1,
        decreases split@.len(),
    {
        let piece = split.pop().unwrap();
        pieces_left.push(piece);
    }
    proof {
        lemma_mark_indices_bounds(logical_section.tracks@, in_marker_tracks(marker_map));
    }
    while pieces_left.len() > 0
        invariant
            route.legs@.len() + pieces_left@.len() == pieces.len(),
            route.train_id == train_id,
            route.leg_index == 0,
            pieces == split_pieces(logical_section.tracks@, in_marker_tracks(marker_map)),
            forall|k: int| 0 <= k < pieces.len() ==> leg_buildable(#[trigger] pieces[k], markers@, blocks@, marker_map),
            forall|k: int| 0 <= k < pieces.len() ==> (#[trigger] pieces[k]).0.len() > 0,
            forall|k: int| 0 <= k < pieces_left@.len() ==> (#[trigger] pieces_left@[k]).0.tracks@ == pieces[pieces.len() - 1 - k].0
                && pieces_left@[k].1 == pieces[pieces.len() - 1 - k].1,
            forall|k: int| 0 <= k < route.legs@.len() ==> leg_built(&#[trigger] route.legs@[k], pieces[k], markers@, blocks@, marker_map),
            forall|k: int| 0 <= k < route.legs@.len() ==> (#[trigger] route.legs@[k]).index == 0,
        decreases pieces_left@.len(),
    {
        let (path, in_track) = pieces_left.pop().unwrap();
        let ghost k = route.legs@.len() as int;
        assert(path.tracks@ == pieces[k].0);
        let leg = build_leg(path, in_track, markers, blocks, marker_map);
        route.push_leg(leg);
    }
    let first = route.get_current_leg_mut();
    first.set_completed();
    route
}

/// What a train is told on a leg: at the leg's last marker of a leg it
/// stops on, to stop; once it has entered the target block (before the last
/// marker) of a leg it stops on or turns after, to run slowly; otherwise, to
/// run at the speed of the last marker passed (also at the last marker of a
/// leg it passes through). It always runs facing the way
/// the leg's travel section ends.
pub proof fn lemma_train_state_speed(leg: &RouteLeg, will_turn: bool)
    ensures
        leg.intention == LegIntention::Stop && leg.index == leg.markers@.len() - 1 ==> leg_train_state(leg, will_turn)
            == TrainState::Stop,
        (will_turn || leg.intention == LegIntention::Stop) && leg.index < leg.markers@.len() - 1 && leg.index
            >= enter_index(leg.markers@) ==> leg_train_state(leg, will_turn) == (TrainState::Run {
            facing: leg.travel_section.tracks@.last().facing,
            speed: MarkerSpeed::Slow,
        }),
        !(will_turn || leg.intention == LegIntention::Stop) ==> leg_train_state(leg, will_turn) == (TrainState::Run {
            facing: leg.travel_section.tracks@.last().facing,
            speed: leg.markers@[leg.index as int].speed,
        }),
        leg.intention == LegIntention::Pass && leg.index == leg.markers@.len() - 1 ==> leg_train_state(leg, will_turn)
            == (TrainState::Run { facing: leg.travel_section.tracks@.last().facing, speed: leg.markers@[leg.index as int].speed }),
{
}

/// The last byte a train hub gets for a leg carries two flags and nothing
/// else: bit 0 says the train ends the leg facing backward, bit 1 that it
/// stops at the end of the leg.
pub proof fn lemma_leg_flags(leg: &RouteLeg)
    ensures
        leg_train_data(leg).len() == leg.markers@.len() + 1,
        leg_train_data(leg).last() < 4,
        leg_train_data(leg).last() % 2 == 1 <==> leg.travel_section.tracks@.last().facing == Facing::Backward,
        leg_train_data(leg).last() / 2 == 1 <==> leg.intention == LegIntention::Stop,
{
    assert((0u8 | 0u8) == 0u8) by (bit_vector);
    assert((0u8 | 1u8) == 1u8) by (bit_vector);
    assert((2u8 | 0u8) == 2u8) by (bit_vector);
    assert((2u8 | 1u8) == 3u8) by (bit_vector);
}

} // verus!
