//! The editor's layout state: which train holds which tracks and switch
//! motors, which markers lead into which blocks, and the entities of the
//! layout's elements with the fresh identifiers handed out for new ones.
use vstd::prelude::*;
use crate::keyed::{Key, KeyedMap};
use crate::layout_primitives::{
    dirtrack_switch_position, track_collides, BlockID, DestinationID, DirectedTrackConnectionID, DirectedTrackID,
    HubID, HubType, LayoutDeviceID, LayoutDeviceType, LogicalBlockID, LogicalTrackConnectionID, LogicalTrackID,
    ScheduleID, SwitchPosition, TrackID, TrainID, WagonID, CellID, TrackConnectionID,
};
use crate::editor::GenericID;
use crate::marker::MarkerKey;
use crate::section::{windows, LogicalSection};
use crate::switch::{first_index, motor_position_for, SetSwitchPositionMessage, Switch};
use crate::switch_motor::MotorPosition;

verus! {

/// Switches by the directed track they stand at.
pub type SwitchMap = KeyedMap<DirectedTrackID, Switch>;

/// Whether a switch can be asked for a position: the position is one it
/// offers, among its first three, and it has at most two motors.
pub open spec fn switch_ready(sw: &Switch, pos: SwitchPosition) -> bool {
    &&& sw.positions_spec().contains(pos)
    &&& first_index(sw.positions_spec(), pos) <= 2
    &&& sw.motor_ids().len() <= 2
}

/// Every switch a section passes can take the position the section needs.
#[verifier::opaque]
pub open spec fn switches_ready(switches: Map<DirectedTrackID, Switch>, s: Seq<LogicalTrackID>) -> bool {
    forall|i: int| 0 <= i < s.len() - 1 && #[trigger] switches.contains_key(s[i].dirtrack) ==> switch_ready(
        &switches[s[i].dirtrack],
        dirtrack_switch_position(s[i + 1].dirtrack),
    )
}

/// Which train holds which tracks and switch motors.
pub struct TrackLocks {
    pub locked_tracks: KeyedMap<TrackID, TrainID>,
    pub locked_switch_motors: KeyedMap<LayoutDeviceID, (TrainID, MotorPosition)>,
}

/// No other train holds a track that collides with `track`.
#[verifier::opaque]
pub open spec fn track_free(locked: Map<TrackID, TrainID>, train: TrainID, track: TrackID) -> bool {
    forall|u: TrackID| #[trigger] track_collides(track, u) && locked.contains_key(u) ==> locked[u] == train
}

/// No switch motor the connection needs is held at another position.
#[verifier::opaque]
pub open spec fn connection_free(
    motors: Map<LayoutDeviceID, (TrainID, MotorPosition)>,
    switches: Map<DirectedTrackID, Switch>,
    from: DirectedTrackID,
    to: DirectedTrackID,
) -> bool {
    switches.contains_key(from) ==> {
        let sw = switches[from];
        let pi = first_index(sw.positions_spec(), dirtrack_switch_position(to));
        forall|i: int| 0 <= i < sw.motor_ids().len() && (#[trigger] sw.motor_ids()[i]) is Some && motors.contains_key(sw.motor_ids()[i]->0)
            ==> motors[sw.motor_ids()[i]->0].1 == motor_position_for(pi, i)
    }
}

/// `connection_free` for the connection from the `i`-th track of a
/// section to the next.
pub open spec fn connection_free_at(
    motors: Map<LayoutDeviceID, (TrainID, MotorPosition)>,
    switches: Map<DirectedTrackID, Switch>,
    s: Seq<LogicalTrackID>,
    i: int,
) -> bool {
    connection_free(motors, switches, s[i].dirtrack, s[i + 1].dirtrack)
}

pub open spec fn section_free(
    locks: &TrackLocks,
    switches: Map<DirectedTrackID, Switch>,
    train: TrainID,
    s: Seq<LogicalTrackID>,
) -> bool {
    &&& forall|i: int| 0 <= i < s.len() ==> track_free(locks.locked_tracks@, train, #[trigger] s[i].dirtrack.track)
    &&& forall|i: int| 0 <= i < s.len() - 1 ==> #[trigger] connection_free_at(locks.locked_switch_motors@, switches, s, i)
}

/// The section passes the track.
pub open spec fn covers(s: Seq<LogicalTrackID>, t: TrackID) -> bool {
    exists|i: int| 0 <= i < s.len() && #[trigger] s[i].dirtrack.track == t
}

/// The tracks of a section mapped to the train.
pub open spec fn claimed_tracks(locked: Map<TrackID, TrainID>, train: TrainID, s: Seq<LogicalTrackID>) -> Map<TrackID, TrainID> {
    Map::new(
        |t: TrackID| locked.contains_key(t) || covers(s, t),
        |t: TrackID| if covers(s, t) { train } else { locked[t] },
    )
}

/// The switch positions a section sets, in order.
pub open spec fn switch_settings(switches: Map<DirectedTrackID, Switch>, s: Seq<LogicalTrackID>) -> Seq<SetSwitchPositionMessage>
    decreases s.len(),
{
    if s.len() < 2 {
        Seq::empty()
    } else {
        let rest = switch_settings(switches, s.drop_last());
        let from = s[s.len() - 2].dirtrack;
        let to = s.last().dirtrack;
        if switches.contains_key(from) {
            rest.push(SetSwitchPositionMessage { id: from, position: dirtrack_switch_position(to) })
        } else {
            rest
        }
    }
}

/// Whether two maps of motor locks hold the same motors, each for the
/// same train at the same position.
fn same_motor_locks(
    a: &KeyedMap<LayoutDeviceID, (TrainID, MotorPosition)>,
    b: &KeyedMap<LayoutDeviceID, (TrainID, MotorPosition)>,
) -> (r: bool)
    ensures
        r == (a@ == b@),
{
    if a.len() != b.len() {
        proof {
            if a@ == b@ {
                assert(a@.dom() == b@.dom());
            }
        }
        return false;
    }
    let entries = a.entries();
    let mut i: usize = 0;
    while i < entries.len()
        invariant
            0 <= i <= entries@.len(),
            entries@ == a.entries_view(),
            entries@.len() == a@.dom().len(),
            a@.dom().len() == b@.dom().len(),
            a@.dom().finite(),
            b@.dom().finite(),
            forall|j: int| 0 <= j < entries@.len() ==> a@.contains_key(#[trigger] entries@[j].0) && a@[entries@[j].0] == entries@[j].1,
            forall|k: LayoutDeviceID| a@.contains_key(k) ==> exists|j: int| 0 <= j < entries@.len() && #[trigger] entries@[j].0 == k,
            forall|j: int| 0 <= j < i ==> b@.contains_key(#[trigger] entries@[j].0) && b@[entries@[j].0] == entries@[j].1,
        decreases entries@.len() - i,
    {
        let (k, v) = entries[i];
        match b.get(&k) {
            Some(w) => {
                if !(v.0 == w.0 && v.1 == w.1) {
                    return false;
                }
            },
            None => {
                return false;
            },
        }
        i = i + 1;
    }
    proof {
        assert(a@.dom().subset_of(b@.dom())) by {
            assert forall|k: LayoutDeviceID| a@.contains_key(k) implies b@.contains_key(k) by {
                let j = choose|j: int| 0 <= j < entries@.len() && #[trigger] entries@[j].0 == k;
            }
        }
        vstd::set_lib::lemma_subset_equality(a@.dom(), b@.dom());
        assert forall|k: LayoutDeviceID| a@.contains_key(k) implies a@[k] == b@[k] by {
            let j = choose|j: int| 0 <= j < entries@.len() && #[trigger] entries@[j].0 == k;
        }
        assert(a@ =~= b@);
    }
    true
}

impl TrackLocks {
    /// A copy of the locks.
    pub fn snapshot(&self) -> (r: Self)
        ensures
            r.locked_tracks@ == self.locked_tracks@,
            r.locked_switch_motors@ == self.locked_switch_motors@,
    {
        TrackLocks { locked_tracks: self.locked_tracks.copy(), locked_switch_motors: self.locked_switch_motors.copy() }
    }

    /// Whether two sets of locks hold the same.
    pub fn same_locks(&self, other: &Self) -> (r: bool)
        ensures
            r == (self.locked_tracks@ == other.locked_tracks@ && self.locked_switch_motors@ == other.locked_switch_motors@),
    {
        self.locked_tracks.same_map(&other.locked_tracks) && same_motor_locks(&self.locked_switch_motors, &other.locked_switch_motors)
    }
}

impl TrackLocks {
    pub fn new() -> (r: Self)
        ensures
            r.locked_tracks@ == Map::<TrackID, TrainID>::empty(),
            r.locked_switch_motors@ == Map::<LayoutDeviceID, (TrainID, MotorPosition)>::empty(),
    {
        TrackLocks { locked_tracks: KeyedMap::new(), locked_switch_motors: KeyedMap::new() }
    }

    /// Whether the train may take the track: no track colliding with it is
    /// held by another train.
    pub fn can_lock_track(&self, train: &TrainID, track: &TrackID) -> (r: bool)
        ensures
            r == track_free(self.locked_tracks@, *train, *track),
            r <==> forall|u: TrackID| (crate::layout_primitives::shares_end(*track, u)
                || crate::layout_primitives::crossing_straights(*track, u)) && self.locked_tracks@.contains_key(u)
                ==> self.locked_tracks@[u] == *train,
    {
        proof {
            assert forall|u: TrackID| track_collides(*track, u) <==> (crate::layout_primitives::shares_end(*track, u)
                || crate::layout_primitives::crossing_straights(*track, u)) by {
                crate::layout_primitives::lemma_collides_iff_shares_end(*track, u);
            }
        }
        reveal(track_free);
        let colliding = track.colliding_tracks();
        let mut i: usize = 0;
        while i < colliding.len()
            invariant
                0 <= i <= colliding@.len(),
                forall|u: TrackID| colliding@.contains(u) <==> track_collides(*track, u),
                forall|k: int| 0 <= k < i && self.locked_tracks@.contains_key(#[trigger] colliding@[k]) ==> self.locked_tracks@[colliding@[k]] == *train,
            decreases colliding@.len() - i,
        {
            let u = colliding[i];
            match self.locked_tracks.get(&u) {
                Some(locked_train) => {
                    if *locked_train != *train {
                        assert(colliding@.contains(colliding@[i as int]));
                        assert(track_collides(*track, u) && self.locked_tracks@.contains_key(u) && self.locked_tracks@[u] != *train);
                        proof {
                            reveal(track_free);
                            crate::layout_primitives::lemma_collides_iff_shares_end(*track, u);
                        }
                        return false;
                    }
                },
                None => {},
            }
            i = i + 1;
        }
        proof {
            assert forall|u: TrackID| #[trigger] track_collides(*track, u) && self.locked_tracks@.contains_key(u) implies self.locked_tracks@[u] == *train by {
                assert(colliding@.contains(u));
                let k = choose|k: int| 0 <= k < colliding@.len() && colliding@[k] == u;
            }
            assert forall|u: TrackID| (crate::layout_primitives::shares_end(*track, u)
                || crate::layout_primitives::crossing_straights(*track, u)) && self.locked_tracks@.contains_key(u)
                implies self.locked_tracks@[u] == *train by {
                crate::layout_primitives::lemma_collides_iff_shares_end(*track, u);
            }
        }
        true
    }

    /// Whether the train may pass the connection: every motor of a switch
    /// there that another lock holds stands where the connection needs it.
    pub fn can_lock_connection(&self, _train: &TrainID, connection: &LogicalTrackConnectionID, switches: &SwitchMap) -> (r: bool)
        requires
            switches@.contains_key(connection.from_track.dirtrack) ==> switch_ready(
                &switches@[connection.from_track.dirtrack],
                dirtrack_switch_position(connection.to_track.dirtrack),
            ),
        ensures
            r == connection_free(self.locked_switch_motors@, switches@, connection.from_track.dirtrack, connection.to_track.dirtrack),
    {
        reveal(connection_free);
        let directed = connection.to_directed();
        match switches.get(&directed.from_track) {
            Some(switch) => {
                let position = directed.to_track.get_switch_position();
                let motors = switch.iter_motor_positions(&position);
                let mut i: usize = 0;
                while i < motors.len()
                    invariant
                        0 <= i <= motors@.len(),
                        switches@.contains_key(directed.from_track) && switches@[directed.from_track] == *switch,
                        position == dirtrack_switch_position(directed.to_track),
                        directed.from_track == connection.from_track.dirtrack,
                        directed.to_track == connection.to_track.dirtrack,
                        motors@.len() == switch.motor_ids().len(),
                        forall|k: int| 0 <= k < motors@.len() ==> (#[trigger] motors@[k]) == (switch.motor_ids()[k], motor_position_for(
                            first_index(switch.positions_spec(), position),
                            k,
                        )),
                        forall|k: int| 0 <= k < i && (#[trigger] switch.motor_ids()[k]) is Some && self.locked_switch_motors@.contains_key(
                            switch.motor_ids()[k]->0,
                        ) ==> self.locked_switch_motors@[switch.motor_ids()[k]->0].1 == motor_position_for(
                            first_index(switch.positions_spec(), position),
                            k,
                        ),
                    decreases motors@.len() - i,
                {
                    let (id_option, pos) = motors[i];
                    if let Some(id) = id_option {
                        if let Some(locked) = self.locked_switch_motors.get(&id) {
                            if locked.1 != pos {
                                assert(motors@[i as int] == (switch.motor_ids()[i as int], pos));
                                assert(switches@[directed.from_track] == *switch);
                                assert(switch.motor_ids()[i as int] is Some && self.locked_switch_motors@.contains_key(switch.motor_ids()[i as int]->0)
                                    && self.locked_switch_motors@[switch.motor_ids()[i as int]->0].1 != motor_position_for(
                                    first_index(switch.positions_spec(), position),
                                    i as int,
                                ));
                                proof {
                                    reveal(connection_free);
                                }
                                return false;
                            }
                        }
                    }
                    i = i + 1;
                }
                true
            },
            None => true,
        }
    }

    /// Whether the train may take the whole section.
    pub fn can_lock(&self, train: &TrainID, section: &LogicalSection, switches: &SwitchMap) -> (r: bool)
        requires
            switches_ready(switches@, section.tracks@),
        ensures
            r == section_free(self, switches@, *train, section.tracks@),
    {
        let mut i: usize = 0;
        while i < section.tracks.len()
            invariant
                0 <= i <= section.tracks@.len(),
                forall|k: int| 0 <= k < i ==> track_free(self.locked_tracks@, *train, #[trigger] section.tracks@[k].dirtrack.track),
            decreases section.tracks@.len() - i,
        {
            if !self.can_lock_track(train, &section.tracks[i].dirtrack.track) {
                assert(!track_free(self.locked_tracks@, *train, section.tracks@[i as int].dirtrack.track));
                return false;
            }
            i = i + 1;
        }
        let connections = section.connection_iter();
        let mut j: usize = 0;
        while j < connections.len()
            invariant
                0 <= j <= connections@.len(),
                connections@.len() == windows(section.tracks@).len(),
                switches_ready(switches@, section.tracks@),
                forall|k: int| 0 <= k < connections@.len() ==> (#[trigger] connections@[k]).from_track == section.tracks@[k]
                    && connections@[k].to_track == section.tracks@[k + 1],
                forall|k: int| 0 <= k < section.tracks@.len() ==> track_free(self.locked_tracks@, *train, #[trigger] section.tracks@[k].dirtrack.track),
                forall|k: int| 0 <= k < j ==> #[trigger] connection_free_at(self.locked_switch_motors@, switches@, section.tracks@, k),
            decreases connections@.len() - j,
        {
            let c = connections[j];
            proof {
                reveal(switches_ready);
                assert(c.from_track == section.tracks@[j as int]);
                if switches@.contains_key(section.tracks@[j as int].dirtrack) {
                    assert(switch_ready(&switches@[section.tracks@[j as int].dirtrack], dirtrack_switch_position(section.tracks@[j + 1].dirtrack)));
                }
            }
            if !self.can_lock_connection(train, &c, switches) {
                assert(!connection_free_at(self.locked_switch_motors@, switches@, section.tracks@, j as int));
                return false;
            }
            assert(connection_free_at(self.locked_switch_motors@, switches@, section.tracks@, j as int));
            j = j + 1;
        }
        true
    }

    /// Releases everything the train holds.
    pub fn unlock_all(&mut self, train: &TrainID)
        ensures
            final(self).locked_tracks@ == old(self).locked_tracks@.restrict(
                old(self).locked_tracks@.dom().filter(|t: TrackID| old(self).locked_tracks@[t] != *train),
            ),
            final(self).locked_switch_motors@ == old(self).locked_switch_motors@.restrict(
                old(self).locked_switch_motors@.dom().filter(|d: LayoutDeviceID| old(self).locked_switch_motors@[d].0 != *train),
            ),
    {
        self.locked_tracks = tracks_not_held_by(&self.locked_tracks, *train);
        self.locked_switch_motors = motors_not_held_by(&self.locked_switch_motors, *train);
    }

    /// Locks the section for the train: its tracks, and the motors of the
    /// switches it passes at the positions it needs (a motor already held
    /// keeps its holder). Returns the switch positions to set. No track of
    /// the section may be held by another train, and no motor held at
    /// another position.
    pub fn lock(&mut self, train: &TrainID, section: &LogicalSection, switches: &SwitchMap) -> (r: Vec<SetSwitchPositionMessage>)
        requires
            switches_ready(switches@, section.tracks@),
            forall|i: int| 0 <= i < section.tracks@.len() && old(self).locked_tracks@.contains_key(#[trigger] section.tracks@[i].dirtrack.track)
                ==> old(self).locked_tracks@[section.tracks@[i].dirtrack.track] == *train,
            forall|i: int| 0 <= i < section.tracks@.len() - 1 ==> #[trigger] connection_free_at(old(self).locked_switch_motors@, switches@, section.tracks@, i),
            motor_demands_agree(switches@, section.tracks@),
        ensures
            final(self).locked_tracks@ == claimed_tracks(old(self).locked_tracks@, *train, section.tracks@),
            extends_held(old(self).locked_switch_motors@, final(self).locked_switch_motors@, *train, switches@, section.tracks@),
            forall|i: int| 0 <= i < section.tracks@.len() - 1 ==> #[trigger] connection_free_at(final(self).locked_switch_motors@, switches@, section.tracks@, i),
            r@ == switch_settings(switches@, section.tracks@),
            demands_met(final(self).locked_switch_motors@, switches@, section.tracks@, section.tracks@.len() - 1),
    {
        self.lock_tracks(train, section);
        self.lock_connections(train, section, switches)
    }

    fn lock_connections(&mut self, train: &TrainID, section: &LogicalSection, switches: &SwitchMap) -> (r: Vec<SetSwitchPositionMessage>)
        requires
            switches_ready(switches@, section.tracks@),
            forall|i: int| 0 <= i < section.tracks@.len() - 1 ==> #[trigger] connection_free_at(old(self).locked_switch_motors@, switches@, section.tracks@, i),
            motor_demands_agree(switches@, section.tracks@),
        ensures
            final(self).locked_tracks@ == old(self).locked_tracks@,
            extends_held(old(self).locked_switch_motors@, final(self).locked_switch_motors@, *train, switches@, section.tracks@),
            forall|i: int| 0 <= i < section.tracks@.len() - 1 ==> #[trigger] connection_free_at(final(self).locked_switch_motors@, switches@, section.tracks@, i),
            r@ == switch_settings(switches@, section.tracks@),
            demands_met(final(self).locked_switch_motors@, switches@, section.tracks@, section.tracks@.len() - 1),
    {
        let ghost orig = self.locked_switch_motors@;
        let mut events: Vec<SetSwitchPositionMessage> = Vec::new();
        let n = section.tracks.len();
        if n < 2 {
            proof {
                reveal(extends_held);
                reveal(connection_free);
                reveal(demands_met);
                assert(switch_settings(switches@, section.tracks@) =~= Seq::<SetSwitchPositionMessage>::empty());
            }
            return events;
        }
        proof {
            reveal(demands_met);
            reveal(extends_held);
            assert(section.tracks@.subrange(0, 1).len() < 2);
            assert(switch_settings(switches@, section.tracks@.subrange(0, 1)) =~= Seq::<SetSwitchPositionMessage>::empty());
        }
        let mut j: usize = 0;
        while j < n - 1
            invariant
                n == section.tracks@.len(),
                n >= 2,
                0 <= j <= n - 1,
                switches_ready(switches@, section.tracks@),
                motor_demands_agree(switches@, section.tracks@),
                orig == old(self).locked_switch_motors@,
                forall|k: int| 0 <= k < section.tracks@.len() - 1 ==> #[trigger] connection_free_at(orig, switches@, section.tracks@, k),
                self.locked_tracks@ == old(self).locked_tracks@,
                extends_held(orig, self.locked_switch_motors@, *train, switches@, section.tracks@),
                demands_met(self.locked_switch_motors@, switches@, section.tracks@, j as int),
                events@ == switch_settings(switches@, section.tracks@.subrange(0, j + 1)),
            decreases n - 1 - j,
        {
            self.lock_step(train, section, switches, j, &mut events, Ghost(orig));
            j = j + 1;
        }
        proof {
            assert(section.tracks@.subrange(0, n as int) =~= section.tracks@);
            lemma_met_implies_free(self.locked_switch_motors@, switches@, section.tracks@);
        }
        events
    }

    /// One connection of `lock_connections`: holds the motors of the switch
    /// at the `j`-th connection and records the position it is set to.
    fn lock_step(
        &mut self,
        train: &TrainID,
        section: &LogicalSection,
        switches: &SwitchMap,
        j: usize,
        events: &mut Vec<SetSwitchPositionMessage>,
        Ghost(orig): Ghost<Map<LayoutDeviceID, (TrainID, MotorPosition)>>,
    )
        requires
            0 <= j < section.tracks@.len() - 1,
            switches_ready(switches@, section.tracks@),
            motor_demands_agree(switches@, section.tracks@),
            forall|k: int| 0 <= k < section.tracks@.len() - 1 ==> #[trigger] connection_free_at(orig, switches@, section.tracks@, k),
            extends_held(orig, old(self).locked_switch_motors@, *train, switches@, section.tracks@),
            demands_met(old(self).locked_switch_motors@, switches@, section.tracks@, j as int),
            old(events)@ == switch_settings(switches@, section.tracks@.subrange(0, j + 1)),
        ensures
            final(self).locked_tracks@ == old(self).locked_tracks@,
            extends_held(orig, final(self).locked_switch_motors@, *train, switches@, section.tracks@),
            demands_met(final(self).locked_switch_motors@, switches@, section.tracks@, j + 1),
            final(events)@ == switch_settings(switches@, section.tracks@.subrange(0, j + 2)),
    {
        let n = section.tracks.len();
        let from = section.tracks[j].dirtrack;
        let to = section.tracks[j + 1].dirtrack;
        proof {
            assert(section.tracks@.subrange(0, j + 2).drop_last() =~= section.tracks@.subrange(0, j + 1));
            assert(section.tracks@.subrange(0, j + 2)[j as int] == section.tracks@[j as int]);
        }
        match switches.get(&from) {
            Some(switch) => {
                let position = to.get_switch_position();
                assert(connection_free_at(orig, switches@, section.tracks@, j as int));
                self.lock_switch(train, switch, position, j, section, switches, Ghost(orig));
                events.push(SetSwitchPositionMessage { id: from, position });
            },
            None => {
                proof {
                    lemma_met_step_without_switch(self.locked_switch_motors@, switches@, section.tracks@, j as int);
                }
            },
        }
    }

    fn lock_tracks(&mut self, train: &TrainID, section: &LogicalSection)
        ensures
            final(self).locked_tracks@ == claimed_tracks(old(self).locked_tracks@, *train, section.tracks@),
            final(self).locked_switch_motors@ == old(self).locked_switch_motors@,
    {
        let n = section.tracks.len();
        let mut i: usize = 0;
        while i < n
            invariant
                n == section.tracks@.len(),
                0 <= i <= n,
                self.locked_switch_motors@ == old(self).locked_switch_motors@,
                self.locked_tracks@ == claimed_tracks(old(self).locked_tracks@, *train, section.tracks@.subrange(0, i as int)),
            decreases n - i,
        {
            let t = section.tracks[i].dirtrack.track;
            self.locked_tracks.insert(t, *train);
            proof {
                let pre = section.tracks@.subrange(0, i as int);
                let nxt = section.tracks@.subrange(0, i + 1);
                assert(self.locked_tracks@ =~= claimed_tracks(old(self).locked_tracks@, *train, nxt)) by {
                    assert forall|u: TrackID| #[trigger] covers(nxt, u) == (covers(pre, u) || u == t) by {
                        if covers(nxt, u) {
                            let k = choose|k: int| 0 <= k < nxt.len() && #[trigger] nxt[k].dirtrack.track == u;
                            if k < i {
                                assert(pre[k] == nxt[k]);
                            }
                        }
                        if covers(pre, u) {
                            let k = choose|k: int| 0 <= k < pre.len() && #[trigger] pre[k].dirtrack.track == u;
                            assert(nxt[k] == pre[k]);
                        }
                        if u == t {
                            assert(nxt[i as int].dirtrack.track == u);
                        }
                    }
                }
            }
            i = i + 1;
        }
        proof {
            assert(section.tracks@.subrange(0, n as int) =~= section.tracks@);
        }
    }

    fn lock_switch(
        &mut self,
        train: &TrainID,
        switch: &Switch,
        position: SwitchPosition,
        j: usize,
        section: &LogicalSection,
        switches: &SwitchMap,
        Ghost(orig): Ghost<Map<LayoutDeviceID, (TrainID, MotorPosition)>>,
    )
        requires
            0 <= j < section.tracks@.len() - 1,
            switches@.contains_key(section.tracks@[j as int].dirtrack),
            switches@[section.tracks@[j as int].dirtrack] == *switch,
            position == dirtrack_switch_position(section.tracks@[j + 1].dirtrack),
            switches_ready(switches@, section.tracks@),
            motor_demands_agree(switches@, section.tracks@),
            connection_free(orig, switches@, section.tracks@[j as int].dirtrack, section.tracks@[j + 1].dirtrack),
            extends_held(orig, old(self).locked_switch_motors@, *train, switches@, section.tracks@),
            demands_met(old(self).locked_switch_motors@, switches@, section.tracks@, j as int),
        ensures
            final(self).locked_tracks@ == old(self).locked_tracks@,
            extends_held(orig, final(self).locked_switch_motors@, *train, switches@, section.tracks@),
            demands_met(final(self).locked_switch_motors@, switches@, section.tracks@, j + 1),
    {
        let ghost s = section.tracks@;
        proof {
            reveal(demands_met);
            reveal(extends_held);
            reveal(connection_free);
            reveal(switches_ready);
            assert(switch_ready(&switches@[s[j as int].dirtrack], dirtrack_switch_position(s[j + 1].dirtrack)));
        }
        let motors = switch.iter_motor_positions(&position);
        let ghost pi = first_index(switch.positions_spec(), position);
        let mut m: usize = 0;
        while m < motors.len()
            invariant
                0 <= m <= motors@.len(),
                motors@.len() == switch.motor_ids().len(),
                0 <= j < s.len() - 1,
                s == section.tracks@,
                switches@.contains_key(s[j as int].dirtrack),
                switches@[s[j as int].dirtrack] == *switch,
                position == dirtrack_switch_position(s[j + 1].dirtrack),
                pi == first_index(switch.positions_spec(), position),
                motor_demands_agree(switches@, s),
                connection_free(orig, switches@, s[j as int].dirtrack, s[j + 1].dirtrack),
                forall|k: int| 0 <= k < motors@.len() ==> (#[trigger] motors@[k]) == (switch.motor_ids()[k], motor_position_for(pi, k)),
                self.locked_tracks@ == old(self).locked_tracks@,
                extends_held(orig, self.locked_switch_motors@, *train, switches@, s),
                demands_met(self.locked_switch_motors@, switches@, s, j as int),
                forall|q: int, d: LayoutDeviceID, p: MotorPosition| 0 <= q < m && #[trigger] demanded_at(switches@, s, j as int, q, d, p)
                    ==> self.locked_switch_motors@.contains_key(d) && self.locked_switch_motors@[d].1 == p,
            decreases motors@.len() - m,
        {
            let (id_option, pos) = motors[m];
            let ghost before = self.locked_switch_motors@;
            proof {
                reveal(demands_met);
                reveal(extends_held);
                reveal(connection_free);
                assert(motors@[m as int] == (switch.motor_ids()[m as int], pos));
            }
            if let Some(id) = id_option {
                proof {
                    assert(demanded_at(switches@, s, j as int, m as int, id, pos));
                }
                if !self.locked_switch_motors.contains_key(&id) {
                    self.locked_switch_motors.insert(id, (*train, pos));
                    proof {
                        assert(demanded(switches@, s, id, pos));
                    }
                } else {
                    proof {
                        if orig.contains_key(id) {
                            assert(switch.motor_ids()[m as int] is Some);
                            assert(orig[switch.motor_ids()[m as int]->0].1 == pos);
                        } else {
                            let held = self.locked_switch_motors@[id].1;
                            assert(demanded(switches@, s, id, held));
                            assert(demanded(switches@, s, id, pos));
                            lemma_demands_agree(switches@, s, id, held, pos);
                        }
                    }
                }
            }
            proof {
                assert forall|q: int, d: LayoutDeviceID, p: MotorPosition| 0 <= q < m + 1 && #[trigger] demanded_at(switches@, s, j as int, q, d, p)
                    implies self.locked_switch_motors@.contains_key(d) && self.locked_switch_motors@[d].1 == p by {
                    if q < m {
                        assert(before.contains_key(d) && before[d].1 == p);
                    } else {
                        assert(switch.motor_ids()[q] == Some(d));
                        assert(p == pos);
                    }
                }
                assert forall|jj: int, q: int, d: LayoutDeviceID, p: MotorPosition| jj < j && #[trigger] demanded_at(switches@, s, jj, q, d, p)
                    implies self.locked_switch_motors@.contains_key(d) && self.locked_switch_motors@[d].1 == p by {
                    assert(before.contains_key(d) && before[d].1 == p);
                }
            }
            m = m + 1;
        }
        proof {
            reveal(demands_met);
            assert forall|jj: int, q: int, d: LayoutDeviceID, p: MotorPosition| jj < j + 1 && #[trigger] demanded_at(switches@, s, jj, q, d, p)
                implies self.locked_switch_motors@.contains_key(d) && self.locked_switch_motors@[d].1 == p by {
                if jj == j {
                    assert(0 <= q < motors@.len());
                }
            }
        }
    }
}

proof fn lemma_met_step_without_switch(
    motors: Map<LayoutDeviceID, (TrainID, MotorPosition)>,
    switches: Map<DirectedTrackID, Switch>,
    s: Seq<LogicalTrackID>,
    j: int,
)
    requires
        demands_met(motors, switches, s, j),
        0 <= j < s.len() - 1,
        !switches.contains_key(s[j].dirtrack),
    ensures
        demands_met(motors, switches, s, j + 1),
{
    reveal(demands_met);
    assert forall|jj: int, m: int, d: LayoutDeviceID, p: MotorPosition| jj < j + 1 && #[trigger] demanded_at(switches, s, jj, m, d, p)
        implies motors.contains_key(d) && motors[d].1 == p by {
        assert(jj != j);
    }
}

proof fn lemma_met_implies_free(motors: Map<LayoutDeviceID, (TrainID, MotorPosition)>, switches: Map<DirectedTrackID, Switch>, s: Seq<LogicalTrackID>)
    requires
        demands_met(motors, switches, s, s.len() - 1),
    ensures
        forall|k: int| 0 <= k < s.len() - 1 ==> #[trigger] connection_free_at(motors, switches, s, k),
{
    reveal(demands_met);
    reveal(connection_free);
    assert forall|k: int| 0 <= k < s.len() - 1 implies #[trigger] connection_free_at(motors, switches, s, k) by {
        if switches.contains_key(s[k].dirtrack) {
            let sw = switches[s[k].dirtrack];
            let pi = first_index(sw.positions_spec(), dirtrack_switch_position(s[k + 1].dirtrack));
            assert forall|q: int| 0 <= q < sw.motor_ids().len() && (#[trigger] sw.motor_ids()[q]) is Some && motors.contains_key(sw.motor_ids()[q]->0)
                implies motors[sw.motor_ids()[q]->0].1 == motor_position_for(pi, q) by {
                assert(demanded_at(switches, s, k, q, sw.motor_ids()[q]->0, motor_position_for(pi, q)));
            }
        }
    }
}

/// Every motor the first `j` connections of the section need is held at
/// the position they need.
#[verifier::opaque]
pub open spec fn demands_met(motors: Map<LayoutDeviceID, (TrainID, MotorPosition)>, switches: Map<DirectedTrackID, Switch>, s: Seq<LogicalTrackID>, j: int) -> bool {
    forall|jj: int, m: int, d: LayoutDeviceID, p: MotorPosition| jj < j && #[trigger] demanded_at(switches, s, jj, m, d, p)
        ==> motors.contains_key(d) && motors[d].1 == p
}

/// The motors held afterwards: everything held before, unchanged, and new
/// motors held by the train at a position the section needs.
#[verifier::opaque]
pub open spec fn extends_held(
    before: Map<LayoutDeviceID, (TrainID, MotorPosition)>,
    after: Map<LayoutDeviceID, (TrainID, MotorPosition)>,
    train: TrainID,
    switches: Map<DirectedTrackID, Switch>,
    s: Seq<LogicalTrackID>,
) -> bool {
    &&& forall|d: LayoutDeviceID| #[trigger] before.contains_key(d) ==> after.contains_key(d) && after[d] == before[d]
    &&& forall|d: LayoutDeviceID| #[trigger] after.contains_key(d) && !before.contains_key(d) ==> after[d].0 == train && demanded(switches, s, d, after[d].1)
}

/// The section needs motor `d` at position `p` at its `j`-th connection,
/// as motor `m` of the switch there.
pub open spec fn demanded_at(switches: Map<DirectedTrackID, Switch>, s: Seq<LogicalTrackID>, j: int, m: int, d: LayoutDeviceID, p: MotorPosition) -> bool {
    &&& 0 <= j < s.len() - 1
    &&& switches.contains_key(s[j].dirtrack)
    &&& 0 <= m < switches[s[j].dirtrack].motor_ids().len()
    &&& switches[s[j].dirtrack].motor_ids()[m] == Some(d)
    &&& p == motor_position_for(first_index(switches[s[j].dirtrack].positions_spec(), dirtrack_switch_position(s[j + 1].dirtrack)), m)
}

pub open spec fn demanded(switches: Map<DirectedTrackID, Switch>, s: Seq<LogicalTrackID>, d: LayoutDeviceID, p: MotorPosition) -> bool {
    exists|j: int, m: int| #[trigger] demanded_at(switches, s, j, m, d, p)
}

/// Wherever the section needs a motor, it needs it at the same position.
#[verifier::opaque]
pub open spec fn motor_demands_agree(switches: Map<DirectedTrackID, Switch>, s: Seq<LogicalTrackID>) -> bool {
    forall|d: LayoutDeviceID, p: MotorPosition, q: MotorPosition| #[trigger] demanded(switches, s, d, p) && #[trigger] demanded(switches, s, d, q) ==> p == q
}

proof fn lemma_demands_agree(switches: Map<DirectedTrackID, Switch>, s: Seq<LogicalTrackID>, d: LayoutDeviceID, p: MotorPosition, q: MotorPosition)
    requires
        motor_demands_agree(switches, s),
        demanded(switches, s, d, p),
        demanded(switches, s, d, q),
    ensures
        p == q,
{
    reveal(motor_demands_agree);
}

// ---------------------------------------------------------------------------
// Marker map
// ---------------------------------------------------------------------------

/// Which marker tracks lead a train into which logical block: the marker
/// where it is fully in, and the one where it enters.
pub struct MarkerMap {
    pub in_markers: KeyedMap<LogicalTrackID, LogicalBlockID>,
    pub enter_markers: KeyedMap<LogicalTrackID, LogicalBlockID>,
}

pub open spec fn marker_key_of(
    in_markers: Map<LogicalTrackID, LogicalBlockID>,
    enter_markers: Map<LogicalTrackID, LogicalBlockID>,
    t: LogicalTrackID,
    target: LogicalBlockID,
) -> MarkerKey {
    if in_markers.contains_key(t) && in_markers[t] == target {
        MarkerKey::In
    } else if enter_markers.contains_key(t) && enter_markers[t] == target {
        MarkerKey::Enter
    } else {
        MarkerKey::Other
    }
}

impl MarkerMap {
    pub fn new() -> (r: Self)
        ensures
            r.in_markers@ == Map::<LogicalTrackID, LogicalBlockID>::empty(),
            r.enter_markers@ == Map::<LogicalTrackID, LogicalBlockID>::empty(),
    {
        MarkerMap { in_markers: KeyedMap::new(), enter_markers: KeyedMap::new() }
    }

    /// What the marker on `logical_track` means for a train heading into `target_block`.
    pub fn get_marker_key(&self, logical_track: &LogicalTrackID, target_block: &LogicalBlockID) -> (r: MarkerKey)
        ensures
            r == marker_key_of(self.in_markers@, self.enter_markers@, *logical_track, *target_block),
    {
        match self.in_markers.get(logical_track) {
            Some(b) => if *b == *target_block {
                return MarkerKey::In;
            },
            None => {},
        }
        match self.enter_markers.get(logical_track) {
            Some(b) => if *b == *target_block {
                return MarkerKey::Enter;
            },
            None => {},
        }
        MarkerKey::Other
    }

    /// Records the marker's meaning for a logical block.
    pub fn register_marker(&mut self, logical_track: LogicalTrackID, marker_key: MarkerKey, logical_block: LogicalBlockID)
        ensures
            final(self).in_markers@ == if marker_key == MarkerKey::In {
                old(self).in_markers@.insert(logical_track, logical_block)
            } else {
                old(self).in_markers@
            },
            final(self).enter_markers@ == if marker_key == MarkerKey::Enter {
                old(self).enter_markers@.insert(logical_track, logical_block)
            } else {
                old(self).enter_markers@
            },
    {
        match marker_key {
            MarkerKey::In => {
                self.in_markers.insert(logical_track, logical_block);
            },
            MarkerKey::Enter => {
                self.enter_markers.insert(logical_track, logical_block);
            },
            MarkerKey::Other => {},
        }
    }

    /// Forgets the markers on a track.
    pub fn remove_marker(&mut self, track: TrackID)
        ensures
            final(self).in_markers@ == old(self).in_markers@.restrict(old(self).in_markers@.dom().filter(|l: LogicalTrackID| l.dirtrack.track != track)),
            final(self).enter_markers@ == old(self).enter_markers@.restrict(old(self).enter_markers@.dom().filter(|l: LogicalTrackID| l.dirtrack.track != track)),
    {
        let logicals = track.logical_tracks();
        let mut i: usize = 0;
        while i < 4
            invariant
                0 <= i <= 4,
                logicals@ == crate::connections::track_logicals_seq(track),
                self.in_markers@ == old(self).in_markers@.restrict(old(self).in_markers@.dom().filter(|l: LogicalTrackID| !(exists|k: int| 0 <= k < i && logicals@[k] == l))),
                self.enter_markers@ == old(self).enter_markers@.restrict(old(self).enter_markers@.dom().filter(|l: LogicalTrackID| !(exists|k: int| 0 <= k < i && logicals@[k] == l))),
            decreases 4 - i,
        {
            let l = logicals[i];
            let _ = self.in_markers.remove(&l);
            let _ = self.enter_markers.remove(&l);
            proof {
                assert(self.in_markers@ =~= old(self).in_markers@.restrict(old(self).in_markers@.dom().filter(|x: LogicalTrackID| !(exists|k: int| 0 <= k < i + 1 && logicals@[k] == x))));
                assert(self.enter_markers@ =~= old(self).enter_markers@.restrict(old(self).enter_markers@.dom().filter(|x: LogicalTrackID| !(exists|k: int| 0 <= k < i + 1 && logicals@[k] == x))));
            }
            i = i + 1;
        }
        proof {
            assert forall|l: LogicalTrackID| (exists|k: int| 0 <= k < 4 && logicals@[k] == l) == (l.dirtrack.track == track) by {
                if l.dirtrack.track == track {
                    if l.dirtrack.direction == crate::layout_primitives::TrackDirection::First && l.facing == crate::layout_primitives::Facing::Forward {
                        assert(logicals@[0] == l);
                    } else if l.dirtrack.direction == crate::layout_primitives::TrackDirection::First {
                        assert(logicals@[1] == l);
                    } else if l.facing == crate::layout_primitives::Facing::Forward {
                        assert(logicals@[2] == l);
                    } else {
                        assert(logicals@[3] == l);
                    }
                }
            }
            assert(self.in_markers@ =~= old(self).in_markers@.restrict(old(self).in_markers@.dom().filter(|l: LogicalTrackID| l.dirtrack.track != track)));
            assert(self.enter_markers@ =~= old(self).enter_markers@.restrict(old(self).enter_markers@.dom().filter(|l: LogicalTrackID| l.dirtrack.track != track)));
        }
    }

    /// Forgets every marker that leads into the block.
    pub fn remove_block(&mut self, block: BlockID)
        ensures
            final(self).in_markers@ == old(self).in_markers@.restrict(old(self).in_markers@.dom().filter(|l: LogicalTrackID| old(self).in_markers@[l].block != block)),
            final(self).enter_markers@ == old(self).enter_markers@.restrict(old(self).enter_markers@.dom().filter(|l: LogicalTrackID| old(self).enter_markers@[l].block != block)),
    {
        self.in_markers = keep_other_blocks(&self.in_markers, block);
        self.enter_markers = keep_other_blocks(&self.enter_markers, block);
    }
}

fn tracks_not_held_by(m: &KeyedMap<TrackID, TrainID>, train: TrainID) -> (r: KeyedMap<TrackID, TrainID>)
    ensures
        r@ == m@.restrict(m@.dom().filter(|t: TrackID| m@[t] != train)),
{
    let entries = m.entries();
    let mut kept: KeyedMap<TrackID, TrainID> = KeyedMap::new();
    let mut i: usize = 0;
    while i < entries.len()
        invariant
            0 <= i <= entries@.len(),
            forall|k: int| 0 <= k < entries@.len() ==> m@.contains_key(#[trigger] entries@[k].0) && m@[entries@[k].0] == entries@[k].1,
            forall|t: TrackID| m@.contains_key(t) ==> exists|k: int| 0 <= k < entries@.len() && #[trigger] entries@[k].0 == t,
            kept@ == m@.restrict(Set::new(|t: TrackID| exists|k: int| 0 <= k < i && #[trigger] entries@[k].0 == t && entries@[k].1 != train)),
        decreases entries@.len() - i,
    {
        let (t, owner) = entries[i];
        if owner != train {
            kept.insert(t, owner);
        }
        proof {
            assert(kept@ =~= m@.restrict(Set::new(|x: TrackID| exists|k: int| 0 <= k < i + 1 && #[trigger] entries@[k].0 == x && entries@[k].1 != train)));
        }
        i = i + 1;
    }
    proof {
        assert(Set::new(|t: TrackID| exists|k: int| 0 <= k < entries@.len() && #[trigger] entries@[k].0 == t && entries@[k].1 != train)
            =~= m@.dom().filter(|t: TrackID| m@[t] != train));
    }
    kept
}

fn motors_not_held_by(m: &KeyedMap<LayoutDeviceID, (TrainID, MotorPosition)>, train: TrainID) -> (r: KeyedMap<LayoutDeviceID, (TrainID, MotorPosition)>)
    ensures
        r@ == m@.restrict(m@.dom().filter(|d: LayoutDeviceID| m@[d].0 != train)),
{
    let entries = m.entries();
    let mut kept: KeyedMap<LayoutDeviceID, (TrainID, MotorPosition)> = KeyedMap::new();
    let mut i: usize = 0;
    while i < entries.len()
        invariant
            0 <= i <= entries@.len(),
            forall|k: int| 0 <= k < entries@.len() ==> m@.contains_key(#[trigger] entries@[k].0) && m@[entries@[k].0] == entries@[k].1,
            forall|d: LayoutDeviceID| m@.contains_key(d) ==> exists|k: int| 0 <= k < entries@.len() && #[trigger] entries@[k].0 == d,
            kept@ == m@.restrict(Set::new(|d: LayoutDeviceID| exists|k: int| 0 <= k < i && #[trigger] entries@[k].0 == d && entries@[k].1.0 != train)),
        decreases entries@.len() - i,
    {
        let (d, held) = entries[i];
        if held.0 != train {
            kept.insert(d, held);
        }
        proof {
            assert(kept@ =~= m@.restrict(Set::new(|x: LayoutDeviceID| exists|k: int| 0 <= k < i + 1 && #[trigger] entries@[k].0 == x && entries@[k].1.0 != train)));
        }
        i = i + 1;
    }
    proof {
        assert(Set::new(|d: LayoutDeviceID| exists|k: int| 0 <= k < entries@.len() && #[trigger] entries@[k].0 == d && entries@[k].1.0 != train)
            =~= m@.dom().filter(|d: LayoutDeviceID| m@[d].0 != train));
    }
    kept
}

fn keep_other_blocks(m: &KeyedMap<LogicalTrackID, LogicalBlockID>, block: BlockID) -> (r: KeyedMap<LogicalTrackID, LogicalBlockID>)
    ensures
        r@ == m@.restrict(m@.dom().filter(|l: LogicalTrackID| m@[l].block != block)),
{
    let entries = m.entries();
    let mut kept: KeyedMap<LogicalTrackID, LogicalBlockID> = KeyedMap::new();
    let mut i: usize = 0;
    while i < entries.len()
        invariant
            0 <= i <= entries@.len(),
            forall|k: int| 0 <= k < entries@.len() ==> m@.contains_key(#[trigger] entries@[k].0) && m@[entries@[k].0] == entries@[k].1,
            forall|l: LogicalTrackID| m@.contains_key(l) ==> exists|k: int| 0 <= k < entries@.len() && #[trigger] entries@[k].0 == l,
            kept@ == m@.restrict(Set::new(|l: LogicalTrackID| exists|k: int| 0 <= k < i && #[trigger] entries@[k].0 == l && entries@[k].1.block != block)),
        decreases entries@.len() - i,
    {
        let (l, b) = entries[i];
        if b.block != block {
            kept.insert(l, b);
        }
        proof {
            assert(kept@ =~= m@.restrict(Set::new(|x: LogicalTrackID| exists|k: int| 0 <= k < i + 1 && #[trigger] entries@[k].0 == x && entries@[k].1.block != block)));
        }
        i = i + 1;
    }
    proof {
        assert(Set::new(|l: LogicalTrackID| exists|k: int| 0 <= k < entries@.len() && #[trigger] entries@[k].0 == l && entries@[k].1.block != block)
            =~= m@.dom().filter(|l: LogicalTrackID| m@[l].block != block));
    }
    kept
}

// ---------------------------------------------------------------------------
// Entity map
// ---------------------------------------------------------------------------

/// The entity that stands for each element of the layout.
pub struct EntityMap<E> {
    pub tracks: KeyedMap<TrackID, E>,
    pub connections_outer: KeyedMap<DirectedTrackConnectionID, E>,
    pub connections_inner: KeyedMap<DirectedTrackConnectionID, E>,
    pub connections_path: KeyedMap<DirectedTrackConnectionID, E>,
    pub switches: KeyedMap<DirectedTrackID, E>,
    pub markers: KeyedMap<TrackID, E>,
    pub blocks: KeyedMap<BlockID, E>,
    pub trains: KeyedMap<TrainID, E>,
    pub wagons: KeyedMap<WagonID, E>,
    pub hubs: KeyedMap<HubID, E>,
    pub layout_devices: KeyedMap<LayoutDeviceID, E>,
    pub destinations: KeyedMap<DestinationID, E>,
    pub schedules: KeyedMap<ScheduleID, E>,
    pub crossings: KeyedMap<TrackID, E>,
}

/// The tables of an `EntityMap`, each connection's three entities counted as one.
#[derive(Clone, Copy, PartialEq, Eq, Debug, Structural)]
pub enum EntityTable {
    Tracks,
    Connections,
    Switches,
    Markers,
    Blocks,
    Trains,
    Wagons,
    Hubs,
    LayoutDevices,
    Destinations,
    Schedules,
    Crossings,
}

pub open spec fn lookup<K, E>(m: Map<K, E>, k: K) -> Option<E> {
    if m.contains_key(k) {
        Some(m[k])
    } else {
        None
    }
}

/// The values of a list of entries, in order.
pub open spec fn entry_values<K, E>(s: Seq<(K, E)>) -> Seq<E> {
    s.map_values(|e: (K, E)| e.1)
}

/// The entity for `k` is registered in place of none: a second one panics.
fn insert_new<K: Key, E>(m: &mut KeyedMap<K, E>, k: K, e: E)
    requires
        !old(m)@.contains_key(k),
    ensures
        final(m)@ == old(m)@.insert(k, e),
{
    m.insert(k, e);
}

fn append_values<K: Key, E: Copy>(out: &mut Vec<E>, m: &KeyedMap<K, E>)
    ensures
        final(out)@ == old(out)@ + entry_values(m.entries_view()),
{
    let n = m.len();
    let mut i: usize = 0;
    while i < n
        invariant
            n == m.entries_view().len(),
            0 <= i <= n,
            out@ == old(out)@ + entry_values(m.entries_view().subrange(0, i as int)),
        decreases n - i,
    {
        let e = m.entry(i);
        out.push(e.1);
        assert(entry_values(m.entries_view().subrange(0, i + 1)) =~= entry_values(m.entries_view().subrange(0, i as int)).push(e.1));
        i = i + 1;
    }
    assert(m.entries_view().subrange(0, n as int) =~= m.entries_view());
}

/// `n` distinct identifiers below `n` in a finite set make it at least `n` large.
proof fn lemma_ids_below<K>(dom: Set<K>, f: spec_fn(int) -> K, n: int)
    requires
        dom.finite(),
        0 <= n,
        forall|a: int, b: int| 0 <= a < n && 0 <= b < n && #[trigger] f(a) == #[trigger] f(b) ==> a == b,
        forall|k: int| 0 <= k < n ==> dom.contains(#[trigger] f(k)),
    ensures
        n <= dom.len(),
{
    let r = vstd::set_lib::set_int_range(0, n);
    vstd::set_lib::lemma_int_range(0, n);
    let img = r.map(f);
    assert(vstd::relations::injective_on(f, r)) by {
        assert forall|a: int, b: int| r.contains(a) && r.contains(b) && #[trigger] f(a) == #[trigger] f(b) implies a == b by {}
    }
    vstd::set_lib::lemma_map_size(r, img, f);
    assert(img.subset_of(dom)) by {
        assert forall|x: K| img.contains(x) implies dom.contains(x) by {
            let k = choose|k: int| r.contains(k) && f(k) == x;
        }
    }
    vstd::set_lib::lemma_len_subset(img, dom);
}

impl<E: Copy> EntityMap<E> {
    pub fn new() -> (r: Self)
        ensures
            r.tracks@ == Map::<TrackID, E>::empty(),
            r.connections_outer@ == Map::<DirectedTrackConnectionID, E>::empty(),
            r.connections_inner@ == Map::<DirectedTrackConnectionID, E>::empty(),
            r.connections_path@ == Map::<DirectedTrackConnectionID, E>::empty(),
            r.switches@ == Map::<DirectedTrackID, E>::empty(),
            r.markers@ == Map::<TrackID, E>::empty(),
            r.blocks@ == Map::<BlockID, E>::empty(),
            r.trains@ == Map::<TrainID, E>::empty(),
            r.wagons@ == Map::<WagonID, E>::empty(),
            r.hubs@ == Map::<HubID, E>::empty(),
            r.layout_devices@ == Map::<LayoutDeviceID, E>::empty(),
            r.destinations@ == Map::<DestinationID, E>::empty(),
            r.schedules@ == Map::<ScheduleID, E>::empty(),
            r.crossings@ == Map::<TrackID, E>::empty(),
    {
        EntityMap {
            tracks: KeyedMap::new(),
            connections_outer: KeyedMap::new(),
            connections_inner: KeyedMap::new(),
            connections_path: KeyedMap::new(),
            switches: KeyedMap::new(),
            markers: KeyedMap::new(),
            blocks: KeyedMap::new(),
            trains: KeyedMap::new(),
            wagons: KeyedMap::new(),
            hubs: KeyedMap::new(),
            layout_devices: KeyedMap::new(),
            destinations: KeyedMap::new(),
            schedules: KeyedMap::new(),
            crossings: KeyedMap::new(),
        }
    }

    /// Every table but `t` is the same in `a` and `b`.
    pub open spec fn unchanged_except(a: &Self, b: &Self, t: EntityTable) -> bool {
        &&& (t == EntityTable::Tracks || a.tracks@ == b.tracks@)
        &&& (t == EntityTable::Connections || (a.connections_outer@ == b.connections_outer@
            && a.connections_inner@ == b.connections_inner@ && a.connections_path@ == b.connections_path@))
        &&& (t == EntityTable::Switches || a.switches@ == b.switches@)
        &&& (t == EntityTable::Markers || a.markers@ == b.markers@)
        &&& (t == EntityTable::Blocks || a.blocks@ == b.blocks@)
        &&& (t == EntityTable::Trains || a.trains@ == b.trains@)
        &&& (t == EntityTable::Wagons || a.wagons@ == b.wagons@)
        &&& (t == EntityTable::Hubs || a.hubs@ == b.hubs@)
        &&& (t == EntityTable::LayoutDevices || a.layout_devices@ == b.layout_devices@)
        &&& (t == EntityTable::Destinations || a.destinations@ == b.destinations@)
        &&& (t == EntityTable::Schedules || a.schedules@ == b.schedules@)
        &&& (t == EntityTable::Crossings || a.crossings@ == b.crossings@)
    }

    /// The kinds of element `get_entity` looks up.
    pub open spec fn handles(&self, id: GenericID) -> bool {
        !(id is Cell || id is LogicalTrack || id is TrackConnection || id is LayoutDevice)
    }

    pub open spec fn entity_of(&self, id: GenericID) -> Option<E> {
        match id {
            GenericID::Track(t) => lookup(self.tracks@, t),
            GenericID::Switch(s) => lookup(self.switches@, s),
            GenericID::Block(b) => lookup(self.blocks@, b),
            GenericID::Train(t) => lookup(self.trains@, t),
            GenericID::Marker(t) => lookup(self.markers@, t),
            GenericID::Hub(h) => lookup(self.hubs@, h),
            GenericID::Destination(d) => lookup(self.destinations@, d),
            GenericID::Schedule(s) => lookup(self.schedules@, s),
            GenericID::Crossing(t) => lookup(self.crossings@, t),
            _ => None,
        }
    }

    /// Every entity, table by table.
    pub open spec fn all_entities(&self) -> Seq<E> {
        entry_values(self.tracks.entries_view()) + entry_values(self.switches.entries_view())
            + entry_values(self.blocks.entries_view()) + entry_values(self.trains.entries_view())
            + entry_values(self.markers.entries_view()) + entry_values(self.hubs.entries_view())
            + entry_values(self.layout_devices.entries_view()) + entry_values(self.connections_outer.entries_view())
            + entry_values(self.connections_inner.entries_view()) + entry_values(self.connections_path.entries_view())
            + entry_values(self.wagons.entries_view()) + entry_values(self.destinations.entries_view())
            + entry_values(self.schedules.entries_view()) + entry_values(self.crossings.entries_view())
    }

    pub fn iter_all_entities(&self) -> (r: Vec<E>)
        ensures
            r@ == self.all_entities(),
    {
        let mut out: Vec<E> = Vec::new();
        append_values(&mut out, &self.tracks);
        append_values(&mut out, &self.switches);
        append_values(&mut out, &self.blocks);
        append_values(&mut out, &self.trains);
        append_values(&mut out, &self.markers);
        append_values(&mut out, &self.hubs);
        append_values(&mut out, &self.layout_devices);
        append_values(&mut out, &self.connections_outer);
        append_values(&mut out, &self.connections_inner);
        append_values(&mut out, &self.connections_path);
        append_values(&mut out, &self.wagons);
        append_values(&mut out, &self.destinations);
        append_values(&mut out, &self.schedules);
        append_values(&mut out, &self.crossings);
        assert(out@ =~= self.all_entities());
        out
    }

    /// The entity of an element; cells, logical tracks, connections and
    /// layout devices are not looked up here.
    pub fn get_entity(&self, id: &GenericID) -> (r: Option<E>)
        requires
            self.handles(*id),
        ensures
            r == self.entity_of(*id),
    {
        let found = match id {
            GenericID::Track(t) => self.tracks.get(t),
            GenericID::Switch(s) => self.switches.get(s),
            GenericID::Block(b) => self.blocks.get(b),
            GenericID::Train(t) => self.trains.get(t),
            GenericID::Marker(t) => self.markers.get(t),
            GenericID::Hub(h) => self.hubs.get(h),
            GenericID::Destination(d) => self.destinations.get(d),
            GenericID::Schedule(s) => self.schedules.get(s),
            GenericID::Crossing(t) => self.crossings.get(t),
            _ => {
                proof {
                    assert(false);
                }
                None
            },
        };
        match found {
            Some(e) => Some(*e),
            None => None,
        }
    }

    pub fn add_track(&mut self, track: TrackID, entity: E)
        requires
            !old(self).tracks@.contains_key(track),
        ensures
            final(self).tracks@ == old(self).tracks@.insert(track, entity),
            Self::unchanged_except(&*old(self), &*final(self), EntityTable::Tracks),
    {
        insert_new(&mut self.tracks, track, entity);
    }

    pub fn add_switch(&mut self, switch: DirectedTrackID, entity: E)
        requires
            !old(self).switches@.contains_key(switch),
        ensures
            final(self).switches@ == old(self).switches@.insert(switch, entity),
            Self::unchanged_except(&*old(self), &*final(self), EntityTable::Switches),
    {
        insert_new(&mut self.switches, switch, entity);
    }

    pub fn add_block(&mut self, block: BlockID, entity: E)
        requires
            !old(self).blocks@.contains_key(block),
        ensures
            final(self).blocks@ == old(self).blocks@.insert(block, entity),
            Self::unchanged_except(&*old(self), &*final(self), EntityTable::Blocks),
    {
        insert_new(&mut self.blocks, block, entity);
    }

    pub fn add_train(&mut self, train: TrainID, entity: E)
        requires
            !old(self).trains@.contains_key(train),
        ensures
            final(self).trains@ == old(self).trains@.insert(train, entity),
            Self::unchanged_except(&*old(self), &*final(self), EntityTable::Trains),
    {
        insert_new(&mut self.trains, train, entity);
    }

    pub fn add_wagon(&mut self, wagon: WagonID, entity: E)
        requires
            !old(self).wagons@.contains_key(wagon),
        ensures
            final(self).wagons@ == old(self).wagons@.insert(wagon, entity),
            Self::unchanged_except(&*old(self), &*final(self), EntityTable::Wagons),
    {
        insert_new(&mut self.wagons, wagon, entity);
    }

    pub fn add_marker(&mut self, track: TrackID, entity: E)
        requires
            !old(self).markers@.contains_key(track),
        ensures
            final(self).markers@ == old(self).markers@.insert(track, entity),
            Self::unchanged_except(&*old(self), &*final(self), EntityTable::Markers),
    {
        insert_new(&mut self.markers, track, entity);
    }

    pub fn add_hub(&mut self, hub: HubID, entity: E)
        requires
            !old(self).hubs@.contains_key(hub),
        ensures
            final(self).hubs@ == old(self).hubs@.insert(hub, entity),
            Self::unchanged_except(&*old(self), &*final(self), EntityTable::Hubs),
    {
        insert_new(&mut self.hubs, hub, entity);
    }

    pub fn add_destination(&mut self, dest: DestinationID, entity: E)
        requires
            !old(self).destinations@.contains_key(dest),
        ensures
            final(self).destinations@ == old(self).destinations@.insert(dest, entity),
            Self::unchanged_except(&*old(self), &*final(self), EntityTable::Destinations),
    {
        insert_new(&mut self.destinations, dest, entity);
    }

    pub fn add_schedule(&mut self, schedule: ScheduleID, entity: E)
        requires
            !old(self).schedules@.contains_key(schedule),
        ensures
            final(self).schedules@ == old(self).schedules@.insert(schedule, entity),
            Self::unchanged_except(&*old(self), &*final(self), EntityTable::Schedules),
    {
        insert_new(&mut self.schedules, schedule, entity);
    }

    pub fn add_crossing(&mut self, crossing: TrackID, entity: E)
        requires
            !old(self).crossings@.contains_key(crossing),
        ensures
            final(self).crossings@ == old(self).crossings@.insert(crossing, entity),
            Self::unchanged_except(&*old(self), &*final(self), EntityTable::Crossings),
    {
        insert_new(&mut self.crossings, crossing, entity);
    }

    /// Registers the three entities drawn for a connection.
    pub fn add_connection(&mut self, connection: DirectedTrackConnectionID, outer_entity: E, inner_entity: E, path_entity: E)
        requires
            !old(self).connections_outer@.contains_key(connection),
            !old(self).connections_inner@.contains_key(connection),
            !old(self).connections_path@.contains_key(connection),
        ensures
            final(self).connections_outer@ == old(self).connections_outer@.insert(connection, outer_entity),
            final(self).connections_inner@ == old(self).connections_inner@.insert(connection, inner_entity),
            final(self).connections_path@ == old(self).connections_path@.insert(connection, path_entity),
            Self::unchanged_except(&*old(self), &*final(self), EntityTable::Connections),
    {
        insert_new(&mut self.connections_outer, connection, outer_entity);
        insert_new(&mut self.connections_inner, connection, inner_entity);
        insert_new(&mut self.connections_path, connection, path_entity);
    }

    pub fn remove_track(&mut self, track: TrackID)
        ensures
            final(self).tracks@ == old(self).tracks@.remove(track),
            Self::unchanged_except(&*old(self), &*final(self), EntityTable::Tracks),
    {
        let _ = self.tracks.remove(&track);
    }

    pub fn remove_connection(&mut self, connection: DirectedTrackConnectionID)
        ensures
            final(self).connections_outer@ == old(self).connections_outer@.remove(connection),
            final(self).connections_inner@ == old(self).connections_inner@.remove(connection),
            final(self).connections_path@ == old(self).connections_path@.remove(connection),
            Self::unchanged_except(&*old(self), &*final(self), EntityTable::Connections),
    {
        let _ = self.connections_outer.remove(&connection);
        let _ = self.connections_inner.remove(&connection);
        let _ = self.connections_path.remove(&connection);
    }

    pub fn remove_marker(&mut self, track: TrackID)
        ensures
            final(self).markers@ == old(self).markers@.remove(track),
            Self::unchanged_except(&*old(self), &*final(self), EntityTable::Markers),
    {
        let _ = self.markers.remove(&track);
    }

    pub fn remove_block(&mut self, block: BlockID)
        ensures
            final(self).blocks@ == old(self).blocks@.remove(block),
            Self::unchanged_except(&*old(self), &*final(self), EntityTable::Blocks),
    {
        let _ = self.blocks.remove(&block);
    }

    pub fn remove_switch(&mut self, switch: DirectedTrackID)
        ensures
            final(self).switches@ == old(self).switches@.remove(switch),
            Self::unchanged_except(&*old(self), &*final(self), EntityTable::Switches),
    {
        let _ = self.switches.remove(&switch);
    }

    pub fn remove_train(&mut self, train: TrainID)
        ensures
            final(self).trains@ == old(self).trains@.remove(train),
            Self::unchanged_except(&*old(self), &*final(self), EntityTable::Trains),
    {
        let _ = self.trains.remove(&train);
    }

    pub fn remove_hub(&mut self, hub: HubID)
        ensures
            final(self).hubs@ == old(self).hubs@.remove(hub),
            Self::unchanged_except(&*old(self), &*final(self), EntityTable::Hubs),
    {
        let _ = self.hubs.remove(&hub);
    }

    pub fn remove_layout_device(&mut self, device: LayoutDeviceID)
        ensures
            final(self).layout_devices@ == old(self).layout_devices@.remove(device),
            Self::unchanged_except(&*old(self), &*final(self), EntityTable::LayoutDevices),
    {
        let _ = self.layout_devices.remove(&device);
    }

    pub fn remove_crossing(&mut self, crossing: TrackID)
        ensures
            final(self).crossings@ == old(self).crossings@.remove(crossing),
            Self::unchanged_except(&*old(self), &*final(self), EntityTable::Crossings),
    {
        let _ = self.crossings.remove(&crossing);
    }

    /// The smallest train number that no train has.
    pub fn new_train_id(&self) -> (r: TrainID)
        ensures
            !self.trains@.contains_key(r),
            forall|k: usize| k < r.id ==> self.trains@.contains_key(TrainID { id: k }),
    {
        let n = self.trains.len();
        let mut id: usize = 0;
        while self.trains.contains_key(&TrainID::new(id))
            invariant
                n == self.trains@.dom().len(),
                self.trains@.dom().finite(),
                id <= n,
                forall|k: usize| k < id ==> self.trains@.contains_key(TrainID { id: k }),
            decreases n - id,
        {
            proof {
                let f = |k: int| TrainID { id: k as usize };
                assert forall|k: int| 0 <= k < id + 1 implies self.trains@.dom().contains(#[trigger] f(k)) by {
                    assert(self.trains@.contains_key(TrainID { id: k as usize }));
                }
                lemma_ids_below(self.trains@.dom(), f, id + 1);
            }
            id = id + 1;
        }
        TrainID::new(id)
    }

    /// The smallest number that no hub of the kind has.
    pub fn new_hub_id(&self, kind: HubType) -> (r: HubID)
        ensures
            r.kind == kind,
            !self.hubs@.contains_key(r),
            forall|k: usize| k < r.id ==> self.hubs@.contains_key(HubID { id: k, kind }),
    {
        let n = self.hubs.len();
        let mut id: usize = 0;
        while self.hubs.contains_key(&HubID::new(id, kind))
            invariant
                n == self.hubs@.dom().len(),
                self.hubs@.dom().finite(),
                id <= n,
                forall|k: usize| k < id ==> self.hubs@.contains_key(HubID { id: k, kind }),
            decreases n - id,
        {
            proof {
                let f = |k: int| HubID { id: k as usize, kind };
                assert forall|k: int| 0 <= k < id + 1 implies self.hubs@.dom().contains(#[trigger] f(k)) by {
                    assert(self.hubs@.contains_key(HubID { id: k as usize, kind }));
                }
                lemma_ids_below(self.hubs@.dom(), f, id + 1);
            }
            id = id + 1;
        }
        HubID::new(id, kind)
    }

    /// The smallest number that no layout device of the kind has.
    pub fn new_layout_device_id(&self, kind: LayoutDeviceType) -> (r: LayoutDeviceID)
        ensures
            r.kind == kind,
            !self.layout_devices@.contains_key(r),
            forall|k: usize| k < r.id ==> self.layout_devices@.contains_key(LayoutDeviceID { id: k, kind }),
    {
        let n = self.layout_devices.len();
        let mut id: usize = 0;
        while self.layout_devices.contains_key(&LayoutDeviceID::new(id, kind))
            invariant
                n == self.layout_devices@.dom().len(),
                self.layout_devices@.dom().finite(),
                id <= n,
                forall|k: usize| k < id ==> self.layout_devices@.contains_key(LayoutDeviceID { id: k, kind }),
            decreases n - id,
        {
            proof {
                let f = |k: int| LayoutDeviceID { id: k as usize, kind };
                assert forall|k: int| 0 <= k < id + 1 implies self.layout_devices@.dom().contains(#[trigger] f(k)) by {
                    assert(self.layout_devices@.contains_key(LayoutDeviceID { id: k as usize, kind }));
                }
                lemma_ids_below(self.layout_devices@.dom(), f, id + 1);
            }
            id = id + 1;
        }
        LayoutDeviceID::new(id, kind)
    }

    /// The smallest number that no specific destination has.
    pub fn new_destination_id(&self) -> (r: DestinationID)
        ensures
            r is Specific,
            !self.destinations@.contains_key(r),
            forall|k: usize| k < r->Specific_0 ==> self.destinations@.contains_key(DestinationID::Specific(k)),
    {
        let n = self.destinations.len();
        let mut id: usize = 0;
        while self.destinations.contains_key(&DestinationID::Specific(id))
            invariant
                n == self.destinations@.dom().len(),
                self.destinations@.dom().finite(),
                id <= n,
                forall|k: usize| k < id ==> self.destinations@.contains_key(DestinationID::Specific(k)),
            decreases n - id,
        {
            proof {
                let f = |k: int| DestinationID::Specific(k as usize);
                assert forall|k: int| 0 <= k < id + 1 implies self.destinations@.dom().contains(#[trigger] f(k)) by {
                    assert(self.destinations@.contains_key(DestinationID::Specific(k as usize)));
                }
                lemma_ids_below(self.destinations@.dom(), f, id + 1);
            }
            id = id + 1;
        }
        DestinationID::Specific(id)
    }

    /// The smallest schedule number not in use.
    pub fn new_schedule_id(&self) -> (r: ScheduleID)
        ensures
            !self.schedules@.contains_key(r),
            forall|k: usize| k < r.id ==> self.schedules@.contains_key(ScheduleID { id: k }),
    {
        let n = self.schedules.len();
        let mut id: usize = 0;
        while self.schedules.contains_key(&ScheduleID::new(id))
            invariant
                n == self.schedules@.dom().len(),
                self.schedules@.dom().finite(),
                id <= n,
                forall|k: usize| k < id ==> self.schedules@.contains_key(ScheduleID { id: k }),
            decreases n - id,
        {
            proof {
                let f = |k: int| ScheduleID { id: k as usize };
                assert forall|k: int| 0 <= k < id + 1 implies self.schedules@.dom().contains(#[trigger] f(k)) by {
                    assert(self.schedules@.contains_key(ScheduleID { id: k as usize }));
                }
                lemma_ids_below(self.schedules@.dom(), f, id + 1);
            }
            id = id + 1;
        }
        ScheduleID::new(id)
    }
}

/// Locking is exclusive: once a train holds a section, no other train may
/// take any track of it.
pub proof fn lemma_locked_section_exclusive(
    locked: Map<TrackID, TrainID>,
    train: TrainID,
    other: TrainID,
    s: Seq<LogicalTrackID>,
    i: int,
)
    requires
        other != train,
        0 <= i < s.len(),
    ensures
        !track_free(claimed_tracks(locked, train, s), other, s[i].dirtrack.track),
{
    reveal(track_free);
    let t = s[i].dirtrack.track;
    assert(covers(s, t));
    assert(track_collides(t, t));
}

/// Locking keeps a section free for the train that locks it: what was free
/// for it before is free for it after.
pub proof fn lemma_locked_section_stays_free(locked: Map<TrackID, TrainID>, train: TrainID, s: Seq<LogicalTrackID>)
    requires
        forall|i: int| 0 <= i < s.len() ==> track_free(locked, train, #[trigger] s[i].dirtrack.track),
    ensures
        forall|i: int| 0 <= i < s.len() ==> track_free(claimed_tracks(locked, train, s), train, #[trigger] s[i].dirtrack.track),
{
    reveal(track_free);
    assert forall|i: int| 0 <= i < s.len() implies track_free(claimed_tracks(locked, train, s), train, #[trigger] s[i].dirtrack.track) by {
        assert(track_free(locked, train, s[i].dirtrack.track));
    }
}

/// Releasing a train's locks lets go of all it held and of nothing else.
pub proof fn lemma_unlocked_holds_nothing(m: Map<TrackID, TrainID>, train: TrainID)
    ensures
        ({
            let r = m.restrict(m.dom().filter(|t: TrackID| m[t] != train));
            &&& forall|t: TrackID| #[trigger] r.contains_key(t) ==> r[t] != train && r[t] == m[t]
            &&& forall|t: TrackID| #[trigger] m.contains_key(t) && m[t] != train ==> r.contains_key(t)
        }),
{
}

} // verus!
