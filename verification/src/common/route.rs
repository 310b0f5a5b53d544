//! Route legs: a train's journey from one block to the next, cut out of a
//! path of logical tracks at the blocks' enter markers, with the markers the
//! train's sensor crosses on the way and the role each plays.
use vstd::prelude::*;
use crate::common::block::{copy_tracks, enter_track, oriented_section, BlockData};
use crate::common::layout_primitives::{
    BlockDirection, BlockID, DirectedTrackID, Facing, LogicalBlockID, LogicalTrackID, MarkerColor,
    TrackID, TrainID,
};
use crate::common::marker::MarkerData;
use crate::keyed::{entries_map, KeyedMap};

verus! {

pub type BlockDataMap = KeyedMap<BlockID, BlockData>;

pub type MarkerDataMap = KeyedMap<TrackID, MarkerData>;

/// Which logical block each canonical enter marker track enters.
pub type EnterMarkerMap = KeyedMap<LogicalTrackID, LogicalBlockID>;

/// The role a marker plays within a route leg.
#[derive(Clone, Copy, Debug, PartialEq, Eq, Structural)]
pub enum MarkerRole {
    /// First marker: the train is exiting the start block.
    Exiting,
    /// Marker before the last: the train is entering the target block.
    Entering,
    /// Last marker: the train has fully entered the target block.
    Entered,
}

/// A marker within a route leg. Its place along the leg is
/// `path_index / path_span` (0 at the start, 1 at the end).
#[derive(Clone, Copy, Debug, PartialEq, Eq, Structural)]
pub struct RouteLegMarker {
    pub track: TrackID,
    pub color: MarkerColor,
    pub role: Option<MarkerRole>,
    /// Index of the marker's track in the leg's sensor path.
    pub path_index: usize,
    /// Number of steps in the leg's sensor path (at least 1).
    pub path_span: usize,
}

/// A block's part in a route leg.
#[derive(Debug)]
pub struct RouteLegBlock {
    pub block_id: BlockID,
    pub direction: BlockDirection,
    pub facing: Facing,
    /// The block's section in travel order.
    pub section: Vec<DirectedTrackID>,
}

/// A resolved route leg.
#[derive(Debug)]
pub struct RouteLeg {
    /// The train's facing during this leg.
    pub facing: Facing,
    pub start_block: RouteLegBlock,
    /// The tracks between the start and target blocks.
    pub travel: Vec<DirectedTrackID>,
    pub target_block: RouteLegBlock,
    /// The markers the sensor crosses, in travel order.
    pub markers: Vec<RouteLegMarker>,
}

/// A train's queue of route legs, in travel order; the first is the current one.
#[derive(Debug)]
pub struct TrainLegs {
    pub legs: Vec<RouteLeg>,
}

/// Request to append pre-built legs to a train's queue. The first new leg
/// must start in the block where the last queued leg ends.
#[derive(Debug)]
pub struct AppendLegs {
    pub train: TrainID,
    pub legs: Vec<RouteLeg>,
}

impl AppendLegs {
    pub fn new(train: TrainID, legs: Vec<RouteLeg>) -> (r: Self)
        ensures
            r.train == train,
            r.legs@ == legs@,
    {
        AppendLegs { train, legs }
    }
}

pub ghost struct LegBlockSpec {
    pub block_id: BlockID,
    pub direction: BlockDirection,
    pub facing: Facing,
    pub section: Seq<DirectedTrackID>,
}

pub ghost struct LegSpec {
    pub facing: Facing,
    pub start_block: LegBlockSpec,
    pub travel: Seq<DirectedTrackID>,
    pub target_block: LegBlockSpec,
    pub markers: Seq<RouteLegMarker>,
}

impl RouteLegBlock {
    pub open spec fn view(&self) -> LegBlockSpec {
        LegBlockSpec {
            block_id: self.block_id,
            direction: self.direction,
            facing: self.facing,
            section: self.section@,
        }
    }
}

impl RouteLeg {
    pub open spec fn view(&self) -> LegSpec {
        LegSpec {
            facing: self.facing,
            start_block: self.start_block@,
            travel: self.travel@,
            target_block: self.target_block@,
            markers: self.markers@,
        }
    }
}

pub open spec fn legs_view(legs: Seq<RouteLeg>) -> Seq<LegSpec> {
    legs.map_values(|l: RouteLeg| l@)
}

impl TrainLegs {
    pub open spec fn view(&self) -> Seq<LegSpec> {
        legs_view(self.legs@)
    }

    pub fn new() -> (r: Self)
        ensures
            r@ == Seq::<LegSpec>::empty(),
    {
        let r = TrainLegs { legs: Vec::new() };
        assert(r@ =~= Seq::<LegSpec>::empty());
        r
    }

    pub fn len(&self) -> (r: usize)
        ensures
            r == self@.len(),
    {
        self.legs.len()
    }
}

// ---------------------------------------------------------------------------
// Specification of leg building
// ---------------------------------------------------------------------------

pub open spec fn sections_nonempty(blocks: Seq<(BlockID, BlockData)>) -> bool {
    forall|i: int| 0 <= i < blocks.len() ==> (#[trigger] blocks[i]).1.section@.len() > 0
}

/// All canonical enter markers of the blocks, later blocks overriding earlier
/// ones where two claim the same logical track.
pub open spec fn enter_map_of(blocks: Seq<(BlockID, BlockData)>) -> Map<LogicalTrackID, LogicalBlockID>
    decreases blocks.len(),
{
    if blocks.len() == 0 {
        Map::empty()
    } else {
        let id = blocks.last().0;
        let s = blocks.last().1.section@;
        enter_map_of(blocks.drop_last())
            .insert(enter_track(s, BlockDirection::Aligned, Facing::Forward), LogicalBlockID { block: id, direction: BlockDirection::Aligned, facing: Facing::Forward })
            .insert(enter_track(s, BlockDirection::Aligned, Facing::Backward), LogicalBlockID { block: id, direction: BlockDirection::Aligned, facing: Facing::Backward })
            .insert(enter_track(s, BlockDirection::Against, Facing::Forward), LogicalBlockID { block: id, direction: BlockDirection::Against, facing: Facing::Forward })
            .insert(enter_track(s, BlockDirection::Against, Facing::Backward), LogicalBlockID { block: id, direction: BlockDirection::Against, facing: Facing::Backward })
    }
}

/// Positions in `path` that are enter markers.
pub open spec fn enter_indices(path: Seq<LogicalTrackID>, m: Map<LogicalTrackID, LogicalBlockID>) -> Seq<int>
    decreases path.len(),
{
    if path.len() == 0 {
        Seq::empty()
    } else if m.contains_key(path.last()) {
        enter_indices(path.drop_last(), m).push(path.len() - 1)
    } else {
        enter_indices(path.drop_last(), m)
    }
}

pub open spec fn section_has_track(section: Seq<DirectedTrackID>, t: TrackID) -> bool {
    exists|k: int| 0 <= k < section.len() && section[k].track == t
}

/// The tracks of `path` outside both sections, in order.
pub open spec fn travel_of(path: Seq<LogicalTrackID>, a: Seq<DirectedTrackID>, b: Seq<DirectedTrackID>) -> Seq<DirectedTrackID>
    decreases path.len(),
{
    if path.len() == 0 {
        Seq::empty()
    } else if section_has_track(a, path.last().directed.track) || section_has_track(b, path.last().directed.track) {
        travel_of(path.drop_last(), a, b)
    } else {
        travel_of(path.drop_last(), a, b).push(path.last().directed)
    }
}

/// The markers on `path`: their index in the path, track and colour.
pub open spec fn marker_hits(path: Seq<LogicalTrackID>, m: Map<TrackID, MarkerData>) -> Seq<(int, TrackID, MarkerColor)>
    decreases path.len(),
{
    if path.len() == 0 {
        Seq::empty()
    } else if m.contains_key(path.last().directed.track) {
        marker_hits(path.drop_last(), m).push((path.len() - 1, path.last().directed.track, m[path.last().directed.track].color))
    } else {
        marker_hits(path.drop_last(), m)
    }
}

/// The role of the `idx`-th of `len` markers: the last has entered, the first
/// (when there are others) is exiting, the one before the last (when there
/// are three or more) is entering.
pub open spec fn role_of(idx: int, len: int) -> Option<MarkerRole> {
    if idx == 0 && len >= 2 {
        Some(MarkerRole::Exiting)
    } else if idx == len - 1 {
        Some(MarkerRole::Entered)
    } else if idx == len - 2 && len >= 3 {
        Some(MarkerRole::Entering)
    } else {
        None
    }
}

pub open spec fn hits_view(v: Seq<(usize, TrackID, MarkerColor)>) -> Seq<(int, TrackID, MarkerColor)> {
    v.map_values(|x: (usize, TrackID, MarkerColor)| (x.0 as int, x.1, x.2))
}

pub open spec fn path_span(len: int) -> int {
    if len - 1 >= 1 { len - 1 } else { 1 }
}

pub open spec fn leg_markers(path: Seq<LogicalTrackID>, m: Map<TrackID, MarkerData>) -> Seq<RouteLegMarker> {
    let h = marker_hits(path, m);
    Seq::new(h.len(), |j: int| RouteLegMarker {
        track: h[j].1,
        color: h[j].2,
        role: role_of(j, h.len() as int),
        path_index: h[j].0 as usize,
        path_span: path_span(path.len() as int) as usize,
    })
}

pub open spec fn leg_block(id: LogicalBlockID, data: BlockData) -> LegBlockSpec {
    LegBlockSpec {
        block_id: id.block,
        direction: id.direction,
        facing: id.facing,
        section: oriented_section(data.section@, id.direction),
    }
}

/// The leg a path slice from one enter marker to the next resolves to.
pub open spec fn leg_of(
    path: Seq<LogicalTrackID>,
    em: Map<LogicalTrackID, LogicalBlockID>,
    blocks: Map<BlockID, BlockData>,
    markers: Map<TrackID, MarkerData>,
) -> Option<LegSpec> {
    if path.len() == 0 || !em.contains_key(path[0]) || !em.contains_key(path.last()) {
        None
    } else {
        let start = em[path[0]];
        let target = em[path.last()];
        if !blocks.contains_key(start.block) || !blocks.contains_key(target.block) {
            None
        } else {
            Some(LegSpec {
                facing: start.facing,
                start_block: leg_block(start, blocks[start.block]),
                travel: travel_of(path, blocks[start.block].section@, blocks[target.block].section@),
                target_block: leg_block(target, blocks[target.block]),
                markers: leg_markers(path, markers),
            })
        }
    }
}

/// The leg of the `k`-th window between consecutive enter markers `e` of `path`.
pub open spec fn window_leg(
    path: Seq<LogicalTrackID>,
    e: Seq<int>,
    k: int,
    em: Map<LogicalTrackID, LogicalBlockID>,
    blocks: Map<BlockID, BlockData>,
    markers: Map<TrackID, MarkerData>,
) -> Option<LegSpec> {
    leg_of(path.subrange(e[k], e[k + 1] + 1), em, blocks, markers)
}

/// Every window between consecutive enter markers resolves to a leg.
pub open spec fn windows_resolve(
    path: Seq<LogicalTrackID>,
    e: Seq<int>,
    em: Map<LogicalTrackID, LogicalBlockID>,
    blocks: Map<BlockID, BlockData>,
    markers: Map<TrackID, MarkerData>,
) -> bool {
    forall|k: int| 0 <= k < e.len() - 1 ==> #[trigger] window_leg(path, e, k, em, blocks, markers) is Some
}

/// The legs a path resolves to: one per window between consecutive enter
/// markers; none when it crosses fewer than two or a window does not resolve.
pub open spec fn path_legs(
    path: Seq<LogicalTrackID>,
    blocks: Seq<(BlockID, BlockData)>,
    markers: Map<TrackID, MarkerData>,
) -> Option<Seq<LegSpec>> {
    let em = enter_map_of(blocks);
    let e = enter_indices(path, em);
    if e.len() < 2 || !windows_resolve(path, e, em, entries_map(blocks), markers) {
        None
    } else {
        Some(Seq::new((e.len() - 1) as nat, |k: int| window_leg(path, e, k, em, entries_map(blocks), markers).unwrap()))
    }
}

/// What `RouteLeg::build_from_path` states is what `path_legs` says.
pub proof fn lemma_build_from_path_result(
    path: Seq<LogicalTrackID>,
    blocks: Seq<(BlockID, BlockData)>,
    markers: Map<TrackID, MarkerData>,
    r: Option<Seq<LegSpec>>,
)
    requires
        ({
            let em = enter_map_of(blocks);
            let e = enter_indices(path, em);
            match r {
                Some(legs) => e.len() >= 2 && legs.len() == e.len() - 1 && forall|k: int| 0 <= k < legs.len()
                    ==> window_leg(path, e, k, em, entries_map(blocks), markers) == Some(#[trigger] legs[k]),
                None => e.len() < 2 || exists|k: int| 0 <= k < e.len() - 1 && #[trigger] window_leg(path, e, k, em, entries_map(blocks), markers) is None,
            }
        }),
    ensures
        r == path_legs(path, blocks, markers),
{
    let em = enter_map_of(blocks);
    let e = enter_indices(path, em);
    match r {
        Some(legs) => {
            assert forall|k: int| 0 <= k < e.len() - 1 implies #[trigger] window_leg(path, e, k, em, entries_map(blocks), markers) is Some by {
                assert(window_leg(path, e, k, em, entries_map(blocks), markers) == Some(legs[k]));
            }
            let s = Seq::new((e.len() - 1) as nat, |k: int| window_leg(path, e, k, em, entries_map(blocks), markers).unwrap());
            assert(legs =~= s);
        },
        None => {},
    }
}

/// Consecutive legs of a path meet: each leg ends in the logical block where
/// the next one starts.
pub proof fn lemma_path_legs_chain(
    path: Seq<LogicalTrackID>,
    blocks: Seq<(BlockID, BlockData)>,
    markers: Map<TrackID, MarkerData>,
    k: int,
)
    requires
        path_legs(path, blocks, markers) is Some,
        0 <= k < path_legs(path, blocks, markers).unwrap().len() - 1,
    ensures
        path_legs(path, blocks, markers).unwrap()[k].target_block == path_legs(path, blocks, markers).unwrap()[k + 1].start_block,
{
    let em = enter_map_of(blocks);
    let e = enter_indices(path, em);
    let m = entries_map(blocks);
    lemma_enter_indices_bounds(path, em);
    assert(window_leg(path, e, k, em, m, markers) is Some);
    assert(window_leg(path, e, k + 1, em, m, markers) is Some);
    let a = path.subrange(e[k], e[k + 1] + 1);
    let b = path.subrange(e[k + 1], e[k + 2] + 1);
    assert(a.last() == path[e[k + 1]]);
    assert(b[0] == path[e[k + 1]]);
}

/// The idle leg that keeps a train standing in a logical block.
pub open spec fn idle_leg_of(b: LogicalBlockID, data: BlockData, markers: Map<TrackID, MarkerData>) -> LegSpec {
    LegSpec {
        facing: b.facing,
        start_block: leg_block(b, data),
        travel: Seq::empty(),
        target_block: leg_block(b, data),
        markers: leg_markers(seq![enter_track(data.section@, b.direction, b.facing)], markers),
    }
}

// ---------------------------------------------------------------------------
// Building legs
// ---------------------------------------------------------------------------

/// The enter marker track of a logical block: where the train's sensor
/// crosses into the block.
pub fn enter_logical_track(data: &BlockData, direction: BlockDirection, facing: Facing) -> (r: LogicalTrackID)
    requires
        data.section@.len() > 0,
    ensures
        r == enter_track(data.section@, direction, facing),
{
    data.enter_logical_track(direction, facing)
}

/// Builds the map from enter marker tracks to the logical blocks they enter.
pub fn build_enter_marker_map(blocks: &BlockDataMap) -> (r: EnterMarkerMap)
    requires
        sections_nonempty(blocks.entries_view()),
    ensures
        r@ == enter_map_of(blocks.entries_view()),
{
    let mut map: EnterMarkerMap = KeyedMap::new();
    let n = blocks.len();
    let mut i: usize = 0;
    while i < n
        invariant
            n == blocks.entries_view().len(),
            0 <= i <= n,
            sections_nonempty(blocks.entries_view()),
            map@ == enter_map_of(blocks.entries_view().subrange(0, i as int)),
        decreases n - i,
    {
        let entry = blocks.entry(i);
        let id = entry.0;
        let data = &entry.1;
        assert(blocks.entries_view()[i as int].1.section@.len() > 0);
        map.insert(data.enter_logical_track(BlockDirection::Aligned, Facing::Forward), LogicalBlockID { block: id, direction: BlockDirection::Aligned, facing: Facing::Forward });
        map.insert(data.enter_logical_track(BlockDirection::Aligned, Facing::Backward), LogicalBlockID { block: id, direction: BlockDirection::Aligned, facing: Facing::Backward });
        map.insert(data.enter_logical_track(BlockDirection::Against, Facing::Forward), LogicalBlockID { block: id, direction: BlockDirection::Against, facing: Facing::Forward });
        map.insert(data.enter_logical_track(BlockDirection::Against, Facing::Backward), LogicalBlockID { block: id, direction: BlockDirection::Against, facing: Facing::Backward });
        proof {
            let s = blocks.entries_view().subrange(0, i + 1);
            assert(s.drop_last() =~= blocks.entries_view().subrange(0, i as int));
        }
        i = i + 1;
    }
    proof {
        assert(blocks.entries_view().subrange(0, n as int) =~= blocks.entries_view());
    }
    map
}

/// The positions of `path` that hold enter markers.
pub fn find_enter_indices(path: &Vec<LogicalTrackID>, em: &EnterMarkerMap) -> (r: Vec<usize>)
    ensures
        r@.len() == enter_indices(path@, em@).len(),
        forall|k: int| 0 <= k < r@.len() ==> r@[k] as int == enter_indices(path@, em@)[k],
{
    let mut r: Vec<usize> = Vec::new();
    let mut i: usize = 0;
    while i < path.len()
        invariant
            0 <= i <= path@.len(),
            r@.len() == enter_indices(path@.subrange(0, i as int), em@).len(),
            forall|k: int| 0 <= k < r@.len() ==> r@[k] as int == enter_indices(path@.subrange(0, i as int), em@)[k],
        decreases path@.len() - i,
    {
        let ghost before = path@.subrange(0, i as int);
        proof {
            assert(path@.subrange(0, i + 1).drop_last() =~= before);
        }
        if em.contains_key(&path[i]) {
            r.push(i);
        }
        i = i + 1;
    }
    proof {
        assert(path@.subrange(0, path@.len() as int) =~= path@);
    }
    r
}

/// Splits a path at its enter markers into overlapping windows, each from one
/// enter marker to the next, both included (as `(first, last)` positions).
/// `None` when the path holds fewer than two enter markers.
pub fn split_path_at_enter_markers(path: &Vec<LogicalTrackID>, em: &EnterMarkerMap) -> (r: Option<Vec<(usize, usize)>>)
    ensures
        match r {
            None => enter_indices(path@, em@).len() < 2,
            Some(w) => enter_indices(path@, em@).len() >= 2 && w@.len() == enter_indices(path@, em@).len() - 1
                && forall|k: int| 0 <= k < w@.len() ==> w@[k].0 as int == enter_indices(path@, em@)[k]
                    && w@[k].1 as int == enter_indices(path@, em@)[k + 1],
        },
{
    let idx = find_enter_indices(path, em);
    if idx.len() < 2 {
        return None;
    }
    let mut w: Vec<(usize, usize)> = Vec::new();
    let mut k: usize = 0;
    while k < idx.len() - 1
        invariant
            idx@.len() >= 2,
            0 <= k <= idx@.len() - 1,
            w@.len() == k,
            forall|j: int| 0 <= j < k ==> w@[j] == (idx@[j], idx@[j + 1]),
        decreases idx@.len() - k,
    {
        w.push((idx[k], idx[k + 1]));
        k = k + 1;
    }
    Some(w)
}

fn section_contains_track(section: &Vec<DirectedTrackID>, t: TrackID) -> (r: bool)
    ensures
        r == section_has_track(section@, t),
{
    let mut i: usize = 0;
    while i < section.len()
        invariant
            0 <= i <= section@.len(),
            forall|k: int| 0 <= k < i ==> section@[k].track != t,
        decreases section@.len() - i,
    {
        if section[i].track == t {
            return true;
        }
        i = i + 1;
    }
    false
}

/// The tracks of `path[lo..hi]` that lie in neither section.
fn travel_tracks(path: &Vec<LogicalTrackID>, lo: usize, hi: usize, a: &Vec<DirectedTrackID>, b: &Vec<DirectedTrackID>) -> (r: Vec<DirectedTrackID>)
    requires
        lo <= hi <= path@.len(),
    ensures
        r@ == travel_of(path@.subrange(lo as int, hi as int), a@, b@),
{
    let mut r: Vec<DirectedTrackID> = Vec::new();
    let mut i: usize = lo;
    while i < hi
        invariant
            lo <= i <= hi <= path@.len(),
            r@ == travel_of(path@.subrange(lo as int, i as int), a@, b@),
        decreases hi - i,
    {
        let t = path[i].directed.track;
        proof {
            assert(path@.subrange(lo as int, i + 1).drop_last() =~= path@.subrange(lo as int, i as int));
        }
        if !section_contains_track(a, t) && !section_contains_track(b, t) {
            r.push(path[i].directed);
        }
        i = i + 1;
    }
    r
}

/// The markers on `path[lo..hi]`, with their roles.
pub fn collect_markers(path: &Vec<LogicalTrackID>, lo: usize, hi: usize, markers: &MarkerDataMap) -> (r: Vec<RouteLegMarker>)
    requires
        lo <= hi <= path@.len(),
    ensures
        r@ == leg_markers(path@.subrange(lo as int, hi as int), markers@),
{
    let ghost s = path@.subrange(lo as int, hi as int);
    let total = hi - lo;
    let span: usize = if total >= 2 { total - 1 } else { 1 };
    let mut hits: Vec<(usize, TrackID, MarkerColor)> = Vec::new();
    let mut i: usize = lo;
    while i < hi
        invariant
            lo <= i <= hi <= path@.len(),
            hits_view(hits@) == marker_hits(path@.subrange(lo as int, i as int), markers@),
        decreases hi - i,
    {
        let t = path[i].directed.track;
        proof {
            assert(path@.subrange(lo as int, i + 1).drop_last() =~= path@.subrange(lo as int, i as int));
        }
        match markers.get(&t) {
            Some(data) => {
                hits.push((i - lo, t, data.color));
                proof {
                    assert(hits_view(hits@) =~= marker_hits(path@.subrange(lo as int, i + 1), markers@));
                }
            },
            None => {
                proof {
                    assert(hits_view(hits@) =~= marker_hits(path@.subrange(lo as int, i + 1), markers@));
                }
            },
        }
        i = i + 1;
    }
    let ghost h = marker_hits(s, markers@);
    let len = hits.len();
    let mut r: Vec<RouteLegMarker> = Vec::new();
    let mut j: usize = 0;
    while j < len
        invariant
            len == hits@.len() == h.len(),
            h == marker_hits(path@.subrange(lo as int, hi as int), markers@),
            s == path@.subrange(lo as int, hi as int),
            span as int == path_span(s.len() as int),
            hits_view(hits@) == h,
            0 <= j <= len,
            r@ == leg_markers(s, markers@).subrange(0, j as int),
        decreases len - j,
    {
        let role = if j == 0 && len >= 2 {
            Some(MarkerRole::Exiting)
        } else if j == len - 1 {
            Some(MarkerRole::Entered)
        } else if len >= 3 && j == len - 2 {
            Some(MarkerRole::Entering)
        } else {
            None
        };
        let (index, track, color) = hits[j];
        assert(hits_view(hits@)[j as int] == (index as int, track, color));
        r.push(RouteLegMarker { track, color, role, path_index: index, path_span: span });
        proof {
            assert(leg_markers(s, markers@).subrange(0, j + 1) =~= leg_markers(s, markers@).subrange(0, j as int).push(
                RouteLegMarker { track, color, role, path_index: index, path_span: span },
            ));
        }
        j = j + 1;
    }
    proof {
        assert(leg_markers(s, markers@).subrange(0, len as int) =~= leg_markers(s, markers@));
    }
    r
}

impl RouteLeg {
    /// The logical block this leg ends in.
    pub fn target_logical_block_id(&self) -> (r: LogicalBlockID)
        ensures
            r == (LogicalBlockID {
                block: self.target_block.block_id,
                direction: self.target_block.direction,
                facing: self.target_block.facing,
            }),
    {
        LogicalBlockID {
            block: self.target_block.block_id,
            direction: self.target_block.direction,
            facing: self.target_block.facing,
        }
    }

    /// Resolves the path slice `path[lo..hi]` (from one enter marker to the
    /// next) into a leg.
    pub fn build(
        path: &Vec<LogicalTrackID>,
        lo: usize,
        hi: usize,
        enter_marker_map: &EnterMarkerMap,
        block_data_map: &BlockDataMap,
        marker_data_map: &MarkerDataMap,
    ) -> (r: Option<RouteLeg>)
        requires
            lo <= hi <= path@.len(),
        ensures
            match r {
                Some(leg) => leg_of(path@.subrange(lo as int, hi as int), enter_marker_map@, block_data_map@, marker_data_map@) == Some(leg@),
                None => leg_of(path@.subrange(lo as int, hi as int), enter_marker_map@, block_data_map@, marker_data_map@) is None,
            },
    {
        let ghost s = path@.subrange(lo as int, hi as int);
        if lo == hi {
            return None;
        }
        proof {
            assert(s[0] == path@[lo as int]);
            assert(s.last() == path@[hi - 1]);
        }
        let start = *enter_marker_map.get(&path[lo])?;
        let target = *enter_marker_map.get(&path[hi - 1])?;
        let start_data = block_data_map.get(&start.block)?;
        let target_data = block_data_map.get(&target.block)?;
        let travel = travel_tracks(path, lo, hi, &start_data.section, &target_data.section);
        let markers = collect_markers(path, lo, hi, marker_data_map);
        let leg = RouteLeg {
            facing: start.facing,
            start_block: RouteLegBlock {
                block_id: start.block,
                direction: start.direction,
                facing: start.facing,
                section: start_data.directed_section(start.direction),
            },
            travel,
            target_block: RouteLegBlock {
                block_id: target.block,
                direction: target.direction,
                facing: target.facing,
                section: target_data.directed_section(target.direction),
            },
            markers,
        };
        Some(leg)
    }

    /// Builds the legs of a path: splits it at the enter markers and resolves
    /// each window. `None` when the path crosses fewer than two enter
    /// markers or a window does not resolve.
    pub fn build_from_path(path: &Vec<LogicalTrackID>, block_data_map: &BlockDataMap, marker_data_map: &MarkerDataMap) -> (r: Option<Vec<RouteLeg>>)
        requires
            sections_nonempty(block_data_map.entries_view()),
        ensures
            ({
                let em = enter_map_of(block_data_map.entries_view());
                let e = enter_indices(path@, em);
                match r {
                    Some(legs) => e.len() >= 2 && legs@.len() == e.len() - 1 && forall|k: int| 0 <= k < legs@.len()
                        ==> window_leg(path@, e, k, em, block_data_map@, marker_data_map@) == Some(#[trigger] legs@[k]@),
                    None => e.len() < 2 || exists|k: int| 0 <= k < e.len() - 1 && #[trigger] window_leg(path@, e, k, em, block_data_map@, marker_data_map@) is None,
                }
            }),
    {
        let em = build_enter_marker_map(block_data_map);
        let ghost e = enter_indices(path@, em@);
        let windows = split_path_at_enter_markers(path, &em)?;
        let mut legs: Vec<RouteLeg> = Vec::new();
        let mut k: usize = 0;
        while k < windows.len()
            invariant
                e == enter_indices(path@, em@),
                em@ == enter_map_of(block_data_map.entries_view()),
                e.len() >= 2,
                windows@.len() == e.len() - 1,
                forall|j: int| 0 <= j < windows@.len() ==> windows@[j].0 as int == e[j] && windows@[j].1 as int == e[j + 1],
                0 <= k <= windows@.len(),
                legs@.len() == k,
                forall|j: int| 0 <= j < k ==> window_leg(path@, e, j, em@, block_data_map@, marker_data_map@) == Some(
                    #[trigger] legs@[j]@),
            decreases windows@.len() - k,
        {
            let (first, last) = windows[k];
            let path_len = path.len();
            proof {
                lemma_enter_indices_bounds(path@, em@);
                assert(e[k as int] < e[k + 1] < path@.len());
                assert(last < path_len);
            }
            match RouteLeg::build(path, first, last + 1, &em, block_data_map, marker_data_map) {
                Some(leg) => {
                    legs.push(leg);
                    proof {
                        assert(window_leg(path@, e, k as int, em@, block_data_map@, marker_data_map@) == Some(legs@[k as int]@));
                    }
                },
                None => {
                    proof {
                        assert(window_leg(path@, e, k as int, em@, block_data_map@, marker_data_map@) is None);
                    }
                    return None;
                },
            }
            k = k + 1;
        }
        Some(legs)
    }

    /// The leg that keeps a train standing in `logical_block`.
    pub fn idle(logical_block: LogicalBlockID, block_data_map: &BlockDataMap, marker_data_map: &MarkerDataMap) -> (r: Option<RouteLeg>)
        requires
            sections_nonempty(block_data_map.entries_view()),
        ensures
            match r {
                Some(leg) => block_data_map@.contains_key(logical_block.block) && leg@ == idle_leg_of(
                    logical_block,
                    block_data_map@[logical_block.block],
                    marker_data_map@,
                ),
                None => !block_data_map@.contains_key(logical_block.block),
            },
    {
        let data = block_data_map.get(&logical_block.block)?;
        proof {
            let j = choose|j: int| 0 <= j < block_data_map.entries_view().len() && block_data_map.entries_view()[j].0
                == logical_block.block && block_data_map.entries_view()[j].1 == *data;
            assert(block_data_map.entries_view()[j].1.section@.len() > 0);
        }
        let enter = data.enter_logical_track(logical_block.direction, logical_block.facing);
        let path: Vec<LogicalTrackID> = vec![enter];
        proof {
            assert(path@.subrange(0, 1) =~= seq![enter]);
        }
        let markers = collect_markers(&path, 0, 1, marker_data_map);
        Some(RouteLeg {
            facing: logical_block.facing,
            start_block: RouteLegBlock {
                block_id: logical_block.block,
                direction: logical_block.direction,
                facing: logical_block.facing,
                section: data.directed_section(logical_block.direction),
            },
            travel: Vec::new(),
            target_block: RouteLegBlock {
                block_id: logical_block.block,
                direction: logical_block.direction,
                facing: logical_block.facing,
                section: data.directed_section(logical_block.direction),
            },
            markers,
        })
    }
}

pub proof fn lemma_enter_indices_bounds(path: Seq<LogicalTrackID>, m: Map<LogicalTrackID, LogicalBlockID>)
    ensures
        forall|k: int| 0 <= k < enter_indices(path, m).len() ==> 0 <= #[trigger] enter_indices(path, m)[k] < path.len(),
        forall|k: int, j: int| 0 <= k < j < enter_indices(path, m).len() ==> enter_indices(path, m)[k] < enter_indices(path, m)[j],
    decreases path.len(),
{
    if path.len() > 0 {
        let prev = enter_indices(path.drop_last(), m);
        lemma_enter_indices_bounds(path.drop_last(), m);
        if m.contains_key(path.last()) {
            let cur = prev.push(path.len() - 1);
            assert(enter_indices(path, m) == cur);
            assert forall|k: int| 0 <= k < cur.len() implies 0 <= #[trigger] cur[k] < path.len() by {
                if k < prev.len() {
                    assert(cur[k] == prev[k]);
                }
            }
            assert forall|k: int, j: int| 0 <= k < j < cur.len() implies cur[k] < cur[j] by {
                assert(cur[k] == prev[k]);
                if j < prev.len() {
                    assert(cur[j] == prev[j]);
                } else {
                    assert(prev[k] < path.drop_last().len());
                }
            }
        } else {
            assert(enter_indices(path, m) == prev);
        }
    }
}

} // verus!
