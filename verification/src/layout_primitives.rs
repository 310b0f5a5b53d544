//! Grid geometry of the layout editor: cells, cardinal directions, cell
//! slots (the edges between cells), track pieces, their directed and logical
//! variants, connections between tracks, and blocks.
use vstd::prelude::*;

verus! {

// ---------------------------------------------------------------------------
// Plain identifiers
// ---------------------------------------------------------------------------

#[derive(Clone, Copy, PartialEq, Eq, Debug, Hash, Structural)]
pub struct ScheduleID {
    pub id: usize,
}

impl ScheduleID {
    pub fn new(id: usize) -> (r: Self)
        ensures
            r.id == id,
    {
        Self { id }
    }
}

#[derive(Clone, Copy, PartialEq, Eq, Debug, Hash, Structural)]
pub enum DestinationID {
    Random,
    Specific(usize),
}

#[derive(Clone, Copy, PartialEq, Eq, Debug, Hash, Structural)]
pub struct LogicalDiscriminator {
    pub direction: TrackDirection,
    pub facing: Facing,
}

#[derive(Clone, Copy, PartialEq, Eq, Debug, Hash, PartialOrd, Ord, Structural)]
pub enum SwitchPosition {
    Left,
    Center,
    Right,
}

pub open spec fn switch_position_opposite(p: SwitchPosition) -> SwitchPosition {
    match p {
        SwitchPosition::Left => SwitchPosition::Right,
        SwitchPosition::Center => SwitchPosition::Center,
        SwitchPosition::Right => SwitchPosition::Left,
    }
}

impl SwitchPosition {
    pub fn opposite(&self) -> (r: SwitchPosition)
        ensures
            r == switch_position_opposite(*self),
    {
        match self {
            SwitchPosition::Left => SwitchPosition::Right,
            SwitchPosition::Center => SwitchPosition::Center,
            SwitchPosition::Right => SwitchPosition::Left,
        }
    }
}

#[derive(Clone, Copy, PartialEq, Eq, Debug, Hash, PartialOrd, Ord, Structural)]
pub struct TrainID {
    pub id: usize,
}

impl TrainID {
    pub fn new(id: usize) -> (r: Self)
        ensures
            r.id == id,
    {
        Self { id }
    }
}

#[derive(Clone, Copy, PartialEq, Eq, Debug, Hash, PartialOrd, Ord, Structural)]
pub struct WagonID {
    pub train: TrainID,
    pub index: usize,
}

#[derive(Clone, Copy, PartialEq, Eq, Debug, Hash, PartialOrd, Ord, Structural)]
pub enum HubPort {
    A,
    B,
    C,
    D,
    E,
    F,
}

pub open spec fn hub_port_index(p: HubPort) -> u8 {
    match p {
        HubPort::A => 0,
        HubPort::B => 1,
        HubPort::C => 2,
        HubPort::D => 3,
        HubPort::E => 4,
        HubPort::F => 5,
    }
}

impl HubPort {
    pub fn to_u8(&self) -> (r: u8)
        ensures
            r == hub_port_index(*self),
    {
        match self {
            HubPort::A => 0,
            HubPort::B => 1,
            HubPort::C => 2,
            HubPort::D => 3,
            HubPort::E => 4,
            HubPort::F => 5,
        }
    }

    /// All ports, in port order.
    pub fn iter() -> (r: Vec<HubPort>)
        ensures
            r@ == seq![HubPort::A, HubPort::B, HubPort::C, HubPort::D, HubPort::E, HubPort::F],
    {
        let r = vec![HubPort::A, HubPort::B, HubPort::C, HubPort::D, HubPort::E, HubPort::F];
        assert(r@ =~= seq![HubPort::A, HubPort::B, HubPort::C, HubPort::D, HubPort::E, HubPort::F]);
        r
    }
}

#[derive(Clone, Copy, PartialEq, Eq, Debug, Hash, PartialOrd, Ord, Structural)]
pub enum HubType {
    Train,
    Layout,
}

#[derive(Clone, Copy, PartialEq, Eq, Debug, Hash, PartialOrd, Ord, Structural)]
pub struct HubID {
    pub id: usize,
    pub kind: HubType,
}

impl HubID {
    pub fn new(id: usize, kind: HubType) -> (r: Self)
        ensures
            r.id == id,
            r.kind == kind,
    {
        Self { id, kind }
    }
}

#[derive(Clone, Copy, PartialEq, Eq, Debug, Hash, Structural)]
pub enum LayoutDeviceType {
    PulseMotor,
    Signal,
}

#[derive(Clone, Copy, PartialEq, Eq, Debug, Hash, Structural)]
pub struct LayoutDeviceID {
    pub id: usize,
    pub kind: LayoutDeviceType,
}

impl LayoutDeviceID {
    pub fn new(id: usize, kind: LayoutDeviceType) -> (r: Self)
        ensures
            r.id == id,
            r.kind == kind,
    {
        Self { id, kind }
    }
}

// ---------------------------------------------------------------------------
// Directions
// ---------------------------------------------------------------------------

#[derive(Clone, Copy, PartialEq, Eq, Debug, Hash, PartialOrd, Ord, Structural)]
pub enum BlockDirection {
    Aligned,
    Opposite,
}

pub open spec fn block_direction_opposite(d: BlockDirection) -> BlockDirection {
    match d {
        BlockDirection::Aligned => BlockDirection::Opposite,
        BlockDirection::Opposite => BlockDirection::Aligned,
    }
}

impl BlockDirection {
    pub fn opposite(&self) -> (r: BlockDirection)
        ensures
            r == block_direction_opposite(*self),
    {
        match self {
            BlockDirection::Aligned => BlockDirection::Opposite,
            BlockDirection::Opposite => BlockDirection::Aligned,
        }
    }
}

impl Default for BlockDirection {
    fn default() -> (r: BlockDirection)
        ensures
            r == BlockDirection::Aligned,
    {
        BlockDirection::Aligned
    }
}

#[derive(Clone, Copy, PartialEq, Eq, Debug, Hash, PartialOrd, Ord, Structural)]
pub enum Facing {
    Forward,
    Backward,
}

pub open spec fn facing_opposite(f: Facing) -> Facing {
    match f {
        Facing::Forward => Facing::Backward,
        Facing::Backward => Facing::Forward,
    }
}

impl Default for Facing {
    fn default() -> (r: Facing)
        ensures
            r == Facing::Forward,
    {
        Facing::Forward
    }
}

impl Facing {
    pub fn opposite(&self) -> (r: Facing)
        ensures
            r == facing_opposite(*self),
    {
        match self {
            Facing::Forward => Facing::Backward,
            Facing::Backward => Facing::Forward,
        }
    }

    /// The flag bit that tells a train hub which way it faces.
    pub fn as_train_flag(&self) -> (r: u8)
        ensures
            r == (if *self == Facing::Forward { 0u8 } else { 1u8 }),
    {
        match self {
            Facing::Forward => 0,
            Facing::Backward => 1,
        }
    }
}

#[derive(Clone, Copy, PartialEq, Eq, Debug, Hash, PartialOrd, Ord, Structural)]
pub enum TrackDirection {
    First,
    Last,
}

pub open spec fn direction_opposite(d: TrackDirection) -> TrackDirection {
    match d {
        TrackDirection::First => TrackDirection::Last,
        TrackDirection::Last => TrackDirection::First,
    }
}

impl TrackDirection {
    pub fn opposite(&self) -> (r: Self)
        ensures
            r == direction_opposite(*self),
    {
        match self {
            TrackDirection::First => TrackDirection::Last,
            TrackDirection::Last => TrackDirection::First,
        }
    }
}

#[derive(Clone, Copy, PartialEq, Eq, Debug, Hash, Structural)]
pub enum Cardinal {
    N,
    S,
    E,
    W,
}

pub open spec fn cardinal_opposite(c: Cardinal) -> Cardinal {
    match c {
        Cardinal::N => Cardinal::S,
        Cardinal::S => Cardinal::N,
        Cardinal::E => Cardinal::W,
        Cardinal::W => Cardinal::E,
    }
}

pub open spec fn card_dx(c: Cardinal) -> int {
    match c {
        Cardinal::E => 1,
        Cardinal::W => -1,
        _ => 0,
    }
}

pub open spec fn card_dy(c: Cardinal) -> int {
    match c {
        Cardinal::N => 1,
        Cardinal::S => -1,
        _ => 0,
    }
}

/// Whether the unit step of `b` is that of `a` turned a quarter turn
/// counter-clockwise: `(dx, dy)` becomes `(-dy, dx)`.
pub open spec fn quarter_turn_ccw(a: Cardinal, b: Cardinal) -> bool {
    card_dx(b) == -card_dy(a) && card_dy(b) == card_dx(a)
}

/// The cardinal whose unit step is `(dx, dy)`, if there is one.
pub open spec fn cardinal_from_deltas(dx: int, dy: int) -> Option<Cardinal> {
    if dx == 0 && dy == 1 {
        Some(Cardinal::N)
    } else if dx == 0 && dy == -1 {
        Some(Cardinal::S)
    } else if dx == 1 && dy == 0 {
        Some(Cardinal::E)
    } else if dx == -1 && dy == 0 {
        Some(Cardinal::W)
    } else {
        None
    }
}

/// The cardinal a quarter turn counter-clockwise from `c` (a left turn when heading `c`).
pub open spec fn cardinal_left(c: Cardinal) -> Cardinal {
    match c {
        Cardinal::E => Cardinal::N,
        Cardinal::N => Cardinal::W,
        Cardinal::W => Cardinal::S,
        Cardinal::S => Cardinal::E,
    }
}

impl Cardinal {
    /// All cardinals, in declaration order.
    pub fn iter() -> (r: Vec<Cardinal>)
        ensures
            r@ == seq![Cardinal::N, Cardinal::S, Cardinal::E, Cardinal::W],
    {
        let r = vec![Cardinal::N, Cardinal::S, Cardinal::E, Cardinal::W];
        assert(r@ =~= seq![Cardinal::N, Cardinal::S, Cardinal::E, Cardinal::W]);
        r
    }

    pub fn from_deltas(dx: i32, dy: i32) -> (r: Option<Self>)
        ensures
            r == cardinal_from_deltas(dx as int, dy as int),
    {
        if dx == 0 && dy == 1 {
            Some(Cardinal::N)
        } else if dx == 0 && dy == -1 {
            Some(Cardinal::S)
        } else if dx == 1 && dy == 0 {
            Some(Cardinal::E)
        } else if dx == -1 && dy == 0 {
            Some(Cardinal::W)
        } else {
            None
        }
    }

    pub fn opposite(&self) -> (r: Self)
        ensures
            r == cardinal_opposite(*self),
    {
        match self {
            Cardinal::N => Cardinal::S,
            Cardinal::S => Cardinal::N,
            Cardinal::E => Cardinal::W,
            Cardinal::W => Cardinal::E,
        }
    }

    pub fn dx(&self) -> (r: i32)
        ensures
            r == card_dx(*self),
    {
        match self {
            Cardinal::E => 1,
            Cardinal::W => -1,
            _ => 0,
        }
    }

    pub fn dy(&self) -> (r: i32)
        ensures
            r == card_dy(*self),
    {
        match self {
            Cardinal::N => 1,
            Cardinal::S => -1,
            _ => 0,
        }
    }
}

// ---------------------------------------------------------------------------
// Cells and slots
// ---------------------------------------------------------------------------

#[derive(Clone, Copy, PartialEq, Eq, Debug, Hash, PartialOrd, Ord, Structural)]
pub struct CellID {
    pub x: i32,
    pub y: i32,
    pub l: i32,
}

/// Whether every coordinate of `c` stays within `i32` after moving `m` cells
/// in any direction.
pub open spec fn cell_within(c: CellID, m: int) -> bool {
    i32::MIN + m <= c.x <= i32::MAX - m && i32::MIN + m <= c.y <= i32::MAX - m
}

pub open spec fn cell_neighbor(c: CellID, d: Cardinal) -> CellID {
    CellID { x: (c.x + card_dx(d)) as i32, y: (c.y + card_dy(d)) as i32, l: c.l }
}

pub open spec fn cell_cardinal_to(a: CellID, b: CellID) -> Option<Cardinal> {
    cardinal_from_deltas(b.x - a.x, b.y - a.y)
}

/// Lexicographic order on (x, y, l), the order `derive(Ord)` gives cells.
pub open spec fn cell_lt(a: CellID, b: CellID) -> bool {
    a.x < b.x || (a.x == b.x && (a.y < b.y || (a.y == b.y && a.l < b.l)))
}

impl CellID {
    pub fn new(x: i32, y: i32, l: i32) -> (r: Self)
        ensures
            r == (CellID { x, y, l }),
    {
        Self { x, y, l }
    }

    pub fn get_neighbor(&self, cardinal: Cardinal) -> (r: Self)
        requires
            cell_within(*self, 1),
        ensures
            r == cell_neighbor(*self, cardinal),
    {
        Self { x: self.x + cardinal.dx(), y: self.y + cardinal.dy(), l: self.l }
    }

    pub fn cardinal_to(&self, other: &Self) -> (r: Option<Cardinal>)
        ensures
            r == cell_cardinal_to(*self, *other),
    {
        let dx: i64 = other.x as i64 - self.x as i64;
        let dy: i64 = other.y as i64 - self.y as i64;
        if dx == 0 && dy == 1 {
            Some(Cardinal::N)
        } else if dx == 0 && dy == -1 {
            Some(Cardinal::S)
        } else if dx == 1 && dy == 0 {
            Some(Cardinal::E)
        } else if dx == -1 && dy == 0 {
            Some(Cardinal::W)
        } else {
            None
        }
    }

    /// The order `derive(Ord)` gives cells.
    pub fn less_than(&self, other: &Self) -> (r: bool)
        ensures
            r == cell_lt(*self, *other),
    {
        self.x < other.x || (self.x == other.x && (self.y < other.y || (self.y == other.y
            && self.l < other.l)))
    }
}

/// The two kinds of cell edge a slot names: the north and the east edge of its cell.
#[derive(Clone, Copy, PartialEq, Eq, Debug, Hash, Structural)]
pub enum CellInterface {
    N,
    E,
}

pub open spec fn interface_cardinal(i: CellInterface) -> Cardinal {
    match i {
        CellInterface::N => Cardinal::N,
        CellInterface::E => Cardinal::E,
    }
}

pub open spec fn interface_from_cardinal(c: Cardinal) -> Option<CellInterface> {
    match c {
        Cardinal::N => Some(CellInterface::N),
        Cardinal::E => Some(CellInterface::E),
        _ => None,
    }
}

impl CellInterface {
    pub fn to_cardinal(&self) -> (r: Cardinal)
        ensures
            r == interface_cardinal(*self),
    {
        match self {
            CellInterface::N => Cardinal::N,
            CellInterface::E => Cardinal::E,
        }
    }

    pub fn from_cardinal(cardinal: Cardinal) -> (r: Option<Self>)
        ensures
            r == interface_from_cardinal(cardinal),
    {
        match cardinal {
            Cardinal::N => Some(CellInterface::N),
            Cardinal::E => Some(CellInterface::E),
            _ => None,
        }
    }
}

/// An edge between two neighbouring cells, named by the cell whose north or
/// east edge it is.
#[derive(Clone, Copy, PartialEq, Eq, Debug, Hash, Structural)]
pub struct Slot {
    pub cell: CellID,
    pub interface: CellInterface,
}

pub open spec fn slot_other_cell(s: Slot) -> CellID {
    cell_neighbor(s.cell, interface_cardinal(s.interface))
}

/// The slot on the `d` side of cell `c`.
pub open spec fn cell_slot(c: CellID, d: Cardinal) -> Slot {
    match interface_from_cardinal(d) {
        Some(i) => Slot { cell: c, interface: i },
        None => Slot {
            cell: cell_neighbor(c, d),
            interface: interface_from_cardinal(cardinal_opposite(d)).unwrap(),
        },
    }
}

pub open spec fn cell_cardinal_to_slot(c: CellID, s: Slot) -> Option<Cardinal> {
    if c == s.cell {
        Some(interface_cardinal(s.interface))
    } else if c == slot_other_cell(s) {
        Some(cardinal_opposite(interface_cardinal(s.interface)))
    } else {
        None
    }
}

pub open spec fn cell_opposite_slot(c: CellID, s: Slot) -> Option<Slot> {
    match cell_cardinal_to_slot(c, s) {
        Some(d) => Some(cell_slot(c, cardinal_opposite(d))),
        None => None,
    }
}

pub open spec fn cell_shared_slot(a: CellID, b: CellID) -> Option<Slot> {
    match cell_cardinal_to(a, b) {
        Some(d) => Some(cell_slot(a, d)),
        None => None,
    }
}

pub open spec fn slot_can_connect(a: Slot, b: Slot) -> bool {
    if a.cell == b.cell {
        a.interface != b.interface
    } else if slot_other_cell(a) == b.cell {
        interface_cardinal(a.interface) != cardinal_opposite(interface_cardinal(b.interface))
    } else if a.cell == slot_other_cell(b) {
        cardinal_opposite(interface_cardinal(a.interface)) != interface_cardinal(b.interface)
    } else {
        false
    }
}

pub open spec fn slot_shared_cell(a: Slot, b: Slot) -> Option<CellID> {
    if slot_other_cell(a) == b.cell {
        Some(b.cell)
    } else if a.cell == slot_other_cell(b) {
        Some(a.cell)
    } else if a.cell == b.cell {
        Some(a.cell)
    } else if slot_other_cell(a) == slot_other_cell(b) {
        Some(slot_other_cell(a))
    } else {
        None
    }
}

impl Slot {
    pub fn can_connect_to(&self, other: &Self) -> (r: bool)
        requires
            cell_within(self.cell, 1),
            cell_within(other.cell, 1),
        ensures
            r == slot_can_connect(*self, *other),
    {
        if self.cell == other.cell {
            return self.interface != other.interface;
        }
        if self.get_other_cell() == other.cell {
            return self.interface.to_cardinal() != other.interface.to_cardinal().opposite();
        }
        if self.cell == other.get_other_cell() {
            return self.interface.to_cardinal().opposite() != other.interface.to_cardinal();
        }
        false
    }

    pub fn get_shared_cell(&self, other: &Self) -> (r: Option<CellID>)
        requires
            cell_within(self.cell, 1),
            cell_within(other.cell, 1),
        ensures
            r == slot_shared_cell(*self, *other),
    {
        if self.get_other_cell() == other.cell {
            return Some(other.cell);
        }
        if self.cell == other.get_other_cell() {
            return Some(self.cell);
        }
        if self.cell == other.cell {
            return Some(self.cell);
        }
        if self.get_other_cell() == other.get_other_cell() {
            return Some(self.get_other_cell());
        }
        None
    }

    pub fn get_other_cell(&self) -> (r: CellID)
        requires
            cell_within(self.cell, 1),
        ensures
            r == slot_other_cell(*self),
    {
        self.cell.get_neighbor(self.interface.to_cardinal())
    }
}

impl CellID {
    pub fn cardinal_to_slot(&self, slot: &Slot) -> (r: Option<Cardinal>)
        requires
            cell_within(slot.cell, 1),
        ensures
            r == cell_cardinal_to_slot(*self, *slot),
    {
        if *self == slot.cell {
            return Some(slot.interface.to_cardinal());
        }
        if *self == slot.get_other_cell() {
            return Some(slot.interface.to_cardinal().opposite());
        }
        None
    }

    pub fn get_slot(&self, cardinal: Cardinal) -> (r: Slot)
        requires
            cell_within(*self, 1),
        ensures
            r == cell_slot(*self, cardinal),
    {
        if let Some(interface) = CellInterface::from_cardinal(cardinal) {
            return Slot { cell: *self, interface };
        }
        let interface = match CellInterface::from_cardinal(cardinal.opposite()) {
            Some(i) => i,
            None => {
                // the opposite of S or W is N or E
                proof {
                    assert(false);
                }
                CellInterface::N
            },
        };
        Slot { cell: self.get_neighbor(cardinal), interface }
    }

    pub fn get_opposite_slot(&self, slot: &Slot) -> (r: Option<Slot>)
        requires
            cell_within(*self, 1),
            cell_within(slot.cell, 1),
        ensures
            r == cell_opposite_slot(*self, *slot),
    {
        let cardinal = self.cardinal_to_slot(slot)?;
        Some(self.get_slot(cardinal.opposite()))
    }

    pub fn get_shared_slot(&self, other: &Self) -> (r: Option<Slot>)
        requires
            cell_within(*self, 1),
        ensures
            r == cell_shared_slot(*self, *other),
    {
        if let Some(cardinal) = self.cardinal_to(other) {
            return Some(self.get_slot(cardinal));
        }
        None
    }
}


// ---------------------------------------------------------------------------
// Orientations and tracks
// ---------------------------------------------------------------------------

#[derive(Clone, Copy, PartialEq, Eq, Debug, Hash, PartialOrd, Ord, Structural)]
pub enum Orientation {
    NS,
    NE,
    NW,
    SE,
    SW,
    EW,
}

pub open spec fn orientation_cardinals(o: Orientation) -> (Cardinal, Cardinal) {
    match o {
        Orientation::NS => (Cardinal::N, Cardinal::S),
        Orientation::NE => (Cardinal::N, Cardinal::E),
        Orientation::NW => (Cardinal::N, Cardinal::W),
        Orientation::SE => (Cardinal::S, Cardinal::E),
        Orientation::SW => (Cardinal::S, Cardinal::W),
        Orientation::EW => (Cardinal::E, Cardinal::W),
    }
}

/// The orientation joining the two (distinct) cardinals, in either order.
pub open spec fn orientation_of_pair(c1: Cardinal, c2: Cardinal) -> Option<Orientation> {
    if c1 == c2 {
        None
    } else if (c1 == Cardinal::N || c2 == Cardinal::N) && (c1 == Cardinal::S || c2 == Cardinal::S) {
        Some(Orientation::NS)
    } else if (c1 == Cardinal::N || c2 == Cardinal::N) && (c1 == Cardinal::E || c2 == Cardinal::E) {
        Some(Orientation::NE)
    } else if (c1 == Cardinal::N || c2 == Cardinal::N) && (c1 == Cardinal::W || c2 == Cardinal::W) {
        Some(Orientation::NW)
    } else if (c1 == Cardinal::S || c2 == Cardinal::S) && (c1 == Cardinal::E || c2 == Cardinal::E) {
        Some(Orientation::SE)
    } else if (c1 == Cardinal::S || c2 == Cardinal::S) && (c1 == Cardinal::W || c2 == Cardinal::W) {
        Some(Orientation::SW)
    } else {
        Some(Orientation::EW)
    }
}

pub open spec fn orientation_cardinal(o: Orientation, d: TrackDirection) -> Cardinal {
    match d {
        TrackDirection::First => orientation_cardinals(o).0,
        TrackDirection::Last => orientation_cardinals(o).1,
    }
}

pub open spec fn orientation_direction_to(o: Orientation, c: Cardinal) -> Option<TrackDirection> {
    if c == orientation_cardinals(o).0 {
        Some(TrackDirection::First)
    } else if c == orientation_cardinals(o).1 {
        Some(TrackDirection::Last)
    } else {
        None
    }
}

pub open spec fn turn_index(o: Orientation) -> int {
    match o {
        Orientation::EW => 4,
        Orientation::NE => 1,
        Orientation::NS => 2,
        Orientation::NW => 3,
        Orientation::SE => 7,
        Orientation::SW => 5,
    }
}

/// Declaration order, which `derive(Ord)` follows.
pub open spec fn orientation_rank(o: Orientation) -> int {
    match o {
        Orientation::NS => 0,
        Orientation::NE => 1,
        Orientation::NW => 2,
        Orientation::SE => 3,
        Orientation::SW => 4,
        Orientation::EW => 5,
    }
}

impl Orientation {
    pub fn from_cardinals(slot1: Cardinal, slot2: Cardinal) -> (r: Option<Self>)
        ensures
            r == orientation_of_pair(slot1, slot2),
    {
        if slot1 == slot2 {
            return None;
        }
        match (slot1, slot2) {
            (Cardinal::N, Cardinal::S) | (Cardinal::S, Cardinal::N) => Some(Orientation::NS),
            (Cardinal::N, Cardinal::E) | (Cardinal::E, Cardinal::N) => Some(Orientation::NE),
            (Cardinal::N, Cardinal::W) | (Cardinal::W, Cardinal::N) => Some(Orientation::NW),
            (Cardinal::S, Cardinal::E) | (Cardinal::E, Cardinal::S) => Some(Orientation::SE),
            (Cardinal::S, Cardinal::W) | (Cardinal::W, Cardinal::S) => Some(Orientation::SW),
            _ => Some(Orientation::EW),
        }
    }

    pub fn get_cardinals(&self) -> (r: (Cardinal, Cardinal))
        ensures
            r == orientation_cardinals(*self),
    {
        match self {
            Orientation::NS => (Cardinal::N, Cardinal::S),
            Orientation::NE => (Cardinal::N, Cardinal::E),
            Orientation::NW => (Cardinal::N, Cardinal::W),
            Orientation::SE => (Cardinal::S, Cardinal::E),
            Orientation::SW => (Cardinal::S, Cardinal::W),
            Orientation::EW => (Cardinal::E, Cardinal::W),
        }
    }

    pub fn get_cardinal(&self, dir: TrackDirection) -> (r: Cardinal)
        ensures
            r == orientation_cardinal(*self, dir),
    {
        match dir {
            TrackDirection::First => self.get_cardinals().0,
            TrackDirection::Last => self.get_cardinals().1,
        }
    }

    pub fn get_direction_to(&self, cardinal: Cardinal) -> (r: Option<TrackDirection>)
        ensures
            r == orientation_direction_to(*self, cardinal),
    {
        let (card1, card2) = self.get_cardinals();
        if cardinal == card1 {
            return Some(TrackDirection::First);
        }
        if cardinal == card2 {
            return Some(TrackDirection::Last);
        }
        None
    }

    pub fn turn_index(&self) -> (r: i32)
        ensures
            r == turn_index(*self),
    {
        match self {
            Self::EW => 4,
            Self::NE => 1,
            Self::NS => 2,
            Self::NW => 3,
            Self::SE => 7,
            Self::SW => 5,
        }
    }

    pub fn rank(&self) -> (r: u8)
        ensures
            r == orientation_rank(*self),
    {
        match self {
            Orientation::NS => 0,
            Orientation::NE => 1,
            Orientation::NW => 2,
            Orientation::SE => 3,
            Orientation::SW => 4,
            Orientation::EW => 5,
        }
    }
}

#[derive(Clone, Copy, PartialEq, Eq, Debug, Hash, PartialOrd, Ord, Structural)]
pub struct TrackID {
    pub cell: CellID,
    pub orientation: Orientation,
}

#[derive(Clone, Copy, PartialEq, Eq, Debug, Hash, PartialOrd, Ord, Structural)]
pub struct DirectedTrackID {
    pub track: TrackID,
    pub direction: TrackDirection,
}

#[derive(Clone, Copy, PartialEq, Eq, Debug, Hash, PartialOrd, Ord, Structural)]
pub struct LogicalTrackID {
    pub dirtrack: DirectedTrackID,
    pub facing: Facing,
}

pub open spec fn dirtrack_opposite(d: DirectedTrackID) -> DirectedTrackID {
    DirectedTrackID { track: d.track, direction: direction_opposite(d.direction) }
}

pub open spec fn dirtrack_to_cardinal(d: DirectedTrackID) -> Cardinal {
    orientation_cardinal(d.track.orientation, d.direction)
}

pub open spec fn dirtrack_from_cardinal(d: DirectedTrackID) -> Cardinal {
    orientation_cardinal(d.track.orientation, direction_opposite(d.direction))
}

pub open spec fn dirtrack_to_slot(d: DirectedTrackID) -> Slot {
    cell_slot(d.track.cell, dirtrack_to_cardinal(d))
}

pub open spec fn dirtrack_from_slot(d: DirectedTrackID) -> Slot {
    cell_slot(d.track.cell, dirtrack_from_cardinal(d))
}

pub open spec fn dir_index(d: DirectedTrackID) -> int {
    match d.direction {
        TrackDirection::Last => turn_index(d.track.orientation),
        TrackDirection::First => (turn_index(d.track.orientation) + 4) % 8,
    }
}

pub open spec fn track_directed(t: TrackID, dir: TrackDirection) -> DirectedTrackID {
    DirectedTrackID { track: t, direction: dir }
}

pub open spec fn track_directed_to_cardinal(t: TrackID, c: Cardinal) -> Option<DirectedTrackID> {
    match orientation_direction_to(t.orientation, c) {
        Some(dir) => Some(DirectedTrackID { track: t, direction: dir }),
        None => None,
    }
}

pub open spec fn track_directed_to_slot(t: TrackID, s: Slot) -> Option<DirectedTrackID> {
    match cell_cardinal_to_slot(t.cell, s) {
        Some(c) => track_directed_to_cardinal(t, c),
        None => None,
    }
}

pub open spec fn track_from_slots(s1: Slot, s2: Slot) -> Option<TrackID> {
    match slot_shared_cell(s1, s2) {
        Some(cell) => match (cell_cardinal_to_slot(cell, s1), cell_cardinal_to_slot(cell, s2)) {
            (Some(c1), Some(c2)) => match orientation_of_pair(c1, c2) {
                Some(o) => Some(TrackID { cell, orientation: o }),
                None => None,
            },
            _ => None,
        },
        None => None,
    }
}

pub open spec fn dirtrack_from_slots(s1: Slot, s2: Slot) -> Option<DirectedTrackID> {
    match track_from_slots(s1, s2) {
        Some(t) => track_directed_to_slot(t, s2),
        None => None,
    }
}

pub open spec fn track_connection_to(a: TrackID, b: TrackID) -> Option<TrackConnectionID> {
    match cell_cardinal_to(a.cell, b.cell) {
        Some(c) => match (track_directed_to_cardinal(a, c), track_directed_to_cardinal(b, cardinal_opposite(c))) {
            (Some(t1), Some(t2)) => Some(connection_new(t1, t2)),
            _ => None,
        },
        None => None,
    }
}

/// Which way a switch must be set for a train entering on the `from` side of
/// `d` to leave on its `to` side: straight through, or a turn to the left or right.
pub open spec fn dirtrack_switch_position(d: DirectedTrackID) -> SwitchPosition {
    let ahead = cardinal_opposite(dirtrack_from_cardinal(d));
    if dirtrack_to_cardinal(d) == ahead {
        SwitchPosition::Center
    } else if dirtrack_to_cardinal(d) == cardinal_left(ahead) {
        SwitchPosition::Left
    } else {
        SwitchPosition::Right
    }
}

/// The cardinal a train heading `c` leaves by when it goes `p` at the next cell.
pub open spec fn turned_cardinal(c: Cardinal, p: SwitchPosition) -> Cardinal {
    match p {
        SwitchPosition::Center => c,
        SwitchPosition::Left => cardinal_left(c),
        SwitchPosition::Right => cardinal_opposite(cardinal_left(c)),
    }
}

/// The track a train on `d` continues onto in the next cell when going `p`.
pub open spec fn dirtrack_next(d: DirectedTrackID, p: SwitchPosition) -> DirectedTrackID {
    let ahead = dirtrack_to_cardinal(d);
    let out = turned_cardinal(ahead, p);
    let o = orientation_of_pair(cardinal_opposite(ahead), out).unwrap();
    DirectedTrackID {
        track: TrackID { cell: cell_neighbor(d.track.cell, ahead), orientation: o },
        direction: orientation_direction_to(o, out).unwrap(),
    }
}

/// Lexicographic order on (cell, orientation), the order `derive(Ord)` gives tracks.
pub open spec fn track_lt(a: TrackID, b: TrackID) -> bool {
    cell_lt(a.cell, b.cell) || (a.cell == b.cell && orientation_rank(a.orientation)
        < orientation_rank(b.orientation))
}

pub open spec fn track_le(a: TrackID, b: TrackID) -> bool {
    track_lt(a, b) || a == b
}

/// Whether two tracks lie in the same cell and end at a common side of it.
pub open spec fn shares_end(t: TrackID, u: TrackID) -> bool {
    t.cell == u.cell && exists|dt: TrackDirection, du: TrackDirection| #[trigger] orientation_cardinal(t.orientation, dt)
        == #[trigger] orientation_cardinal(u.orientation, du)
}

/// Whether two tracks are the two straights crossing in one cell.
pub open spec fn crossing_straights(t: TrackID, u: TrackID) -> bool {
    t.cell == u.cell && t.orientation != u.orientation && orientation_cardinal(t.orientation, TrackDirection::First)
        == cardinal_opposite(orientation_cardinal(t.orientation, TrackDirection::Last)) && orientation_cardinal(
        u.orientation,
        TrackDirection::First,
    ) == cardinal_opposite(orientation_cardinal(u.orientation, TrackDirection::Last))
}

/// All tracks that cannot be laid in the same cell as `t` at the same time:
/// those sharing an end with it, and for a straight track the crossing straight.
pub open spec fn track_collides(t: TrackID, u: TrackID) -> bool {
    let (a, b) = orientation_cardinals(t.orientation);
    let (c, d) = orientation_cardinals(u.orientation);
    u.cell == t.cell && (a == c || a == d || b == c || b == d || (t.orientation
        == Orientation::EW && u.orientation == Orientation::NS) || (t.orientation
        == Orientation::NS && u.orientation == Orientation::EW))
}

impl DirectedTrackID {
    pub fn new(track: TrackID, direction: TrackDirection) -> (r: Self)
        ensures
            r == (DirectedTrackID { track, direction }),
    {
        Self { track, direction }
    }

    pub fn opposite(&self) -> (r: Self)
        ensures
            r == dirtrack_opposite(*self),
    {
        Self { track: self.track, direction: self.direction.opposite() }
    }

    pub fn to_cardinal(&self) -> (r: Cardinal)
        ensures
            r == dirtrack_to_cardinal(*self),
    {
        self.track.orientation.get_cardinal(self.direction)
    }

    pub fn from_cardinal(&self) -> (r: Cardinal)
        ensures
            r == dirtrack_from_cardinal(*self),
    {
        self.track.orientation.get_cardinal(self.direction.opposite())
    }

    pub fn to_slot(&self) -> (r: Slot)
        requires
            cell_within(self.track.cell, 1),
        ensures
            r == dirtrack_to_slot(*self),
    {
        self.track.cell.get_slot(self.track.orientation.get_cardinal(self.direction))
    }

    pub fn from_slot(&self) -> (r: Slot)
        requires
            cell_within(self.track.cell, 1),
        ensures
            r == dirtrack_from_slot(*self),
    {
        self.track.cell.get_slot(self.track.orientation.get_cardinal(self.direction.opposite()))
    }

    pub fn cell(&self) -> (r: CellID)
        ensures
            r == self.track.cell,
    {
        self.track.cell
    }

    pub fn get_logical(&self, facing: Facing) -> (r: LogicalTrackID)
        ensures
            r == (LogicalTrackID { dirtrack: *self, facing }),
    {
        LogicalTrackID { dirtrack: *self, facing }
    }

    pub fn logical_tracks(&self) -> (r: [LogicalTrackID; 2])
        ensures
            r@ == seq![
                LogicalTrackID { dirtrack: *self, facing: Facing::Forward },
                LogicalTrackID { dirtrack: *self, facing: Facing::Backward },
            ],
    {
        let r = [self.get_logical(Facing::Forward), self.get_logical(Facing::Backward)];
        assert(r@ =~= seq![
            LogicalTrackID { dirtrack: *self, facing: Facing::Forward },
            LogicalTrackID { dirtrack: *self, facing: Facing::Backward },
        ]);
        r
    }

    pub fn dir_index(&self) -> (r: i32)
        ensures
            r == dir_index(*self),
            0 <= r < 8,
    {
        match self.direction {
            TrackDirection::Last => self.track.orientation.turn_index(),
            TrackDirection::First => (self.track.orientation.turn_index() + 4) % 8,
        }
    }

    /// Which way the switch at this track's entry must stand to lead onto it.
    pub fn get_switch_position(&self) -> (r: SwitchPosition)
        ensures
            r == dirtrack_switch_position(*self),
            dirtrack_to_cardinal(*self) == cardinal_opposite(dirtrack_from_cardinal(*self)) ==> r == SwitchPosition::Center,
            quarter_turn_ccw(cardinal_opposite(dirtrack_from_cardinal(*self)), dirtrack_to_cardinal(*self)) ==> r
                == SwitchPosition::Left,
            quarter_turn_ccw(dirtrack_to_cardinal(*self), cardinal_opposite(dirtrack_from_cardinal(*self))) ==> r
                == SwitchPosition::Right,
    {
        proof {
            lemma_switch_position_handedness(*self);
        }
        let from = self.from_cardinal();
        let ahead = from.opposite();
        let orientation = match Orientation::from_cardinals(from, ahead) {
            Some(o) => o,
            None => {
                proof {
                    assert(false);
                }
                Orientation::NS
            },
        };
        let direction = match orientation.get_direction_to(ahead) {
            Some(d) => d,
            None => {
                proof {
                    assert(false);
                }
                TrackDirection::First
            },
        };
        let center = DirectedTrackID { track: TrackID { cell: self.track.cell, orientation }, direction };
        let delta = ((self.dir_index() - center.dir_index() + 12) % 8) - 4;
        if delta == 1 {
            SwitchPosition::Right
        } else if delta == -1 {
            SwitchPosition::Left
        } else {
            proof {
                assert(delta == 0);
            }
            SwitchPosition::Center
        }
    }

    /// The track a train on this one continues onto when the switch ahead stands at `position`.
    pub fn get_next_track(&self, position: &SwitchPosition) -> (r: DirectedTrackID)
        requires
            cell_within(self.track.cell, 1),
        ensures
            r == dirtrack_next(*self, *position),
            *position == SwitchPosition::Center ==> dirtrack_to_cardinal(r) == dirtrack_to_cardinal(*self),
            *position == SwitchPosition::Left ==> quarter_turn_ccw(dirtrack_to_cardinal(*self), dirtrack_to_cardinal(r)),
            *position == SwitchPosition::Right ==> quarter_turn_ccw(dirtrack_to_cardinal(r), dirtrack_to_cardinal(*self)),
            dirtrack_from_cardinal(r) == cardinal_opposite(dirtrack_to_cardinal(*self)),
    {
        proof {
            lemma_next_track_turns(*self);
        }
        let ahead = self.to_cardinal();
        let out = match position {
            SwitchPosition::Center => ahead,
            SwitchPosition::Left => left_of(ahead),
            SwitchPosition::Right => left_of(ahead).opposite(),
        };
        let orientation = match Orientation::from_cardinals(ahead.opposite(), out) {
            Some(o) => o,
            None => {
                proof {
                    assert(false);
                }
                Orientation::NS
            },
        };
        let direction = match orientation.get_direction_to(out) {
            Some(d) => d,
            None => {
                proof {
                    assert(false);
                }
                TrackDirection::First
            },
        };
        DirectedTrackID {
            track: TrackID { cell: self.track.cell.get_neighbor(ahead), orientation },
            direction,
        }
    }

    pub fn get_switch_connection(&self, switch_position: &SwitchPosition) -> (r: DirectedTrackConnectionID)
        requires
            cell_within(self.track.cell, 1),
        ensures
            r == (DirectedTrackConnectionID {
                from_track: *self,
                to_track: dirtrack_next(*self, *switch_position),
            }),
    {
        let switch_track = self.get_next_track(switch_position);
        DirectedTrackConnectionID { from_track: *self, to_track: switch_track }
    }

    pub fn from_slots(from_slot: Slot, to_slot: Slot) -> (r: Option<Self>)
        requires
            cell_within(from_slot.cell, 1),
            cell_within(to_slot.cell, 1),
        ensures
            r == dirtrack_from_slots(from_slot, to_slot),
    {
        let track = TrackID::from_slots(from_slot, to_slot)?;
        track.get_directed_to_slot(to_slot)
    }

    /// The order `derive(Ord)` gives directed tracks.
    pub fn less_than(&self, other: &Self) -> (r: bool)
        ensures
            r == (track_lt(self.track, other.track) || (self.track == other.track
                && self.direction == TrackDirection::First && other.direction == TrackDirection::Last)),
    {
        self.track.less_than(&other.track) || (self.track == other.track && self.direction
            == TrackDirection::First && other.direction == TrackDirection::Last)
    }
}

fn left_of(c: Cardinal) -> (r: Cardinal)
    ensures
        r == cardinal_left(c),
{
    match c {
        Cardinal::E => Cardinal::N,
        Cardinal::N => Cardinal::W,
        Cardinal::W => Cardinal::S,
        Cardinal::S => Cardinal::E,
    }
}

impl TrackID {
    pub fn new(cell: CellID, orientation: Orientation) -> (r: Self)
        ensures
            r == (TrackID { cell, orientation }),
    {
        Self { cell, orientation }
    }

    /// The order `derive(Ord)` gives tracks.
    pub fn less_than(&self, other: &Self) -> (r: bool)
        ensures
            r == track_lt(*self, *other),
    {
        self.cell.less_than(&other.cell) || (self.cell == other.cell && self.orientation.rank()
            < other.orientation.rank())
    }

    pub fn from_slots(slot1: Slot, slot2: Slot) -> (r: Option<Self>)
        requires
            cell_within(slot1.cell, 1),
            cell_within(slot2.cell, 1),
        ensures
            r == track_from_slots(slot1, slot2),
    {
        let cell = slot1.get_shared_cell(&slot2)?;
        let card1 = cell.cardinal_to_slot(&slot1)?;
        let card2 = cell.cardinal_to_slot(&slot2)?;
        let orientation = Orientation::from_cardinals(card1, card2)?;
        Some(Self { cell, orientation })
    }

    pub fn slot0(&self) -> (r: Slot)
        requires
            cell_within(self.cell, 1),
        ensures
            r == cell_slot(self.cell, orientation_cardinals(self.orientation).0),
    {
        self.cell.get_slot(self.orientation.get_cardinals().0)
    }

    pub fn slot1(&self) -> (r: Slot)
        requires
            cell_within(self.cell, 1),
        ensures
            r == cell_slot(self.cell, orientation_cardinals(self.orientation).1),
    {
        self.cell.get_slot(self.orientation.get_cardinals().1)
    }

    pub fn from_cells(cell1: CellID, cell2: CellID, cell3: CellID) -> (r: Option<Self>)
        requires
            cell_within(cell1, 2),
            cell_within(cell2, 2),
        ensures
            r == (match (cell_shared_slot(cell1, cell2), cell_shared_slot(cell2, cell3)) {
                (Some(s0), Some(s1)) => track_from_slots(s0, s1),
                _ => None,
            }),
    {
        let slot0 = cell1.get_shared_slot(&cell2)?;
        let slot1 = cell2.get_shared_slot(&cell3)?;
        Self::from_slots(slot0, slot1)
    }

    pub fn get_directed(&self, dir: TrackDirection) -> (r: DirectedTrackID)
        ensures
            r == track_directed(*self, dir),
    {
        DirectedTrackID { track: *self, direction: dir }
    }

    pub fn get_directed_to_cardinal(&self, cardinal: Cardinal) -> (r: Option<DirectedTrackID>)
        ensures
            r == track_directed_to_cardinal(*self, cardinal),
    {
        Some(DirectedTrackID { track: *self, direction: self.orientation.get_direction_to(cardinal)? })
    }

    pub fn get_directed_to_slot(&self, slot: Slot) -> (r: Option<DirectedTrackID>)
        requires
            cell_within(slot.cell, 1),
        ensures
            r == track_directed_to_slot(*self, slot),
    {
        let cardinal = self.cell.cardinal_to_slot(&slot)?;
        self.get_directed_to_cardinal(cardinal)
    }

    pub fn get_connection_to(&self, other: TrackID) -> (r: Option<TrackConnectionID>)
        ensures
            r == track_connection_to(*self, other),
    {
        let cardinal = self.cell.cardinal_to(&other.cell)?;
        let track1 = self.get_directed_to_cardinal(cardinal)?;
        let track2 = other.get_directed_to_cardinal(cardinal.opposite())?;
        Some(TrackConnectionID::new(track1, track2))
    }

    pub fn dirtracks(&self) -> (r: [DirectedTrackID; 2])
        ensures
            r@ == seq![track_directed(*self, TrackDirection::First), track_directed(*self, TrackDirection::Last)],
    {
        let r = [self.get_directed(TrackDirection::First), self.get_directed(TrackDirection::Last)];
        assert(r@ =~= seq![track_directed(*self, TrackDirection::First), track_directed(*self, TrackDirection::Last)]);
        r
    }

    pub fn logical_tracks(&self) -> (r: [LogicalTrackID; 4])
        ensures
            r@ == seq![
                LogicalTrackID { dirtrack: track_directed(*self, TrackDirection::First), facing: Facing::Forward },
                LogicalTrackID { dirtrack: track_directed(*self, TrackDirection::First), facing: Facing::Backward },
                LogicalTrackID { dirtrack: track_directed(*self, TrackDirection::Last), facing: Facing::Forward },
                LogicalTrackID { dirtrack: track_directed(*self, TrackDirection::Last), facing: Facing::Backward },
            ],
    {
        let first = self.get_directed(TrackDirection::First);
        let last = self.get_directed(TrackDirection::Last);
        let r = [
            first.get_logical(Facing::Forward),
            first.get_logical(Facing::Backward),
            last.get_logical(Facing::Forward),
            last.get_logical(Facing::Backward),
        ];
        assert(r@ =~= seq![
            LogicalTrackID { dirtrack: track_directed(*self, TrackDirection::First), facing: Facing::Forward },
            LogicalTrackID { dirtrack: track_directed(*self, TrackDirection::First), facing: Facing::Backward },
            LogicalTrackID { dirtrack: track_directed(*self, TrackDirection::Last), facing: Facing::Forward },
            LogicalTrackID { dirtrack: track_directed(*self, TrackDirection::Last), facing: Facing::Backward },
        ]);
        r
    }

    /// The tracks that collide with this one (itself included), each once.
    pub fn colliding_tracks(&self) -> (r: Vec<TrackID>)
        ensures
            r@.no_duplicates(),
            forall|u: TrackID| r@.contains(u) <==> track_collides(*self, u),
            forall|u: TrackID| r@.contains(u) <==> (shares_end(*self, u) || crossing_straights(*self, u)),
    {
        proof {
            assert forall|u: TrackID| track_collides(*self, u) <==> (shares_end(*self, u) || crossing_straights(*self, u)) by {
                lemma_collides_iff_shares_end(*self, u);
            }
        }
        let all = [Orientation::NS, Orientation::NE, Orientation::NW, Orientation::SE,
            Orientation::SW, Orientation::EW];
        let (a, b) = self.orientation.get_cardinals();
        let mut r: Vec<TrackID> = Vec::new();
        let mut i: usize = 0;
        while i < 6
            invariant
                0 <= i <= 6,
                all@ == seq![Orientation::NS, Orientation::NE, Orientation::NW, Orientation::SE,
                    Orientation::SW, Orientation::EW],
                (a, b) == orientation_cardinals(self.orientation),
                r@.no_duplicates(),
                forall|k: int| 0 <= k < r@.len() ==> track_collides(*self, #[trigger] r@[k]) && orientation_rank(r@[k].orientation) < i,
                forall|v: TrackID| track_collides(*self, v) && orientation_rank(v.orientation) < i ==> r@.contains(v),
            decreases 6 - i,
        {
            let o = all[i];
            let ghost before = r@;
            assert(orientation_rank(o) == i);
            let (c, d) = o.get_cardinals();
            let u = TrackID { cell: self.cell, orientation: o };
            if a == c || a == d || b == c || b == d || (self.orientation == Orientation::EW && o
                == Orientation::NS) || (self.orientation == Orientation::NS && o == Orientation::EW) {
                proof {
                    assert forall|k: int| 0 <= k < r@.len() implies r@[k] != u by {
                        assert(orientation_rank(r@[k].orientation) < i);
                    }
                }
                r.push(u);
            }
            proof {
                assert forall|k: int| 0 <= k < r@.len() implies track_collides(*self, #[trigger] r@[k]) && orientation_rank(r@[k].orientation) < i + 1 by {
                    if k < before.len() {
                        assert(r@[k] == before[k]);
                    }
                }
                assert forall|v: TrackID| track_collides(*self, v) && orientation_rank(v.orientation) < i + 1 implies r@.contains(v) by {
                    if orientation_rank(v.orientation) == i {
                        assert(v.orientation == o);
                        assert(v == u);
                        assert(r@.last() == u);
                    } else {
                        assert(before.contains(v));
                        let k = choose|k: int| 0 <= k < before.len() && before[k] == v;
                        assert(r@[k] == v);
                    }
                }
            }
            i = i + 1;
        }
        r
    }
}

impl LogicalTrackID {
    pub fn new(dirtrack: DirectedTrackID, facing: Facing) -> (r: Self)
        ensures
            r == (LogicalTrackID { dirtrack, facing }),
    {
        Self { dirtrack, facing }
    }

    pub fn cell(&self) -> (r: CellID)
        ensures
            r == self.dirtrack.track.cell,
    {
        self.dirtrack.track.cell
    }

    pub fn reversed(&self) -> (r: LogicalTrackID)
        ensures
            r == logical_reversed(*self),
    {
        LogicalTrackID { dirtrack: self.dirtrack.opposite(), facing: self.facing.opposite() }
    }

    pub fn track(&self) -> (r: TrackID)
        ensures
            r == self.dirtrack.track,
    {
        self.dirtrack.track
    }

    pub fn discriminator(&self) -> (r: LogicalDiscriminator)
        ensures
            r == (LogicalDiscriminator { direction: self.dirtrack.direction, facing: self.facing }),
    {
        LogicalDiscriminator { direction: self.dirtrack.direction, facing: self.facing }
    }

    pub fn is_default(&self) -> (r: bool)
        ensures
            r == (self.facing == Facing::Forward && self.dirtrack.direction == TrackDirection::First),
    {
        self.facing == Facing::Forward && self.dirtrack.direction == TrackDirection::First
    }
}

pub open spec fn logical_reversed(t: LogicalTrackID) -> LogicalTrackID {
    LogicalTrackID { dirtrack: dirtrack_opposite(t.dirtrack), facing: facing_opposite(t.facing) }
}

// ---------------------------------------------------------------------------
// Connections
// ---------------------------------------------------------------------------

#[derive(Clone, Copy, PartialEq, Eq, Debug, Hash, PartialOrd, Ord, Structural)]
pub enum ConnectionDirection {
    Aligned,
    Opposite,
}

/// A physical link between two tracks; both directed tracks point at the link.
#[derive(Clone, Copy, PartialEq, Eq, Debug, Hash, PartialOrd, Ord, Structural)]
pub struct TrackConnectionID {
    pub track_a: DirectedTrackID,
    pub track_b: DirectedTrackID,
}

#[derive(Clone, Copy, PartialEq, Eq, Debug, Hash, PartialOrd, Ord, Structural)]
pub struct DirectedTrackConnectionID {
    pub from_track: DirectedTrackID,
    pub to_track: DirectedTrackID,
}

#[derive(Clone, Copy, PartialEq, Eq, Debug, Hash, PartialOrd, Ord, Structural)]
pub struct LogicalTrackConnectionID {
    pub from_track: LogicalTrackID,
    pub to_track: LogicalTrackID,
}

#[derive(Clone, Copy, PartialEq, Eq, Debug, Hash, Structural)]
pub struct DirectedConnectionShape {
    pub orientation: Orientation,
    pub direction: TrackDirection,
    pub turn: SwitchPosition,
    pub is_portal: bool,
}

pub open spec fn connection_to_directed(c: TrackConnectionID, d: ConnectionDirection) -> DirectedTrackConnectionID {
    match d {
        ConnectionDirection::Aligned => DirectedTrackConnectionID {
            from_track: c.track_a,
            to_track: dirtrack_opposite(c.track_b),
        },
        ConnectionDirection::Opposite => DirectedTrackConnectionID {
            from_track: c.track_b,
            to_track: dirtrack_opposite(c.track_a),
        },
    }
}

pub open spec fn directed_flips_facing(c: DirectedTrackConnectionID) -> bool {
    c.from_track == dirtrack_opposite(c.to_track)
}

pub open spec fn directed_is_continuous(c: DirectedTrackConnectionID) -> bool {
    dirtrack_to_slot(c.from_track) == dirtrack_from_slot(c.to_track) && !directed_flips_facing(c)
}

pub open spec fn directed_to_logical(c: DirectedTrackConnectionID, f: Facing) -> LogicalTrackConnectionID {
    LogicalTrackConnectionID {
        from_track: LogicalTrackID { dirtrack: c.from_track, facing: f },
        to_track: LogicalTrackID {
            dirtrack: c.to_track,
            facing: if directed_flips_facing(c) { facing_opposite(f) } else { f },
        },
    }
}

pub open spec fn directed_to_connection(c: DirectedTrackConnectionID) -> TrackConnectionID {
    TrackConnectionID { track_a: c.from_track, track_b: dirtrack_opposite(c.to_track) }
}

pub open spec fn directed_opposite(c: DirectedTrackConnectionID) -> DirectedTrackConnectionID {
    DirectedTrackConnectionID {
        from_track: dirtrack_opposite(c.to_track),
        to_track: dirtrack_opposite(c.from_track),
    }
}

pub open spec fn directed_switch_position(c: DirectedTrackConnectionID) -> SwitchPosition {
    if !directed_is_continuous(c) {
        switch_position_opposite(dirtrack_switch_position(c.from_track))
    } else {
        dirtrack_switch_position(c.to_track)
    }
}

pub open spec fn directed_curve_index(c: DirectedTrackConnectionID) -> int {
    if !directed_is_continuous(c) {
        0
    } else {
        ((dir_index(c.to_track) - dir_index(c.from_track) + 12) % 8) - 4
    }
}

/// The order `derive(Ord)` gives directed tracks: by track, then First before Last.
pub open spec fn dirtrack_lt(a: DirectedTrackID, b: DirectedTrackID) -> bool {
    track_lt(a.track, b.track) || (a.track == b.track && a.direction == TrackDirection::First
        && b.direction == TrackDirection::Last)
}

/// A connection as it is stored: its two directed tracks sorted.
pub open spec fn connection_new(a: DirectedTrackID, b: DirectedTrackID) -> TrackConnectionID {
    if dirtrack_lt(a, b) {
        TrackConnectionID { track_a: a, track_b: b }
    } else {
        TrackConnectionID { track_a: b, track_b: a }
    }
}

/// A connection whose tracks are sorted, `track_a <= track_b`.
pub open spec fn connection_sorted(c: TrackConnectionID) -> bool {
    dirtrack_lt(c.track_a, c.track_b) || c.track_a == c.track_b
}

impl TrackConnectionID {
    /// The connection between two directed tracks, stored sorted
    /// (`track_a < track_b`).
    pub fn new(track_a: DirectedTrackID, track_b: DirectedTrackID) -> (r: Self)
        ensures
            r == connection_new(track_a, track_b),
    {
        if track_a.less_than(&track_b) {
            Self { track_a, track_b }
        } else {
            Self { track_a: track_b, track_b: track_a }
        }
    }

    pub fn tracks(&self) -> (r: [DirectedTrackID; 2])
        ensures
            r@ == seq![self.track_a, self.track_b],
    {
        let r = [self.track_a, self.track_b];
        assert(r@ =~= seq![self.track_a, self.track_b]);
        r
    }

    pub fn track_a(&self) -> (r: DirectedTrackID)
        ensures
            r == self.track_a,
    {
        self.track_a
    }

    pub fn track_b(&self) -> (r: DirectedTrackID)
        ensures
            r == self.track_b,
    {
        self.track_b
    }

    pub fn flips_facing(&self) -> (r: bool)
        ensures
            r == (self.track_a == self.track_b),
    {
        self.track_a == self.track_b
    }

    pub fn is_continuous(&self) -> (r: bool)
        requires
            cell_within(self.track_a.track.cell, 1),
            cell_within(self.track_b.track.cell, 1),
        ensures
            r == (dirtrack_to_slot(self.track_a) == dirtrack_to_slot(self.track_b) && self.track_a
                != self.track_b),
    {
        self.track_a.to_slot() == self.track_b.to_slot() && !self.flips_facing()
    }

    pub fn to_directed(&self, dir: ConnectionDirection) -> (r: DirectedTrackConnectionID)
        ensures
            r == connection_to_directed(*self, dir),
    {
        match dir {
            ConnectionDirection::Aligned => DirectedTrackConnectionID {
                from_track: self.track_a,
                to_track: self.track_b.opposite(),
            },
            ConnectionDirection::Opposite => DirectedTrackConnectionID {
                from_track: self.track_b,
                to_track: self.track_a.opposite(),
            },
        }
    }

    pub fn directed_connections(&self) -> (r: [DirectedTrackConnectionID; 2])
        ensures
            r@ == seq![
                connection_to_directed(*self, ConnectionDirection::Aligned),
                connection_to_directed(*self, ConnectionDirection::Opposite),
            ],
    {
        let r = [self.to_directed(ConnectionDirection::Aligned), self.to_directed(ConnectionDirection::Opposite)];
        assert(r@ =~= seq![
            connection_to_directed(*self, ConnectionDirection::Aligned),
            connection_to_directed(*self, ConnectionDirection::Opposite),
        ]);
        r
    }

    pub fn logical_connections(&self) -> (r: [LogicalTrackConnectionID; 4])
        ensures
            r@ == seq![
                directed_to_logical(connection_to_directed(*self, ConnectionDirection::Aligned), Facing::Forward),
                directed_to_logical(connection_to_directed(*self, ConnectionDirection::Aligned), Facing::Backward),
                directed_to_logical(connection_to_directed(*self, ConnectionDirection::Opposite), Facing::Forward),
                directed_to_logical(connection_to_directed(*self, ConnectionDirection::Opposite), Facing::Backward),
            ],
    {
        let aligned = self.to_directed(ConnectionDirection::Aligned);
        let opposite = self.to_directed(ConnectionDirection::Opposite);
        let r = [
            aligned.to_logical(Facing::Forward),
            aligned.to_logical(Facing::Backward),
            opposite.to_logical(Facing::Forward),
            opposite.to_logical(Facing::Backward),
        ];
        assert(r@ =~= seq![
            directed_to_logical(connection_to_directed(*self, ConnectionDirection::Aligned), Facing::Forward),
            directed_to_logical(connection_to_directed(*self, ConnectionDirection::Aligned), Facing::Backward),
            directed_to_logical(connection_to_directed(*self, ConnectionDirection::Opposite), Facing::Forward),
            directed_to_logical(connection_to_directed(*self, ConnectionDirection::Opposite), Facing::Backward),
        ]);
        r
    }
}

impl DirectedTrackConnectionID {
    pub fn new(from_track: DirectedTrackID, to_track: DirectedTrackID) -> (r: Self)
        ensures
            r == (DirectedTrackConnectionID { from_track, to_track }),
    {
        Self { from_track, to_track }
    }

    pub fn flips_facing(&self) -> (r: bool)
        ensures
            r == directed_flips_facing(*self),
    {
        self.from_track == self.to_track.opposite()
    }

    pub fn is_continuous(&self) -> (r: bool)
        requires
            cell_within(self.from_track.track.cell, 1),
            cell_within(self.to_track.track.cell, 1),
        ensures
            r == directed_is_continuous(*self),
    {
        self.from_track.to_slot() == self.to_track.from_slot() && !self.flips_facing()
    }

    pub fn curve_index(&self) -> (r: i32)
        requires
            cell_within(self.from_track.track.cell, 1),
            cell_within(self.to_track.track.cell, 1),
        ensures
            r == directed_curve_index(*self),
    {
        if !self.is_continuous() {
            return 0;
        }
        ((self.to_track.dir_index() - self.from_track.dir_index() + 12) % 8) - 4
    }

    pub fn to_logical(&self, from_facing: Facing) -> (r: LogicalTrackConnectionID)
        ensures
            r == directed_to_logical(*self, from_facing),
    {
        let to_facing = if self.flips_facing() { from_facing.opposite() } else { from_facing };
        LogicalTrackConnectionID {
            from_track: self.from_track.get_logical(from_facing),
            to_track: self.to_track.get_logical(to_facing),
        }
    }

    pub fn to_connection(&self) -> (r: TrackConnectionID)
        ensures
            r == directed_to_connection(*self),
    {
        TrackConnectionID { track_a: self.from_track, track_b: self.to_track.opposite() }
    }

    pub fn get_switch_position(&self) -> (r: SwitchPosition)
        requires
            cell_within(self.from_track.track.cell, 1),
            cell_within(self.to_track.track.cell, 1),
        ensures
            r == directed_switch_position(*self),
    {
        if !self.is_continuous() {
            self.from_track.get_switch_position().opposite()
        } else {
            self.to_track.get_switch_position()
        }
    }

    pub fn opposite(&self) -> (r: Self)
        ensures
            r == directed_opposite(*self),
    {
        Self { from_track: self.to_track.opposite(), to_track: self.from_track.opposite() }
    }

    pub fn shape_id(&self) -> (r: DirectedConnectionShape)
        requires
            cell_within(self.from_track.track.cell, 1),
            cell_within(self.to_track.track.cell, 1),
        ensures
            r == (DirectedConnectionShape {
                orientation: self.from_track.track.orientation,
                direction: self.from_track.direction,
                turn: directed_switch_position(*self),
                is_portal: !directed_is_continuous(*self),
            }),
    {
        DirectedConnectionShape {
            orientation: self.from_track.track.orientation,
            direction: self.from_track.direction,
            turn: self.get_switch_position(),
            is_portal: !self.is_continuous(),
        }
    }
}

impl DirectedConnectionShape {
    pub fn to_connection(&self, cell: CellID) -> (r: DirectedTrackConnectionID)
        requires
            cell_within(cell, 1),
        ensures
            ({
                let d = DirectedTrackID {
                    track: TrackID { cell, orientation: self.orientation },
                    direction: self.direction,
                };
                r == DirectedTrackConnectionID { from_track: d, to_track: dirtrack_next(d, self.turn) }
            }),
    {
        let directed_track = DirectedTrackID {
            track: TrackID { cell, orientation: self.orientation },
            direction: self.direction,
        };
        DirectedTrackConnectionID {
            from_track: directed_track,
            to_track: directed_track.get_next_track(&self.turn),
        }
    }
}

impl LogicalTrackConnectionID {
    pub fn new(from_track: LogicalTrackID, to_track: LogicalTrackID) -> (r: Self)
        ensures
            r == (LogicalTrackConnectionID { from_track, to_track }),
    {
        Self { from_track, to_track }
    }

    pub fn to_directed(&self) -> (r: DirectedTrackConnectionID)
        ensures
            r == (DirectedTrackConnectionID {
                from_track: self.from_track.dirtrack,
                to_track: self.to_track.dirtrack,
            }),
    {
        DirectedTrackConnectionID { from_track: self.from_track.dirtrack, to_track: self.to_track.dirtrack }
    }
}

// ---------------------------------------------------------------------------
// Blocks
// ---------------------------------------------------------------------------

/// A block, named by its two end tracks pointing out of it; the end in the
/// smaller cell comes first.
#[derive(Clone, Copy, PartialEq, Eq, Debug, Hash, PartialOrd, Ord, Structural)]
pub struct BlockID {
    pub track1: DirectedTrackID,
    pub track2: DirectedTrackID,
}

#[derive(Clone, Copy, PartialEq, Eq, Debug, Hash, PartialOrd, Ord, Structural)]
pub struct LogicalBlockID {
    pub block: BlockID,
    pub direction: BlockDirection,
    pub facing: Facing,
}

pub open spec fn block_new(t1: DirectedTrackID, t2: DirectedTrackID) -> BlockID {
    if cell_lt(t2.track.cell, t1.track.cell) {
        BlockID { track1: t2, track2: t1 }
    } else {
        BlockID { track1: t1, track2: t2 }
    }
}

/// The logical track on which a train that has fully entered the logical
/// block sits when it stops there.
pub open spec fn default_in_marker_track(b: LogicalBlockID) -> LogicalTrackID {
    match (b.direction, b.facing) {
        (BlockDirection::Aligned, Facing::Forward) => LogicalTrackID {
            dirtrack: dirtrack_opposite(b.block.track2),
            facing: Facing::Forward,
        },
        (BlockDirection::Aligned, Facing::Backward) => LogicalTrackID {
            dirtrack: b.block.track1,
            facing: Facing::Backward,
        },
        (BlockDirection::Opposite, Facing::Forward) => LogicalTrackID {
            dirtrack: dirtrack_opposite(b.block.track1),
            facing: Facing::Forward,
        },
        (BlockDirection::Opposite, Facing::Backward) => LogicalTrackID {
            dirtrack: b.block.track2,
            facing: Facing::Backward,
        },
    }
}

impl BlockID {
    pub fn new(track1: DirectedTrackID, track2: DirectedTrackID) -> (r: Self)
        ensures
            r == block_new(track1, track2),
    {
        if track2.cell().less_than(&track1.cell()) {
            Self { track1: track2, track2: track1 }
        } else {
            Self { track1, track2 }
        }
    }

    pub fn to_logical(&self, dir: BlockDirection, facing: Facing) -> (r: LogicalBlockID)
        ensures
            r == (LogicalBlockID { block: *self, direction: dir, facing }),
    {
        LogicalBlockID { block: *self, direction: dir, facing }
    }

    pub fn logical_block_ids(&self) -> (r: [LogicalBlockID; 4])
        ensures
            r@ == seq![
                LogicalBlockID { block: *self, direction: BlockDirection::Aligned, facing: Facing::Forward },
                LogicalBlockID { block: *self, direction: BlockDirection::Aligned, facing: Facing::Backward },
                LogicalBlockID { block: *self, direction: BlockDirection::Opposite, facing: Facing::Forward },
                LogicalBlockID { block: *self, direction: BlockDirection::Opposite, facing: Facing::Backward },
            ],
    {
        let r = [
            self.to_logical(BlockDirection::Aligned, Facing::Forward),
            self.to_logical(BlockDirection::Aligned, Facing::Backward),
            self.to_logical(BlockDirection::Opposite, Facing::Forward),
            self.to_logical(BlockDirection::Opposite, Facing::Backward),
        ];
        assert(r@ =~= seq![
            LogicalBlockID { block: *self, direction: BlockDirection::Aligned, facing: Facing::Forward },
            LogicalBlockID { block: *self, direction: BlockDirection::Aligned, facing: Facing::Backward },
            LogicalBlockID { block: *self, direction: BlockDirection::Opposite, facing: Facing::Forward },
            LogicalBlockID { block: *self, direction: BlockDirection::Opposite, facing: Facing::Backward },
        ]);
        r
    }
}

impl LogicalBlockID {
    pub fn default_in_marker_track(&self) -> (r: LogicalTrackID)
        ensures
            r == default_in_marker_track(*self),
    {
        match (self.direction, self.facing) {
            (BlockDirection::Aligned, Facing::Forward) => self.block.track2.opposite().get_logical(Facing::Forward),
            (BlockDirection::Aligned, Facing::Backward) => self.block.track1.get_logical(Facing::Backward),
            (BlockDirection::Opposite, Facing::Forward) => self.block.track1.opposite().get_logical(Facing::Forward),
            (BlockDirection::Opposite, Facing::Backward) => self.block.track2.get_logical(Facing::Backward),
        }
    }
}


// ---------------------------------------------------------------------------
// Laws of the grid geometry
// ---------------------------------------------------------------------------

/// Turning around twice leaves a directed track, a logical track, a directed
/// connection and a cardinal unchanged.
pub proof fn lemma_opposites_involutive(d: DirectedTrackID, t: LogicalTrackID, c: DirectedTrackConnectionID, k: Cardinal)
    ensures
        dirtrack_opposite(dirtrack_opposite(d)) == d,
        logical_reversed(logical_reversed(t)) == t,
        directed_opposite(directed_opposite(c)) == c,
        cardinal_opposite(cardinal_opposite(k)) == k,
{
}

/// A neighbour lies in the direction it was taken in, and the two cells name
/// the same slot between them from either side.
pub proof fn lemma_neighbor_slot(c: CellID, d: Cardinal)
    requires
        cell_within(c, 1),
    ensures
        cell_cardinal_to(c, cell_neighbor(c, d)) == Some(d),
        cell_cardinal_to(cell_neighbor(c, d), c) == Some(cardinal_opposite(d)),
        cell_shared_slot(c, cell_neighbor(c, d)) == Some(cell_slot(c, d)),
        cell_slot(c, d) == cell_slot(cell_neighbor(c, d), cardinal_opposite(d)),
{
}

/// A cell two steps away shares no slot with the start cell.
pub proof fn lemma_no_slot_two_apart(c: CellID, d: Cardinal)
    requires
        cell_within(c, 2),
    ensures
        cell_shared_slot(c, cell_neighbor(cell_neighbor(c, d), d)) == None::<Slot>,
{
}

/// Whether two slots can carry one track does not depend on their order.
pub proof fn lemma_can_connect_symmetric(a: Slot, b: Slot)
    requires
        cell_within(a.cell, 1),
        cell_within(b.cell, 1),
    ensures
        slot_can_connect(a, b) == slot_can_connect(b, a),
{
}

/// An orientation is the one its two cardinals make, in either order.
pub proof fn lemma_orientation_pair(o: Orientation, c1: Cardinal, c2: Cardinal)
    ensures
        orientation_of_pair(orientation_cardinals(o).0, orientation_cardinals(o).1) == Some(o),
        orientation_of_pair(c1, c2) == orientation_of_pair(c2, c1),
{
}

/// Going on from a track with the switch at `p` lands on a track whose own
/// switch position is `p`; the new track starts where the old one ended.
pub proof fn lemma_next_track_switch_position(d: DirectedTrackID, p: SwitchPosition)
    requires
        cell_within(d.track.cell, 1),
    ensures
        dirtrack_switch_position(dirtrack_next(d, p)) == p,
        dirtrack_from_cardinal(dirtrack_next(d, p)) == cardinal_opposite(dirtrack_to_cardinal(d)),
        dirtrack_next(d, p).track.cell == cell_neighbor(d.track.cell, dirtrack_to_cardinal(d)),
{
}

/// A track connection comes back from either of its directed forms, and the
/// two directed forms are each other's opposite.
pub proof fn lemma_connection_directions(c: TrackConnectionID)
    ensures
        directed_to_connection(connection_to_directed(c, ConnectionDirection::Aligned)) == c,
        directed_opposite(connection_to_directed(c, ConnectionDirection::Aligned))
            == connection_to_directed(c, ConnectionDirection::Opposite),
{
}

/// Tracks found by `get_connection_to` point at each other across the shared
/// edge, are stored sorted, and the connection found from either side is the same.
pub proof fn lemma_connection_to_faces(a: TrackID, b: TrackID)
    ensures
        track_connection_to(a, b) matches Some(c) ==> connection_sorted(c)
            && ((c.track_a.track == a && c.track_b.track == b) || (c.track_a.track == b && c.track_b.track == a))
            && dirtrack_to_cardinal(c.track_b) == cardinal_opposite(dirtrack_to_cardinal(c.track_a)),
        track_connection_to(a, b) matches Some(c) ==> cell_cardinal_to(a.cell, b.cell) == Some(
            dirtrack_to_cardinal(if c.track_a.track == a { c.track_a } else { c.track_b }),
        ),
        track_connection_to(a, b) == track_connection_to(b, a),
{
}

/// Naming a block does not depend on the order of its ends when they lie in different cells.
pub proof fn lemma_block_new_symmetric(a: DirectedTrackID, b: DirectedTrackID)
    requires
        a.track.cell != b.track.cell,
    ensures
        block_new(a, b) == block_new(b, a),
        block_new(a, b) == block_new(block_new(a, b).track1, block_new(a, b).track2),
{
}

/// Collision between tracks is symmetric and every track collides with itself.
pub proof fn lemma_collides_symmetric(t: TrackID, u: TrackID)
    ensures
        track_collides(t, u) == track_collides(u, t),
        track_collides(t, t),
{
}

impl crate::keyed::Key for LogicalTrackID {
    fn same(&self, other: &Self) -> (r: bool) {
        *self == *other
    }
}

impl crate::keyed::Key for TrackID {
    fn same(&self, other: &Self) -> (r: bool) {
        *self == *other
    }
}

impl crate::keyed::Key for DirectedTrackID {
    fn same(&self, other: &Self) -> (r: bool) {
        *self == *other
    }
}

impl crate::keyed::Key for DirectedTrackConnectionID {
    fn same(&self, other: &Self) -> (r: bool) {
        *self == *other
    }
}

impl crate::keyed::Key for BlockID {
    fn same(&self, other: &Self) -> (r: bool) {
        *self == *other
    }
}

impl crate::keyed::Key for LogicalBlockID {
    fn same(&self, other: &Self) -> (r: bool) {
        *self == *other
    }
}

impl crate::keyed::Key for TrainID {
    fn same(&self, other: &Self) -> (r: bool) {
        *self == *other
    }
}

impl crate::keyed::Key for WagonID {
    fn same(&self, other: &Self) -> (r: bool) {
        *self == *other
    }
}

impl crate::keyed::Key for HubID {
    fn same(&self, other: &Self) -> (r: bool) {
        *self == *other
    }
}

impl crate::keyed::Key for LayoutDeviceID {
    fn same(&self, other: &Self) -> (r: bool) {
        *self == *other
    }
}

impl crate::keyed::Key for DestinationID {
    fn same(&self, other: &Self) -> (r: bool) {
        *self == *other
    }
}

impl crate::keyed::Key for ScheduleID {
    fn same(&self, other: &Self) -> (r: bool) {
        *self == *other
    }
}

/// Going left at a switch turns the train a quarter turn counter-clockwise,
/// going right a quarter turn clockwise, and the centre goes straight on:
/// the track followed leaves the next cell that way, having entered it
/// from the cell the train came from.
pub proof fn lemma_next_track_turns(d: DirectedTrackID)
    ensures
        dirtrack_to_cardinal(dirtrack_next(d, SwitchPosition::Center)) == dirtrack_to_cardinal(d),
        quarter_turn_ccw(dirtrack_to_cardinal(d), dirtrack_to_cardinal(dirtrack_next(d, SwitchPosition::Left))),
        quarter_turn_ccw(dirtrack_to_cardinal(dirtrack_next(d, SwitchPosition::Right)), dirtrack_to_cardinal(d)),
        forall|p: SwitchPosition| dirtrack_from_cardinal(#[trigger] dirtrack_next(d, p)) == cardinal_opposite(dirtrack_to_cardinal(d)),
{
}

/// A track that leaves its cell a quarter turn counter-clockwise from
/// straight ahead needs the switch at its entry set left, one a quarter turn
/// clockwise needs it set right, and the straight track needs the centre.
pub proof fn lemma_switch_position_handedness(d: DirectedTrackID)
    ensures
        dirtrack_to_cardinal(d) == cardinal_opposite(dirtrack_from_cardinal(d)) ==> dirtrack_switch_position(d)
            == SwitchPosition::Center,
        quarter_turn_ccw(cardinal_opposite(dirtrack_from_cardinal(d)), dirtrack_to_cardinal(d))
            ==> dirtrack_switch_position(d) == SwitchPosition::Left,
        quarter_turn_ccw(dirtrack_to_cardinal(d), cardinal_opposite(dirtrack_from_cardinal(d)))
            ==> dirtrack_switch_position(d) == SwitchPosition::Right,
{
}

/// Two tracks collide exactly when they lie in the same cell and share an
/// end there, or are the two straights crossing that cell; in particular a
/// track collides with every branch of a switch it shares an end with.
pub proof fn lemma_collides_iff_shares_end(t: TrackID, u: TrackID)
    ensures
        track_collides(t, u) <==> (shares_end(t, u) || crossing_straights(t, u)),
        shares_end(t, u) ==> track_collides(t, u),
{
    if track_collides(t, u) && !crossing_straights(t, u) {
        let (a, b) = orientation_cardinals(t.orientation);
        let (c, d) = orientation_cardinals(u.orientation);
        if a == c {
            assert(orientation_cardinal(t.orientation, TrackDirection::First) == orientation_cardinal(u.orientation, TrackDirection::First));
        } else if a == d {
            assert(orientation_cardinal(t.orientation, TrackDirection::First) == orientation_cardinal(u.orientation, TrackDirection::Last));
        } else if b == c {
            assert(orientation_cardinal(t.orientation, TrackDirection::Last) == orientation_cardinal(u.orientation, TrackDirection::First));
        } else if b == d {
            assert(orientation_cardinal(t.orientation, TrackDirection::Last) == orientation_cardinal(u.orientation, TrackDirection::Last));
        }
    }
    if shares_end(t, u) {
        let (dt, du) = choose|dt: TrackDirection, du: TrackDirection| orientation_cardinal(t.orientation, dt)
            == orientation_cardinal(u.orientation, du);
        assert(orientation_cardinal(t.orientation, dt) == orientation_cardinal(u.orientation, du));
    }
}

} // verus!
