//! What the editor can point at: a generic identifier over every kind of
//! layout element, the current selection, and the hover filter.
use vstd::prelude::*;
use crate::layout::EntityMap;
use crate::layout_display::{
    block_display, connection_display, dirtrack_display, hub_display, logical_display, track_display,
};
use crate::layout_primitives::{
    BlockID, CellID, DestinationID, DirectedTrackID, HubID, LayoutDeviceID, LayoutDeviceType,
    LogicalTrackID, ScheduleID, TrackConnectionID, TrackID, TrainID,
};
use crate::block::opposite_tracks;
use crate::connections::Connections;
use crate::layout_primitives::TrackDirection;
use crate::section::{push_track_result, DirectedSection};
use crate::text::{chars_to_string, int_chars, nat_digits, push_int, push_str, push_usize};

verus! {

/// Any element of the layout the editor can select.
#[derive(Clone, Copy, PartialEq, Eq, Debug, Hash, Structural)]
pub enum GenericID {
    Cell(CellID),
    Track(TrackID),
    LogicalTrack(LogicalTrackID),
    Block(BlockID),
    Train(TrainID),
    Switch(DirectedTrackID),
    Crossing(TrackID),
    TrackConnection(TrackConnectionID),
    Marker(TrackID),
    Hub(HubID),
    Destination(DestinationID),
    Schedule(ScheduleID),
    LayoutDevice(LayoutDeviceID),
}

/// The debug form of a cell: `CellID { x: .., y: .., l: .. }`.
pub open spec fn cell_debug(c: CellID) -> Seq<char> {
    "CellID { x: "@ + int_chars(c.x as int) + ", y: "@ + int_chars(c.y as int) + ", l: "@ + int_chars(c.l as int) + " }"@
}

/// The debug form of a layout device: `LayoutDeviceID { id: .., kind: .. }`.
pub open spec fn device_debug(d: LayoutDeviceID) -> Seq<char> {
    "LayoutDeviceID { id: "@ + nat_digits(d.id as nat) + ", kind: "@ + match d.kind {
        LayoutDeviceType::PulseMotor => "PulseMotor"@,
        LayoutDeviceType::Signal => "Signal"@,
    } + " }"@
}

pub open spec fn destination_display(d: DestinationID) -> Seq<char> {
    match d {
        DestinationID::Random => "Random destination"@,
        DestinationID::Specific(id) => "Destination"@ + nat_digits(id as nat),
    }
}

/// The text the editor shows for an element.
pub open spec fn generic_display(g: GenericID) -> Seq<char> {
    match g {
        GenericID::Cell(c) => cell_debug(c),
        GenericID::LayoutDevice(d) => device_debug(d),
        GenericID::Track(t) => track_display(t),
        GenericID::LogicalTrack(t) => logical_display(t),
        GenericID::Block(b) => block_display(b),
        GenericID::Train(t) => "Train"@ + nat_digits(t.id as nat),
        GenericID::Switch(d) => "Switch("@ + dirtrack_display(d) + ")"@,
        GenericID::TrackConnection(c) => connection_display(c),
        GenericID::Marker(t) => "Marker("@ + track_display(t) + ")"@,
        GenericID::Hub(h) => hub_display(h),
        GenericID::Destination(d) => destination_display(d),
        GenericID::Schedule(s) => "Schedule"@ + nat_digits(s.id as nat),
        GenericID::Crossing(t) => "Crossing("@ + track_display(t) + ")"@,
    }
}

/// Appends the characters of `s` to `out`.
fn push_string(out: &mut Vec<char>, s: &String)
    ensures
        final(out)@ == old(out)@ + s@,
{
    push_str(out, s.as_str());
}

impl GenericID {
    /// Whether the element carries a name the user may edit: every kind but
    /// hubs and tracks.
    pub fn editable_name(&self) -> (r: bool)
        ensures
            r == !(*self is Hub || *self is Track),
    {
        match self {
            GenericID::Hub(_) => false,
            GenericID::Track(_) => false,
            _ => true,
        }
    }

    pub fn to_string(&self) -> (r: String)
        ensures
            r@ == generic_display(*self),
    {
        let mut v: Vec<char> = Vec::new();
        match self {
            GenericID::Cell(c) => {
                push_str(&mut v, "CellID { x: ");
                push_int(&mut v, c.x);
                push_str(&mut v, ", y: ");
                push_int(&mut v, c.y);
                push_str(&mut v, ", l: ");
                push_int(&mut v, c.l);
                push_str(&mut v, " }");
            },
            GenericID::LayoutDevice(d) => {
                push_str(&mut v, "LayoutDeviceID { id: ");
                push_usize(&mut v, d.id);
                push_str(&mut v, ", kind: ");
                match d.kind {
                    LayoutDeviceType::PulseMotor => push_str(&mut v, "PulseMotor"),
                    LayoutDeviceType::Signal => push_str(&mut v, "Signal"),
                }
                push_str(&mut v, " }");
            },
            GenericID::Track(t) => push_string(&mut v, &t.to_string()),
            GenericID::LogicalTrack(t) => push_string(&mut v, &t.to_string()),
            GenericID::Block(b) => push_string(&mut v, &b.to_string()),
            GenericID::Train(t) => push_string(&mut v, &t.to_string()),
            GenericID::Switch(d) => {
                push_str(&mut v, "Switch(");
                push_string(&mut v, &d.to_string());
                push_str(&mut v, ")");
            },
            GenericID::TrackConnection(c) => push_string(&mut v, &c.to_string()),
            GenericID::Marker(t) => {
                push_str(&mut v, "Marker(");
                push_string(&mut v, &t.to_string());
                push_str(&mut v, ")");
            },
            GenericID::Hub(h) => push_string(&mut v, &h.to_string()),
            GenericID::Destination(d) => push_string(&mut v, &d.to_string()),
            GenericID::Schedule(s) => push_string(&mut v, &s.to_string()),
            GenericID::Crossing(t) => {
                push_str(&mut v, "Crossing(");
                push_string(&mut v, &t.to_string());
                push_str(&mut v, ")");
            },
        }
        let r = chars_to_string(&v);
        assert(r@ =~= generic_display(*self));
        r
    }
}

/// What the editor has selected.
#[derive(Debug)]
pub enum Selection {
    Nothing,
    Single(GenericID),
    Multi(Vec<GenericID>),
    Section(DirectedSection),
}

impl Default for Selection {
    fn default() -> (r: Self)
        ensures
            r is Nothing,
    {
        Selection::Nothing
    }
}

#[derive(Debug)]
pub struct SelectionState {
    pub selection: Selection,
    pub drag_select: bool,
}

impl SelectionState {
    pub fn new() -> (r: Self)
        ensures
            r.selection is Nothing,
    {
        SelectionState { selection: Selection::Nothing, drag_select: false }
    }

    /// The entity of the selected element, when exactly one element is
    /// selected.
    pub fn get_entity<E: Copy>(&self, entity_map: &EntityMap<E>) -> (r: Option<E>)
        requires
            self.selection matches Selection::Single(id) ==> entity_map.handles(id),
        ensures
            r == match self.selection {
                Selection::Single(id) => entity_map.entity_of(id),
                _ => None,
            },
    {
        match &self.selection {
            Selection::Single(id) => entity_map.get_entity(id),
            _ => None,
        }
    }
}

/// Which elements the pointer may hover.
#[derive(Debug, Clone, Copy, PartialEq, Eq, Structural)]
pub enum HoverFilter {
    All,
    Blocks,
}

impl Default for HoverFilter {
    fn default() -> (r: Self)
        ensures
            r == HoverFilter::All,
    {
        HoverFilter::All
    }
}

impl HoverFilter {
    /// Whether an element passes the filter: anything for `All`, blocks
    /// only for `Blocks`.
    pub fn matches(&self, id: &GenericID) -> (r: bool)
        ensures
            r == (*self == HoverFilter::All || *id is Block),
    {
        match (self, id) {
            (HoverFilter::Blocks, GenericID::Block(_)) => true,
            (HoverFilter::All, _) => true,
            _ => false,
        }
    }
}

/// Whether the pointer is over the editor's panels.
#[derive(Debug, Clone, Copy, PartialEq, Eq, Structural)]
pub struct InputData {
    pub mouse_over_ui: bool,
}

/// What to do once the hubs have disconnected.
#[derive(Debug, Clone, PartialEq, Eq)]
pub enum DisconnectAction {
    NewLayout,
    LoadLayout(String),
    Exit,
    Nothing,
}

#[derive(Debug)]
pub struct EditorInfo {
    pub disconnect_action: DisconnectAction,
}

impl Default for EditorInfo {
    fn default() -> (r: Self)
        ensures
            r.disconnect_action is Nothing,
    {
        EditorInfo { disconnect_action: DisconnectAction::Nothing }
    }
}

/// What the editor is doing.
#[derive(Debug, Clone, Copy, PartialEq, Eq, Hash, Structural)]
pub enum EditorState {
    Edit,
    PreparingDeviceControl,
    DeviceControl,
    VirtualControl,
    Disconnecting,
}

impl Default for EditorState {
    fn default() -> (r: Self)
        ensures
            r == EditorState::Edit,
    {
        EditorState::Edit
    }
}

impl EditorState {
    /// Commands go to the hubs only while the hubs drive the layout.
    pub fn ble_commands_enabled(&self) -> (r: bool)
        ensures
            r == (*self == EditorState::DeviceControl),
    {
        match self {
            EditorState::DeviceControl => true,
            _ => false,
        }
    }
}

/// The editor is controlling trains, on the hubs or virtually.
#[derive(Debug, Clone, Copy, PartialEq, Eq, Hash, Structural)]
pub struct ControlState;

impl ControlState {
    pub fn compute(sources: EditorState) -> (r: Option<ControlState>)
        ensures
            r is Some == (sources == EditorState::VirtualControl || sources == EditorState::DeviceControl),
    {
        match sources {
            EditorState::VirtualControl => Some(ControlState),
            EditorState::DeviceControl => Some(ControlState),
            _ => None,
        }
    }
}

/// How trains are given destinations while controlling.
#[derive(Debug, Clone, Copy, PartialEq, Eq, Hash, Structural)]
pub enum ControlStateMode {
    Manual,
    Random,
    Schedule,
}

impl Default for ControlStateMode {
    fn default() -> (r: Self)
        ensures
            r == ControlStateMode::Manual,
    {
        ControlStateMode::Manual
    }
}

impl ControlStateMode {
    pub fn to_string(&self) -> (r: String)
        ensures
            r@ == match *self {
                ControlStateMode::Manual => "Manual"@,
                ControlStateMode::Random => "Random"@,
                ControlStateMode::Schedule => "Schedule"@,
            },
    {
        let mut v: Vec<char> = Vec::new();
        match self {
            ControlStateMode::Manual => push_str(&mut v, "Manual"),
            ControlStateMode::Random => push_str(&mut v, "Random"),
            ControlStateMode::Schedule => push_str(&mut v, "Schedule"),
        }
        chars_to_string(&v)
    }
}

/// The state the number keys ask for: 1 for editing, 2 for preparing the
/// hubs (2 wins when both are pressed).
pub fn update_editor_state(key1_pressed: bool, key2_pressed: bool) -> (r: Option<EditorState>)
    ensures
        r == if key2_pressed {
            Some(EditorState::PreparingDeviceControl)
        } else if key1_pressed {
            Some(EditorState::Edit)
        } else {
            None
        },
{
    let mut next = None;
    if key1_pressed {
        next = Some(EditorState::Edit);
    }
    if key2_pressed {
        next = Some(EditorState::PreparingDeviceControl);
    }
    next
}

/// A click outside the panels selects what the pointer hovers, or nothing.
pub fn init_select(input_data: &InputData, just_pressed: bool, hover: Option<GenericID>, selection_state: &mut SelectionState)
    ensures
        final(selection_state).drag_select == old(selection_state).drag_select,
        !input_data.mouse_over_ui && just_pressed ==> match hover {
            Some(id) => final(selection_state).selection matches Selection::Single(s) && s == id,
            None => final(selection_state).selection is Nothing,
        },
        input_data.mouse_over_ui || !just_pressed ==> final(selection_state).selection == old(selection_state).selection,
{
    if input_data.mouse_over_ui {
        return;
    }
    if just_pressed {
        match hover {
            Some(id) => {
                selection_state.selection = Selection::Single(id);
            },
            None => {
                selection_state.selection = Selection::Nothing;
            },
        }
    }
}

/// Dragging from a selected track over other tracks selects the section
/// between them: each hovered track extends the section at its end, or,
/// failing that, at its start (the section is turned round).
pub fn extend_selection(hover: Option<GenericID>, pressed: bool, selection_state: &mut SelectionState, connections: &Connections)
    ensures
        final(selection_state).drag_select == old(selection_state).drag_select,
        !(hover matches Some(GenericID::Track(_))) || !pressed ==> final(selection_state).selection == old(selection_state).selection,
        hover matches Some(GenericID::Track(h)) ==> pressed ==> {
            let start = match old(selection_state).selection {
                Selection::Single(GenericID::Track(t)) => if h == t {
                    None
                } else {
                    Some(seq![DirectedTrackID { track: t, direction: TrackDirection::First }])
                },
                Selection::Section(s) => Some(s.tracks@),
                _ => None,
            };
            match start {
                None => final(selection_state).selection == old(selection_state).selection,
                Some(s) => final(selection_state).selection matches Selection::Section(sec) && sec.tracks@ == match push_track_result(s, h, connections) {
                    Some(s2) => s2,
                    None => match push_track_result(opposite_tracks(s), h, connections) {
                        Some(o2) => o2,
                        None => s,
                    },
                },
            }
        },
{
    let hovered = match hover {
        Some(GenericID::Track(t)) => t,
        _ => return,
    };
    if !pressed {
        return;
    }
    match selection_state.selection {
        Selection::Single(GenericID::Track(track_id)) => {
            if hovered == track_id {
                return;
            }
            let mut section = DirectedSection::new();
            let empty = Connections::new();
            let _ = section.push(DirectedTrackID { track: track_id, direction: TrackDirection::First }, &empty);
            selection_state.selection = Selection::Section(section);
        },
        _ => {},
    }
    let mut current = Selection::Nothing;
    std::mem::swap(&mut current, &mut selection_state.selection);
    match current {
        Selection::Section(mut section) => {
            let ghost s = section.tracks@;
            match section.push_track(hovered, connections) {
                Ok(()) => {
                    selection_state.selection = Selection::Section(section);
                    return;
                },
                Err(()) => {},
            }
            let mut opposite = section.get_opposite();
            assert(opposite.tracks@ =~= opposite_tracks(s));
            match opposite.push_track(hovered, connections) {
                Ok(()) => {
                    selection_state.selection = Selection::Section(opposite);
                },
                Err(()) => {
                    selection_state.selection = Selection::Section(section);
                },
            }
        },
        other => {
            selection_state.selection = other;
        },
    }
}

/// Once the hubs have disconnected, the pending action is carried out (and
/// handed back here) and none is pending any more.
pub fn disconnect_finish(editor_info: &mut EditorInfo) -> (r: DisconnectAction)
    ensures
        r == old(editor_info).disconnect_action,
        final(editor_info).disconnect_action is Nothing,
{
    let mut action = DisconnectAction::Nothing;
    std::mem::swap(&mut action, &mut editor_info.disconnect_action);
    action
}

/// A button of the editor's top bar that changes what the editor does.
#[derive(Debug, Clone)]
pub enum TopPanelButton {
    New,
    Load(String),
    Edit,
    VirtualControl,
    DeviceControl,
    Disconnect,
}

/// Whether the top bar lets the button be pressed: a mode's button is
/// greyed out while the editor is in that mode (device control also while
/// it is being prepared).
pub open spec fn top_button_enabled(state: EditorState, button: TopPanelButton) -> bool {
    match button {
        TopPanelButton::Edit => state != EditorState::Edit,
        TopPanelButton::VirtualControl => state != EditorState::VirtualControl,
        TopPanelButton::DeviceControl => state != EditorState::DeviceControl && state != EditorState::PreparingDeviceControl,
        _ => true,
    }
}

/// Pressing a button of the top bar: the state the editor goes to, if the
/// button is enabled. A new layout, a layout to load and a plain disconnect
/// first disconnect the hubs, and remember what to do afterwards; device
/// control starts by preparing the hubs.
pub fn top_panel_click(state: EditorState, button: TopPanelButton, info: &mut EditorInfo) -> (r: Option<EditorState>)
    ensures
        !top_button_enabled(state, button) ==> r is None && final(info).disconnect_action == old(info).disconnect_action,
        top_button_enabled(state, button) ==> match button {
            TopPanelButton::New => r == Some(EditorState::Disconnecting) && final(info).disconnect_action == DisconnectAction::NewLayout,
            TopPanelButton::Load(path) => r == Some(EditorState::Disconnecting) && final(info).disconnect_action
                == DisconnectAction::LoadLayout(path),
            TopPanelButton::Edit => r == Some(EditorState::Edit) && final(info).disconnect_action == old(info).disconnect_action,
            TopPanelButton::VirtualControl => r == Some(EditorState::VirtualControl) && final(info).disconnect_action
                == old(info).disconnect_action,
            TopPanelButton::DeviceControl => r == Some(EditorState::PreparingDeviceControl) && final(info).disconnect_action
                == old(info).disconnect_action,
            TopPanelButton::Disconnect => r == Some(EditorState::Disconnecting) && final(info).disconnect_action == DisconnectAction::Nothing,
        },
{
    match button {
        TopPanelButton::New => {
            info.disconnect_action = DisconnectAction::NewLayout;
            Some(EditorState::Disconnecting)
        },
        TopPanelButton::Load(path) => {
            info.disconnect_action = DisconnectAction::LoadLayout(path);
            Some(EditorState::Disconnecting)
        },
        TopPanelButton::Edit => {
            if state != EditorState::Edit {
                Some(EditorState::Edit)
            } else {
                None
            }
        },
        TopPanelButton::VirtualControl => {
            if state != EditorState::VirtualControl {
                Some(EditorState::VirtualControl)
            } else {
                None
            }
        },
        TopPanelButton::DeviceControl => {
            if state != EditorState::DeviceControl && state != EditorState::PreparingDeviceControl {
                Some(EditorState::PreparingDeviceControl)
            } else {
                None
            }
        },
        TopPanelButton::Disconnect => {
            info.disconnect_action = DisconnectAction::Nothing;
            Some(EditorState::Disconnecting)
        },
    }
}

/// The control mode picked in the top bar: a change of mode is set, the
/// same mode is left alone.
pub fn mode_change(current: ControlStateMode, picked: ControlStateMode) -> (r: Option<ControlStateMode>)
    ensures
        r == (if picked != current { Some(picked) } else { None::<ControlStateMode> }),
{
    if picked != current {
        Some(picked)
    } else {
        None
    }
}

} // verus!
