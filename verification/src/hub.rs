//! The life of a Bluetooth hub: connecting, downloading and starting its
//! program, configuring it and telling it to get ready; the decisions that
//! drive a set of hubs to that point and back down again.
use vstd::prelude::*;
use crate::layout_primitives::{HubID, HubPort, LayoutDeviceID};

verus! {

/// What a hub is busy with. Download progress is counted in thousandths.
#[derive(Clone, Copy, Debug, PartialEq, Eq, Structural)]
pub enum HubBusy {
    Connecting,
    Disconnecting,
    Downloading(u16),
    Starting,
    Stopping,
    Configuring,
    SettingReady,
}

/// What went wrong with a hub.
#[derive(Clone, Copy, Debug, PartialEq, Eq, Structural)]
pub enum HubError {
    ConnectError,
    ProgramError,
}

/// A hub that only listens to broadcasts; it may stay connected or not.
#[derive(Clone, Copy, Debug, PartialEq, Eq, Structural)]
pub struct ObserverHub {
    pub keep_connected: bool,
}

/// The flags of a hub, as the controller tracks them.
#[derive(Clone, Copy, Debug, PartialEq, Eq, Structural)]
pub struct HubState {
    pub busy: Option<HubBusy>,
    pub error: Option<HubError>,
    pub connected: bool,
    pub downloaded: bool,
    pub running: bool,
    pub configured: bool,
    pub ready: bool,
    pub prepared: bool,
    /// The hub is used by a train or a layout device.
    pub active: bool,
    pub observer: Option<ObserverHub>,
    pub broadcaster: bool,
}

/// How a hub communicates.
#[derive(Clone, Copy, Debug, PartialEq, Eq, Structural)]
pub enum HubCommType {
    Observer,
    Broadcaster,
    Regular,
}

impl HubCommType {
    /// The type of a hub marked observer, broadcaster, or neither (never both).
    pub fn from_flags(observer: bool, broadcaster: bool) -> (r: Self)
        requires
            !(observer && broadcaster),
        ensures
            observer ==> r == HubCommType::Observer,
            broadcaster ==> r == HubCommType::Broadcaster,
            !observer && !broadcaster ==> r == HubCommType::Regular,
    {
        if observer {
            HubCommType::Observer
        } else if broadcaster {
            HubCommType::Broadcaster
        } else {
            HubCommType::Regular
        }
    }

    /// The number a hub program reads its communication type as.
    pub fn to_u8(&self) -> (r: u8)
        ensures
            r == match *self {
                HubCommType::Observer => 1u8,
                HubCommType::Broadcaster => 2u8,
                HubCommType::Regular => 0u8,
            },
    {
        match self {
            HubCommType::Observer => 0x01,
            HubCommType::Broadcaster => 0x02,
            HubCommType::Regular => 0x00,
        }
    }
}

/// Input queued for a hub's running program.
#[derive(Clone, Debug)]
pub enum HubInput {
    /// Call a function of the program with byte arguments.
    Rpc { name: String, args: Vec<u8> },
    /// Broadcast a command to observer hubs.
    BroadcastCmd(Vec<u8>),
    /// Store a configuration value at an address.
    StoreUint { address: u8, value: u32 },
    /// Tell the program to get ready.
    SysReady,
}

/// What a hub is told to do.
#[derive(Clone, Debug)]
pub enum HubCommand {
    DiscoverName,
    Connect,
    Disconnect,
    DownloadProgram,
    StartProgram,
    StopProgram,
    QueueInput(HubInput),
    Configure,
    SetReady,
}

/// A command for a hub.
#[derive(Clone, Debug)]
pub struct HubCommandMessage {
    pub hub_id: HubID,
    pub command: HubCommand,
}

impl HubCommandMessage {
    pub fn input(hub_id: HubID, input: HubInput) -> (r: Self)
        ensures
            r.hub_id == hub_id,
            r.command == HubCommand::QueueInput(input),
    {
        HubCommandMessage { hub_id, command: HubCommand::QueueInput(input) }
    }
}

/// A device's new state, to be sent to the hub it is wired to.
#[derive(Clone, Copy, Debug, PartialEq, Eq, Structural)]
pub struct HubDeviceStateMessage {
    pub hub_id: HubID,
    pub state_id: u8,
    pub state: u8,
}

/// A hub as the decisions over all hubs see it.
#[derive(Clone, Copy, Debug, PartialEq, Eq, Structural)]
pub struct HubEntry {
    pub id: HubID,
    pub state: HubState,
    pub has_name: bool,
}

// ---------------------------------------------------------------------------
// Preparing hubs
// ---------------------------------------------------------------------------

/// The next step that brings a hub towards control: connect, download,
/// start the program, configure, get ready, and let an observer that need
/// not stay connected go.
pub open spec fn prepare_step(s: HubState) -> Option<HubCommand> {
    if !s.connected && !s.running {
        Some(HubCommand::Connect)
    } else if !s.downloaded && !s.running {
        Some(HubCommand::DownloadProgram)
    } else if !s.running {
        Some(HubCommand::StartProgram)
    } else if !s.configured {
        Some(HubCommand::Configure)
    } else if !s.ready {
        Some(HubCommand::SetReady)
    } else if s.observer is Some && !s.observer->0.keep_connected {
        Some(HubCommand::Disconnect)
    } else {
        None
    }
}

/// A hub that preparation works on: active, without error, idle, not yet
/// prepared.
pub open spec fn awaits_preparation(s: HubState) -> bool {
    s.active && s.error is None && s.busy is None && !s.prepared
}

pub open spec fn any_busy(hubs: Seq<HubEntry>) -> bool {
    exists|i: int| 0 <= i < hubs.len() && (#[trigger] hubs[i]).state.busy is Some
}

/// The first command that preparation sends, looking at the hubs in order
/// (a hub without a name is passed over).
pub open spec fn first_prepare_command(hubs: Seq<HubEntry>) -> Option<(HubID, HubCommand)>
    decreases hubs.len(),
{
    if hubs.len() == 0 {
        None
    } else {
        let h = hubs[0];
        if awaits_preparation(h.state) && h.has_name && prepare_step(h.state) is Some {
            Some((h.id, prepare_step(h.state).unwrap()))
        } else {
            first_prepare_command(hubs.drop_first())
        }
    }
}

fn prepare_command(s: &HubState) -> (r: Option<HubCommand>)
    ensures
        r == prepare_step(*s),
{
    if !s.connected && !s.running {
        Some(HubCommand::Connect)
    } else if !s.downloaded && !s.running {
        Some(HubCommand::DownloadProgram)
    } else if !s.running {
        Some(HubCommand::StartProgram)
    } else if !s.configured {
        Some(HubCommand::Configure)
    } else if !s.ready {
        Some(HubCommand::SetReady)
    } else {
        match s.observer {
            Some(o) => if !o.keep_connected {
                Some(HubCommand::Disconnect)
            } else {
                None
            },
            None => None,
        }
    }
}

fn find_busy(hubs: &Vec<HubEntry>) -> (r: bool)
    ensures
        r == any_busy(hubs@),
{
    let mut i: usize = 0;
    while i < hubs.len()
        invariant
            0 <= i <= hubs@.len(),
            forall|j: int| 0 <= j < i ==> (#[trigger] hubs@[j]).state.busy is None,
        decreases hubs@.len() - i,
    {
        if hubs[i].state.busy.is_some() {
            return true;
        }
        i = i + 1;
    }
    false
}

/// Preparation: while any hub is busy nothing happens; otherwise the first
/// hub awaiting preparation that needs a step gets that step's command.
pub fn prepare_hubs(hubs: &Vec<HubEntry>) -> (r: Option<HubCommandMessage>)
    ensures
        any_busy(hubs@) ==> r is None,
        !any_busy(hubs@) ==> match first_prepare_command(hubs@) {
            Some((id, cmd)) => r is Some && r->0.hub_id == id && r->0.command == cmd,
            None => r is None,
        },
{
    if find_busy(hubs) {
        return None;
    }
    assert(hubs@.subrange(0, hubs@.len() as int) =~= hubs@);
    let mut i: usize = 0;
    while i < hubs.len()
        invariant
            0 <= i <= hubs@.len(),
            !any_busy(hubs@),
            first_prepare_command(hubs@) == first_prepare_command(hubs@.subrange(i as int, hubs@.len() as int)),
        decreases hubs@.len() - i,
    {
        let h = hubs[i];
        proof {
            let rest = hubs@.subrange(i as int, hubs@.len() as int);
            assert(rest[0] == h);
            assert(rest.drop_first() =~= hubs@.subrange(i + 1, hubs@.len() as int));
        }
        let eligible = h.state.active && h.state.error.is_none() && h.state.busy.is_none() && !h.state.prepared;
        if eligible && h.has_name {
            match prepare_command(&h.state) {
                Some(cmd) => {
                    return Some(HubCommandMessage { hub_id: h.id, command: cmd });
                },
                None => {},
            }
        }
        i = i + 1;
    }
    None
}

/// A prepared observer is running, configured, ready, and connected if it
/// has to stay so.
pub open spec fn observer_fit(s: HubState, keep_connected: bool) -> bool {
    s.running && s.configured && s.ready && (s.connected || !keep_connected)
}

/// A prepared hub that is not an observer is connected, idle, running,
/// configured and ready.
pub open spec fn regular_fit(s: HubState) -> bool {
    s.connected && s.busy is None && s.running && s.configured && s.ready
}

/// What checking a hub does to its flags: a prepared hub that is no longer
/// fit loses its preparation (and with it its configuration and readiness,
/// an observer also its running program); an unprepared hub that is fit
/// (an observer also idle, and disconnected unless it stays connected)
/// becomes prepared.
pub open spec fn checked_state(s: HubState) -> HubState {
    match s.observer {
        Some(o) => if s.prepared {
            if !observer_fit(s, o.keep_connected) {
                HubState { prepared: false, configured: false, running: false, ready: false, ..s }
            } else {
                s
            }
        } else if s.running && s.configured && (!s.connected || o.keep_connected) && s.busy is None && s.ready {
            HubState { prepared: true, ..s }
        } else {
            s
        },
        None => if s.prepared {
            if !regular_fit(s) {
                HubState { prepared: false, configured: false, ready: false, ..s }
            } else {
                s
            }
        } else if regular_fit(s) {
            HubState { prepared: true, ..s }
        } else {
            s
        },
    }
}

/// Checks whether an active hub is (still) prepared.
pub fn check_hub_prepared(s: &mut HubState)
    ensures
        *final(s) == checked_state(*old(s)),
{
    match s.observer {
        Some(o) => {
            if s.prepared {
                if !(s.running && s.configured && s.ready && (s.connected || !o.keep_connected)) {
                    s.prepared = false;
                    s.configured = false;
                    s.running = false;
                    s.ready = false;
                }
            } else if s.running && s.configured && (!s.connected || o.keep_connected) && s.busy.is_none() && s.ready {
                s.prepared = true;
            }
        },
        None => {
            if s.prepared {
                if !(s.connected && s.busy.is_none() && s.running && s.configured && s.ready) {
                    s.prepared = false;
                    s.configured = false;
                    s.ready = false;
                }
            } else if s.connected && s.busy.is_none() && s.running && s.configured && s.ready {
                s.prepared = true;
            }
        },
    }
}

/// After a check, a prepared hub runs its configured program and is ready;
/// a prepared hub that is not an observer is also connected and idle.
pub proof fn lemma_checked_prepared_is_fit(s: HubState)
    ensures
        checked_state(s).prepared ==> checked_state(s).running && checked_state(s).configured && checked_state(s).ready,
        checked_state(s).prepared && s.observer is None ==> regular_fit(checked_state(s)),
        s.observer is None ==> checked_state(checked_state(s)) == checked_state(s),
{
}

// ---------------------------------------------------------------------------
// What commands and hub events do to the flags
// ---------------------------------------------------------------------------

/// The flags right after a command is issued.
pub open spec fn commanded_state(s: HubState, c: HubCommand) -> HubState {
    match c {
        HubCommand::Connect => HubState { busy: Some(HubBusy::Connecting), ..s },
        HubCommand::Disconnect => HubState { busy: Some(HubBusy::Disconnecting), connected: false, ..s },
        HubCommand::DownloadProgram => HubState { busy: Some(HubBusy::Downloading(0)), ..s },
        HubCommand::StartProgram => HubState { busy: Some(HubBusy::Starting), ..s },
        HubCommand::StopProgram => HubState { busy: Some(HubBusy::Stopping), ..s },
        HubCommand::Configure => HubState { busy: None, configured: true, ..s },
        HubCommand::SetReady => HubState { busy: Some(HubBusy::SettingReady), ..s },
        _ => s,
    }
}

/// Issuing a command marks the hub busy with it (configuring finishes at
/// once: the values are queued and the hub counts as configured).
pub fn apply_command(s: &mut HubState, c: &HubCommand)
    ensures
        *final(s) == commanded_state(*old(s), *c),
{
    match c {
        HubCommand::Connect => {
            s.busy = Some(HubBusy::Connecting);
        },
        HubCommand::Disconnect => {
            s.busy = Some(HubBusy::Disconnecting);
            s.connected = false;
        },
        HubCommand::DownloadProgram => {
            s.busy = Some(HubBusy::Downloading(0));
        },
        HubCommand::StartProgram => {
            s.busy = Some(HubBusy::Starting);
        },
        HubCommand::StopProgram => {
            s.busy = Some(HubBusy::Stopping);
        },
        HubCommand::Configure => {
            s.busy = None;
            s.configured = true;
        },
        HubCommand::SetReady => {
            s.busy = Some(HubBusy::SettingReady);
        },
        _ => {},
    }
}

/// What the connection to a hub is asked to do for a command.
#[derive(Debug)]
pub enum HubIO {
    DiscoverName,
    /// Connect to the hub of this name.
    Connect(String),
    Disconnect,
    DownloadProgram,
    StartProgram,
    StopProgram,
    /// Send these inputs to the running program, in order.
    SendInputs(Vec<HubInput>),
}

/// Executing a command for a hub: its flags change as `commanded_state`
/// says, and the connection is asked to do the matching work. Queued input
/// is sent as it is; configuring sends each configuration value and
/// remembers, under the hub's name, the configuration it was sent; getting
/// ready sends the ready notice. Connecting needs the hub's name, and
/// configuring its name and configuration.
pub fn execute_hub_command(
    state: &mut HubState,
    name: &Option<String>,
    config: Option<&HubConfiguration>,
    settings: &mut crate::persistent_hub_state::PersistentHubState,
    command: HubCommand,
) -> (r: HubIO)
    requires
        old(settings).wf(),
        command is Connect ==> name is Some,
        command is Configure ==> name is Some && config is Some,
    ensures
        *final(state) == commanded_state(*old(state), command),
        final(settings).wf(),
        final(settings).hashes_view() == old(settings).hashes_view(),
        command is Configure ==> final(settings).configs_view() == old(settings).configs_view().insert(
            name->0@,
            config->0@,
        ),
        !(command is Configure) ==> final(settings).configs_view() == old(settings).configs_view(),
        match command {
            HubCommand::DiscoverName => r is DiscoverName,
            HubCommand::Connect => r matches HubIO::Connect(n) && n@ == name->0@,
            HubCommand::Disconnect => r is Disconnect,
            HubCommand::DownloadProgram => r is DownloadProgram,
            HubCommand::StartProgram => r is StartProgram,
            HubCommand::StopProgram => r is StopProgram,
            HubCommand::QueueInput(i) => r matches HubIO::SendInputs(v) && v@ == seq![i],
            HubCommand::Configure => r matches HubIO::SendInputs(v) && v@.len() == config->0.entries().len() && forall|k: int|
                0 <= k < v@.len() ==> v@[k] == (HubInput::StoreUint {
                    address: config->0.entries()[k].0,
                    value: config->0.entries()[k].1,
                }),
            HubCommand::SetReady => r matches HubIO::SendInputs(v) && v@ == seq![HubInput::SysReady],
        },
{
    apply_command(state, &command);
    match command {
        HubCommand::DiscoverName => HubIO::DiscoverName,
        HubCommand::Connect => {
            let n = match name {
                Some(n) => n.clone(),
                None => String::new(),
            };
            HubIO::Connect(n)
        },
        HubCommand::Disconnect => HubIO::Disconnect,
        HubCommand::DownloadProgram => HubIO::DownloadProgram,
        HubCommand::StartProgram => HubIO::StartProgram,
        HubCommand::StopProgram => HubIO::StopProgram,
        HubCommand::QueueInput(input) => {
            let mut v: Vec<HubInput> = Vec::new();
            v.push(input);
            HubIO::SendInputs(v)
        },
        HubCommand::Configure => {
            let c = config.unwrap();
            let inputs = configure_inputs(c);
            match name {
                Some(n) => settings.sync_configured_hub(n.as_str(), c),
                None => {},
            }
            HubIO::SendInputs(inputs)
        },
        HubCommand::SetReady => {
            let mut v: Vec<HubInput> = Vec::new();
            v.push(HubInput::SysReady);
            HubIO::SendInputs(v)
        },
    }
}

/// The configuration values a hub is sent when it is configured.
pub fn configure_inputs(config: &HubConfiguration) -> (r: Vec<HubInput>)
    ensures
        r@.len() == config.entries().len(),
        forall|i: int| 0 <= i < r@.len() ==> r@[i] == (HubInput::StoreUint {
            address: config.entries()[i].0,
            value: config.entries()[i].1,
        }),
{
    let entries = config.data.entries();
    let mut r: Vec<HubInput> = Vec::new();
    let mut i: usize = 0;
    while i < entries.len()
        invariant
            entries@ == config.entries(),
            0 <= i <= entries@.len(),
            r@.len() == i,
            forall|j: int| 0 <= j < i ==> r@[j] == (HubInput::StoreUint { address: entries@[j].0, value: entries@[j].1 }),
        decreases entries@.len() - i,
    {
        let (address, value) = entries[i];
        r.push(HubInput::StoreUint { address, value });
        i = i + 1;
    }
    r
}

/// The flags after the hub reports its status, judged by the flags `snap`
/// the hub had when the batch of reports began and applied to the flags `s`
/// reached so far: a connecting hub is connected; a program seen running
/// for the first time counts as running (finishing a start); a program seen
/// stopped counts as stopped (finishing a stop, otherwise an error, which
/// also ends configuring).
pub open spec fn status_effect(snap: HubState, s: HubState, running_flag: bool) -> HubState {
    let s1 = if snap.busy == Some(HubBusy::Connecting) {
        HubState { busy: None, connected: true, ..s }
    } else {
        s
    };
    let s2 = if running_flag && !snap.running {
        if snap.busy == Some(HubBusy::Starting) {
            HubState { busy: None, running: true, ..s1 }
        } else {
            HubState { running: true, ..s1 }
        }
    } else {
        s1
    };
    if !running_flag && snap.running {
        if snap.busy == Some(HubBusy::Stopping) {
            HubState { running: false, busy: None, ..s2 }
        } else if snap.busy == Some(HubBusy::Configuring) {
            HubState { running: false, error: Some(HubError::ProgramError), busy: None, ..s2 }
        } else {
            HubState { running: false, error: Some(HubError::ProgramError), ..s2 }
        }
    } else {
        s2
    }
}

/// The flags after a single status report.
pub open spec fn status_state(s: HubState, running_flag: bool) -> HubState {
    status_effect(s, s, running_flag)
}

/// The flags once the hub's program reports that it is ready, judged by
/// the flags `snap` at the start of the batch: ready, and no longer setting
/// ready if it was doing so.
pub open spec fn ready_effect(snap: HubState, s: HubState) -> HubState {
    HubState { ready: true, busy: if snap.busy == Some(HubBusy::SettingReady) { None } else { s.busy }, ..s }
}

/// A status report from the hub, judged by the flags `snap` the hub had
/// when the batch of reports began.
pub fn apply_status(s: &mut HubState, snap: &HubState, running_flag: bool)
    ensures
        *final(s) == status_effect(*snap, *old(s), running_flag),
{
    if snap.busy == Some(HubBusy::Connecting) {
        s.busy = None;
        s.connected = true;
    }
    if running_flag && !snap.running {
        if snap.busy == Some(HubBusy::Starting) {
            s.busy = None;
        }
        s.running = true;
    }
    if !running_flag && snap.running {
        s.running = false;
        if snap.busy == Some(HubBusy::Stopping) {
            s.busy = None;
        } else {
            s.error = Some(HubError::ProgramError);
            if snap.busy == Some(HubBusy::Configuring) {
                s.busy = None;
            }
        }
    }
}

/// A status report from the hub.
pub fn on_status(s: &mut HubState, running_flag: bool)
    ensures
        *final(s) == status_state(*old(s), running_flag),
{
    let before = *s;
    apply_status(s, &before, running_flag);
}

/// The hub's program reports that it is ready, judged by the flags `snap`
/// the hub had when the batch of reports began.
pub fn apply_ready(s: &mut HubState, snap: &HubState)
    ensures
        *final(s) == ready_effect(*snap, *old(s)),
{
    s.ready = true;
    if snap.busy == Some(HubBusy::SettingReady) {
        s.busy = None;
    }
}

/// The hub's program reports that it is ready; that ends setting it ready.
pub fn on_sys_ready(s: &mut HubState)
    ensures
        final(s).ready,
        final(s).busy == (if old(s).busy == Some(HubBusy::SettingReady) { None } else { old(s).busy }),
        *final(s) == (HubState { ready: true, busy: final(s).busy, ..*old(s) }),
{
    let before = *s;
    apply_ready(s, &before);
}

/// Download progress, in thousandths.
pub fn on_download_progress(s: &mut HubState, progress: u16)
    ensures
        *final(s) == (HubState { busy: Some(HubBusy::Downloading(progress)), ..*old(s) }),
{
    s.busy = Some(HubBusy::Downloading(progress));
}

/// Connecting failed.
pub fn on_connect_failed(s: &mut HubState)
    ensures
        *final(s) == (HubState { error: Some(HubError::ConnectError), busy: None, ..*old(s) }),
{
    s.error = Some(HubError::ConnectError);
    s.busy = None;
}

/// Disconnecting finished.
pub fn on_disconnected(s: &mut HubState)
    ensures
        *final(s) == (HubState { busy: None, ..*old(s) }),
{
    s.busy = None;
}

/// The program download finished.
pub fn on_downloaded(s: &mut HubState)
    ensures
        *final(s) == (HubState { busy: None, downloaded: true, ..*old(s) }),
{
    s.busy = None;
    s.downloaded = true;
}

// ---------------------------------------------------------------------------
// Decisions over all hubs
// ---------------------------------------------------------------------------

/// Every active hub is prepared: control can begin.
pub fn finalize_hub_preparation(hubs: &Vec<HubEntry>) -> (r: bool)
    ensures
        r == forall|i: int| 0 <= i < hubs@.len() && (#[trigger] hubs@[i]).state.active ==> hubs@[i].state.prepared,
{
    let mut i: usize = 0;
    while i < hubs.len()
        invariant
            0 <= i <= hubs@.len(),
            forall|j: int| 0 <= j < i && (#[trigger] hubs@[j]).state.active ==> hubs@[j].state.prepared,
        decreases hubs@.len() - i,
    {
        if hubs[i].state.active && !hubs[i].state.prepared {
            return false;
        }
        i = i + 1;
    }
    true
}

/// Some active hub is not prepared: control must fall back to the virtual
/// trains.
pub fn monitor_non_prepared_hubs(hubs: &Vec<HubEntry>) -> (r: bool)
    ensures
        r == exists|i: int| 0 <= i < hubs@.len() && (#[trigger] hubs@[i]).state.active && !hubs@[i].state.prepared,
{
    !finalize_hub_preparation(hubs)
}

/// Shutting down: while any hub is busy nothing happens; otherwise the first
/// connected hub stops its program, or, when none runs, disconnects.
pub fn disconnect_hubs(hubs: &Vec<HubEntry>) -> (r: Option<HubCommandMessage>)
    ensures
        any_busy(hubs@) ==> r is None,
        !any_busy(hubs@) ==> match r {
            Some(m) => exists|i: int| 0 <= i < hubs@.len() && #[trigger] hubs@[i].state.connected && m.hub_id == hubs@[i].id
                && (forall|j: int| 0 <= j < i ==> !(#[trigger] hubs@[j]).state.connected)
                && m.command == (if hubs@[i].state.running { HubCommand::StopProgram } else { HubCommand::Disconnect }),
            None => forall|i: int| 0 <= i < hubs@.len() ==> !(#[trigger] hubs@[i]).state.connected,
        },
{
    if find_busy(hubs) {
        return None;
    }
    let mut i: usize = 0;
    while i < hubs.len()
        invariant
            0 <= i <= hubs@.len(),
            !any_busy(hubs@),
            forall|j: int| 0 <= j < i ==> !(#[trigger] hubs@[j]).state.connected,
        decreases hubs@.len() - i,
    {
        let h = hubs[i];
        if h.state.connected {
            let command = if h.state.running { HubCommand::StopProgram } else { HubCommand::Disconnect };
            return Some(HubCommandMessage { hub_id: h.id, command });
        }
        i = i + 1;
    }
    None
}

/// Shutting down is done once no hub is busy and none is connected.
pub fn finalize_disconnection(hubs: &Vec<HubEntry>) -> (r: bool)
    ensures
        r == (!any_busy(hubs@) && forall|i: int| 0 <= i < hubs@.len() ==> !(#[trigger] hubs@[i]).state.connected),
{
    if find_busy(hubs) {
        return false;
    }
    let mut i: usize = 0;
    while i < hubs.len()
        invariant
            0 <= i <= hubs@.len(),
            forall|j: int| 0 <= j < i ==> !(#[trigger] hubs@[j]).state.connected,
        decreases hubs@.len() - i,
    {
        if hubs[i].state.connected {
            return false;
        }
        i = i + 1;
    }
    true
}

/// A hub whose program is stopped when device control ends.
pub open spec fn stops_program() -> spec_fn(HubEntry) -> bool {
    |h: HubEntry| h.state.running && h.state.active && h.state.observer is None
}

pub open spec fn hub_id_of() -> spec_fn(HubEntry) -> HubID {
    |h: HubEntry| h.id
}

/// Leaving device control: the hubs whose programs are stopped (active,
/// running, not observers), in order.
pub fn stop_hub_programs(hubs: &Vec<HubEntry>) -> (r: Vec<HubID>)
    ensures
        r@ == hubs@.filter(stops_program()).map_values(hub_id_of()),
{
    let mut r: Vec<HubID> = Vec::new();
    let mut i: usize = 0;
    while i < hubs.len()
        invariant
            0 <= i <= hubs@.len(),
            r@ == hubs@.subrange(0, i as int).filter(stops_program()).map_values(hub_id_of()),
        decreases hubs@.len() - i,
    {
        let h = hubs[i];
        let ghost pre = hubs@.subrange(0, i as int);
        proof {
            assert(hubs@.subrange(0, i + 1) =~= pre.push(h));
            pre.lemma_filter_push(h, stops_program());
        }
        if h.state.running && h.state.active && h.state.observer.is_none() {
            r.push(h.id);
            proof {
                assert(r@ =~= pre.push(h).filter(stops_program()).map_values(hub_id_of()));
            }
        }
        i = i + 1;
    }
    proof {
        assert(hubs@.subrange(0, hubs@.len() as int) =~= hubs@);
    }
    r
}

pub open spec fn is_active_broadcaster() -> spec_fn(HubEntry) -> bool {
    |h: HubEntry| h.state.broadcaster && h.state.active
}

pub open spec fn active_broadcasters(hubs: Seq<HubEntry>) -> int {
    hubs.filter(is_active_broadcaster()).len() as int
}

/// When there is not exactly one active broadcaster, the first hub that is
/// neither broadcaster nor observer becomes one: its position is returned.
pub fn ensure_broadcaster_hub(hubs: &Vec<HubEntry>) -> (r: Option<usize>)
    ensures
        match r {
            Some(i) => active_broadcasters(hubs@) != 1 && i < hubs@.len() && !hubs@[i as int].state.broadcaster
                && hubs@[i as int].state.observer is None && forall|j: int| 0 <= j < i ==> (#[trigger] hubs@[j]).state.broadcaster
                || hubs@[j].state.observer is Some,
            None => active_broadcasters(hubs@) == 1 || forall|j: int| 0 <= j < hubs@.len() ==> (#[trigger] hubs@[j]).state.broadcaster
                || hubs@[j].state.observer is Some,
        },
{
    let mut count: usize = 0;
    let mut i: usize = 0;
    let ghost f = is_active_broadcaster();
    while i < hubs.len()
        invariant
            0 <= i <= hubs@.len(),
            count == hubs@.subrange(0, i as int).filter(f).len(),
            count <= i,
            f == is_active_broadcaster(),
        decreases hubs@.len() - i,
    {
        proof {
            let pre = hubs@.subrange(0, i as int);
            assert(hubs@.subrange(0, i + 1) =~= pre.push(hubs@[i as int]));
            pre.lemma_filter_push(hubs@[i as int], f);
        }
        if hubs[i].state.broadcaster && hubs[i].state.active {
            count = count + 1;
        }
        i = i + 1;
    }
    proof {
        assert(hubs@.subrange(0, hubs@.len() as int) =~= hubs@);
    }
    if count == 1 {
        return None;
    }
    let mut j: usize = 0;
    while j < hubs.len()
        invariant
            0 <= j <= hubs@.len(),
            active_broadcasters(hubs@) != 1,
            forall|k: int| 0 <= k < j ==> (#[trigger] hubs@[k]).state.broadcaster || hubs@[k].state.observer is Some,
        decreases hubs@.len() - j,
    {
        if !hubs[j].state.broadcaster && hubs[j].state.observer.is_none() {
            return Some(j);
        }
        j = j + 1;
    }
    None
}

/// Which hubs are in use: a hub is active exactly when a train or a layout
/// device uses it.
pub fn update_active_hubs(hubs: &mut Vec<HubEntry>, used: &Vec<HubID>)
    ensures
        final(hubs)@.len() == old(hubs)@.len(),
        forall|i: int| 0 <= i < final(hubs)@.len() ==> (#[trigger] final(hubs)@[i]) == (HubEntry {
            state: HubState { active: used@.contains(old(hubs)@[i].id), ..old(hubs)@[i].state },
            ..old(hubs)@[i]
        }),
{
    let mut i: usize = 0;
    while i < hubs.len()
        invariant
            0 <= i <= hubs@.len(),
            hubs@.len() == old(hubs)@.len(),
            forall|k: int| 0 <= k < i ==> (#[trigger] hubs@[k]) == (HubEntry {
                state: HubState { active: used@.contains(old(hubs)@[k].id), ..old(hubs)@[k].state },
                ..old(hubs)@[k]
            }),
            forall|k: int| i <= k < hubs@.len() ==> (#[trigger] hubs@[k]) == old(hubs)@[k],
        decreases hubs@.len() - i,
    {
        let mut h = hubs[i];
        h.state.active = contains_hub(used, h.id);
        hubs.set(i, h);
        i = i + 1;
    }
}

fn contains_hub(v: &Vec<HubID>, id: HubID) -> (r: bool)
    ensures
        r == v@.contains(id),
{
    let mut i: usize = 0;
    while i < v.len()
        invariant
            0 <= i <= v@.len(),
            forall|k: int| 0 <= k < i ==> v@[k] != id,
        decreases v@.len() - i,
    {
        if v[i] == id {
            assert(v@[i as int] == id);
            return true;
        }
        i = i + 1;
    }
    false
}

// ---------------------------------------------------------------------------
// Configuration
// ---------------------------------------------------------------------------

/// Values to store in a hub's memory, by address.
pub struct HubConfiguration {
    pub data: crate::keyed::KeyedMap<u8, u32>,
}

impl HubConfiguration {
    pub open spec fn view(&self) -> Map<u8, u32> {
        self.data@
    }

    pub open spec fn entries(&self) -> Seq<(u8, u32)> {
        self.data.entries_view()
    }

    pub fn new() -> (r: Self)
        ensures
            r@ == Map::<u8, u32>::empty(),
    {
        HubConfiguration { data: crate::keyed::KeyedMap::new() }
    }

    pub fn add_value(&mut self, address: u8, value: u32)
        ensures
            final(self)@ == old(self)@.insert(address, value),
    {
        self.data.insert(address, value);
    }

    /// Adds the values of another configuration; no address may be in both.
    pub fn merge(&mut self, other: &Self)
        requires
            old(self)@.dom().disjoint(other@.dom()),
        ensures
            final(self)@ == old(self)@.union_prefer_right(other@),
    {
        let entries = other.data.entries();
        let mut i: usize = 0;
        while i < entries.len()
            invariant
                0 <= i <= entries@.len(),
                entries@.len() == other@.dom().len(),
                forall|k: int| 0 <= k < entries@.len() ==> other@.contains_key(#[trigger] entries@[k].0) && other@[entries@[k].0] == entries@[k].1,
                forall|a: u8| other@.contains_key(a) ==> exists|k: int| 0 <= k < entries@.len() && #[trigger] entries@[k].0 == a,
                self@ == old(self)@.union_prefer_right(Map::new(
                    |a: u8| exists|k: int| 0 <= k < i && #[trigger] entries@[k].0 == a,
                    |a: u8| other@[a],
                )),
            decreases entries@.len() - i,
        {
            let (address, value) = entries[i];
            self.data.insert(address, value);
            proof {
                assert(self@ =~= old(self)@.union_prefer_right(Map::new(
                    |a: u8| exists|k: int| 0 <= k < i + 1 && #[trigger] entries@[k].0 == a,
                    |a: u8| other@[a],
                ))) by {
                    assert(entries@[i as int].0 == address);
                }
            }
            i = i + 1;
        }
        proof {
            assert(Map::new(
                |a: u8| exists|k: int| 0 <= k < entries@.len() && #[trigger] entries@[k].0 == a,
                |a: u8| other@[a],
            ) =~= other@);
        }
    }

    /// Whether two configurations hold the same values at the same addresses.
    pub fn same_values(&self, other: &Self) -> (r: bool)
        ensures
            r == (self@ == other@),
    {
        let mine = self.data.entries();
        let _ = self.data.len();
        if mine.len() != other.data.len() {
            proof {
                if self@ == other@ {
                    assert(mine@.len() == self@.dom().len());
                }
            }
            return false;
        }
        let mut i: usize = 0;
        while i < mine.len()
            invariant
                0 <= i <= mine@.len(),
                mine@.len() == self@.dom().len(),
                mine@.len() == other@.dom().len(),
                other@.dom().finite(),
                self@.dom().finite(),
                forall|k: int| 0 <= k < mine@.len() ==> self@.contains_key(#[trigger] mine@[k].0) && self@[mine@[k].0] == mine@[k].1,
                forall|a: int, b: int| 0 <= a < b < mine@.len() ==> mine@[a].0 != mine@[b].0,
                forall|a: u8| self@.contains_key(a) ==> exists|k: int| 0 <= k < mine@.len() && #[trigger] mine@[k].0 == a,
                forall|k: int| 0 <= k < i ==> other@.contains_key(#[trigger] mine@[k].0) && other@[mine@[k].0] == mine@[k].1,
            decreases mine@.len() - i,
        {
            let (address, value) = mine[i];
            match other.data.get(&address) {
                Some(v) => {
                    if *v != value {
                        return false;
                    }
                },
                None => {
                    return false;
                },
            }
            i = i + 1;
        }
        proof {
            assert(self@.dom().subset_of(other@.dom()));
            vstd::set_lib::lemma_subset_equality(self@.dom(), other@.dom());
            assert(self@ =~= other@);
        }
        true
    }
}

/// The configuration of a pulse motor wired to a port of a hub: strength,
/// duration and polarity at the port's three addresses.
pub open spec fn motor_config_map(port: HubPort, pulse_strength: u16, pulse_duration: u16, polarity: u32) -> Map<u8, u32> {
    let base = 8 + crate::layout_primitives::hub_port_index(port) * 8;
    Map::<u8, u32>::empty().insert(base as u8, pulse_strength as u32).insert((base + 1) as u8, pulse_duration as u32).insert(
        (base + 2) as u8,
        polarity,
    )
}

pub fn motor_configuration(port: HubPort, pulse_strength: u16, pulse_duration: u16, polarity: u32) -> (r: HubConfiguration)
    ensures
        r@ == motor_config_map(port, pulse_strength, pulse_duration, polarity),
{
    let base: u8 = 8 + port.to_u8() * 8;
    let mut config = HubConfiguration::new();
    config.add_value(base, pulse_strength as u32);
    config.add_value(base + 1, pulse_duration as u32);
    config.add_value(base + 2, polarity);
    config
}

/// Where a device's switch state goes: to the port of its hub, when it is
/// wired to one.
pub fn device_state_message(hub_id: Option<HubID>, port: Option<HubPort>, state: u8) -> (r: Option<HubDeviceStateMessage>)
    ensures
        match (hub_id, port) {
            (Some(h), Some(p)) => r == Some(HubDeviceStateMessage { hub_id: h, state_id: crate::layout_primitives::hub_port_index(p), state }),
            _ => r is None,
        },
{
    match (hub_id, port) {
        (Some(h), Some(p)) => Some(HubDeviceStateMessage { hub_id: h, state_id: p.to_u8(), state }),
        _ => None,
    }
}

/// A device wired to a hub port.
#[derive(Clone, Copy, Debug, PartialEq, Eq, Structural)]
pub struct LayoutDevice {
    pub id: LayoutDeviceID,
    pub hub_id: Option<HubID>,
    pub port: Option<HubPort>,
}

impl LayoutDevice {
    pub fn from_id(id: LayoutDeviceID) -> (r: Self)
        ensures
            r == (LayoutDevice { id, hub_id: None, port: None }),
    {
        LayoutDevice { id, hub_id: None, port: None }
    }

    /// How the editor lists the device: `<id>: <hub>-<port>`, the hub by
    /// its name (or id when unnamed), empty when the device has no hub (or
    /// the hub is not listed), the port empty when it has none.
    pub fn ui_label(&self, hubs: &Vec<(HubID, Option<String>)>) -> (r: String)
        ensures
            r@ == device_label(self, hubs@),
    {
        let mut v: Vec<char> = Vec::new();
        let id = self.id.to_string();
        crate::text::push_str(&mut v, id.as_str());
        crate::text::push_str(&mut v, ": ");
        match self.hub_id {
            Some(h) => {
                let name = hub_name_or_id_string(hubs, h);
                crate::text::push_str(&mut v, name.as_str());
            },
            None => {},
        }
        let ghost mid = v@;
        crate::text::push_str(&mut v, "-");
        match self.port {
            Some(p) => {
                let name = port_str(p);
                crate::text::push_str(&mut v, name);
            },
            None => {},
        }
        let r = crate::text::chars_to_string(&v);
        assert(r@ =~= device_label(self, hubs@));
        r
    }
}

pub open spec fn device_label(d: &LayoutDevice, hubs: Seq<(HubID, Option<String>)>) -> Seq<char> {
    let hub = match d.hub_id {
        Some(h) => hub_name_or_id(hubs, h),
        None => Seq::empty(),
    };
    let port = match d.port {
        Some(p) => port_name(p),
        None => Seq::empty(),
    };
    device_display(d.id) + ": "@ + hub + "-"@ + port
}

fn hub_name_or_id_string(hubs: &Vec<(HubID, Option<String>)>, h: HubID) -> (r: String)
    ensures
        r@ == hub_name_or_id(hubs@, h),
{
    let mut i: usize = 0;
    assert(hubs@.subrange(0, hubs@.len() as int) =~= hubs@);
    while i < hubs.len()
        invariant
            0 <= i <= hubs@.len(),
            hub_name_or_id(hubs@, h) == hub_name_or_id(hubs@.subrange(i as int, hubs@.len() as int), h),
        decreases hubs@.len() - i,
    {
        let ghost sub = hubs@.subrange(i as int, hubs@.len() as int);
        assert(sub[0] == hubs@[i as int]);
        if hubs[i].0 == h {
            return match &hubs[i].1 {
                Some(name) => name.clone(),
                None => h.to_string(),
            };
        }
        assert(sub.drop_first() =~= hubs@.subrange(i + 1, hubs@.len() as int));
        i = i + 1;
    }
    assert(hubs@.subrange(i as int, hubs@.len() as int).len() == 0);
    String::new()
}

/// The display form of a layout device: its kind and number.
pub open spec fn device_display(d: LayoutDeviceID) -> Seq<char> {
    let kind = match d.kind {
        crate::layout_primitives::LayoutDeviceType::PulseMotor => "PulseMotor"@,
        crate::layout_primitives::LayoutDeviceType::Signal => "Signal"@,
    };
    kind + crate::text::nat_digits(d.id as nat)
}

/// The name of the first listed hub with the id, or its id when it has no
/// name; empty when no hub has the id.
pub open spec fn hub_name_or_id(hubs: Seq<(HubID, Option<String>)>, id: HubID) -> Seq<char>
    decreases hubs.len(),
{
    if hubs.len() == 0 {
        Seq::empty()
    } else if hubs[0].0 == id {
        match hubs[0].1 {
            Some(name) => name@,
            None => crate::layout_display::hub_display(id),
        }
    } else {
        hub_name_or_id(hubs.drop_first(), id)
    }
}

pub open spec fn port_name(p: HubPort) -> Seq<char> {
    match p {
        HubPort::A => "A"@,
        HubPort::B => "B"@,
        HubPort::C => "C"@,
        HubPort::D => "D"@,
        HubPort::E => "E"@,
        HubPort::F => "F"@,
    }
}

fn port_str(p: HubPort) -> (r: &'static str)
    ensures
        r@ == port_name(p),
{
    match p {
        HubPort::A => "A",
        HubPort::B => "B",
        HubPort::C => "C",
        HubPort::D => "D",
        HubPort::E => "E",
        HubPort::F => "F",
    }
}

// ---------------------------------------------------------------------------
// Messages from hubs
// ---------------------------------------------------------------------------

/// A message a hub's program sends: data for its controller, a system
/// notice, or a dump of bytes.
#[derive(Clone, Debug)]
pub enum IOMessage {
    Data { id: u8, data: Vec<u8> },
    Sys { code: u8, data: Vec<u8> },
    Dump { id: u8, data: Vec<u8> },
}

/// A system notice of a hub's program. Voltage and current are in
/// thousandths of a volt and of an ampere.
#[derive(Clone, Debug)]
pub enum SysData {
    Stop,
    Ready,
    Alive { millivolts: u16, milliamps: u16 },
    Version(String),
}

/// The text that a sequence of bytes encodes in UTF-8, if it is valid UTF-8.
pub uninterp spec fn utf8_decoded(bytes: Seq<u8>) -> Option<Seq<char>>;

/// `std::str::from_utf8`: the text the bytes encode, or none when they are
/// not valid UTF-8. The decoding itself is not restated here.
#[verifier::external_body]
fn str_from_utf8(bytes: &[u8]) -> (r: Option<&str>)
    ensures
        match r {
            Some(s) => utf8_decoded(bytes@) == Some(s@),
            None => utf8_decoded(bytes@) is None,
        },
{
    match std::str::from_utf8(bytes) {
        Ok(s) => Some(s),
        Err(_) => None,
    }
}

/// A big-endian 16-bit number from two bytes.
pub open spec fn be_u16(hi: u8, lo: u8) -> u16 {
    (hi as u16 * 256 + lo as u16) as u16
}

pub fn u16_from_be_bytes(hi: u8, lo: u8) -> (r: u16)
    ensures
        r == be_u16(hi, lo),
{
    hi as u16 * 256 + lo as u16
}

/// The system notice a message carries, by its code: stop, ready, alive
/// with voltage and current, or the program's version text.
pub open spec fn sys_data_of(code: u8, data: Seq<u8>) -> Option<SysData> {
    if code == 0 {
        Some(SysData::Stop)
    } else if code == 1 {
        Some(SysData::Ready)
    } else if code == 2 {
        Some(SysData::Alive { millivolts: be_u16(data[0], data[1]), milliamps: be_u16(data[2], data[3]) })
    } else {
        None
    }
}

impl SysData {
    /// The system notice in a message, if it is one this controller knows.
    pub fn from_io_message(msg: &IOMessage) -> (r: Option<SysData>)
        requires
            msg matches IOMessage::Sys { code, data } ==> (code == 2 ==> data@.len() >= 4),
        ensures
            match *msg {
                IOMessage::Sys { code, data } => if code == 3 {
                    match utf8_decoded(data@) {
                        Some(text) => r matches Some(SysData::Version(v)) && v@ == text,
                        None => r is None,
                    }
                } else {
                    r == sys_data_of(code, data@)
                },
                _ => r is None,
            },
    {
        match msg {
            IOMessage::Sys { code, data } => {
                if *code == 0 {
                    Some(SysData::Stop)
                } else if *code == 1 {
                    Some(SysData::Ready)
                } else if *code == 2 {
                    Some(SysData::Alive {
                        millivolts: u16_from_be_bytes(data[0], data[1]),
                        milliamps: u16_from_be_bytes(data[2], data[3]),
                    })
                } else if *code == 3 {
                    match str_from_utf8(data.as_slice()) {
                        Some(version) => Some(SysData::Version(version.to_owned())),
                        None => None,
                    }
                } else {
                    None
                }
            },
            _ => None,
        }
    }
}

// ---------------------------------------------------------------------------
// The configuration of every hub
// ---------------------------------------------------------------------------

/// What a switch motor adds to the configuration of hub `h`: its values,
/// when it is wired to that hub.
pub open spec fn motor_contribution(m: (crate::switch_motor::PulseMotor, LayoutDevice), h: HubID) -> Option<Map<u8, u32>> {
    if m.1.hub_id == Some(h) {
        Some(motor_config_map(m.1.port->0, m.0.pulse_strength, m.0.pulse_duration, m.0.polarity.to_u32_spec()))
    } else {
        None
    }
}

/// What a train adds to the configuration of hub `h`: its values, when the
/// hub is one of the train's.
pub open spec fn train_contribution(t: crate::ble_train::BLETrain, h: HubID) -> Option<Map<u8, u32>> {
    let c = crate::ble_train::train_configs(&t, seq![t.master_hub] + t.puppets@);
    if c.contains_key(h) {
        Some(c[h])
    } else {
        None
    }
}

pub open spec fn motors_union(ms: Seq<(crate::switch_motor::PulseMotor, LayoutDevice)>, h: HubID) -> Map<u8, u32>
    decreases ms.len(),
{
    if ms.len() == 0 {
        Map::empty()
    } else {
        let rest = motors_union(ms.drop_last(), h);
        match motor_contribution(ms.last(), h) {
            Some(c) => rest.union_prefer_right(c),
            None => rest,
        }
    }
}

pub open spec fn trains_union(ts: Seq<crate::ble_train::BLETrain>, h: HubID) -> Map<u8, u32>
    decreases ts.len(),
{
    if ts.len() == 0 {
        Map::empty()
    } else {
        let rest = trains_union(ts.drop_last(), h);
        match train_contribution(ts.last(), h) {
            Some(c) => rest.union_prefer_right(c),
            None => rest,
        }
    }
}

/// The communication type of a hub, at address 30.
pub open spec fn hub_base_config(e: HubEntry) -> Map<u8, u32> {
    map![30u8 => if e.state.observer is Some { 1u32 } else if e.state.broadcaster { 2u32 } else { 0u32 }]
}

/// A hub's whole configuration: its communication type, then the values of
/// the motors wired to it and of the trains it drives.
pub open spec fn hub_full_config(
    e: HubEntry,
    motors: Seq<(crate::switch_motor::PulseMotor, LayoutDevice)>,
    trains: Seq<crate::ble_train::BLETrain>,
) -> Map<u8, u32> {
    hub_base_config(e).union_prefer_right(motors_union(motors, e.id)).union_prefer_right(trains_union(trains, e.id))
}

/// Nothing two sources put into one hub's configuration lands at the same
/// address, and none of them uses the communication type's address.
pub open spec fn contributions_disjoint(
    motors: Seq<(crate::switch_motor::PulseMotor, LayoutDevice)>,
    trains: Seq<crate::ble_train::BLETrain>,
) -> bool {
    &&& forall|i: int, h: HubID| 0 <= i < motors.len() && #[trigger] motor_contribution(motors[i], h) is Some
        ==> !motor_contribution(motors[i], h)->0.contains_key(30u8)
    &&& forall|j: int, h: HubID| 0 <= j < trains.len() && #[trigger] train_contribution(trains[j], h) is Some
        ==> !train_contribution(trains[j], h)->0.contains_key(30u8)
    &&& forall|i1: int, i2: int, h: HubID| 0 <= i1 < i2 < motors.len() && #[trigger] motor_contribution(motors[i1], h) is Some
        && #[trigger] motor_contribution(motors[i2], h) is Some ==> motor_contribution(motors[i1], h)->0.dom().disjoint(
        motor_contribution(motors[i2], h)->0.dom(),
    )
    &&& forall|j1: int, j2: int, h: HubID| 0 <= j1 < j2 < trains.len() && #[trigger] train_contribution(trains[j1], h) is Some
        && #[trigger] train_contribution(trains[j2], h) is Some ==> train_contribution(trains[j1], h)->0.dom().disjoint(
        train_contribution(trains[j2], h)->0.dom(),
    )
    &&& forall|i: int, j: int, h: HubID| 0 <= i < motors.len() && 0 <= j < trains.len() && #[trigger] motor_contribution(motors[i], h) is Some
        && #[trigger] train_contribution(trains[j], h) is Some ==> motor_contribution(motors[i], h)->0.dom().disjoint(
        train_contribution(trains[j], h)->0.dom(),
    )
}

proof fn lemma_motors_union_dom(ms: Seq<(crate::switch_motor::PulseMotor, LayoutDevice)>, h: HubID, x: u8)
    requires
        motors_union(ms, h).contains_key(x),
    ensures
        exists|i: int| 0 <= i < ms.len() && #[trigger] motor_contribution(ms[i], h) is Some && motor_contribution(ms[i], h)->0.contains_key(x),
    decreases ms.len(),
{
    let rest = ms.drop_last();
    let last = ms.len() - 1;
    match motor_contribution(ms.last(), h) {
        Some(c) => {
            if c.contains_key(x) {
                assert(motor_contribution(ms[last], h) is Some);
            } else {
                lemma_motors_union_dom(rest, h, x);
                let i = choose|i: int| 0 <= i < rest.len() && #[trigger] motor_contribution(rest[i], h) is Some && motor_contribution(rest[i], h)->0.contains_key(x);
                assert(ms[i] == rest[i]);
            }
        },
        None => {
            lemma_motors_union_dom(rest, h, x);
            let i = choose|i: int| 0 <= i < rest.len() && #[trigger] motor_contribution(rest[i], h) is Some && motor_contribution(rest[i], h)->0.contains_key(x);
            assert(ms[i] == rest[i]);
        },
    }
}

proof fn lemma_trains_union_dom(ts: Seq<crate::ble_train::BLETrain>, h: HubID, x: u8)
    requires
        trains_union(ts, h).contains_key(x),
    ensures
        exists|j: int| 0 <= j < ts.len() && #[trigger] train_contribution(ts[j], h) is Some && train_contribution(ts[j], h)->0.contains_key(x),
    decreases ts.len(),
{
    let rest = ts.drop_last();
    let last = ts.len() - 1;
    match train_contribution(ts.last(), h) {
        Some(c) => {
            if c.contains_key(x) {
                assert(train_contribution(ts[last], h) is Some);
            } else {
                lemma_trains_union_dom(rest, h, x);
                let j = choose|j: int| 0 <= j < rest.len() && #[trigger] train_contribution(rest[j], h) is Some && train_contribution(rest[j], h)->0.contains_key(x);
                assert(ts[j] == rest[j]);
            }
        },
        None => {
            lemma_trains_union_dom(rest, h, x);
            let j = choose|j: int| 0 <= j < rest.len() && #[trigger] train_contribution(rest[j], h) is Some && train_contribution(rest[j], h)->0.contains_key(x);
            assert(ts[j] == rest[j]);
        },
    }
}

/// The configuration of one hub.
fn hub_config_for(
    e: &HubEntry,
    motors: &Vec<(crate::switch_motor::PulseMotor, LayoutDevice)>,
    train_configs: &Vec<crate::keyed::KeyedMap<HubID, HubConfiguration>>,
    Ghost(trains): Ghost<Seq<crate::ble_train::BLETrain>>,
) -> (r: HubConfiguration)
    requires
        !(e.state.observer is Some && e.state.broadcaster),
        forall|i: int| 0 <= i < motors@.len() && (#[trigger] motors@[i]).1.hub_id is Some ==> motors@[i].1.port is Some,
        contributions_disjoint(motors@, trains),
        train_configs@.len() == trains.len(),
        forall|j: int, h: HubID| 0 <= j < trains.len() ==> (#[trigger] train_configs@[j]@.contains_key(h) <==> train_contribution(trains[j], h) is Some),
        forall|j: int, h: HubID| 0 <= j < trains.len() && #[trigger] train_configs@[j]@.contains_key(h) ==> train_configs@[j]@[h]@ == train_contribution(trains[j], h)->0,
    ensures
        r@ == hub_full_config(*e, motors@, trains),
{
    let mut config = HubConfiguration::new();
    let kind = HubCommType::from_flags(e.state.observer.is_some(), e.state.broadcaster);
    config.add_value(30, kind.to_u8() as u32);
    assert(config@ =~= hub_base_config(*e));
    let mut i: usize = 0;
    while i < motors.len()
        invariant
            0 <= i <= motors@.len(),
            forall|k: int| 0 <= k < motors@.len() && (#[trigger] motors@[k]).1.hub_id is Some ==> motors@[k].1.port is Some,
            contributions_disjoint(motors@, trains),
            config@ == hub_base_config(*e).union_prefer_right(motors_union(motors@.subrange(0, i as int), e.id)),
        decreases motors@.len() - i,
    {
        let (motor, device) = &motors[i];
        proof {
            let sub = motors@.subrange(0, i + 1);
            assert(sub.drop_last() =~= motors@.subrange(0, i as int));
            assert(sub.last() == motors@[i as int]);
        }
        if device.hub_id == Some(e.id) {
            assert(motors@[i as int].1.hub_id is Some);
            match motor.hub_configuration(device) {
                Some((_, motor_config)) => {
                    proof {
                        assert(motor_contribution(motors@[i as int], e.id) is Some);
                        assert forall|x: u8| config@.contains_key(x) implies !motor_config@.contains_key(x) by {
                            if x != 30u8 {
                                lemma_motors_union_dom(motors@.subrange(0, i as int), e.id, x);
                                let k = choose|k: int| 0 <= k < i && #[trigger] motor_contribution(motors@.subrange(0, i as int)[k], e.id) is Some
                                    && motor_contribution(motors@.subrange(0, i as int)[k], e.id)->0.contains_key(x);
                                assert(motors@.subrange(0, i as int)[k] == motors@[k]);
                                assert(motor_contribution(motors@[k], e.id)->0.dom().disjoint(motor_contribution(motors@[i as int], e.id)->0.dom()));
                            }
                        }
                    }
                    config.merge(&motor_config);
                },
                None => {},
            }
        }
        i = i + 1;
    }
    assert(motors@.subrange(0, motors@.len() as int) =~= motors@);
    let ghost after_motors = config@;
    let mut j: usize = 0;
    while j < train_configs.len()
        invariant
            0 <= j <= train_configs@.len(),
            train_configs@.len() == trains.len(),
            contributions_disjoint(motors@, trains),
            forall|k: int, h: HubID| 0 <= k < trains.len() ==> (#[trigger] train_configs@[k]@.contains_key(h) <==> train_contribution(trains[k], h) is Some),
            forall|k: int, h: HubID| 0 <= k < trains.len() && #[trigger] train_configs@[k]@.contains_key(h) ==> train_configs@[k]@[h]@ == train_contribution(trains[k], h)->0,
            after_motors == hub_base_config(*e).union_prefer_right(motors_union(motors@, e.id)),
            config@ == after_motors.union_prefer_right(trains_union(trains.subrange(0, j as int), e.id)),
        decreases train_configs@.len() - j,
    {
        proof {
            let sub = trains.subrange(0, j + 1);
            assert(sub.drop_last() =~= trains.subrange(0, j as int));
            assert(sub.last() == trains[j as int]);
        }
        match train_configs[j].get(&e.id) {
            Some(train_config) => {
                proof {
                    assert(train_contribution(trains[j as int], e.id) is Some);
                    assert forall|x: u8| config@.contains_key(x) implies !train_config@.contains_key(x) by {
                        if trains_union(trains.subrange(0, j as int), e.id).contains_key(x) {
                            lemma_trains_union_dom(trains.subrange(0, j as int), e.id, x);
                            let k = choose|k: int| 0 <= k < j && #[trigger] train_contribution(trains.subrange(0, j as int)[k], e.id) is Some
                                && train_contribution(trains.subrange(0, j as int)[k], e.id)->0.contains_key(x);
                            assert(trains.subrange(0, j as int)[k] == trains[k]);
                            assert(train_contribution(trains[k], e.id)->0.dom().disjoint(train_contribution(trains[j as int], e.id)->0.dom()));
                        } else if motors_union(motors@, e.id).contains_key(x) {
                            lemma_motors_union_dom(motors@, e.id, x);
                            let k = choose|k: int| 0 <= k < motors@.len() && #[trigger] motor_contribution(motors@[k], e.id) is Some
                                && motor_contribution(motors@[k], e.id)->0.contains_key(x);
                            assert(motor_contribution(motors@[k], e.id)->0.dom().disjoint(train_contribution(trains[j as int], e.id)->0.dom()));
                        }
                    }
                }
                config.merge(train_config);
            },
            None => {},
        }
        j = j + 1;
    }
    assert(trains.subrange(0, trains.len() as int) =~= trains);
    config
}

/// The configuration of every hub: its communication type, and the values
/// of the switch motors wired to it and of the trains it drives.
pub fn get_hub_configs(
    hubs: &Vec<HubEntry>,
    motors: &Vec<(crate::switch_motor::PulseMotor, LayoutDevice)>,
    trains: &Vec<crate::ble_train::BLETrain>,
) -> (r: crate::keyed::KeyedMap<HubID, HubConfiguration>)
    requires
        forall|a: int, b: int| 0 <= a < b < hubs@.len() ==> hubs@[a].id != hubs@[b].id,
        forall|a: int| 0 <= a < hubs@.len() ==> !((#[trigger] hubs@[a]).state.observer is Some && hubs@[a].state.broadcaster),
        forall|i: int| 0 <= i < motors@.len() && (#[trigger] motors@[i]).1.hub_id is Some ==> motors@[i].1.port is Some
            && exists|a: int| 0 <= a < hubs@.len() && hubs@[a].id == motors@[i].1.hub_id->0,
        forall|j: int, h: HubID| 0 <= j < trains@.len() && #[trigger] train_contribution(trains@[j], h) is Some
            ==> exists|a: int| 0 <= a < hubs@.len() && hubs@[a].id == h,
        contributions_disjoint(motors@, trains@),
    ensures
        forall|h: HubID| r@.contains_key(h) <==> exists|a: int| 0 <= a < hubs@.len() && #[trigger] hubs@[a].id == h,
        forall|a: int| 0 <= a < hubs@.len() ==> r@[(#[trigger] hubs@[a]).id]@ == hub_full_config(hubs@[a], motors@, trains@),
{
    let mut train_configs: Vec<crate::keyed::KeyedMap<HubID, HubConfiguration>> = Vec::new();
    let mut j: usize = 0;
    while j < trains.len()
        invariant
            0 <= j <= trains@.len(),
            train_configs@.len() == j,
            forall|k: int, h: HubID| 0 <= k < j ==> (#[trigger] train_configs@[k]@.contains_key(h) <==> train_contribution(trains@[k], h) is Some),
            forall|k: int, h: HubID| 0 <= k < j && #[trigger] train_configs@[k]@.contains_key(h) ==> train_configs@[k]@[h]@ == train_contribution(trains@[k], h)->0,
        decreases trains@.len() - j,
    {
        train_configs.push(trains[j].hubs_configuration());
        j = j + 1;
    }
    let mut configs: crate::keyed::KeyedMap<HubID, HubConfiguration> = crate::keyed::KeyedMap::new();
    let mut a: usize = 0;
    while a < hubs.len()
        invariant
            0 <= a <= hubs@.len(),
            forall|x: int, y: int| 0 <= x < y < hubs@.len() ==> hubs@[x].id != hubs@[y].id,
            forall|x: int| 0 <= x < hubs@.len() ==> !((#[trigger] hubs@[x]).state.observer is Some && hubs@[x].state.broadcaster),
            forall|i: int| 0 <= i < motors@.len() && (#[trigger] motors@[i]).1.hub_id is Some ==> motors@[i].1.port is Some,
            contributions_disjoint(motors@, trains@),
            train_configs@.len() == trains@.len(),
            forall|k: int, h: HubID| 0 <= k < trains@.len() ==> (#[trigger] train_configs@[k]@.contains_key(h) <==> train_contribution(trains@[k], h) is Some),
            forall|k: int, h: HubID| 0 <= k < trains@.len() && #[trigger] train_configs@[k]@.contains_key(h) ==> train_configs@[k]@[h]@ == train_contribution(trains@[k], h)->0,
            forall|h: HubID| configs@.contains_key(h) <==> exists|x: int| 0 <= x < a && #[trigger] hubs@[x].id == h,
            forall|x: int| 0 <= x < a ==> configs@[(#[trigger] hubs@[x]).id]@ == hub_full_config(hubs@[x], motors@, trains@),
        decreases hubs@.len() - a,
    {
        let e = &hubs[a];
        let config = hub_config_for(e, motors, &train_configs, Ghost(trains@));
        configs.insert(e.id, config);
        proof {
            assert forall|h: HubID| configs@.contains_key(h) <==> exists|x: int| 0 <= x < a + 1 && #[trigger] hubs@[x].id == h by {
                if h == e.id {
                    assert(hubs@[a as int].id == h);
                }
            }
            assert forall|x: int| 0 <= x < a + 1 implies configs@[(#[trigger] hubs@[x]).id]@ == hub_full_config(hubs@[x], motors@, trains@) by {
                if x < a {
                    assert(hubs@[x].id != hubs@[a as int].id);
                }
            }
        }
        a = a + 1;
    }
    configs
}

// ---------------------------------------------------------------------------
// Device states and labels
// ---------------------------------------------------------------------------

/// The hub with this id among the hubs, if any.
pub open spec fn entry_of(hubs: Seq<HubEntry>, id: HubID) -> Option<HubEntry> {
    if exists|a: int| 0 <= a < hubs.len() && hubs[a].id == id {
        Some(hubs[choose|a: int| 0 <= a < hubs.len() && hubs[a].id == id])
    } else {
        None
    }
}

fn find_entry(hubs: &Vec<HubEntry>, id: HubID) -> (r: Option<usize>)
    ensures
        match r {
            Some(a) => a < hubs@.len() && hubs@[a as int].id == id,
            None => forall|a: int| 0 <= a < hubs@.len() ==> hubs@[a].id != id,
        },
{
    let mut a: usize = 0;
    while a < hubs.len()
        invariant
            0 <= a <= hubs@.len(),
            forall|x: int| 0 <= x < a ==> hubs@[x].id != id,
        decreases hubs@.len() - a,
    {
        if hubs[a].id == id {
            return Some(a);
        }
        a = a + 1;
    }
    None
}

/// A device's new state is sent to the hub it is wired to, unless that hub
/// only listens to broadcasts: a call of `set_device_state` with the state
/// id and the state. The hub must be known.
pub fn handle_device_state_msgs(msg: &HubDeviceStateMessage, hubs: &Vec<HubEntry>) -> (r: Option<HubCommandMessage>)
    requires
        forall|a: int, b: int| 0 <= a < b < hubs@.len() ==> hubs@[a].id != hubs@[b].id,
        exists|a: int| 0 <= a < hubs@.len() && hubs@[a].id == msg.hub_id,
    ensures
        ({
            let e = entry_of(hubs@, msg.hub_id)->0;
            if e.state.observer is Some {
                r is None
            } else {
                r matches Some(m) && m.hub_id == msg.hub_id && (m.command matches HubCommand::QueueInput(HubInput::Rpc { name, args })
                    && name@ == "set_device_state"@ && args@ == seq![msg.state_id, msg.state])
            }
        }),
{
    let a = match find_entry(hubs, msg.hub_id) {
        Some(a) => a,
        None => {
            proof {
                let x = choose|x: int| 0 <= x < hubs@.len() && hubs@[x].id == msg.hub_id;
                assert(hubs@[x].id != msg.hub_id);
            }
            return None;
        },
    };
    proof {
        let c = choose|x: int| 0 <= x < hubs@.len() && hubs@[x].id == msg.hub_id;
        if c != a as int {
            if c < a {
                assert(hubs@[c].id != hubs@[a as int].id);
            } else {
                assert(hubs@[a as int].id != hubs@[c].id);
            }
        }
    }
    if hubs[a].state.observer.is_some() {
        return None;
    }
    let args = vec![msg.state_id, msg.state];
    let name = crate::text::chars_to_string(&crate::text::str_chars("set_device_state"));
    Some(HubCommandMessage { hub_id: msg.hub_id, command: HubCommand::QueueInput(HubInput::Rpc { name, args }) })
}

/// A device's new state for a hub that only listens to broadcasts goes to
/// the broadcasting hub, as a broadcast of the listening hub's name id, the
/// state id and the state. The hub must be known; when it listens, the
/// broadcaster and its name id must be known too.
pub fn handle_observer_device_state_msgs(
    msg: &HubDeviceStateMessage,
    hubs: &Vec<HubEntry>,
    broadcaster: Option<HubID>,
    observer_name_id: Option<u8>,
) -> (r: Option<HubCommandMessage>)
    requires
        forall|a: int, b: int| 0 <= a < b < hubs@.len() ==> hubs@[a].id != hubs@[b].id,
        exists|a: int| 0 <= a < hubs@.len() && hubs@[a].id == msg.hub_id,
        entry_of(hubs@, msg.hub_id)->0.state.observer is Some ==> broadcaster is Some && observer_name_id is Some,
    ensures
        ({
            let e = entry_of(hubs@, msg.hub_id)->0;
            if e.state.observer is Some {
                r matches Some(m) && m.hub_id == broadcaster->0 && (m.command matches HubCommand::QueueInput(HubInput::BroadcastCmd(bytes))
                    && bytes@ == seq![observer_name_id->0, msg.state_id, msg.state])
            } else {
                r is None
            }
        }),
{
    let a = match find_entry(hubs, msg.hub_id) {
        Some(a) => a,
        None => {
            proof {
                let x = choose|x: int| 0 <= x < hubs@.len() && hubs@[x].id == msg.hub_id;
                assert(hubs@[x].id != msg.hub_id);
            }
            return None;
        },
    };
    proof {
        let c = choose|x: int| 0 <= x < hubs@.len() && hubs@[x].id == msg.hub_id;
        if c != a as int {
            if c < a {
                assert(hubs@[c].id != hubs@[a as int].id);
            } else {
                assert(hubs@[a as int].id != hubs@[c].id);
            }
        }
    }
    if hubs[a].state.observer.is_none() {
        return None;
    }
    let bytes = vec![observer_name_id.unwrap(), msg.state_id, msg.state];
    Some(HubCommandMessage { hub_id: broadcaster.unwrap(), command: HubCommand::QueueInput(HubInput::BroadcastCmd(bytes)) })
}

/// How the editor names a hub: by its name, or `Unkown <id>` for a hub
/// without name or not among the hubs.
pub open spec fn hub_label(hubs: Seq<(HubID, Option<String>)>, id: HubID) -> Seq<char>
    decreases hubs.len(),
{
    if hubs.len() == 0 {
        "Unkown "@ + crate::layout_display::hub_display(id)
    } else if hubs[0].0 == id {
        match hubs[0].1 {
            Some(name) => name@,
            None => "Unkown "@ + crate::layout_display::hub_display(id),
        }
    } else {
        hub_label(hubs.drop_first(), id)
    }
}

pub fn get_hub_label(hubs: &Vec<(HubID, Option<String>)>, id: &HubID) -> (r: String)
    ensures
        r@ == hub_label(hubs@, *id),
{
    let mut i: usize = 0;
    assert(hubs@.subrange(0, hubs@.len() as int) =~= hubs@);
    while i < hubs.len()
        invariant
            0 <= i <= hubs@.len(),
            hub_label(hubs@, *id) == hub_label(hubs@.subrange(i as int, hubs@.len() as int), *id),
        decreases hubs@.len() - i,
    {
        let ghost sub = hubs@.subrange(i as int, hubs@.len() as int);
        assert(sub[0] == hubs@[i as int]);
        if hubs[i].0 == *id {
            return match &hubs[i].1 {
                Some(name) => name.clone(),
                None => unknown_label(id),
            };
        }
        assert(sub.drop_first() =~= hubs@.subrange(i + 1, hubs@.len() as int));
        i = i + 1;
    }
    assert(hubs@.subrange(i as int, hubs@.len() as int).len() == 0);
    unknown_label(id)
}

fn unknown_label(id: &HubID) -> (r: String)
    ensures
        r@ == "Unkown "@ + crate::layout_display::hub_display(*id),
{
    let mut v: Vec<char> = Vec::new();
    crate::text::push_str(&mut v, "Unkown ");
    let s = id.to_string();
    crate::text::push_str(&mut v, s.as_str());
    crate::text::chars_to_string(&v)
}

// ---------------------------------------------------------------------------
// The hub panel
// ---------------------------------------------------------------------------

/// Which commands the hub panel lets the user give: a name can always be
/// discovered; an idle hub with a name can be connected; an idle connected
/// hub can be disconnected or get the program; its downloaded program can
/// be started when it does not run, and stopped when it does.
pub open spec fn command_enabled(s: HubState, has_name: bool, c: HubCommand) -> bool {
    match c {
        HubCommand::DiscoverName => true,
        HubCommand::Connect => has_name && !s.connected && s.busy is None,
        HubCommand::Disconnect => s.connected && s.busy is None,
        HubCommand::DownloadProgram => s.connected && s.busy is None,
        HubCommand::StartProgram => s.downloaded && s.busy is None && s.connected && !s.running,
        HubCommand::StopProgram => s.connected && s.busy is None && s.running,
        _ => false,
    }
}

/// Whether the hub panel offers the command for the hub.
pub fn hub_command_enabled(state: &HubState, has_name: bool, command: &HubCommand) -> (r: bool)
    ensures
        r == command_enabled(*state, has_name, *command),
{
    match command {
        HubCommand::DiscoverName => true,
        HubCommand::Connect => has_name && !state.connected && state.busy.is_none(),
        HubCommand::Disconnect => state.connected && state.busy.is_none(),
        HubCommand::DownloadProgram => state.connected && state.busy.is_none(),
        HubCommand::StartProgram => state.downloaded && state.busy.is_none() && state.connected && !state.running,
        HubCommand::StopProgram => state.connected && state.busy.is_none() && state.running,
        _ => false,
    }
}

/// The observer box of the hub panel: ticking it makes the hub an observer
/// that need not stay connected, unticking it makes it a regular hub; a
/// box that stays as it was changes nothing.
pub fn set_observer(state: &mut HubState, is_observer: bool)
    ensures
        *final(state) == (HubState {
            observer: if is_observer {
                if old(state).observer is Some {
                    old(state).observer
                } else {
                    Some(ObserverHub { keep_connected: false })
                }
            } else {
                None
            },
            ..*old(state)
        }),
{
    if is_observer {
        if state.observer.is_none() {
            state.observer = Some(ObserverHub { keep_connected: false });
        }
    } else {
        state.observer = None;
    }
}

// ---------------------------------------------------------------------------
// A hub and the program it runs
// ---------------------------------------------------------------------------

/// A Bluetooth hub: its id and, once discovered, its name. (The connection
/// itself lives with the program that talks to the hub.)
#[derive(Clone, Debug)]
pub struct BLEHub {
    pub id: HubID,
    pub name: Option<String>,
}

/// Where the program for a kind of hub lies.
pub open spec fn program_path(kind: crate::layout_primitives::HubType) -> Seq<char> {
    match kind {
        crate::layout_primitives::HubType::Layout => "pybricks/programs/mpy/layout_controller.mpy"@,
        crate::layout_primitives::HubType::Train => "pybricks/programs/mpy/smart_train.mpy"@,
    }
}

impl BLEHub {
    pub fn new(id: HubID) -> (r: Self)
        ensures
            r.id == id,
            r.name is None,
    {
        BLEHub { id, name: None }
    }

    /// The program file for the hub: the layout controller for a layout
    /// hub, the smart train program for a train hub.
    pub fn get_program_path(&self) -> (r: &'static str)
        ensures
            r@ == program_path(self.id.kind),
    {
        let r = match self.id.kind {
            crate::layout_primitives::HubType::Layout => "pybricks/programs/mpy/layout_controller.mpy",
            crate::layout_primitives::HubType::Train => "pybricks/programs/mpy/smart_train.mpy",
        };
        proof {
            reveal_strlit("pybricks/programs/mpy/layout_controller.mpy");
            reveal_strlit("pybricks/programs/mpy/smart_train.mpy");
        }
        r
    }

    /// The hash of the hub's program, from the contents of its program file.
    pub fn get_program_hash(&self, program: &[u8]) -> (r: String)
        ensures
            r@ == crate::utils::hex_lower(crate::utils::sha256(program@)),
    {
        crate::utils::get_file_hash(program)
    }

    /// Whether the hub, by its name, is known to hold the program with this hash.
    pub fn is_marked_downloaded_in_persistent_cache(
        &self,
        settings: &crate::persistent_hub_state::PersistentHubState,
        program_hash: &String,
    ) -> (r: bool)
        requires
            settings.wf(),
        ensures
            r == match self.name {
                Some(name) => settings.hashes_view().contains_key(name@) && settings.hashes_view()[name@] == program_hash@,
                None => false,
            },
    {
        settings.is_marked_downloaded(&self.name, program_hash)
    }

    /// Remembers, by the hub's name, that it holds the program with this hash.
    pub fn sync_persistent_state_downloaded_program(
        &self,
        settings: &mut crate::persistent_hub_state::PersistentHubState,
        program_hash: &String,
    )
        requires
            old(settings).wf(),
        ensures
            final(settings).wf(),
            final(settings).hashes_view() == match self.name {
                Some(name) => old(settings).hashes_view().insert(name@, program_hash@),
                None => old(settings).hashes_view(),
            },
            final(settings).configs_view() == old(settings).configs_view(),
    {
        settings.mark_downloaded(&self.name, program_hash)
    }
}

// ---------------------------------------------------------------------------
// Events from hubs
// ---------------------------------------------------------------------------

/// What the connection to a hub reports.
#[derive(Debug)]
pub enum HubEvent {
    /// The hub's name was found.
    NameDiscovered(String),
    /// A message of the hub's program.
    Message(IOMessage),
    /// A status report, with whether a program runs.
    Status(bool),
    /// Download progress, in thousandths.
    DownloadProgress(u16),
}

/// What an event does to a hub's flags `s`, judged by the flags `snap` the
/// hub had when the batch began: a status report as `status_effect` says,
/// the ready notice makes it ready, download progress makes it busy
/// downloading, anything else nothing.
pub open spec fn event_effect(snap: HubState, s: HubState, e: HubEvent) -> HubState {
    match e {
        HubEvent::Status(running) => status_effect(snap, s, running),
        HubEvent::Message(IOMessage::Sys { code, .. }) => if code == 1 { ready_effect(snap, s) } else { s },
        HubEvent::DownloadProgress(p) => HubState { busy: Some(HubBusy::Downloading(p)), ..s },
        _ => s,
    }
}

/// The first event from `i` on that names a hub (the number of events
/// when none does): events are handled up to it, and none after it.
pub open spec fn first_name_event(events: Seq<(usize, HubEvent)>, i: int) -> int
    decreases events.len() - i,
{
    if i >= events.len() {
        events.len() as int
    } else if events[i].1 is NameDiscovered {
        i
    } else {
        first_name_event(events, i + 1)
    }
}

/// The hubs' flags after the first `k` events of a batch that began with
/// the flags `states`: each event is judged by the flags its hub had when
/// the batch began, and its changes are made in turn.
pub open spec fn states_after(states: Seq<HubState>, events: Seq<(usize, HubEvent)>, k: int) -> Seq<HubState>
    decreases k,
{
    if k <= 0 {
        states
    } else {
        let st = states_after(states, events, k - 1);
        let (i, e) = events[k - 1];
        if i < st.len() {
            st.update(i as int, event_effect(states[i as int], st[i as int], e))
        } else {
            st
        }
    }
}

/// The events among the first `k` that are handed on as train data: the
/// messages of train hubs other than system notices, by their number.
pub open spec fn train_events(hubs: Seq<BLEHub>, events: Seq<(usize, HubEvent)>, k: int) -> Seq<usize>
    decreases k,
{
    if k <= 0 {
        Seq::empty()
    } else {
        let rest = train_events(hubs, events, k - 1);
        let (i, e) = events[k - 1];
        if e matches HubEvent::Message(m) && !(m is Sys) && i < hubs.len() && hubs[i as int].id.kind
            == crate::layout_primitives::HubType::Train {
            rest.push((k - 1) as usize)
        } else {
            rest
        }
    }
}

/// A system notice the controller can read.
pub open spec fn sys_readable(m: IOMessage) -> bool {
    m matches IOMessage::Sys { code, data } ==> code <= 3 && (code == 2 ==> data@.len() >= 4) && (code == 3
        ==> utf8_decoded(data@) is Some)
}

/// An event whose system notice, if it carries one, can be read.
pub open spec fn event_readable(e: HubEvent) -> bool {
    e matches HubEvent::Message(m) ==> sys_readable(m)
}

proof fn lemma_first_name_event_bounds(events: Seq<(usize, HubEvent)>, i: int)
    requires
        0 <= i <= events.len(),
    ensures
        i <= first_name_event(events, i) <= events.len(),
        forall|k: int| i <= k < first_name_event(events, i) ==> !(events[k].1 is NameDiscovered),
        first_name_event(events, i) < events.len() ==> events[first_name_event(events, i)].1 is NameDiscovered,
    decreases events.len() - i,
{
    if i < events.len() && !(events[i].1 is NameDiscovered) {
        lemma_first_name_event_bounds(events, i + 1);
    }
}

/// A copy of the hubs' flags.
fn copy_states(states: &Vec<HubState>) -> (r: Vec<HubState>)
    ensures
        r@ == states@,
{
    let mut r: Vec<HubState> = Vec::new();
    let mut i: usize = 0;
    while i < states.len()
        invariant
            i <= states@.len(),
            r@ == states@.take(i as int),
        decreases states@.len() - i,
    {
        r.push(states[i]);
        i = i + 1;
        proof {
            assert(r@ == states@.take(i as int));
        }
    }
    proof {
        assert(states@.take(states@.len() as int) == states@);
    }
    r
}

/// Handles a batch of events from hubs, each given with the number of its
/// hub, in order: status reports, the ready notice and download progress
/// change the hub's flags, a train hub's other messages are handed on as
/// train data (the result lists them by number), and a discovered name is
/// stored, which ends the handling: the events after it are left unhandled
/// (for a later call). Each event is judged by the flags its hub had when
/// the batch began, not by the changes of earlier events of the same batch;
/// those changes are made in turn, so two reports on one hub in one batch
/// (running, then stopped) can end otherwise than if handled one by one.
pub fn handle_hub_messages(hubs: &mut Vec<BLEHub>, states: &mut Vec<HubState>, events: &Vec<(usize, HubEvent)>) -> (r: Vec<usize>)
    requires
        old(hubs)@.len() == old(states)@.len(),
        forall|k: int| 0 <= k < events@.len() ==> (#[trigger] events@[k]).0 < old(hubs)@.len(),
        forall|k: int| 0 <= k < first_name_event(events@, 0) ==> event_readable(#[trigger] events@[k].1),
    ensures
        final(hubs)@.len() == old(hubs)@.len(),
        final(states)@ == states_after(old(states)@, events@, first_name_event(events@, 0)),
        r@ == train_events(old(hubs)@, events@, first_name_event(events@, 0)),
        forall|j: int| 0 <= j < final(hubs)@.len() ==> (#[trigger] final(hubs)@[j]).id == old(hubs)@[j].id,
        first_name_event(events@, 0) < events@.len() ==> {
            let (i, e) = events@[first_name_event(events@, 0)];
            &&& forall|j: int| 0 <= j < final(hubs)@.len() && j != i ==> #[trigger] final(hubs)@[j] == old(hubs)@[j]
            &&& e matches HubEvent::NameDiscovered(n) && final(hubs)@[i as int].name matches Some(m) && m@ == n@
        },
        first_name_event(events@, 0) == events@.len() ==> final(hubs)@ == old(hubs)@,
{
    proof {
        lemma_first_name_event_bounds(events@, 0);
    }
    let ghost stop = first_name_event(events@, 0);
    let initial = copy_states(states);
    let mut forwarded: Vec<usize> = Vec::new();
    let mut k: usize = 0;
    while k < events.len()
        invariant
            0 <= k <= stop,
            stop == first_name_event(events@, 0),
            stop <= events@.len(),
            forall|q: int| 0 <= q < stop ==> !(events@[q].1 is NameDiscovered),
            stop < events@.len() ==> events@[stop].1 is NameDiscovered,
            hubs@ == old(hubs)@,
            states@.len() == old(states)@.len(),
            old(hubs)@.len() == old(states)@.len(),
            forall|q: int| 0 <= q < events@.len() ==> (#[trigger] events@[q]).0 < old(hubs)@.len(),
            forall|q: int| 0 <= q < stop ==> event_readable(#[trigger] events@[q].1),
            initial@ == old(states)@,
            states@ == states_after(old(states)@, events@, k as int),
            forwarded@ == train_events(old(hubs)@, events@, k as int),
        decreases events@.len() - k,
    {
        let i = events[k].0;
        match &events[k].1 {
            HubEvent::NameDiscovered(n) => {
                let id = hubs[i].id;
                hubs.set(i, BLEHub { id, name: Some(n.clone()) });
                proof {
                    assert(k == stop);
                }
                return forwarded;
            },
            HubEvent::DownloadProgress(p) => {
                let mut st = states[i];
                on_download_progress(&mut st, *p);
                states.set(i, st);
            },
            HubEvent::Status(running) => {
                let mut st = states[i];
                apply_status(&mut st, &initial[i], *running);
                states.set(i, st);
            },
            HubEvent::Message(m) => {
                match m {
                    IOMessage::Sys { .. } => {
                        let data = SysData::from_io_message(m);
                        match data {
                            Some(SysData::Ready) => {
                                let mut st = states[i];
                                apply_ready(&mut st, &initial[i]);
                                states.set(i, st);
                            },
                            _ => {},
                        }
                    },
                    _ => {
                        if hubs[i].id.kind == crate::layout_primitives::HubType::Train {
                            forwarded.push(k);
                        }
                    },
                }
            },
        }
        proof {
            assert(states@ =~= states_after(old(states)@, events@, k + 1));
        }
        k = k + 1;
    }
    forwarded
}

} // verus!
