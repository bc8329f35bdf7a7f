use vstd::prelude::*;
use super::server::ServerStart;

verus! {

/// Where the wireless head unit stands: it waits for the Bluetooth adapter's address,
/// starts Bluetooth and powers it up, waits for the network interface, for it to run and
/// for multicast on it to hold, starts the AirPlay server, asks the last phone to
/// reconnect, then invites, receives or stays passive. The adapter and the interface are
/// those the unit is configured with; MAC addresses are 48-bit numbers.
#[derive(Debug, Clone, Copy, PartialEq, Eq, Structural)]
pub enum WirelessState {
    Initial,
    WaitingForBluetooth,
    StartingBluetoothPower { mac: u64 },
    StartingBluetooth { mac: u64 },
    StartingLastConnect { mac: u64, peer_mac: u64 },
    WaitingForInterface,
    WaitingForInterfaceRunning { mac: u64 },
    WaitingForStableMulticast { mac: u64 },
    StartingServer { mac: u64 },
    Inviting,
    Receiving,
    Passive,
}

/// What failed, leading the wireless head unit to start over.
#[derive(Debug, Clone, Copy, PartialEq, Eq, Structural)]
pub enum WirelessError {
    AirPlayServer,
    Bonjour,
    Bluetooth,
    MacAddressChanged { prev: u64, current: u64 },
    InterfaceGone,
    UnexpectedState,
}

/// What the outside call of the current state gave back.
#[derive(Debug, Clone, Copy, PartialEq, Eq, Structural)]
pub enum WirelessOutcome {
    /// No call was made.
    NoCall,
    /// The Bluetooth adapter's address, if it could be read.
    BluetoothMac(Option<u64>),
    /// Whether the Bluetooth manager started.
    BluetoothStarted(bool),
    /// Whether powering Bluetooth up succeeded.
    Powered(bool),
    /// The interface's MAC address, if it is there.
    IfaceMac(Option<u64>),
    /// Whether the interface runs.
    IfaceRunning(bool),
    /// Whether IPv6 multicast on the interface is stable.
    MulticastStable(bool),
    /// How starting the server went.
    Server(ServerStart),
    /// Whether the reconnect task for the last phone already runs.
    LastConnect { task_running: bool },
    /// While inviting: whether there is a server and an active session on the interface.
    Invite { server: bool, active_session: bool },
    /// While receiving or passive: whether there is a server and an active session.
    Serving { server: bool, active_session: bool },
}

/// One render of the wireless head unit.
#[derive(Debug, Clone, Copy, PartialEq, Eq, Structural)]
pub struct WirelessEvent {
    /// More than the restart delay has passed since the last change.
    pub restart_elapsed: bool,
    /// The interface's MAC address remembered from before, if any.
    pub last_mac: Option<u64>,
    /// The interface's MAC address read now (when one is remembered), `None` when the
    /// interface is gone.
    pub iface_mac: Option<u64>,
    pub outcome: WirelessOutcome,
}

/// What the wireless head unit is set to: whether invitations are blocked, and the
/// Bluetooth address of the phone that connected last, if known.
#[derive(Debug, Clone, Copy, PartialEq, Eq, Structural)]
pub struct WirelessConfig {
    pub invites_blocked: bool,
    pub last_bt_peer: Option<u64>,
}

/// What the wireless head unit does on the way to its next state.
#[derive(Debug, Clone, Copy, PartialEq, Eq, Structural)]
pub enum WirelessAction {
    Nothing,
    /// Keep the started Bluetooth manager.
    KeepBluetooth,
    /// Remember the interface's MAC address.
    RememberMac(u64),
    /// Remember the interface's MAC address and keep the started server.
    KeepServer(u64),
    /// Start the task that asks the phone with this address to reconnect.
    SpawnLastConnect { peer_mac: u64 },
    StartInviting,
    /// Stop inviting, and stop the reconnect task too when asked.
    StopInviting { stop_last_connect: bool },
}

/// The next status of the wireless head unit and what it does: an error is kept until the
/// restart delay has passed, then it starts over; a remembered interface address that
/// changed or vanished is an error in any state; otherwise the state's call decides as the
/// transition table says. An outcome that does not belong to the state leaves it as it is.
pub open spec fn wireless_step_spec(s: Result<WirelessState, WirelessError>, cfg: WirelessConfig, ev: WirelessEvent) -> (
    Result<WirelessState, WirelessError>,
    WirelessAction,
) {
    match s {
        Err(e) => if ev.restart_elapsed {
            (Ok(WirelessState::Initial), WirelessAction::Nothing)
        } else {
            (Err(e), WirelessAction::Nothing)
        },
        Ok(st) => match (ev.last_mac, ev.iface_mac) {
            (Some(prev), Some(current)) if prev != current => (
                Err(WirelessError::MacAddressChanged { prev, current }),
                WirelessAction::Nothing,
            ),
            (Some(_), None) => (Err(WirelessError::InterfaceGone), WirelessAction::Nothing),
            _ => match (st, ev.outcome) {
                (WirelessState::Initial, _) => (Ok(WirelessState::WaitingForBluetooth), WirelessAction::Nothing),
                (WirelessState::WaitingForBluetooth, WirelessOutcome::BluetoothMac(found)) => match found {
                    Some(mac) => (Ok(WirelessState::StartingBluetooth { mac }), WirelessAction::Nothing),
                    None => (Ok(WirelessState::WaitingForBluetooth), WirelessAction::Nothing),
                },
                (WirelessState::StartingBluetooth { mac }, WirelessOutcome::BluetoothStarted(ok)) => if ok {
                    (Ok(WirelessState::StartingBluetoothPower { mac }), WirelessAction::KeepBluetooth)
                } else {
                    (Err(WirelessError::Bluetooth), WirelessAction::Nothing)
                },
                (WirelessState::StartingBluetoothPower { mac }, WirelessOutcome::Powered(ok)) => if ok {
                    (Ok(WirelessState::WaitingForInterface), WirelessAction::Nothing)
                } else {
                    (Ok(WirelessState::StartingBluetoothPower { mac }), WirelessAction::Nothing)
                },
                (WirelessState::WaitingForInterface, WirelessOutcome::IfaceMac(found)) => match found {
                    Some(mac) => (Ok(WirelessState::WaitingForInterfaceRunning { mac }), WirelessAction::RememberMac(mac)),
                    None => (Ok(WirelessState::WaitingForInterface), WirelessAction::Nothing),
                },
                (WirelessState::WaitingForInterfaceRunning { mac }, WirelessOutcome::IfaceRunning(up)) => if up {
                    (Ok(WirelessState::WaitingForStableMulticast { mac }), WirelessAction::Nothing)
                } else {
                    (Ok(WirelessState::WaitingForInterfaceRunning { mac }), WirelessAction::Nothing)
                },
                (WirelessState::WaitingForStableMulticast { mac }, WirelessOutcome::MulticastStable(stable)) => if stable {
                    (Ok(WirelessState::StartingServer { mac }), WirelessAction::Nothing)
                } else {
                    (Ok(WirelessState::WaitingForStableMulticast { mac }), WirelessAction::Nothing)
                },
                (WirelessState::StartingServer { mac }, WirelessOutcome::Server(r)) => match r {
                    ServerStart::BindFailed => (Err(WirelessError::AirPlayServer), WirelessAction::Nothing),
                    ServerStart::AdvertiseFailed => (Err(WirelessError::Bonjour), WirelessAction::Nothing),
                    ServerStart::Started => match cfg.last_bt_peer {
                        Some(peer_mac) => (
                            Ok(WirelessState::StartingLastConnect { mac, peer_mac }),
                            WirelessAction::KeepServer(mac),
                        ),
                        None => if cfg.invites_blocked {
                            (Ok(WirelessState::Passive), WirelessAction::KeepServer(mac))
                        } else {
                            (Ok(WirelessState::Inviting), WirelessAction::KeepServer(mac))
                        },
                    },
                },
                (WirelessState::StartingLastConnect { mac, peer_mac }, WirelessOutcome::LastConnect { task_running }) => {
                    let next = if cfg.invites_blocked {
                        WirelessState::Passive
                    } else {
                        WirelessState::Inviting
                    };
                    if task_running {
                        (Ok(next), WirelessAction::Nothing)
                    } else {
                        (Ok(next), WirelessAction::SpawnLastConnect { peer_mac })
                    }
                },
                (WirelessState::Inviting, WirelessOutcome::Invite { server, active_session }) => if active_session {
                    (Ok(WirelessState::Receiving), WirelessAction::Nothing)
                } else if !server {
                    (Err(WirelessError::UnexpectedState), WirelessAction::Nothing)
                } else if cfg.invites_blocked {
                    (Ok(WirelessState::Passive), WirelessAction::StartInviting)
                } else {
                    (Ok(WirelessState::Inviting), WirelessAction::StartInviting)
                },
                (WirelessState::Receiving, WirelessOutcome::Serving { server, active_session }) => if !server {
                    (Err(WirelessError::UnexpectedState), WirelessAction::Nothing)
                } else if active_session {
                    (Ok(WirelessState::Receiving), WirelessAction::StopInviting { stop_last_connect: true })
                } else if cfg.invites_blocked {
                    (Ok(WirelessState::Passive), WirelessAction::StopInviting { stop_last_connect: true })
                } else {
                    (Ok(WirelessState::Inviting), WirelessAction::StopInviting { stop_last_connect: true })
                },
                (WirelessState::Passive, WirelessOutcome::Serving { server, active_session }) => if !server {
                    (Err(WirelessError::UnexpectedState), WirelessAction::Nothing)
                } else if active_session {
                    (Ok(WirelessState::Receiving), WirelessAction::StopInviting { stop_last_connect: false })
                } else if cfg.invites_blocked {
                    (Ok(WirelessState::Passive), WirelessAction::StopInviting { stop_last_connect: false })
                } else {
                    (Ok(WirelessState::Inviting), WirelessAction::StopInviting { stop_last_connect: false })
                },
                (st, _) => (Ok(st), WirelessAction::Nothing),
            },
        },
    }
}

/// One step of the wireless head unit.
pub fn wireless_step(s: Result<WirelessState, WirelessError>, cfg: &WirelessConfig, ev: WirelessEvent) -> (r: (
    Result<WirelessState, WirelessError>,
    WirelessAction,
))
    ensures
        r == wireless_step_spec(s, *cfg, ev),
{
    match s {
        Err(e) => if ev.restart_elapsed {
            (Ok(WirelessState::Initial), WirelessAction::Nothing)
        } else {
            (Err(e), WirelessAction::Nothing)
        },
        Ok(st) => match (ev.last_mac, ev.iface_mac) {
            (Some(prev), Some(current)) if prev != current => (
                Err(WirelessError::MacAddressChanged { prev, current }),
                WirelessAction::Nothing,
            ),
            (Some(_), None) => (Err(WirelessError::InterfaceGone), WirelessAction::Nothing),
            _ => match (st, ev.outcome) {
                (WirelessState::Initial, _) => (Ok(WirelessState::WaitingForBluetooth), WirelessAction::Nothing),
                (WirelessState::WaitingForBluetooth, WirelessOutcome::BluetoothMac(found)) => match found {
                    Some(mac) => (Ok(WirelessState::StartingBluetooth { mac }), WirelessAction::Nothing),
                    None => (Ok(WirelessState::WaitingForBluetooth), WirelessAction::Nothing),
                },
                (WirelessState::StartingBluetooth { mac }, WirelessOutcome::BluetoothStarted(ok)) => if ok {
                    (Ok(WirelessState::StartingBluetoothPower { mac }), WirelessAction::KeepBluetooth)
                } else {
                    (Err(WirelessError::Bluetooth), WirelessAction::Nothing)
                },
                (WirelessState::StartingBluetoothPower { mac }, WirelessOutcome::Powered(ok)) => if ok {
                    (Ok(WirelessState::WaitingForInterface), WirelessAction::Nothing)
                } else {
                    (Ok(WirelessState::StartingBluetoothPower { mac }), WirelessAction::Nothing)
                },
                (WirelessState::WaitingForInterface, WirelessOutcome::IfaceMac(found)) => match found {
                    Some(mac) => (Ok(WirelessState::WaitingForInterfaceRunning { mac }), WirelessAction::RememberMac(mac)),
                    None => (Ok(WirelessState::WaitingForInterface), WirelessAction::Nothing),
                },
                (WirelessState::WaitingForInterfaceRunning { mac }, WirelessOutcome::IfaceRunning(up)) => if up {
                    (Ok(WirelessState::WaitingForStableMulticast { mac }), WirelessAction::Nothing)
                } else {
                    (Ok(WirelessState::WaitingForInterfaceRunning { mac }), WirelessAction::Nothing)
                },
                (WirelessState::WaitingForStableMulticast { mac }, WirelessOutcome::MulticastStable(stable)) => if stable {
                    (Ok(WirelessState::StartingServer { mac }), WirelessAction::Nothing)
                } else {
                    (Ok(WirelessState::WaitingForStableMulticast { mac }), WirelessAction::Nothing)
                },
                (WirelessState::StartingServer { mac }, WirelessOutcome::Server(r)) => match r {
                    ServerStart::BindFailed => (Err(WirelessError::AirPlayServer), WirelessAction::Nothing),
                    ServerStart::AdvertiseFailed => (Err(WirelessError::Bonjour), WirelessAction::Nothing),
                    ServerStart::Started => match cfg.last_bt_peer {
                        Some(peer_mac) => (
                            Ok(WirelessState::StartingLastConnect { mac, peer_mac }),
                            WirelessAction::KeepServer(mac),
                        ),
                        None => if cfg.invites_blocked {
                            (Ok(WirelessState::Passive), WirelessAction::KeepServer(mac))
                        } else {
                            (Ok(WirelessState::Inviting), WirelessAction::KeepServer(mac))
                        },
                    },
                },
                (WirelessState::StartingLastConnect { mac, peer_mac }, WirelessOutcome::LastConnect { task_running }) => {
                    let next = if cfg.invites_blocked {
                        WirelessState::Passive
                    } else {
                        WirelessState::Inviting
                    };
                    if task_running {
                        (Ok(next), WirelessAction::Nothing)
                    } else {
                        (Ok(next), WirelessAction::SpawnLastConnect { peer_mac })
                    }
                },
                (WirelessState::Inviting, WirelessOutcome::Invite { server, active_session }) => if active_session {
                    (Ok(WirelessState::Receiving), WirelessAction::Nothing)
                } else if !server {
                    (Err(WirelessError::UnexpectedState), WirelessAction::Nothing)
                } else if cfg.invites_blocked {
                    (Ok(WirelessState::Passive), WirelessAction::StartInviting)
                } else {
                    (Ok(WirelessState::Inviting), WirelessAction::StartInviting)
                },
                (WirelessState::Receiving, WirelessOutcome::Serving { server, active_session }) => if !server {
                    (Err(WirelessError::UnexpectedState), WirelessAction::Nothing)
                } else if active_session {
                    (Ok(WirelessState::Receiving), WirelessAction::StopInviting { stop_last_connect: true })
                } else if cfg.invites_blocked {
                    (Ok(WirelessState::Passive), WirelessAction::StopInviting { stop_last_connect: true })
                } else {
                    (Ok(WirelessState::Inviting), WirelessAction::StopInviting { stop_last_connect: true })
                },
                (WirelessState::Passive, WirelessOutcome::Serving { server, active_session }) => if !server {
                    (Err(WirelessError::UnexpectedState), WirelessAction::Nothing)
                } else if active_session {
                    (Ok(WirelessState::Receiving), WirelessAction::StopInviting { stop_last_connect: false })
                } else if cfg.invites_blocked {
                    (Ok(WirelessState::Passive), WirelessAction::StopInviting { stop_last_connect: false })
                } else {
                    (Ok(WirelessState::Inviting), WirelessAction::StopInviting { stop_last_connect: false })
                },
                (st, _) => (Ok(st), WirelessAction::Nothing),
            },
        },
    }
}

/// Whether the unit wakes up often: while it is getting set up or after an error, not
/// while it invites, receives or waits passively.
pub fn burst_wakeups(s: &Result<WirelessState, WirelessError>) -> (r: bool)
    ensures
        r == !(*s == Ok::<WirelessState, WirelessError>(WirelessState::Inviting) || *s == Ok::<
            WirelessState,
            WirelessError,
        >(WirelessState::Receiving) || *s == Ok::<WirelessState, WirelessError>(WirelessState::Passive)),
{
    match s {
        Ok(WirelessState::Inviting) | Ok(WirelessState::Receiving) | Ok(WirelessState::Passive) => false,
        _ => true,
    }
}

/// A wireless head unit that failed starts over: once the restart delay has passed, an
/// error gives way to the initial state, and the step after that, with no interface
/// address remembered, waits for Bluetooth.
pub proof fn lemma_wireless_restarts(e: WirelessError, cfg: WirelessConfig, first: WirelessEvent, second: WirelessEvent)
    requires
        first.restart_elapsed,
        second.last_mac is None,
    ensures
        wireless_step_spec(Err(e), cfg, first).0 == Ok::<WirelessState, WirelessError>(WirelessState::Initial),
        wireless_step_spec(wireless_step_spec(Err(e), cfg, first).0, cfg, second).0
            == Ok::<WirelessState, WirelessError>(WirelessState::WaitingForBluetooth),
{
}

/// Once an interface address is remembered, a different address or a vanished interface
/// is an error in every state.
pub proof fn lemma_wireless_mac_guard(s: Result<WirelessState, WirelessError>, cfg: WirelessConfig, ev: WirelessEvent)
    requires
        s is Ok,
    ensures
        ev.last_mac is Some && ev.iface_mac is Some && ev.last_mac->0 != ev.iface_mac->0
            ==> wireless_step_spec(s, cfg, ev).0 == Err::<WirelessState, WirelessError>(
            WirelessError::MacAddressChanged { prev: ev.last_mac->0, current: ev.iface_mac->0 },
        ),
        ev.last_mac is Some && ev.iface_mac is None ==> wireless_step_spec(s, cfg, ev).0 == Err::<
            WirelessState,
            WirelessError,
        >(WirelessError::InterfaceGone),
{
}

/// A unit set to block invitations never starts inviting: from any state but inviting, no
/// step leads to it.
pub proof fn lemma_blocked_invites(s: Result<WirelessState, WirelessError>, cfg: WirelessConfig, ev: WirelessEvent)
    requires
        cfg.invites_blocked,
        s != Ok::<WirelessState, WirelessError>(WirelessState::Inviting),
    ensures
        wireless_step_spec(s, cfg, ev).0 != Ok::<WirelessState, WirelessError>(WirelessState::Inviting),
{
}

/// A phone that has opened its AirPlay session is being received: from inviting, with the
/// interface address unchanged, an outcome that reports an active session leads to
/// receiving, whatever the server flag and the configuration say.
pub proof fn lemma_wireless_active_session_received(cfg: WirelessConfig, ev: WirelessEvent)
    requires
        ev.last_mac is None || ev.iface_mac == ev.last_mac,
        ev.outcome matches WirelessOutcome::Invite { active_session, .. } && active_session,
    ensures
        wireless_step_spec(Ok(WirelessState::Inviting), cfg, ev) == (
            Ok::<WirelessState, WirelessError>(WirelessState::Receiving),
            WirelessAction::Nothing,
        ),
{
}

} // verus!
