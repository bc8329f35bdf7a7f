use vstd::prelude::*;

verus! {

/// State of the USB accessory server as seen by the session.
#[derive(Debug, Clone, Copy, PartialEq, Eq, Structural)]
pub enum UsbServerStatus {
    NotRequested,
    NotConnected,
}

/// Where the USB head unit stands: it waits for the USB device controller, starts the
/// accessory gadget, waits for a CarPlay session on it, starts the AirPlay server on the
/// session's interface (name and MAC address), then invites the phone, receives from it,
/// or stays passive.
#[derive(Debug, PartialEq, Eq)]
pub enum UsbGadgetState {
    Initial,
    WaitingForUdc,
    StartingGadget,
    WaitingForCarPlaySession,
    StartingServer { iface: Vec<u8>, mac: [u8; 6] },
    Inviting,
    Receiving,
    Passive,
}

/// What failed, leading the head unit to start over.
#[derive(Debug, Clone, Copy, PartialEq, Eq, Structural)]
pub enum UsbGadgetError {
    StartingGadget,
    Gadget,
    Bonjour,
    AirPlayServer,
    UnexpectedState,
}

/// How starting the AirPlay server went: bound and advertised, or which of the two failed.
#[derive(Debug, Clone, Copy, PartialEq, Eq, Structural)]
pub enum ServerStart {
    Started,
    BindFailed,
    AdvertiseFailed,
}

/// What the outside call of the current state gave back.
#[derive(Debug, PartialEq, Eq)]
pub enum UsbGadgetOutcome {
    /// No call was made.
    NoCall,
    /// Whether the device controller was found.
    UdcFound(bool),
    /// Whether the accessory gadget started.
    GadgetStarted(bool),
    /// Whether there is a gadget, and the interface and MAC address of its CarPlay session if
    /// it has one.
    Session { gadget: bool, session: Option<(Vec<u8>, [u8; 6])> },
    /// How starting the server went.
    Server(ServerStart),
    /// While inviting: whether there is a server, an active AirPlay session on the gadget's
    /// interface, and whether the invitation has run past its timeout.
    Invite { server: bool, active_session: bool, timed_out: bool },
    /// While receiving or passive: whether there is a server and an active session.
    Serving { server: bool, active_session: bool },
}

/// One render of the head unit: how long it has been since the last change, whether the
/// gadget reports a failure, and what the state's call gave back.
#[derive(Debug, PartialEq, Eq)]
pub struct UsbGadgetEvent {
    /// More than the restart delay has passed since the last change.
    pub restart_elapsed: bool,
    /// There is a gadget and it reports an error.
    pub gadget_failed: bool,
    pub outcome: UsbGadgetOutcome,
}

/// What the head unit does on the way to its next state.
#[derive(Debug, Clone, Copy, PartialEq, Eq, Structural)]
pub enum UsbGadgetAction {
    Nothing,
    /// Keep the started accessory gadget.
    KeepGadget,
    /// Keep the started AirPlay server.
    KeepServer,
    StartInviting,
    StopInviting,
}

/// The next status of the USB head unit and what it does: an error is kept until the
/// restart delay has passed, then it starts over; a gadget failure is an error in any
/// state; otherwise the state's call decides as the transition table says. An outcome that
/// does not belong to the state leaves the state as it is.
pub open spec fn usb_gadget_step_spec(s: Result<UsbGadgetState, UsbGadgetError>, ev: UsbGadgetEvent) -> (
    Result<UsbGadgetState, UsbGadgetError>,
    UsbGadgetAction,
) {
    match s {
        Err(e) => if ev.restart_elapsed {
            (Ok(UsbGadgetState::Initial), UsbGadgetAction::Nothing)
        } else {
            (Err(e), UsbGadgetAction::Nothing)
        },
        Ok(st) => if ev.gadget_failed {
            (Err(UsbGadgetError::Gadget), UsbGadgetAction::Nothing)
        } else {
            match (st, ev.outcome) {
                (UsbGadgetState::Initial, _) => (Ok(UsbGadgetState::WaitingForUdc), UsbGadgetAction::Nothing),
                (UsbGadgetState::WaitingForUdc, UsbGadgetOutcome::UdcFound(found)) => if found {
                    (Ok(UsbGadgetState::StartingGadget), UsbGadgetAction::Nothing)
                } else {
                    (Ok(UsbGadgetState::WaitingForUdc), UsbGadgetAction::Nothing)
                },
                (UsbGadgetState::StartingGadget, UsbGadgetOutcome::GadgetStarted(ok)) => if ok {
                    (Ok(UsbGadgetState::WaitingForCarPlaySession), UsbGadgetAction::KeepGadget)
                } else {
                    (Err(UsbGadgetError::StartingGadget), UsbGadgetAction::Nothing)
                },
                (UsbGadgetState::WaitingForCarPlaySession, UsbGadgetOutcome::Session { gadget, session }) => if !gadget {
                    (Err(UsbGadgetError::UnexpectedState), UsbGadgetAction::Nothing)
                } else {
                    match session {
                        Some((iface, mac)) => (Ok(UsbGadgetState::StartingServer { iface, mac }), UsbGadgetAction::Nothing),
                        None => (Ok(UsbGadgetState::WaitingForCarPlaySession), UsbGadgetAction::Nothing),
                    }
                },
                (UsbGadgetState::StartingServer { .. }, UsbGadgetOutcome::Server(r)) => match r {
                    ServerStart::Started => (Ok(UsbGadgetState::Inviting), UsbGadgetAction::KeepServer),
                    ServerStart::BindFailed => (Err(UsbGadgetError::AirPlayServer), UsbGadgetAction::Nothing),
                    ServerStart::AdvertiseFailed => (Err(UsbGadgetError::Bonjour), UsbGadgetAction::Nothing),
                },
                (UsbGadgetState::Inviting, UsbGadgetOutcome::Invite { server, active_session, timed_out }) => if active_session {
                    (Ok(UsbGadgetState::Receiving), UsbGadgetAction::Nothing)
                } else if !server {
                    (Err(UsbGadgetError::UnexpectedState), UsbGadgetAction::Nothing)
                } else if timed_out {
                    (Ok(UsbGadgetState::Passive), UsbGadgetAction::Nothing)
                } else {
                    (Ok(UsbGadgetState::Inviting), UsbGadgetAction::StartInviting)
                },
                (UsbGadgetState::Receiving, UsbGadgetOutcome::Serving { server, active_session })
                | (UsbGadgetState::Passive, UsbGadgetOutcome::Serving { server, active_session }) => if !server {
                    (Err(UsbGadgetError::UnexpectedState), UsbGadgetAction::Nothing)
                } else if active_session {
                    (Ok(UsbGadgetState::Receiving), UsbGadgetAction::StopInviting)
                } else {
                    (Ok(UsbGadgetState::Passive), UsbGadgetAction::StopInviting)
                },
                (st, _) => (Ok(st), UsbGadgetAction::Nothing),
            }
        },
    }
}

/// One step of the USB head unit.
pub fn usb_gadget_step(s: Result<UsbGadgetState, UsbGadgetError>, ev: UsbGadgetEvent) -> (r: (
    Result<UsbGadgetState, UsbGadgetError>,
    UsbGadgetAction,
))
    ensures
        r == usb_gadget_step_spec(s, ev),
{
    match s {
        Err(e) => if ev.restart_elapsed {
            (Ok(UsbGadgetState::Initial), UsbGadgetAction::Nothing)
        } else {
            (Err(e), UsbGadgetAction::Nothing)
        },
        Ok(st) => if ev.gadget_failed {
            (Err(UsbGadgetError::Gadget), UsbGadgetAction::Nothing)
        } else {
            match (st, ev.outcome) {
                (UsbGadgetState::Initial, _) => (Ok(UsbGadgetState::WaitingForUdc), UsbGadgetAction::Nothing),
                (UsbGadgetState::WaitingForUdc, UsbGadgetOutcome::UdcFound(found)) => if found {
                    (Ok(UsbGadgetState::StartingGadget), UsbGadgetAction::Nothing)
                } else {
                    (Ok(UsbGadgetState::WaitingForUdc), UsbGadgetAction::Nothing)
                },
                (UsbGadgetState::StartingGadget, UsbGadgetOutcome::GadgetStarted(ok)) => if ok {
                    (Ok(UsbGadgetState::WaitingForCarPlaySession), UsbGadgetAction::KeepGadget)
                } else {
                    (Err(UsbGadgetError::StartingGadget), UsbGadgetAction::Nothing)
                },
                (UsbGadgetState::WaitingForCarPlaySession, UsbGadgetOutcome::Session { gadget, session }) => if !gadget {
                    (Err(UsbGadgetError::UnexpectedState), UsbGadgetAction::Nothing)
                } else {
                    match session {
                        Some((iface, mac)) => (Ok(UsbGadgetState::StartingServer { iface, mac }), UsbGadgetAction::Nothing),
                        None => (Ok(UsbGadgetState::WaitingForCarPlaySession), UsbGadgetAction::Nothing),
                    }
                },
                (UsbGadgetState::StartingServer { .. }, UsbGadgetOutcome::Server(r)) => match r {
                    ServerStart::Started => (Ok(UsbGadgetState::Inviting), UsbGadgetAction::KeepServer),
                    ServerStart::BindFailed => (Err(UsbGadgetError::AirPlayServer), UsbGadgetAction::Nothing),
                    ServerStart::AdvertiseFailed => (Err(UsbGadgetError::Bonjour), UsbGadgetAction::Nothing),
                },
                (UsbGadgetState::Inviting, UsbGadgetOutcome::Invite { server, active_session, timed_out }) => if active_session {
                    (Ok(UsbGadgetState::Receiving), UsbGadgetAction::Nothing)
                } else if !server {
                    (Err(UsbGadgetError::UnexpectedState), UsbGadgetAction::Nothing)
                } else if timed_out {
                    (Ok(UsbGadgetState::Passive), UsbGadgetAction::Nothing)
                } else {
                    (Ok(UsbGadgetState::Inviting), UsbGadgetAction::StartInviting)
                },
                (UsbGadgetState::Receiving, UsbGadgetOutcome::Serving { server, active_session })
                | (UsbGadgetState::Passive, UsbGadgetOutcome::Serving { server, active_session }) => if !server {
                    (Err(UsbGadgetError::UnexpectedState), UsbGadgetAction::Nothing)
                } else if active_session {
                    (Ok(UsbGadgetState::Receiving), UsbGadgetAction::StopInviting)
                } else {
                    (Ok(UsbGadgetState::Passive), UsbGadgetAction::StopInviting)
                },
                (st, _) => (Ok(st), UsbGadgetAction::Nothing),
            }
        },
    }
}

/// A head unit that failed starts over: once the restart delay has passed, an error gives
/// way to the initial state, and the step after that, without a gadget failure, waits for
/// the device controller.
pub proof fn lemma_usb_gadget_restarts(e: UsbGadgetError, first: UsbGadgetEvent, second: UsbGadgetEvent)
    requires
        first.restart_elapsed,
        !second.gadget_failed,
    ensures
        usb_gadget_step_spec(Err(e), first).0 == Ok::<UsbGadgetState, UsbGadgetError>(UsbGadgetState::Initial),
        usb_gadget_step_spec(usb_gadget_step_spec(Err(e), first).0, second).0
            == Ok::<UsbGadgetState, UsbGadgetError>(UsbGadgetState::WaitingForUdc),
{
}

/// An error is kept, doing nothing, until the restart delay has passed, and a gadget
/// failure is an error in every state.
pub proof fn lemma_usb_gadget_errors(s: Result<UsbGadgetState, UsbGadgetError>, ev: UsbGadgetEvent)
    ensures
        s is Err && !ev.restart_elapsed ==> usb_gadget_step_spec(s, ev) == (s, UsbGadgetAction::Nothing),
        s is Ok && ev.gadget_failed ==> usb_gadget_step_spec(s, ev) == (
            Err::<UsbGadgetState, UsbGadgetError>(UsbGadgetError::Gadget),
            UsbGadgetAction::Nothing,
        ),
{
}

/// A phone that has opened its AirPlay session is being received: from inviting, receiving
/// or passive, with no gadget failure, an outcome that reports an active session (and, once
/// serving, a server) leads to receiving, whatever the timeout says.
pub proof fn lemma_usb_active_session_received(ev: UsbGadgetEvent)
    requires
        !ev.gadget_failed,
    ensures
        (ev.outcome matches UsbGadgetOutcome::Invite { active_session, .. } && active_session) ==> usb_gadget_step_spec(
            Ok(UsbGadgetState::Inviting),
            ev,
        ) == (Ok::<UsbGadgetState, UsbGadgetError>(UsbGadgetState::Receiving), UsbGadgetAction::Nothing),
        (ev.outcome matches UsbGadgetOutcome::Serving { server, active_session } && server && active_session) ==> {
            &&& usb_gadget_step_spec(Ok(UsbGadgetState::Receiving), ev).0 == Ok::<UsbGadgetState, UsbGadgetError>(
                UsbGadgetState::Receiving,
            )
            &&& usb_gadget_step_spec(Ok(UsbGadgetState::Passive), ev).0 == Ok::<UsbGadgetState, UsbGadgetError>(
                UsbGadgetState::Receiving,
            )
        },
{
}

} // verus!
