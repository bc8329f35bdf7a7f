use vstd::prelude::*;

verus! {

/// Where the phone-side USB gadget stands: it waits for the head unit's accessory, waits
/// for an invitation, is invited (holding the invitation), connects, has a transmitter
/// ready for pickup, or transmits.
#[derive(Debug, PartialEq, Eq)]
pub enum ClientGadgetState<I> {
    Initial,
    WaitingForUsbAccessory,
    WaitingForInvite,
    Invited { invite: I },
    Connecting,
    TransmitterReadyForPickup,
    Transmitting,
}

/// What failed, leading the gadget to start over.
#[derive(Debug, Clone, Copy, PartialEq, Eq, Structural)]
pub enum ClientGadgetError {
    CtrlServer,
    Bonjour,
    UsbGadgetError,
    Connect,
    Eof,
    UnexpectedState,
}

/// What the gadget saw in one render, in the order it looks: the restart delay, the USB
/// gadget's health, a connection attempt that finished, the CarPlay session, the control
/// server, an invitation, the announcement timer, the invitation it holds, and what is
/// pending.
#[derive(Debug)]
pub struct ClientEvent<I> {
    /// More than the restart delay has passed since the last change.
    pub restart_elapsed: bool,
    /// The USB gadget reports no error.
    pub gadget_ok: bool,
    /// A pending connection attempt finished: whether it gave a transmitter.
    pub connect_resolved: Option<bool>,
    /// The USB gadget is in a CarPlay session.
    pub in_session: bool,
    /// That session is not the one seen last.
    pub session_changed: bool,
    /// A control server was running before this render.
    pub ctrl_server_running: bool,
    /// Starting a control server, where one was needed, succeeded.
    pub ctrl_server_started: bool,
    /// An invitation the control server received.
    pub invite: Option<I>,
    /// The announcement interval has run out.
    pub announce_due: bool,
    /// The invitation held has an address to connect to.
    pub invite_has_address: bool,
    /// A transmitter was ready for pickup before this render.
    pub pending_transmitter: bool,
    /// A connection attempt was pending before this render.
    pub pending_connect: bool,
    /// A transmitter is transmitting.
    pub transmitting: bool,
}

/// What the gadget does in one render.
#[derive(Debug, Clone, Copy, PartialEq, Eq, Structural)]
pub struct ClientActions {
    /// Keep the transmitter a finished connection attempt gave.
    pub keep_transmitter: bool,
    pub shutdown_ctrl_server: bool,
    /// Remember the current session as the one seen last.
    pub remember_session: bool,
    pub start_ctrl_server: bool,
    /// Announce the control service again.
    pub announce: bool,
    /// Start connecting to the inviting head unit.
    pub connect: bool,
}

impl ClientActions {
    /// No action.
    pub open spec fn none_spec() -> ClientActions {
        ClientActions {
            keep_transmitter: false,
            shutdown_ctrl_server: false,
            remember_session: false,
            start_ctrl_server: false,
            announce: false,
            connect: false,
        }
    }

    #[verifier::when_used_as_spec(none_spec)]
    pub fn none() -> (r: ClientActions)
        ensures
            r == Self::none_spec(),
    {
        ClientActions {
            keep_transmitter: false,
            shutdown_ctrl_server: false,
            remember_session: false,
            start_ctrl_server: false,
            announce: false,
            connect: false,
        }
    }
}

/// The next status of the phone-side gadget and what it does: an error is kept until the
/// restart delay has passed; a gadget failure or a failed connection attempt is an error;
/// without a CarPlay session it waits for the accessory; in a session it keeps one control
/// server per session, takes an invitation only while waiting for one, connects to the
/// head unit that invited it, and otherwise reports what is pending.
pub open spec fn usb_client_step_spec<I>(s: Result<ClientGadgetState<I>, ClientGadgetError>, ev: ClientEvent<I>) -> (
    Result<ClientGadgetState<I>, ClientGadgetError>,
    ClientActions,
) {
    match s {
        Err(e) => if ev.restart_elapsed {
            (Ok(ClientGadgetState::Initial), ClientActions::none())
        } else {
            (Err(e), ClientActions::none())
        },
        Ok(st) => if !ev.gadget_ok {
            (Err(ClientGadgetError::UsbGadgetError), ClientActions::none())
        } else {
            let keep_transmitter = ev.connect_resolved == Some(true);
            let pending_transmitter = ev.pending_transmitter || keep_transmitter;
            let pending_connect = ev.pending_connect && ev.connect_resolved.is_none();
            let base = ClientActions { keep_transmitter, ..ClientActions::none() };
            if ev.connect_resolved == Some(false) {
                (Err(ClientGadgetError::Connect), base)
            } else if !ev.in_session {
                (
                    Ok(ClientGadgetState::WaitingForUsbAccessory),
                    ClientActions { shutdown_ctrl_server: ev.ctrl_server_running, ..base },
                )
            } else {
                let shutdown = ev.session_changed && ev.ctrl_server_running;
                let running = ev.ctrl_server_running && !ev.session_changed;
                let acts = ClientActions {
                    shutdown_ctrl_server: shutdown,
                    remember_session: ev.session_changed,
                    start_ctrl_server: !running,
                    ..base
                };
                if !running && !ev.ctrl_server_started {
                    (Err(ClientGadgetError::CtrlServer), acts)
                } else {
                    match (st, ev.invite) {
                        (ClientGadgetState::WaitingForInvite, Some(invite)) => (Ok(ClientGadgetState::Invited { invite }), acts),
                        (st, _) => {
                            let acts = ClientActions { announce: ev.announce_due, ..acts };
                            match st {
                                ClientGadgetState::Invited { .. } => if ev.invite_has_address {
                                    (Ok(ClientGadgetState::Connecting), ClientActions { connect: true, ..acts })
                                } else {
                                    (Err(ClientGadgetError::UnexpectedState), acts)
                                },
                                _ => if pending_transmitter {
                                    (Ok(ClientGadgetState::TransmitterReadyForPickup), acts)
                                } else if pending_connect {
                                    (Ok(ClientGadgetState::Connecting), acts)
                                } else if ev.transmitting {
                                    (Ok(ClientGadgetState::Transmitting), acts)
                                } else {
                                    (Ok(ClientGadgetState::WaitingForInvite), acts)
                                },
                            }
                        },
                    }
                }
            }
        },
    }
}

/// One step of the phone-side USB gadget.
pub fn usb_client_step<I>(s: Result<ClientGadgetState<I>, ClientGadgetError>, ev: ClientEvent<I>) -> (r: (
    Result<ClientGadgetState<I>, ClientGadgetError>,
    ClientActions,
))
    ensures
        r == usb_client_step_spec(s, ev),
{
    match s {
        Err(e) => if ev.restart_elapsed {
            (Ok(ClientGadgetState::Initial), ClientActions::none())
        } else {
            (Err(e), ClientActions::none())
        },
        Ok(st) => if !ev.gadget_ok {
            (Err(ClientGadgetError::UsbGadgetError), ClientActions::none())
        } else {
            let keep_transmitter = ev.connect_resolved == Some(true);
            let pending_transmitter = ev.pending_transmitter || keep_transmitter;
            let pending_connect = ev.pending_connect && ev.connect_resolved.is_none();
            let base = ClientActions { keep_transmitter, ..ClientActions::none() };
            if ev.connect_resolved == Some(false) {
                (Err(ClientGadgetError::Connect), base)
            } else if !ev.in_session {
                (
                    Ok(ClientGadgetState::WaitingForUsbAccessory),
                    ClientActions { shutdown_ctrl_server: ev.ctrl_server_running, ..base },
                )
            } else {
                let shutdown = ev.session_changed && ev.ctrl_server_running;
                let running = ev.ctrl_server_running && !ev.session_changed;
                let acts = ClientActions {
                    shutdown_ctrl_server: shutdown,
                    remember_session: ev.session_changed,
                    start_ctrl_server: !running,
                    ..base
                };
                if !running && !ev.ctrl_server_started {
                    (Err(ClientGadgetError::CtrlServer), acts)
                } else {
                    match (st, ev.invite) {
                        (ClientGadgetState::WaitingForInvite, Some(invite)) => (Ok(ClientGadgetState::Invited { invite }), acts),
                        (st, _) => {
                            let acts = ClientActions { announce: ev.announce_due, ..acts };
                            match st {
                                ClientGadgetState::Invited { .. } => if ev.invite_has_address {
                                    (Ok(ClientGadgetState::Connecting), ClientActions { connect: true, ..acts })
                                } else {
                                    (Err(ClientGadgetError::UnexpectedState), acts)
                                },
                                _ => if pending_transmitter {
                                    (Ok(ClientGadgetState::TransmitterReadyForPickup), acts)
                                } else if pending_connect {
                                    (Ok(ClientGadgetState::Connecting), acts)
                                } else if ev.transmitting {
                                    (Ok(ClientGadgetState::Transmitting), acts)
                                } else {
                                    (Ok(ClientGadgetState::WaitingForInvite), acts)
                                },
                            }
                        },
                    }
                }
            }
        },
    }
}

/// The gadget takes an invitation only while it waits for one, and connects only to the
/// head unit that invited it, when the invitation has an address.
pub proof fn lemma_invitations<I>(s: Result<ClientGadgetState<I>, ClientGadgetError>, ev: ClientEvent<I>)
    ensures
        usb_client_step_spec(s, ev).0 matches Ok(ClientGadgetState::Invited { invite }) ==> s == Ok::<
            ClientGadgetState<I>,
            ClientGadgetError,
        >(ClientGadgetState::WaitingForInvite) && ev.invite == Some(invite),
        usb_client_step_spec(s, ev).1.connect ==> (s matches Ok(ClientGadgetState::Invited { .. })
            && ev.invite_has_address),
{
}

/// A gadget that failed starts over once the restart delay has passed, and keeps its error,
/// doing nothing, until then.
pub proof fn lemma_client_restarts<I>(e: ClientGadgetError, ev: ClientEvent<I>)
    ensures
        usb_client_step_spec(Err::<ClientGadgetState<I>, ClientGadgetError>(e), ev) == if ev.restart_elapsed {
            (Ok::<ClientGadgetState<I>, ClientGadgetError>(ClientGadgetState::Initial), ClientActions::none_spec())
        } else {
            (Err::<ClientGadgetState<I>, ClientGadgetError>(e), ClientActions::none_spec())
        },
{
}

} // verus!
