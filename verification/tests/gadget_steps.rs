use catplay::gadget::client_gadget::{usb_client_step, ClientActions, ClientEvent, ClientGadgetError, ClientGadgetState};
use catplay::gadget::client_session::{
    now_playing_reset, respond_step, ClientSessionState, IncomingPacket, MediaItemModel, OutgoingMessage, PlaybackModel,
};
use catplay::gadget::identity::{identification, wifi, MessageIds, SessionIdentity, WifiSecurity};
use catplay::gadget::server::{usb_gadget_step, ServerStart, UsbGadgetAction, UsbGadgetError, UsbGadgetEvent, UsbGadgetOutcome, UsbGadgetState};
use catplay::gadget::wireless::{burst_wakeups, wireless_step, WirelessAction, WirelessConfig, WirelessError, WirelessEvent, WirelessOutcome, WirelessState};

fn usb_ev(outcome: UsbGadgetOutcome) -> UsbGadgetEvent {
    UsbGadgetEvent { restart_elapsed: false, gadget_failed: false, outcome }
}

#[test]
fn usb_head_unit_walks_up_to_inviting() {
    let (s, a) = usb_gadget_step(Ok(UsbGadgetState::Initial), usb_ev(UsbGadgetOutcome::NoCall));
    assert_eq!((s, a), (Ok(UsbGadgetState::WaitingForUdc), UsbGadgetAction::Nothing));
    let (s, _) = usb_gadget_step(Ok(UsbGadgetState::WaitingForUdc), usb_ev(UsbGadgetOutcome::UdcFound(false)));
    assert_eq!(s, Ok(UsbGadgetState::WaitingForUdc));
    let (s, a) = usb_gadget_step(Ok(UsbGadgetState::StartingGadget), usb_ev(UsbGadgetOutcome::GadgetStarted(true)));
    assert_eq!((s, a), (Ok(UsbGadgetState::WaitingForCarPlaySession), UsbGadgetAction::KeepGadget));
    let session = UsbGadgetOutcome::Session { gadget: true, session: Some((b"usb0".to_vec(), [1, 2, 3, 4, 5, 6])) };
    let (s, _) = usb_gadget_step(Ok(UsbGadgetState::WaitingForCarPlaySession), usb_ev(session));
    assert_eq!(s, Ok(UsbGadgetState::StartingServer { iface: b"usb0".to_vec(), mac: [1, 2, 3, 4, 5, 6] }));
    let (s, a) = usb_gadget_step(s, usb_ev(UsbGadgetOutcome::Server(ServerStart::Started)));
    assert_eq!((s, a), (Ok(UsbGadgetState::Inviting), UsbGadgetAction::KeepServer));
    let invite = UsbGadgetOutcome::Invite { server: true, active_session: false, timed_out: false };
    let (s, a) = usb_gadget_step(Ok(UsbGadgetState::Inviting), usb_ev(invite));
    assert_eq!((s, a), (Ok(UsbGadgetState::Inviting), UsbGadgetAction::StartInviting));
    let timed = UsbGadgetOutcome::Invite { server: true, active_session: false, timed_out: true };
    assert_eq!(usb_gadget_step(Ok(UsbGadgetState::Inviting), usb_ev(timed)).0, Ok(UsbGadgetState::Passive));
    let serving = UsbGadgetOutcome::Serving { server: true, active_session: true };
    let (s, a) = usb_gadget_step(Ok(UsbGadgetState::Passive), usb_ev(serving));
    assert_eq!((s, a), (Ok(UsbGadgetState::Receiving), UsbGadgetAction::StopInviting));
}

#[test]
fn usb_head_unit_errors_and_restarts() {
    let failed = UsbGadgetEvent { restart_elapsed: false, gadget_failed: true, outcome: UsbGadgetOutcome::NoCall };
    assert_eq!(usb_gadget_step(Ok(UsbGadgetState::Receiving), failed).0, Err(UsbGadgetError::Gadget));
    assert_eq!(
        usb_gadget_step(Ok(UsbGadgetState::StartingGadget), usb_ev(UsbGadgetOutcome::GadgetStarted(false))).0,
        Err(UsbGadgetError::StartingGadget)
    );
    let bind = usb_ev(UsbGadgetOutcome::Server(ServerStart::AdvertiseFailed));
    assert_eq!(
        usb_gadget_step(Ok(UsbGadgetState::StartingServer { iface: vec![], mac: [0; 6] }), bind).0,
        Err(UsbGadgetError::Bonjour)
    );
    assert_eq!(usb_gadget_step(Err(UsbGadgetError::Bonjour), usb_ev(UsbGadgetOutcome::NoCall)).0, Err(UsbGadgetError::Bonjour));
    let later = UsbGadgetEvent { restart_elapsed: true, gadget_failed: false, outcome: UsbGadgetOutcome::NoCall };
    assert_eq!(usb_gadget_step(Err(UsbGadgetError::Bonjour), later).0, Ok(UsbGadgetState::Initial));
}

fn wev(outcome: WirelessOutcome) -> WirelessEvent {
    WirelessEvent { restart_elapsed: false, last_mac: None, iface_mac: None, outcome }
}

#[test]
fn wireless_head_unit_starts_server_and_reconnects_last_phone() {
    let cfg = WirelessConfig { invites_blocked: false, last_bt_peer: Some(0xAABB) };
    let (s, _) = wireless_step(Ok(WirelessState::WaitingForBluetooth), &cfg, wev(WirelessOutcome::BluetoothMac(Some(7))));
    assert_eq!(s, Ok(WirelessState::StartingBluetooth { mac: 7 }));
    let (s, a) = wireless_step(s, &cfg, wev(WirelessOutcome::BluetoothStarted(true)));
    assert_eq!((s, a), (Ok(WirelessState::StartingBluetoothPower { mac: 7 }), WirelessAction::KeepBluetooth));
    let (s, a) = wireless_step(Ok(WirelessState::WaitingForInterface), &cfg, wev(WirelessOutcome::IfaceMac(Some(9))));
    assert_eq!((s, a), (Ok(WirelessState::WaitingForInterfaceRunning { mac: 9 }), WirelessAction::RememberMac(9)));
    let (s, a) = wireless_step(Ok(WirelessState::StartingServer { mac: 9 }), &cfg, wev(WirelessOutcome::Server(ServerStart::Started)));
    assert_eq!((s, a), (Ok(WirelessState::StartingLastConnect { mac: 9, peer_mac: 0xAABB }), WirelessAction::KeepServer(9)));
    let (s, a) = wireless_step(s, &cfg, wev(WirelessOutcome::LastConnect { task_running: false }));
    assert_eq!((s, a), (Ok(WirelessState::Inviting), WirelessAction::SpawnLastConnect { peer_mac: 0xAABB }));
    let blocked = WirelessConfig { invites_blocked: true, last_bt_peer: None };
    let (s, a) = wireless_step(Ok(WirelessState::Receiving), &blocked, wev(WirelessOutcome::Serving { server: true, active_session: false }));
    assert_eq!((s, a), (Ok(WirelessState::Passive), WirelessAction::StopInviting { stop_last_connect: true }));
    assert!(!burst_wakeups(&s));
    assert!(burst_wakeups(&Ok(WirelessState::Initial)));
}

#[test]
fn wireless_head_unit_notices_a_changed_interface() {
    let cfg = WirelessConfig { invites_blocked: false, last_bt_peer: None };
    let ev = WirelessEvent { restart_elapsed: false, last_mac: Some(1), iface_mac: Some(2), outcome: WirelessOutcome::NoCall };
    assert_eq!(wireless_step(Ok(WirelessState::Inviting), &cfg, ev).0, Err(WirelessError::MacAddressChanged { prev: 1, current: 2 }));
    let gone = WirelessEvent { restart_elapsed: false, last_mac: Some(1), iface_mac: None, outcome: WirelessOutcome::NoCall };
    assert_eq!(wireless_step(Ok(WirelessState::Inviting), &cfg, gone).0, Err(WirelessError::InterfaceGone));
}

fn cev(invite: Option<u32>) -> ClientEvent<u32> {
    ClientEvent {
        restart_elapsed: false,
        gadget_ok: true,
        connect_resolved: None,
        in_session: true,
        session_changed: false,
        ctrl_server_running: true,
        ctrl_server_started: true,
        invite,
        announce_due: false,
        invite_has_address: true,
        pending_transmitter: false,
        pending_connect: false,
        transmitting: false,
    }
}

#[test]
fn phone_gadget_takes_an_invite_and_connects() {
    let (s, a) = usb_client_step(Ok(ClientGadgetState::WaitingForInvite), cev(Some(5)));
    assert_eq!(s, Ok(ClientGadgetState::Invited { invite: 5 }));
    assert_eq!(a, ClientActions::none());
    let (s, a) = usb_client_step(s, cev(None));
    assert_eq!(s, Ok(ClientGadgetState::Connecting));
    assert!(a.connect);
    let mut done = cev(None);
    done.connect_resolved = Some(true);
    done.pending_connect = true;
    let (s, a) = usb_client_step(Ok(ClientGadgetState::Connecting), done);
    assert_eq!(s, Ok(ClientGadgetState::TransmitterReadyForPickup));
    assert!(a.keep_transmitter);
    let mut failed = cev(None);
    failed.connect_resolved = Some(false);
    assert_eq!(usb_client_step(Ok(ClientGadgetState::Connecting), failed).0, Err(ClientGadgetError::Connect));
    let mut away = cev(Some(6));
    away.in_session = false;
    let (s, a) = usb_client_step(Ok(ClientGadgetState::Transmitting), away);
    assert_eq!(s, Ok(ClientGadgetState::WaitingForUsbAccessory));
    assert!(a.shutdown_ctrl_server);
    let mut fresh = cev(None);
    fresh.session_changed = true;
    fresh.announce_due = true;
    let (s, a) = usb_client_step(Ok(ClientGadgetState::WaitingForInvite), fresh);
    assert_eq!(s, Ok(ClientGadgetState::WaitingForInvite));
    assert!(a.shutdown_ctrl_server && a.remember_session && a.start_ctrl_server && a.announce);
}

#[test]
fn phone_session_answers_packets() {
    let s = ClientSessionState::new();
    let (s, out) = respond_step(s, IncomingPacket::Identification);
    assert_eq!(out, vec![OutgoingMessage::IdentificationAccepted, OutgoingMessage::RequestAuthenticationCertificate]);
    let (s, out) = respond_step(s, IncomingPacket::PowerSourceUpdate { available_current: Some(2100) });
    assert!(out.is_empty());
    assert_eq!(s.power_draw, Some(2100));
    let (s, out) = respond_step(s, IncomingPacket::StartPowerUpdates);
    assert_eq!(out, vec![OutgoingMessage::PowerUpdateMaximumCurrent, OutgoingMessage::PowerUpdateWillCharge]);
    assert!(s.power_sub && s.flushed_power);
    let (s, out) = respond_step(s, IncomingPacket::PowerSourceUpdate { available_current: None });
    assert!(out.is_empty());
    assert_eq!(s.power_draw, Some(500));
    let (s, out) = respond_step(s, IncomingPacket::StartNowPlayingUpdates { first_tx: Some(3), next_tx: Some(4) });
    assert_eq!(out.len(), 7);
    assert_eq!(out[5], OutgoingMessage::SendArtworkFile(3));
    assert_eq!(out[6], OutgoingMessage::SendArtworkFile(4));
    assert_eq!(s.artwork_tx, Some(3));
}

#[test]
fn now_playing_reset_has_five_updates() {
    let r = now_playing_reset(Some(1), None);
    assert_eq!(r.len(), 5);
    assert_eq!(r[0].media_item, Some(MediaItemModel::Blank { artwork_tx: Some(1) }));
    assert_eq!(r[1].playback, Some(PlaybackModel::Stopped { speed: 100, queue_list_unavailable: false }));
    assert_eq!(r[3].playback, Some(PlaybackModel::QueueListUnavailable));
    assert_eq!(r[4].media_item, Some(MediaItemModel::ArtworkOnly { artwork_tx: None }));
}

fn ids() -> MessageIds {
    MessageIds {
        start_now_playing_updates: 1,
        stop_now_playing_updates: 2,
        set_now_playing_information: 3,
        start_call_state_updates: 4,
        stop_call_state_updates: 5,
        initiate_call: 6,
        start_list_updates: 7,
        stop_list_updates: 8,
        location_information: 9,
        start_power_updates: 10,
        stop_power_updates: 11,
        power_source_update: 12,
        accessory_wifi_configuration_information: 13,
        now_playing_update: 20,
        device_information_update: 21,
        device_uuid_update: 22,
        call_state_update: 23,
        list_update: 24,
        start_location_information: 25,
        stop_location_information: 26,
        start_external_accessory_protocol_session: 27,
        stop_external_accessory_protocol_session: 28,
        request_accessory_wifi_configuration_information: 29,
    }
}

#[test]
fn identification_declares_messages_by_feature() {
    let usb = SessionIdentity { has_gps: true, is_usb_transport: true, ncm_iface: Some(1), ..SessionIdentity::default() };
    let id = identification(&usb, &ids());
    assert_eq!(id.name, "CatPlay");
    assert_eq!(id.messages_sent, vec![1, 2, 3, 4, 5, 6, 7, 8, 9, 10, 11, 12]);
    assert_eq!(id.messages_received, vec![20, 21, 22, 23, 24, 25, 26]);
    assert!(id.location_component && !id.wireless_transport);
    assert_eq!(id.usb_transport_interface, Some(1));
    let wireless = SessionIdentity { wifi_ssid: Some("car".into()), bt_mac: Some(5), ..SessionIdentity::default() };
    let id = identification(&wireless, &ids());
    assert_eq!(id.messages_sent, vec![1, 2, 3, 4, 5, 6, 7, 8, 13]);
    assert_eq!(id.messages_received, vec![20, 21, 22, 23, 24, 29]);
    assert_eq!(id.bluetooth_transport_mac, Some(5));
    assert!(id.wireless_transport);
}

#[test]
fn wifi_details_follow_the_passphrase() {
    assert!(wifi(&SessionIdentity::default()).is_none());
    let open = SessionIdentity { wifi_ssid: Some("car".into()), ..SessionIdentity::default() };
    assert_eq!(wifi(&open).unwrap().security, WifiSecurity::Open);
    let wpa = SessionIdentity { wifi_ssid: Some("car".into()), wifi_passphrase: Some("pw".into()), ..SessionIdentity::default() };
    assert_eq!(wifi(&wpa).unwrap().security, WifiSecurity::WpaOrWpa2);
    let wep = SessionIdentity { wifi_is_wpa: false, ..wpa };
    let w = wifi(&wep).unwrap();
    assert_eq!(w.security, WifiSecurity::Wep);
    assert_eq!(w.passphrase.as_deref(), Some("pw"));
}

#[test]
fn blocked_invites_keep_the_wireless_unit_passive() {
    let cfg = WirelessConfig { invites_blocked: true, last_bt_peer: None };
    let (s, a) = wireless_step(Ok(WirelessState::StartingServer { mac: 9 }), &cfg, wev(WirelessOutcome::Server(ServerStart::Started)));
    assert_eq!((s, a), (Ok(WirelessState::Passive), WirelessAction::KeepServer(9)));
    let idle = WirelessOutcome::Serving { server: true, active_session: false };
    let (s, a) = wireless_step(Ok(WirelessState::Receiving), &cfg, wev(idle));
    assert_eq!((s, a), (Ok(WirelessState::Passive), WirelessAction::StopInviting { stop_last_connect: true }));
    let (s, _) = wireless_step(Ok(WirelessState::Passive), &cfg, wev(idle));
    assert_eq!(s, Ok(WirelessState::Passive));
}

#[test]
fn failed_units_start_over_after_the_delay() {
    let later = WirelessEvent { restart_elapsed: true, last_mac: None, iface_mac: None, outcome: WirelessOutcome::NoCall };
    let cfg = WirelessConfig { invites_blocked: false, last_bt_peer: None };
    let (s, _) = wireless_step(Err(WirelessError::Bluetooth), &cfg, later);
    assert_eq!(s, Ok(WirelessState::Initial));
    assert_eq!(wireless_step(s, &cfg, wev(WirelessOutcome::NoCall)).0, Ok(WirelessState::WaitingForBluetooth));
    let again = UsbGadgetEvent { restart_elapsed: true, gadget_failed: false, outcome: UsbGadgetOutcome::NoCall };
    let (s, _) = usb_gadget_step(Err(UsbGadgetError::Gadget), again);
    assert_eq!(usb_gadget_step(s, usb_ev(UsbGadgetOutcome::NoCall)).0, Ok(UsbGadgetState::WaitingForUdc));
    let mut c = cev(None);
    c.restart_elapsed = true;
    assert_eq!(usb_client_step(Err(ClientGadgetError::Eof), c), (Ok(ClientGadgetState::Initial), ClientActions::none()));
    assert_eq!(usb_client_step(Ok(ClientGadgetState::Connecting), cev(Some(1))).0, Ok(ClientGadgetState::WaitingForInvite));
}
