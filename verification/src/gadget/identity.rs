use vstd::prelude::*;

verus! {

/// The ids of the groups that are wanted, group after group, in order.
pub open spec fn wanted_ids(groups: Seq<(bool, Seq<u16>)>) -> Seq<u16>
    decreases groups.len(),
{
    if groups.len() == 0 {
        Seq::empty()
    } else {
        let last = groups.last();
        wanted_ids(groups.drop_last()) + if last.0 {
            last.1
        } else {
            Seq::empty()
        }
    }
}

/// The groups as plain values: each flag with the ids it guards.
pub open spec fn group_values(groups: Seq<(bool, &[u16])>) -> Seq<(bool, Seq<u16>)> {
    Seq::new(groups.len(), |i: int| (groups[i].0, groups[i].1@))
}

/// The message ids of every group whose flag is set, in the order of the groups: what an
/// accessory declares it sends or receives, given which features it has.
pub fn flatten_wants(groups: &[(bool, &[u16])]) -> (out: Vec<u16>)
    ensures
        out@ == wanted_ids(group_values(groups@)),
{
    let mut out: Vec<u16> = Vec::new();
    let mut i: usize = 0;
    while i < groups.len()
        invariant
            i <= groups@.len(),
            out@ == wanted_ids(group_values(groups@.subrange(0, i as int))),
        decreases groups@.len() - i,
    {
        let (want, ids) = groups[i];
        let ghost before = out@;
        if want {
            let mut k: usize = 0;
            while k < ids.len()
                invariant
                    k <= ids@.len(),
                    out@ == before + ids@.subrange(0, k as int),
                decreases ids@.len() - k,
            {
                out.push(ids[k]);
                k = k + 1;
                assert(ids@.subrange(0, k as int) == ids@.subrange(0, k - 1) + seq![ids@[k - 1]]);
            }
            assert(ids@.subrange(0, ids@.len() as int) == ids@);
        }
        assert(group_values(groups@.subrange(0, i + 1)).drop_last() == group_values(groups@.subrange(0, i as int)));
        assert(out@ == wanted_ids(group_values(groups@.subrange(0, i + 1))));
        i = i + 1;
    }
    assert(groups@.subrange(0, groups@.len() as int) == groups@);
    out
}

/// Who the head unit says it is, and which transports and features it offers. MAC
/// addresses are 48-bit numbers.
#[derive(Debug, Clone)]
pub struct SessionIdentity {
    pub name: String,
    pub model_identifier: String,
    pub manufacturer: String,
    pub serial_number: String,
    pub firmware_version: String,
    pub hardware_version: String,
    pub display_name: String,
    /// The USB interface the CarPlay session runs on.
    pub ncm_iface: Option<u8>,
    pub bt_mac: Option<u64>,
    pub wifi_ssid: Option<String>,
    pub wifi_passphrase: Option<String>,
    pub wifi_is_wpa: bool,
    pub wifi_channel: Option<u8>,
    /// The session runs over USB (some messages are refused otherwise).
    pub is_usb_transport: bool,
    pub has_gps: bool,
    /// Now-playing updates are subscribed to.
    pub wants_now_playing: bool,
}

impl Default for SessionIdentity {
    /// A CatPlay head unit with no transport or feature declared but WPA security.
    fn default() -> (r: Self)
        ensures
            r.name@ == "CatPlay"@,
            r.model_identifier@ == "CatPlay"@,
            r.manufacturer@ == "CatPlay"@,
            r.serial_number@ == "123456789"@,
            r.firmware_version@ == "1.0"@,
            r.hardware_version@ == "1.0"@,
            r.display_name@ == "CatPlay HU"@,
            r.ncm_iface is None,
            r.bt_mac is None,
            r.wifi_ssid is None,
            r.wifi_passphrase is None,
            r.wifi_is_wpa,
            r.wifi_channel is None,
            !r.is_usb_transport,
            !r.has_gps,
            !r.wants_now_playing,
    {
        SessionIdentity {
            name: "CatPlay".to_owned(),
            model_identifier: "CatPlay".to_owned(),
            manufacturer: "CatPlay".to_owned(),
            serial_number: "123456789".to_owned(),
            firmware_version: "1.0".to_owned(),
            hardware_version: "1.0".to_owned(),
            display_name: "CatPlay HU".to_owned(),
            ncm_iface: None,
            bt_mac: None,
            wifi_ssid: None,
            wifi_passphrase: None,
            wifi_is_wpa: true,
            wifi_channel: None,
            is_usb_transport: false,
            has_gps: false,
            wants_now_playing: false,
        }
    }
}

/// The ids of the messages the identification declares.
#[derive(Debug, Clone, Copy, PartialEq, Eq, Structural)]
pub struct MessageIds {
    pub start_now_playing_updates: u16,
    pub stop_now_playing_updates: u16,
    pub set_now_playing_information: u16,
    pub start_call_state_updates: u16,
    pub stop_call_state_updates: u16,
    pub initiate_call: u16,
    pub start_list_updates: u16,
    pub stop_list_updates: u16,
    pub location_information: u16,
    pub start_power_updates: u16,
    pub stop_power_updates: u16,
    pub power_source_update: u16,
    pub accessory_wifi_configuration_information: u16,
    pub now_playing_update: u16,
    pub device_information_update: u16,
    pub device_uuid_update: u16,
    pub call_state_update: u16,
    pub list_update: u16,
    pub start_location_information: u16,
    pub stop_location_information: u16,
    pub start_external_accessory_protocol_session: u16,
    pub stop_external_accessory_protocol_session: u16,
    pub request_accessory_wifi_configuration_information: u16,
}

/// The messages the head unit sends, by group: now playing, calls and lists always;
/// location only with GPS; power only over USB; Wi-Fi details only with a Wi-Fi network.
pub open spec fn sent_groups(id: SessionIdentity, ids: MessageIds) -> Seq<(bool, Seq<u16>)> {
    seq![
        (
            true,
            seq![
                ids.start_now_playing_updates,
                ids.stop_now_playing_updates,
                ids.set_now_playing_information,
                ids.start_call_state_updates,
                ids.stop_call_state_updates,
                ids.initiate_call,
                ids.start_list_updates,
                ids.stop_list_updates,
            ],
        ),
        (id.has_gps, seq![ids.location_information]),
        (id.is_usb_transport, seq![ids.start_power_updates, ids.stop_power_updates, ids.power_source_update]),
        (id.wifi_ssid is Some, seq![ids.accessory_wifi_configuration_information]),
    ]
}

/// The messages the head unit receives, by group: now playing, device information, UUID,
/// call state and lists always; location requests only with GPS; accessory protocol
/// sessions never; Wi-Fi requests only with a Wi-Fi network.
pub open spec fn received_groups(id: SessionIdentity, ids: MessageIds) -> Seq<(bool, Seq<u16>)> {
    seq![
        (
            true,
            seq![
                ids.now_playing_update,
                ids.device_information_update,
                ids.device_uuid_update,
                ids.call_state_update,
                ids.list_update,
            ],
        ),
        (id.has_gps, seq![ids.start_location_information, ids.stop_location_information]),
        (false, seq![ids.start_external_accessory_protocol_session, ids.stop_external_accessory_protocol_session]),
        (id.wifi_ssid is Some, seq![ids.request_accessory_wifi_configuration_information]),
    ]
}

/// What the head unit's identification declares. Besides these fields it always declares
/// advanced power, no current drawn from the phone, English as supported and current
/// language, and a gasoline vehicle (component 1, `VEH_INFO_USE`) under the display name;
/// with GPS a location component (4001, `LOC_USE`: GPS fix, minimum GPS transit data and
/// vehicle speed); on a USB interface a USB host transport (1001, `USB_USE`) with CarPlay
/// on that interface; with a Bluetooth address a Bluetooth transport (1, `IAP2-Bluetooth`);
/// and with a Wi-Fi network a wireless CarPlay transport (2, `IAP2-Wireless`, no mutual
/// authentication).
#[derive(Debug, Clone)]
pub struct IdentificationModel {
    pub name: String,
    pub model_identifier: String,
    pub manufacturer: String,
    pub serial_number: String,
    pub firmware_version: String,
    pub hardware_version: String,
    pub messages_sent: Vec<u16>,
    pub messages_received: Vec<u16>,
    pub vehicle_display_name: String,
    pub location_component: bool,
    pub usb_transport_interface: Option<u8>,
    pub bluetooth_transport_mac: Option<u64>,
    pub wireless_transport: bool,
}

/// The identification a head unit with identity `id` sends, with message ids `ids`.
pub open spec fn identification_spec(r: IdentificationModel, id: SessionIdentity, ids: MessageIds) -> bool {
    &&& r.name@ == id.name@
    &&& r.model_identifier@ == id.model_identifier@
    &&& r.manufacturer@ == id.manufacturer@
    &&& r.serial_number@ == id.serial_number@
    &&& r.firmware_version@ == id.firmware_version@
    &&& r.hardware_version@ == id.hardware_version@
    &&& r.messages_sent@ == wanted_ids(sent_groups(id, ids))
    &&& r.messages_received@ == wanted_ids(received_groups(id, ids))
    &&& r.vehicle_display_name@ == id.display_name@
    &&& r.location_component == id.has_gps
    &&& r.usb_transport_interface == id.ncm_iface
    &&& r.bluetooth_transport_mac == id.bt_mac
    &&& r.wireless_transport == (id.wifi_ssid is Some)
}

/// The identification a head unit sends.
pub fn identification(id: &SessionIdentity, ids: &MessageIds) -> (r: IdentificationModel)
    ensures
        identification_spec(r, *id, *ids),
{
    let tx0: [u16; 8] = [
        ids.start_now_playing_updates,
        ids.stop_now_playing_updates,
        ids.set_now_playing_information,
        ids.start_call_state_updates,
        ids.stop_call_state_updates,
        ids.initiate_call,
        ids.start_list_updates,
        ids.stop_list_updates,
    ];
    let tx1: [u16; 1] = [ids.location_information];
    let tx2: [u16; 3] = [ids.start_power_updates, ids.stop_power_updates, ids.power_source_update];
    let tx3: [u16; 1] = [ids.accessory_wifi_configuration_information];
    let has_wifi = id.wifi_ssid.is_some();
    let sent_in: [(bool, &[u16]); 4] = [
        (true, tx0.as_slice()),
        (id.has_gps, tx1.as_slice()),
        (id.is_usb_transport, tx2.as_slice()),
        (has_wifi, tx3.as_slice()),
    ];
    let rx0: [u16; 5] = [
        ids.now_playing_update,
        ids.device_information_update,
        ids.device_uuid_update,
        ids.call_state_update,
        ids.list_update,
    ];
    let rx1: [u16; 2] = [ids.start_location_information, ids.stop_location_information];
    let rx2: [u16; 2] = [
        ids.start_external_accessory_protocol_session,
        ids.stop_external_accessory_protocol_session,
    ];
    let rx3: [u16; 1] = [ids.request_accessory_wifi_configuration_information];
    let received_in: [(bool, &[u16]); 4] = [
        (true, rx0.as_slice()),
        (id.has_gps, rx1.as_slice()),
        (false, rx2.as_slice()),
        (has_wifi, rx3.as_slice()),
    ];
    proof {
        assert(group_values(sent_in@) =~= sent_groups(*id, *ids)) by {
            assert(tx0@ =~= sent_groups(*id, *ids)[0].1);
            assert(tx1@ =~= sent_groups(*id, *ids)[1].1);
            assert(tx2@ =~= sent_groups(*id, *ids)[2].1);
            assert(tx3@ =~= sent_groups(*id, *ids)[3].1);
        }
        assert(group_values(received_in@) =~= received_groups(*id, *ids)) by {
            assert(rx0@ =~= received_groups(*id, *ids)[0].1);
            assert(rx1@ =~= received_groups(*id, *ids)[1].1);
            assert(rx2@ =~= received_groups(*id, *ids)[2].1);
            assert(rx3@ =~= received_groups(*id, *ids)[3].1);
        }
    }
    let messages_sent = flatten_wants(sent_in.as_slice());
    let messages_received = flatten_wants(received_in.as_slice());
    IdentificationModel {
        name: id.name.clone(),
        model_identifier: id.model_identifier.clone(),
        manufacturer: id.manufacturer.clone(),
        serial_number: id.serial_number.clone(),
        firmware_version: id.firmware_version.clone(),
        hardware_version: id.hardware_version.clone(),
        messages_sent,
        messages_received,
        vehicle_display_name: id.display_name.clone(),
        location_component: id.has_gps,
        usb_transport_interface: id.ncm_iface,
        bluetooth_transport_mac: id.bt_mac,
        wireless_transport: has_wifi,
    }
}

/// The security of the head unit's Wi-Fi network.
#[derive(Debug, Clone, Copy, PartialEq, Eq, Structural)]
pub enum WifiSecurity {
    WpaOrWpa2,
    Wep,
    Open,
}

/// The Wi-Fi details the head unit hands out.
#[derive(Debug, Clone)]
pub struct WifiConfiguration {
    pub ssid: String,
    pub passphrase: Option<String>,
    pub security: WifiSecurity,
    pub channel: Option<u8>,
}

/// The security a network has: WPA/WPA2 or WEP when there is a passphrase (as the WPA
/// flag says), open without one.
pub open spec fn wifi_security_spec(is_wpa: bool, has_passphrase: bool) -> WifiSecurity {
    if !has_passphrase {
        WifiSecurity::Open
    } else if is_wpa {
        WifiSecurity::WpaOrWpa2
    } else {
        WifiSecurity::Wep
    }
}

/// The Wi-Fi details of the identity: `None` without a network.
pub fn wifi(id: &SessionIdentity) -> (r: Option<WifiConfiguration>)
    ensures
        id.wifi_ssid is None ==> r is None,
        id.wifi_ssid matches Some(ssid) ==> r matches Some(w) && w.ssid@ == ssid@ && match (w.passphrase, id.wifi_passphrase) {
            (Some(a), Some(b)) => a@ == b@,
            (None, None) => true,
            _ => false,
        } && w.security == wifi_security_spec(id.wifi_is_wpa, id.wifi_passphrase is Some) && w.channel == id.wifi_channel,
{
    match &id.wifi_ssid {
        None => None,
        Some(ssid) => {
            let passphrase = match &id.wifi_passphrase {
                Some(p) => Some(p.clone()),
                None => None,
            };
            let security = if id.wifi_passphrase.is_none() {
                WifiSecurity::Open
            } else if id.wifi_is_wpa {
                WifiSecurity::WpaOrWpa2
            } else {
                WifiSecurity::Wep
            };
            Some(WifiConfiguration { ssid: ssid.clone(), passphrase, security, channel: id.wifi_channel })
        },
    }
}

} // verus!
