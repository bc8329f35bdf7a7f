use catplay::bonjour::dns_parse::{DnsRData, DnsRecord};
use catplay::bonjour::packet::HostAddr;
use catplay::bonjour::resolve::{dns_name_key, handle_responses, ServiceMeta};

const FULL: &[u8] = b"Car._carplay._tcp.local.";
const STYPE: &[u8] = b"_carplay._tcp.local.";

fn rec(name: &[u8], ttl: u32, data: DnsRData) -> DnsRecord {
    DnsRecord { name: name.to_vec(), ttl, data }
}

fn pair(k: &str, v: &str) -> (Vec<u8>, Vec<u8>) {
    (k.as_bytes().to_vec(), v.as_bytes().to_vec())
}

fn v4s(ips: &[HostAddr]) -> Vec<Vec<u8>> {
    ips.iter()
        .map(|a| match a {
            HostAddr::V4(o) => o.to_vec(),
            HostAddr::V6(o) => o.to_vec(),
        })
        .collect()
}

fn full_batch() -> Vec<DnsRecord> {
    vec![
        rec(STYPE, 120, DnsRData::Ptr(FULL.to_vec())),
        rec(FULL, 120, DnsRData::Srv { target: b"car.local.".to_vec(), port: 7000 }),
        rec(FULL, 4500, DnsRData::Txt(vec![pair("a", "1"), pair("b", "2")])),
        rec(b"CAR.local.", 100, DnsRData::A([10, 0, 0, 1])),
    ]
}

fn known(txt: Vec<(Vec<u8>, Vec<u8>)>, ips: Vec<HostAddr>) -> ServiceMeta {
    ServiceMeta {
        hostname: b"car.local.".to_vec(),
        port: 7000,
        ips,
        txt,
        service_type: STYPE.to_vec(),
        instance_name: b"Car".to_vec(),
        fullname: FULL.to_vec(),
    }
}

#[test]
fn name_keys_lower_ascii_only() {
    assert_eq!(dns_name_key(b"CaR.Local."), b"car.local.".to_vec());
    assert_eq!(dns_name_key(&[0xC3, 0x89, b'X']), vec![0xC3, 0x89, b'x']);
}

#[test]
fn a_full_announcement_resolves_the_instance() {
    let out = handle_responses(&full_batch(), &[]);
    assert!(out.removed.is_empty());
    assert_eq!(out.updates.len(), 1);
    let u = &out.updates[0];
    assert_eq!(u.meta.fullname, FULL.to_vec());
    assert_eq!(u.meta.instance_name, b"Car".to_vec());
    assert_eq!(u.meta.service_type, STYPE.to_vec());
    assert_eq!(u.meta.hostname, b"car.local.".to_vec());
    assert_eq!(u.meta.port, 7000);
    assert_eq!(v4s(&u.meta.ips), vec![vec![10, 0, 0, 1]]);
    assert_eq!(u.meta.txt, vec![pair("a", "1"), pair("b", "2")]);
    assert_eq!(u.ttl, 100);
    assert!(u.changed);
}

#[test]
fn the_same_data_in_another_order_is_no_change() {
    let observed = [known(vec![pair("b", "2"), pair("a", "1")], vec![HostAddr::V4([10, 0, 0, 1])])];
    let out = handle_responses(&full_batch(), &observed);
    assert_eq!(out.updates.len(), 1);
    assert!(!out.updates[0].changed);
}

#[test]
fn a_new_address_of_a_known_host_readdresses_the_instance() {
    let observed = [known(vec![pair("a", "1")], vec![HostAddr::V4([10, 0, 0, 1])])];
    let records = [rec(b"car.local.", 60, DnsRData::A([10, 0, 0, 2]))];
    let out = handle_responses(&records, &observed);
    assert_eq!(out.updates.len(), 1);
    let u = &out.updates[0];
    assert_eq!(v4s(&u.meta.ips), vec![vec![10, 0, 0, 2]]);
    assert_eq!(u.meta.txt, vec![pair("a", "1")]);
    assert_eq!(u.ttl, 60);
    assert!(u.changed);
}

#[test]
fn a_goodbye_removes_the_instance() {
    let observed = [known(vec![], vec![HostAddr::V4([10, 0, 0, 1])])];
    let records = [rec(STYPE, 0, DnsRData::Ptr(FULL.to_vec())), rec(b"car.local.", 60, DnsRData::A([10, 0, 0, 1]))];
    let out = handle_responses(&records, &observed);
    assert_eq!(out.removed, vec![(STYPE.to_vec(), FULL.to_vec())]);
    assert!(out.updates.is_empty());
}

#[test]
fn an_instance_without_port_or_host_is_not_resolved() {
    let records = [
        rec(STYPE, 120, DnsRData::Ptr(FULL.to_vec())),
        rec(FULL, 120, DnsRData::Txt(vec![pair("a", "1")])),
    ];
    let out = handle_responses(&records, &[]);
    assert!(out.removed.is_empty());
    assert!(out.updates.is_empty());
}

#[test]
fn the_last_srv_wins_and_without_addresses_the_known_ones_stay() {
    let observed = [known(vec![], vec![HostAddr::V4([10, 0, 0, 1])])];
    let records = [
        rec(FULL, 300, DnsRData::Srv { target: b"car.local.".to_vec(), port: 7000 }),
        rec(FULL, 200, DnsRData::Srv { target: b"car.local.".to_vec(), port: 7100 }),
    ];
    let out = handle_responses(&records, &observed);
    assert_eq!(out.updates.len(), 1);
    let u = &out.updates[0];
    assert_eq!(u.meta.port, 7100);
    assert_eq!(v4s(&u.meta.ips), vec![vec![10, 0, 0, 1]]);
    assert_eq!(u.ttl, 200);
    assert!(u.changed);
}

#[test]
fn the_same_batch_seen_again_is_no_change() {
    let first = handle_responses(&full_batch(), &[]);
    let observed: Vec<ServiceMeta> = first.updates.into_iter().map(|u| u.meta).collect();
    let again = handle_responses(&full_batch(), &observed);
    assert_eq!(again.updates.len(), 1);
    assert!(!again.updates[0].changed);
    assert_eq!(again.updates[0].ttl, 100);
}
