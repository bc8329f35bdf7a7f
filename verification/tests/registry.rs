use catplay::bonjour::dns_parse::DnsQuestion;
use catplay::bonjour::packet::HostAddr;
use catplay::bonjour::registry::{normalize_v4, reconcile_iface_ips, registration_addrs, registration_names, should_reply, IfaceIps};

fn octets(ips: &[HostAddr]) -> Vec<Vec<u8>> {
    ips.iter()
        .map(|a| match a {
            HostAddr::V4(o) => o.to_vec(),
            HostAddr::V6(o) => o.to_vec(),
        })
        .collect()
}

#[test]
fn addresses_are_sorted_and_deduplicated() {
    let v4 = vec![[10, 0, 0, 2], [10, 0, 0, 1], [192, 168, 1, 1], [10, 0, 0, 2], [9, 255, 255, 255]];
    assert_eq!(normalize_v4(&v4), vec![[9, 255, 255, 255], [10, 0, 0, 1], [10, 0, 0, 2], [192, 168, 1, 1]]);
    assert_eq!(normalize_v4(&vec![]), Vec::<[u8; 4]>::new());
}

#[test]
fn an_instance_without_addresses_follows_the_interface() {
    let mut ll = [0u8; 16];
    ll[0] = 0xfe;
    ll[1] = 0x80;
    ll[15] = 1;
    let iface = IfaceIps { v4: vec![[10, 0, 0, 1], [10, 0, 0, 2]], v6: Some(ll) };
    let (ips, auto) = registration_addrs(&vec![], &iface);
    assert!(auto);
    assert_eq!(octets(&ips), vec![vec![10, 0, 0, 1], vec![10, 0, 0, 2], ll.to_vec()]);
    let (ips, auto) = registration_addrs(&vec![HostAddr::V4([1, 2, 3, 4])], &iface);
    assert!(!auto);
    assert_eq!(octets(&ips), vec![vec![1, 2, 3, 4]]);
}

#[test]
fn reconcile_reports_only_a_changed_set() {
    let kept = IfaceIps { v4: vec![[10, 0, 0, 1], [10, 0, 0, 2]], v6: None };
    assert!(reconcile_iface_ips(&kept, &vec![[10, 0, 0, 2], [10, 0, 0, 1], [10, 0, 0, 1]], None).is_none());
    let next = reconcile_iface_ips(&kept, &vec![[10, 0, 0, 3], [10, 0, 0, 1]], None).unwrap();
    assert_eq!(next.v4, vec![[10, 0, 0, 1], [10, 0, 0, 3]]);
    assert_eq!(next.v6, None);
    let next = reconcile_iface_ips(&kept, &vec![[10, 0, 0, 1], [10, 0, 0, 2]], Some([1; 16])).unwrap();
    assert_eq!(next.v6, Some([1; 16]));
}

#[test]
fn queries_are_answered_for_any_registered_name_in_any_case() {
    let names = registration_names("_carplay._tcp.local.", "Car._carplay._tcp.local.", "Car-Host.local.");
    assert_eq!(
        names,
        vec![
            b"_carplay._tcp.local.".to_vec(),
            b"car._carplay._tcp.local.".to_vec(),
            b"car-host.local.".to_vec(),
            b"_services._dns-sd._udp.local.".to_vec(),
        ]
    );
    let q = |n: &str| DnsQuestion { name: n.as_bytes().to_vec() };
    assert!(should_reply(&[q("other.local."), q("CAR-HOST.local.")], &names));
    assert!(should_reply(&[q("_services._dns-sd._udp.local.")], &names));
    assert!(!should_reply(&[q("other.local.")], &names));
    assert!(!should_reply(&[], &names));
}
