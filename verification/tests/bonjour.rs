use catplay::bonjour::carplay_ctrl::CarplayCtrlAnnounceParams;
use catplay::bonjour::mdns_coder::{MdnsBuilder, TYPE_AAAA, TYPE_PTR, TYPE_SRV, TYPE_TXT};
use catplay::bonjour::packet::{HostAddr, MdnsCoder};
use catplay::bonjour::types::{get_bonjour_txt_optional, MulticastFamily};

#[test]
fn test() {
    let payload = CarplayCtrlAnnounceParams {
        instance: "iPhone SIM",
        host: "iPhone-SIM",
        port: 50013,
        // fe80::7c20:b2f1:fecc:d351
        addr_v6_ll: [0xfe, 0x80, 0, 0, 0, 0, 0, 0, 0x7c, 0x20, 0xb2, 0xf1, 0xfe, 0xcc, 0xd3, 0x51],
        srcvers: "925.5.1",
        model: "D84AP",
        device_id: "80:b4:89:3c:01:65",
        ttl: 4500,
    }
    .build_announce();
    assert_eq!(payload.len(), 399);
    assert_eq!(
        payload,
        [
            0, 0, 132, 0, 0, 0, 0, 7, 0, 0, 0, 3, 10, 105, 80, 104, 111, 110, 101, 32, 83, 73, 77, 13, 95, 99, 97, 114, 112, 108, 97, 121,
            45, 99, 116, 114, 108, 4, 95, 116, 99, 112, 5, 108, 111, 99, 97, 108, 0, 0, 33, 128, 1, 0, 0, 17, 148, 0, 19, 0, 0, 0, 0, 195,
            93, 10, 105, 80, 104, 111, 110, 101, 45, 83, 73, 77, 192, 42, 192, 65, 0, 28, 128, 1, 0, 0, 17, 148, 0, 16, 254, 128, 0, 0, 0,
            0, 0, 0, 124, 32, 178, 241, 254, 204, 211, 81, 1, 49, 1, 53, 1, 51, 1, 68, 1, 67, 1, 67, 1, 69, 1, 70, 1, 49, 1, 70, 1, 50, 1,
            66, 1, 48, 1, 50, 1, 67, 1, 55, 1, 48, 1, 48, 1, 48, 1, 48, 1, 48, 1, 48, 1, 48, 1, 48, 1, 48, 1, 48, 1, 48, 1, 48, 1, 48, 1,
            56, 1, 69, 1, 70, 3, 105, 112, 54, 4, 97, 114, 112, 97, 0, 0, 12, 128, 1, 0, 0, 17, 148, 0, 2, 192, 65, 192, 12, 0, 16, 128, 1,
            0, 0, 17, 148, 0, 37, 20, 105, 100, 61, 56, 48, 58, 98, 52, 58, 56, 57, 58, 51, 99, 58, 48, 49, 58, 54, 53, 15, 115, 114, 99,
            118, 101, 114, 115, 61, 57, 50, 53, 46, 53, 46, 49, 192, 23, 0, 12, 0, 1, 0, 0, 17, 148, 0, 2, 192, 12, 9, 95, 115, 101, 114,
            118, 105, 99, 101, 115, 7, 95, 100, 110, 115, 45, 115, 100, 4, 95, 117, 100, 112, 192, 42, 0, 12, 0, 1, 0, 0, 17, 148, 0, 2,
            192, 23, 10, 105, 80, 104, 111, 110, 101, 32, 83, 73, 77, 12, 95, 100, 101, 118, 105, 99, 101, 45, 105, 110, 102, 111, 192, 37,
            0, 16, 0, 1, 0, 0, 17, 148, 0, 12, 11, 109, 111, 100, 101, 108, 61, 68, 56, 52, 65, 80, 192, 12, 0, 47, 128, 1, 0, 0, 17, 148,
            0, 9, 192, 12, 0, 5, 0, 0, 128, 0, 64, 192, 65, 0, 47, 128, 1, 0, 0, 17, 148, 0, 8, 192, 65, 0, 4, 0, 0, 0, 8, 192, 106, 0, 47,
            128, 1, 0, 0, 17, 148, 0, 6, 192, 106, 0, 2, 0, 8
        ]
    );
}

// ---- further cases ----

#[test]
fn builder_header_counts_answers_and_additionals() {
    let mut b = MdnsBuilder::new(64);
    b.rr_a("h.local.", 120, [192, 168, 1, 2], true);
    b.rr_nsec("h.local.", 120, "h.local.", &[1], true);
    let hdr = b.build_header();
    assert_eq!(hdr, [0, 0, 0x84, 0, 0, 0, 0, 1, 0, 0, 0, 1]);
}

#[test]
fn write_name_compresses_known_suffixes() {
    let mut b = MdnsBuilder::new(64);
    b.write_name("a.local.");
    b.write_name("b.local.");
    let data = b.build_data();
    // a . local . root, then b and a pointer to "local." at offset 12 + 2
    assert_eq!(data, vec![1, b'a', 5, b'l', b'o', b'c', b'a', b'l', 0, 1, b'b', 0xC0, 14]);
}

#[test]
fn a_record_layout() {
    let mut b = MdnsBuilder::new(64);
    b.rr_a("x.", 1, [10, 0, 0, 1], false);
    assert_eq!(b.build_data(), vec![1, b'x', 0, 0, 1, 0, 1, 0, 0, 0, 1, 0, 4, 10, 0, 0, 1]);
}

#[test]
fn txt_record_layout() {
    let mut b = MdnsBuilder::new(64);
    let entries: [&[u8]; 2] = [b"k=v", b"a"];
    b.rr_txt("x.", 2, &entries, true);
    assert_eq!(b.build_data(), vec![1, b'x', 0, 0, 16, 0x80, 1, 0, 0, 0, 2, 0, 6, 3, b'k', b'=', b'v', 1, b'a']);
}

#[test]
fn ptr_and_srv_record_layout() {
    let mut b = MdnsBuilder::new(64);
    b.rr_ptr("x.", 1, "y.", false);
    b.rr_srv("y.", 1, 0x1234, "x.", true);
    let data = b.build_data();
    assert_eq!(
        data,
        vec![
            1, b'x', 0, 0, 12, 0, 1, 0, 0, 0, 1, 0, 3, 1, b'y', 0, // PTR x. -> y.
            0xC0, 25, 0, 33, 0x80, 1, 0, 0, 0, 1, 0, 8, 0, 0, 0, 0, 0x12, 0x34, 0xC0, 12, // SRV y. -> x.
        ]
    );
}

#[test]
fn nsec_bitmap_trims_trailing_zeros() {
    let mut b = MdnsBuilder::new(64);
    b.rr_nsec("x.", 1, "x.", &[TYPE_TXT, TYPE_SRV], false);
    let data = b.build_data();
    assert_eq!(data, vec![1, b'x', 0, 0, 47, 0, 1, 0, 0, 0, 1, 0, 9, 0xC0, 12, 0, 5, 0, 0, 0x80, 0, 0x40]);
    let _ = (TYPE_AAAA, TYPE_PTR);
}

#[test]
fn aaaa_record_carries_sixteen_bytes() {
    let mut b = MdnsBuilder::new(64);
    b.rr_aaaa("x.", 1, [1; 16], true);
    let data = b.build_data();
    assert_eq!(data.len(), 3 + 10 + 16);
    assert_eq!(&data[3..5], &[0, 28]);
    assert_eq!(&data[11..13], &[0, 16]);
}

#[test]
fn txt_lookup_returns_value_or_empty() {
    let txt = vec![("model".to_string(), "D84AP".to_string()), ("id".to_string(), "x".to_string())];
    assert_eq!(get_bonjour_txt_optional(&txt, "model"), "D84AP");
    assert_eq!(get_bonjour_txt_optional(&txt, "srcvers"), "");
}

#[test]
fn multicast_family_names() {
    assert_eq!(MulticastFamily::Ipv4.to_string(), "IPv4");
    assert_eq!(MulticastFamily::Ipv6.to_string(), "IPv6");
}

#[test]
fn announcement_packet_sorts_txt_and_counts_answers() {
    let txt = vec![("z".to_string(), "1".to_string()), ("a".to_string(), "2".to_string())];
    let ips = [HostAddr::V4([10, 0, 0, 1])];
    let packet = MdnsCoder::build_announcement_packet("_t._tcp.local.", "inst", "h.local.", 80, &txt, &ips, 120);
    // header: 4 records plus one address, no additionals
    assert_eq!(&packet[0..12], &[0, 0, 0x84, 0, 0, 0, 0, 5, 0, 0, 0, 0]);
    // the TXT data carries "a=2" before "z=1"
    let a = packet.windows(4).position(|w| w == [3, b'a', b'=', b'2']).expect("a=2 present");
    let z = packet.windows(4).position(|w| w == [3, b'z', b'=', b'1']).expect("z=1 present");
    assert!(a < z);
    // the address record ends the packet
    assert_eq!(&packet[packet.len() - 4..], &[10, 0, 0, 1]);
}

#[test]
fn announcement_packet_layout() {
    let packet = MdnsCoder::build_announcement_packet("s.", "i", "h.", 7, &[], &[], 1);
    let body: Vec<u8> = vec![
        1, b's', 0, 0, 12, 0, 1, 0, 0, 0, 1, 0, 4, 1, b'i', 0xC0, 12, // PTR s. -> i.s.
        9, b'_', b's', b'e', b'r', b'v', b'i', b'c', b'e', b's', 7, b'_', b'd', b'n', b's', b'-', b's', b'd', 4, b'_', b'u',
        b'd', b'p', 5, b'l', b'o', b'c', b'a', b'l', 0, 0, 12, 0, 1, 0, 0, 0, 1, 0, 2, 0xC0, 12, // PTR services -> s.
        0xC0, 25, 0, 33, 0x80, 1, 0, 0, 0, 1, 0, 9, 0, 0, 0, 0, 0, 7, 1, b'h', 0, // SRV i.s. -> h.
        0xC0, 25, 0, 16, 0x80, 1, 0, 0, 0, 1, 0, 0, // TXT i.s. (no entries)
    ];
    assert_eq!(&packet[0..12], &[0, 0, 0x84, 0, 0, 0, 0, 4, 0, 0, 0, 0]);
    assert_eq!(&packet[12..], &body[..]);
}

#[test]
fn a_repeated_txt_key_takes_its_last_value() {
    let txt = vec![
        ("model".to_string(), "old".to_string()),
        ("srcvers".to_string(), "1".to_string()),
        ("model".to_string(), "new".to_string()),
    ];
    assert_eq!(get_bonjour_txt_optional(&txt, "model"), "new");
}
