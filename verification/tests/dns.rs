use catplay::bonjour::dns_parse::{parse_name, parse_txt_pairs, DnsRData, ParsedDnsMessage};
use catplay::bonjour::dns_query::{build_addr_query_packet, build_ptr_query_packet, split_instance_and_service_type};
use catplay::bonjour::packet::{HostAddr, MdnsCoder};

#[test]
fn parse_name_follows_compression_pointers() {
    let buf = [1, b'a', 0, 1, b'b', 0xC0, 0];
    assert_eq!(parse_name(&buf, 3), Some((b"b.a.".to_vec(), 7)));
    assert_eq!(parse_name(&buf, 0), Some((b"a.".to_vec(), 3)));
}

#[test]
fn parse_name_rejects_loops_truncation_and_bad_utf8() {
    assert_eq!(parse_name(&[0xC0, 0], 0), None);
    assert_eq!(parse_name(&[3, b'a'], 0), None);
    assert_eq!(parse_name(&[1, 0xFF, 0], 0), None);
    assert_eq!(parse_name(&[], 0), None);
}

#[test]
fn txt_pairs_split_at_first_equals() {
    let data = [5, b'a', b'=', b'b', b'=', b'c', 2, b'n', b'o', 3, b'k', b'=', b'v'];
    let pairs = parse_txt_pairs(&data, 0, data.len());
    assert_eq!(pairs, vec![(b"a".to_vec(), b"b=c".to_vec()), (b"k".to_vec(), b"v".to_vec())]);
    // a string running past the end stops the reading
    let cut = [3, b'k', b'=', b'v', 9, b'x'];
    assert_eq!(parse_txt_pairs(&cut, 0, cut.len()), vec![(b"k".to_vec(), b"v".to_vec())]);
}

#[test]
fn parse_reads_back_an_announcement() {
    let txt = vec![("id".to_string(), "7".to_string())];
    let ips = [HostAddr::V4([192, 168, 0, 9]), HostAddr::V6([0xfe; 16])];
    let packet = MdnsCoder::build_announcement_packet("_t._tcp.local.", "inst", "h.local.", 8080, &txt, &ips, 120);
    let msg = ParsedDnsMessage::parse(&packet).expect("parses");
    assert!(msg.is_response);
    assert!(msg.questions.is_empty());
    assert_eq!(msg.records.len(), 6);
    assert_eq!(msg.records[0].name, b"_t._tcp.local.".to_vec());
    assert_eq!(msg.records[0].ttl, 120);
    match &msg.records[0].data {
        DnsRData::Ptr(t) => assert_eq!(t, &b"inst._t._tcp.local.".to_vec()),
        other => panic!("unexpected {other:?}"),
    }
    match &msg.records[2].data {
        DnsRData::Srv { target, port } => {
            assert_eq!(target, &b"h.local.".to_vec());
            assert_eq!(*port, 8080);
        }
        other => panic!("unexpected {other:?}"),
    }
    match &msg.records[3].data {
        DnsRData::Txt(pairs) => assert_eq!(pairs, &vec![(b"id".to_vec(), b"7".to_vec())]),
        other => panic!("unexpected {other:?}"),
    }
    match &msg.records[4].data {
        DnsRData::A(a) => assert_eq!(a, &[192, 168, 0, 9]),
        other => panic!("unexpected {other:?}"),
    }
    match &msg.records[5].data {
        DnsRData::Aaaa(a) => assert_eq!(a, &[0xfe; 16]),
        other => panic!("unexpected {other:?}"),
    }
}

#[test]
fn parse_rejects_short_or_truncated_messages() {
    assert!(ParsedDnsMessage::parse(&[0; 11]).is_none());
    // one question announced, none present
    assert!(ParsedDnsMessage::parse(&[0, 0, 0, 0, 0, 1, 0, 0, 0, 0, 0, 0]).is_none());
}

#[test]
fn query_reads_back_its_question() {
    let q = build_ptr_query_packet("_x._tcp.local.");
    let msg = ParsedDnsMessage::parse(&q).expect("parses");
    assert!(!msg.is_response);
    assert_eq!(msg.questions.len(), 1);
    assert_eq!(msg.questions[0].name, b"_x._tcp.local.".to_vec());
}

#[test]
fn ptr_query_layout() {
    assert_eq!(
        build_ptr_query_packet("_x._tcp.local."),
        vec![
            0, 0, 0, 0, 0, 1, 0, 0, 0, 0, 0, 0, 2, b'_', b'x', 4, b'_', b't', b'c', b'p', 5, b'l', b'o', b'c', b'a', b'l', 0, 0,
            12, 0, 1
        ]
    );
}

#[test]
fn addr_query_asks_a_then_aaaa() {
    let q = build_addr_query_packet("h.");
    assert_eq!(q, vec![0, 0, 0, 0, 0, 2, 0, 0, 0, 0, 0, 0, 1, b'h', 0, 0, 1, 0, 1, 1, b'h', 0, 0, 28, 0, 1]);
}

#[test]
fn split_fullname_cases() {
    assert_eq!(
        split_instance_and_service_type("My TV._airplay._tcp.local."),
        Some((b"My TV".to_vec(), b"_airplay._tcp.local.".to_vec()))
    );
    assert_eq!(split_instance_and_service_type("a.b.local."), None);
    assert_eq!(split_instance_and_service_type("_x._tcp.local.home."), None);
    assert_eq!(split_instance_and_service_type("a.b.c._x."), None);
    assert_eq!(split_instance_and_service_type("a.b.c.d."), None);
}
