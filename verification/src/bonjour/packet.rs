use vstd::prelude::*;
use vstd::string::StringSliceAdditionalSpecFns;
use vstd::utf8::encode_utf8;

use crate::bonjour::carplay_ctrl::{
    lemma_literal_lengths, lemma_then_addr, lemma_then_ptr, lemma_then_srv, lemma_then_txt, then_addr, then_ptr, then_srv,
    then_txt, Written,
};
use crate::bonjour::mdns_coder::{
    be16, lemma_addr_record_shape, same_shape, txt_rdata, written_len, MdnsBuilder, TYPE_A, TYPE_AAAA,
};

verus! {

/// `a` comes before `b` in byte-wise lexicographic order, comparing from position `i` on
/// (a proper prefix comes first).
pub open spec fn lex_lt_from(a: Seq<u8>, b: Seq<u8>, i: int) -> bool
    decreases a.len() - i,
{
    if i < 0 || i >= a.len() {
        0 <= i < b.len()
    } else if i >= b.len() {
        false
    } else if a[i] != b[i] {
        a[i] < b[i]
    } else {
        lex_lt_from(a, b, i + 1)
    }
}

/// Byte-wise lexicographic order.
pub open spec fn lex_lt(a: Seq<u8>, b: Seq<u8>) -> bool {
    lex_lt_from(a, b, 0)
}

/// No element comes after a later one.
pub open spec fn lex_sorted(s: Seq<Seq<u8>>) -> bool {
    forall|i: int, j: int| 0 <= i < j < s.len() ==> !lex_lt(#[trigger] s[j], #[trigger] s[i])
}

proof fn lemma_lex_irreflexive_from(a: Seq<u8>, i: int)
    requires
        0 <= i,
    ensures
        !lex_lt_from(a, a, i),
    decreases a.len() - i,
{
    if i < a.len() {
        lemma_lex_irreflexive_from(a, i + 1);
    }
}

proof fn lemma_lex_transitive_from(a: Seq<u8>, b: Seq<u8>, c: Seq<u8>, i: int)
    requires
        0 <= i,
        lex_lt_from(a, b, i),
        lex_lt_from(b, c, i),
    ensures
        lex_lt_from(a, c, i),
    decreases a.len() - i,
{
    if i < a.len() && a[i] == b[i] && b[i] == c[i] {
        lemma_lex_transitive_from(a, b, c, i + 1);
    }
}

/// Lexicographic order is a strict order.
pub proof fn lemma_lex_strict_order(a: Seq<u8>, b: Seq<u8>, c: Seq<u8>)
    ensures
        !lex_lt(a, a),
        lex_lt(a, b) && lex_lt(b, c) ==> lex_lt(a, c),
{
    lemma_lex_irreflexive_from(a, 0);
    if lex_lt(a, b) && lex_lt(b, c) {
        lemma_lex_transitive_from(a, b, c, 0);
    }
}

/// Whether `a` comes before `b` in byte-wise lexicographic order.
pub(crate) fn lex_less(a: &[u8], b: &[u8]) -> (r: bool)
    ensures
        r == lex_lt(a@, b@),
{
    let mut i: usize = 0;
    while i < a.len() && i < b.len()
        invariant
            i <= a@.len(),
            i <= b@.len(),
            lex_lt(a@, b@) == lex_lt_from(a@, b@, i as int),
        decreases a@.len() - i,
    {
        if a[i] != b[i] {
            return a[i] < b[i];
        }
        i = i + 1;
    }
    i < b.len()
}

/// The byte strings the vectors hold.
pub open spec fn views(v: Seq<Vec<u8>>) -> Seq<Seq<u8>> {
    v.map_values(|e: Vec<u8>| e@)
}

/// The entries in byte-wise lexicographic order (equal entries kept in their order).
pub fn sort_entries(entries: Vec<Vec<u8>>) -> (r: Vec<Vec<u8>>)
    ensures
        lex_sorted(views(r@)),
        views(r@).to_multiset() == views(entries@).to_multiset(),
        txt_size(views(r@)) == txt_size(views(entries@)),
{
    let mut sorted: Vec<Vec<u8>> = Vec::new();
    let n = entries.len();
    let mut i: usize = 0;
    proof {
        assert(views(sorted@) =~= Seq::<Seq<u8>>::empty());
        assert(views(entries@).subrange(0, 0) =~= Seq::<Seq<u8>>::empty());
    }
    while i < n
        invariant
            i <= n,
            n == entries@.len(),
            lex_sorted(views(sorted@)),
            views(sorted@).to_multiset() == views(entries@).subrange(0, i as int).to_multiset(),
            txt_size(views(sorted@)) == txt_size(views(entries@).subrange(0, i as int)),
        decreases n - i,
    {
        let x = entries[i].clone();
        assert(x@ == entries@[i as int]@);
        let mut p: usize = 0;
        while p < sorted.len() && !lex_less(x.as_slice(), sorted[p].as_slice())
            invariant
                p <= sorted@.len(),
                forall|k: int| 0 <= k < p ==> !lex_lt(x@, #[trigger] sorted@[k]@),
            decreases sorted@.len() - p,
        {
            p = p + 1;
        }
        let ghost before = views(sorted@);
        let ghost xv = x@;
        sorted.insert(p, x);
        proof {
            let after = views(sorted@);
            assert(after =~= before.insert(p as int, xv));
            assert forall|a: int, b: int| 0 <= a < b < after.len() implies !lex_lt(#[trigger] after[b], #[trigger] after[a]) by {
                if b < p {
                    assert(after[a] == before[a] && after[b] == before[b]);
                } else if b == p {
                    assert(after[b] == xv && after[a] == before[a]);
                    assert(before[a] == sorted@[a]@);
                } else if a < p {
                    assert(after[a] == before[a] && after[b] == before[b - 1]);
                } else if a == p {
                    assert(after[a] == xv && after[b] == before[b - 1]);
                    assert(lex_lt(xv, before[p as int]));
                    lemma_lex_strict_order(before[b - 1], xv, before[p as int]);
                    if b - 1 > p {
                        assert(!lex_lt(before[b - 1], before[p as int]));
                    } else {
                        lemma_lex_strict_order(xv, xv, xv);
                    }
                } else {
                    assert(after[a] == before[a - 1] && after[b] == before[b - 1]);
                }
            }
            assert(views(entries@).subrange(0, i + 1) =~= views(entries@).subrange(0, i as int).push(xv));
            lemma_txt_size_insert(before, p as int, xv);
            assert(views(entries@).subrange(0, i as int).push(xv).drop_last() =~= views(entries@).subrange(0, i as int));
            vstd::seq_lib::to_multiset_insert(before, p as int, xv);
            vstd::seq_lib::to_multiset_build(views(entries@).subrange(0, i as int), xv);
            assert(before.insert(p as int, xv).to_multiset() == before.to_multiset().insert(xv));
            assert(views(entries@).subrange(0, i as int).push(xv).to_multiset()
                == views(entries@).subrange(0, i as int).to_multiset().insert(xv));
        }
        i = i + 1;
    }
    proof {
        assert(views(entries@).subrange(0, n as int) =~= views(entries@));
    }
    sorted
}


/// Room the entries take as TXT record data: each entry and its length byte.
pub open spec fn txt_size(es: Seq<Seq<u8>>) -> int
    decreases es.len(),
{
    if es.len() == 0 {
        0
    } else {
        txt_size(es.drop_last()) + es.last().len() + 1
    }
}

proof fn lemma_txt_size_rdata(es: Seq<Seq<u8>>)
    ensures
        txt_rdata(es).len() == txt_size(es),
    decreases es.len(),
{
    if es.len() > 0 {
        lemma_txt_size_rdata(es.drop_last());
    }
}

proof fn lemma_txt_size_nonneg(es: Seq<Seq<u8>>)
    ensures
        txt_size(es) >= 0,
    decreases es.len(),
{
    if es.len() > 0 {
        lemma_txt_size_nonneg(es.drop_last());
    }
}

proof fn lemma_txt_size_insert(es: Seq<Seq<u8>>, p: int, x: Seq<u8>)
    requires
        0 <= p <= es.len(),
    ensures
        txt_size(es.insert(p, x)) == txt_size(es) + x.len() + 1,
    decreases es.len(),
{
    if p == es.len() {
        assert(es.insert(p, x) =~= es.push(x));
        assert(es.push(x).drop_last() =~= es);
    } else {
        lemma_txt_size_insert(es.drop_last(), p, x);
        assert(es.insert(p, x).drop_last() =~= es.drop_last().insert(p, x));
        assert(es.insert(p, x).last() == es.last());
    }
}

/// An address of the announced host, as its octets.
#[derive(Debug, Clone, Copy)]
pub enum HostAddr {
    V4([u8; 4]),
    V6([u8; 16]),
}

/// The A and AAAA records of `host` for `ips`, in order, written from `o` on.
pub open spec fn then_host_addrs(o: Written, host: Seq<u8>, ips: Seq<HostAddr>, ttl: u32) -> Written
    decreases ips.len(),
{
    if ips.len() == 0 {
        o
    } else {
        let prev = then_host_addrs(o, host, ips.drop_last(), ttl);
        match ips.last() {
            HostAddr::V4(a) => then_addr(prev, host, TYPE_A, ttl, a@, true),
            HostAddr::V6(a) => then_addr(prev, host, TYPE_AAAA, ttl, a@, true),
        }
    }
}

/// The TXT entry `key=value`.
pub open spec fn txt_entry(key: Seq<char>, value: Seq<char>) -> Seq<u8> {
    encode_utf8(key) + seq![0x3Du8] + encode_utf8(value)
}

/// The TXT entries of the properties, in their order.
pub open spec fn txt_entries(txt: Seq<(String, String)>) -> Seq<Seq<u8>> {
    txt.map_values(|p: (String, String)| txt_entry(p.0@, p.1@))
}

/// The records announcing an instance: PTR from the service type to the instance, PTR from
/// the service list to the service type, SRV of the instance on `hostname`, TXT of the
/// instance with `entries`, then an address record of the host for each address.
pub open spec fn announcement_records(
    service_type: Seq<u8>,
    instance_name: Seq<u8>,
    hostname: Seq<u8>,
    port: u16,
    entries: Seq<Seq<u8>>,
    ips: Seq<HostAddr>,
    ttl: u32,
) -> Written {
    let full = instance_name + seq![0x2Eu8] + service_type;
    let services = "_services._dns-sd._udp.local.".spec_bytes();
    let r1 = then_ptr(Some((Seq::empty(), Seq::empty())), service_type, ttl, full, false);
    let r2 = then_ptr(r1, services, ttl, service_type, false);
    let r3 = then_srv(r2, full, ttl, port, hostname, true);
    let r4 = then_txt(r3, full, ttl, entries, true);
    then_host_addrs(r4, hostname, ips, ttl)
}

proof fn lemma_then_txt_shape(o: Written, name: Seq<u8>, ttl: u32, e1: Seq<Seq<u8>>, e2: Seq<Seq<u8>>, flush: bool)
    requires
        txt_rdata(e1).len() == txt_rdata(e2).len(),
    ensures
        same_shape(then_txt(o, name, ttl, e1, flush), then_txt(o, name, ttl, e2, flush)),
{
    reveal(then_txt);
}

proof fn lemma_host_addrs_shape(o1: Written, o2: Written, host: Seq<u8>, ips: Seq<HostAddr>, ttl: u32)
    requires
        same_shape(o1, o2),
    ensures
        same_shape(then_host_addrs(o1, host, ips, ttl), then_host_addrs(o2, host, ips, ttl)),
    decreases ips.len(),
{
    reveal(then_addr);
    if ips.len() > 0 {
        lemma_host_addrs_shape(o1, o2, host, ips.drop_last(), ttl);
        let p1 = then_host_addrs(o1, host, ips.drop_last(), ttl);
        let p2 = then_host_addrs(o2, host, ips.drop_last(), ttl);
        if p1 is Some {
            let (m1, c) = p1->0;
            let (m2, _) = p2->0;
            match ips.last() {
                HostAddr::V4(a) => lemma_addr_record_shape(m1, m2, c, host, TYPE_A, ttl, a@, true),
                HostAddr::V6(a) => lemma_addr_record_shape(m1, m2, c, host, TYPE_AAAA, ttl, a@, true),
            }
        }
    }
}

proof fn lemma_host_addrs_prefix(o: Written, host: Seq<u8>, ips: Seq<HostAddr>, ttl: u32, k: int)
    requires
        then_host_addrs(o, host, ips, ttl) is Some,
        0 <= k <= ips.len(),
    ensures
        then_host_addrs(o, host, ips.subrange(0, k), ttl) is Some,
    decreases ips.len(),
{
    if k == ips.len() {
        assert(ips.subrange(0, k) =~= ips);
    } else {
        reveal(then_addr);
        assert(then_host_addrs(o, host, ips.drop_last(), ttl) is Some);
        lemma_host_addrs_prefix(o, host, ips.drop_last(), ttl, k);
        assert(ips.drop_last().subrange(0, k) =~= ips.subrange(0, k));
    }
}

proof fn lemma_host_addrs_size(o: Written, host: Seq<u8>, ips: Seq<HostAddr>, ttl: u32)
    requires
        o is Some,
        written_len(o) + ips.len() * (host.len() + 31) + host.len() + 1 <= 65524,
    ensures
        then_host_addrs(o, host, ips, ttl) is Some,
        written_len(then_host_addrs(o, host, ips, ttl)) <= written_len(o) + ips.len() * (host.len() + 31),
    decreases ips.len(),
{
    if ips.len() > 0 {
        let n = ips.len() - 1;
        let hl = host.len() as int;
        assert(n * (hl + 31) + (hl + 31) == ips.len() * (hl + 31)) by (nonlinear_arith)
            requires
                n == ips.len() - 1,
        ;
        assert(n * (hl + 31) >= 0) by (nonlinear_arith)
            requires
                n >= 0,
                hl >= 0,
        ;
        lemma_host_addrs_size(o, host, ips.drop_last(), ttl);
        let prev = then_host_addrs(o, host, ips.drop_last(), ttl);
        match ips.last() {
            HostAddr::V4(a) => lemma_then_addr(prev, host, TYPE_A, ttl, a@, true),
            HostAddr::V6(a) => lemma_then_addr(prev, host, TYPE_AAAA, ttl, a@, true),
        }
    }
}

/// An announcement whose names, TXT entries and addresses take little enough room keeps
/// every name offset within 16 bits, so `build_announcement_packet` writes it: three times
/// the instance's full name, twice the service type and the host name, the TXT entries with
/// their length bytes, and per address the host name and 31 bytes, at most 65000 together.
pub proof fn lemma_small_announcement_fits(
    service_type: Seq<u8>,
    instance_name: Seq<u8>,
    hostname: Seq<u8>,
    port: u16,
    entries: Seq<Seq<u8>>,
    ips: Seq<HostAddr>,
    ttl: u32,
)
    requires
        3 * (instance_name.len() + 1 + service_type.len()) + 2 * service_type.len() + 2 * hostname.len() + txt_size(entries)
            + ips.len() * (hostname.len() + 31) <= 65000,
    ensures
        announcement_records(service_type, instance_name, hostname, port, entries, ips, ttl) is Some,
{
    lemma_literal_lengths();
    lemma_txt_size_rdata(entries);
    lemma_txt_size_nonneg(entries);
    let hl = hostname.len() as int;
    assert(ips.len() * (hl + 31) >= 0) by (nonlinear_arith)
        requires
            hl >= 0,
    ;
    let full = instance_name + seq![0x2Eu8] + service_type;
    let services = "_services._dns-sd._udp.local.".spec_bytes();
    let r0: Written = Some((Seq::empty(), Seq::empty()));
    let r1 = then_ptr(r0, service_type, ttl, full, false);
    lemma_then_ptr(r0, service_type, ttl, full, false);
    let r2 = then_ptr(r1, services, ttl, service_type, false);
    lemma_then_ptr(r1, services, ttl, service_type, false);
    let r3 = then_srv(r2, full, ttl, port, hostname, true);
    lemma_then_srv(r2, full, ttl, port, hostname, true);
    let r4 = then_txt(r3, full, ttl, entries, true);
    lemma_then_txt(r3, full, ttl, entries, true);
    lemma_host_addrs_size(r4, hostname, ips, ttl);
}

/// Builds mDNS announcement packets.
pub struct MdnsCoder;

impl MdnsCoder {
    /// The unsolicited response announcing `instance_name` of `service_type` on `hostname`:
    /// header (the answer count, no additionals), then the records of `announcement_records`
    /// with the TXT entries `key=value` in byte-wise lexicographic order. The records must
    /// fit: every name offset of the compression within 16 bits (the order of the TXT
    /// entries does not change that).
    pub fn build_announcement_packet(
        service_type: &str,
        instance_name: &str,
        hostname: &str,
        port: u16,
        txt: &[(String, String)],
        ips: &[HostAddr],
        ttl: u32,
    ) -> (r: Vec<u8>)
        requires
            announcement_records(
                service_type.spec_bytes(),
                instance_name.spec_bytes(),
                hostname.spec_bytes(),
                port,
                txt_entries(txt@),
                ips@,
                ttl,
            ) is Some,
            ips@.len() + 4 < usize::MAX,
        ensures
            exists|es: Seq<Seq<u8>>| {
                &&& lex_sorted(es)
                &&& es.to_multiset() == txt_entries(txt@).to_multiset()
                &&& announcement_records(
                    service_type.spec_bytes(),
                    instance_name.spec_bytes(),
                    hostname.spec_bytes(),
                    port,
                    es,
                    ips@,
                    ttl,
                ) matches Some((m, _))
                &&& r@ == seq![0u8, 0, 0x84, 0, 0, 0] + be16((4 + ips@.len()) as u16) + seq![0u8, 0] + be16(0) + m
            },
    {
        proof {
            lemma_literal_lengths();
        }
        let st = service_type.as_bytes();
        let host = hostname.as_bytes();
        let mut full: Vec<u8> = Vec::new();
        full.extend_from_slice(instance_name.as_bytes());
        full.push(0x2E);
        full.extend_from_slice(st);
        let services = "_services._dns-sd._udp.local.".as_bytes();

        let mut raw: Vec<Vec<u8>> = Vec::new();
        let mut i: usize = 0;
        while i < txt.len()
            invariant
                i <= txt@.len(),
                views(raw@) == txt_entries(txt@).subrange(0, i as int),
            decreases txt@.len() - i,
        {
            let mut e: Vec<u8> = Vec::new();
            e.extend_from_slice(txt[i].0.as_str().as_bytes());
            e.push(0x3D);
            e.extend_from_slice(txt[i].1.as_str().as_bytes());
            let ghost before = views(raw@);
            proof {
                assert(e@ == txt_entry(txt@[i as int].0@, txt@[i as int].1@));
            }
            raw.push(e);
            proof {
                assert(views(raw@) =~= before.push(txt_entry(txt@[i as int].0@, txt@[i as int].1@)));
                assert(txt_entries(txt@).subrange(0, i + 1) =~= txt_entries(txt@).subrange(0, i as int).push(
                    txt_entry(txt@[i as int].0@, txt@[i as int].1@),
                ));
            }
            i = i + 1;
        }
        proof {
            assert(txt_entries(txt@).subrange(0, txt@.len() as int) =~= txt_entries(txt@));
        }
        let sorted = sort_entries(raw);
        let ghost es = views(sorted@);
        let mut refs: Vec<&[u8]> = Vec::new();
        let mut j: usize = 0;
        while j < sorted.len()
            invariant
                j <= sorted@.len(),
                refs@.map_values(|e: &[u8]| e@) == views(sorted@).subrange(0, j as int),
            decreases sorted@.len() - j,
        {
            let ghost before = refs@.map_values(|e: &[u8]| e@);
            refs.push(sorted[j].as_slice());
            proof {
                assert(refs@.map_values(|e: &[u8]| e@) =~= before.push(sorted@[j as int]@));
                assert(views(sorted@).subrange(0, j + 1) =~= views(sorted@).subrange(0, j as int).push(sorted@[j as int]@));
            }
            j = j + 1;
        }
        proof {
            assert(views(sorted@).subrange(0, sorted@.len() as int) =~= views(sorted@));
        }
        assert(full@ == instance_name.spec_bytes() + seq![0x2Eu8] + service_type.spec_bytes());
        let mut b = MdnsBuilder::new(1500);
        let ghost r0: Written = Some((b.message(), b.suffixes()));
        assert(r0 == Some((Seq::<u8>::empty(), Seq::<(Seq<u8>, u16)>::empty())));
        let ghost r1 = then_ptr(r0, st@, ttl, full@, false);
        let ghost r2 = then_ptr(r1, services@, ttl, st@, false);
        let ghost r3 = then_srv(r2, full@, ttl, port, host@, true);
        let ghost r4 = then_txt(r3, full@, ttl, es, true);
        proof {
            lemma_txt_size_rdata(es);
            lemma_txt_size_rdata(txt_entries(txt@));
            lemma_then_txt_shape(r3, full@, ttl, txt_entries(txt@), es, true);
            lemma_host_addrs_shape(then_txt(r3, full@, ttl, txt_entries(txt@), true), r4, host@, ips@, ttl);
            lemma_host_addrs_prefix(r4, host@, ips@, ttl, 0);
            assert(ips@.subrange(0, 0) =~= Seq::<HostAddr>::empty());
            reveal(then_ptr);
            reveal(then_srv);
            reveal(then_txt);
            assert(r4 is Some);
            assert(r3 is Some);
            assert(r2 is Some);
            assert(r1 is Some);
        }
        b.ptr_record_bytes(st, ttl, full.as_slice(), false);
        b.ptr_record_bytes(services, ttl, st, false);
        b.srv_record_bytes(full.as_slice(), ttl, port, host, true);
        b.txt_record_bytes(full.as_slice(), ttl, refs.as_slice(), true);
        let mut k: usize = 0;
        while k < ips.len()
            invariant
                k <= ips@.len(),
                ips@.len() + 4 < usize::MAX,
                b.answers() == 4 + k,
                b.additionals() == 0,
                Some((b.message(), b.suffixes())) == then_host_addrs(r4, host@, ips@.subrange(0, k as int), ttl),
                then_host_addrs(r4, host@, ips@, ttl) is Some,
            decreases ips@.len() - k,
        {
            proof {
                reveal(then_addr);
                lemma_host_addrs_prefix(r4, host@, ips@, ttl, k + 1);
                assert(ips@.subrange(0, k + 1).drop_last() =~= ips@.subrange(0, k as int));
                assert(ips@.subrange(0, k + 1).last() == ips@[k as int]);
            }
            match ips[k] {
                HostAddr::V4(a) => b.address_record(host, TYPE_A, ttl, a.as_slice(), true),
                HostAddr::V6(a) => b.address_record(host, TYPE_AAAA, ttl, a.as_slice(), true),
            }
            k = k + 1;
        }
        proof {
            assert(ips@.subrange(0, ips@.len() as int) =~= ips@);
        }
        let ghost m = b.message();
        assert(announcement_records(
            service_type.spec_bytes(),
            instance_name.spec_bytes(),
            hostname.spec_bytes(),
            port,
            es,
            ips@,
            ttl,
        ) == Some((m, b.suffixes())));
        let hdr = b.build_header();
        let data = b.build_data();
        let mut out: Vec<u8> = Vec::new();
        out.extend_from_slice(hdr.as_slice());
        out.extend_from_slice(data.as_slice());
        proof {
            assert(out@ =~= seq![0u8, 0, 0x84, 0, 0, 0] + be16((4 + ips@.len()) as u16) + seq![0u8, 0] + be16(0) + data@);
            assert(lex_sorted(es));
            assert(es.to_multiset() == txt_entries(txt@).to_multiset());
        }
        out
    }
}
} // verus!
