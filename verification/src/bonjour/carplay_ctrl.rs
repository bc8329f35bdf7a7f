use vstd::prelude::*;
use vstd::string::StringSliceAdditionalSpecFns;

use crate::bonjour::mdns_coder::{
    addr_record, be16, lemma_record_sizes, nsec_record, ptr_record, srv_record, txt_record, types_in_window, written_len, MdnsBuilder,
    TYPE_AAAA, TYPE_PTR, TYPE_SRV, TYPE_TXT, txt_rdata,
};

verus! {

/// Upper-case hexadecimal digit of a nibble.
pub open spec fn hex_digit(n: u8) -> u8 {
    if n < 10 {
        (48 + n) as u8
    } else {
        (65 + n - 10) as u8
    }
}

/// The reverse-lookup labels of `addr`: for each byte, last byte first, its low nibble and
/// its high nibble, each followed by a dot.
pub open spec fn arpa_nibbles(addr: Seq<u8>) -> Seq<u8>
    decreases addr.len(),
{
    if addr.len() == 0 {
        Seq::empty()
    } else {
        let b = addr.last();
        seq![hex_digit(b % 16), 0x2Eu8, hex_digit(b / 16), 0x2Eu8] + arpa_nibbles(addr.drop_last())
    }
}

/// The `ip6.arpa.` name under which a reverse lookup of `addr` is answered.
pub open spec fn ip6_arpa(addr: Seq<u8>) -> Seq<u8> {
    arpa_nibbles(addr) + "ip6.arpa.".spec_bytes()
}

proof fn lemma_arpa_nibbles_len(addr: Seq<u8>)
    ensures
        arpa_nibbles(addr).len() == 4 * addr.len(),
    decreases addr.len(),
{
    if addr.len() > 0 {
        lemma_arpa_nibbles_len(addr.drop_last());
    }
}

fn hex_nibble(n: u8) -> (r: u8)
    requires
        n < 16,
    ensures
        r == hex_digit(n),
{
    if n < 10 {
        48 + n
    } else {
        65 + (n - 10)
    }
}

/// The reverse-lookup name of `addr` (`…ip6.arpa.`).
fn ipv6_to_ip6_arpa(addr: &[u8; 16]) -> (r: Vec<u8>)
    ensures
        r@ == ip6_arpa(addr@),
{
    let mut s: Vec<u8> = Vec::with_capacity(74);
    let mut i: usize = 16;
    proof {
        assert(addr@.subrange(0, 16) =~= addr@);
        assert(s@ + arpa_nibbles(addr@) =~= arpa_nibbles(addr@));
    }
    while i > 0
        invariant
            i <= 16,
            addr@.len() == 16,
            s@ + arpa_nibbles(addr@.subrange(0, i as int)) == arpa_nibbles(addr@),
        decreases i,
    {
        let b = addr[i - 1];
        let ghost pre = addr@.subrange(0, i as int);
        proof {
            assert(pre.drop_last() =~= addr@.subrange(0, i - 1));
            assert(pre.last() == b);
        }
        let ghost s0 = s@;
        s.push(hex_nibble(b % 16));
        s.push(0x2E);
        s.push(hex_nibble(b / 16));
        s.push(0x2E);
        proof {
            let four = seq![hex_digit(b % 16), 0x2Eu8, hex_digit(b / 16), 0x2Eu8];
            assert(s@ =~= s0 + four);
            assert(arpa_nibbles(pre) == four + arpa_nibbles(addr@.subrange(0, i - 1)));
            assert(s@ + arpa_nibbles(addr@.subrange(0, i - 1)) =~= s0 + arpa_nibbles(pre));
        }
        i = i - 1;
    }
    proof {
        assert(addr@.subrange(0, 0) =~= Seq::<u8>::empty());
        assert(s@ =~= arpa_nibbles(addr@));
    }
    s.extend_from_slice("ip6.arpa.".as_bytes());
    s
}

/// What an announcement of the CarPlay control service says.
#[derive(Debug, Clone)]
pub struct CarplayCtrlAnnounceParams<'a> {
    /// Service instance name, such as `iPhone SIM`.
    pub instance: &'a str,
    /// Host name without domain, such as `iPhone-SIM`.
    pub host: &'a str,
    pub port: u16,
    /// The link-local IPv6 address, as its sixteen octets.
    pub addr_v6_ll: [u8; 16],
    pub srcvers: &'a str,
    pub device_id: &'a str,
    pub model: &'a str,
    pub ttl: u32,
}

/// A message with its suffix table, as the record writers produce it.
pub type Written = Option<(Seq<u8>, Seq<(Seq<u8>, u16)>)>;

#[verifier::opaque]
pub open spec fn then_srv(o: Written, name: Seq<u8>, ttl: u32, port: u16, target: Seq<u8>, flush: bool) -> Written {
    match o {
        Some((m, c)) => srv_record(m, c, name, ttl, port, target, flush),
        None => None,
    }
}

#[verifier::opaque]
pub open spec fn then_addr(o: Written, name: Seq<u8>, rtype: u16, ttl: u32, addr: Seq<u8>, flush: bool) -> Written {
    match o {
        Some((m, c)) => addr_record(m, c, name, rtype, ttl, addr, flush),
        None => None,
    }
}

#[verifier::opaque]
pub open spec fn then_ptr(o: Written, name: Seq<u8>, ttl: u32, target: Seq<u8>, flush: bool) -> Written {
    match o {
        Some((m, c)) => ptr_record(m, c, name, ttl, target, flush),
        None => None,
    }
}

#[verifier::opaque]
pub open spec fn then_txt(o: Written, name: Seq<u8>, ttl: u32, entries: Seq<Seq<u8>>, flush: bool) -> Written {
    match o {
        Some((m, c)) => txt_record(m, c, name, ttl, entries, flush),
        None => None,
    }
}

#[verifier::opaque]
pub open spec fn then_nsec(o: Written, name: Seq<u8>, ttl: u32, next: Seq<u8>, types: Seq<u16>, flush: bool) -> Written {
    match o {
        Some((m, c)) => nsec_record(m, c, name, ttl, next, types, flush),
        None => None,
    }
}

/// `<instance>._carplay-ctrl._tcp.local.`
pub open spec fn ctrl_instance_name(instance: Seq<u8>) -> Seq<u8> {
    instance + "._carplay-ctrl._tcp.local.".spec_bytes()
}

/// `<host>.local.`
pub open spec fn local_host_name(host: Seq<u8>) -> Seq<u8> {
    host + ".local.".spec_bytes()
}

/// `<instance>._device-info._tcp.local.`
pub open spec fn device_info_name(instance: Seq<u8>) -> Seq<u8> {
    instance + "._device-info._tcp.local.".spec_bytes()
}

/// The seven answers of a control-service announcement, written from `o` on: SRV of the
/// instance, AAAA of the host, reverse PTR to the host, TXT of the instance, PTR from the
/// service to the instance, PTR from the service list to the service, TXT of the device info.
pub open spec fn ctrl_answers(
    o: Written,
    inst: Seq<u8>,
    host: Seq<u8>,
    arpa: Seq<u8>,
    device_info: Seq<u8>,
    port: u16,
    addr: Seq<u8>,
    instance_txt: Seq<Seq<u8>>,
    device_txt: Seq<Seq<u8>>,
    ttl: u32,
) -> Written {
    let service = "_carplay-ctrl._tcp.local.".spec_bytes();
    let services = "_services._dns-sd._udp.local.".spec_bytes();
    let r1 = then_srv(o, inst, ttl, port, host, true);
    let r2 = then_addr(r1, host, TYPE_AAAA, ttl, addr, true);
    let r3 = then_ptr(r2, arpa, ttl, host, true);
    let r4 = then_txt(r3, inst, ttl, instance_txt, true);
    let r5 = then_ptr(r4, service, ttl, inst, false);
    let r6 = then_ptr(r5, services, ttl, service, false);
    then_txt(r6, device_info, ttl, device_txt, false)
}

/// The three NSEC additionals, written from `o` on: the instance (TXT, SRV), the host (AAAA)
/// and the reverse name (PTR), each naming itself as next.
pub open spec fn ctrl_additionals(o: Written, inst: Seq<u8>, host: Seq<u8>, arpa: Seq<u8>, ttl: u32) -> Written {
    let r1 = then_nsec(o, inst, ttl, inst, seq![TYPE_TXT, TYPE_SRV], true);
    let r2 = then_nsec(r1, host, ttl, host, seq![TYPE_AAAA], true);
    then_nsec(r2, arpa, ttl, arpa, seq![TYPE_PTR], true)
}

/// The records of a control-service announcement, in the order they are sent: the seven
/// answers, then the three NSEC additionals.
pub open spec fn ctrl_announce_records(
    instance: Seq<u8>,
    host: Seq<u8>,
    port: u16,
    addr: Seq<u8>,
    srcvers: Seq<u8>,
    device_id: Seq<u8>,
    model: Seq<u8>,
    ttl: u32,
) -> Written {
    let inst = ctrl_instance_name(instance);
    let h = local_host_name(host);
    let arpa = ip6_arpa(addr);
    let answers = ctrl_answers(
        Some((Seq::empty(), Seq::empty())),
        inst,
        h,
        arpa,
        device_info_name(instance),
        port,
        addr,
        seq!["id=".spec_bytes() + device_id, "srcvers=".spec_bytes() + srcvers],
        seq!["model=".spec_bytes() + model],
        ttl,
    );
    ctrl_additionals(answers, inst, h, arpa, ttl)
}

/// Header of an announcement with seven answers and three additionals.
pub open spec fn ctrl_announce_header() -> Seq<u8> {
    seq![0u8, 0, 0x84, 0, 0, 0] + be16(7) + seq![0u8, 0] + be16(3)
}

fn concat_bytes(a: &[u8], b: &[u8]) -> (r: Vec<u8>)
    ensures
        r@ == a@ + b@,
{
    let mut v: Vec<u8> = Vec::new();
    v.extend_from_slice(a);
    v.extend_from_slice(b);
    v
}

pub(crate) proof fn lemma_literal_lengths()
    ensures
        "._carplay-ctrl._tcp.local.".spec_bytes().len() == 26,
        ".local.".spec_bytes().len() == 7,
        "._device-info._tcp.local.".spec_bytes().len() == 25,
        "_carplay-ctrl._tcp.local.".spec_bytes().len() == 25,
        "_services._dns-sd._udp.local.".spec_bytes().len() == 29,
        "ip6.arpa.".spec_bytes().len() == 9,
        "id=".spec_bytes().len() == 3,
        "srcvers=".spec_bytes().len() == 8,
        "model=".spec_bytes().len() == 6,
{
    broadcast use vstd::string::is_ascii_spec_bytes;
    reveal_strlit("._carplay-ctrl._tcp.local.");
    reveal_strlit(".local.");
    reveal_strlit("._device-info._tcp.local.");
    reveal_strlit("_carplay-ctrl._tcp.local.");
    reveal_strlit("_services._dns-sd._udp.local.");
    reveal_strlit("ip6.arpa.");
    reveal_strlit("id=");
    reveal_strlit("srcvers=");
    reveal_strlit("model=");
    assert(vstd::string::is_ascii("._carplay-ctrl._tcp.local."));
    assert(vstd::string::is_ascii(".local."));
    assert(vstd::string::is_ascii("._device-info._tcp.local."));
    assert(vstd::string::is_ascii("_carplay-ctrl._tcp.local."));
    assert(vstd::string::is_ascii("_services._dns-sd._udp.local."));
    assert(vstd::string::is_ascii("ip6.arpa."));
    assert(vstd::string::is_ascii("id="));
    assert(vstd::string::is_ascii("srcvers="));
    assert(vstd::string::is_ascii("model="));
}

proof fn lemma_txt_rdata_lens(a: Seq<u8>, c: Seq<u8>)
    ensures
        txt_rdata(seq![a]).len() == a.len() + 1,
        txt_rdata(seq![a, c]).len() == a.len() + c.len() + 2,
{
    assert(seq![a].drop_last() =~= Seq::<Seq<u8>>::empty());
    assert(seq![a, c].drop_last() =~= seq![a]);
    assert(txt_rdata(Seq::<Seq<u8>>::empty()).len() == 0);
    assert(txt_rdata(seq![a]).len() == a.len() + 1);
    assert(txt_rdata(seq![a, c]) == txt_rdata(seq![a]) + seq![c.len() as u8] + c);
}

pub(crate) proof fn lemma_then_srv(o: Written, name: Seq<u8>, ttl: u32, port: u16, target: Seq<u8>, flush: bool)
    requires
        o is Some,
        written_len(o) + name.len() + target.len() + 22 <= 65524,
    ensures
        then_srv(o, name, ttl, port, target, flush) is Some,
        written_len(then_srv(o, name, ttl, port, target, flush)) <= written_len(o) + name.len() + target.len() + 24,
{
    reveal(then_srv);
    let (m, c) = o->0;
    lemma_record_sizes(m, c, name, ttl, flush);
    assert(srv_record(m, c, name, ttl, port, target, flush) is Some);
}

pub(crate) proof fn lemma_then_addr(o: Written, name: Seq<u8>, rtype: u16, ttl: u32, addr: Seq<u8>, flush: bool)
    requires
        o is Some,
        written_len(o) + name.len() + 1 <= 65524,
    ensures
        then_addr(o, name, rtype, ttl, addr, flush) is Some,
        written_len(then_addr(o, name, rtype, ttl, addr, flush)) <= written_len(o) + name.len() + 15 + addr.len(),
{
    reveal(then_addr);
    let (m, c) = o->0;
    lemma_record_sizes(m, c, name, ttl, flush);
    assert(addr_record(m, c, name, rtype, ttl, addr, flush) is Some);
}

pub(crate) proof fn lemma_then_ptr(o: Written, name: Seq<u8>, ttl: u32, target: Seq<u8>, flush: bool)
    requires
        o is Some,
        written_len(o) + name.len() + target.len() + 22 <= 65524,
    ensures
        then_ptr(o, name, ttl, target, flush) is Some,
        written_len(then_ptr(o, name, ttl, target, flush)) <= written_len(o) + name.len() + target.len() + 18,
{
    reveal(then_ptr);
    let (m, c) = o->0;
    lemma_record_sizes(m, c, name, ttl, flush);
    assert(ptr_record(m, c, name, ttl, target, flush) is Some);
}

pub(crate) proof fn lemma_then_txt(o: Written, name: Seq<u8>, ttl: u32, entries: Seq<Seq<u8>>, flush: bool)
    requires
        o is Some,
        written_len(o) + name.len() + 1 <= 65524,
    ensures
        then_txt(o, name, ttl, entries, flush) is Some,
        written_len(then_txt(o, name, ttl, entries, flush)) <= written_len(o) + name.len() + 15 + txt_rdata(entries).len(),
{
    reveal(then_txt);
    let (m, c) = o->0;
    lemma_record_sizes(m, c, name, ttl, flush);
    assert(txt_record(m, c, name, ttl, entries, flush) is Some);
}

pub(crate) proof fn lemma_then_nsec(o: Written, name: Seq<u8>, ttl: u32, types: Seq<u16>, flush: bool)
    requires
        o is Some,
        written_len(o) + 2 * name.len() + 22 <= 65524,
        types_in_window(types),
    ensures
        then_nsec(o, name, ttl, name, types, flush) is Some,
        written_len(then_nsec(o, name, ttl, name, types, flush)) <= written_len(o) + 2 * name.len() + 52,
{
    reveal(then_nsec);
    let (m, c) = o->0;
    lemma_record_sizes(m, c, name, ttl, flush);
    assert(nsec_record(m, c, name, ttl, name, types, flush) is Some);
}

/// An announcement whose text fields take at most 8000 bytes together keeps every name
/// offset within 16 bits, so `build_announce` writes it.
pub proof fn lemma_short_announce_fits(
    instance: Seq<u8>,
    host: Seq<u8>,
    port: u16,
    addr: Seq<u8>,
    srcvers: Seq<u8>,
    device_id: Seq<u8>,
    model: Seq<u8>,
    ttl: u32,
)
    requires
        addr.len() == 16,
        instance.len() + host.len() + srcvers.len() + device_id.len() + model.len() <= 8000,
    ensures
        ctrl_announce_records(instance, host, port, addr, srcvers, device_id, model, ttl) is Some,
{
    lemma_literal_lengths();
    lemma_arpa_nibbles_len(addr);
    let inst = ctrl_instance_name(instance);
    let h = local_host_name(host);
    let arpa = ip6_arpa(addr);
    let di = device_info_name(instance);
    let service = "_carplay-ctrl._tcp.local.".spec_bytes();
    let services = "_services._dns-sd._udp.local.".spec_bytes();
    let it = seq!["id=".spec_bytes() + device_id, "srcvers=".spec_bytes() + srcvers];
    let dt = seq!["model=".spec_bytes() + model];
    lemma_txt_rdata_lens(it[0], it[1]);
    lemma_txt_rdata_lens(dt[0], dt[0]);
    let r0: Written = Some((Seq::empty(), Seq::empty()));
    let r1 = then_srv(r0, inst, ttl, port, h, true);
    lemma_then_srv(r0, inst, ttl, port, h, true);
    let r2 = then_addr(r1, h, TYPE_AAAA, ttl, addr, true);
    lemma_then_addr(r1, h, TYPE_AAAA, ttl, addr, true);
    let r3 = then_ptr(r2, arpa, ttl, h, true);
    lemma_then_ptr(r2, arpa, ttl, h, true);
    let r4 = then_txt(r3, inst, ttl, it, true);
    lemma_then_txt(r3, inst, ttl, it, true);
    let r5 = then_ptr(r4, service, ttl, inst, false);
    lemma_then_ptr(r4, service, ttl, inst, false);
    let r6 = then_ptr(r5, services, ttl, service, false);
    lemma_then_ptr(r5, services, ttl, service, false);
    let r7 = then_txt(r6, di, ttl, dt, false);
    lemma_then_txt(r6, di, ttl, dt, false);
    assert(r7 == ctrl_answers(r0, inst, h, arpa, di, port, addr, it, dt, ttl));
    let r8 = then_nsec(r7, inst, ttl, inst, seq![TYPE_TXT, TYPE_SRV], true);
    lemma_then_nsec(r7, inst, ttl, seq![TYPE_TXT, TYPE_SRV], true);
    let r9 = then_nsec(r8, h, ttl, h, seq![TYPE_AAAA], true);
    lemma_then_nsec(r8, h, ttl, seq![TYPE_AAAA], true);
    lemma_then_nsec(r9, arpa, ttl, seq![TYPE_PTR], true);
}

fn write_answers(
    b: &mut MdnsBuilder,
    inst: &[u8],
    host: &[u8],
    arpa: &[u8],
    device_info: &[u8],
    port: u16,
    addr: &[u8; 16],
    instance_txt: &[&[u8]; 2],
    device_txt: &[&[u8]; 1],
    ttl: u32,
)
    requires
        old(b).answers() == 0,
        ctrl_answers(
            Some((old(b).message(), old(b).suffixes())),
            inst@,
            host@,
            arpa@,
            device_info@,
            port,
            addr@,
            seq![instance_txt[0]@, instance_txt[1]@],
            seq![device_txt[0]@],
            ttl,
        ) is Some,
    ensures
        ctrl_answers(
            Some((old(b).message(), old(b).suffixes())),
            inst@,
            host@,
            arpa@,
            device_info@,
            port,
            addr@,
            seq![instance_txt[0]@, instance_txt[1]@],
            seq![device_txt[0]@],
            ttl,
        ) == Some((final(b).message(), final(b).suffixes())),
        final(b).answers() == 7,
        final(b).additionals() == old(b).additionals(),
{
    let service = "_carplay-ctrl._tcp.local.".as_bytes();
    let services = "_services._dns-sd._udp.local.".as_bytes();
    let ghost it = seq![instance_txt[0]@, instance_txt[1]@];
    let ghost dt = seq![device_txt[0]@];
    assert(instance_txt@.map_values(|e: &[u8]| e@) =~= it);
    assert(device_txt@.map_values(|e: &[u8]| e@) =~= dt);
    let ghost r0: Written = Some((b.message(), b.suffixes()));
    let ghost r1 = then_srv(r0, inst@, ttl, port, host@, true);
    let ghost r2 = then_addr(r1, host@, TYPE_AAAA, ttl, addr@, true);
    let ghost r3 = then_ptr(r2, arpa@, ttl, host@, true);
    let ghost r4 = then_txt(r3, inst@, ttl, it, true);
    let ghost r5 = then_ptr(r4, service@, ttl, inst@, false);
    let ghost r6 = then_ptr(r5, services@, ttl, service@, false);
    let ghost r7 = then_txt(r6, device_info@, ttl, dt, false);
    proof {
        reveal(then_srv);
        reveal(then_addr);
        reveal(then_ptr);
        reveal(then_txt);
        assert(r7 is Some);
        assert(r6 is Some);
        assert(r5 is Some);
        assert(r4 is Some);
        assert(r3 is Some);
        assert(r2 is Some);
        assert(r1 is Some);
    }
    b.srv_record_bytes(inst, ttl, port, host, true);
    b.address_record(host, TYPE_AAAA, ttl, addr.as_slice(), true);
    b.ptr_record_bytes(arpa, ttl, host, true);
    b.txt_record_bytes(inst, ttl, instance_txt.as_slice(), true);
    b.ptr_record_bytes(service, ttl, inst, false);
    b.ptr_record_bytes(services, ttl, service, false);
    b.txt_record_bytes(device_info, ttl, device_txt.as_slice(), false);
}

fn write_additionals(b: &mut MdnsBuilder, inst: &[u8], host: &[u8], arpa: &[u8], ttl: u32)
    requires
        ctrl_additionals(Some((old(b).message(), old(b).suffixes())), inst@, host@, arpa@, ttl) is Some,
        old(b).additionals() == 0,
    ensures
        ctrl_additionals(Some((old(b).message(), old(b).suffixes())), inst@, host@, arpa@, ttl) == Some(
            (final(b).message(), final(b).suffixes()),
        ),
        final(b).answers() == old(b).answers(),
        final(b).additionals() == 3,
{
    let inst_types: [u16; 2] = [TYPE_TXT, TYPE_SRV];
    let host_types: [u16; 1] = [TYPE_AAAA];
    let arpa_types: [u16; 1] = [TYPE_PTR];
    assert(inst_types@ =~= seq![TYPE_TXT, TYPE_SRV]);
    assert(host_types@ =~= seq![TYPE_AAAA]);
    assert(arpa_types@ =~= seq![TYPE_PTR]);
    let ghost r0: Written = Some((b.message(), b.suffixes()));
    let ghost r1 = then_nsec(r0, inst@, ttl, inst@, inst_types@, true);
    let ghost r2 = then_nsec(r1, host@, ttl, host@, host_types@, true);
    let ghost r3 = then_nsec(r2, arpa@, ttl, arpa@, arpa_types@, true);
    proof {
        reveal(then_nsec);
        assert(r3 is Some);
        assert(r2 is Some);
        assert(r1 is Some);
    }
    b.nsec_record_bytes(inst, ttl, inst, inst_types.as_slice(), true);
    b.nsec_record_bytes(host, ttl, host, host_types.as_slice(), true);
    b.nsec_record_bytes(arpa, ttl, arpa, arpa_types.as_slice(), true);
}

impl<'a> CarplayCtrlAnnounceParams<'a> {
    /// Bytes of the text fields together.
    pub open spec fn text_len(&self) -> int {
        (self.instance.spec_bytes().len() + self.host.spec_bytes().len() + self.srcvers.spec_bytes().len()
            + self.device_id.spec_bytes().len() + self.model.spec_bytes().len()) as int
    }

    /// The records of the announcement, or `None` where a name offset of the compression
    /// would not fit 16 bits.
    pub open spec fn records(&self) -> Written {
        ctrl_announce_records(
            self.instance.spec_bytes(),
            self.host.spec_bytes(),
            self.port,
            self.addr_v6_ll@,
            self.srcvers.spec_bytes(),
            self.device_id.spec_bytes(),
            self.model.spec_bytes(),
            self.ttl,
        )
    }

    /// The unsolicited mDNS response announcing the CarPlay control service: header, then
    /// the records of `ctrl_announce_records`, names compressed against earlier ones.
    pub fn build_announce(&self) -> (r: Vec<u8>)
        requires
            self.records() is Some,
        ensures
            self.records() matches Some((m, _)) && r@ == ctrl_announce_header() + m,
    {
        proof {
            lemma_literal_lengths();
            lemma_arpa_nibbles_len(self.addr_v6_ll@);
        }
        let inst = concat_bytes(self.instance.as_bytes(), "._carplay-ctrl._tcp.local.".as_bytes());
        let host = concat_bytes(self.host.as_bytes(), ".local.".as_bytes());
        let device_info = concat_bytes(self.instance.as_bytes(), "._device-info._tcp.local.".as_bytes());
        let arpa = ipv6_to_ip6_arpa(&self.addr_v6_ll);
        let txt_id = concat_bytes("id=".as_bytes(), self.device_id.as_bytes());
        let txt_srcvers = concat_bytes("srcvers=".as_bytes(), self.srcvers.as_bytes());
        let txt_model = concat_bytes("model=".as_bytes(), self.model.as_bytes());
        let instance_txt: [&[u8]; 2] = [txt_id.as_slice(), txt_srcvers.as_slice()];
        let device_txt: [&[u8]; 1] = [txt_model.as_slice()];

        let mut b = MdnsBuilder::new(1500);
        let ghost answers = ctrl_answers(
            Some((b.message(), b.suffixes())),
            inst@,
            host@,
            arpa@,
            device_info@,
            self.port,
            self.addr_v6_ll@,
            seq![instance_txt[0]@, instance_txt[1]@],
            seq![device_txt[0]@],
            self.ttl,
        );
        proof {
            reveal(then_nsec);
            assert(b.message() =~= Seq::<u8>::empty());
            assert(ctrl_additionals(answers, inst@, host@, arpa@, self.ttl) == self.records());
            assert(answers is Some);
        }
        write_answers(
            &mut b,
            inst.as_slice(),
            host.as_slice(),
            arpa.as_slice(),
            device_info.as_slice(),
            self.port,
            &self.addr_v6_ll,
            &instance_txt,
            &device_txt,
            self.ttl,
        );
        write_additionals(&mut b, inst.as_slice(), host.as_slice(), arpa.as_slice(), self.ttl);

        let hdr = b.build_header();
        let data = b.build_data();
        let mut out: Vec<u8> = Vec::new();
        out.extend_from_slice(hdr.as_slice());
        out.extend_from_slice(data.as_slice());
        proof {
            assert(out@ =~= ctrl_announce_header() + data@);
        }
        out
    }
}

} // verus!
