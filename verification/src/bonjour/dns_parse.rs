use vstd::prelude::*;

verus! {

/// Whether `bytes` are valid UTF-8 (well-formed, shortest-form scalar values), which is
/// what `std::str::from_utf8` accepts.
pub open spec fn utf8_valid(bytes: Seq<u8>) -> bool {
    vstd::utf8::valid_utf8(bytes)
}

/// Calls `std::str::from_utf8` and reports whether it accepted the bytes.
#[verifier::external_body]
fn is_utf8(bytes: &[u8]) -> (r: bool)
    ensures
        r == utf8_valid(bytes@),
{
    std::str::from_utf8(bytes).is_ok()
}

/// Jumps a name may take through compression pointers before it is given up.
pub const MAX_NAME_JUMPS: usize = 20;

/// Reading a compressed domain name on from `pos`, after `jumps` pointer jumps, with `name`
/// read so far and `resume` where the reader goes on after the first jump (if one was
/// taken): the dotted name (with its final dot) and where reading goes on, or `None` if it
/// runs off the buffer, holds a label that is not UTF-8, or jumps too often.
pub open spec fn name_from(buf: Seq<u8>, pos: int, jumps: int, name: Seq<u8>, resume: Option<int>) -> Option<(Seq<u8>, int)>
    decreases MAX_NAME_JUMPS + 1 - jumps, buf.len() - pos,
{
    if pos < 0 || pos >= buf.len() || jumps < 0 || jumps > MAX_NAME_JUMPS {
        None
    } else if buf[pos] & 0xC0 == 0xC0 {
        if pos + 1 >= buf.len() || jumps + 1 > MAX_NAME_JUMPS {
            None
        } else {
            let target = (buf[pos] & 0x3F) as int * 256 + buf[pos + 1] as int;
            let r = match resume {
                Some(e) => Some(e),
                None => Some(pos + 2),
            };
            name_from(buf, target, jumps + 1, name, r)
        }
    } else if buf[pos] == 0 {
        Some((
            name.push(0x2E),
            match resume {
                Some(e) => e,
                None => pos + 1,
            },
        ))
    } else {
        let len = buf[pos] as int;
        let start = pos + 1;
        if start + len > buf.len() || !utf8_valid(buf.subrange(start, start + len)) {
            None
        } else {
            let sep = if name.len() == 0 { Seq::<u8>::empty() } else { seq![0x2Eu8] };
            name_from(buf, start + len, jumps, name + sep + buf.subrange(start, start + len), resume)
        }
    }
}

/// Reads the possibly compressed domain name at `start`: its dotted text with a final dot,
/// and the position after it in the message.
pub fn parse_name(buf: &[u8], start: usize) -> (r: Option<(Vec<u8>, usize)>)
    ensures
        match name_from(buf@, start as int, 0, Seq::empty(), None) {
            None => r is None,
            Some((name, next)) => r matches Some((n, p)) && n@ == name && p == next,
        },
{
    let mut name: Vec<u8> = Vec::new();
    let mut pos: usize = start;
    let mut jumped = false;
    let mut jump_end: usize = start;
    let mut steps: usize = 0;
    let len = buf.len();
    loop
        invariant
            len == buf@.len(),
            steps <= MAX_NAME_JUMPS,
            jumped ==> jump_end <= len + 1,
            name_from(buf@, start as int, 0, Seq::empty(), None) == name_from(
                buf@,
                pos as int,
                steps as int,
                name@,
                if jumped { Some(jump_end as int) } else { None },
            ),
        decreases MAX_NAME_JUMPS + 1 - steps, len - pos,
    {
        if pos >= len {
            return None;
        }
        let b = buf[pos];
        if b & 0xC0 == 0xC0 {
            if pos + 1 >= len {
                return None;
            }
            if steps + 1 > MAX_NAME_JUMPS {
                return None;
            }
            let ptr = ((b & 0x3F) as usize) * 256 + (buf[pos + 1] as usize);
            let ghost old_resume = if jumped { Some(jump_end as int) } else { None };
            let ghost old_pos = pos;
            if !jumped {
                jump_end = pos + 2;
                jumped = true;
            }
            pos = ptr;
            steps = steps + 1;
            proof {
                assert(name_from(buf@, old_pos as int, (steps - 1) as int, name@, old_resume)
                    == name_from(buf@, pos as int, steps as int, name@, Some(jump_end as int)));
            }
            continue;
        }
        if b == 0 {
            name.push(0x2E);
            let next = if jumped { jump_end } else { pos + 1 };
            return Some((name, next));
        }
        let l = b as usize;
        let p = pos + 1;
        if l > len - p {
            return None;
        }
        let label = &buf[p..p + l];
        if !is_utf8(label) {
            return None;
        }
        let ghost before = name@;
        if name.len() > 0 {
            name.push(0x2E);
        }
        proof {
            let sep = if before.len() == 0 { Seq::<u8>::empty() } else { seq![0x2Eu8] };
            assert(name@ == before + sep);
        }
        name.extend_from_slice(label);
        proof {
            let resume = if jumped { Some(jump_end as int) } else { None };
            assert(label@ == buf@.subrange(p as int, p + l));
            assert(b & 0xC0 != 0xC0 && b != 0);
            let sep = if before.len() == 0 { Seq::<u8>::empty() } else { seq![0x2Eu8] };
            assert(name@ == before + sep + buf@.subrange(p as int, p + l));
            assert(utf8_valid(buf@.subrange(pos + 1, pos + 1 + buf@[pos as int] as int)));
            assert(pos + 1 + buf@[pos as int] as int <= buf@.len());
            assert(!(buf@[pos as int] & 0xC0 == 0xC0));
            assert(name_from(buf@, pos as int, steps as int, before, resume)
                == name_from(buf@, p + l, steps as int, name@, resume));
        }
        pos = p + l;
    }
}


/// Position of the first `=` in `e` from `k` on.
pub open spec fn eq_pos(e: Seq<u8>, k: int) -> Option<int>
    decreases e.len() - k,
{
    if k < 0 || k >= e.len() {
        None
    } else if e[k] == 0x3D {
        Some(k)
    } else {
        eq_pos(e, k + 1)
    }
}

/// The key/value pairs of TXT record data in `[i, end)`: each string behind its length
/// byte; one that is UTF-8 and holds `=` gives the key before its first `=` and the value
/// after it. Reading stops at a string that runs past the end.
pub open spec fn txt_pairs_from(buf: Seq<u8>, i: int, end: int) -> Seq<(Seq<u8>, Seq<u8>)>
    decreases end - i,
{
    if i < 0 || i >= end || end > buf.len() {
        Seq::empty()
    } else {
        let len = buf[i] as int;
        let s = i + 1;
        if s + len > end {
            Seq::empty()
        } else {
            let e = buf.subrange(s, s + len);
            let rest = txt_pairs_from(buf, s + len, end);
            match eq_pos(e, 0) {
                Some(k) => if utf8_valid(e) {
                    seq![(e.subrange(0, k), e.subrange(k + 1, e.len() as int))] + rest
                } else {
                    rest
                },
                None => rest,
            }
        }
    }
}

proof fn lemma_eq_pos_bounds(e: Seq<u8>, k0: int)
    requires
        0 <= k0,
    ensures
        eq_pos(e, k0) matches Some(k) ==> k0 <= k < e.len() && e[k] == 0x3D,
    decreases e.len() - k0,
{
    if k0 < e.len() && e[k0] != 0x3D {
        lemma_eq_pos_bounds(e, k0 + 1);
    }
}

/// Position of the first `=` in `e`.
fn find_eq(e: &[u8]) -> (r: Option<usize>)
    ensures
        match eq_pos(e@, 0) {
            Some(k) => r == Some(k as usize),
            None => r is None,
        },
{
    let mut k: usize = 0;
    while k < e.len()
        invariant
            k <= e@.len(),
            eq_pos(e@, 0) == eq_pos(e@, k as int),
        decreases e@.len() - k,
    {
        if e[k] == 0x3D {
            return Some(k);
        }
        k = k + 1;
    }
    None
}

/// The byte strings the pairs hold.
pub open spec fn pair_views(v: Seq<(Vec<u8>, Vec<u8>)>) -> Seq<(Seq<u8>, Seq<u8>)> {
    v.map_values(|p: (Vec<u8>, Vec<u8>)| (p.0@, p.1@))
}

/// Reads the key/value pairs of the TXT record data in `[start, end)`.
pub fn parse_txt_pairs(buf: &[u8], start: usize, end: usize) -> (r: Vec<(Vec<u8>, Vec<u8>)>)
    requires
        start <= end <= buf@.len(),
    ensures
        pair_views(r@) == txt_pairs_from(buf@, start as int, end as int),
{
    let mut out: Vec<(Vec<u8>, Vec<u8>)> = Vec::new();
    let mut i = start;
    while i < end
        invariant
            start <= i,
            end <= buf@.len(),
            pair_views(out@) + txt_pairs_from(buf@, i as int, end as int) == txt_pairs_from(buf@, start as int, end as int),
        ensures
            pair_views(out@) == txt_pairs_from(buf@, start as int, end as int),
        decreases end - i,
    {
        let len = buf[i] as usize;
        let s = i + 1;
        if len > end - s {
            proof {
                assert(pair_views(out@) + Seq::<(Seq<u8>, Seq<u8>)>::empty() =~= pair_views(out@));
            }
            break;
        }
        let e = &buf[s..s + len];
        let ghost rest = txt_pairs_from(buf@, (s + len) as int, end as int);
        let ghost before = pair_views(out@);
        proof {
            lemma_eq_pos_bounds(e@, 0);
        }
        match find_eq(e) {
            Some(k) => {
                if is_utf8(e) {
                    let mut key: Vec<u8> = Vec::new();
                    key.extend_from_slice(&e[0..k]);
                    let mut value: Vec<u8> = Vec::new();
                    value.extend_from_slice(&e[k + 1..len]);
                    assert(key@ == e@.subrange(0, k as int));
                    assert(value@ == e@.subrange(k + 1, e@.len() as int));
                    let ghost kv = (key@, value@);
                    out.push((key, value));
                    proof {
                        assert(pair_views(out@) =~= before.push(kv));
                        let pair = (e@.subrange(0, k as int), e@.subrange(k + 1, e@.len() as int));
                        assert(pair_views(out@) =~= before.push(pair));
                        assert(before.push(pair) + rest =~= before + (seq![pair] + rest));
                    }
                }
            },
            None => {},
        }
        i = s + len;
    }
    proof {
        if i >= end {
            assert(pair_views(out@) + Seq::<(Seq<u8>, Seq<u8>)>::empty() =~= pair_views(out@));
        }
    }
    out
}

/// The data of a resource record, as far as the responder reads it.
#[derive(Debug)]
pub enum DnsRData {
    Ptr(Vec<u8>),
    Srv { target: Vec<u8>, port: u16 },
    Txt(Vec<(Vec<u8>, Vec<u8>)>),
    A([u8; 4]),
    Aaaa([u8; 16]),
    Unknown,
}

/// What a record's data says: names and strings as bytes.
pub enum RDataView {
    Ptr(Seq<u8>),
    Srv(Seq<u8>, u16),
    Txt(Seq<(Seq<u8>, Seq<u8>)>),
    A(Seq<u8>),
    Aaaa(Seq<u8>),
    Unknown,
}

impl View for DnsRData {
    type V = RDataView;

    open spec fn view(&self) -> RDataView {
        match self {
            DnsRData::Ptr(t) => RDataView::Ptr(t@),
            DnsRData::Srv { target, port } => RDataView::Srv(target@, *port),
            DnsRData::Txt(pairs) => RDataView::Txt(pair_views(pairs@)),
            DnsRData::A(a) => RDataView::A(a@),
            DnsRData::Aaaa(a) => RDataView::Aaaa(a@),
            DnsRData::Unknown => RDataView::Unknown,
        }
    }
}

/// The big-endian 16-bit value at `p`.
pub open spec fn be16_at(buf: Seq<u8>, p: int) -> int {
    buf[p] as int * 256 + buf[p + 1] as int
}

/// The big-endian 32-bit value at `p`.
pub open spec fn be32_at(buf: Seq<u8>, p: int) -> int {
    be16_at(buf, p) * 0x1_0000 + be16_at(buf, p + 2)
}

/// What the data of a record of type `rtype` in `[rstart, rstart + rdlen)` says: a PTR or
/// SRV target name (read from the whole message), TXT pairs, an IPv4 or IPv6 address of the
/// right length, else nothing known. `None` when a target name cannot be read.
pub open spec fn rdata_spec(buf: Seq<u8>, rtype: u16, rstart: int, rdlen: int) -> Option<RDataView> {
    if rtype == 12 {
        match name_from(buf, rstart, 0, Seq::empty(), None) {
            None => None,
            Some((t, _)) => Some(RDataView::Ptr(t)),
        }
    } else if rtype == 33 {
        if rdlen < 6 {
            Some(RDataView::Unknown)
        } else {
            match name_from(buf, rstart + 6, 0, Seq::empty(), None) {
                None => None,
                Some((t, _)) => Some(RDataView::Srv(t, be16_at(buf, rstart + 4) as u16)),
            }
        }
    } else if rtype == 16 {
        Some(RDataView::Txt(txt_pairs_from(buf, rstart, rstart + rdlen)))
    } else if rtype == 1 && rdlen == 4 {
        Some(RDataView::A(buf.subrange(rstart, rstart + 4)))
    } else if rtype == 28 && rdlen == 16 {
        Some(RDataView::Aaaa(buf.subrange(rstart, rstart + 16)))
    } else {
        Some(RDataView::Unknown)
    }
}

/// Reads the data of a record of type `rtype` in `[rstart, rstart + rdlen)`.
pub fn parse_rdata(buf: &[u8], rtype: u16, rstart: usize, rdlen: usize) -> (r: Option<DnsRData>)
    requires
        rstart + rdlen <= buf@.len(),
    ensures
        match rdata_spec(buf@, rtype, rstart as int, rdlen as int) {
            None => r is None,
            Some(v) => r matches Some(d) && d@ == v,
        },
{
    let n = buf.len();
    assert(rstart + rdlen <= n);
    if rtype == 12 {
        match parse_name(buf, rstart) {
            Some((t, _)) => Some(DnsRData::Ptr(t)),
            None => None,
        }
    } else if rtype == 33 {
        if rdlen < 6 {
            Some(DnsRData::Unknown)
        } else {
            let port = (buf[rstart + 4] as u16) * 256 + (buf[rstart + 5] as u16);
            match parse_name(buf, rstart + 6) {
                Some((t, _)) => Some(DnsRData::Srv { target: t, port }),
                None => None,
            }
        }
    } else if rtype == 16 {
        Some(DnsRData::Txt(parse_txt_pairs(buf, rstart, rstart + rdlen)))
    } else if rtype == 1 && rdlen == 4 {
        let a: [u8; 4] = [buf[rstart], buf[rstart + 1], buf[rstart + 2], buf[rstart + 3]];
        assert(a@ =~= buf@.subrange(rstart as int, rstart + 4));
        Some(DnsRData::A(a))
    } else if rtype == 28 && rdlen == 16 {
        let mut a: [u8; 16] = [0u8; 16];
        let mut k: usize = 0;
        while k < 16
            invariant
                k <= 16,
                rstart + 16 <= buf@.len(),
                n == buf@.len(),
                forall|j: int| 0 <= j < k ==> a@[j] == buf@[rstart + j],
            decreases 16 - k,
        {
            a[k] = buf[rstart + k];
            k = k + 1;
        }
        assert(a@ =~= buf@.subrange(rstart as int, rstart + 16));
        Some(DnsRData::Aaaa(a))
    } else {
        Some(DnsRData::Unknown)
    }
}

/// A resource record: owner name, TTL and data.
#[derive(Debug)]
pub struct DnsRecord {
    pub name: Vec<u8>,
    pub ttl: u32,
    pub data: DnsRData,
}

/// A question: the name asked about.
#[derive(Debug)]
pub struct DnsQuestion {
    pub name: Vec<u8>,
}

/// A DNS message as the responder reads it.
#[derive(Debug)]
pub struct ParsedDnsMessage {
    pub is_response: bool,
    pub questions: Vec<DnsQuestion>,
    pub records: Vec<DnsRecord>,
}

/// The names of `count` questions from `pos` on (each followed by type and class), and the
/// position after them.
pub open spec fn questions_from(buf: Seq<u8>, pos: int, count: nat) -> Option<(Seq<Seq<u8>>, int)>
    decreases count,
{
    if count == 0 {
        Some((Seq::empty(), pos))
    } else {
        match name_from(buf, pos, 0, Seq::empty(), None) {
            None => None,
            Some((name, p)) => if p + 4 > buf.len() {
                None
            } else {
                match questions_from(buf, p + 4, (count - 1) as nat) {
                    None => None,
                    Some((rest, end)) => Some((seq![name] + rest, end)),
                }
            },
        }
    }
}

/// The record at `pos` (owner name, type, class, TTL, data length and data) and the position
/// after it.
pub open spec fn record_at(buf: Seq<u8>, pos: int) -> Option<((Seq<u8>, u32, RDataView), int)> {
    match name_from(buf, pos, 0, Seq::empty(), None) {
        None => None,
        Some((name, p)) => if p + 10 > buf.len() {
            None
        } else {
            let rdlen = be16_at(buf, p + 8);
            let q = p + 10;
            if q + rdlen > buf.len() {
                None
            } else {
                match rdata_spec(buf, be16_at(buf, p) as u16, q, rdlen) {
                    None => None,
                    Some(d) => Some(((name, be32_at(buf, p + 4) as u32, d), q + rdlen)),
                }
            }
        },
    }
}

/// `count` records from `pos` on, and the position after them.
pub open spec fn records_from(buf: Seq<u8>, pos: int, count: nat) -> Option<(Seq<(Seq<u8>, u32, RDataView)>, int)>
    decreases count,
{
    if count == 0 {
        Some((Seq::empty(), pos))
    } else {
        match record_at(buf, pos) {
            None => None,
            Some((rec, p)) => match records_from(buf, p, (count - 1) as nat) {
                None => None,
                Some((rest, end)) => Some((seq![rec] + rest, end)),
            },
        }
    }
}

/// What a DNS message says: whether it is a response, the question names, and the answer,
/// authority and additional records; `None` for a message shorter than its header or one
/// whose questions or records cannot all be read.
pub open spec fn message_spec(buf: Seq<u8>) -> Option<(bool, Seq<Seq<u8>>, Seq<(Seq<u8>, u32, RDataView)>)> {
    if buf.len() < 12 {
        None
    } else {
        let qd = be16_at(buf, 4) as nat;
        let rr = (be16_at(buf, 6) + be16_at(buf, 8) + be16_at(buf, 10)) as nat;
        match questions_from(buf, 12, qd) {
            None => None,
            Some((qs, p)) => match records_from(buf, p, rr) {
                None => None,
                Some((rs, _)) => Some((buf[2] & 0x80 != 0, qs, rs)),
            },
        }
    }
}

impl DnsRecord {
    pub open spec fn view_tuple(&self) -> (Seq<u8>, u32, RDataView) {
        (self.name@, self.ttl, self.data@)
    }
}

impl ParsedDnsMessage {
    /// Question names and records, as byte strings and views.
    pub open spec fn question_names(&self) -> Seq<Seq<u8>> {
        self.questions@.map_values(|q: DnsQuestion| q.name@)
    }

    pub open spec fn record_views(&self) -> Seq<(Seq<u8>, u32, RDataView)> {
        self.records@.map_values(|r: DnsRecord| r.view_tuple())
    }

    /// Reads a DNS message: header flags and counts, the questions, then the answer,
    /// authority and additional records.
    pub fn parse(buf: &[u8]) -> (r: Option<Self>)
        ensures
            match message_spec(buf@) {
                None => r is None,
                Some((resp, qs, rs)) => r matches Some(m) && m.is_response == resp && m.question_names() == qs
                    && m.record_views() == rs,
            },
    {
        let n = buf.len();
        if n < 12 {
            return None;
        }
        let is_response = buf[2] & 0x80 != 0;
        let qd = (buf[4] as usize) * 256 + (buf[5] as usize);
        let an = (buf[6] as usize) * 256 + (buf[7] as usize);
        let ns = (buf[8] as usize) * 256 + (buf[9] as usize);
        let ar = (buf[10] as usize) * 256 + (buf[11] as usize);

        let mut pos: usize = 12;
        let mut questions: Vec<DnsQuestion> = Vec::new();
        let mut k: usize = 0;
        while k < qd
            invariant
                n == buf@.len(),
                k <= qd,
                qd == be16_at(buf@, 4),
                pos <= n,
                questions_from(buf@, 12, qd as nat) == match questions_from(buf@, pos as int, (qd - k) as nat) {
                    None => None,
                    Some((rest, end)) => Some((questions@.map_values(|q: DnsQuestion| q.name@) + rest, end)),
                },
            decreases qd - k,
        {
            let (name, p) = match parse_name(buf, pos) {
                Some(x) => x,
                None => return None,
            };
            if p > n || 4 > n - p {
                return None;
            }
            let ghost before = questions@.map_values(|q: DnsQuestion| q.name@);
            let ghost nm = name@;
            questions.push(DnsQuestion { name });
            proof {
                assert(questions@.map_values(|q: DnsQuestion| q.name@) =~= before.push(nm));
                match questions_from(buf@, p + 4, (qd - k - 1) as nat) {
                    None => {},
                    Some((rest, end)) => {
                        assert(before.push(nm) + rest =~= before + (seq![nm] + rest));
                    },
                }
            }
            pos = p + 4;
            k = k + 1;
        }
        proof {
            assert(questions@.map_values(|q: DnsQuestion| q.name@) + Seq::<Seq<u8>>::empty()
                =~= questions@.map_values(|q: DnsQuestion| q.name@));
        }

        let total = an + ns + ar;
        let mut records: Vec<DnsRecord> = Vec::new();
        let ghost q_end = pos as int;
        let mut k: usize = 0;
        while k < total
            invariant
                n == buf@.len(),
                k <= total,
                pos <= n,
                total == be16_at(buf@, 6) + be16_at(buf@, 8) + be16_at(buf@, 10),
                qd == be16_at(buf@, 4),
                questions_from(buf@, 12, qd as nat) == Some((questions@.map_values(|q: DnsQuestion| q.name@), q_end)),
                records_from(buf@, q_end, total as nat) == match records_from(buf@, pos as int, (total - k) as nat) {
                    None => None,
                    Some((rest, end)) => Some((records@.map_values(|r: DnsRecord| r.view_tuple()) + rest, end)),
                },
            decreases total - k,
        {
            let (name, p) = match parse_name(buf, pos) {
                Some(x) => x,
                None => {
                    assert(record_at(buf@, pos as int) is None);
                    return None;
                },
            };
            if p > n || 10 > n - p {
                assert(record_at(buf@, pos as int) is None);
                return None;
            }
            let rr_type = (buf[p] as u16) * 256 + (buf[p + 1] as u16);
            let ttl = ((((buf[p + 4] as u32) * 256 + (buf[p + 5] as u32)) * 256 + (buf[p + 6] as u32)) * 256) + (buf[p + 7] as u32);
            let rdlen = (buf[p + 8] as usize) * 256 + (buf[p + 9] as usize);
            let q = p + 10;
            if rdlen > n - q {
                return None;
            }
            let data = match parse_rdata(buf, rr_type, q, rdlen) {
                Some(d) => d,
                None => return None,
            };
            let ghost before = records@.map_values(|r: DnsRecord| r.view_tuple());
            let rec = DnsRecord { name, ttl, data };
            let ghost rv = rec.view_tuple();
            proof {
                assert(ttl == be32_at(buf@, p + 4) as u32);
                assert(record_at(buf@, pos as int) == Some((rv, q + rdlen)));
            }
            records.push(rec);
            proof {
                assert(records@.map_values(|r: DnsRecord| r.view_tuple()) =~= before.push(rv));
                match records_from(buf@, q + rdlen, (total - k - 1) as nat) {
                    None => {},
                    Some((rest, end)) => {
                        assert(before.push(rv) + rest =~= before + (seq![rv] + rest));
                    },
                }
            }
            pos = q + rdlen;
            k = k + 1;
        }
        proof {
            assert(records@.map_values(|r: DnsRecord| r.view_tuple()) + Seq::<(Seq<u8>, u32, RDataView)>::empty()
                =~= records@.map_values(|r: DnsRecord| r.view_tuple()));
        }
        Some(ParsedDnsMessage { is_response, questions, records })
    }
}
} // verus!
