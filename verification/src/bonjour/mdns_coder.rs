use vstd::prelude::*;
use vstd::string::StringSliceAdditionalSpecFns;

verus! {

/// Marker for the CarPlay control service helpers.
pub struct CarPlayCtrlHelper;

pub const CLASS_IN: u16 = 0x0001;
pub const CACHE_FLUSH: u16 = 0x8000;

pub const TYPE_A: u16 = 1;
pub const TYPE_AAAA: u16 = 28;
pub const TYPE_PTR: u16 = 12;
pub const TYPE_TXT: u16 = 16;
pub const TYPE_SRV: u16 = 33;
pub const TYPE_NSEC: u16 = 47;

/// Size of the DNS header that precedes the message body.
pub const HEADER_SIZE: u16 = 12;

/// `b` without its trailing dots.
pub open spec fn trim_dots(b: Seq<u8>) -> Seq<u8>
    decreases b.len(),
{
    if b.len() > 0 && b.last() == 0x2E {
        trim_dots(b.drop_last())
    } else {
        b
    }
}

/// Index of the first dot in `b`, or `b.len()`.
pub open spec fn first_dot(b: Seq<u8>) -> int
    decreases b.len(),
{
    if b.len() == 0 {
        0
    } else if b[0] == 0x2E {
        0
    } else {
        1 + first_dot(b.drop_first())
    }
}

/// `b` split at its dots (an empty string gives one empty label).
pub open spec fn split_dots(b: Seq<u8>) -> Seq<Seq<u8>>
    decreases b.len(),
{
    let p = first_dot(b);
    if p >= b.len() {
        seq![b]
    } else {
        proof {
            lemma_first_dot_bounds(b);
        }
        seq![b.subrange(0, p)] + split_dots(b.subrange(p + 1, b.len() as int))
    }
}

pub proof fn lemma_first_dot_bounds(b: Seq<u8>)
    ensures
        0 <= first_dot(b) <= b.len(),
        first_dot(b) < b.len() ==> b[first_dot(b)] == 0x2E,
        forall|i: int| 0 <= i < first_dot(b) ==> b[i] != 0x2E,
    decreases b.len(),
{
    if b.len() > 0 && b[0] != 0x2E {
        lemma_first_dot_bounds(b.drop_first());
        assert forall|i: int| 0 <= i < first_dot(b) implies b[i] != 0x2E by {
            if i > 0 {
                assert(b[i] == b.drop_first()[i - 1]);
            }
        }
    }
}

/// The labels of a domain name written with a final dot.
pub open spec fn name_labels(name: Seq<u8>) -> Seq<Seq<u8>> {
    split_dots(trim_dots(name))
}

/// Splitting at dots gives at least one label.
pub(crate) proof fn lemma_split_dots_nonempty(b: Seq<u8>)
    ensures
        split_dots(b).len() > 0,
{
}

/// `labels` joined with dots.
pub open spec fn join_dots(labels: Seq<Seq<u8>>) -> Seq<u8>
    decreases labels.len(),
{
    if labels.len() == 0 {
        Seq::empty()
    } else if labels.len() == 1 {
        labels[0]
    } else {
        labels[0] + seq![0x2Eu8] + join_dots(labels.drop_first())
    }
}

/// The name made of the labels from `i` on, with a final dot: the key a written suffix is
/// remembered under.
pub open spec fn suffix_key(labels: Seq<Seq<u8>>, i: int) -> Seq<u8> {
    join_dots(labels.subrange(i, labels.len() as int)).push(0x2E)
}

/// The offset remembered for `key`: the first entry under it.
pub open spec fn comp_lookup(comp: Seq<(Seq<u8>, u16)>, key: Seq<u8>) -> Option<u16>
    decreases comp.len(),
{
    if comp.len() == 0 {
        None
    } else if comp[0].0 == key {
        Some(comp[0].1)
    } else {
        comp_lookup(comp.drop_first(), key)
    }
}

/// `comp` after remembering `key` at `offset`, unless it is already known.
pub open spec fn comp_remember(comp: Seq<(Seq<u8>, u16)>, key: Seq<u8>, offset: u16) -> Seq<(Seq<u8>, u16)> {
    if comp_lookup(comp, key) is Some {
        comp
    } else {
        comp.push((key, offset))
    }
}

/// The first suffix, from label `i` on, that was written before: its label index and offset.
pub open spec fn first_known_suffix(comp: Seq<(Seq<u8>, u16)>, labels: Seq<Seq<u8>>, i: int) -> Option<(int, u16)>
    decreases labels.len() - i,
{
    if i < 0 || i >= labels.len() {
        None
    } else {
        match comp_lookup(comp, suffix_key(labels, i)) {
            Some(off) => Some((i, off)),
            None => first_known_suffix(comp, labels, i + 1),
        }
    }
}

/// Writing labels `j` up to `stop` after `msg`: each is remembered as a suffix at its offset in
/// the message (after the header) and written as length and bytes; `None` if an offset does
/// not fit 16 bits.
pub open spec fn write_labels(msg: Seq<u8>, comp: Seq<(Seq<u8>, u16)>, labels: Seq<Seq<u8>>, j: int, stop: int) -> Option<(Seq<u8>, Seq<(Seq<u8>, u16)>)>
    decreases stop - j,
{
    if j >= stop || j < 0 {
        Some((msg, comp))
    } else {
        let off = (msg.len() as u16) as int + HEADER_SIZE as int;
        if off > 0xFFFF {
            None
        } else {
            write_labels(
                msg + seq![labels[j].len() as u8] + labels[j],
                comp_remember(comp, suffix_key(labels, j), off as u16),
                labels,
                j + 1,
                stop,
            )
        }
    }
}

proof fn lemma_write_labels_extends(msg: Seq<u8>, comp: Seq<(Seq<u8>, u16)>, labels: Seq<Seq<u8>>, j: int, stop: int)
    ensures
        write_labels(msg, comp, labels, j, stop) matches Some((m, _)) ==> m.len() >= msg.len() && m.subrange(0, msg.len() as int) == msg,
    decreases stop - j,
{
    if j < stop && j >= 0 {
        let off = (msg.len() as u16) as int + HEADER_SIZE as int;
        if off <= 0xFFFF {
            let m1 = msg + seq![labels[j].len() as u8] + labels[j];
            lemma_write_labels_extends(m1, comp_remember(comp, suffix_key(labels, j), off as u16), labels, j + 1, stop);
            if let Some((m, _)) = write_labels(msg, comp, labels, j, stop) {
                assert(m.subrange(0, m1.len() as int) == m1);
                assert(m.subrange(0, msg.len() as int) =~= m1.subrange(0, msg.len() as int));
                assert(m1.subrange(0, msg.len() as int) =~= msg);
            }
        }
    }
}

/// Writing a name only appends to the message.
pub proof fn lemma_name_write_extends(msg: Seq<u8>, comp: Seq<(Seq<u8>, u16)>, name: Seq<u8>)
    ensures
        name_write(msg, comp, name) matches Some((m, _)) ==> m.len() >= msg.len() && m.subrange(0, msg.len() as int) == msg,
{
    let labels = name_labels(name);
    let best = first_known_suffix(comp, labels, 0);
    let stop = match best {
        Some((i, _)) => i,
        None => labels.len() as int,
    };
    lemma_write_labels_extends(msg, comp, labels, 0, stop);
    if let Some((m, _)) = write_labels(msg, comp, labels, 0, stop) {
        let tail = match best {
            Some((_, off)) => be16(0xC000u16 | (off & 0x3FFFu16)),
            None => seq![0u8],
        };
        assert((m + tail).subrange(0, msg.len() as int) =~= m.subrange(0, msg.len() as int));
    }
}

/// Two bytes, big-endian.
pub open spec fn be16(v: u16) -> Seq<u8> {
    seq![(v / 256) as u8, (v % 256) as u8]
}

/// Writing the name `name` after `msg`: the labels up to the first suffix written before, then
/// a pointer to that suffix or the root label; `None` if an offset does not fit 16 bits.
pub open spec fn name_write(msg: Seq<u8>, comp: Seq<(Seq<u8>, u16)>, name: Seq<u8>) -> Option<(Seq<u8>, Seq<(Seq<u8>, u16)>)> {
    let labels = name_labels(name);
    let best = first_known_suffix(comp, labels, 0);
    let stop = match best {
        Some((i, _)) => i,
        None => labels.len() as int,
    };
    match write_labels(msg, comp, labels, 0, stop) {
        None => None,
        Some((m, c)) => Some((
            m + match best {
                Some((_, off)) => be16(0xC000u16 | (off & 0x3FFFu16)),
                None => seq![0u8],
            },
            c,
        )),
    }
}


proof fn lemma_trim_dots_prefix(b: Seq<u8>, end: int)
    requires
        0 <= end <= b.len(),
        forall|i: int| end <= i < b.len() ==> b[i] == 0x2E,
        end == 0 || b[end - 1] != 0x2E,
    ensures
        trim_dots(b) == b.subrange(0, end),
    decreases b.len(),
{
    if b.len() > end {
        assert(b.last() == 0x2E);
        assert(b.drop_last().subrange(0, end) =~= b.subrange(0, end));
        lemma_trim_dots_prefix(b.drop_last(), end);
    } else {
        assert(b.subrange(0, end) =~= b);
    }
}

proof fn lemma_first_dot_at(b: Seq<u8>, p: int)
    requires
        0 <= p <= b.len(),
        forall|i: int| 0 <= i < p ==> b[i] != 0x2E,
        p == b.len() || b[p] == 0x2E,
    ensures
        first_dot(b) == p,
    decreases b.len(),
{
    if b.len() > 0 && b[0] != 0x2E {
        assert forall|i: int| 0 <= i < p - 1 implies b.drop_first()[i] != 0x2E by {
            assert(b.drop_first()[i] == b[i + 1]);
        }
        lemma_first_dot_at(b.drop_first(), p - 1);
    }
}

/// The labels of `name` (a domain name with a final dot), as byte vectors.
pub(crate) fn split_name(name: &[u8]) -> (r: Vec<Vec<u8>>)
    ensures
        r@.map_values(|v: Vec<u8>| v@) == name_labels(name@),
{
    let mut end = name.len();
    while end > 0 && name[end - 1] == 0x2E
        invariant
            end <= name@.len(),
            forall|i: int| end <= i < name@.len() ==> name@[i] == 0x2E,
        decreases end,
    {
        end = end - 1;
    }
    let ghost t = name@.subrange(0, end as int);
    proof {
        lemma_trim_dots_prefix(name@, end as int);
    }
    let mut labels: Vec<Vec<u8>> = Vec::new();
    let mut pos: usize = 0;
    proof {
        assert(t.subrange(0, end as int) =~= t);
        assert(labels@.map_values(|v: Vec<u8>| v@) + split_dots(t) =~= split_dots(t));
    }
    loop
        invariant
            pos <= end <= name@.len(),
            t == name@.subrange(0, end as int),
            name_labels(name@) == split_dots(t),
            split_dots(t) == labels@.map_values(|v: Vec<u8>| v@) + split_dots(t.subrange(pos as int, end as int)),
        decreases end - pos,
    {
        let mut q = pos;
        while q < end && name[q] != 0x2E
            invariant
                pos <= q <= end,
                end <= name@.len(),
                forall|i: int| pos <= i < q ==> name@[i] != 0x2E,
            decreases end - q,
        {
            q = q + 1;
        }
        let ghost rest = t.subrange(pos as int, end as int);
        proof {
            assert forall|i: int| 0 <= i < q - pos implies rest[i] != 0x2E by {
                assert(rest[i] == name@[pos + i]);
            }
            if q < end {
                assert(rest[q - pos] == name@[q as int]);
            }
            lemma_first_dot_at(rest, q - pos);
        }
        let mut label: Vec<u8> = Vec::new();
        label.extend_from_slice(&name[pos..q]);
        let ghost before = labels@;
        labels.push(label);
        proof {
            assert(label@ =~= rest.subrange(0, q - pos));
            assert(labels@.map_values(|v: Vec<u8>| v@) =~= before.map_values(|v: Vec<u8>| v@).push(rest.subrange(0, q - pos)));
        }
        if q == end {
            proof {
                assert(rest.subrange(0, q - pos) =~= rest);
            }
            return labels;
        }
        proof {
            assert(rest.subrange(q - pos + 1, rest.len() as int) =~= t.subrange(q + 1, end as int));
            assert(split_dots(rest) == seq![rest.subrange(0, q - pos)] + split_dots(t.subrange(q + 1, end as int)));
            assert(before.map_values(|v: Vec<u8>| v@) + (seq![rest.subrange(0, q - pos)] + split_dots(t.subrange(q + 1, end as int)))
                =~= labels@.map_values(|v: Vec<u8>| v@) + split_dots(t.subrange(q + 1, end as int)));
        }
        pos = q + 1;
    }
}

pub(crate) proof fn lemma_join_push(ls: Seq<Seq<u8>>, x: Seq<u8>)
    requires
        ls.len() > 0,
    ensures
        join_dots(ls.push(x)) == join_dots(ls) + seq![0x2Eu8] + x,
    decreases ls.len(),
{
    if ls.len() == 1 {
        assert(ls.push(x).drop_first() =~= seq![x]);
        assert(join_dots(seq![x]) == x);
    } else {
        assert(ls.push(x).drop_first() =~= ls.drop_first().push(x));
        lemma_join_push(ls.drop_first(), x);
    }
}

/// `suffix_key(labels, i)` as bytes.
fn suffix_key_bytes(labels: &Vec<Vec<u8>>, i: usize) -> (r: Vec<u8>)
    requires
        i < labels@.len(),
    ensures
        r@ == suffix_key(labels@.map_values(|v: Vec<u8>| v@), i as int),
{
    let ghost ls = labels@.map_values(|v: Vec<u8>| v@);
    let _n = labels.len();
    let mut out: Vec<u8> = Vec::new();
    out.extend_from_slice(labels[i].as_slice());
    let mut k = i + 1;
    proof {
        assert(ls.subrange(i as int, k as int) =~= seq![ls[i as int]]);
    }
    while k < labels.len()
        invariant
            i < k <= labels@.len(),
            ls == labels@.map_values(|v: Vec<u8>| v@),
            out@ == join_dots(ls.subrange(i as int, k as int)),
        decreases labels@.len() - k,
    {
        out.push(0x2E);
        out.extend_from_slice(labels[k].as_slice());
        proof {
            lemma_join_push(ls.subrange(i as int, k as int), ls[k as int]);
            assert(ls.subrange(i as int, k as int).push(ls[k as int]) =~= ls.subrange(i as int, k + 1));
        }
        k = k + 1;
    }
    out.push(0x2E);
    out
}

/// The two byte strings are equal.
fn bytes_equal(a: &[u8], b: &[u8]) -> (r: bool)
    ensures
        r == (a@ == b@),
{
    if a.len() != b.len() {
        return false;
    }
    let mut i: usize = 0;
    while i < a.len()
        invariant
            i <= a@.len(),
            a@.len() == b@.len(),
            forall|j: int| 0 <= j < i ==> a@[j] == b@[j],
        decreases a@.len() - i,
    {
        if a[i] != b[i] {
            return false;
        }
        i = i + 1;
    }
    assert(a@ =~= b@);
    true
}

/// Remembered suffixes of the names written so far and their offsets; the first entry under
/// a name counts.
struct NameCompressor {
    map: Vec<(Vec<u8>, u16)>,
}

impl NameCompressor {
    spec fn entries(&self) -> Seq<(Seq<u8>, u16)> {
        self.map@.map_values(|e: (Vec<u8>, u16)| (e.0@, e.1))
    }

    fn new() -> (r: Self)
        ensures
            r.entries() == Seq::<(Seq<u8>, u16)>::empty(),
    {
        let r = NameCompressor { map: Vec::new() };
        assert(r.entries() =~= Seq::<(Seq<u8>, u16)>::empty());
        r
    }

    fn lookup(&self, suffix: &[u8]) -> (r: Option<u16>)
        ensures
            r == comp_lookup(self.entries(), suffix@),
    {
        let ghost es = self.entries();
        let mut i: usize = 0;
        proof {
            assert(es.subrange(0, es.len() as int) =~= es);
        }
        while i < self.map.len()
            invariant
                i <= self.map@.len(),
                es == self.entries(),
                comp_lookup(es, suffix@) == comp_lookup(es.subrange(i as int, es.len() as int), suffix@),
            decreases self.map@.len() - i,
        {
            let ghost tail = es.subrange(i as int, es.len() as int);
            proof {
                assert(tail.drop_first() =~= es.subrange(i + 1, es.len() as int));
                assert(tail[0] == (self.map@[i as int].0@, self.map@[i as int].1));
            }
            if bytes_equal(self.map[i].0.as_slice(), suffix) {
                return Some(self.map[i].1);
            }
            i = i + 1;
        }
        None
    }

    fn remember_suffix(&mut self, suffix: Vec<u8>, offset: u16)
        ensures
            final(self).entries() == comp_remember(old(self).entries(), suffix@, offset),
    {
        if self.lookup(suffix.as_slice()).is_none() {
            let ghost before = self.entries();
            let ghost key = suffix@;
            self.map.push((suffix, offset));
            assert(self.entries() =~= before.push((key, offset)));
        }
    }
}


/// Builds the body of an mDNS response record by record, compressing names against the
/// suffixes written before.
pub struct MdnsBuilder {
    msg: Vec<u8>,
    comp: NameCompressor,
    arcount: usize,
    ancount: usize,
}

/// The `0x0001` class, with the cache-flush bit when `flush`.
pub open spec fn rr_class(flush: bool) -> u16 {
    if flush {
        0x8001
    } else {
        0x0001
    }
}

impl MdnsBuilder {
    /// The body written so far (after the header).
    pub closed spec fn message(&self) -> Seq<u8> {
        self.msg@
    }

    /// Suffixes written so far and their offsets.
    pub closed spec fn suffixes(&self) -> Seq<(Seq<u8>, u16)> {
        self.comp.entries()
    }

    /// Answer records written so far.
    pub closed spec fn answers(&self) -> nat {
        self.ancount as nat
    }

    /// Additional records written so far.
    pub closed spec fn additionals(&self) -> nat {
        self.arcount as nat
    }

    pub fn new(cap: usize) -> (r: Self)
        ensures
            r.message() == Seq::<u8>::empty(),
            r.suffixes() == Seq::<(Seq<u8>, u16)>::empty(),
            r.answers() == 0,
            r.additionals() == 0,
    {
        MdnsBuilder { msg: Vec::with_capacity(cap), comp: NameCompressor::new(), arcount: 0, ancount: 0 }
    }

    /// The 12-byte header: id 0, flags `0x8400` (authoritative response), no questions,
    /// the answer count, no authority records, the additional count (counts modulo 2^16).
    pub fn build_header(&self) -> (r: [u8; 12])
        ensures
            r@ == seq![0u8, 0, 0x84, 0, 0, 0] + be16(self.answers() as u16) + seq![0u8, 0] + be16(self.additionals() as u16),
    {
        let an = self.ancount as u16;
        let ar = self.arcount as u16;
        let hdr: [u8; 12] = [0, 0, 0x84, 0, 0, 0, (an / 256) as u8, (an % 256) as u8, 0, 0, (ar / 256) as u8, (ar % 256) as u8];
        assert(hdr@ =~= seq![0u8, 0, 0x84, 0, 0, 0] + be16(an) + seq![0u8, 0] + be16(ar));
        hdr
    }

    pub fn build_data(self) -> (r: Vec<u8>)
        ensures
            r@ == self.message(),
    {
        self.msg
    }

    fn write_u16(&mut self, v: u16)
        ensures
            final(self).message() == old(self).message() + be16(v),
            final(self).comp == old(self).comp,
            final(self).answers() == old(self).answers(),
            final(self).additionals() == old(self).additionals(),
    {
        self.msg.push((v / 256) as u8);
        self.msg.push((v % 256) as u8);
    }

    fn write_u32(&mut self, v: u32)
        ensures
            final(self).message() == old(self).message() + be16((v / 0x1_0000) as u16) + be16((v % 0x1_0000) as u16),
            final(self).comp == old(self).comp,
            final(self).answers() == old(self).answers(),
            final(self).additionals() == old(self).additionals(),
    {
        self.write_u16((v / 0x1_0000) as u16);
        self.write_u16((v % 0x1_0000) as u16);
    }

    /// Writes the domain name `fqdn` (with a final dot): its labels up to the first suffix
    /// written before, then a pointer to that suffix, or the root label.
    pub fn write_name(&mut self, fqdn: &str)
        requires
            name_write(old(self).message(), old(self).suffixes(), fqdn.spec_bytes()) is Some,
        ensures
            name_write(old(self).message(), old(self).suffixes(), fqdn.spec_bytes()) == Some(
                (final(self).message(), final(self).suffixes()),
            ),
            final(self).answers() == old(self).answers(),
            final(self).additionals() == old(self).additionals(),
    {
        self.write_name_bytes(fqdn.as_bytes())
    }

    pub(crate) fn write_name_bytes(&mut self, fqdn: &[u8])
        requires
            name_write(old(self).message(), old(self).suffixes(), fqdn@) is Some,
        ensures
            name_write(old(self).message(), old(self).suffixes(), fqdn@) == Some((final(self).message(), final(self).suffixes())),
            final(self).answers() == old(self).answers(),
            final(self).additionals() == old(self).additionals(),
    {
        let labels = split_name(fqdn);
        let ghost ls = labels@.map_values(|v: Vec<u8>| v@);
        let ghost msg0 = self.msg@;
        let ghost comp0 = self.comp.entries();
        let n = labels.len();

        let mut best: Option<(usize, u16)> = None;
        let mut i: usize = 0;
        while i < n
            invariant_except_break
                i <= n,
                n == ls.len(),
                best is None,
                first_known_suffix(comp0, ls, 0) == first_known_suffix(comp0, ls, i as int),
            invariant
                ls == labels@.map_values(|v: Vec<u8>| v@),
                comp0 == self.comp.entries(),
            ensures
                match best {
                    Some((bi, off)) => first_known_suffix(comp0, ls, 0) == Some((bi as int, off)) && bi < n,
                    None => first_known_suffix(comp0, ls, 0) is None,
                },
            decreases n - i,
        {
            let key = suffix_key_bytes(&labels, i);
            if let Some(off) = self.comp.lookup(key.as_slice()) {
                best = Some((i, off));
                break;
            }
            i = i + 1;
        }

        let prefix_len = match best {
            Some((bi, _)) => bi,
            None => n,
        };

        let mut j: usize = 0;
        while j < prefix_len
            invariant
                j <= prefix_len <= n,
                n == ls.len(),
                ls == labels@.map_values(|v: Vec<u8>| v@),
                write_labels(msg0, comp0, ls, 0, prefix_len as int) == write_labels(self.msg@, self.comp.entries(), ls, j as int, prefix_len as int),
                write_labels(msg0, comp0, ls, 0, prefix_len as int) is Some,
                self.ancount == old(self).ancount,
                self.arcount == old(self).arcount,
            decreases prefix_len - j,
        {
            let offset = self.msg.len() as u16;
            assert(ls[j as int] == labels@[j as int]@);
            assert(offset as int + HEADER_SIZE as int <= 0xFFFF);
            let key = suffix_key_bytes(&labels, j);
            self.comp.remember_suffix(key, offset + HEADER_SIZE);
            let label = &labels[j];
            let ghost m = self.msg@;
            self.msg.push(label.len() as u8);
            self.msg.extend_from_slice(label.as_slice());
            proof {
                assert(self.msg@ =~= m + seq![ls[j as int].len() as u8] + ls[j as int]);
            }
            j = j + 1;
        }

        match best {
            Some((_, off)) => self.write_u16(0xC000 | (off & 0x3FFF)),
            None => self.msg.push(0),
        }
    }
}


/// Four bytes, big-endian.
pub open spec fn be32(v: u32) -> Seq<u8> {
    be16((v / 0x1_0000) as u16) + be16((v % 0x1_0000) as u16)
}

/// A record's name, type, class (with the cache-flush bit when `flush`) and TTL.
pub open spec fn record_head(msg: Seq<u8>, comp: Seq<(Seq<u8>, u16)>, name: Seq<u8>, rtype: u16, flush: bool, ttl: u32) -> Option<(Seq<u8>, Seq<(Seq<u8>, u16)>)> {
    match name_write(msg, comp, name) {
        None => None,
        Some((m, c)) => Some((m + be16(rtype) + be16(rr_class(flush)) + be32(ttl), c)),
    }
}

/// After the head `h`: the data length, then `pre` and the name `target` as record data.
pub open spec fn name_rdata(h: Seq<u8>, comp: Seq<(Seq<u8>, u16)>, pre: Seq<u8>, target: Seq<u8>) -> Option<(Seq<u8>, Seq<(Seq<u8>, u16)>)> {
    match name_write(h + seq![0u8, 0u8] + pre, comp, target) {
        None => None,
        Some((m, c)) => {
            let rd = m.subrange(h.len() as int + 2, m.len() as int);
            Some((h + be16(rd.len() as u16) + rd, c))
        },
    }
}

/// Each TXT entry behind its one-byte length.
pub open spec fn txt_rdata(entries: Seq<Seq<u8>>) -> Seq<u8>
    decreases entries.len(),
{
    if entries.len() == 0 {
        Seq::empty()
    } else {
        txt_rdata(entries.drop_last()) + seq![entries.last().len() as u8] + entries.last()
    }
}

/// The NSEC type bitmap of window 0: bit `7 - t % 8` of byte `t / 8` set for each type `t`.
pub open spec fn nsec_bitmap(types: Seq<u16>) -> Seq<u8>
    decreases types.len(),
{
    if types.len() == 0 {
        Seq::new(32, |i: int| 0u8)
    } else {
        let bm = nsec_bitmap(types.drop_last());
        let t = types.last();
        bm.update((t / 8) as int, bm[(t / 8) as int] | (1u8 << ((7 - t % 8) as u32)))
    }
}

/// Length of `bm[..k]` without its trailing zero bytes.
pub open spec fn trimmed_len(bm: Seq<u8>, k: int) -> int
    decreases k,
{
    if k > 0 && bm[k - 1] == 0 {
        trimmed_len(bm, k - 1)
    } else {
        k
    }
}

/// Every type number fits the 256 bits of window 0.
pub open spec fn types_in_window(types: Seq<u16>) -> bool {
    forall|i: int| 0 <= i < types.len() ==> #[trigger] types[i] < 256
}

/// An NSEC record body after the head `h`: data length, next name, window 0 and its bitmap.
pub open spec fn nsec_rdata(h: Seq<u8>, comp: Seq<(Seq<u8>, u16)>, next: Seq<u8>, types: Seq<u16>) -> Option<(Seq<u8>, Seq<(Seq<u8>, u16)>)> {
    match name_write(h + seq![0u8, 0u8], comp, next) {
        None => None,
        Some((m, c)) => {
            let bm = nsec_bitmap(types);
            let len = trimmed_len(bm, 32);
            let rd = m.subrange(h.len() as int + 2, m.len() as int) + seq![0u8, len as u8] + bm.subrange(0, len);
            Some((h + be16(rd.len() as u16) + rd, c))
        },
    }
}

/// Record with a fixed-size address after its head.
pub open spec fn addr_record(msg: Seq<u8>, comp: Seq<(Seq<u8>, u16)>, name: Seq<u8>, rtype: u16, ttl: u32, addr: Seq<u8>, flush: bool) -> Option<(Seq<u8>, Seq<(Seq<u8>, u16)>)> {
    match record_head(msg, comp, name, rtype, flush, ttl) {
        None => None,
        Some((h, c)) => Some((h + be16(addr.len() as u16) + addr, c)),
    }
}

pub open spec fn ptr_record(msg: Seq<u8>, comp: Seq<(Seq<u8>, u16)>, name: Seq<u8>, ttl: u32, target: Seq<u8>, flush: bool) -> Option<(Seq<u8>, Seq<(Seq<u8>, u16)>)> {
    match record_head(msg, comp, name, TYPE_PTR, flush, ttl) {
        None => None,
        Some((h, c)) => name_rdata(h, c, Seq::empty(), target),
    }
}

pub open spec fn srv_record(msg: Seq<u8>, comp: Seq<(Seq<u8>, u16)>, name: Seq<u8>, ttl: u32, port: u16, target: Seq<u8>, flush: bool) -> Option<(Seq<u8>, Seq<(Seq<u8>, u16)>)> {
    match record_head(msg, comp, name, TYPE_SRV, flush, ttl) {
        None => None,
        Some((h, c)) => name_rdata(h, c, be16(0) + be16(0) + be16(port), target),
    }
}

pub open spec fn txt_record(msg: Seq<u8>, comp: Seq<(Seq<u8>, u16)>, name: Seq<u8>, ttl: u32, entries: Seq<Seq<u8>>, flush: bool) -> Option<(Seq<u8>, Seq<(Seq<u8>, u16)>)> {
    match record_head(msg, comp, name, TYPE_TXT, flush, ttl) {
        None => None,
        Some((h, c)) => {
            let rd = txt_rdata(entries);
            Some((h + be16(rd.len() as u16) + rd, c))
        },
    }
}

pub open spec fn nsec_record(msg: Seq<u8>, comp: Seq<(Seq<u8>, u16)>, name: Seq<u8>, ttl: u32, next: Seq<u8>, types: Seq<u16>, flush: bool) -> Option<(Seq<u8>, Seq<(Seq<u8>, u16)>)> {
    match record_head(msg, comp, name, TYPE_NSEC, flush, ttl) {
        None => None,
        Some((h, c)) => nsec_rdata(h, c, next, types),
    }
}

impl MdnsBuilder {
    fn write_head(&mut self, name: &[u8], rtype: u16, flush: bool, ttl: u32)
        requires
            record_head(old(self).message(), old(self).suffixes(), name@, rtype, flush, ttl) is Some,
        ensures
            record_head(old(self).message(), old(self).suffixes(), name@, rtype, flush, ttl) == Some((final(self).message(), final(self).suffixes())),
            final(self).answers() == old(self).answers(),
            final(self).additionals() == old(self).additionals(),
    {
        self.write_name_bytes(name);
        self.write_u16(rtype);
        assert(0x0001u16 | 0x8000u16 == 0x8001u16) by (bit_vector);
        self.write_u16(if flush { CLASS_IN | CACHE_FLUSH } else { CLASS_IN });
        self.write_u32(ttl);
    }

    /// Overwrites the two bytes at `pos` with the number of bytes written since `start`.
    fn patch_rdlen(&mut self, pos: usize, start: usize)
        requires
            pos + 2 == start <= old(self).message().len(),
        ensures
            final(self).message() == old(self).message().subrange(0, pos as int) + be16((old(self).message().len() - start) as u16)
                + old(self).message().subrange(start as int, old(self).message().len() as int),
            final(self).comp == old(self).comp,
            final(self).answers() == old(self).answers(),
            final(self).additionals() == old(self).additionals(),
    {
        let rdlen = (self.msg.len() - start) as u16;
        self.msg.set(pos, (rdlen / 256) as u8);
        self.msg.set(pos + 1, (rdlen % 256) as u8);
        assert(self.msg@ =~= old(self).message().subrange(0, pos as int) + be16(rdlen) + old(self).message().subrange(start as int, old(self).message().len() as int));
    }

    pub(crate) fn address_record(&mut self, name: &[u8], rtype: u16, ttl: u32, addr: &[u8], flush: bool)
        requires
            addr@.len() <= 16,
            addr_record(old(self).message(), old(self).suffixes(), name@, rtype, ttl, addr@, flush) is Some,
            old(self).answers() < usize::MAX,
        ensures
            addr_record(old(self).message(), old(self).suffixes(), name@, rtype, ttl, addr@, flush) == Some((final(self).message(), final(self).suffixes())),
            final(self).answers() == old(self).answers() + 1,
            final(self).additionals() == old(self).additionals(),
    {
        self.write_head(name, rtype, flush, ttl);
        self.write_u16(addr.len() as u16);
        self.msg.extend_from_slice(addr);
        self.ancount += 1;
    }

    /// Writes an AAAA record for `name`.
    pub fn rr_aaaa(&mut self, name: &str, ttl: u32, addr: [u8; 16], flush: bool)
        requires
            addr_record(old(self).message(), old(self).suffixes(), name.spec_bytes(), TYPE_AAAA, ttl, addr@, flush) is Some,
            old(self).answers() < usize::MAX,
        ensures
            addr_record(old(self).message(), old(self).suffixes(), name.spec_bytes(), TYPE_AAAA, ttl, addr@, flush) == Some((final(self).message(), final(self).suffixes())),
            final(self).answers() == old(self).answers() + 1,
            final(self).additionals() == old(self).additionals(),
    {
        self.address_record(name.as_bytes(), TYPE_AAAA, ttl, addr.as_slice(), flush)
    }

    /// Writes an A record for `name`.
    pub fn rr_a(&mut self, name: &str, ttl: u32, addr: [u8; 4], flush: bool)
        requires
            addr_record(old(self).message(), old(self).suffixes(), name.spec_bytes(), TYPE_A, ttl, addr@, flush) is Some,
            old(self).answers() < usize::MAX,
        ensures
            addr_record(old(self).message(), old(self).suffixes(), name.spec_bytes(), TYPE_A, ttl, addr@, flush) == Some((final(self).message(), final(self).suffixes())),
            final(self).answers() == old(self).answers() + 1,
            final(self).additionals() == old(self).additionals(),
    {
        self.address_record(name.as_bytes(), TYPE_A, ttl, addr.as_slice(), flush)
    }

    pub(crate) fn ptr_record_bytes(&mut self, name: &[u8], ttl: u32, target: &[u8], flush: bool)
        requires
            ptr_record(old(self).message(), old(self).suffixes(), name@, ttl, target@, flush) is Some,
            old(self).answers() < usize::MAX,
        ensures
            ptr_record(old(self).message(), old(self).suffixes(), name@, ttl, target@, flush) == Some((final(self).message(), final(self).suffixes())),
            final(self).answers() == old(self).answers() + 1,
            final(self).additionals() == old(self).additionals(),
    {
        self.write_head(name, TYPE_PTR, flush, ttl);
        let ghost h = self.msg@;
        let rdlen_pos = self.msg.len();
        self.write_u16(0);
        let start = self.msg.len();
        proof {
            assert(self.msg@ =~= h + seq![0u8, 0u8] + Seq::<u8>::empty());
        }
        let ghost before_target = self.msg@;
        let ghost comp_before = self.comp.entries();
        self.write_name_bytes(target);
        let ghost m = self.msg@;
        proof {
            lemma_name_write_extends(before_target, comp_before, target@);
        }
        self.patch_rdlen(rdlen_pos, start);
        proof {
            assert(m.subrange(0, rdlen_pos as int) =~= h);
        }
        self.ancount += 1;
    }

    /// Writes a PTR record from `name` to `target`.
    pub fn rr_ptr(&mut self, name: &str, ttl: u32, target: &str, flush: bool)
        requires
            ptr_record(old(self).message(), old(self).suffixes(), name.spec_bytes(), ttl, target.spec_bytes(), flush) is Some,
            old(self).answers() < usize::MAX,
        ensures
            ptr_record(old(self).message(), old(self).suffixes(), name.spec_bytes(), ttl, target.spec_bytes(), flush) == Some((final(self).message(), final(self).suffixes())),
            final(self).answers() == old(self).answers() + 1,
            final(self).additionals() == old(self).additionals(),
    {
        self.ptr_record_bytes(name.as_bytes(), ttl, target.as_bytes(), flush)
    }

    pub(crate) fn srv_record_bytes(&mut self, name: &[u8], ttl: u32, port: u16, target: &[u8], flush: bool)
        requires
            srv_record(old(self).message(), old(self).suffixes(), name@, ttl, port, target@, flush) is Some,
            old(self).answers() < usize::MAX,
        ensures
            srv_record(old(self).message(), old(self).suffixes(), name@, ttl, port, target@, flush) == Some((final(self).message(), final(self).suffixes())),
            final(self).answers() == old(self).answers() + 1,
            final(self).additionals() == old(self).additionals(),
    {
        self.write_head(name, TYPE_SRV, flush, ttl);
        let ghost h = self.msg@;
        let rdlen_pos = self.msg.len();
        self.write_u16(0);
        let start = self.msg.len();
        self.write_u16(0);
        self.write_u16(0);
        self.write_u16(port);
        proof {
            assert(self.msg@ =~= h + seq![0u8, 0u8] + (be16(0) + be16(0) + be16(port)));
        }
        let ghost before_target = self.msg@;
        let ghost comp_before = self.comp.entries();
        self.write_name_bytes(target);
        let ghost m = self.msg@;
        proof {
            lemma_name_write_extends(before_target, comp_before, target@);
        }
        self.patch_rdlen(rdlen_pos, start);
        proof {
            assert(m.subrange(0, rdlen_pos as int) =~= h);
        }
        self.ancount += 1;
    }

    /// Writes an SRV record for `name` pointing to `target` at `port` (priority and weight 0).
    pub fn rr_srv(&mut self, name: &str, ttl: u32, port: u16, target: &str, flush: bool)
        requires
            srv_record(old(self).message(), old(self).suffixes(), name.spec_bytes(), ttl, port, target.spec_bytes(), flush) is Some,
            old(self).answers() < usize::MAX,
        ensures
            srv_record(old(self).message(), old(self).suffixes(), name.spec_bytes(), ttl, port, target.spec_bytes(), flush) == Some((final(self).message(), final(self).suffixes())),
            final(self).answers() == old(self).answers() + 1,
            final(self).additionals() == old(self).additionals(),
    {
        self.srv_record_bytes(name.as_bytes(), ttl, port, target.as_bytes(), flush)
    }

    pub(crate) fn txt_record_bytes(&mut self, name: &[u8], ttl: u32, entries: &[&[u8]], flush: bool)
        requires
            txt_record(old(self).message(), old(self).suffixes(), name@, ttl, entries@.map_values(|e: &[u8]| e@), flush) is Some,
            old(self).answers() < usize::MAX,
        ensures
            txt_record(old(self).message(), old(self).suffixes(), name@, ttl, entries@.map_values(|e: &[u8]| e@), flush) == Some((final(self).message(), final(self).suffixes())),
            final(self).answers() == old(self).answers() + 1,
            final(self).additionals() == old(self).additionals(),
    {
        let ghost es = entries@.map_values(|e: &[u8]| e@);
        self.write_head(name, TYPE_TXT, flush, ttl);
        let ghost h = self.msg@;
        let ghost c1 = self.comp;
        let rdlen_pos = self.msg.len();
        self.write_u16(0);
        let start = self.msg.len();
        let mut i: usize = 0;
        while i < entries.len()
            invariant
                i <= entries@.len(),
                es == entries@.map_values(|e: &[u8]| e@),
                start == rdlen_pos + 2,
                rdlen_pos == h.len(),
                self.msg@ == h + seq![0u8, 0u8] + txt_rdata(es.subrange(0, i as int)),
                self.comp == c1,
                self.ancount == old(self).ancount,
                self.arcount == old(self).arcount,
                record_head(old(self).message(), old(self).suffixes(), name@, TYPE_TXT, flush, ttl) == Some((h, self.comp.entries())),
            decreases entries@.len() - i,
        {
            let e = entries[i];
            proof {
                assert(es.subrange(0, i + 1).drop_last() =~= es.subrange(0, i as int));
                assert(es.subrange(0, i + 1).last() == e@);
            }
            self.msg.push(e.len() as u8);
            self.msg.extend_from_slice(e);
            proof {
                assert(self.msg@ =~= h + seq![0u8, 0u8] + txt_rdata(es.subrange(0, i + 1)));
            }
            i = i + 1;
        }
        proof {
            assert(es.subrange(0, entries@.len() as int) =~= es);
        }
        let ghost m = self.msg@;
        self.patch_rdlen(rdlen_pos, start);
        proof {
            assert(m.subrange(0, rdlen_pos as int) =~= h);
            assert(m.subrange(start as int, m.len() as int) =~= txt_rdata(es));
        }
        self.ancount += 1;
    }

    /// Writes a TXT record for `name` with the given entries.
    pub fn rr_txt(&mut self, name: &str, ttl: u32, entries: &[&[u8]], flush: bool)
        requires
            txt_record(old(self).message(), old(self).suffixes(), name.spec_bytes(), ttl, entries@.map_values(|e: &[u8]| e@), flush) is Some,
            old(self).answers() < usize::MAX,
        ensures
            txt_record(old(self).message(), old(self).suffixes(), name.spec_bytes(), ttl, entries@.map_values(|e: &[u8]| e@), flush)
                == Some((final(self).message(), final(self).suffixes())),
            final(self).answers() == old(self).answers() + 1,
            final(self).additionals() == old(self).additionals(),
    {
        self.txt_record_bytes(name.as_bytes(), ttl, entries, flush)
    }
}


/// The NSEC type bitmap for `types`.
fn nsec_bitmap_bytes(types: &[u16]) -> (r: [u8; 32])
    requires
        types_in_window(types@),
    ensures
        r@ == nsec_bitmap(types@),
{
    let mut bitmap: [u8; 32] = [0u8; 32];
    let mut i: usize = 0;
    proof {
        assert(types@.subrange(0, 0) =~= Seq::<u16>::empty());
        assert(bitmap@ =~= nsec_bitmap(Seq::<u16>::empty()));
    }
    while i < types.len()
        invariant
            i <= types@.len(),
            types_in_window(types@),
            bitmap@ == nsec_bitmap(types@.subrange(0, i as int)),
        decreases types@.len() - i,
    {
        let t = types[i];
        assert(t < 256);
        let idx = (t / 8) as usize;
        let shift: u32 = (7 - t % 8) as u32;
        let old_byte = bitmap[idx];
        bitmap[idx] = old_byte | (1u8 << shift);
        proof {
            assert(types@.subrange(0, i + 1).drop_last() =~= types@.subrange(0, i as int));
            assert(types@.subrange(0, i + 1).last() == t);
        }
        i = i + 1;
    }
    proof {
        assert(types@.subrange(0, types@.len() as int) =~= types@);
    }
    bitmap
}

impl MdnsBuilder {
    pub(crate) fn nsec_record_bytes(&mut self, name: &[u8], ttl: u32, next: &[u8], types: &[u16], flush: bool)
        requires
            types_in_window(types@),
            nsec_record(old(self).message(), old(self).suffixes(), name@, ttl, next@, types@, flush) is Some,
            old(self).additionals() < usize::MAX,
        ensures
            nsec_record(old(self).message(), old(self).suffixes(), name@, ttl, next@, types@, flush) == Some((final(self).message(), final(self).suffixes())),
            final(self).answers() == old(self).answers(),
            final(self).additionals() == old(self).additionals() + 1,
    {
        self.write_head(name, TYPE_NSEC, flush, ttl);
        let ghost h = self.msg@;
        let rdlen_pos = self.msg.len();
        self.write_u16(0);
        let start = self.msg.len();
        proof {
            assert(self.msg@ =~= h + seq![0u8, 0u8]);
        }
        let ghost before_next = self.msg@;
        let ghost comp_before = self.comp.entries();
        self.write_name_bytes(next);
        let ghost m = self.msg@;
        proof {
            lemma_name_write_extends(before_next, comp_before, next@);
        }
        let bitmap = nsec_bitmap_bytes(types);
        let mut len: usize = 32;
        while len > 0 && bitmap[len - 1] == 0
            invariant
                len <= 32,
                bitmap@.len() == 32,
                trimmed_len(bitmap@, 32) == trimmed_len(bitmap@, len as int),
            decreases len,
        {
            len = len - 1;
        }
        self.msg.push(0);
        self.msg.push(len as u8);
        self.msg.extend_from_slice(&bitmap[0..len]);
        let ghost m2 = self.msg@;
        self.patch_rdlen(rdlen_pos, start);
        proof {
            assert(m2.subrange(0, m.len() as int) =~= m);
            assert(m.subrange(0, before_next.len() as int) == before_next);
            assert(m2.subrange(0, rdlen_pos as int) =~= m.subrange(0, before_next.len() as int).subrange(0, rdlen_pos as int));
            assert(m2.subrange(0, rdlen_pos as int) =~= h);
            assert(m2.subrange(start as int, m2.len() as int) =~= m.subrange(h.len() as int + 2, m.len() as int)
                + seq![0u8, len as u8] + bitmap@.subrange(0, len as int));
        }
        self.arcount += 1;
    }

    /// Writes an NSEC record for `name` naming `next` and the record types in `types`
    /// (all below 256).
    pub fn rr_nsec(&mut self, name: &str, ttl: u32, next: &str, types: &[u16], flush: bool)
        requires
            types_in_window(types@),
            nsec_record(old(self).message(), old(self).suffixes(), name.spec_bytes(), ttl, next.spec_bytes(), types@, flush) is Some,
            old(self).additionals() < usize::MAX,
        ensures
            nsec_record(old(self).message(), old(self).suffixes(), name.spec_bytes(), ttl, next.spec_bytes(), types@, flush)
                == Some((final(self).message(), final(self).suffixes())),
            final(self).answers() == old(self).answers(),
            final(self).additionals() == old(self).additionals() + 1,
    {
        self.nsec_record_bytes(name.as_bytes(), ttl, next.as_bytes(), types, flush)
    }
}


/// Bytes that labels `j` up to `stop` take when written: each label and its length byte.
pub open spec fn labels_size(ls: Seq<Seq<u8>>, j: int, stop: int) -> int
    decreases stop - j,
{
    if j >= stop || j < 0 {
        0
    } else {
        ls[j].len() + 1 + labels_size(ls, j + 1, stop)
    }
}

proof fn lemma_labels_size_shift(x: Seq<u8>, rest: Seq<Seq<u8>>, j: int, stop: int)
    requires
        1 <= j <= stop <= rest.len() + 1,
    ensures
        labels_size(seq![x] + rest, j, stop) == labels_size(rest, j - 1, stop - 1),
    decreases stop - j,
{
    if j < stop {
        assert((seq![x] + rest)[j] == rest[j - 1]);
        lemma_labels_size_shift(x, rest, j + 1, stop);
    }
}

proof fn lemma_labels_size_mono(ls: Seq<Seq<u8>>, j: int, stop: int, n: int)
    requires
        0 <= j,
        stop <= n,
    ensures
        labels_size(ls, j, stop) <= labels_size(ls, j, n),
    decreases n - j,
{
    if j < stop {
        lemma_labels_size_mono(ls, j + 1, stop, n);
    } else {
        lemma_labels_size_nonneg(ls, j, n);
    }
}

proof fn lemma_split_size(t: Seq<u8>)
    ensures
        labels_size(split_dots(t), 0, split_dots(t).len() as int) == t.len() + 1,
    decreases t.len(),
{
    lemma_first_dot_bounds(t);
    let p = first_dot(t);
    if p >= t.len() {
        assert(labels_size(seq![t], 1, 1) == 0);
    } else {
        let rest_t = t.subrange(p + 1, t.len() as int);
        lemma_split_size(rest_t);
        let rest = split_dots(rest_t);
        let x = t.subrange(0, p);
        lemma_labels_size_shift(x, rest, 1, rest.len() as int + 1);
        assert((seq![x] + rest)[0] == x);
    }
}

proof fn lemma_trim_dots_len(b: Seq<u8>)
    ensures
        trim_dots(b).len() <= b.len(),
    decreases b.len(),
{
    if b.len() > 0 && b.last() == 0x2E {
        lemma_trim_dots_len(b.drop_last());
    }
}

proof fn lemma_write_labels_size(msg: Seq<u8>, comp: Seq<(Seq<u8>, u16)>, ls: Seq<Seq<u8>>, j: int, stop: int)
    requires
        0 <= j,
        stop <= ls.len(),
        msg.len() + labels_size(ls, j, stop) <= 65524,
    ensures
        write_labels(msg, comp, ls, j, stop) matches Some((m, _)) && m.len() == msg.len() + labels_size(ls, j, stop),
    decreases stop - j,
{
    if j < stop {
        let off = (msg.len() as u16) as int + HEADER_SIZE as int;
        lemma_labels_size_nonneg(ls, j + 1, stop);
        assert(msg.len() <= 65523);
        assert((msg.len() as u16) == msg.len());
        let m1 = msg + seq![ls[j].len() as u8] + ls[j];
        lemma_write_labels_size(m1, comp_remember(comp, suffix_key(ls, j), off as u16), ls, j + 1, stop);
    }
}

/// A name fits when the message and the name stay below the 16-bit offsets; it then takes at
/// most three bytes more than its text.
pub proof fn lemma_name_write_size(msg: Seq<u8>, comp: Seq<(Seq<u8>, u16)>, name: Seq<u8>)
    requires
        msg.len() + name.len() + 1 <= 65524,
    ensures
        name_write(msg, comp, name) matches Some((m, _)) && msg.len() <= m.len() <= msg.len() + name.len() + 3,
{
    let t = trim_dots(name);
    lemma_trim_dots_len(name);
    let labels = name_labels(name);
    lemma_split_size(t);
    let best = first_known_suffix(comp, labels, 0);
    let stop = match best {
        Some((i, _)) => i,
        None => labels.len() as int,
    };
    lemma_first_known_bounds(comp, labels, 0);
    lemma_labels_size_mono(labels, 0, stop, labels.len() as int);
    lemma_labels_size_nonneg(labels, 0, stop);
    lemma_write_labels_size(msg, comp, labels, 0, stop);
}

proof fn lemma_labels_size_nonneg(ls: Seq<Seq<u8>>, j: int, stop: int)
    ensures
        labels_size(ls, j, stop) >= 0,
    decreases stop - j,
{
    if j < stop && j >= 0 {
        lemma_labels_size_nonneg(ls, j + 1, stop);
    }
}

proof fn lemma_first_known_bounds(comp: Seq<(Seq<u8>, u16)>, labels: Seq<Seq<u8>>, i: int)
    requires
        0 <= i,
    ensures
        first_known_suffix(comp, labels, i) matches Some((k, _)) ==> i <= k < labels.len(),
    decreases labels.len() - i,
{
    if i < labels.len() && comp_lookup(comp, suffix_key(labels, i)) is None {
        lemma_first_known_bounds(comp, labels, i + 1);
    }
}


/// Length of the message a write produced (0 if it failed).
pub open spec fn written_len(o: Option<(Seq<u8>, Seq<(Seq<u8>, u16)>)>) -> int {
    match o {
        Some((m, _)) => m.len() as int,
        None => 0,
    }
}

proof fn lemma_record_head_size(msg: Seq<u8>, comp: Seq<(Seq<u8>, u16)>, name: Seq<u8>, rtype: u16, flush: bool, ttl: u32)
    requires
        msg.len() + name.len() + 1 <= 65524,
    ensures
        record_head(msg, comp, name, rtype, flush, ttl) matches Some((h, _)) && msg.len() <= h.len() <= msg.len() + name.len() + 13,
{
    lemma_name_write_size(msg, comp, name);
}

/// Records fit while the message stays below the 16-bit offsets, and grow it by at most their
/// names and data plus a fixed overhead.
pub proof fn lemma_record_sizes(msg: Seq<u8>, comp: Seq<(Seq<u8>, u16)>, name: Seq<u8>, ttl: u32, flush: bool)
    requires
        msg.len() + name.len() + 1 <= 65524,
    ensures
        forall|addr: Seq<u8>, rtype: u16| #[trigger] addr_record(msg, comp, name, rtype, ttl, addr, flush) matches Some((m, _))
            && m.len() <= msg.len() + name.len() + 15 + addr.len(),
        forall|entries: Seq<Seq<u8>>| #[trigger] txt_record(msg, comp, name, ttl, entries, flush) matches Some((m, _))
            && m.len() == written_len(record_head(msg, comp, name, TYPE_TXT, flush, ttl)) + 2 + txt_rdata(entries).len()
            && m.len() <= msg.len() + name.len() + 15 + txt_rdata(entries).len(),
        forall|target: Seq<u8>| msg.len() + name.len() + target.len() + 22 <= 65524 ==> (#[trigger] ptr_record(msg, comp, name, ttl, target, flush) matches Some((m, _))
            && m.len() <= msg.len() + name.len() + target.len() + 18),
        forall|port: u16, target: Seq<u8>| msg.len() + name.len() + target.len() + 22 <= 65524 ==> (#[trigger] srv_record(msg, comp, name, ttl, port, target, flush) matches Some((m, _))
            && m.len() <= msg.len() + name.len() + target.len() + 24),
        forall|next: Seq<u8>, types: Seq<u16>| msg.len() + name.len() + next.len() + 22 <= 65524 && types_in_window(types) ==> (#[trigger] nsec_record(msg, comp, name, ttl, next, types, flush) matches Some((m, _))
            && m.len() <= msg.len() + name.len() + next.len() + 52),
{
    assert forall|addr: Seq<u8>, rtype: u16| #[trigger] addr_record(msg, comp, name, rtype, ttl, addr, flush) matches Some((m, _))
        && m.len() <= msg.len() + name.len() + 15 + addr.len() by {
        lemma_record_head_size(msg, comp, name, rtype, flush, ttl);
    }
    assert forall|entries: Seq<Seq<u8>>| #[trigger] txt_record(msg, comp, name, ttl, entries, flush) matches Some((m, _))
        && m.len() == written_len(record_head(msg, comp, name, TYPE_TXT, flush, ttl)) + 2 + txt_rdata(entries).len()
        && m.len() <= msg.len() + name.len() + 15 + txt_rdata(entries).len() by {
        lemma_record_head_size(msg, comp, name, TYPE_TXT, flush, ttl);
    }
    assert forall|target: Seq<u8>| msg.len() + name.len() + target.len() + 22 <= 65524 implies (#[trigger] ptr_record(msg, comp, name, ttl, target, flush) matches Some((m, _))
        && m.len() <= msg.len() + name.len() + target.len() + 18) by {
        lemma_record_head_size(msg, comp, name, TYPE_PTR, flush, ttl);
        let (h, c) = record_head(msg, comp, name, TYPE_PTR, flush, ttl)->0;
        lemma_name_write_size(h + seq![0u8, 0u8] + Seq::<u8>::empty(), c, target);
    }
    assert forall|port: u16, target: Seq<u8>| msg.len() + name.len() + target.len() + 22 <= 65524 implies (#[trigger] srv_record(msg, comp, name, ttl, port, target, flush) matches Some((m, _))
        && m.len() <= msg.len() + name.len() + target.len() + 24) by {
        lemma_record_head_size(msg, comp, name, TYPE_SRV, flush, ttl);
        let (h, c) = record_head(msg, comp, name, TYPE_SRV, flush, ttl)->0;
        lemma_name_write_size(h + seq![0u8, 0u8] + (be16(0) + be16(0) + be16(port)), c, target);
    }
    assert forall|next: Seq<u8>, types: Seq<u16>| msg.len() + name.len() + next.len() + 22 <= 65524 && types_in_window(types) implies (#[trigger] nsec_record(msg, comp, name, ttl, next, types, flush) matches Some((m, _))
        && m.len() <= msg.len() + name.len() + next.len() + 52) by {
        lemma_record_head_size(msg, comp, name, TYPE_NSEC, flush, ttl);
        let (h, c) = record_head(msg, comp, name, TYPE_NSEC, flush, ttl)->0;
        lemma_name_write_size(h + seq![0u8, 0u8], c, next);
        let bm = nsec_bitmap(types);
        lemma_nsec_bitmap_len(types);
        lemma_trimmed_len_bounds(bm, 32);
    }
}

proof fn lemma_nsec_bitmap_len(types: Seq<u16>)
    requires
        types_in_window(types),
    ensures
        nsec_bitmap(types).len() == 32,
    decreases types.len(),
{
    if types.len() > 0 {
        assert(types_in_window(types.drop_last())) by {
            assert forall|i: int| 0 <= i < types.drop_last().len() implies #[trigger] types.drop_last()[i] < 256 by {
                assert(types.drop_last()[i] == types[i]);
            }
        }
        lemma_nsec_bitmap_len(types.drop_last());
        assert(types.last() == types[types.len() - 1]);
    }
}

proof fn lemma_trimmed_len_bounds(bm: Seq<u8>, k: int)
    requires
        0 <= k,
    ensures
        0 <= trimmed_len(bm, k) <= k,
    decreases k,
{
    if k > 0 && bm[k - 1] == 0 {
        lemma_trimmed_len_bounds(bm, k - 1);
    }
}

/// Two writes agree in shape: both failed, or both succeeded with messages of one length
/// and the same remembered suffixes.
pub open spec fn same_shape(o1: Option<(Seq<u8>, Seq<(Seq<u8>, u16)>)>, o2: Option<(Seq<u8>, Seq<(Seq<u8>, u16)>)>) -> bool {
    match (o1, o2) {
        (Some((a, c)), Some((b, d))) => a.len() == b.len() && c == d,
        (None, None) => true,
        _ => false,
    }
}

proof fn lemma_write_labels_shape(m1: Seq<u8>, m2: Seq<u8>, comp: Seq<(Seq<u8>, u16)>, labels: Seq<Seq<u8>>, j: int, stop: int)
    requires
        m1.len() == m2.len(),
    ensures
        same_shape(write_labels(m1, comp, labels, j, stop), write_labels(m2, comp, labels, j, stop)),
    decreases stop - j,
{
    if j < stop && j >= 0 {
        let off = (m1.len() as u16) as int + HEADER_SIZE as int;
        if off <= 0xFFFF {
            lemma_write_labels_shape(
                m1 + seq![labels[j].len() as u8] + labels[j],
                m2 + seq![labels[j].len() as u8] + labels[j],
                comp_remember(comp, suffix_key(labels, j), off as u16),
                labels,
                j + 1,
                stop,
            );
        }
    }
}

/// Whether an address record fits, how long it makes the message and which suffixes it
/// remembers depend on the message only through its length.
pub proof fn lemma_addr_record_shape(
    m1: Seq<u8>,
    m2: Seq<u8>,
    comp: Seq<(Seq<u8>, u16)>,
    name: Seq<u8>,
    rtype: u16,
    ttl: u32,
    addr: Seq<u8>,
    flush: bool,
)
    requires
        m1.len() == m2.len(),
    ensures
        same_shape(addr_record(m1, comp, name, rtype, ttl, addr, flush), addr_record(m2, comp, name, rtype, ttl, addr, flush)),
{
    let labels = name_labels(name);
    let stop = match first_known_suffix(comp, labels, 0) {
        Some((i, _)) => i,
        None => labels.len() as int,
    };
    lemma_write_labels_shape(m1, m2, comp, labels, 0, stop);
}

} // verus!
