use vstd::prelude::*;
use vstd::string::StringSliceAdditionalSpecFns;

use crate::bonjour::dns_parse::{be16_at, message_spec, name_from, questions_from, records_from, utf8_valid};
use crate::bonjour::mdns_coder::{be16, join_dots, lemma_join_push, name_labels, split_name, CLASS_IN, TYPE_A, TYPE_AAAA, TYPE_PTR};

verus! {

/// A label as a query writes it: cut to 255 bytes, behind its length.
pub open spec fn query_label(l: Seq<u8>) -> Seq<u8> {
    let take = if l.len() > 255 { 255 } else { l.len() as int };
    seq![take as u8] + l.subrange(0, take)
}

/// The labels as a query writes them, in order.
pub open spec fn query_labels(ls: Seq<Seq<u8>>) -> Seq<u8>
    decreases ls.len(),
{
    if ls.len() == 0 {
        Seq::empty()
    } else {
        query_labels(ls.drop_last()) + query_label(ls.last())
    }
}

/// A question for `name`: its labels (without compression), the root label, the type
/// `qtype` and class IN.
pub open spec fn question_bytes(name: Seq<u8>, qtype: u16) -> Seq<u8> {
    query_labels(name_labels(name)) + seq![0u8] + be16(qtype) + be16(CLASS_IN)
}

/// The header of a query with `qd` questions and nothing else.
pub open spec fn query_header(qd: u16) -> Seq<u8> {
    seq![0u8, 0, 0, 0] + be16(qd) + seq![0u8, 0, 0, 0, 0, 0]
}

fn push_be16(out: &mut Vec<u8>, v: u16)
    ensures
        final(out)@ == old(out)@ + be16(v),
{
    out.push((v / 256) as u8);
    out.push((v % 256) as u8);
}

/// Appends a question for `name` of type `qtype`.
pub fn write_question(out: &mut Vec<u8>, name: &str, qtype: u16)
    ensures
        final(out)@ == old(out)@ + question_bytes(name.spec_bytes(), qtype),
{
    let labels = split_name(name.as_bytes());
    let ghost ls = labels@.map_values(|v: Vec<u8>| v@);
    let ghost start = out@;
    let mut i: usize = 0;
    while i < labels.len()
        invariant
            i <= labels@.len(),
            ls == labels@.map_values(|v: Vec<u8>| v@),
            out@ == start + query_labels(ls.subrange(0, i as int)),
        decreases labels@.len() - i,
    {
        let label = &labels[i];
        let take = if label.len() > 255 { 255 } else { label.len() };
        out.push(take as u8);
        out.extend_from_slice(&label.as_slice()[0..take]);
        proof {
            assert(ls.subrange(0, i + 1).drop_last() =~= ls.subrange(0, i as int));
            assert(ls.subrange(0, i + 1).last() == label@);
            assert(out@ =~= start + query_labels(ls.subrange(0, i + 1)));
        }
        i = i + 1;
    }
    proof {
        assert(ls.subrange(0, ls.len() as int) =~= ls);
    }
    out.push(0);
    push_be16(out, qtype);
    push_be16(out, CLASS_IN);
    proof {
        assert(out@ =~= start + question_bytes(name.spec_bytes(), qtype));
    }
}

/// A query for the PTR records of `service_type`.
pub fn build_ptr_query_packet(service_type: &str) -> (r: Vec<u8>)
    ensures
        r@ == query_header(1) + question_bytes(service_type.spec_bytes(), TYPE_PTR),
{
    let mut out: Vec<u8> = Vec::with_capacity(128);
    push_be16(&mut out, 0);
    push_be16(&mut out, 0);
    push_be16(&mut out, 1);
    push_be16(&mut out, 0);
    push_be16(&mut out, 0);
    push_be16(&mut out, 0);
    assert(out@ =~= query_header(1));
    write_question(&mut out, service_type, TYPE_PTR);
    out
}

/// A query for the A and AAAA records of `hostname`.
pub fn build_addr_query_packet(hostname: &str) -> (r: Vec<u8>)
    ensures
        r@ == query_header(2) + question_bytes(hostname.spec_bytes(), TYPE_A) + question_bytes(hostname.spec_bytes(), TYPE_AAAA),
{
    let mut out: Vec<u8> = Vec::with_capacity(160);
    push_be16(&mut out, 0);
    push_be16(&mut out, 0);
    push_be16(&mut out, 2);
    push_be16(&mut out, 0);
    push_be16(&mut out, 0);
    push_be16(&mut out, 0);
    assert(out@ =~= query_header(2));
    write_question(&mut out, hostname, TYPE_A);
    write_question(&mut out, hostname, TYPE_AAAA);
    out
}

/// Index of the first label that starts with `_`, from `i` on.
pub open spec fn first_underscore(ls: Seq<Seq<u8>>, i: int) -> Option<int>
    decreases ls.len() - i,
{
    if i < 0 || i >= ls.len() {
        None
    } else if ls[i].len() > 0 && ls[i][0] == 0x5F {
        Some(i)
    } else {
        first_underscore(ls, i + 1)
    }
}

/// The instance and service type of a full service name: the labels before the first one
/// that starts with `_`, and the labels from it on (with a final dot); `None` with fewer
/// than four labels, or when that label is missing, first, or among the last two.
pub open spec fn split_fullname_spec(fullname: Seq<u8>) -> Option<(Seq<u8>, Seq<u8>)> {
    let ls = name_labels(fullname);
    if ls.len() < 4 {
        None
    } else {
        match first_underscore(ls, 0) {
            None => None,
            Some(idx) => if idx == 0 || idx + 2 >= ls.len() {
                None
            } else {
                Some((join_dots(ls.subrange(0, idx)), join_dots(ls.subrange(idx, ls.len() as int)).push(0x2E)))
            },
        }
    }
}

/// `labels` joined with dots.
fn join_labels(labels: &Vec<Vec<u8>>, from: usize, to: usize) -> (r: Vec<u8>)
    requires
        from <= to <= labels@.len(),
    ensures
        r@ == join_dots(labels@.map_values(|v: Vec<u8>| v@).subrange(from as int, to as int)),
    decreases to - from,
{
    let ghost ls = labels@.map_values(|v: Vec<u8>| v@);
    if from == to {
        return Vec::new();
    }
    let mut out: Vec<u8> = Vec::new();
    out.extend_from_slice(labels[from].as_slice());
    if from + 1 == to {
        proof {
            assert(ls.subrange(from as int, to as int).len() == 1);
        }
        return out;
    }
    let rest = join_labels(labels, from + 1, to);
    out.push(0x2E);
    out.extend_from_slice(rest.as_slice());
    proof {
        assert(ls.subrange(from as int, to as int).drop_first() =~= ls.subrange(from + 1, to as int));
    }
    out
}

/// Splits a full service name into its instance and service type (with a final dot).
pub fn split_instance_and_service_type(fullname: &str) -> (r: Option<(Vec<u8>, Vec<u8>)>)
    ensures
        match split_fullname_spec(fullname.spec_bytes()) {
            None => r is None,
            Some((inst, st)) => r matches Some((a, b)) && a@ == inst && b@ == st,
        },
{
    split_fullname(fullname.as_bytes())
}

/// Splits the bytes of a full service name into its instance and service type (with a
/// final dot).
pub fn split_fullname(fullname: &[u8]) -> (r: Option<(Vec<u8>, Vec<u8>)>)
    ensures
        match split_fullname_spec(fullname@) {
            None => r is None,
            Some((inst, st)) => r matches Some((a, b)) && a@ == inst && b@ == st,
        },
{
    let labels = split_name(fullname);
    let ghost ls = labels@.map_values(|v: Vec<u8>| v@);
    let n = labels.len();
    if n < 4 {
        return None;
    }
    let mut idx: usize = 0;
    while idx < n && !(labels[idx].len() > 0 && labels[idx][0] == 0x5F)
        invariant
            idx <= n,
            n == labels@.len(),
            ls == labels@.map_values(|v: Vec<u8>| v@),
            first_underscore(ls, 0) == first_underscore(ls, idx as int),
        decreases n - idx,
    {
        idx = idx + 1;
    }
    if idx == n {
        return None;
    }
    if idx == 0 || idx >= n - 2 {
        return None;
    }
    let instance = join_labels(&labels, 0, idx);
    let mut service_type = join_labels(&labels, idx, n);
    service_type.push(0x2E);
    Some((instance, service_type))
}

/// The labels that a reader takes back as they were written: not empty, shorter than 192
/// bytes (so that the length is not read as a pointer) and valid UTF-8.
pub open spec fn readable_labels(ls: Seq<Seq<u8>>) -> bool {
    forall|i: int| 0 <= i < ls.len() ==> 0 < (#[trigger] ls[i]).len() < 192 && utf8_valid(ls[i])
}

proof fn lemma_query_labels_concat(a: Seq<Seq<u8>>, b: Seq<Seq<u8>>)
    ensures
        query_labels(a + b) == query_labels(a) + query_labels(b),
    decreases b.len(),
{
    if b.len() > 0 {
        assert((a + b).drop_last() =~= a + b.drop_last());
        lemma_query_labels_concat(a, b.drop_last());
    } else {
        assert(a + b =~= a);
    }
}

/// Reading the labels written from label `k` on, with the name read so far, gives the whole
/// name with a final dot and the position after the root label.
proof fn lemma_read_query_labels(pre: Seq<u8>, ls: Seq<Seq<u8>>, tail: Seq<u8>, k: int)
    requires
        0 <= k <= ls.len(),
        ls.len() > 0,
        readable_labels(ls),
    ensures
        name_from(
            pre + query_labels(ls) + seq![0u8] + tail,
            pre.len() + query_labels(ls.subrange(0, k)).len() as int,
            0,
            join_dots(ls.subrange(0, k)),
            None,
        ) == Some((join_dots(ls).push(0x2E), (pre.len() + query_labels(ls).len() + 1) as int)),
    decreases ls.len() - k,
{
    let buf = pre + query_labels(ls) + seq![0u8] + tail;
    let head = ls.subrange(0, k);
    let pos: int = (pre.len() + query_labels(head).len()) as int;
    lemma_query_labels_concat(head, ls.subrange(k, ls.len() as int));
    assert(head + ls.subrange(k, ls.len() as int) =~= ls);
    if k == ls.len() {
        assert(head =~= ls);
        assert(buf[pos] == 0);
        assert(0u8 & 0xC0 != 0xC0) by (bit_vector);
    } else {
        let x = ls[k];
        let next = ls.subrange(0, k + 1);
        assert(next.drop_last() =~= head);
        assert(next.last() == x);
        assert(query_labels(next) == query_labels(head) + query_label(x));
        assert(query_label(x) =~= seq![x.len() as u8] + x);
        lemma_query_labels_concat(next, ls.subrange(k + 1, ls.len() as int));
        assert(next + ls.subrange(k + 1, ls.len() as int) =~= ls);
        let qn = query_labels(next);
        assert(buf.subrange(pre.len() as int, pre.len() + qn.len() as int) =~= qn);
        assert(buf[pos] == x.len() as u8);
        let lb: u8 = x.len() as u8;
        assert(lb & 0xC0 != 0xC0) by (bit_vector)
            requires
                lb < 192,
        ;
        assert(buf.subrange(pos + 1, pos + 1 + x.len() as int) =~= x);
        assert(utf8_valid(x));
        assert(x.len() > 0);
        assert(lb as int == x.len());
        lemma_read_query_labels(pre, ls, tail, k + 1);
        if k == 0 {
            assert(head =~= Seq::<Seq<u8>>::empty());
            assert(join_dots(head) =~= Seq::<u8>::empty());
            assert(next =~= seq![x]);
            assert(join_dots(next) == x);
            assert(Seq::<u8>::empty() + Seq::<u8>::empty() + x =~= x);
        } else {
            lemma_join_push(head, x);
            assert(next =~= head.push(x));
            assert(join_dots(head).len() > 0) by {
                lemma_join_nonempty(head);
            }
        }
    }
}

proof fn lemma_join_nonempty(ls: Seq<Seq<u8>>)
    requires
        ls.len() > 0,
        ls[0].len() > 0,
    ensures
        join_dots(ls).len() > 0,
{
}

/// A query for the PTR records of a service type reads back as one question for that name,
/// its labels joined with dots and a final dot, and nothing else, when its labels are read
/// back as written.
pub proof fn lemma_ptr_query_reads_back(service_type: Seq<u8>)
    requires
        readable_labels(name_labels(service_type)),
    ensures
        message_spec(query_header(1) + question_bytes(service_type, TYPE_PTR)) == Some(
            (false, seq![join_dots(name_labels(service_type)).push(0x2E)], Seq::<(Seq<u8>, u32, super::dns_parse::RDataView)>::empty()),
        ),
{
    let ls = name_labels(service_type);
    let hdr = query_header(1);
    let tail = be16(TYPE_PTR) + be16(CLASS_IN);
    let buf = hdr + question_bytes(service_type, TYPE_PTR);
    lemma_name_labels_nonempty(service_type);
    assert(buf =~= hdr + query_labels(ls) + seq![0u8] + tail);
    lemma_read_query_labels(hdr, ls, tail, 0);
    assert(ls.subrange(0, 0) =~= Seq::<Seq<u8>>::empty());
    assert(join_dots(ls.subrange(0, 0)) =~= Seq::<u8>::empty());
    let name = join_dots(ls).push(0x2E);
    let p: int = (hdr.len() + query_labels(ls).len() + 1) as int;
    assert(buf.len() == p + 4);
    assert(be16_at(buf, 4) == 1);
    assert(be16_at(buf, 6) == 0 && be16_at(buf, 8) == 0 && be16_at(buf, 10) == 0);
    assert(questions_from(buf, p + 4, 0) == Some((Seq::<Seq<u8>>::empty(), p + 4)));
    assert(questions_from(buf, 12, 1) == Some((seq![name] + Seq::<Seq<u8>>::empty(), p + 4)));
    assert(seq![name] + Seq::<Seq<u8>>::empty() =~= seq![name]);
    assert(buf[2] == 0);
    assert(0u8 & 0x80 == 0) by (bit_vector);
}

/// A query for the addresses of a host reads back as two questions for that name, its
/// labels joined with dots and a final dot, and nothing else, when its labels are read back
/// as written.
pub proof fn lemma_addr_query_reads_back(hostname: Seq<u8>)
    requires
        readable_labels(name_labels(hostname)),
    ensures
        message_spec(query_header(2) + question_bytes(hostname, TYPE_A) + question_bytes(hostname, TYPE_AAAA))
            == Some(
            (
                false,
                seq![join_dots(name_labels(hostname)).push(0x2E), join_dots(name_labels(hostname)).push(0x2E)],
                Seq::<(Seq<u8>, u32, super::dns_parse::RDataView)>::empty(),
            ),
        ),
{
    let ls = name_labels(hostname);
    let hdr = query_header(2);
    let qa = question_bytes(hostname, TYPE_A);
    let qaaaa = question_bytes(hostname, TYPE_AAAA);
    let buf = hdr + qa + qaaaa;
    lemma_name_labels_nonempty(hostname);
    assert(ls.subrange(0, 0) =~= Seq::<Seq<u8>>::empty());
    assert(join_dots(ls.subrange(0, 0)) =~= Seq::<u8>::empty());
    let tail1 = be16(TYPE_A) + be16(CLASS_IN) + qaaaa;
    assert(buf =~= hdr + query_labels(ls) + seq![0u8] + tail1);
    lemma_read_query_labels(hdr, ls, tail1, 0);
    let pre2 = hdr + qa;
    let tail2 = be16(TYPE_AAAA) + be16(CLASS_IN);
    assert(buf =~= pre2 + query_labels(ls) + seq![0u8] + tail2);
    lemma_read_query_labels(pre2, ls, tail2, 0);
    let name = join_dots(ls).push(0x2E);
    let p1: int = (hdr.len() + query_labels(ls).len() + 1) as int;
    let p2: int = (pre2.len() + query_labels(ls).len() + 1) as int;
    assert(p1 + 4 == pre2.len());
    assert(buf.len() == p2 + 4);
    assert(be16_at(buf, 4) == 2);
    assert(be16_at(buf, 6) == 0 && be16_at(buf, 8) == 0 && be16_at(buf, 10) == 0);
    assert(questions_from(buf, p2 + 4, 0) == Some((Seq::<Seq<u8>>::empty(), p2 + 4)));
    assert(questions_from(buf, p1 + 4, 1) == Some((seq![name] + Seq::<Seq<u8>>::empty(), p2 + 4)));
    assert(seq![name] + Seq::<Seq<u8>>::empty() =~= seq![name]);
    assert(questions_from(buf, 12, 2) == Some((seq![name] + seq![name], p2 + 4)));
    assert(seq![name] + seq![name] =~= seq![name, name]);
    assert(buf[2] == 0);
    assert(0u8 & 0x80 == 0) by (bit_vector);
}

/// A name splits into at least one label.
proof fn lemma_name_labels_nonempty(name: Seq<u8>)
    ensures
        name_labels(name).len() > 0,
{
    crate::bonjour::mdns_coder::lemma_split_dots_nonempty(crate::bonjour::mdns_coder::trim_dots(name));
}

} // verus!
