use vstd::prelude::*;
use crate::video::annexb_iter::{START_CODE, start_code_at};
use crate::video::avcc::{
    nal_ranges, nal_ranges_of, nals_where, length_records, parse_records, be16, avcc_serialize_spec,
    avcc_deserialize_spec, avc_sps_list, avc_pps_list, avc_type_is, header_type,
};
use crate::video::hvcc::{
    hevc_list, hvcc_array, hvcc_header, hvcc_skeleton, hvcc_serialize_spec, hvcc_deserialize_spec, parse_arrays, ptl_spec,
};

verus! {

/// The NALs written one after the other, each behind a four-byte start code.
pub open spec fn annexb_join(ns: Seq<Seq<u8>>) -> Seq<u8>
    decreases ns.len(),
{
    if ns.len() == 0 {
        Seq::empty()
    } else {
        START_CODE@ + ns[0] + annexb_join(ns.subrange(1, ns.len() as int))
    }
}

/// Where the start code of NAL `i` begins in `annexb_join(ns)`.
pub open spec fn join_offset(ns: Seq<Seq<u8>>, i: int) -> int
    decreases i,
{
    if i <= 0 {
        0
    } else {
        join_offset(ns, i - 1) + 4 + ns[i - 1].len()
    }
}

/// No start code begins anywhere in `n`.
pub open spec fn free_of_start_codes(n: Seq<u8>) -> bool {
    forall|p: int| !#[trigger] start_code_at(n, p)
}

proof fn lemma_join_offset_tail(ns: Seq<Seq<u8>>, i: int)
    requires
        1 <= i <= ns.len(),
    ensures
        join_offset(ns, i) == 4 + ns[0].len() + join_offset(ns.subrange(1, ns.len() as int), i - 1),
    decreases i,
{
    let tail = ns.subrange(1, ns.len() as int);
    assert(join_offset(ns, i) == join_offset(ns, i - 1) + 4 + ns[i - 1].len());
    if i > 1 {
        lemma_join_offset_tail(ns, i - 1);
        assert(tail[i - 2] == ns[i - 1]);
        assert(join_offset(tail, i - 1) == join_offset(tail, i - 2) + 4 + tail[i - 2].len());
    } else {
        assert(join_offset(ns, 0) == 0);
        assert(join_offset(tail, 0) == 0);
    }
}

proof fn lemma_join_offset_mono(ns: Seq<Seq<u8>>, i: int, j: int)
    requires
        0 <= i <= j <= ns.len(),
    ensures
        join_offset(ns, i) + 4 * (j - i) <= join_offset(ns, j),
    decreases j - i,
{
    if i < j {
        lemma_join_offset_mono(ns, i, j - 1);
        assert(join_offset(ns, j) == join_offset(ns, j - 1) + 4 + ns[j - 1].len());
    }
}

/// The join ends where the offsets do.
pub proof fn lemma_join_len(ns: Seq<Seq<u8>>)
    ensures
        annexb_join(ns).len() == join_offset(ns, ns.len() as int),
    decreases ns.len(),
{
    if ns.len() > 0 {
        let tail = ns.subrange(1, ns.len() as int);
        lemma_join_len(tail);
        lemma_join_offset_tail(ns, ns.len() as int);
    } else {
        assert(join_offset(ns, 0) == 0);
    }
}

/// NAL `i` sits behind its start code at `join_offset(ns, i)`.
pub proof fn lemma_join_at(ns: Seq<Seq<u8>>, i: int)
    requires
        0 <= i < ns.len(),
    ensures
        join_offset(ns, i + 1) == join_offset(ns, i) + 4 + ns[i].len(),
        join_offset(ns, i + 1) <= annexb_join(ns).len(),
        annexb_join(ns).subrange(join_offset(ns, i), join_offset(ns, i + 1)) == START_CODE@ + ns[i],
    decreases ns.len(),
{
    let tail = ns.subrange(1, ns.len() as int);
    let j = annexb_join(ns);
    let head = START_CODE@ + ns[0];
    assert(j == head + annexb_join(tail));
    lemma_join_len(ns);
    lemma_join_offset_mono(ns, i + 1, ns.len() as int);
    if i == 0 {
        assert(join_offset(ns, 0) == 0);
        assert(join_offset(ns, 1) == join_offset(ns, 0) + 4 + ns[0].len());
        assert(j.subrange(0, 4 + ns[0].len() as int) =~= head);
    } else {
        lemma_join_at(tail, i - 1);
        lemma_join_offset_tail(ns, i);
        lemma_join_offset_tail(ns, i + 1);
        assert(tail[i - 1] == ns[i]);
        let a = join_offset(tail, i - 1);
        let b = join_offset(tail, i);
        lemma_join_offset_mono(tail, 0, i - 1);
        assert(join_offset(tail, 0) == 0);
        assert(0 <= a <= b <= annexb_join(tail).len());
        assert(j.subrange(head.len() + a, head.len() + b) =~= annexb_join(tail).subrange(a, b));
    }
}

/// The payload ranges of the NALs of `annexb_join(ns)` from NAL `i` on.
pub open spec fn join_ranges(ns: Seq<Seq<u8>>, i: int) -> Seq<(usize, usize)> {
    Seq::new((ns.len() - i) as nat, |k: int| ((join_offset(ns, i + k) + 4) as usize, join_offset(ns, i + k + 1) as usize))
}

proof fn lemma_ranges_skip(buf: Seq<u8>, pos: int, q: int, st: Option<usize>)
    requires
        0 <= pos <= q,
        q + 4 <= buf.len(),
        forall|p: int| pos <= p < q ==> !#[trigger] start_code_at(buf, p),
    ensures
        nal_ranges(buf, pos, st) == nal_ranges(buf, q, st),
    decreases q - pos,
{
    if pos < q {
        assert(!start_code_at(buf, pos));
        lemma_ranges_skip(buf, pos + 1, q, st);
    }
}

proof fn lemma_ranges_end(buf: Seq<u8>, pos: int, s: usize)
    requires
        0 <= pos,
        forall|p: int| pos <= p ==> !#[trigger] start_code_at(buf, p),
    ensures
        nal_ranges(buf, pos, Some(s)) == seq![(s, buf.len() as usize)],
    decreases buf.len() - pos,
{
    if pos + 4 <= buf.len() {
        assert(!start_code_at(buf, pos));
        lemma_ranges_end(buf, pos + 1, s);
    }
}

/// Scanning the join from the payload of NAL `i` finds the payload ranges of NALs `i..`.
proof fn lemma_join_ranges_from(ns: Seq<Seq<u8>>, i: int)
    requires
        0 <= i < ns.len(),
        forall|k: int| 0 <= k < ns.len() ==> free_of_start_codes(#[trigger] ns[k]),
        annexb_join(ns).len() <= usize::MAX,
    ensures
        nal_ranges(annexb_join(ns), join_offset(ns, i) + 4, Some((join_offset(ns, i) + 4) as usize)) == join_ranges(ns, i),
    decreases ns.len() - i,
{
    let buf = annexb_join(ns);
    let n = ns.len() as int;
    let a = join_offset(ns, i);
    let b = join_offset(ns, i + 1);
    lemma_join_at(ns, i);
    lemma_join_len(ns);
    lemma_join_offset_mono(ns, 0, i);
    assert(join_offset(ns, 0) == 0);
    let seg = buf.subrange(a, b);
    assert forall|p: int| a + 4 <= p < b implies !#[trigger] start_code_at(buf, p) by {
        if p + 4 <= b {
            let q = p - a - 4;
            assert(!start_code_at(ns[i], q));
            assert(buf[p] == seg[p - a] && seg[p - a] == ns[i][q]);
            assert(buf[p + 1] == seg[p + 1 - a] && seg[p + 1 - a] == ns[i][q + 1]);
            assert(buf[p + 2] == seg[p + 2 - a] && seg[p + 2 - a] == ns[i][q + 2]);
            assert(buf[p + 3] == seg[p + 3 - a] && seg[p + 3 - a] == ns[i][q + 3]);
        } else if i + 1 < n && p + 4 <= buf.len() {
            lemma_join_at(ns, i + 1);
            let seg2 = buf.subrange(b, join_offset(ns, i + 2));
            assert(buf[p + 3] == seg2[p + 3 - b]);
            assert(seg2[p + 3 - b] == START_CODE@[p + 3 - b]);
        }
    }
    if i + 1 < n {
        lemma_join_at(ns, i + 1);
        let seg2 = buf.subrange(b, join_offset(ns, i + 2));
        assert(buf[b] == seg2[0] && buf[b + 1] == seg2[1] && buf[b + 2] == seg2[2] && buf[b + 3] == seg2[3]);
        assert(start_code_at(buf, b));
        lemma_ranges_skip(buf, a + 4, b, Some((a + 4) as usize));
        lemma_join_ranges_from(ns, i + 1);
        let head: Seq<(usize, usize)> = seq![((a + 4) as usize, b as usize)];
        assert(nal_ranges(buf, b, Some((a + 4) as usize)) == head + nal_ranges(buf, b + 4, Some((b + 4) as usize)));
        assert(head + join_ranges(ns, i + 1) =~= join_ranges(ns, i));
    } else {
        assert(b == buf.len());
        assert forall|p: int| a + 4 <= p implies !#[trigger] start_code_at(buf, p) by {
            if p < b {
            }
        }
        lemma_ranges_end(buf, a + 4, (a + 4) as usize);
        assert(join_ranges(ns, i) =~= seq![((a + 4) as usize, b as usize)]);
    }
}

/// The NALs of a join, found by scanning it from the start.
pub proof fn lemma_join_nal_ranges(ns: Seq<Seq<u8>>)
    requires
        forall|k: int| 0 <= k < ns.len() ==> free_of_start_codes(#[trigger] ns[k]),
        annexb_join(ns).len() <= usize::MAX,
    ensures
        nal_ranges_of(annexb_join(ns)) == join_ranges(ns, 0),
{
    let buf = annexb_join(ns);
    if ns.len() == 0 {
        assert(join_ranges(ns, 0) =~= Seq::<(usize, usize)>::empty());
    } else {
        lemma_join_at(ns, 0);
        assert(join_offset(ns, 0) == 0);
        let seg = buf.subrange(0, join_offset(ns, 1));
        assert(buf[0] == seg[0] && buf[1] == seg[1] && buf[2] == seg[2] && buf[3] == seg[3]);
        assert(start_code_at(buf, 0));
        lemma_join_ranges_from(ns, 0);
        assert(Seq::<(usize, usize)>::empty() + join_ranges(ns, 0) =~= join_ranges(ns, 0));
    }
}

/// The non-empty NALs whose first byte `keep` accepts, in order.
pub open spec fn keep_nals(ns: Seq<Seq<u8>>, keep: spec_fn(u8) -> bool) -> Seq<Seq<u8>>
    decreases ns.len(),
{
    if ns.len() == 0 {
        Seq::empty()
    } else {
        let prev = keep_nals(ns.drop_last(), keep);
        if ns.last().len() > 0 && keep(ns.last()[0]) {
            prev.push(ns.last())
        } else {
            prev
        }
    }
}

proof fn lemma_nals_where_join(ns: Seq<Seq<u8>>, keep: spec_fn(u8) -> bool, m: int)
    requires
        0 <= m <= ns.len(),
        annexb_join(ns).len() <= usize::MAX,
    ensures
        nals_where(annexb_join(ns), join_ranges(ns, 0).subrange(0, m), keep) == keep_nals(ns.subrange(0, m), keep),
    decreases m,
{
    let buf = annexb_join(ns);
    let rs = join_ranges(ns, 0).subrange(0, m);
    if m == 0 {
        assert(ns.subrange(0, 0) =~= Seq::<Seq<u8>>::empty());
    } else {
        lemma_nals_where_join(ns, keep, m - 1);
        assert(rs.drop_last() =~= join_ranges(ns, 0).subrange(0, m - 1));
        assert(ns.subrange(0, m).drop_last() =~= ns.subrange(0, m - 1));
        lemma_join_at(ns, m - 1);
        lemma_join_offset_mono(ns, 0, m - 1);
        assert(join_offset(ns, 0) == 0);
        let a = join_offset(ns, m - 1);
        let b = join_offset(ns, m);
        assert(rs.last() == ((a + 4) as usize, b as usize));
        let seg = buf.subrange(a, b);
        assert(buf.subrange(a + 4, b) =~= seg.subrange(4, seg.len() as int));
        assert(seg.subrange(4, seg.len() as int) =~= ns[m - 1]);
        assert(ns.subrange(0, m).last() == ns[m - 1]);
        if ns[m - 1].len() > 0 {
            assert(buf[a + 4] == ns[m - 1][0]);
        }
    }
}

/// Scanning a join and keeping the NALs whose first byte `keep` accepts.
pub proof fn lemma_join_nals_where(ns: Seq<Seq<u8>>, keep: spec_fn(u8) -> bool)
    requires
        forall|k: int| 0 <= k < ns.len() ==> free_of_start_codes(#[trigger] ns[k]),
        annexb_join(ns).len() <= usize::MAX,
    ensures
        nals_where(annexb_join(ns), nal_ranges_of(annexb_join(ns)), keep) == keep_nals(ns, keep),
{
    lemma_join_nal_ranges(ns);
    lemma_nals_where_join(ns, keep, ns.len() as int);
    assert(join_ranges(ns, 0).subrange(0, ns.len() as int) =~= join_ranges(ns, 0));
    assert(ns.subrange(0, ns.len() as int) =~= ns);
}

proof fn lemma_keep_nals_concat(xs: Seq<Seq<u8>>, ys: Seq<Seq<u8>>, keep: spec_fn(u8) -> bool)
    ensures
        keep_nals(xs + ys, keep) == keep_nals(xs, keep) + keep_nals(ys, keep),
    decreases ys.len(),
{
    if ys.len() == 0 {
        assert(xs + ys =~= xs);
        assert(keep_nals(xs, keep) + Seq::<Seq<u8>>::empty() =~= keep_nals(xs, keep));
    } else {
        lemma_keep_nals_concat(xs, ys.drop_last(), keep);
        assert((xs + ys).drop_last() =~= xs + ys.drop_last());
        assert((xs + ys).last() == ys.last());
        let a = keep_nals(xs, keep);
        let b = keep_nals(ys.drop_last(), keep);
        assert((a + b).push(ys.last()) =~= a + b.push(ys.last()));
    }
}

proof fn lemma_keep_nals_all(ns: Seq<Seq<u8>>, keep: spec_fn(u8) -> bool)
    requires
        forall|k: int| 0 <= k < ns.len() ==> #[trigger] ns[k].len() > 0 && keep(ns[k][0]),
    ensures
        keep_nals(ns, keep) == ns,
    decreases ns.len(),
{
    if ns.len() > 0 {
        let dl = ns.drop_last();
        assert forall|k: int| 0 <= k < dl.len() implies #[trigger] dl[k].len() > 0 && keep(dl[k][0]) by {
            assert(dl[k] == ns[k]);
        }
        lemma_keep_nals_all(dl, keep);
        assert(ns.last() == ns[ns.len() - 1]);
        assert(dl.push(ns.last()) =~= ns);
    }
}

proof fn lemma_keep_nals_none(ns: Seq<Seq<u8>>, keep: spec_fn(u8) -> bool)
    requires
        forall|k: int| 0 <= k < ns.len() ==> #[trigger] ns[k].len() > 0 && !keep(ns[k][0]),
    ensures
        keep_nals(ns, keep) == Seq::<Seq<u8>>::empty(),
    decreases ns.len(),
{
    if ns.len() > 0 {
        let dl = ns.drop_last();
        assert forall|k: int| 0 <= k < dl.len() implies #[trigger] dl[k].len() > 0 && !keep(dl[k][0]) by {
            assert(dl[k] == ns[k]);
        }
        lemma_keep_nals_none(dl, keep);
        assert(ns.last() == ns[ns.len() - 1]);
    }
}

proof fn lemma_join_concat(xs: Seq<Seq<u8>>, ys: Seq<Seq<u8>>)
    ensures
        annexb_join(xs + ys) == annexb_join(xs) + annexb_join(ys),
    decreases xs.len(),
{
    if xs.len() == 0 {
        assert(xs + ys =~= ys);
        assert(Seq::<u8>::empty() + annexb_join(ys) =~= annexb_join(ys));
    } else {
        let tail = xs.subrange(1, xs.len() as int);
        lemma_join_concat(tail, ys);
        assert((xs + ys).subrange(1, (xs + ys).len() as int) =~= tail + ys);
        assert((xs + ys)[0] == xs[0]);
        let h = START_CODE@ + xs[0];
        assert(h + (annexb_join(tail) + annexb_join(ys)) =~= (h + annexb_join(tail)) + annexb_join(ys));
    }
}

proof fn lemma_length_records_front(ns: Seq<Seq<u8>>)
    requires
        ns.len() > 0,
    ensures
        length_records(ns) == be16(ns[0].len() as u16) + ns[0] + length_records(ns.subrange(1, ns.len() as int)),
    decreases ns.len(),
{
    let tail = ns.subrange(1, ns.len() as int);
    if ns.len() == 1 {
        assert(ns.drop_last() =~= Seq::<Seq<u8>>::empty());
        assert(tail =~= Seq::<Seq<u8>>::empty());
        assert(ns.last() == ns[0]);
        assert(Seq::<u8>::empty() + be16(ns[0].len() as u16) + ns[0] =~= be16(ns[0].len() as u16) + ns[0] + Seq::<u8>::empty());
    } else {
        let dl = ns.drop_last();
        lemma_length_records_front(dl);
        assert(dl[0] == ns[0]);
        assert(dl.subrange(1, dl.len() as int) =~= tail.drop_last());
        assert(tail.last() == ns.last());
        let h = be16(ns[0].len() as u16) + ns[0];
        let x = length_records(tail.drop_last());
        let t = be16(ns.last().len() as u16) + ns.last();
        assert((h + x) + t =~= h + (x + t));
        assert(length_records(tail) =~= x + be16(tail.last().len() as u16) + tail.last());
    }
}

/// Reading the records of `length_records(ns)` written at `pos` gives the NALs back behind
/// start codes, and the position after them.
proof fn lemma_parse_length_records(data: Seq<u8>, pos: int, ns: Seq<Seq<u8>>)
    requires
        0 <= pos,
        pos + length_records(ns).len() <= data.len(),
        data.subrange(pos, pos + length_records(ns).len()) == length_records(ns),
        forall|k: int| 0 <= k < ns.len() ==> #[trigger] ns[k].len() < 0x10000,
    ensures
        parse_records(data, pos, ns.len()) == Some((annexb_join(ns), pos + length_records(ns).len())),
    decreases ns.len(),
{
    if ns.len() > 0 {
        let tail = ns.subrange(1, ns.len() as int);
        lemma_length_records_front(ns);
        let n0 = ns[0];
        let lr = length_records(ns);
        let rest = length_records(tail);
        assert(lr.len() == 2 + n0.len() + rest.len());
        assert(data[pos] == lr[0] && data[pos + 1] == lr[1]);
        assert(lr[0] == (n0.len() as u16 / 256) as u8);
        assert(lr[1] == (n0.len() as u16 % 256) as u8);
        assert(data[pos] as int * 256 + data[pos + 1] as int == n0.len());
        let p2 = pos + 2 + n0.len();
        assert(data.subrange(pos + 2, p2) =~= lr.subrange(2, 2 + n0.len() as int));
        assert(lr.subrange(2, 2 + n0.len() as int) =~= n0);
        assert(data.subrange(p2, p2 + rest.len()) =~= lr.subrange(2 + n0.len() as int, lr.len() as int));
        assert(lr.subrange(2 + n0.len() as int, lr.len() as int) =~= rest);
        assert forall|k: int| 0 <= k < tail.len() implies #[trigger] tail[k].len() < 0x10000 by {
            assert(tail[k] == ns[k + 1]);
        }
        lemma_parse_length_records(data, p2, tail);
        assert((ns.len() - 1) as nat == tail.len());
    }
}

/// A NAL that can stand in a configuration record: non-empty, with a 16-bit length, of
/// header type `t` (low five bits of its first byte), and free of start codes.
pub open spec fn avc_record_nal(n: Seq<u8>, t: u8) -> bool {
    &&& 1 <= n.len() < 0x10000
    &&& n[0] & 0x1F == t
    &&& free_of_start_codes(n)
}

/// Serializing a configuration whose parameter sets are SPS NALs followed by PPS NALs, each
/// behind a start code, and deserializing the record gives the configuration back.
#[verifier::spinoff_prover]
#[verifier::rlimit(50)]
pub proof fn lemma_avcc_roundtrip(nal_size_len: usize, sps: Seq<Seq<u8>>, pps: Seq<Seq<u8>>)
    requires
        1 <= nal_size_len <= 4,
        1 <= sps.len() < 32,
        pps.len() < 256,
        sps[0].len() >= 4,
        forall|k: int| 0 <= k < sps.len() ==> avc_record_nal(#[trigger] sps[k], 7),
        forall|k: int| 0 <= k < pps.len() ==> avc_record_nal(#[trigger] pps[k], 8),
        annexb_join(sps + pps).len() <= usize::MAX,
    ensures
        avcc_serialize_spec(nal_size_len, annexb_join(sps + pps)) matches Some(data)
            && avcc_deserialize_spec(data) == Some((nal_size_len, annexb_join(sps + pps))),
{
    let all = sps + pps;
    let buf = annexb_join(all);
    assert forall|k: int| 0 <= k < all.len() implies free_of_start_codes(#[trigger] all[k]) by {
        if k < sps.len() {
            assert(all[k] == sps[k]);
            assert(avc_record_nal(sps[k], 7));
        } else {
            assert(all[k] == pps[k - sps.len()]);
            assert(avc_record_nal(pps[k - sps.len()], 8));
        }
    }
    let t7 = avc_type_is(7);
    let t8 = avc_type_is(8);
    lemma_join_nals_where(all, t7);
    lemma_join_nals_where(all, t8);
    lemma_keep_nals_concat(sps, pps, t7);
    lemma_keep_nals_concat(sps, pps, t8);
    assert forall|k: int| 0 <= k < sps.len() implies #[trigger] sps[k].len() > 0 && t7(sps[k][0]) by {
        assert(avc_record_nal(sps[k], 7));
    }
    assert forall|k: int| 0 <= k < sps.len() implies #[trigger] sps[k].len() > 0 && !t8(sps[k][0]) by {
        assert(avc_record_nal(sps[k], 7));
    }
    assert forall|k: int| 0 <= k < pps.len() implies #[trigger] pps[k].len() > 0 && !t7(pps[k][0]) by {
        assert(avc_record_nal(pps[k], 8));
    }
    assert forall|k: int| 0 <= k < pps.len() implies #[trigger] pps[k].len() > 0 && t8(pps[k][0]) by {
        assert(avc_record_nal(pps[k], 8));
    }
    lemma_keep_nals_all(sps, t7);
    lemma_keep_nals_none(pps, t7);
    lemma_keep_nals_none(sps, t8);
    lemma_keep_nals_all(pps, t8);
    assert(sps + Seq::<Seq<u8>>::empty() =~= sps);
    assert(Seq::<Seq<u8>>::empty() + pps =~= pps);
    assert(avc_sps_list(buf) == sps);
    assert(avc_pps_list(buf) == pps);

    let head = seq![1u8, sps[0][1], sps[0][2], sps[0][3], 0xFCu8 | ((nal_size_len - 1) as u8), 0xE0u8 | (sps.len() as u8)];
    let lr_sps = length_records(sps);
    let lr_pps = length_records(pps);
    let data = head + lr_sps + seq![pps.len() as u8] + lr_pps;
    assert(avcc_serialize_spec(nal_size_len, buf) == Some(data));
    let l1 = (nal_size_len - 1) as u8;
    let ns = sps.len() as u8;
    assert((0xFCu8 | l1) & 0x03 == l1) by (bit_vector)
        requires
            l1 <= 3,
    ;
    assert((0xE0u8 | ns) & 0x1F == ns) by (bit_vector)
        requires
            ns < 32,
    ;
    assert(data[4] == 0xFCu8 | l1 && data[5] == 0xE0u8 | ns);
    assert forall|k: int| 0 <= k < sps.len() implies #[trigger] sps[k].len() < 0x10000 by {
        assert(avc_record_nal(sps[k], 7));
    }
    assert forall|k: int| 0 <= k < pps.len() implies #[trigger] pps[k].len() < 0x10000 by {
        assert(avc_record_nal(pps[k], 8));
    }
    let p: int = 6 + lr_sps.len() as int;
    assert(data.subrange(6, p) =~= lr_sps);
    lemma_parse_length_records(data, 6, sps);
    assert(data[p] == pps.len() as u8);
    assert(data.subrange(p + 1, p + 1 + lr_pps.len() as int) =~= lr_pps);
    lemma_parse_length_records(data, p + 1, pps);
    lemma_join_concat(sps, pps);
}

/// A NAL that can stand in an `hvcC` array: non-empty, with a 16-bit length, of HEVC type
/// `t` (bits 1..=6 of its first byte), and free of start codes.
pub open spec fn hevc_record_nal(n: Seq<u8>, t: u8) -> bool {
    &&& 1 <= n.len() < 0x10000
    &&& header_type(n[0], 1, 0x3F) == t
    &&& free_of_start_codes(n)
}

/// NALs fit for an `hvcC` array of type `t`: fewer than 2^16 of them, each fit.
pub open spec fn hevc_array_nals(ns: Seq<Seq<u8>>, t: u8) -> bool {
    &&& ns.len() < 0x10000
    &&& forall|k: int| 0 <= k < ns.len() ==> hevc_record_nal(#[trigger] ns[k], t)
}

proof fn lemma_parse_one_array(data: Seq<u8>, pos: int, t: u8, ns: Seq<Seq<u8>>)
    requires
        0 <= pos,
        ns.len() > 0,
        hevc_array_nals(ns, t),
        pos + hvcc_array(t, ns).len() <= data.len(),
        data.subrange(pos, pos + hvcc_array(t, ns).len()) == hvcc_array(t, ns),
    ensures
        pos + 3 <= data.len(),
        data[pos + 1] as int * 256 + data[pos + 2] as int == ns.len(),
        parse_records(data, pos + 3, ns.len()) == Some((annexb_join(ns), pos + hvcc_array(t, ns).len())),
{
    let arr = hvcc_array(t, ns);
    let lr = length_records(ns);
    assert(arr.len() == 3 + lr.len());
    assert(data[pos + 1] == arr[1] && data[pos + 2] == arr[2]);
    assert(data.subrange(pos + 3, pos + 3 + lr.len()) =~= arr.subrange(3, arr.len() as int));
    assert(arr.subrange(3, arr.len() as int) =~= lr);
    assert forall|k: int| 0 <= k < ns.len() implies #[trigger] ns[k].len() < 0x10000 by {
        assert(hevc_record_nal(ns[k], t));
    }
    lemma_parse_length_records(data, pos + 3, ns);
}

proof fn lemma_hevc_lists(vps: Seq<Seq<u8>>, sps: Seq<Seq<u8>>, pps: Seq<Seq<u8>>)
    requires
        hevc_array_nals(vps, 32),
        hevc_array_nals(sps, 33),
        hevc_array_nals(pps, 34),
        annexb_join(vps + sps + pps).len() <= usize::MAX,
    ensures
        hevc_list(annexb_join(vps + sps + pps), 32) == vps,
        hevc_list(annexb_join(vps + sps + pps), 33) == sps,
        hevc_list(annexb_join(vps + sps + pps), 34) == pps,
{
    let all = vps + sps + pps;
    assert forall|k: int| 0 <= k < all.len() implies free_of_start_codes(#[trigger] all[k]) by {
        if k < vps.len() {
            assert(all[k] == vps[k]);
            assert(hevc_record_nal(vps[k], 32));
        } else if k < vps.len() + sps.len() {
            assert(all[k] == sps[k - vps.len()]);
            assert(hevc_record_nal(sps[k - vps.len()], 33));
        } else {
            assert(all[k] == pps[k - vps.len() - sps.len()]);
            assert(hevc_record_nal(pps[k - vps.len() - sps.len()], 34));
        }
    }
    lemma_hevc_list_of(vps, sps, pps, 32);
    lemma_hevc_list_of(vps, sps, pps, 33);
    lemma_hevc_list_of(vps, sps, pps, 34);
}

proof fn lemma_kept_iff(ns: Seq<Seq<u8>>, t: u8, want: u8)
    requires
        hevc_array_nals(ns, t),
    ensures
        keep_nals(ns, |b: u8| header_type(b, 1, 0x3F) == want) == if t == want { ns } else { Seq::<Seq<u8>>::empty() },
{
    let keep = |b: u8| header_type(b, 1, 0x3F) == want;
    if t == want {
        assert forall|k: int| 0 <= k < ns.len() implies #[trigger] ns[k].len() > 0 && keep(ns[k][0]) by {
            assert(hevc_record_nal(ns[k], t));
        }
        lemma_keep_nals_all(ns, keep);
    } else {
        assert forall|k: int| 0 <= k < ns.len() implies #[trigger] ns[k].len() > 0 && !keep(ns[k][0]) by {
            assert(hevc_record_nal(ns[k], t));
        }
        lemma_keep_nals_none(ns, keep);
    }
}

proof fn lemma_hevc_list_of(vps: Seq<Seq<u8>>, sps: Seq<Seq<u8>>, pps: Seq<Seq<u8>>, want: u8)
    requires
        hevc_array_nals(vps, 32),
        hevc_array_nals(sps, 33),
        hevc_array_nals(pps, 34),
        want == 32 || want == 33 || want == 34,
        forall|k: int| 0 <= k < (vps + sps + pps).len() ==> free_of_start_codes(#[trigger] (vps + sps + pps)[k]),
        annexb_join(vps + sps + pps).len() <= usize::MAX,
    ensures
        hevc_list(annexb_join(vps + sps + pps), want) == if want == 32 { vps } else if want == 33 { sps } else { pps },
{
    let keep = |b: u8| header_type(b, 1, 0x3F) == want;
    let all = vps + sps + pps;
    lemma_join_nals_where(all, keep);
    lemma_keep_nals_concat(vps + sps, pps, keep);
    lemma_keep_nals_concat(vps, sps, keep);
    lemma_kept_iff(vps, 32, want);
    lemma_kept_iff(sps, 33, want);
    lemma_kept_iff(pps, 34, want);
    let e = Seq::<Seq<u8>>::empty();
    assert(vps + e + e =~= vps);
    assert(e + sps + e =~= sps);
    assert(e + e + pps =~= pps);
}

proof fn lemma_hvcc_header_fields(nal_size_len: usize, first_sps: Seq<u8>, num_arrays: u8)
    requires
        1 <= nal_size_len <= 4,
    ensures
        hvcc_header(nal_size_len, first_sps, num_arrays).len() == 23,
        hvcc_header(nal_size_len, first_sps, num_arrays)[0] == 1,
        hvcc_header(nal_size_len, first_sps, num_arrays)[22] == num_arrays,
        hvcc_header(nal_size_len, first_sps, num_arrays)[21] & 0x03 == (nal_size_len - 1) as u8,
{
    let l1 = (nal_size_len - 1) as u8;
    assert((0x04u8 | l1) & 0x03 == l1) by (bit_vector)
        requires
            l1 <= 3,
    ;
    match ptl_spec(first_sps) {
        Some((ptl, sub)) => {
            let x = ((sub & 0x07u8) << 3u32) | l1;
            assert(x & 0x03 == l1) by (bit_vector)
                requires
                    l1 <= 3,
                    x == ((sub & 0x07u8) << 3u32) | l1,
            ;
        },
        None => {},
    }
}

/// The arrays of SPS and PPS NALs written from `p1` on parse back into their join.
proof fn lemma_parse_sps_pps_arrays(data: Seq<u8>, p1: int, sps: Seq<Seq<u8>>, pps: Seq<Seq<u8>>)
    requires
        0 <= p1 <= data.len(),
        sps.len() > 0,
        pps.len() > 0,
        hevc_array_nals(sps, 33),
        hevc_array_nals(pps, 34),
        data == data.subrange(0, p1) + hvcc_array(33, sps) + hvcc_array(34, pps),
    ensures
        parse_arrays(data, p1, 2) == Some((annexb_join(sps) + annexb_join(pps), data.len() as int)),
{
    let as_ = hvcc_array(33, sps);
    let ap = hvcc_array(34, pps);
    let p2 = p1 + as_.len();
    let p3 = p2 + ap.len();
    let pre = data.subrange(0, p1);
    assert(data.len() == p3);
    assert(data.subrange(p1, p2) =~= as_);
    assert(data.subrange(p2, p3) =~= ap);
    lemma_parse_one_array(data, p1, 33, sps);
    lemma_parse_one_array(data, p2, 34, pps);
    assert(parse_arrays(data, p3, 0) == Some((Seq::<u8>::empty(), p3)));
    assert(annexb_join(pps) + Seq::<u8>::empty() =~= annexb_join(pps));
    assert(parse_arrays(data, p2, 1) == Some((annexb_join(pps), p3)));
}

/// Serializing HEVC parameter sets (VPS, then SPS, then PPS NALs, each behind a start code)
/// into an `hvcC` record and deserializing it gives the prefix size and parameter sets back.
#[verifier::spinoff_prover]
#[verifier::rlimit(50)]
pub proof fn lemma_hvcc_roundtrip(nal_size_len: usize, vps: Seq<Seq<u8>>, sps: Seq<Seq<u8>>, pps: Seq<Seq<u8>>)
    requires
        nal_size_len == 1 || nal_size_len == 2 || nal_size_len == 4,
        sps.len() > 0,
        pps.len() > 0,
        hevc_array_nals(vps, 32),
        hevc_array_nals(sps, 33),
        hevc_array_nals(pps, 34),
        annexb_join(vps + sps + pps).len() <= usize::MAX,
    ensures
        hvcc_serialize_spec(nal_size_len, annexb_join(vps + sps + pps)) matches Some(data)
            && hvcc_deserialize_spec(data) == Some((nal_size_len, annexb_join(vps + sps + pps))),
{
    let buf = annexb_join(vps + sps + pps);
    lemma_hevc_lists(vps, sps, pps);
    let num_arrays: u8 = if vps.len() == 0 { 2 } else { 3 };
    let hdr = hvcc_header(nal_size_len, sps[0], num_arrays);
    let av = hvcc_array(32, vps);
    let data = hdr + av + hvcc_array(33, sps) + hvcc_array(34, pps);
    assert(hvcc_serialize_spec(nal_size_len, buf) == Some(data));
    lemma_hvcc_header_fields(nal_size_len, sps[0], num_arrays);
    assert(data[0] == 1 && data[21] == hdr[21] && data[22] == num_arrays);
    let p1: int = 23 + av.len() as int;
    assert(data == data.subrange(0, p1) + hvcc_array(33, sps) + hvcc_array(34, pps)) by {
        assert(data =~= data.subrange(0, p1) + hvcc_array(33, sps) + hvcc_array(34, pps));
    }
    lemma_parse_sps_pps_arrays(data, p1, sps, pps);
    lemma_join_concat(vps + sps, pps);
    lemma_join_concat(vps, sps);
    if vps.len() == 0 {
        assert(vps + sps =~= sps);
        assert(annexb_join(vps) =~= Seq::<u8>::empty());
        assert(annexb_join(sps) + annexb_join(pps) =~= buf);
    } else {
        assert(data.subrange(23, p1) =~= av);
        lemma_parse_one_array(data, 23, 32, vps);
        assert(parse_arrays(data, 23, 3) == Some((annexb_join(vps) + (annexb_join(sps) + annexb_join(pps)), data.len() as int)));
        assert(annexb_join(vps) + (annexb_join(sps) + annexb_join(pps)) =~= buf);
    }
}

} // verus!
