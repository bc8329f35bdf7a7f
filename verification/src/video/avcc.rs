use vstd::prelude::*;
use crate::video::nal::{NalType, nal_type_of};
use crate::video::annexb_iter::{START_CODE, start_code_at};

verus! {

/// Codec configuration: the NAL length-prefix size and the parameter sets as an Annex B
/// byte string (each one behind a start code).
#[derive(Debug, PartialEq, Clone)]
pub struct AvccConfig {
    pub nal_size_len: usize,
    pub sps_pps: Vec<u8>,
}

/// The byte ranges of the NALs of an Annex B string, scanning from `pos` with the current NAL
/// (if any) starting at `start`: a NAL runs from after its start code to the next start code
/// or the end; bytes before the first start code belong to no NAL.
pub open spec fn nal_ranges(buf: Seq<u8>, pos: int, start: Option<usize>) -> Seq<(usize, usize)>
    decreases buf.len() - pos,
{
    if pos < 0 || pos + 4 > buf.len() {
        match start {
            Some(s) => seq![(s, buf.len() as usize)],
            None => Seq::empty(),
        }
    } else if start_code_at(buf, pos) {
        let head: Seq<(usize, usize)> = match start {
            Some(s) => seq![(s, pos as usize)],
            None => Seq::empty(),
        };
        head + nal_ranges(buf, pos + 4, Some((pos + 4) as usize))
    } else {
        nal_ranges(buf, pos + 1, start)
    }
}

/// The byte ranges of the NALs of `buf`.
pub open spec fn nal_ranges_of(buf: Seq<u8>) -> Seq<(usize, usize)> {
    nal_ranges(buf, 0, None)
}

/// Every range lies inside a buffer of `len` bytes.
pub open spec fn ranges_in(rs: Seq<(usize, usize)>, len: int) -> bool {
    forall|i: int| 0 <= i < rs.len() ==> #[trigger] rs[i].0 <= rs[i].1 <= len
}

proof fn lemma_nal_ranges_in(buf: Seq<u8>, pos: int, start: Option<usize>)
    requires
        0 <= pos,
        buf.len() <= usize::MAX,
        start matches Some(s) ==> s <= pos && s <= buf.len(),
    ensures
        ranges_in(nal_ranges(buf, pos, start), buf.len() as int),
    decreases buf.len() - pos,
{
    if pos + 4 > buf.len() {
    } else if start_code_at(buf, pos) {
        lemma_nal_ranges_in(buf, pos + 4, Some((pos + 4) as usize));
        let head: Seq<(usize, usize)> = match start {
            Some(s) => seq![(s, pos as usize)],
            None => Seq::empty(),
        };
        let rest = nal_ranges(buf, pos + 4, Some((pos + 4) as usize));
        assert forall|i: int| 0 <= i < (head + rest).len() implies #[trigger] (head + rest)[i].0 <= (head + rest)[i].1 <= buf.len() by {
            if i >= head.len() {
                assert((head + rest)[i] == rest[i - head.len()]);
            }
        }
    } else {
        lemma_nal_ranges_in(buf, pos + 1, start);
    }
}

/// The ranges of the NALs of `buf`, in order.
pub fn split_nal_ranges(buf: &[u8]) -> (r: Vec<(usize, usize)>)
    ensures
        r@ == nal_ranges_of(buf@),
        ranges_in(r@, buf@.len() as int),
{
    let len = buf.len();
    let mut out: Vec<(usize, usize)> = Vec::new();
    let mut pos: usize = 0;
    let mut nal_start: Option<usize> = None;
    while pos < len && 3 < len - pos
        invariant
            len == buf@.len(),
            pos <= len,
            nal_start matches Some(s) ==> s <= pos,
            out@ + nal_ranges(buf@, pos as int, nal_start) == nal_ranges_of(buf@),
        decreases len - pos,
    {
        if buf[pos] == 0 && buf[pos + 1] == 0 && buf[pos + 2] == 0 && buf[pos + 3] == 1 {
            let ghost before = out@;
            if let Some(start) = nal_start {
                out.push((start, pos));
                proof {
                    assert(before + (seq![(start, pos)] + nal_ranges(buf@, pos + 4, Some((pos + 4) as usize)))
                        =~= out@ + nal_ranges(buf@, pos + 4, Some((pos + 4) as usize)));
                }
            } else {
                proof {
                    assert(Seq::<(usize, usize)>::empty() + nal_ranges(buf@, pos + 4, Some((pos + 4) as usize))
                        =~= nal_ranges(buf@, pos + 4, Some((pos + 4) as usize)));
                }
            }
            nal_start = Some(pos + 4);
            pos = pos + 4;
        } else {
            pos = pos + 1;
        }
    }
    if let Some(start) = nal_start {
        out.push((start, len));
        proof {
            assert(nal_ranges(buf@, pos as int, nal_start) == seq![(start, len)]);
        }
    } else {
        proof {
            assert(out@ + Seq::<(usize, usize)>::empty() =~= out@);
        }
    }
    proof {
        lemma_nal_ranges_in(buf@, 0, None);
        assert(ranges_in(nal_ranges(buf@, 0, None), buf@.len() as int));
        assert(out@ == nal_ranges(buf@, 0, None));
    }
    out
}

/// Two bytes, big-endian.
pub open spec fn be16(v: u16) -> Seq<u8> {
    seq![(v / 256) as u8, (v % 256) as u8]
}

/// `be16(v)` as a two-byte vector.
pub fn be16_bytes(v: u16) -> (r: Vec<u8>)
    ensures
        r@ == be16(v),
{
    let r = vec![(v / 256) as u8, (v % 256) as u8];
    assert(r@ =~= be16(v));
    r
}

/// The non-empty NALs among `ranges` whose first byte `keep` accepts, as byte strings.
pub open spec fn nals_where(buf: Seq<u8>, ranges: Seq<(usize, usize)>, keep: spec_fn(u8) -> bool) -> Seq<Seq<u8>>
    decreases ranges.len(),
{
    if ranges.len() == 0 {
        Seq::empty()
    } else {
        let prev = nals_where(buf, ranges.drop_last(), keep);
        let (s, e) = ranges.last();
        if s < e && keep(buf[s as int]) {
            prev.push(buf.subrange(s as int, e as int))
        } else {
            prev
        }
    }
}

/// Each NAL behind a two-byte length (the length modulo 2^16).
pub open spec fn length_records(nals: Seq<Seq<u8>>) -> Seq<u8>
    decreases nals.len(),
{
    if nals.len() == 0 {
        Seq::empty()
    } else {
        length_records(nals.drop_last()) + be16(nals.last().len() as u16) + nals.last()
    }
}

/// Appends `length_records(nals)` to `out`.
pub fn push_length_records(out: &mut Vec<u8>, nals: &Vec<Vec<u8>>)
    ensures
        final(out)@ == old(out)@ + length_records(nals@.map_values(|n: Vec<u8>| n@)),
{
    let ghost views = nals@.map_values(|n: Vec<u8>| n@);
    let ghost start = out@;
    let mut i: usize = 0;
    while i < nals.len()
        invariant
            i <= nals@.len(),
            views == nals@.map_values(|n: Vec<u8>| n@),
            out@ == start + length_records(views.subrange(0, i as int)),
        decreases nals@.len() - i,
    {
        let nal = &nals[i];
        let prefix = be16_bytes(nal.len() as u16);
        proof {
            assert(views.subrange(0, i + 1).drop_last() =~= views.subrange(0, i as int));
            assert(views.subrange(0, i + 1).last() == nal@);
        }
        out.extend_from_slice(prefix.as_slice());
        out.extend_from_slice(nal.as_slice());
        proof {
            assert(out@ =~= start + length_records(views.subrange(0, i as int)) + be16(nal@.len() as u16) + nal@);
        }
        i = i + 1;
    }
    proof {
        assert(views.subrange(0, nals@.len() as int) =~= views);
    }
}

/// The length-prefixed records of `count` NALs from `pos` on, each turned into a start code
/// followed by the NAL, and the position after them; `None` if they run past the end.
pub open spec fn parse_records(data: Seq<u8>, pos: int, count: nat) -> Option<(Seq<u8>, int)>
    decreases count,
{
    if count == 0 {
        Some((Seq::empty(), pos))
    } else if pos + 2 > data.len() {
        None
    } else {
        let len = data[pos] as int * 256 + data[pos + 1] as int;
        if pos + 2 + len > data.len() {
            None
        } else {
            match parse_records(data, pos + 2 + len, (count - 1) as nat) {
                None => None,
                Some((rest, end)) => Some((START_CODE@ + data.subrange(pos + 2, pos + 2 + len) + rest, end)),
            }
        }
    }
}

proof fn lemma_parse_records_end(data: Seq<u8>, pos: int, count: nat)
    requires
        0 <= pos <= data.len(),
    ensures
        parse_records(data, pos, count) matches Some((_, end)) ==> pos <= end <= data.len(),
    decreases count,
{
    if count > 0 && pos + 2 <= data.len() {
        let len = data[pos] as int * 256 + data[pos + 1] as int;
        if pos + 2 + len <= data.len() {
            lemma_parse_records_end(data, pos + 2 + len, (count - 1) as nat);
        }
    }
}

/// Reads `count` records at `pos` into `header` (as start code and NAL each); the position
/// after them, or `None` if they run past the end.
pub fn read_records(data: &[u8], pos: usize, count: usize, header: &mut Vec<u8>) -> (r: Option<usize>)
    requires
        pos <= data@.len(),
    ensures
        match parse_records(data@, pos as int, count as nat) {
            None => r is None,
            Some((h, end)) => r == Some(end as usize) && final(header)@ == old(header)@ + h && pos <= end <= data@.len(),
        },
{
    proof {
        lemma_parse_records_end(data@, pos as int, count as nat);
    }
    let len = data.len();
    let ghost start = header@;
    let mut p = pos;
    let mut k: usize = 0;
    proof {
        assert(header@.subrange(0, start.len() as int) =~= start);
        assert(header@.subrange(start.len() as int, header@.len() as int) + Seq::<u8>::empty() =~= Seq::<u8>::empty());
    }
    while k < count
        invariant
            len == data@.len(),
            pos <= p <= len,
            k <= count,
            parse_records(data@, pos as int, count as nat) == match parse_records(data@, p as int, (count - k) as nat) {
                None => None,
                Some((h2, end2)) => Some((header@.subrange(start.len() as int, header@.len() as int) + h2, end2)),
            },
            header@.subrange(0, start.len() as int) == start,
            header@.len() >= start.len(),
        decreases count - k,
    {
        if 2 > len - p {
            return None;
        }
        let n = (data[p] as usize) * 256 + (data[p + 1] as usize);
        if n > len - p - 2 {
            return None;
        }
        let ghost before = header@;
        header.extend_from_slice(&START_CODE);
        header.extend_from_slice(&data[p + 2..p + 2 + n]);
        proof {
            assert(header@.subrange(0, start.len() as int) =~= start) by {
                assert(before.subrange(0, start.len() as int) == start);
            }
            assert(header@.subrange(start.len() as int, header@.len() as int) =~= before.subrange(start.len() as int, before.len() as int)
                + START_CODE@ + data@.subrange(p + 2, p + 2 + n));
        }
        p = p + 2 + n;
        k = k + 1;
    }
    proof {
        assert(header@.subrange(start.len() as int, header@.len() as int) + Seq::<u8>::empty()
            =~= header@.subrange(start.len() as int, header@.len() as int));
        assert(header@ =~= start + header@.subrange(start.len() as int, header@.len() as int));
    }
    Some(p)
}


/// What an AVC decoder configuration record (`avcC`) holds: the prefix size and the SPS and
/// PPS NALs, each behind a start code; `None` if it is short, of another version, or its
/// records run past the end.
pub open spec fn avcc_deserialize_spec(data: Seq<u8>) -> Option<(usize, Seq<u8>)> {
    if data.len() < 6 || data[0] != 1 {
        None
    } else {
        let nal_size_len = ((data[4] & 0x03) + 1) as usize;
        match parse_records(data, 6, (data[5] & 0x1F) as nat) {
            None => None,
            Some((sps, p)) => if p >= data.len() {
                None
            } else {
                match parse_records(data, p + 1, data[p] as nat) {
                    None => None,
                    Some((pps, _)) => Some((nal_size_len, sps + pps)),
                }
            },
        }
    }
}

pub fn avcc_config_deserialize(data: &[u8]) -> (r: Option<AvccConfig>)
    ensures
        match avcc_deserialize_spec(data@) {
            None => r is None,
            Some((n, h)) => r matches Some(c) && c.nal_size_len == n && c.sps_pps@ == h,
        },
{
    let len = data.len();
    if len < 6 || data[0] != 1 {
        return None;
    }
    let b4 = data[4];
    assert(b4 & 0x03 <= 3) by (bit_vector);
    let nal_size_len = ((b4 & 0x03) as usize) + 1;
    let sps_count = (data[5] & 0x1F) as usize;
    let mut header: Vec<u8> = Vec::new();
    let pos = match read_records(data, 6, sps_count, &mut header) {
        Some(p) => p,
        None => return None,
    };
    if pos >= len {
        return None;
    }
    let pps_count = data[pos] as usize;
    let ghost h1 = header@;
    match read_records(data, pos + 1, pps_count, &mut header) {
        Some(_) => {},
        None => return None,
    }
    proof {
        assert(h1 =~= Seq::<u8>::empty() + h1);
    }
    Some(AvccConfig { nal_size_len, sps_pps: header })
}

/// Low five bits of an H.264 NAL header: its type.
pub open spec fn avc_type_is(t: u8) -> spec_fn(u8) -> bool {
    |b: u8| b & 0x1F == t
}

/// The SPS (type 7) NALs of an Annex B string, in order.
pub open spec fn avc_sps_list(buf: Seq<u8>) -> Seq<Seq<u8>> {
    nals_where(buf, nal_ranges_of(buf), avc_type_is(7))
}

/// The PPS (type 8) NALs of an Annex B string, in order.
pub open spec fn avc_pps_list(buf: Seq<u8>) -> Seq<Seq<u8>> {
    nals_where(buf, nal_ranges_of(buf), avc_type_is(8))
}

/// The `avcC` record for prefix size `nal_size_len` and the parameter sets in `buf`: profile,
/// compatibility and level from the first SPS, then the SPS and PPS records; `None` without
/// an SPS of at least four bytes.
pub open spec fn avcc_serialize_spec(nal_size_len: usize, buf: Seq<u8>) -> Option<Seq<u8>> {
    let sps = avc_sps_list(buf);
    let pps = avc_pps_list(buf);
    if sps.len() == 0 || sps[0].len() < 4 {
        None
    } else {
        Some(
            seq![1u8, sps[0][1], sps[0][2], sps[0][3], 0xFCu8 | ((nal_size_len - 1) as u8), 0xE0u8 | (sps.len() as u8)]
                + length_records(sps) + seq![pps.len() as u8] + length_records(pps),
        )
    }
}

/// The type number in a NAL header byte: `mask` applied to the byte shifted right by `shift`.
pub open spec fn header_type(b: u8, shift: u32, mask: u8) -> u8 {
    (b >> shift) & mask
}

/// The non-empty NALs among `ranges` whose header type is `t`, as byte vectors.
pub fn collect_kind(buf: &[u8], ranges: &Vec<(usize, usize)>, t: u8, shift: u32, mask: u8) -> (r: Vec<Vec<u8>>)
    requires
        ranges_in(ranges@, buf@.len() as int),
        shift < 8,
    ensures
        r@.map_values(|n: Vec<u8>| n@) == nals_where(buf@, ranges@, |b: u8| header_type(b, shift, mask) == t),
{
    let ghost keep = |b: u8| header_type(b, shift, mask) == t;
    let mut list: Vec<Vec<u8>> = Vec::new();
    let mut i: usize = 0;
    while i < ranges.len()
        invariant
            i <= ranges@.len(),
            ranges_in(ranges@, buf@.len() as int),
            shift < 8,
            keep == (|b: u8| header_type(b, shift, mask) == t),
            list@.map_values(|n: Vec<u8>| n@) == nals_where(buf@, ranges@.subrange(0, i as int), keep),
        decreases ranges@.len() - i,
    {
        let (s, e) = ranges[i];
        proof {
            assert(ranges@.subrange(0, i + 1).drop_last() =~= ranges@.subrange(0, i as int));
            assert(ranges@.subrange(0, i + 1).last() == (s, e));
            assert(s <= e <= buf@.len());
        }
        if s < e && (buf[s] >> shift) & mask == t {
            let mut nal: Vec<u8> = Vec::new();
            nal.extend_from_slice(&buf[s..e]);
            assert(nal@ =~= buf@.subrange(s as int, e as int));
            let ghost before = list@;
            list.push(nal);
            proof {
                assert(list@.map_values(|n: Vec<u8>| n@) =~= before.map_values(|n: Vec<u8>| n@).push(buf@.subrange(s as int, e as int)));
            }
        }
        i = i + 1;
    }
    proof {
        assert(ranges@.subrange(0, ranges@.len() as int) =~= ranges@);
    }
    list
}

/// Serializes the SPS and PPS NALs of `avcc.sps_pps` into an `avcC` record; `None` without an
/// SPS of at least four bytes.
pub fn avcc_config_serialize(avcc: &AvccConfig) -> (r: Option<Vec<u8>>)
    requires
        avc_sps_list(avcc.sps_pps@).len() > 0 && avc_sps_list(avcc.sps_pps@)[0].len() >= 4 ==> avcc.nal_size_len >= 1,
    ensures
        match avcc_serialize_spec(avcc.nal_size_len, avcc.sps_pps@) {
            None => r is None,
            Some(b) => r matches Some(v) && v@ == b,
        },
{
    let buf = avcc.sps_pps.as_slice();
    let ranges = split_nal_ranges(buf);
    let sps_list = collect_kind(buf, &ranges, 7, 0, 0x1F);
    let pps_list = collect_kind(buf, &ranges, 8, 0, 0x1F);
    proof {
        assert forall|b: u8| #![auto] header_type(b, 0, 0x1F) == b & 0x1F by {
            assert((b >> 0u32) & 0x1F == b & 0x1F) by (bit_vector);
        }
        assert((|b: u8| header_type(b, 0, 0x1F) == 7) =~= avc_type_is(7));
        assert((|b: u8| header_type(b, 0, 0x1F) == 8) =~= avc_type_is(8));
    }
    let ghost sps = avc_sps_list(buf@);
    let ghost pps = avc_pps_list(buf@);
    if sps_list.len() == 0 {
        return None;
    }
    let first = &sps_list[0];
    proof {
        assert(first@ == sps[0]);
    }
    if first.len() < 4 {
        return None;
    }
    let mut out: Vec<u8> = vec![
        1u8,
        first[1],
        first[2],
        first[3],
        0xFCu8 | ((avcc.nal_size_len - 1) as u8),
        0xE0u8 | (sps_list.len() as u8),
    ];
    push_length_records(&mut out, &sps_list);
    out.push(pps_list.len() as u8);
    push_length_records(&mut out, &pps_list);
    proof {
        assert(out@ =~= seq![1u8, sps[0][1], sps[0][2], sps[0][3], 0xFCu8 | ((avcc.nal_size_len - 1) as u8), 0xE0u8 | (sps.len() as u8)]
            + length_records(sps) + seq![pps.len() as u8] + length_records(pps));
    }
    Some(out)
}

} // verus!
