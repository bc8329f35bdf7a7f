use vstd::prelude::*;
use crate::video::annexb_iter::be_value;
use crate::video::annexb_builder::{be_bytes, encode_be};
use crate::video::avcc::{
    AvccConfig, nal_ranges_of, nals_where, header_type, length_records, be16, split_nal_ranges, collect_kind,
    push_length_records, be16_bytes, parse_records, read_records,
};

verus! {

/// HEVC codec configuration: the NAL length-prefix size and the VPS, SPS and PPS NALs as an
/// Annex B byte string.
#[derive(Debug, PartialEq, Clone)]
pub struct HvccConfig {
    pub nal_size_len: usize,
    pub vps_sps_pps: Vec<u8>,
}

/// Unescaping `nal` up to `limit` output bytes: the bytes kept and the number of zero bytes
/// just kept. A `0x03` after two kept zeros is dropped (and resets the count); once `limit`
/// bytes are kept the rest is ignored.
pub open spec fn unescape_state(nal: Seq<u8>, limit: nat) -> (Seq<u8>, nat)
    decreases nal.len(),
{
    if nal.len() == 0 {
        (Seq::empty(), 0)
    } else {
        let (out, zeros) = unescape_state(nal.drop_last(), limit);
        let b = nal.last();
        if out.len() == limit {
            (out, zeros)
        } else if zeros >= 2 && b == 0x03 {
            (out, 0)
        } else {
            (out.push(b), if b == 0 { zeros + 1 } else { 0 })
        }
    }
}

proof fn lemma_unescape_bounds(nal: Seq<u8>, limit: nat)
    ensures
        unescape_state(nal, limit).0.len() <= limit,
        unescape_state(nal, limit).1 <= unescape_state(nal, limit).0.len(),
    decreases nal.len(),
{
    if nal.len() > 0 {
        lemma_unescape_bounds(nal.drop_last(), limit);
    }
}

/// Drops the emulation prevention bytes of a NAL payload, keeping at most `limit` bytes.
fn rbsp_unescape(nal: &[u8], limit: usize) -> (r: Vec<u8>)
    ensures
        r@ == unescape_state(nal@, limit as nat).0,
{
    let mut out: Vec<u8> = Vec::new();
    let mut zeros: usize = 0;
    let mut i: usize = 0;
    while i < nal.len()
        invariant
            i <= nal@.len(),
            (out@, zeros as nat) == unescape_state(nal@.subrange(0, i as int), limit as nat),
            out@.len() <= limit,
            zeros <= out@.len(),
        decreases nal@.len() - i,
    {
        proof {
            assert(nal@.subrange(0, i + 1).drop_last() =~= nal@.subrange(0, i as int));
        }
        if out.len() == limit {
            proof {
                assert forall|j: int| i < j <= nal@.len() implies #[trigger] unescape_state(nal@.subrange(0, j), limit as nat) == (out@, zeros as nat) by {
                    lemma_unescape_frozen(nal@, i as int, j, limit as nat);
                }
                assert(nal@.subrange(0, nal@.len() as int) =~= nal@);
            }
            return out;
        }
        let byte = nal[i];
        if zeros >= 2 && byte == 0x03 {
            zeros = 0;
            i = i + 1;
            continue;
        }
        zeros = if byte == 0 { zeros + 1 } else { 0 };
        out.push(byte);
        i = i + 1;
    }
    proof {
        assert(nal@.subrange(0, nal@.len() as int) =~= nal@);
    }
    out
}

proof fn lemma_unescape_frozen(nal: Seq<u8>, i: int, j: int, limit: nat)
    requires
        0 <= i < j <= nal.len(),
        unescape_state(nal.subrange(0, i), limit).0.len() == limit,
    ensures
        unescape_state(nal.subrange(0, j), limit) == unescape_state(nal.subrange(0, i), limit),
    decreases j - i,
{
    assert(nal.subrange(0, j).drop_last() =~= nal.subrange(0, j - 1));
    if j - 1 > i {
        lemma_unescape_frozen(nal, i, j - 1, limit);
    }
}

/// The twelve profile/tier/level bytes of an HEVC SPS and its sub-layer count, read from the
/// first fifteen unescaped bytes; `None` if there are fewer.
pub open spec fn ptl_spec(sps: Seq<u8>) -> Option<(Seq<u8>, u8)> {
    let rb = unescape_state(sps, 15).0;
    if rb.len() < 15 {
        None
    } else {
        Some((rb.subrange(3, 15), (((rb[2] >> 1u32) & 0x07u8) + 1) as u8))
    }
}

fn sps_profile_tier_level(sps: &[u8]) -> (r: Option<([u8; 12], u8)>)
    ensures
        match ptl_spec(sps@) {
            None => r is None,
            Some((ptl, sub)) => r matches Some((a, s)) && a@ == ptl && s == sub,
        },
{
    let rbsp = rbsp_unescape(sps, 15);
    if rbsp.len() < 15 {
        return None;
    }
    let ptl: [u8; 12] = [
        rbsp[3], rbsp[4], rbsp[5], rbsp[6], rbsp[7], rbsp[8], rbsp[9], rbsp[10], rbsp[11], rbsp[12], rbsp[13], rbsp[14],
    ];
    let b2 = rbsp[2];
    assert((b2 >> 1u32) & 0x07u8 <= 7) by (bit_vector);
    let sub_layers = ((b2 >> 1) & 0x07) + 1;
    assert(ptl@ =~= rbsp@.subrange(3, 15));
    Some((ptl, sub_layers))
}

/// The NALs of `buf` with HEVC type `t` (bits 1..=6 of the header byte), in order.
pub open spec fn hevc_list(buf: Seq<u8>, t: u8) -> Seq<Seq<u8>> {
    nals_where(buf, nal_ranges_of(buf), |b: u8| header_type(b, 1, 0x3F) == t)
}

/// An `hvcC` array of NALs of type `t`: completeness flag and type, count, records; nothing
/// for no NALs.
pub open spec fn hvcc_array(t: u8, nals: Seq<Seq<u8>>) -> Seq<u8> {
    if nals.len() == 0 {
        Seq::empty()
    } else {
        seq![0x80u8 | t] + be16(nals.len() as u16) + length_records(nals)
    }
}

/// The fixed `hvcC` header for prefix size `nal_size_len` before the profile is known.
pub open spec fn hvcc_skeleton(nal_size_len: usize) -> Seq<u8> {
    seq![
        0x01u8, 0x01, 0x00, 0x00, 0x00, 0x00, 0x00, 0x00, 0x00, 0x00, 0x00, 0x00, 0x00, 0xF0, 0x00, 0xFC,
        0xFD, 0xF8, 0xF8, 0x00, 0x00, 0x04u8 | ((nal_size_len - 1) as u8), 0x00,
    ]
}

/// The `hvcC` header: the skeleton with the profile/tier/level and sub-layer count of the
/// first SPS when it has them, and the number of arrays.
pub open spec fn hvcc_header(nal_size_len: usize, first_sps: Seq<u8>, num_arrays: u8) -> Seq<u8> {
    let base = hvcc_skeleton(nal_size_len);
    let patched = match ptl_spec(first_sps) {
        Some((ptl, sub)) => base.subrange(0, 1) + ptl + base.subrange(13, 21)
            + seq![((sub & 0x07u8) << 3u32) | ((nal_size_len - 1) as u8), 0x00u8],
        None => base,
    };
    patched.update(22, num_arrays)
}

/// The `hvcC` record for prefix size `nal_size_len` (1, 2 or 4) and the parameter sets in
/// `buf`; `None` for another size or without both an SPS and a PPS.
pub open spec fn hvcc_serialize_spec(nal_size_len: usize, buf: Seq<u8>) -> Option<Seq<u8>> {
    let vps = hevc_list(buf, 32);
    let sps = hevc_list(buf, 33);
    let pps = hevc_list(buf, 34);
    if !(nal_size_len == 1 || nal_size_len == 2 || nal_size_len == 4) || sps.len() == 0 || pps.len() == 0 {
        None
    } else {
        let num_arrays: u8 = if vps.len() == 0 { 2 } else { 3 };
        Some(hvcc_header(nal_size_len, sps[0], num_arrays) + hvcc_array(32, vps) + hvcc_array(33, sps) + hvcc_array(34, pps))
    }
}

fn append_array(out: &mut Vec<u8>, num_arrays: &mut u8, nal_type: u8, nals: &Vec<Vec<u8>>)
    ensures
        final(out)@ == old(out)@ + hvcc_array(nal_type, nals@.map_values(|n: Vec<u8>| n@)),
        *final(num_arrays) == if nals@.len() == 0 {
            *old(num_arrays)
        } else if *old(num_arrays) == 255 {
            255u8
        } else {
            (*old(num_arrays) + 1) as u8
        },
{
    if nals.len() == 0 {
        return;
    }
    *num_arrays = num_arrays.saturating_add(1);
    out.push(0x80 | nal_type);
    let count = be16_bytes(nals.len() as u16);
    out.extend_from_slice(count.as_slice());
    push_length_records(out, nals);
    proof {
        assert(nals@.map_values(|n: Vec<u8>| n@).len() == nals@.len());
    }
}

/// Serializes the VPS, SPS and PPS NALs of `avcc.sps_pps` into an `hvcC` record.
pub fn hvcc_config_serialize(avcc: &AvccConfig) -> (r: Option<Vec<u8>>)
    ensures
        match hvcc_serialize_spec(avcc.nal_size_len, avcc.sps_pps@) {
            None => r is None,
            Some(b) => r matches Some(v) && v@ == b,
        },
{
    let nsl = avcc.nal_size_len;
    if !(nsl == 1 || nsl == 2 || nsl == 4) {
        return None;
    }
    let buf = avcc.sps_pps.as_slice();
    let ranges = split_nal_ranges(buf);
    let vps_list = collect_kind(buf, &ranges, 32, 1, 0x3F);
    let sps_list = collect_kind(buf, &ranges, 33, 1, 0x3F);
    let pps_list = collect_kind(buf, &ranges, 34, 1, 0x3F);
    let ghost vps = hevc_list(buf@, 32);
    let ghost sps = hevc_list(buf@, 33);
    let ghost pps = hevc_list(buf@, 34);
    if sps_list.len() == 0 || pps_list.len() == 0 {
        return None;
    }
    let low = (nsl - 1) as u8;
    let mut out: Vec<u8> = vec![
        0x01u8, 0x01, 0x00, 0x00, 0x00, 0x00, 0x00, 0x00, 0x00, 0x00, 0x00, 0x00, 0x00, 0xF0, 0x00, 0xFC,
        0xFD, 0xF8, 0xF8, 0x00, 0x00, 0x04u8 | low, 0x00,
    ];
    proof {
        assert(out@ =~= hvcc_skeleton(nsl));
        assert(sps_list@[0]@ == sps[0]);
    }
    let ghost base = out@;
    match sps_profile_tier_level(sps_list[0].as_slice()) {
        Some((ptl, sub_layers)) => {
            let mut k: usize = 0;
            while k < 12
                invariant
                    k <= 12,
                    out@.len() == 23,
                    ptl@.len() == 12,
                    forall|q: int| 0 <= q < 23 ==> #[trigger] out@[q] == if 1 <= q < 1 + k { ptl@[q - 1] } else { base[q] },
                decreases 12 - k,
            {
                out.set(1 + k, ptl[k]);
                k = k + 1;
            }
            out.set(21, ((sub_layers & 0x07) << 3) | low);
            proof {
                assert(out@ =~= base.subrange(0, 1) + ptl@ + base.subrange(13, 21)
                    + seq![((sub_layers & 0x07u8) << 3u32) | ((nsl - 1) as u8), 0x00u8]);
            }
        },
        None => {},
    }
    let ghost patched = out@;
    let mut num_arrays: u8 = 0;
    append_array(&mut out, &mut num_arrays, 32, &vps_list);
    append_array(&mut out, &mut num_arrays, 33, &sps_list);
    append_array(&mut out, &mut num_arrays, 34, &pps_list);
    out.set(22, num_arrays);
    proof {
        assert(vps_list@.map_values(|n: Vec<u8>| n@).len() == vps_list@.len());
        assert(out@ =~= patched.update(22, num_arrays) + hvcc_array(32, vps) + hvcc_array(33, sps) + hvcc_array(34, pps));
    }
    Some(out)
}


/// `count` `hvcC` arrays from `pos` on, their NALs turned into start code and NAL each, and the
/// position after them; `None` if they run past the end.
pub open spec fn parse_arrays(data: Seq<u8>, pos: int, count: nat) -> Option<(Seq<u8>, int)>
    decreases count,
{
    if count == 0 {
        Some((Seq::empty(), pos))
    } else if pos + 3 > data.len() {
        None
    } else {
        let num = data[pos + 1] as int * 256 + data[pos + 2] as int;
        match parse_records(data, pos + 3, num as nat) {
            None => None,
            Some((h, p)) => match parse_arrays(data, p, (count - 1) as nat) {
                None => None,
                Some((rest, end)) => Some((h + rest, end)),
            },
        }
    }
}

/// What an `hvcC` record holds: the prefix size and the parameter sets behind start codes;
/// `None` if it is short, of another version, with a prefix size other than 1, 2 or 4, or
/// its arrays run past the end.
pub open spec fn hvcc_deserialize_spec(data: Seq<u8>) -> Option<(usize, Seq<u8>)> {
    if data.len() < 23 || data[0] != 1 {
        None
    } else {
        let nal_size_len = ((data[21] & 0x03) + 1) as usize;
        if !(nal_size_len == 1 || nal_size_len == 2 || nal_size_len == 4) {
            None
        } else {
            match parse_arrays(data, 23, data[22] as nat) {
                None => None,
                Some((h, _)) => Some((nal_size_len, h)),
            }
        }
    }
}

/// Reads an `hvcC` record into Annex B parameter sets.
pub fn hvcc_config_deserialize(data: &[u8]) -> (r: Option<HvccConfig>)
    ensures
        match hvcc_deserialize_spec(data@) {
            None => r is None,
            Some((n, h)) => r matches Some(c) && c.nal_size_len == n && c.vps_sps_pps@ == h,
        },
{
    let len = data.len();
    if len < 23 || data[0] != 1 {
        return None;
    }
    let b21 = data[21];
    assert(b21 & 0x03 <= 3) by (bit_vector);
    let nal_size_len = ((b21 & 0x03) as usize) + 1;
    if !(nal_size_len == 1 || nal_size_len == 2 || nal_size_len == 4) {
        return None;
    }
    let num_of_arrays = data[22] as usize;
    let mut pos: usize = 23;
    let mut header: Vec<u8> = Vec::new();
    let mut k: usize = 0;
    while k < num_of_arrays
        invariant
            len == data@.len(),
            23 <= pos <= len,
            k <= num_of_arrays,
            num_of_arrays == data@[22],
            parse_arrays(data@, 23, num_of_arrays as nat) == match parse_arrays(data@, pos as int, (num_of_arrays - k) as nat) {
                None => None,
                Some((h2, end2)) => Some((header@ + h2, end2)),
            },
        decreases num_of_arrays - k,
    {
        if 3 > len - pos {
            return None;
        }
        let num_nalus = (data[pos + 1] as usize) * 256 + (data[pos + 2] as usize);
        let ghost before = header@;
        let next = match read_records(data, pos + 3, num_nalus, &mut header) {
            Some(p) => p,
            None => return None,
        };
        proof {
            match parse_arrays(data@, next as int, (num_of_arrays - k - 1) as nat) {
                Some((rest, _)) => {
                    assert(before + (header@.subrange(before.len() as int, header@.len() as int) + rest) =~= header@ + rest);
                },
                None => {},
            }
            assert(header@ =~= before + header@.subrange(before.len() as int, header@.len() as int));
        }
        pos = next;
        k = k + 1;
    }
    proof {
        assert(header@ + Seq::<u8>::empty() =~= header@);
    }
    Some(HvccConfig { nal_size_len, vps_sps_pps: header })
}


/// Length of the image description fields before the child atoms of a visual sample entry.
pub const IMAGE_DESCRIPTION_BASE_LEN: usize = 86;

/// Atom tag `avcC`.
pub const AVCC_TAG: [u8; 4] = [0x61, 0x76, 0x63, 0x43];

/// Atom tag `hvcC`.
pub const HVCC_TAG: [u8; 4] = [0x68, 0x76, 0x63, 0x43];

/// Sample entry tag `avc1`.
pub const AVC1_TAG: [u8; 4] = [0x61, 0x76, 0x63, 0x31];

/// Sample entry tag `hvc1`.
pub const HVC1_TAG: [u8; 4] = [0x68, 0x76, 0x63, 0x31];

/// The first `avcC` or `hvcC` child atom among the atoms of `data` from `pos` up to `limit`:
/// where its payload starts and ends; `None` when an atom is malformed or none is found.
pub open spec fn find_config_atom(data: Seq<u8>, pos: int, limit: int) -> Option<(int, int)>
    decreases limit - pos,
{
    if pos + 8 > limit {
        None
    } else {
        let atom_size = be_value(data.subrange(pos, pos + 4)) as int;
        if atom_size < 8 || pos + atom_size > limit {
            None
        } else {
            let tag = data.subrange(pos + 4, pos + 8);
            if tag == AVCC_TAG@ || tag == HVCC_TAG@ {
                Some((pos + 8, pos + atom_size))
            } else {
                find_config_atom(data, pos + atom_size, limit)
            }
        }
    }
}

/// The codec configuration atom of a visual sample entry: its tag and payload, found among
/// the child atoms after the image description, within the entry's declared size.
pub open spec fn extract_config_spec(data: Seq<u8>) -> Option<(Seq<u8>, Seq<u8>)> {
    if data.len() < IMAGE_DESCRIPTION_BASE_LEN + 8 {
        None
    } else {
        let id_size = be_value(data.subrange(0, 4)) as int;
        let limit = if id_size < data.len() { id_size } else { data.len() as int };
        if limit < IMAGE_DESCRIPTION_BASE_LEN + 8 {
            None
        } else {
            match find_config_atom(data, IMAGE_DESCRIPTION_BASE_LEN as int, limit) {
                None => None,
                Some((start, end)) => Some((data.subrange(start - 4, start), data.subrange(start, end))),
            }
        }
    }
}

/// Big-endian 32-bit value of the four bytes at `p`.
fn read_be32(data: &[u8], p: usize) -> (r: usize)
    requires
        p + 4 <= data@.len(),
    ensures
        r == be_value(data@.subrange(p as int, p + 4)),
{
    let ghost s = data@.subrange(p as int, p + 4);
    proof {
        reveal_with_fuel(be_value, 5);
        assert(s.drop_last().drop_last().drop_last().drop_last() =~= Seq::<u8>::empty());
    }
    let hi = ((data[p] as usize) * 256 + (data[p + 1] as usize)) * 256 + (data[p + 2] as usize);
    hi * 256 + (data[p + 3] as usize)
}

/// Extracts the codec configuration payload (`avcC` or `hvcC`) from a visual sample entry
/// (`avc1`/`hvc1`): its tag and payload.
pub fn hvcc_sample_entry_extract_codec_config(data: &[u8]) -> (r: Option<([u8; 4], Vec<u8>)>)
    ensures
        match extract_config_spec(data@) {
            None => r is None,
            Some((tag, payload)) => r matches Some((t, p)) && t@ == tag && p@ == payload,
        },
{
    let len = data.len();
    if len < IMAGE_DESCRIPTION_BASE_LEN + 8 {
        return None;
    }
    let id_size = read_be32(data, 0);
    let limit = if id_size < len { id_size } else { len };
    if limit < IMAGE_DESCRIPTION_BASE_LEN + 8 {
        return None;
    }
    let mut pos: usize = IMAGE_DESCRIPTION_BASE_LEN;
    while pos <= limit && 8 <= limit - pos
        invariant
            len == data@.len(),
            limit <= len,
            len >= IMAGE_DESCRIPTION_BASE_LEN + 8,
            limit >= IMAGE_DESCRIPTION_BASE_LEN + 8,
            id_size == be_value(data@.subrange(0, 4)),
            limit == if id_size < len { id_size } else { len },
            IMAGE_DESCRIPTION_BASE_LEN <= pos,
            find_config_atom(data@, IMAGE_DESCRIPTION_BASE_LEN as int, limit as int) == find_config_atom(data@, pos as int, limit as int),
        decreases limit - pos,
    {
        let atom_size = read_be32(data, pos);
        if atom_size < 8 || atom_size > limit - pos {
            return None;
        }
        let t0 = data[pos + 4];
        let t1 = data[pos + 5];
        let t2 = data[pos + 6];
        let t3 = data[pos + 7];
        let ghost tag = data@.subrange(pos + 4, pos + 8);
        proof {
            assert(tag == AVCC_TAG@ <==> (t0 == 0x61 && t1 == 0x76 && t2 == 0x63 && t3 == 0x43)) by {
                if t0 == 0x61 && t1 == 0x76 && t2 == 0x63 && t3 == 0x43 {
                    assert(tag =~= AVCC_TAG@);
                }
            }
            assert(tag == HVCC_TAG@ <==> (t0 == 0x68 && t1 == 0x76 && t2 == 0x63 && t3 == 0x43)) by {
                if t0 == 0x68 && t1 == 0x76 && t2 == 0x63 && t3 == 0x43 {
                    assert(tag =~= HVCC_TAG@);
                }
            }
        }
        if (t0 == 0x61 || t0 == 0x68) && t1 == 0x76 && t2 == 0x63 && t3 == 0x43 {
            let mut payload: Vec<u8> = Vec::new();
            payload.extend_from_slice(&data[pos + 8..pos + atom_size]);
            let tag_arr: [u8; 4] = [t0, t1, t2, t3];
            proof {
                assert(tag_arr@ =~= tag);
                assert(payload@ =~= data@.subrange(pos + 8, pos + atom_size));
            }
            return Some((tag_arr, payload));
        }
        pos = pos + atom_size;
    }
    None
}

/// The colour atom appended to `hvc1` entries: BT.709 primaries and matrix, sRGB transfer.
pub const COLR_ATOM: [u8; 18] = [0, 0, 0, 18, 0x63, 0x6F, 0x6C, 0x72, 0x6E, 0x63, 0x6C, 0x63, 0, 1, 0, 13, 0, 1];

/// The 32-byte compressor name field: `HEVC` for `hvc1` entries, else the AVC name.
pub open spec fn compressor_name(is_hevc: bool) -> Seq<u8> {
    if is_hevc {
        seq![4u8, 0x48, 0x45, 0x56, 0x43] + Seq::new(27, |i: int| 0u8)
    } else {
        seq![6u8, 0x27, 0x31, 0x63, 0x76, 0x61, 0x27] + Seq::new(25, |i: int| 0u8)
    }
}

/// The fixed fields of an image description after the entry tag and before the dimensions.
pub open spec fn description_fixed() -> Seq<u8> {
    be_bytes(0, 4) + be_bytes(0, 2) + be_bytes(0xFFFF, 2) + be_bytes(0, 2) + be_bytes(0, 2) + be_bytes(0, 4)
        + be_bytes(0x200, 4) + be_bytes(0x200, 4)
}

/// The fields of an image description after the dimensions, up to the name.
pub open spec fn description_resolution() -> Seq<u8> {
    be_bytes(0x48_0000, 4) + be_bytes(0x48_0000, 4) + be_bytes(0, 4) + be_bytes(1, 2)
}

/// The image description of a visual sample entry of `id_size` bytes: size, tag, reserved
/// fields, dimensions, resolution, compressor name, depth and colour table id.
pub open spec fn description_spec(id_size: nat, entry_tag: Seq<u8>, width: u32, height: u32, is_hevc: bool) -> Seq<u8> {
    be_bytes(id_size, 4) + entry_tag + description_fixed() + be_bytes(width as nat, 2) + be_bytes(height as nat, 2)
        + description_resolution() + compressor_name(is_hevc) + be_bytes(24, 2) + be_bytes(0xFFFF, 2)
}

/// A visual sample entry: the image description, then the child atom holding `payload` under
/// `config_tag`, then the colour atom for `hvc1` entries.
pub open spec fn stsd_atom_spec(width: u32, height: u32, payload: Seq<u8>, entry_tag: Seq<u8>, config_tag: Seq<u8>) -> Seq<u8> {
    let is_hevc = entry_tag == HVC1_TAG@;
    let colr = if is_hevc { COLR_ATOM@ } else { Seq::<u8>::empty() };
    let id_size = ((IMAGE_DESCRIPTION_BASE_LEN + payload.len() + 8 + colr.len()) as u32) as nat;
    let child_size = ((payload.len() + 8) as u32) as nat;
    description_spec(id_size, entry_tag, width, height, is_hevc) + be_bytes(child_size, 4) + config_tag + payload + colr
}

fn push_description_fixed(out: &mut Vec<u8>)
    ensures
        final(out)@ == old(out)@ + description_fixed(),
{
    let ghost o = out@;
    push_be(out, 0, 4);
    push_be(out, 0, 2);
    push_be(out, 0xFFFF, 2);
    push_be(out, 0, 2);
    push_be(out, 0, 2);
    push_be(out, 0, 4);
    push_be(out, 0x200, 4);
    push_be(out, 0x200, 4);
    assert(out@ =~= o + description_fixed());
}

fn push_description_resolution(out: &mut Vec<u8>)
    ensures
        final(out)@ == old(out)@ + description_resolution(),
{
    let ghost o = out@;
    push_be(out, 0x48_0000, 4);
    push_be(out, 0x48_0000, 4);
    push_be(out, 0, 4);
    push_be(out, 1, 2);
    assert(out@ =~= o + description_resolution());
}

fn compressor_name_bytes(is_hevc: bool) -> (r: [u8; 32])
    ensures
        r@ == compressor_name(is_hevc),
{
    let mut name: [u8; 32] = [0u8; 32];
    if is_hevc {
        name[0] = 4;
        name[1] = 0x48;
        name[2] = 0x45;
        name[3] = 0x56;
        name[4] = 0x43;
    } else {
        name[0] = 6;
        name[1] = 0x27;
        name[2] = 0x31;
        name[3] = 0x63;
        name[4] = 0x76;
        name[5] = 0x61;
        name[6] = 0x27;
    }
    assert(name@ =~= compressor_name(is_hevc));
    name
}

fn image_description(id_size: u32, entry_tag: [u8; 4], width: u32, height: u32, is_hevc: bool) -> (r: Vec<u8>)
    ensures
        r@ == description_spec(id_size as nat, entry_tag@, width, height, is_hevc),
{
    let mut out: Vec<u8> = Vec::new();
    push_be(&mut out, id_size as u64, 4);
    out.extend_from_slice(entry_tag.as_slice());
    push_description_fixed(&mut out);
    push_be(&mut out, (width as u16) as u64, 2);
    push_be(&mut out, (height as u16) as u64, 2);
    push_description_resolution(&mut out);
    let name = compressor_name_bytes(is_hevc);
    out.extend_from_slice(name.as_slice());
    push_be(&mut out, 24, 2);
    push_be(&mut out, 0xFFFF, 2);
    proof {
        lemma_be_bytes_mod(width as nat, 2);
        lemma_be_bytes_mod(height as nat, 2);
        assert((width as u16) as u32 == width % 0x10000) by (bit_vector);
        assert((height as u16) as u32 == height % 0x10000) by (bit_vector);
        assert(out@ =~= description_spec(id_size as nat, entry_tag@, width, height, is_hevc));
    }
    out
}

fn push_be(out: &mut Vec<u8>, value: u64, n: usize)
    ensures
        final(out)@ == old(out)@ + be_bytes(value as nat, n as nat),
{
    let bytes = encode_be(value, n);
    out.extend_from_slice(bytes.as_slice());
}

/// A visual sample entry (`avc1`) holding an `avcC` payload.
pub fn hvcc_write_stsd_atom_from_old_format(width: u32, height: u32, config_payload: &[u8]) -> (r: Vec<u8>)
    requires
        config_payload@.len() + IMAGE_DESCRIPTION_BASE_LEN + 8 + 18 <= usize::MAX,
    ensures
        r@ == stsd_atom_spec(width, height, config_payload@, AVC1_TAG@, AVCC_TAG@),
{
    hvcc_write_stsd_atom_from_old_format_with_tags(width, height, config_payload, AVC1_TAG, AVCC_TAG)
}

/// A visual sample entry with the given entry and configuration atom tags, e.g. `hvc1` and
/// `hvcC` for HEVC.
pub fn hvcc_write_stsd_atom_from_old_format_with_tags(
    width: u32,
    height: u32,
    config_payload: &[u8],
    sample_entry_tag: [u8; 4],
    config_atom_tag: [u8; 4],
) -> (r: Vec<u8>)
    requires
        config_payload@.len() + IMAGE_DESCRIPTION_BASE_LEN + 8 + 18 <= usize::MAX,
    ensures
        r@ == stsd_atom_spec(width, height, config_payload@, sample_entry_tag@, config_atom_tag@),
{
    let is_hevc = sample_entry_tag[0] == 0x68 && sample_entry_tag[1] == 0x76 && sample_entry_tag[2] == 0x63
        && sample_entry_tag[3] == 0x31;
    proof {
        if is_hevc {
            assert(sample_entry_tag@ =~= HVC1_TAG@);
        } else {
            assert(sample_entry_tag@ != HVC1_TAG@) by {
                if sample_entry_tag@ == HVC1_TAG@ {
                    assert(sample_entry_tag@[0] == 0x68);
                }
            }
        }
    }
    let colr_len: usize = if is_hevc { 18 } else { 0 };
    let payload_len = config_payload.len();
    let child_atom_size = (payload_len + 8) as u32;
    let id_size = (IMAGE_DESCRIPTION_BASE_LEN + payload_len + 8 + colr_len) as u32;

    let mut out = image_description(id_size, sample_entry_tag, width, height, is_hevc);
    let ghost desc = out@;
    push_be(&mut out, child_atom_size as u64, 4);
    out.extend_from_slice(config_atom_tag.as_slice());
    out.extend_from_slice(config_payload);
    if is_hevc {
        let colr = COLR_ATOM;
        out.extend_from_slice(colr.as_slice());
    }
    proof {
        let colr = if is_hevc { COLR_ATOM@ } else { Seq::<u8>::empty() };
        assert(colr.len() == colr_len);
        assert(out@ =~= desc + be_bytes(child_atom_size as nat, 4) + config_atom_tag@ + config_payload@ + colr);
    }
    out
}

/// Only the low `n` bytes of a value show in its encoding.
proof fn lemma_be_bytes_mod(v: nat, n: nat)
    requires
        n == 2,
    ensures
        be_bytes(v, n) == be_bytes(v % 0x1_0000, n),
{
    reveal_with_fuel(be_bytes, 3);
    assert(v % 0x1_0000 % 256 == v % 256) by (nonlinear_arith);
    assert((v % 0x1_0000) / 256 % 256 == v / 256 % 256) by (nonlinear_arith);
}

/// Four big-endian bytes read back give the value they were written from.
proof fn lemma_be4_roundtrip(v: nat)
    requires
        v < 0x1_0000_0000,
    ensures
        be_bytes(v, 4).len() == 4,
        be_value(be_bytes(v, 4)) == v,
{
    reveal_with_fuel(be_bytes, 5);
    reveal_with_fuel(be_value, 5);
    let x = v as u64;
    let b0 = (x / 256 / 256 / 256 % 256) as u8;
    let b1 = (x / 256 / 256 % 256) as u8;
    let b2 = (x / 256 % 256) as u8;
    let b3 = (x % 256) as u8;
    let s = be_bytes(v, 4);
    assert(s =~= seq![b0, b1, b2, b3]);
    assert(s.drop_last() =~= seq![b0, b1, b2]);
    assert(s.drop_last().drop_last() =~= seq![b0, b1]);
    assert(s.drop_last().drop_last().drop_last() =~= seq![b0]);
    assert(s.drop_last().drop_last().drop_last().drop_last() =~= Seq::<u8>::empty());
    assert(((((x / 256 / 256 / 256 % 256) * 256 + x / 256 / 256 % 256) * 256 + x / 256 % 256) * 256 + x % 256) == x)
        by (bit_vector)
        requires
            x < 0x1_0000_0000,
    ;
}

/// Extracting the configuration from a sample entry written with an `avcC` or `hvcC` child
/// atom gives back that tag and payload.
pub proof fn lemma_stsd_extract_roundtrip(width: u32, height: u32, payload: Seq<u8>, entry_tag: Seq<u8>, config_tag: Seq<u8>)
    requires
        entry_tag.len() == 4,
        config_tag == AVCC_TAG@ || config_tag == HVCC_TAG@,
        payload.len() + IMAGE_DESCRIPTION_BASE_LEN + 8 + 18 < 0x1_0000_0000,
    ensures
        extract_config_spec(stsd_atom_spec(width, height, payload, entry_tag, config_tag)) == Some((config_tag, payload)),
{
    let is_hevc = entry_tag == HVC1_TAG@;
    let colr = if is_hevc { COLR_ATOM@ } else { Seq::<u8>::empty() };
    let id_size = ((IMAGE_DESCRIPTION_BASE_LEN + payload.len() + 8 + colr.len()) as u32) as nat;
    let child_size = ((payload.len() + 8) as u32) as nat;
    let desc = description_spec(id_size, entry_tag, width, height, is_hevc);
    let data = stsd_atom_spec(width, height, payload, entry_tag, config_tag);
    lemma_be4_roundtrip(id_size);
    lemma_be4_roundtrip(child_size);
    reveal_with_fuel(be_bytes, 5);
    assert(be_bytes(width as nat, 2).len() == 2);
    assert(be_bytes(height as nat, 2).len() == 2);
    assert(description_fixed().len() == 24);
    assert(description_resolution().len() == 14);
    assert(compressor_name(is_hevc).len() == 32);
    assert(desc.len() == 86);
    assert(data.len() == id_size);
    assert(data.subrange(0, 4) =~= be_bytes(id_size, 4));
    assert(data.subrange(86, 90) =~= be_bytes(child_size, 4));
    assert(data.subrange(90, 94) =~= config_tag);
    assert(data.subrange(94, 94 + payload.len() as int) =~= payload);
    assert(find_config_atom(data, 86, data.len() as int) == Some((94int, 94 + payload.len() as int)));
}

/// The `hvcC` record carries the profile, tier and level of its first SPS: when that SPS
/// has at least fifteen bytes once emulation prevention is undone, bytes 1 to 12 of the
/// record are its unescaped bytes 3 to 14, the block after the two-byte NAL header and the
/// byte of VPS id and sub-layer count; so byte 1 is the profile space, tier and profile,
/// and byte 12 the general level. Byte 21 holds the number of temporal sub-layers (bits 1 to
/// 3 of unescaped byte 2, plus one) in its bits 3 to 5 and the prefix size less one below.
pub proof fn lemma_hvcc_profile_from_sps(nal_size_len: usize, buf: Seq<u8>)
    requires
        hvcc_serialize_spec(nal_size_len, buf) is Some,
        unescape_state(hevc_list(buf, 33)[0], 15).0.len() >= 15,
    ensures
        forall|k: int|
            1 <= k < 13 ==> #[trigger] hvcc_serialize_spec(nal_size_len, buf)->0[k] == unescape_state(
                hevc_list(buf, 33)[0],
                15,
            ).0[k + 2],
        hvcc_serialize_spec(nal_size_len, buf)->0[1] == unescape_state(hevc_list(buf, 33)[0], 15).0[3],
        hvcc_serialize_spec(nal_size_len, buf)->0[12] == unescape_state(hevc_list(buf, 33)[0], 15).0[14],
        hvcc_serialize_spec(nal_size_len, buf)->0[21] == ((((((unescape_state(hevc_list(buf, 33)[0], 15).0[2]
            >> 1u32) & 0x07u8) + 1) as u8) & 0x07u8) << 3u32) | ((nal_size_len - 1) as u8),
{
    let sps = hevc_list(buf, 33)[0];
    let rb = unescape_state(sps, 15).0;
    let vps = hevc_list(buf, 32);
    let num_arrays: u8 = if vps.len() == 0 { 2 } else { 3 };
    let base = hvcc_skeleton(nal_size_len);
    let ptl = rb.subrange(3, 15);
    let sub = (((rb[2] >> 1u32) & 0x07u8) + 1) as u8;
    let patched = base.subrange(0, 1) + ptl + base.subrange(13, 21) + seq![
        ((sub & 0x07u8) << 3u32) | ((nal_size_len - 1) as u8),
        0x00u8,
    ];
    let h = hvcc_header(nal_size_len, sps, num_arrays);
    assert(h == patched.update(22, num_arrays));
    assert(h.len() == 23);
    let rec = hvcc_serialize_spec(nal_size_len, buf)->0;
    assert(rec == h + hvcc_array(32, vps) + hvcc_array(33, hevc_list(buf, 33)) + hvcc_array(34, hevc_list(buf, 34)));
    assert forall|k: int| 1 <= k < 13 implies #[trigger] rec[k] == rb[k + 2] by {
        assert(rec[k] == h[k]);
        assert(h[k] == patched[k]);
        assert(patched[k] == ptl[k - 1]);
    }
    assert(rec[1] == rb[3]);
    assert(rec[12] == rb[14]);
    assert(rec[21] == h[21]);
    assert(h[21] == patched[21]);
}

} // verus!
