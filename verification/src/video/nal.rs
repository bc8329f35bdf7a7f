use vstd::prelude::*;
use vstd::std_specs::convert::FromSpecImpl;
use exp_golomb::ExpGolombDecoder;
use crate::video::golomb::{
    golomb_bits, byte_bits, bits_value, golomb_unsigned, golomb_decoder, golomb_next_bit, golomb_next_unsigned,
};

verus! {

/// A NAL unit inside an Annex B or length-prefixed (AVCC/HVCC) buffer: where its prefix
/// (start code or length field) starts, how long the prefix is, and the payload size.
#[derive(Debug, Clone, Copy, PartialEq, Eq, Structural)]
pub struct NalChunk {
    pub prefix_start: usize,
    pub prefix_len: usize,
    pub data_size: usize,
}

#[derive(Debug, PartialEq, Eq, Structural)]
pub enum NalError {
    Ending,
    Underrun,
    Param,
}

/// H.264 `nal_unit_type`.
#[derive(Debug, PartialEq, Eq, Clone, Copy, Structural)]
pub enum NalType {
    Unspecified(u8),
    NonIdrSlice,
    DataPartitionA,
    DataPartitionB,
    DataPartitionC,
    IdrSlice,
    Sei,
    Sps,
    Pps,
    Aud,
    EndOfSequence,
    EndOfStream,
    FillerData,
    SpsExt,
    PrefixNal,
    SubSps,
    Reserved(u8),
}

/// The H.264 NAL type with number `t` (the low five bits of a header byte).
pub open spec fn nal_type_of(t: u8) -> NalType {
    if t == 1 {
        NalType::NonIdrSlice
    } else if t == 2 {
        NalType::DataPartitionA
    } else if t == 3 {
        NalType::DataPartitionB
    } else if t == 4 {
        NalType::DataPartitionC
    } else if t == 5 {
        NalType::IdrSlice
    } else if t == 6 {
        NalType::Sei
    } else if t == 7 {
        NalType::Sps
    } else if t == 8 {
        NalType::Pps
    } else if t == 9 {
        NalType::Aud
    } else if t == 10 {
        NalType::EndOfSequence
    } else if t == 11 {
        NalType::EndOfStream
    } else if t == 12 {
        NalType::FillerData
    } else if t == 13 {
        NalType::SpsExt
    } else if t == 14 {
        NalType::PrefixNal
    } else if t == 15 {
        NalType::SubSps
    } else if 16 <= t <= 23 {
        NalType::Reserved(t)
    } else {
        NalType::Unspecified(t)
    }
}

/// The number of an H.264 NAL type.
pub open spec fn nal_type_code(t: NalType) -> u8 {
    match t {
        NalType::NonIdrSlice => 1,
        NalType::DataPartitionA => 2,
        NalType::DataPartitionB => 3,
        NalType::DataPartitionC => 4,
        NalType::IdrSlice => 5,
        NalType::Sei => 6,
        NalType::Sps => 7,
        NalType::Pps => 8,
        NalType::Aud => 9,
        NalType::EndOfSequence => 10,
        NalType::EndOfStream => 11,
        NalType::FillerData => 12,
        NalType::SpsExt => 13,
        NalType::PrefixNal => 14,
        NalType::SubSps => 15,
        NalType::Reserved(b) => b,
        NalType::Unspecified(b) => b,
    }
}

/// A NAL type as `from_byte` produces it: reserved numbers in 16..=23, unspecified ones
/// 0 or in 24..=31.
pub open spec fn nal_type_canonical(t: NalType) -> bool {
    match t {
        NalType::Reserved(b) => 16 <= b <= 23,
        NalType::Unspecified(b) => b == 0 || 24 <= b <= 31,
        _ => true,
    }
}

impl NalType {
    /// Type of the NAL whose header starts `header`.
    pub fn from_header(header: &[u8]) -> (r: Self)
        requires
            header@.len() > 0,
        ensures
            r == nal_type_of(header@[0] & 0x1F),
    {
        NalType::from_byte(header[0])
    }

    pub fn from_byte(byte: u8) -> (r: Self)
        ensures
            r == nal_type_of(byte & 0x1F),
    {
        let t = byte & 0x1F;
        match t {
            1 => NalType::NonIdrSlice,
            2 => NalType::DataPartitionA,
            3 => NalType::DataPartitionB,
            4 => NalType::DataPartitionC,
            5 => NalType::IdrSlice,
            6 => NalType::Sei,
            7 => NalType::Sps,
            8 => NalType::Pps,
            9 => NalType::Aud,
            10 => NalType::EndOfSequence,
            11 => NalType::EndOfStream,
            12 => NalType::FillerData,
            13 => NalType::SpsExt,
            14 => NalType::PrefixNal,
            15 => NalType::SubSps,
            16..=23 => NalType::Reserved(t),
            _ => NalType::Unspecified(t),
        }
    }

    pub fn to_byte(&self) -> (r: u8)
        ensures
            r == nal_type_code(*self),
    {
        match self {
            NalType::NonIdrSlice => 1,
            NalType::DataPartitionA => 2,
            NalType::DataPartitionB => 3,
            NalType::DataPartitionC => 4,
            NalType::IdrSlice => 5,
            NalType::Sei => 6,
            NalType::Sps => 7,
            NalType::Pps => 8,
            NalType::Aud => 9,
            NalType::EndOfSequence => 10,
            NalType::EndOfStream => 11,
            NalType::FillerData => 12,
            NalType::SpsExt => 13,
            NalType::PrefixNal => 14,
            NalType::SubSps => 15,
            NalType::Reserved(b) => *b,
            NalType::Unspecified(b) => *b,
        }
    }

    pub fn is_keyframe(&self) -> (r: bool)
        ensures
            r == (*self is IdrSlice),
    {
        match self {
            NalType::IdrSlice => true,
            _ => false,
        }
    }
}

impl From<NalType> for u8 {
    fn from(val: NalType) -> (r: u8) {
        val.to_byte()
    }
}

impl FromSpecImpl<NalType> for u8 {
    open spec fn obeys_from_spec() -> bool {
        true
    }

    open spec fn from_spec(v: NalType) -> u8 {
        nal_type_code(v)
    }
}

impl From<u8> for NalType {
    fn from(value: u8) -> (r: NalType) {
        Self::from_byte(value)
    }
}

impl FromSpecImpl<u8> for NalType {
    open spec fn obeys_from_spec() -> bool {
        true
    }

    open spec fn from_spec(v: u8) -> NalType {
        nal_type_of(v & 0x1F)
    }
}

/// Encoding the type read from a byte gives back the byte's low five bits.
pub proof fn lemma_nal_type_byte_roundtrip(b: u8)
    ensures
        nal_type_code(nal_type_of(b & 0x1F)) == b & 0x1F,
        nal_type_canonical(nal_type_of(b & 0x1F)),
{
    assert(b & 0x1F <= 31) by (bit_vector);
}

/// Reading back the byte of a canonical type gives the type again.
pub proof fn lemma_nal_type_code_roundtrip(t: NalType)
    requires
        nal_type_canonical(t),
    ensures
        nal_type_of(nal_type_code(t) & 0x1F) == t,
{
    let c = nal_type_code(t);
    assert(c <= 31);
    assert(c & 0x1F == c) by (bit_vector)
        requires
            c <= 31,
    ;
}

/// H.265 `nal_unit_type`.
#[derive(Debug, PartialEq, Eq, Clone, Copy, Structural)]
pub enum HevcNalType {
    TrailN,
    TrailR,
    TsaN,
    TsaR,
    StsaN,
    StsaR,
    RadlN,
    RadlR,
    RaslN,
    RaslR,
    RsvVcl(u8),
    BlaWLp,
    BlaWRadl,
    BlaNLp,
    IdrWRadl,
    IdrNLp,
    CraNut,
    RsvIrapVcl(u8),
    VpsNut,
    SpsNut,
    PpsNut,
    AudNut,
    EosNut,
    EobNut,
    FdNut,
    PrefixSeiNut,
    SuffixSeiNut,
    RsvNvcl(u8),
    Unspec(u8),
}

/// The H.265 NAL type with number `t` (six bits).
pub open spec fn hevc_nal_type_of(t: u8) -> HevcNalType {
    if t == 0 {
        HevcNalType::TrailN
    } else if t == 1 {
        HevcNalType::TrailR
    } else if t == 2 {
        HevcNalType::TsaN
    } else if t == 3 {
        HevcNalType::TsaR
    } else if t == 4 {
        HevcNalType::StsaN
    } else if t == 5 {
        HevcNalType::StsaR
    } else if t == 6 {
        HevcNalType::RadlN
    } else if t == 7 {
        HevcNalType::RadlR
    } else if t == 8 {
        HevcNalType::RaslN
    } else if t == 9 {
        HevcNalType::RaslR
    } else if 10 <= t <= 15 {
        HevcNalType::RsvVcl(t)
    } else if t == 16 {
        HevcNalType::BlaWLp
    } else if t == 17 {
        HevcNalType::BlaWRadl
    } else if t == 18 {
        HevcNalType::BlaNLp
    } else if t == 19 {
        HevcNalType::IdrWRadl
    } else if t == 20 {
        HevcNalType::IdrNLp
    } else if t == 21 {
        HevcNalType::CraNut
    } else if 22 <= t <= 31 {
        HevcNalType::RsvIrapVcl(t)
    } else if t == 32 {
        HevcNalType::VpsNut
    } else if t == 33 {
        HevcNalType::SpsNut
    } else if t == 34 {
        HevcNalType::PpsNut
    } else if t == 35 {
        HevcNalType::AudNut
    } else if t == 36 {
        HevcNalType::EosNut
    } else if t == 37 {
        HevcNalType::EobNut
    } else if t == 38 {
        HevcNalType::FdNut
    } else if t == 39 {
        HevcNalType::PrefixSeiNut
    } else if t == 40 {
        HevcNalType::SuffixSeiNut
    } else if 41 <= t <= 47 {
        HevcNalType::RsvNvcl(t)
    } else {
        HevcNalType::Unspec(t)
    }
}

/// Intra random access point types: BLA, IDR, CRA and the reserved IRAP range.
pub open spec fn hevc_is_irap(t: HevcNalType) -> bool {
    match t {
        HevcNalType::BlaWLp | HevcNalType::BlaWRadl | HevcNalType::BlaNLp | HevcNalType::IdrWRadl
        | HevcNalType::IdrNLp | HevcNalType::CraNut | HevcNalType::RsvIrapVcl(_) => true,
        _ => false,
    }
}

impl HevcNalType {
    /// Type from the first header byte of an H.265 NAL; `nal_unit_type` is bits 1..=6.
    pub fn from_byte(byte: u8) -> (r: Self)
        ensures
            r == hevc_nal_type_of((byte >> 1) & 0x3F),
    {
        let typ = (byte >> 1) & 0x3F;
        match typ {
            0 => HevcNalType::TrailN,
            1 => HevcNalType::TrailR,
            2 => HevcNalType::TsaN,
            3 => HevcNalType::TsaR,
            4 => HevcNalType::StsaN,
            5 => HevcNalType::StsaR,
            6 => HevcNalType::RadlN,
            7 => HevcNalType::RadlR,
            8 => HevcNalType::RaslN,
            9 => HevcNalType::RaslR,
            10..=15 => HevcNalType::RsvVcl(typ),
            16 => HevcNalType::BlaWLp,
            17 => HevcNalType::BlaWRadl,
            18 => HevcNalType::BlaNLp,
            19 => HevcNalType::IdrWRadl,
            20 => HevcNalType::IdrNLp,
            21 => HevcNalType::CraNut,
            22..=31 => HevcNalType::RsvIrapVcl(typ),
            32 => HevcNalType::VpsNut,
            33 => HevcNalType::SpsNut,
            34 => HevcNalType::PpsNut,
            35 => HevcNalType::AudNut,
            36 => HevcNalType::EosNut,
            37 => HevcNalType::EobNut,
            38 => HevcNalType::FdNut,
            39 => HevcNalType::PrefixSeiNut,
            40 => HevcNalType::SuffixSeiNut,
            41..=47 => HevcNalType::RsvNvcl(typ),
            _ => HevcNalType::Unspec(typ),
        }
    }

    pub fn is_irap(self) -> (r: bool)
        ensures
            r == hevc_is_irap(self),
    {
        match self {
            HevcNalType::BlaWLp | HevcNalType::BlaWRadl | HevcNalType::BlaNLp | HevcNalType::IdrWRadl
            | HevcNalType::IdrNLp | HevcNalType::CraNut | HevcNalType::RsvIrapVcl(_) => true,
            _ => false,
        }
    }
}

/// Byte `k` places back from the end of `s`, or 0 before its start.
pub open spec fn byte_back(s: Seq<u8>, k: int) -> u8 {
    if s.len() >= k {
        s[s.len() - k]
    } else {
        0
    }
}

/// `nal` with emulation prevention bytes taken out: a `0x03` is dropped when the two bytes
/// kept before it are `0x00 0x00` (positions before the start count as `0x00`).
pub open spec fn strip_emulation_prevention(nal: Seq<u8>) -> Seq<u8>
    decreases nal.len(),
{
    if nal.len() == 0 {
        Seq::empty()
    } else {
        let kept = strip_emulation_prevention(nal.drop_last());
        if byte_back(kept, 1) == 0 && byte_back(kept, 2) == 0 && nal.last() == 0x03 {
            kept
        } else {
            kept.push(nal.last())
        }
    }
}

/// Removes emulation prevention bytes (`0x03` after `0x00 0x00`) from an RBSP:
/// `00 00 03 01` becomes `00 00 01`.
pub fn remove_emulation_prevention_bytes(nal: &[u8]) -> (r: Vec<u8>)
    ensures
        r@ == strip_emulation_prevention(nal@),
{
    let mut out: Vec<u8> = Vec::with_capacity(nal.len());
    let mut prev1: u8 = 0;
    let mut prev2: u8 = 0;
    let mut i: usize = 0;
    while i < nal.len()
        invariant
            i <= nal@.len(),
            out@ == strip_emulation_prevention(nal@.subrange(0, i as int)),
            prev1 == byte_back(out@, 1),
            prev2 == byte_back(out@, 2),
        decreases nal@.len() - i,
    {
        let b = nal[i];
        proof {
            assert(nal@.subrange(0, i + 1).drop_last() =~= nal@.subrange(0, i as int));
        }
        if prev1 == 0 && prev2 == 0 && b == 0x03 {
            i = i + 1;
            continue;
        }
        out.push(b);
        prev2 = prev1;
        prev1 = b;
        i = i + 1;
    }
    proof {
        assert(nal@.subrange(0, nal@.len() as int) =~= nal@);
    }
    out
}


/// The bits after the first unsigned Exp-Golomb code of `bits`, if it has one.
pub open spec fn after_unsigned(bits: Seq<bool>) -> Option<Seq<bool>> {
    match golomb_unsigned(bits) {
        None => None,
        Some((_, n)) => Some(bits.subrange(n as int, bits.len() as int)),
    }
}

/// `frame_num` of a slice header bit string: three unsigned codes (`first_mb_in_slice`,
/// `slice_type`, `pic_parameter_set_id`) skipped, then four bits.
pub open spec fn frame_num_of_bits(bits: Seq<bool>) -> Option<u64> {
    match after_unsigned(bits) {
        None => None,
        Some(b1) => match after_unsigned(b1) {
            None => None,
            Some(b2) => match after_unsigned(b2) {
                None => None,
                Some(b3) => if b3.len() < 4 {
                    None
                } else {
                    Some(bits_value(b3.subrange(0, 4)) as u64)
                },
            },
        },
    }
}

/// The frame id of a non-IDR slice NAL (type 1); `None` for other NALs or when the header
/// cannot be read.
pub open spec fn frame_id_spec(nal: Seq<u8>) -> Option<u64> {
    if nal.len() == 0 || nal[0] & 0x1F != 1 {
        None
    } else {
        frame_num_of_bits(byte_bits(strip_emulation_prevention(nal.subrange(1, nal.len() as int))))
    }
}

/// Reads `count` bits (at most 8) as a number, most significant first.
fn read_n_bits(reader: &mut ExpGolombDecoder<'_>, count: usize) -> (r: Option<u8>)
    requires
        count <= 8,
    ensures
        golomb_bits(*old(reader)).len() < count ==> r is None,
        golomb_bits(*old(reader)).len() >= count ==> r == Some(bits_value(golomb_bits(*old(reader)).subrange(0, count as int)) as u8)
            && bits_value(golomb_bits(*old(reader)).subrange(0, count as int)) < vstd::arithmetic::power2::pow2(count as nat),
{
    let ghost start = golomb_bits(*reader);
    let mut value: u8 = 0;
    let mut k: usize = 0;
    proof {
        vstd::arithmetic::power2::lemma2_to64();
        assert(start.subrange(0, 0) =~= Seq::<bool>::empty());
    }
    while k < count
        invariant
            start == golomb_bits(*old(reader)),
            k <= count <= 8,
            k <= start.len(),
            golomb_bits(*reader) == start.subrange(k as int, start.len() as int),
            value as nat == bits_value(start.subrange(0, k as int)),
            bits_value(start.subrange(0, k as int)) < vstd::arithmetic::power2::pow2(k as nat),
        decreases count - k,
    {
        let bit = match golomb_next_bit(reader) {
            Some(b) => b,
            None => {
                proof {
                    assert(start.len() < count);
                }
                return None;
            },
        };
        proof {
            assert(start.subrange(0, k + 1).drop_last() =~= start.subrange(0, k as int));
            assert(start.subrange(k as int, start.len() as int)[0] == start[k as int]);
            assert(golomb_bits(*reader) =~= start.subrange(k + 1, start.len() as int));
            vstd::arithmetic::power2::lemma_pow2_unfold((k + 1) as nat);
            vstd::arithmetic::power2::lemma2_to64();
        }
        value = value * 2 + bit;
        k = k + 1;
    }
    Some(value)
}

/// Decodes `frame_num` of a non-IDR slice NAL, used to tell when the last piece of a frame
/// arrived; `None` for other NALs or when the header cannot be read.
pub fn get_frame_id(nal: &[u8]) -> (r: Option<u64>)
    requires
        nal@.len() > 0 && nal@[0] & 0x1F == 1 ==> strip_emulation_prevention(nal@.subrange(1, nal@.len() as int)).len() > 0,
    ensures
        r == frame_id_spec(nal@),
{
    if nal.len() == 0 || (nal[0] & 0x1F) != 1 {
        return None;
    }
    let slice = remove_emulation_prevention_bytes(&nal[1..nal.len()]);
    let mut reader = match golomb_decoder(slice.as_slice()) {
        Some(d) => d,
        None => return None,
    };
    let _first_mb = match golomb_next_unsigned(&mut reader) {
        Some(v) => v,
        None => return None,
    };
    let _slice_type = match golomb_next_unsigned(&mut reader) {
        Some(v) => v,
        None => return None,
    };
    let _pps_id = match golomb_next_unsigned(&mut reader) {
        Some(v) => v,
        None => return None,
    };
    let frame_num = match read_n_bits(&mut reader, 4) {
        Some(v) => v as u64,
        None => return None,
    };
    proof {
        vstd::arithmetic::power2::lemma2_to64();
    }
    Some(frame_num)
}

} // verus!
