use vstd::prelude::*;
use exp_golomb::ExpGolombDecoder;

verus! {

#[verifier::external_type_specification]
#[verifier::external_body]
pub struct ExExpGolombDecoder<'a>(ExpGolombDecoder<'a>);

/// The bits an Exp-Golomb decoder has still to read, in order.
pub uninterp spec fn golomb_bits(d: ExpGolombDecoder<'_>) -> Seq<bool>;

/// The bits of `bytes`, most significant first.
pub open spec fn byte_bits(bytes: Seq<u8>) -> Seq<bool> {
    Seq::new(8 * bytes.len(), |i: int| (bytes[i / 8] >> ((7 - i % 8) as u8)) & 1 == 1)
}

/// Number of `false` bits before the first `true` one (the length if there is none).
pub open spec fn leading_zero_bits(bits: Seq<bool>) -> nat
    decreases bits.len(),
{
    if bits.len() == 0 || bits[0] {
        0
    } else {
        1 + leading_zero_bits(bits.drop_first())
    }
}

/// Value of `bits` read as a binary number, most significant first.
pub open spec fn bits_value(bits: Seq<bool>) -> nat
    decreases bits.len(),
{
    if bits.len() == 0 {
        0
    } else {
        bits_value(bits.drop_last()) * 2 + if bits.last() { 1nat } else { 0nat }
    }
}

/// The unsigned Exp-Golomb code at the start of `bits`: its value and length. `lz` zeros, a
/// one and `lz` more bits give `2^lz - 1` plus those bits; with 64 zeros only the 64 bits are
/// returned; `None` for more than 64 zeros or when the bits run out.
pub open spec fn golomb_unsigned(bits: Seq<bool>) -> Option<(u64, nat)> {
    let lz = leading_zero_bits(bits);
    if lz >= bits.len() || lz > 64 || bits.len() < 2 * lz + 1 {
        None
    } else {
        let y = bits_value(bits.subrange(lz as int + 1, 2 * lz as int + 1)) as int;
        let v = if lz == 64 { y } else { vstd::arithmetic::power2::pow2(lz) - 1 + y };
        Some((v as u64, 2 * lz + 1))
    }
}

/// `ExpGolombDecoder::new` at bit 0: `None` for an empty buffer, else a decoder over all bits
/// of `buf`.
#[verifier::external_body]
pub(crate) fn golomb_decoder<'a>(buf: &'a [u8]) -> (r: Option<ExpGolombDecoder<'a>>)
    ensures
        (buf@.len() == 0) == (r is None),
        r matches Some(d) ==> golomb_bits(d) == byte_bits(buf@),
{
    ExpGolombDecoder::new(buf, 0)
}

/// `ExpGolombDecoder::next_bit`: the next bit, or `None` (and no change) at the end.
#[verifier::external_body]
pub(crate) fn golomb_next_bit(d: &mut ExpGolombDecoder<'_>) -> (r: Option<u8>)
    ensures
        golomb_bits(*old(d)).len() == 0 ==> r is None && golomb_bits(*final(d)) == golomb_bits(*old(d)),
        golomb_bits(*old(d)).len() > 0 ==> r == Some(if golomb_bits(*old(d))[0] { 1u8 } else { 0u8 })
            && golomb_bits(*final(d)) == golomb_bits(*old(d)).drop_first(),
{
    d.next_bit()
}

/// `ExpGolombDecoder::next_unsigned`: the next unsigned Exp-Golomb value, the decoder moved past
/// it; `None` when it cannot be read (the decoder's position is then not stated).
#[verifier::external_body]
pub(crate) fn golomb_next_unsigned(d: &mut ExpGolombDecoder<'_>) -> (r: Option<u64>)
    ensures
        match golomb_unsigned(golomb_bits(*old(d))) {
            None => r is None,
            Some((v, n)) => r == Some(v) && golomb_bits(*final(d)) == golomb_bits(*old(d)).subrange(
                n as int,
                golomb_bits(*old(d)).len() as int,
            ),
        },
{
    d.next_unsigned()
}

} // verus!
