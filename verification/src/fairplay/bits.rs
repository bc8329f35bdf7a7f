use vstd::prelude::*;

verus! {

/// The low three bits of a word are at most 7.
pub broadcast proof fn lemma_low_bits(x: u32)
    ensures
        #[trigger] (x & 7) <= 7,
{
    assert(x & 7 <= 7) by (bit_vector);
}

/// A word masked by another is at most the mask.
pub broadcast proof fn lemma_and_below_mask(x: u32, m: u32)
    ensures
        #[trigger] (x & m) <= m,
{
    assert((x & m) <= m) by (bit_vector);
}

/// Shifting a word right does not make it larger.
pub broadcast proof fn lemma_shr_below(x: u32, n: u32)
    ensures
        #[trigger] (x >> n) <= x,
{
    assert((x >> n) <= x) by (bit_vector);
}

/// Two byte values or-ed stay a byte value.
pub broadcast proof fn lemma_or_of_bytes(x: u32, y: u32)
    requires
        x <= 0xff,
        y <= 0xff,
    ensures
        #[trigger] (x | y) <= 0xff,
{
    assert((x | y) <= 0xff) by (bit_vector)
        requires
            x <= 0xff,
            y <= 0xff,
    ;
}

/// The product of two words below 2^16 fits in a word.
pub broadcast proof fn lemma_small_product(x: u32, y: u32)
    requires
        x <= 0xffff,
        y <= 0xffff,
    ensures
        #[trigger] (x * y) <= 0xffff_ffff,
{
    assert(x * y <= 0xffff * 0xffff) by (nonlinear_arith)
        requires
            x <= 0xffff,
            y <= 0xffff,
    ;
}

/// Three low bits or-ed with bits one and two of another word stay at most 7.
pub broadcast proof fn lemma_low_bits_or(x: u32, y: u32)
    ensures
        #[trigger] ((x & 7) | (y & 6)) <= 7,
{
    assert(((x & 7) | (y & 6)) <= 7) by (bit_vector);
}

/// `input` rotated left by `count & 7` bits.
#[verifier::allow_in_spec]
pub fn rol8(input: u8, count: u32) -> u8
    returns
        (if count & 7 == 0 {
            input
        } else {
            ((input << (count & 7)) | (input >> (8 - (count & 7)))) as u8
        }),
{
    let n: u32 = count & 7;
    proof {
        lemma_low_bits(count);
    }
    if n == 0 {
        input
    } else {
        (input << n) | (input >> (8 - n))
    }
}

/// `input` shifted left by `count` in 32 bits, or-ed with its bits shifted out of a byte.
#[verifier::allow_in_spec]
pub fn rol8x(input: u8, count: u32) -> u32
    requires
        count <= 8,
    returns
        ((input as u32) << count) | ((input as u32) >> ((8 - count) as u32)),
{
    ((input as u32) << count) | ((input as u32) >> (8 - count))
}

/// A byte rotation right by `count` kept in 32 bits; zero when `count` is zero.
#[verifier::allow_in_spec]
pub fn weird_ror8(input: u8, count: u32) -> u32
    requires
        count <= 8,
    returns
        (if count == 0 {
            0u32
        } else {
            (((input as u32) >> count) & 0xff) | (((input as u32) & 0xff) << ((8 - count) as u32))
        }),
{
    if count == 0 {
        0
    } else {
        (((input as u32) >> count) & 0xff) | (((input as u32) & 0xff) << (8 - count))
    }
}

/// A byte rotation left by `count` kept in 32 bits; zero when `count` is zero.
#[verifier::allow_in_spec]
pub fn weird_rol8(input: u8, count: u32) -> u32
    requires
        count <= 8,
    returns
        (if count == 0 {
            0u32
        } else {
            (((input as u32) << count) & 0xff) | (((input as u32) & 0xff) >> ((8 - count) as u32))
        }),
{
    if count == 0 {
        0
    } else {
        (((input as u32) << count) & 0xff) | (((input as u32) & 0xff) >> (8 - count))
    }
}

/// `input` shifted left by `count` in 32 bits, xor-ed with its bits shifted out of a byte;
/// zero when `count` is zero.
#[verifier::allow_in_spec]
pub fn weird_rol32(input: u8, count: u32) -> u32
    requires
        count <= 8,
    returns
        (if count == 0 {
            0u32
        } else {
            ((input as u32) << count) ^ ((input as u32) >> ((8 - count) as u32))
        }),
{
    if count == 0 {
        0
    } else {
        ((input as u32) << count) ^ ((input as u32) >> (8 - count))
    }
}

/// The fourth power of `x`, wrapping at 32 bits.
#[verifier::allow_in_spec]
pub fn pow4(x: u32) -> u32
    returns
        x.wrapping_mul(x).wrapping_mul(x).wrapping_mul(x),
{
    x.wrapping_mul(x).wrapping_mul(x).wrapping_mul(x)
}

} // verus!
