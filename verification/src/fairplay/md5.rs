use vstd::prelude::*;

verus! {

broadcast use super::bits::lemma_and_below_mask;

/// The additive constant of MD5 round `r`: the integer part of `2^32 * |sin(r + 1)|`.
pub open spec fn md5_k(r: int) -> u32 {
    seq![
        0xd76aa478u32, 0xe8c7b756, 0x242070db, 0xc1bdceee, 0xf57c0faf, 0x4787c62a, 0xa8304613, 0xfd469501,
        0x698098d8, 0x8b44f7af, 0xffff5bb1, 0x895cd7be, 0x6b901122, 0xfd987193, 0xa679438e, 0x49b40821,
        0xf61e2562, 0xc040b340, 0x265e5a51, 0xe9b6c7aa, 0xd62f105d, 0x02441453, 0xd8a1e681, 0xe7d3fbc8,
        0x21e1cde6, 0xc33707d6, 0xf4d50d87, 0x455a14ed, 0xa9e3e905, 0xfcefa3f8, 0x676f02d9, 0x8d2a4c8a,
        0xfffa3942, 0x8771f681, 0x6d9d6122, 0xfde5380c, 0xa4beea44, 0x4bdecfa9, 0xf6bb4b60, 0xbebfbc70,
        0x289b7ec6, 0xeaa127fa, 0xd4ef3085, 0x04881d05, 0xd9d4d039, 0xe6db99e5, 0x1fa27cf8, 0xc4ac5665,
        0xf4292244, 0x432aff97, 0xab9423a7, 0xfc93a039, 0x655b59c3, 0x8f0ccc92, 0xffeff47d, 0x85845dd1,
        0x6fa87e4f, 0xfe2ce6e0, 0xa3014314, 0x4e0811a1, 0xf7537e82, 0xbd3af235, 0x2ad7d2bb, 0xeb86d391,
    ][r]
}

/// The rotation of MD5 round `r`.
pub open spec fn md5_shift(r: int) -> u32 {
    seq![
        7u32, 12, 17, 22, 7, 12, 17, 22, 7, 12, 17, 22, 7, 12, 17, 22, 5, 9, 14, 20, 5, 9, 14, 20, 5, 9, 14, 20, 5,
        9, 14, 20, 4, 11, 16, 23, 4, 11, 16, 23, 4, 11, 16, 23, 4, 11, 16, 23, 6, 10, 15, 21, 6, 10, 15, 21, 6, 10,
        15, 21, 6, 10, 15, 21,
    ][r]
}

/// The message word that MD5 round `r` reads.
pub open spec fn md5_word_index(r: int) -> int {
    if r < 16 {
        r
    } else if r < 32 {
        (r * 5 + 1) % 16
    } else if r < 48 {
        (r * 3 + 5) % 16
    } else {
        (r * 7) % 16
    }
}

/// The first auxiliary function of MD5.
#[verifier::allow_in_spec]
pub fn md5_f(b: u32, c: u32, d: u32) -> u32
    returns
        (b & c) | (!b & d),
{
    (b & c) | (!b & d)
}

/// The second auxiliary function of MD5.
#[verifier::allow_in_spec]
pub fn md5_g(b: u32, c: u32, d: u32) -> u32
    returns
        (b & d) | (c & !d),
{
    (b & d) | (c & !d)
}

/// The third auxiliary function of MD5.
#[verifier::allow_in_spec]
pub fn md5_h(b: u32, c: u32, d: u32) -> u32
    returns
        b ^ c ^ d,
{
    b ^ c ^ d
}

/// The fourth auxiliary function of MD5.
#[verifier::allow_in_spec]
pub fn md5_i(b: u32, c: u32, d: u32) -> u32
    returns
        c ^ (b | !d),
{
    c ^ (b | !d)
}

/// `x` rotated left by `s` bits, for `0 < s < 32`.
#[verifier::allow_in_spec]
pub fn rotl32(x: u32, s: u32) -> u32
    requires
        0 < s < 32,
    returns
        (x << s) | (x >> ((32 - s) as u32)),
{
    (x << s) | (x >> (32 - s))
}

/// The 32-bit word stored little-endian at `off` in `s`.
pub open spec fn le_word(s: Seq<u8>, off: int) -> u32 {
    (s[off] as u32) | ((s[off + 1] as u32) << 8) | ((s[off + 2] as u32) << 16) | ((s[off + 3] as u32) << 24)
}

/// The 32-bit word stored big-endian at `off` in `s`.
pub open spec fn be_word(s: Seq<u8>, off: int) -> u32 {
    ((s[off] as u32) << 24) | ((s[off + 1] as u32) << 16) | ((s[off + 2] as u32) << 8) | (s[off + 3] as u32)
}

/// The four bytes of `w`, least significant first.
pub open spec fn le_bytes(w: u32) -> Seq<u8> {
    seq![w as u8, (w >> 8) as u8, (w >> 16) as u8, (w >> 24) as u8]
}

/// `s` with the elements at `i` and `j` exchanged.
pub open spec fn swap_at(s: Seq<u32>, i: int, j: int) -> Seq<u32> {
    s.update(i, s[j]).update(j, s[i])
}

/// The message words reordered after round 31, by the low bits of the state words.
pub open spec fn md5_shuffle(w: Seq<u32>, a: u32, b: u32, c: u32, d: u32) -> Seq<u32> {
    let w = swap_at(w, (a & 15) as int, (b & 15) as int);
    let w = swap_at(w, (c & 15) as int, (d & 15) as int);
    let w = swap_at(w, ((a >> 4) & 15) as int, ((b >> 4) & 15) as int);
    let w = swap_at(w, ((a >> 8) & 15) as int, ((b >> 8) & 15) as int);
    swap_at(w, ((a >> 12) & 15) as int, ((b >> 12) & 15) as int)
}

/// The state after round `r`, from the state before it: the four chaining words and the
/// message words (big-endian words of the block, reordered once after round 31).
pub open spec fn md5_round(st: (u32, u32, u32, u32, Seq<u32>), r: int) -> (u32, u32, u32, u32, Seq<u32>) {
    let (a, b, c, d, words) = st;
    let z = a.wrapping_add(words[md5_word_index(r)]).wrapping_add(md5_k(r));
    let mixed = if r < 16 {
        md5_f(b, c, d)
    } else if r < 32 {
        md5_g(b, c, d)
    } else if r < 48 {
        md5_h(b, c, d)
    } else {
        md5_i(b, c, d)
    };
    let z = rotl32(z.wrapping_add(mixed), md5_shift(r)).wrapping_add(b);
    let words = if r == 31 { md5_shuffle(words, d, z, b, c) } else { words };
    (d, z, b, c, words)
}

/// The state after the first `n` rounds.
pub open spec fn md5_rounds(st: (u32, u32, u32, u32, Seq<u32>), n: nat) -> (u32, u32, u32, u32, Seq<u32>)
    decreases n,
{
    if n == 0 {
        st
    } else {
        md5_round(md5_rounds(st, (n - 1) as nat), n - 1)
    }
}

/// The modified MD5 compression of a 64-byte block under a 16-byte chaining key: the key
/// read as four little-endian words, the block as sixteen big-endian words, 64 MD5 rounds
/// with the message words reordered after round 31, and the sums of key and final state
/// written back little-endian.
pub open spec fn modified_md5_spec(block: Seq<u8>, key: Seq<u8>) -> Seq<u8> {
    let words = Seq::new(16, |i: int| be_word(block, 4 * i));
    let (a0, b0, c0, d0) = (le_word(key, 0), le_word(key, 4), le_word(key, 8), le_word(key, 12));
    let (a, b, c, d, w) = md5_rounds((a0, b0, c0, d0, words), 64);
    le_bytes(a0.wrapping_add(a)) + le_bytes(b0.wrapping_add(b)) + le_bytes(c0.wrapping_add(c)) + le_bytes(
        d0.wrapping_add(d),
    )
}

/// Exchanges two of the message words.
fn swap_words(words: &mut [u32; 16], a: usize, b: usize)
    requires
        a < 16,
        b < 16,
    ensures
        final(words)@ == swap_at(old(words)@, a as int, b as int),
{
    let t = words[a];
    words[a] = words[b];
    words[b] = t;
}

/// Reads the little-endian word at `off`.
fn le_word_at(bytes: &[u8], off: usize) -> (w: u32)
    requires
        off + 4 <= bytes@.len(),
    ensures
        w == le_word(bytes@, off as int),
{
    (bytes[off] as u32) | ((bytes[off + 1] as u32) << 8) | ((bytes[off + 2] as u32) << 16) | ((bytes[off + 3] as u32) << 24)
}

/// Writes `w` little-endian at `off`.
fn put_le_word(out: &mut [u8; 16], off: usize, w: u32)
    requires
        off + 4 <= 16,
    ensures
        final(out)@ == old(out)@.update(off as int, le_bytes(w)[0]).update(off + 1, le_bytes(w)[1]).update(
            off + 2,
            le_bytes(w)[2],
        ).update(off + 3, le_bytes(w)[3]),
{
    out[off] = w as u8;
    out[off + 1] = (w >> 8) as u8;
    out[off + 2] = (w >> 16) as u8;
    out[off + 3] = (w >> 24) as u8;
}

/// The modified MD5 compression of `block_in` under `key_in`. Words of the key and of the
/// result are taken little-endian.
pub fn modified_md5_rust(block_in: &[u8; 64], key_in: &[u8; 16]) -> (out: [u8; 16])
    ensures
        out@ == modified_md5_spec(block_in@, key_in@),
{
    let k_table: [u32; 64] = [
        0xd76aa478, 0xe8c7b756, 0x242070db, 0xc1bdceee, 0xf57c0faf, 0x4787c62a, 0xa8304613, 0xfd469501,
        0x698098d8, 0x8b44f7af, 0xffff5bb1, 0x895cd7be, 0x6b901122, 0xfd987193, 0xa679438e, 0x49b40821,
        0xf61e2562, 0xc040b340, 0x265e5a51, 0xe9b6c7aa, 0xd62f105d, 0x02441453, 0xd8a1e681, 0xe7d3fbc8,
        0x21e1cde6, 0xc33707d6, 0xf4d50d87, 0x455a14ed, 0xa9e3e905, 0xfcefa3f8, 0x676f02d9, 0x8d2a4c8a,
        0xfffa3942, 0x8771f681, 0x6d9d6122, 0xfde5380c, 0xa4beea44, 0x4bdecfa9, 0xf6bb4b60, 0xbebfbc70,
        0x289b7ec6, 0xeaa127fa, 0xd4ef3085, 0x04881d05, 0xd9d4d039, 0xe6db99e5, 0x1fa27cf8, 0xc4ac5665,
        0xf4292244, 0x432aff97, 0xab9423a7, 0xfc93a039, 0x655b59c3, 0x8f0ccc92, 0xffeff47d, 0x85845dd1,
        0x6fa87e4f, 0xfe2ce6e0, 0xa3014314, 0x4e0811a1, 0xf7537e82, 0xbd3af235, 0x2ad7d2bb, 0xeb86d391,
    ];
    let shift: [u32; 64] = [
        7, 12, 17, 22, 7, 12, 17, 22, 7, 12, 17, 22, 7, 12, 17, 22, 5, 9, 14, 20, 5, 9, 14, 20, 5, 9, 14, 20, 5, 9, 14,
        20, 4, 11, 16, 23, 4, 11, 16, 23, 4, 11, 16, 23, 4, 11, 16, 23, 6, 10, 15, 21, 6, 10, 15, 21, 6, 10, 15, 21, 6,
        10, 15, 21,
    ];
    assert(k_table@ == Seq::new(64, |r: int| md5_k(r)));
    assert(shift@ == Seq::new(64, |r: int| md5_shift(r)));
    let mut block_words: [u32; 16] = [0u32; 16];
    let mut idx: usize = 0;
    while idx < 16
        invariant
            idx <= 16,
            block_words@.len() == 16,
            forall|k: int| 0 <= k < idx ==> block_words@[k] == be_word(block_in@, 4 * k),
        decreases 16 - idx,
    {
        let o: usize = 4 * idx;
        block_words[idx] = ((block_in[o] as u32) << 24) | ((block_in[o + 1] as u32) << 16) | ((block_in[o + 2] as u32)
            << 8) | (block_in[o + 3] as u32);
        idx = idx + 1;
    }
    let ka = le_word_at(key_in, 0);
    let kb = le_word_at(key_in, 4);
    let kc = le_word_at(key_in, 8);
    let kd = le_word_at(key_in, 12);
    let ghost init = (ka, kb, kc, kd, block_words@);
    assert(block_words@ == Seq::new(16, |i: int| be_word(block_in@, 4 * i)));
    let mut a = ka;
    let mut b = kb;
    let mut c = kc;
    let mut d = kd;
    let mut round: usize = 0;
    while round < 64
        invariant
            round <= 64,
            (a, b, c, d, block_words@) == md5_rounds(init, round as nat),
            block_words@.len() == 16,
            forall|r: int| #![trigger k_table@[r]] 0 <= r < 64 ==> k_table@[r] == md5_k(r),
            forall|r: int| #![trigger shift@[r]] 0 <= r < 64 ==> shift@[r] == md5_shift(r) && 4 <= shift@[r] <= 23,
        decreases 64 - round,
    {
        let j: usize = if round < 16 {
            round
        } else if round < 32 {
            (round * 5 + 1) % 16
        } else if round < 48 {
            (round * 3 + 5) % 16
        } else {
            (round * 7) % 16
        };
        let input = block_words[j];
        let s = shift[round];
        let mut z = a.wrapping_add(input).wrapping_add(k_table[round]);
        z = if round < 16 {
            rotl32(z.wrapping_add(md5_f(b, c, d)), s)
        } else if round < 32 {
            rotl32(z.wrapping_add(md5_g(b, c, d)), s)
        } else if round < 48 {
            rotl32(z.wrapping_add(md5_h(b, c, d)), s)
        } else {
            rotl32(z.wrapping_add(md5_i(b, c, d)), s)
        };
        z = z.wrapping_add(b);
        let tmp = d;
        d = c;
        c = b;
        b = z;
        a = tmp;
        if round == 31 {
            swap_words(&mut block_words, (a & 15) as usize, (b & 15) as usize);
            swap_words(&mut block_words, (c & 15) as usize, (d & 15) as usize);
            swap_words(&mut block_words, ((a >> 4) & 15) as usize, ((b >> 4) & 15) as usize);
            swap_words(&mut block_words, ((a >> 8) & 15) as usize, ((b >> 8) & 15) as usize);
            swap_words(&mut block_words, ((a >> 12) & 15) as usize, ((b >> 12) & 15) as usize);
        }
        round = round + 1;
    }
    let mut out: [u8; 16] = [0u8; 16];
    put_le_word(&mut out, 0, ka.wrapping_add(a));
    put_le_word(&mut out, 4, kb.wrapping_add(b));
    put_le_word(&mut out, 8, kc.wrapping_add(c));
    put_le_word(&mut out, 12, kd.wrapping_add(d));
    assert(out@ == modified_md5_spec(block_in@, key_in@));
    out
}

} // verus!
