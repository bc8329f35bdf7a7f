use vstd::prelude::*;
use super::bits::{pow4, rol8, rol8x, weird_rol8, weird_ror8, weird_rol32};

verus! {

broadcast use {
    super::bits::lemma_low_bits,
    super::bits::lemma_low_bits_or,
    super::bits::lemma_and_below_mask,
    super::bits::lemma_or_of_bytes,
    super::bits::lemma_small_product,
    super::bits::lemma_shr_below,
};

/// The working words of the garbling step.
#[derive(Clone, Copy)]
struct GarbleWords {
    tmp2: u32,
    tmp: u32,
    rshift: u32,
    term: u32,
    sub: u32,
    a: u32,
    e: u32,
    d: u32,
    b: u32,
    c: u32,
    tmp3: u32,
    b40: u32,
    b24: u32,
    b4_20: u32,
    b4_21: u32,
    p: u32,
    q: u32,
    r64: u32,
    s64: u32,
    t64: u32,
    bc_lhs: u32,
    t: u32,
    u: u32,
    w: u32,
    x: u32,
    y: u32,
    z: u32,
    v: u32,
    s: u32,
    r: u32,
    j: u32,
    m: u32,
    f: u32,
    g: u32,
    h: u32,
    k: u32,
}

/// The buffers and the working words of the garbling step, between two of its stages.
struct GarbleState {
    b0: Seq<u8>,
    b1: Seq<u8>,
    b2: Seq<u8>,
    b3: Seq<u8>,
    b4: Seq<u8>,
    words: GarbleWords,
}

/// Part 1 of the garbling step, as a function of the state before it.
spec fn garble_stage_1_spec(st: GarbleState) -> GarbleState {
    let GarbleState { b0, b1, b2, b3, b4,
        words: GarbleWords { tmp2, tmp, rshift, term, sub, a, e, d, b, c, tmp3, b40, b24, b4_20, b4_21, p, q,
        r64, s64, t64, bc_lhs, t, u, w, x, y, z, v, s, r, j, m, f, g, h, k } } = st;
    let b2 = b2.update(12,
        (0x14u32.wrapping_add((((b1[64] as u32) & 92) | (((b1[99] as u32) / 3) & 35))
        & (b4[((rol8x(b4[((b1[206] as usize) % 21) as int], 4) as usize) % 21) as int] as u32))) as u8);
    let b1 = b1.update(4, (((b1[99] as u32) / 5).wrapping_mul((b1[99] as u32) / 5).wrapping_mul(2)) as u8);
    let b2 = b2.update(34, 0xb8);
    let b1 = b1.update(153, b1[153]
        ^ (((b2[((b1[203] as usize) % 35) as int] as u32)
        .wrapping_mul((b2[((b1[203] as usize) % 35) as int] as u32)).wrapping_mul((b1[190] as u32))) as u8));
    let b0 = b0.update(3, b0[3]
        .wrapping_sub(((((b4[((b1[205] as usize) % 21) as int] as u32) >> 1) & 80) | 0x0e6440) as u8));
    let b0 = b0.update(16, 0x93);
    let b0 = b0.update(13, 0x62);
    let b1 = b1.update(33, b1[33].wrapping_sub(((b4[((b1[36] as usize) % 21) as int] as u32) & 0xf6) as u8));
    let tmp2 = (b2[((b1[67] as usize) % 35) as int] as u32);
    let b2 = b2.update(12, 0x07);
    let tmp = (b0[((b1[181] as usize) % 20) as int] as u32);
    let b1 = b1.update(2, b1[2].wrapping_sub(3136u32 as u8));
    let b0 = b0.update(19, b4[((b1[58] as usize) % 21) as int]);
    let b3 = b3.update(0, 92u8.wrapping_sub(b2[((b1[32] as usize) % 35) as int]));
    let b3 = b3.update(4, b2[((b1[15] as usize) % 35) as int].wrapping_add(0x9e));
    let b1 = b1.update(34, b1[34].wrapping_add(((b4[((b3[4] as usize) % 21) as int] as u32) / 5) as u8));
    GarbleState { b0, b1, b2, b3, b4,
        words: GarbleWords { tmp2, tmp, rshift, term, sub, a, e, d, b, c, tmp3, b40, b24, b4_20, b4_21, p, q,
        r64, s64, t64, bc_lhs, t, u, w, x, y, z, v, s, r, j, m, f, g, h, k } }
}

/// Part 2 of the garbling step, as a function of the state before it.
spec fn garble_stage_2_spec(st: GarbleState) -> GarbleState {
    let GarbleState { b0, b1, b2, b3, b4,
        words: GarbleWords { tmp2, tmp, rshift, term, sub, a, e, d, b, c, tmp3, b40, b24, b4_20, b4_21, p, q,
        r64, s64, t64, bc_lhs, t, u, w, x, y, z, v, s, r, j, m, f, g, h, k } } = st;
    let b0 = b0.update(19, b0[19]
        .wrapping_add((0xfffffee6u32
        .wrapping_sub(((b0[((b3[4] as usize) % 20) as int] as u32) >> 1) & 102)) as u8));
    let rshift = (b4[((b1[190] as usize) % 21) as int] as u32) & 7;
    let term = ((b1[72] as u32) >> rshift)
        ^ ((b1[72] as u32) << ((7u32
        .wrapping_sub((b4[((b1[190] as usize) % 21) as int] as u32).wrapping_sub(1))) & 7));
    let sub = 3u32.wrapping_mul((b4[((b1[126] as usize) % 21) as int] as u32));
    let b1 = b1.update(15, ((3u32.wrapping_mul(term.wrapping_sub(sub)) ^ (b1[15] as u32)) & 0xff) as u8);
    let b0 = b0.update(15, b0[15]
        ^ (((b2[((b1[181] as usize) % 35) as int] as u32)
        .wrapping_mul((b2[((b1[181] as usize) % 35) as int] as u32))
        .wrapping_mul((b2[((b1[181] as usize) % 35) as int] as u32))) as u8));
    let b2 = b2.update(4, b2[4] ^ (((b1[202] as u32) / 3) as u8));
    let a = 92u32.wrapping_sub((b0[((b3[0] as usize) % 20) as int] as u32));
    let e = (a & 0xc6) | ((!(b1[105] as u32)) & 0xc6) | (a & !(b1[105] as u32));
    let b2 = b2.update(1, b2[1].wrapping_add(e.wrapping_mul(e).wrapping_mul(e) as u8));
    let b0 = b0.update(19, b0[19]
        ^ ((((224 | ((b4[((b1[92] as usize) % 21) as int] as u32) & 27))
        * (b2[((b1[41] as usize) % 35) as int] as u32)) / 3) as u8));
    let b1 = b1.update(140, b1[140].wrapping_add(weird_ror8(92, (b1[5] as u32) & 7) as u8));
    let b2 = b2.update(12, b2[12]
        .wrapping_add(((((!(b1[4] as u32)) ^ (b2[((b1[12] as usize) % 35) as int] as u32))
        | (b1[182] as u32)) & 192
        | (((!(b1[4] as u32)) ^ (b2[((b1[12] as usize) % 35) as int] as u32)) & (b1[182] as u32))) as u8));
    let b1 = b1.update(36, b1[36].wrapping_add(125));
    let b1 = b1.update(124,
        rol8((((74 & (b1[138] as u32)) | ((74 | (b1[138] as u32)) & (b0[15] as u32)))
        & (b0[((b1[43] as usize) % 20) as int] as u32)
        | (((74 & (b1[138] as u32)) | ((74 | (b1[138] as u32)) & (b0[15] as u32))
        | (b0[((b1[43] as usize) % 20) as int] as u32)) & 95)) as u8, 4));
    let b3 = b3.update(8,
        (((((b0[((b3[4] as usize) % 20) as int] as u32) & 95)
        & (((b4[((b1[68] as usize) % 21) as int] as u32) & 46) << 1)) | 16) ^ 92) as u8);
    GarbleState { b0, b1, b2, b3, b4,
        words: GarbleWords { tmp2, tmp, rshift, term, sub, a, e, d, b, c, tmp3, b40, b24, b4_20, b4_21, p, q,
        r64, s64, t64, bc_lhs, t, u, w, x, y, z, v, s, r, j, m, f, g, h, k } }
}

/// Part 3 of the garbling step, as a function of the state before it.
spec fn garble_stage_3_spec(st: GarbleState) -> GarbleState {
    let GarbleState { b0, b1, b2, b3, b4,
        words: GarbleWords { tmp2, tmp, rshift, term, sub, a, e, d, b, c, tmp3, b40, b24, b4_20, b4_21, p, q,
        r64, s64, t64, bc_lhs, t, u, w, x, y, z, v, s, r, j, m, f, g, h, k } } = st;
    let a = (b1[177] as u32).wrapping_add((b4[((b1[79] as usize) % 21) as int] as u32));
    let d = (((a >> 1) | (((3 * (b1[148] as u32)) as u32) / 5)) & (b2[1] as u32))
        | ((a >> 1) & (((3 * (b1[148] as u32)) as u32) / 5));
    let b3 = b3.update(12, (0u32.wrapping_sub(34).wrapping_sub(d)) as u8);
    let a = 8u32.wrapping_sub((b2[22] as u32) & 7);
    let b = (b1[33] as u32) >> (a & 7);
    let c = (b1[33] as u32) << ((b2[22] as u32) & 7);
    let b2 = b2.update(16, b2[16]
        .wrapping_add(((((b2[((b3[0] as usize) % 35) as int] as u32) & 159)
        | (b0[((b3[4] as usize) % 20) as int] as u32) | 8).wrapping_sub((b ^ c) | 128)) as u8));
    let b0 = b0.update(14, b0[14] ^ (b2[((b3[12] as usize) % 35) as int]));
    let a = weird_rol8(b4[((b0[((b1[201] as usize) % 20) as int] as usize) % 21) as int],
        ((b2[((b1[112] as usize) % 35) as int] as u32) << 1) & 7);
    let d = ((b0[((b1[208] as usize) % 20) as int] as u32) & 131)
        | ((b0[((b1[164] as usize) % 20) as int] as u32) & 124);
    let b1 = b1.update(19, b1[19].wrapping_add(((a & (d / 5)) | ((a | (d / 5)) & 37)) as u8));
    let b2 = b2.update(8,
        weird_ror8(140,
        (((b4[((b1[45] as usize) % 21) as int] as u32).wrapping_add(92)
        * (b4[((b1[45] as usize) % 21) as int] as u32).wrapping_add(92)) as u32) & 7) as u8);
    let b1 = b1.update(190, 56);
    let b2 = b2.update(8, b2[8] ^ (b3[0]));
    let b1 = b1.update(53, (!(((b0[((b1[83] as usize) % 20) as int] as u32) | 204) / 5)) as u8);
    let b0 = b0.update(13, b0[13].wrapping_add(b0[((b1[41] as usize) % 20) as int]));
    GarbleState { b0, b1, b2, b3, b4,
        words: GarbleWords { tmp2, tmp, rshift, term, sub, a, e, d, b, c, tmp3, b40, b24, b4_20, b4_21, p, q,
        r64, s64, t64, bc_lhs, t, u, w, x, y, z, v, s, r, j, m, f, g, h, k } }
}

/// Part 4 of the garbling step, as a function of the state before it.
spec fn garble_stage_4_spec(st: GarbleState) -> GarbleState {
    let GarbleState { b0, b1, b2, b3, b4,
        words: GarbleWords { tmp2, tmp, rshift, term, sub, a, e, d, b, c, tmp3, b40, b24, b4_20, b4_21, p, q,
        r64, s64, t64, bc_lhs, t, u, w, x, y, z, v, s, r, j, m, f, g, h, k } } = st;
    let b0 = b0.update(10,
        ((((b2[((b3[0] as usize) % 35) as int] as u32) & (b1[2] as u32))
        | (((b2[((b3[0] as usize) % 35) as int] as u32) | (b1[2] as u32)) & (b3[12] as u32))) / 15) as u8);
    let a = (((56 | ((b4[((b1[2] as usize) % 21) as int] as u32) & 68))
        | (b2[((b3[8] as usize) % 35) as int] as u32)) & 42)
        | ((((b4[((b1[2] as usize) % 21) as int] as u32) & 68) | 56)
        & (b2[((b3[8] as usize) % 35) as int] as u32));
    let b3 = b3.update(16, a.wrapping_mul(a).wrapping_add(110) as u8);
    let b3 = b3.update(20, 202u8.wrapping_sub(b3[16]));
    let b3 = b3.update(24, b1[151]);
    let b2 = b2.update(13, b2[13] ^ (b4[((b3[0] as usize) % 21) as int]));
    let b = (((b2[((b1[179] as usize) % 35) as int] as u32).wrapping_sub(38)) & 177)
        | ((b3[12] as u32) & 177);
    let c = ((b2[((b1[179] as usize) % 35) as int] as u32).wrapping_sub(38)) & (b3[12] as u32);
    let b3 = b3.update(28, 30u32.wrapping_add((b | c).wrapping_mul(b | c)) as u8);
    let b3 = b3.update(32, b3[28].wrapping_add(62));
    let a = (((b3[20] as u32).wrapping_add((b3[0] as u32) & 74))
        | !(b4[((b3[0] as usize) % 21) as int] as u32)) & 121;
    let b = ((b3[20] as u32).wrapping_add((b3[0] as u32) & 74))
        & !(b4[((b3[0] as usize) % 21) as int] as u32);
    let tmp3 = a | b;
    let c = ((((a | b) ^ 0xffffffa6) | (b3[0] as u32)) & 4) | (((a | b) ^ 0xffffffa6) & (b3[0] as u32));
    let b1 = b1.update(47, b1[47] ^ (((b2[((b1[89] as usize) % 35) as int] as u32).wrapping_add(c)) as u8));
    let b3 = b3.update(36, ((rol8(((tmp & 179).wrapping_add(68)) as u8, 2) & b0[3]) | (tmp2 as u8 & !b0[3]))
        .wrapping_sub(15));
    GarbleState { b0, b1, b2, b3, b4,
        words: GarbleWords { tmp2, tmp, rshift, term, sub, a, e, d, b, c, tmp3, b40, b24, b4_20, b4_21, p, q,
        r64, s64, t64, bc_lhs, t, u, w, x, y, z, v, s, r, j, m, f, g, h, k } }
}

/// Part 5 of the garbling step, as a function of the state before it.
spec fn garble_stage_5_spec(st: GarbleState) -> GarbleState {
    let GarbleState { b0, b1, b2, b3, b4,
        words: GarbleWords { tmp2, tmp, rshift, term, sub, a, e, d, b, c, tmp3, b40, b24, b4_20, b4_21, p, q,
        r64, s64, t64, bc_lhs, t, u, w, x, y, z, v, s, r, j, m, f, g, h, k } } = st;
    let b1 = b1.update(123, b1[123] ^ (221));
    let a = ((b4[((b3[0] as usize) % 21) as int] as u32) / 3)
        .wrapping_sub((b2[((b3[4] as usize) % 35) as int] as u32));
    let c = ((((b3[0] as u32) & 163).wrapping_add(92)) & 246) | ((b3[0] as u32) & 92);
    let e = ((c | (b3[24] as u32)) & 54) | (c & (b3[24] as u32));
    let b3 = b3.update(40, a.wrapping_sub(e) as u8);
    let b3 = b3.update(44, (tmp3 ^ 81 ^ ((((b3[0] as u32) >> 1) & 101).wrapping_add(26))) as u8);
    let b3 = b3.update(48, ((b2[((b3[4] as usize) % 35) as int] as u32) & 27) as u8);
    let b3 = b3.update(52, 27);
    let b3 = b3.update(56, 199);
    let b40 = (b3[40] as u32);
    let b24 = (b3[24] as u32);
    let b4_20 = (b4[((b3[0] as usize) % 20) as int] as u32);
    let b4_21 = (b4[((b3[0] as usize) % 21) as int] as u32);
    let p = ((b40 | b24) & 177) | (b40 & b24);
    let q = (b4_20 & 177) | 176 | (b4_21 & !3);
    let r64 = ((b40 & b24) | ((b40 | b24) & 177)) & 199;
    GarbleState { b0, b1, b2, b3, b4,
        words: GarbleWords { tmp2, tmp, rshift, term, sub, a, e, d, b, c, tmp3, b40, b24, b4_20, b4_21, p, q,
        r64, s64, t64, bc_lhs, t, u, w, x, y, z, v, s, r, j, m, f, g, h, k } }
}

/// Part 6 of the garbling step, as a function of the state before it.
spec fn garble_stage_6_spec(st: GarbleState) -> GarbleState {
    let GarbleState { b0, b1, b2, b3, b4,
        words: GarbleWords { tmp2, tmp, rshift, term, sub, a, e, d, b, c, tmp3, b40, b24, b4_20, b4_21, p, q,
        r64, s64, t64, bc_lhs, t, u, w, x, y, z, v, s, r, j, m, f, g, h, k } } = st;
    let s64 = (((b4_21 & 1).wrapping_add(176)) | (b4_21 & !3)) & (b3[56] as u32);
    let t64 = ((p & q) | (r64 | s64)) & !(b3[52] as u32);
    let b3 = b3.update(64, b3[4].wrapping_add((t64 | (b3[48] as u32)) as u8));
    let b2 = b2.update(33, b2[33] ^ (b1[26]));
    let b1 = b1.update(106, b1[106] ^ (b3[20] ^ 133));
    let b2 = b2.update(30,
        (((((b3[64] as u32) / 3).wrapping_sub(275 | ((b3[0] as u32) & 247)))
        ^ (b0[((b1[122] as usize) % 20) as int] as u32)) & 0xff) as u8);
    let b1 = b1.update(22, (((b2[((b1[90] as usize) % 35) as int] as u32) & 95) | 68) as u8);
    let a = ((b4[((b3[36] as usize) % 21) as int] as u32) & 184)
        | ((b2[((b3[44] as usize) % 35) as int] as u32) & !184);
    let b2 = b2.update(18, b2[18].wrapping_add(((a.wrapping_mul(a).wrapping_mul(a)) >> 1) as u8));
    let b2 = b2.update(5, b2[5].wrapping_sub(b4[((b1[92] as usize) % 21) as int]));
    let a = ((((b1[41] as u32) & !24) | ((b2[((b1[183] as usize) % 35) as int] as u32) & 24))
        & ((b3[16] as u32).wrapping_add(53)))
        | ((b3[20] as u32) & (b2[((b3[20] as usize) % 35) as int] as u32));
    let b = ((b1[17] as u32) & !(b3[44] as u32))
        | ((b0[((b1[59] as usize) % 20) as int] as u32) & (b3[44] as u32));
    let b2 = b2.update(18, b2[18] ^ (a.wrapping_mul(b) as u8));
    let a = weird_ror8(b1[11], (b2[((b1[28] as usize) % 35) as int] as u32) & 7) & 7;
    let b = ((((b0[((b1[93] as usize) % 20) as int] as u32) & !(b0[14] as u32)) | ((b0[14] as u32) & 150))
        & !28) | ((b1[7] as u32) & 28);
    let b2 = b2.update(22,
        ((((b | weird_rol8(b2[((b3[0] as usize) % 35) as int], a)) & (b2[33] as u32)
        | (b & weird_rol8(b2[((b3[0] as usize) % 35) as int], a))).wrapping_add(74)) & 0xff) as u8);
    GarbleState { b0, b1, b2, b3, b4,
        words: GarbleWords { tmp2, tmp, rshift, term, sub, a, e, d, b, c, tmp3, b40, b24, b4_20, b4_21, p, q,
        r64, s64, t64, bc_lhs, t, u, w, x, y, z, v, s, r, j, m, f, g, h, k } }
}

/// Part 7 of the garbling step, as a function of the state before it.
spec fn garble_stage_7_spec(st: GarbleState) -> GarbleState {
    let GarbleState { b0, b1, b2, b3, b4,
        words: GarbleWords { tmp2, tmp, rshift, term, sub, a, e, d, b, c, tmp3, b40, b24, b4_20, b4_21, p, q,
        r64, s64, t64, bc_lhs, t, u, w, x, y, z, v, s, r, j, m, f, g, h, k } } = st;
    let a = (b4[((((b0[((b1[39] as usize) % 20) as int] ^ 217) as usize)) % 21) as int] as u32);
    let b0 = b0.update(15, b0[15]
        .wrapping_sub((((((b3[20] as u32) | (b3[0] as u32)) & 214) | ((b3[20] as u32) & (b3[0] as u32))) & a
        | (((((b3[20] as u32) | (b3[0] as u32)) & 214) | ((b3[20] as u32) & (b3[0] as u32)) | a)
        & (b3[32] as u32))) as u8));
    let bc_lhs = ((b2[((b1[57] as usize) % 35) as int] as u32)
        & (b0[((b3[64] as usize) % 20) as int] as u32))
        | (((b0[((b3[64] as usize) % 20) as int] as u32) | (b2[((b1[57] as usize) % 35) as int] as u32))
        & 95);
    let b = (bc_lhs | ((b3[64] as u32) & 45) | 82) & 32;
    let c = bc_lhs & (((b3[64] as u32) & 45) | 82);
    let d = (((b3[0] as u32) / 3).wrapping_sub((b3[64] as u32) | (b1[22] as u32))) ^ (b3[28] as u32)
        .wrapping_add(62) ^ (b | c);
    let t = (b0[((d & 0xff) as usize % 20) as int] as u32);
    let b3 = b3.update(68,
        ((pow4(b0[((b1[99] as usize) % 20) as int] as u32))
        | (b2[((b3[64] as usize) % 35) as int] as u32)) as u8);
    let u = (b0[((b1[50] as usize) % 20) as int] as u32);
    let w = (b2[((b1[138] as usize) % 35) as int] as u32);
    let x = (b4[((b1[39] as usize) % 21) as int] as u32);
    let y = (b0[((b1[4] as usize) % 20) as int] as u32);
    let z = (b4[((b1[202] as usize) % 21) as int] as u32);
    let v = (b0[((b1[151] as usize) % 20) as int] as u32);
    let s = (b2[((b1[14] as usize) % 35) as int] as u32);
    let r = (b0[((b1[145] as usize) % 20) as int] as u32);
    GarbleState { b0, b1, b2, b3, b4,
        words: GarbleWords { tmp2, tmp, rshift, term, sub, a, e, d, b, c, tmp3, b40, b24, b4_20, b4_21, p, q,
        r64, s64, t64, bc_lhs, t, u, w, x, y, z, v, s, r, j, m, f, g, h, k } }
}

/// Part 8 of the garbling step, as a function of the state before it.
spec fn garble_stage_8_spec(st: GarbleState) -> GarbleState {
    let GarbleState { b0, b1, b2, b3, b4,
        words: GarbleWords { tmp2, tmp, rshift, term, sub, a, e, d, b, c, tmp3, b40, b24, b4_20, b4_21, p, q,
        r64, s64, t64, bc_lhs, t, u, w, x, y, z, v, s, r, j, m, f, g, h, k } } = st;
    let a = ((b2[((b3[68] as usize) % 35) as int] as u32) & (b0[((b1[209] as usize) % 20) as int] as u32))
        | (((b2[((b3[68] as usize) % 35) as int] as u32) | (b0[((b1[209] as usize) % 20) as int] as u32))
        & 24);
    let b = weird_rol8(b4[((b1[127] as usize) % 21) as int], (b2[((b3[68] as usize) % 35) as int] as u32)
        & 7);
    let c = (a & (b0[10] as u32)) | (b & !(b0[10] as u32));
    let d = 7 ^ ((b4[((b2[((b3[36] as usize) % 35) as int] as usize) % 21) as int] as u32) << 1);
    let b3 = b3.update(72, ((c & 71) | (d & !71)) as u8);
    let b2 = b2.update(2, b2[2]
        .wrapping_add((((((b0[((b3[20] as usize) % 20) as int] as u32) << 1) & 159)
        | ((b4[((b1[190] as usize) % 21) as int] as u32) & !159))
        & (((((b4[((b3[64] as usize) % 21) as int] as u32) & 110)
        | ((b0[((b1[25] as usize) % 20) as int] as u32) & !110)) & !150) | ((b1[25] as u32) & 150))) as u8));
    let b2 = b2.update(14, b2[14]
        .wrapping_sub(((((b2[((b3[20] as usize) % 35) as int] as u32)
        & ((b3[72] as u32) ^ (b2[((b1[100] as usize) % 35) as int] as u32))) & !34)
        | ((b1[97] as u32) & 34)) as u8));
    let b0 = b0.update(17, 115);
    let q = (((b4[((b1[17] as usize) % 21) as int] as u32) | (b0[((b3[20] as usize) % 20) as int] as u32))
        & (b3[72] as u32))
        | ((b4[((b1[17] as usize) % 21) as int] as u32) & (b0[((b3[20] as usize) % 20) as int] as u32));
    let b1 = b1.update(23, b1[23]
        ^ ((((q & ((b1[50] as u32) / 3)) | ((q | ((b1[50] as u32) / 3)) & 246)) << 1) as u8));
    let b0 = b0.update(13,
        (((((((b0[((b3[40] as usize) % 20) as int] as u32) | (b1[10] as u32)) & 82)
        | ((b0[((b3[40] as usize) % 20) as int] as u32) & (b1[10] as u32))) & 209)
        | (((b0[((b1[39] as usize) % 20) as int] as u32) << 1) & 46)) >> 1) as u8);
    let b2 = b2.update(33, b2[33].wrapping_sub(((b1[113] as u32) & 9) as u8));
    let b2 = b2.update(28, b2[28]
        .wrapping_sub(((((2 | ((b1[110] as u32) & 222)) >> 1) & !223) | ((b3[20] as u32) & 223)) as u8));
    let j = weird_rol8((v | z) as u8, u & 7);
    let a = ((b2[16] as u32) & t) | (w & !(b2[16] as u32));
    let b = ((b1[33] as u32) & 17) | (x & !17);
    GarbleState { b0, b1, b2, b3, b4,
        words: GarbleWords { tmp2, tmp, rshift, term, sub, a, e, d, b, c, tmp3, b40, b24, b4_20, b4_21, p, q,
        r64, s64, t64, bc_lhs, t, u, w, x, y, z, v, s, r, j, m, f, g, h, k } }
}

/// Part 9 of the garbling step, as a function of the state before it.
spec fn garble_stage_9_spec(st: GarbleState) -> GarbleState {
    let GarbleState { b0, b1, b2, b3, b4,
        words: GarbleWords { tmp2, tmp, rshift, term, sub, a, e, d, b, c, tmp3, b40, b24, b4_20, b4_21, p, q,
        r64, s64, t64, bc_lhs, t, u, w, x, y, z, v, s, r, j, m, f, g, h, k } } = st;
    let e = ((y | ((a.wrapping_add(b)) / 5)) & 147) | (y & ((a.wrapping_add(b)) / 5));
    let m = ((b3[40] as u32)
        & (b4[((((b3[8] as u32).wrapping_add(j).wrapping_add(e)) & 0xff) as usize % 21) as int] as u32))
        | (((b3[40] as u32)
        | (b4[((((b3[8] as u32).wrapping_add(j).wrapping_add(e)) & 0xff) as usize % 21) as int] as u32))
        & (b2[23] as u32));
    let b0 = b0.update(15,
        ((((b4[((b3[20] as usize) % 21) as int] as u32).wrapping_sub(48) & !(b1[184] as u32))
        | ((b4[((b3[20] as usize) % 21) as int] as u32).wrapping_sub(48) & 189) | (189 & !(b1[184] as u32)))
        & m.wrapping_mul(m).wrapping_mul(m)) as u8);
    let b2 = b2.update(22, b2[22].wrapping_add(b1[183]));
    let b3 = b3.update(76,
        (3u32.wrapping_mul((b4[((b1[1] as usize) % 21) as int] as u32)) ^ (b3[0] as u32)) as u8);
    let a = (b2[((((b3[8] as u32).wrapping_add(j.wrapping_add(e))) & 0xff) as usize % 35) as int] as u32);
    let f = (((b4[((b1[178] as usize) % 21) as int] as u32) & a)
        | (((b4[((b1[178] as usize) % 21) as int] as u32) | a) & 209))
        .wrapping_mul((b0[((b1[13] as usize) % 20) as int] as u32))
        .wrapping_mul((b4[((b1[26] as usize) % 21) as int] as u32) >> 1);
    let g = (f.wrapping_add(0x733ffff9)).wrapping_mul(198)
        .wrapping_sub(((f.wrapping_add(0x733ffff9)).wrapping_mul(396).wrapping_add(212)) & 212)
        .wrapping_add(85);
    let b3 = b3.update(80,
        ((b3[36] as u32).wrapping_add(g ^ 148).wrapping_add((g ^ 107) << 1).wrapping_sub(127)) as u8);
    let b3 = b3.update(84,
        (((b2[((b3[64] as usize) % 35) as int] as u32) & 245)
        | ((b2[((b3[20] as usize) % 35) as int] as u32) & 10)) as u8);
    let a = (b0[((b3[68] as usize) % 20) as int] as u32) | 81;
    let b2 = b2.update(18, b2[18]
        .wrapping_sub(((a.wrapping_mul(a).wrapping_mul(a) & !(b0[15] as u32))
        | (((b3[80] as u32) / 15) & (b0[15] as u32))) as u8));
    let b3 = b3.update(88,
        ((b3[8] as u32).wrapping_add(j).wrapping_add(e)
        .wrapping_sub((b0[((b1[160] as usize) % 20) as int] as u32))
        .wrapping_add((b4[((b0[((((b3[8] as u32).wrapping_add(j).wrapping_add(e))
        & 255) as usize % 20) as int] as usize) % 21) as int] as u32) / 3)) as u8);
    let b = ((r ^ (b3[72] as u32)) & !198) | ((s.wrapping_mul(s)) & 198);
    let f = ((b4[((b1[69] as usize) % 21) as int] as u32) & (b1[172] as u32))
        | (((b4[((b1[69] as usize) % 21) as int] as u32) | (b1[172] as u32))
        & ((b3[12] as u32).wrapping_sub(b).wrapping_add(77)));
    let b0 = b0.update(16,
        (147u32.wrapping_sub(((b3[72] as u32) & (f & 251 | 1))
        | (((f & 250) | (b3[72] as u32)) & 198))) as u8);
    GarbleState { b0, b1, b2, b3, b4,
        words: GarbleWords { tmp2, tmp, rshift, term, sub, a, e, d, b, c, tmp3, b40, b24, b4_20, b4_21, p, q,
        r64, s64, t64, bc_lhs, t, u, w, x, y, z, v, s, r, j, m, f, g, h, k } }
}

/// Part 10 of the garbling step, as a function of the state before it.
spec fn garble_stage_10_spec(st: GarbleState) -> GarbleState {
    let GarbleState { b0, b1, b2, b3, b4,
        words: GarbleWords { tmp2, tmp, rshift, term, sub, a, e, d, b, c, tmp3, b40, b24, b4_20, b4_21, p, q,
        r64, s64, t64, bc_lhs, t, u, w, x, y, z, v, s, r, j, m, f, g, h, k } } = st;
    let c = ((b4[((b1[168] as usize) % 21) as int] as u32) & (b0[((b1[29] as usize) % 20) as int] as u32)
        & 7) | (((b4[((b1[168] as usize) % 21) as int] as u32)
        | (b0[((b1[29] as usize) % 20) as int] as u32)) & 6);
    let f = ((b4[((b1[155] as usize) % 21) as int] as u32) & (b1[105] as u32))
        | (((b4[((b1[155] as usize) % 21) as int] as u32) | (b1[105] as u32)) & 141);
    let b0 = b0.update(3, b0[3].wrapping_sub(b4[((weird_rol32(f as u8, c) % 21) as usize) as int]));
    let b1 = b1.update(5,
        (weird_ror8(b0[12], ((b0[((b1[61] as usize) % 20) as int] as u32) / 5) & 7)
        ^ ((!(b2[((b3[84] as usize) % 35) as int] as u32)) / 5)) as u8);
    let b1 = b1.update(198, b1[198].wrapping_add(b1[3]));
    let a = 162 | (b2[((b3[64] as usize) % 35) as int] as u32);
    let b1 = b1.update(164, b1[164].wrapping_add(((a.wrapping_mul(a)) / 5) as u8));
    let g = weird_ror8(139, (b3[80] as u32) & 7);
    let c = (((b4[((b3[64] as usize) % 21) as int] as u32)
        .wrapping_mul((b4[((b3[64] as usize) % 21) as int] as u32))
        .wrapping_mul((b4[((b3[64] as usize) % 21) as int] as u32))) & 95)
        | ((b0[((b3[40] as usize) % 20) as int] as u32) & !95);
    let b3 = b3.update(92,
        ((g & 12) | ((b0[((b3[20] as usize) % 20) as int] as u32) & 12)
        | (g & (b0[((b3[20] as usize) % 20) as int] as u32)) | c) as u8);
    let b2 = b2.update(12, b2[12]
        .wrapping_add(((((b1[103] as u32) & 32) | ((b3[92] as u32) & ((b1[103] as u32) | 60)) | 16)
        / 3) as u8));
    let b3 = b3.update(96, b1[143]);
    let b3 = b3.update(100, 27);
    let b3 = b3.update(104,
        ((((b3[40] as u32) & !(b2[8] as u32)) | ((b1[35] as u32) & (b2[8] as u32))) & (b3[64] as u32)
        ^ 119) as u8);
    let b3 = b3.update(108,
        (238 & (((((b3[40] as u32) & !(b2[8] as u32)) | ((b1[35] as u32) & (b2[8] as u32)))
        & (b3[64] as u32)) << 1)) as u8);
    let b3 = b3.update(112, (((!(b3[64] as u32)) & ((b3[84] as u32) / 3)) ^ 49) as u8);
    GarbleState { b0, b1, b2, b3, b4,
        words: GarbleWords { tmp2, tmp, rshift, term, sub, a, e, d, b, c, tmp3, b40, b24, b4_20, b4_21, p, q,
        r64, s64, t64, bc_lhs, t, u, w, x, y, z, v, s, r, j, m, f, g, h, k } }
}

/// Part 11 of the garbling step, as a function of the state before it.
spec fn garble_stage_11_spec(st: GarbleState) -> GarbleState {
    let GarbleState { b0, b1, b2, b3, b4,
        words: GarbleWords { tmp2, tmp, rshift, term, sub, a, e, d, b, c, tmp3, b40, b24, b4_20, b4_21, p, q,
        r64, s64, t64, bc_lhs, t, u, w, x, y, z, v, s, r, j, m, f, g, h, k } } = st;
    let b3 = b3.update(116, (98 & (((!(b3[64] as u32)) & ((b3[84] as u32) / 3)) << 1)) as u8);
    let a = ((b1[35] as u32) & (b2[8] as u32)) | ((b3[40] as u32) & !(b2[8] as u32));
    let b = (a & (b3[64] as u32)) | (((b3[84] as u32) / 3) & !(b3[64] as u32));
    let b1 = b1.update(143, b3[96]
        .wrapping_sub(((b & ((86 + (((b1[172] as u32) & 64) >> 1)) as u32))
        | ((((((b1[172] as u32) & 65) >> 1) ^ 86)
        | (((!(b3[64] as u32)) & ((b3[84] as u32) / 3))
        | ((((b3[40] as u32) & !(b2[8] as u32)) | ((b1[35] as u32) & (b2[8] as u32))) & (b3[64] as u32))))
        & (b3[100] as u32))) as u8));
    let b2 = b2.update(29, 162);
    let a = (((b4[((b3[88] as usize) % 21) as int] as u32) & 160)
        | ((b0[((b1[125] as usize) % 20) as int] as u32) & 95)) >> 1;
    let b = (b2[((b1[149] as usize) % 35) as int] as u32) ^ (b1[43] as u32).wrapping_mul((b1[43] as u32));
    let b0 = b0.update(15, b0[15].wrapping_add(((b & a) | ((a | b) & 115)) as u8));
    let b3 = b3.update(120, b3[64].wrapping_sub(b0[((b3[40] as usize) % 20) as int]));
    let b1 = b1.update(95, b4[((b3[20] as usize) % 21) as int]);
    let a = weird_ror8(b2[((b3[80] as usize) % 35) as int],
        ((b2[((b1[17] as usize) % 35) as int] as u32)
        .wrapping_mul((b2[((b1[17] as usize) % 35) as int] as u32))
        .wrapping_mul((b2[((b1[17] as usize) % 35) as int] as u32))) & 7);
    let b0 = b0.update(7, b0[7].wrapping_sub(a.wrapping_mul(a) as u8));
    let b2 = b2.update(8, b2[8].wrapping_sub(b1[184])
        .wrapping_add(((b4[((b1[202] as usize) % 21) as int] as u32)
        .wrapping_mul((b4[((b1[202] as usize) % 21) as int] as u32))
        .wrapping_mul((b4[((b1[202] as usize) % 21) as int] as u32))) as u8));
    let b0 = b0.update(16, (((b2[((b1[102] as usize) % 35) as int] as u32) << 1) & 132) as u8);
    let b3 = b3.update(124, (((b4[((b3[40] as usize) % 21) as int] as u32) >> 1) ^ (b3[68] as u32)) as u8);
    let b0 = b0.update(7, b0[7]
        .wrapping_sub(b0[((b1[191] as usize) % 20) as int]
        .wrapping_sub(((((b4[((b1[80] as usize) % 21) as int] as u32) << 1) & !177)
        | ((b4[((b4[((b3[88] as usize) % 21) as int] as usize) % 21) as int] as u32) & 177)) as u8)));
    GarbleState { b0, b1, b2, b3, b4,
        words: GarbleWords { tmp2, tmp, rshift, term, sub, a, e, d, b, c, tmp3, b40, b24, b4_20, b4_21, p, q,
        r64, s64, t64, bc_lhs, t, u, w, x, y, z, v, s, r, j, m, f, g, h, k } }
}

/// Part 12 of the garbling step, as a function of the state before it.
spec fn garble_stage_12_spec(st: GarbleState) -> GarbleState {
    let GarbleState { b0, b1, b2, b3, b4,
        words: GarbleWords { tmp2, tmp, rshift, term, sub, a, e, d, b, c, tmp3, b40, b24, b4_20, b4_21, p, q,
        r64, s64, t64, bc_lhs, t, u, w, x, y, z, v, s, r, j, m, f, g, h, k } } = st;
    let b0 = b0.update(6, b0[((b1[119] as usize) % 20) as int]);
    let a = ((b4[((b1[190] as usize) % 21) as int] as u32) & !209) | ((b1[118] as u32) & 209);
    let b = (b0[((b3[120] as usize) % 20) as int] as u32)
        .wrapping_mul((b0[((b3[120] as usize) % 20) as int] as u32));
    let b0 = b0.update(12,
        ((b0[((b3[84] as usize) % 20) as int] as u32)
        ^ ((b2[((b1[71] as usize) % 35) as int] as u32)
        .wrapping_add((b2[((b1[15] as usize) % 35) as int] as u32)))) as u8
        & ((a & b) | ((a | b) & 27)) as u8);
    let b = ((b1[32] as u32) & (b2[((b3[88] as usize) % 35) as int] as u32))
        | (((b1[32] as u32) | (b2[((b3[88] as usize) % 35) as int] as u32)) & 23);
    let d = ((b4[((b1[57] as usize) % 21) as int] as u32).wrapping_mul(231) & 169) | (b & 86);
    let f = ((((b0[((b1[82] as usize) % 20) as int] as u32) & !29)
        | ((b4[((b3[124] as usize) % 21) as int] as u32) & 29)) & 190)
        | ((b4[(((d / 5) % 21) as usize) as int] as u32) & !190);
    let h = (b0[((b3[40] as usize) % 20) as int] as u32)
        .wrapping_mul((b0[((b3[40] as usize) % 20) as int] as u32))
        .wrapping_mul((b0[((b3[40] as usize) % 20) as int] as u32));
    let k = (h & (b1[82] as u32)) | (h & 92) | ((b1[82] as u32) & 92);
    let b3 = b3.update(128, (((f & k) | ((f | k) & 192)) ^ (d / 5)) as u8);
    let b2 = b2.update(25, b2[25]
        ^ ((((b0[((b3[120] as usize) % 20) as int] << 1) as u32).wrapping_mul((b1[5] as u32))
        .wrapping_sub(weird_rol8(b3[76], (b4[((b3[124] as usize) % 21) as int] as u32) & 7) & (b3[20] as u32)
        .wrapping_add(110))) as u8));
    GarbleState { b0, b1, b2, b3, b4,
        words: GarbleWords { tmp2, tmp, rshift, term, sub, a, e, d, b, c, tmp3, b40, b24, b4_20, b4_21, p, q,
        r64, s64, t64, bc_lhs, t, u, w, x, y, z, v, s, r, j, m, f, g, h, k } }
}

/// What the garbling step makes of the five scratch buffers: a fixed, straight-line
/// sequence of byte updates, each a function of the bytes written before it.
pub closed spec fn garble_spec(
    b0: Seq<u8>,
    b1: Seq<u8>,
    b2: Seq<u8>,
    b3: Seq<u8>,
    b4: Seq<u8>,
) -> (Seq<u8>, Seq<u8>, Seq<u8>, Seq<u8>, Seq<u8>) {
    let words = GarbleWords {
        tmp2: 0, tmp: 0, rshift: 0, term: 0, sub: 0, a: 0, e: 0, d: 0, b: 0, c: 0, tmp3: 0, b40: 0, b24: 0,
        b4_20: 0, b4_21: 0, p: 0, q: 0, r64: 0, s64: 0, t64: 0, bc_lhs: 0, t: 0, u: 0, w: 0, x: 0, y: 0,
        z: 0, v: 0, s: 0, r: 0, j: 0, m: 0, f: 0, g: 0, h: 0, k: 0,
    };
    let st = GarbleState { b0, b1, b2, b3, b4, words };
    let st = garble_stage_1_spec(st);
    let st = garble_stage_2_spec(st);
    let st = garble_stage_3_spec(st);
    let st = garble_stage_4_spec(st);
    let st = garble_stage_5_spec(st);
    let st = garble_stage_6_spec(st);
    let st = garble_stage_7_spec(st);
    let st = garble_stage_8_spec(st);
    let st = garble_stage_9_spec(st);
    let st = garble_stage_10_spec(st);
    let st = garble_stage_11_spec(st);
    let st = garble_stage_12_spec(st);
    (st.b0, st.b1, st.b2, st.b3, st.b4)
}

/// Runs part 1 of the garbling step on the buffers and the working words.
fn garble_stage_1(buffer0: &mut [u8; 20], buffer1: &mut [u8; 210], buffer2: &mut [u8; 35],
    buffer3: &mut [u8; 132], buffer4: &mut [u8; 21], ws: &mut GarbleWords)
    ensures
        (GarbleState { b0: final(buffer0)@, b1: final(buffer1)@, b2: final(buffer2)@, b3: final(buffer3)@,
            b4: final(buffer4)@, words: *final(ws) })
            == garble_stage_1_spec(GarbleState { b0: old(buffer0)@, b1: old(buffer1)@, b2: old(buffer2)@,
                b3: old(buffer3)@, b4: old(buffer4)@, words: *old(ws) }),
{
    buffer2[12] = (0x14u32
        .wrapping_add((((buffer1[64] as u32) & 92) | (((buffer1[99] as u32) / 3) & 35))
        & (buffer4[(rol8x(buffer4[(buffer1[206] as usize) % 21], 4) as usize) % 21] as u32))) as u8;
    buffer1[4] = (((buffer1[99] as u32) / 5).wrapping_mul((buffer1[99] as u32) / 5).wrapping_mul(2)) as u8;
    buffer2[34] = 0xb8;
    buffer1[153] ^= ((buffer2[(buffer1[203] as usize) % 35] as u32)
        .wrapping_mul((buffer2[(buffer1[203] as usize) % 35] as u32))
        .wrapping_mul((buffer1[190] as u32))) as u8;
    buffer0[3] = buffer0[3]
        .wrapping_sub(((((buffer4[(buffer1[205] as usize) % 21] as u32) >> 1) & 80) | 0x0e6440) as u8);
    buffer0[16] = 0x93;
    buffer0[13] = 0x62;
    buffer1[33] = buffer1[33].wrapping_sub(((buffer4[(buffer1[36] as usize) % 21] as u32) & 0xf6) as u8);
    ws.tmp2 = (buffer2[(buffer1[67] as usize) % 35] as u32);
    buffer2[12] = 0x07;
    ws.tmp = (buffer0[(buffer1[181] as usize) % 20] as u32);
    buffer1[2] = buffer1[2].wrapping_sub(3136u32 as u8);
    buffer0[19] = buffer4[(buffer1[58] as usize) % 21];
    buffer3[0] = 92u8.wrapping_sub(buffer2[(buffer1[32] as usize) % 35]);
    buffer3[4] = buffer2[(buffer1[15] as usize) % 35].wrapping_add(0x9e);
    buffer1[34] = buffer1[34].wrapping_add(((buffer4[(buffer3[4] as usize) % 21] as u32) / 5) as u8);
}

/// Runs part 2 of the garbling step on the buffers and the working words.
fn garble_stage_2(buffer0: &mut [u8; 20], buffer1: &mut [u8; 210], buffer2: &mut [u8; 35],
    buffer3: &mut [u8; 132], buffer4: &mut [u8; 21], ws: &mut GarbleWords)
    ensures
        (GarbleState { b0: final(buffer0)@, b1: final(buffer1)@, b2: final(buffer2)@, b3: final(buffer3)@,
            b4: final(buffer4)@, words: *final(ws) })
            == garble_stage_2_spec(GarbleState { b0: old(buffer0)@, b1: old(buffer1)@, b2: old(buffer2)@,
                b3: old(buffer3)@, b4: old(buffer4)@, words: *old(ws) }),
{
    buffer0[19] = buffer0[19]
        .wrapping_add((0xfffffee6u32
        .wrapping_sub(((buffer0[(buffer3[4] as usize) % 20] as u32) >> 1) & 102)) as u8);
    ws.rshift = (buffer4[(buffer1[190] as usize) % 21] as u32) & 7;
    ws.term = ((buffer1[72] as u32) >> ws.rshift)
        ^ ((buffer1[72] as u32) << ((7u32
        .wrapping_sub((buffer4[(buffer1[190] as usize) % 21] as u32).wrapping_sub(1))) & 7));
    ws.sub = 3u32.wrapping_mul((buffer4[(buffer1[126] as usize) % 21] as u32));
    buffer1[15] = ((3u32.wrapping_mul(ws.term.wrapping_sub(ws.sub)) ^ (buffer1[15] as u32)) & 0xff) as u8;
    buffer0[15] ^= ((buffer2[(buffer1[181] as usize) % 35] as u32)
        .wrapping_mul((buffer2[(buffer1[181] as usize) % 35] as u32))
        .wrapping_mul((buffer2[(buffer1[181] as usize) % 35] as u32))) as u8;
    buffer2[4] ^= ((buffer1[202] as u32) / 3) as u8;
    ws.a = 92u32.wrapping_sub((buffer0[(buffer3[0] as usize) % 20] as u32));
    ws.e = (ws.a & 0xc6) | ((!(buffer1[105] as u32)) & 0xc6) | (ws.a & !(buffer1[105] as u32));
    buffer2[1] = buffer2[1].wrapping_add(ws.e.wrapping_mul(ws.e).wrapping_mul(ws.e) as u8);
    buffer0[19] ^= (((224 | ((buffer4[(buffer1[92] as usize) % 21] as u32) & 27))
        * (buffer2[(buffer1[41] as usize) % 35] as u32)) / 3) as u8;
    buffer1[140] = buffer1[140].wrapping_add(weird_ror8(92, (buffer1[5] as u32) & 7) as u8);
    buffer2[12] = buffer2[12]
        .wrapping_add(((((!(buffer1[4] as u32)) ^ (buffer2[(buffer1[12] as usize) % 35] as u32))
        | (buffer1[182] as u32)) & 192
        | (((!(buffer1[4] as u32)) ^ (buffer2[(buffer1[12] as usize) % 35] as u32))
        & (buffer1[182] as u32))) as u8);
    buffer1[36] = buffer1[36].wrapping_add(125);
    buffer1[124] = rol8((((74 & (buffer1[138] as u32))
        | ((74 | (buffer1[138] as u32)) & (buffer0[15] as u32)))
        & (buffer0[(buffer1[43] as usize) % 20] as u32)
        | (((74 & (buffer1[138] as u32)) | ((74 | (buffer1[138] as u32)) & (buffer0[15] as u32))
        | (buffer0[(buffer1[43] as usize) % 20] as u32)) & 95)) as u8, 4);
    buffer3[8] = (((((buffer0[(buffer3[4] as usize) % 20] as u32) & 95)
        & (((buffer4[(buffer1[68] as usize) % 21] as u32) & 46) << 1)) | 16) ^ 92) as u8;
}

/// Runs part 3 of the garbling step on the buffers and the working words.
fn garble_stage_3(buffer0: &mut [u8; 20], buffer1: &mut [u8; 210], buffer2: &mut [u8; 35],
    buffer3: &mut [u8; 132], buffer4: &mut [u8; 21], ws: &mut GarbleWords)
    ensures
        (GarbleState { b0: final(buffer0)@, b1: final(buffer1)@, b2: final(buffer2)@, b3: final(buffer3)@,
            b4: final(buffer4)@, words: *final(ws) })
            == garble_stage_3_spec(GarbleState { b0: old(buffer0)@, b1: old(buffer1)@, b2: old(buffer2)@,
                b3: old(buffer3)@, b4: old(buffer4)@, words: *old(ws) }),
{
    ws.a = (buffer1[177] as u32).wrapping_add((buffer4[(buffer1[79] as usize) % 21] as u32));
    ws.d = (((ws.a >> 1) | ((3 * (buffer1[148] as u32)) / 5)) & (buffer2[1] as u32))
        | ((ws.a >> 1) & ((3 * (buffer1[148] as u32)) / 5));
    buffer3[12] = (0u32.wrapping_sub(34).wrapping_sub(ws.d)) as u8;
    ws.a = 8u32.wrapping_sub((buffer2[22] as u32) & 7);
    ws.b = (buffer1[33] as u32) >> (ws.a & 7);
    ws.c = (buffer1[33] as u32) << ((buffer2[22] as u32) & 7);
    buffer2[16] = buffer2[16]
        .wrapping_add(((((buffer2[(buffer3[0] as usize) % 35] as u32) & 159)
        | (buffer0[(buffer3[4] as usize) % 20] as u32) | 8).wrapping_sub((ws.b ^ ws.c) | 128)) as u8);
    buffer0[14] ^= buffer2[(buffer3[12] as usize) % 35];
    ws.a = weird_rol8(buffer4[(buffer0[(buffer1[201] as usize) % 20] as usize) % 21],
        ((buffer2[(buffer1[112] as usize) % 35] as u32) << 1) & 7);
    ws.d = ((buffer0[(buffer1[208] as usize) % 20] as u32) & 131)
        | ((buffer0[(buffer1[164] as usize) % 20] as u32) & 124);
    buffer1[19] = buffer1[19].wrapping_add(((ws.a & (ws.d / 5)) | ((ws.a | (ws.d / 5)) & 37)) as u8);
    buffer2[8] = weird_ror8(140,
        ((buffer4[(buffer1[45] as usize) % 21] as u32).wrapping_add(92)
        * (buffer4[(buffer1[45] as usize) % 21] as u32).wrapping_add(92)) & 7) as u8;
    buffer1[190] = 56;
    buffer2[8] ^= buffer3[0];
    buffer1[53] = (!(((buffer0[(buffer1[83] as usize) % 20] as u32) | 204) / 5)) as u8;
    buffer0[13] = buffer0[13].wrapping_add(buffer0[(buffer1[41] as usize) % 20]);
}

/// Runs part 4 of the garbling step on the buffers and the working words.
fn garble_stage_4(buffer0: &mut [u8; 20], buffer1: &mut [u8; 210], buffer2: &mut [u8; 35],
    buffer3: &mut [u8; 132], buffer4: &mut [u8; 21], ws: &mut GarbleWords)
    ensures
        (GarbleState { b0: final(buffer0)@, b1: final(buffer1)@, b2: final(buffer2)@, b3: final(buffer3)@,
            b4: final(buffer4)@, words: *final(ws) })
            == garble_stage_4_spec(GarbleState { b0: old(buffer0)@, b1: old(buffer1)@, b2: old(buffer2)@,
                b3: old(buffer3)@, b4: old(buffer4)@, words: *old(ws) }),
{
    buffer0[10] = ((((buffer2[(buffer3[0] as usize) % 35] as u32) & (buffer1[2] as u32))
        | (((buffer2[(buffer3[0] as usize) % 35] as u32) | (buffer1[2] as u32)) & (buffer3[12] as u32)))
        / 15) as u8;
    ws.a = (((56 | ((buffer4[(buffer1[2] as usize) % 21] as u32) & 68))
        | (buffer2[(buffer3[8] as usize) % 35] as u32)) & 42)
        | ((((buffer4[(buffer1[2] as usize) % 21] as u32) & 68) | 56)
        & (buffer2[(buffer3[8] as usize) % 35] as u32));
    buffer3[16] = ws.a.wrapping_mul(ws.a).wrapping_add(110) as u8;
    buffer3[20] = 202u8.wrapping_sub(buffer3[16]);
    buffer3[24] = buffer1[151];
    buffer2[13] ^= buffer4[(buffer3[0] as usize) % 21];
    ws.b = (((buffer2[(buffer1[179] as usize) % 35] as u32).wrapping_sub(38)) & 177)
        | ((buffer3[12] as u32) & 177);
    ws.c = ((buffer2[(buffer1[179] as usize) % 35] as u32).wrapping_sub(38)) & (buffer3[12] as u32);
    buffer3[28] = 30u32.wrapping_add((ws.b | ws.c).wrapping_mul(ws.b | ws.c)) as u8;
    buffer3[32] = buffer3[28].wrapping_add(62);
    ws.a = (((buffer3[20] as u32).wrapping_add((buffer3[0] as u32) & 74))
        | !(buffer4[(buffer3[0] as usize) % 21] as u32)) & 121;
    ws.b = ((buffer3[20] as u32).wrapping_add((buffer3[0] as u32) & 74))
        & !(buffer4[(buffer3[0] as usize) % 21] as u32);
    ws.tmp3 = ws.a | ws.b;
    ws.c = ((((ws.a | ws.b) ^ 0xffffffa6) | (buffer3[0] as u32)) & 4)
        | (((ws.a | ws.b) ^ 0xffffffa6) & (buffer3[0] as u32));
    buffer1[47] ^= ((buffer2[(buffer1[89] as usize) % 35] as u32).wrapping_add(ws.c)) as u8;
    buffer3[36] = ((rol8(((ws.tmp & 179).wrapping_add(68)) as u8, 2) & buffer0[3])
        | (ws.tmp2 as u8 & !buffer0[3])).wrapping_sub(15);
}

/// Runs part 5 of the garbling step on the buffers and the working words.
fn garble_stage_5(buffer0: &mut [u8; 20], buffer1: &mut [u8; 210], buffer2: &mut [u8; 35],
    buffer3: &mut [u8; 132], buffer4: &mut [u8; 21], ws: &mut GarbleWords)
    ensures
        (GarbleState { b0: final(buffer0)@, b1: final(buffer1)@, b2: final(buffer2)@, b3: final(buffer3)@,
            b4: final(buffer4)@, words: *final(ws) })
            == garble_stage_5_spec(GarbleState { b0: old(buffer0)@, b1: old(buffer1)@, b2: old(buffer2)@,
                b3: old(buffer3)@, b4: old(buffer4)@, words: *old(ws) }),
{
    buffer1[123] ^= 221;
    ws.a = ((buffer4[(buffer3[0] as usize) % 21] as u32) / 3)
        .wrapping_sub((buffer2[(buffer3[4] as usize) % 35] as u32));
    ws.c = ((((buffer3[0] as u32) & 163).wrapping_add(92)) & 246) | ((buffer3[0] as u32) & 92);
    ws.e = ((ws.c | (buffer3[24] as u32)) & 54) | (ws.c & (buffer3[24] as u32));
    buffer3[40] = ws.a.wrapping_sub(ws.e) as u8;
    buffer3[44] = (ws.tmp3 ^ 81 ^ ((((buffer3[0] as u32) >> 1) & 101).wrapping_add(26))) as u8;
    buffer3[48] = ((buffer2[(buffer3[4] as usize) % 35] as u32) & 27) as u8;
    buffer3[52] = 27;
    buffer3[56] = 199;
    ws.b40 = (buffer3[40] as u32);
    ws.b24 = (buffer3[24] as u32);
    ws.b4_20 = (buffer4[(buffer3[0] as usize) % 20] as u32);
    ws.b4_21 = (buffer4[(buffer3[0] as usize) % 21] as u32);
    ws.p = ((ws.b40 | ws.b24) & 177) | (ws.b40 & ws.b24);
    ws.q = (ws.b4_20 & 177) | 176 | (ws.b4_21 & !3);
    ws.r64 = ((ws.b40 & ws.b24) | ((ws.b40 | ws.b24) & 177)) & 199;
}

/// Runs part 6 of the garbling step on the buffers and the working words.
fn garble_stage_6(buffer0: &mut [u8; 20], buffer1: &mut [u8; 210], buffer2: &mut [u8; 35],
    buffer3: &mut [u8; 132], buffer4: &mut [u8; 21], ws: &mut GarbleWords)
    ensures
        (GarbleState { b0: final(buffer0)@, b1: final(buffer1)@, b2: final(buffer2)@, b3: final(buffer3)@,
            b4: final(buffer4)@, words: *final(ws) })
            == garble_stage_6_spec(GarbleState { b0: old(buffer0)@, b1: old(buffer1)@, b2: old(buffer2)@,
                b3: old(buffer3)@, b4: old(buffer4)@, words: *old(ws) }),
{
    ws.s64 = (((ws.b4_21 & 1).wrapping_add(176)) | (ws.b4_21 & !3)) & (buffer3[56] as u32);
    ws.t64 = ((ws.p & ws.q) | (ws.r64 | ws.s64)) & !(buffer3[52] as u32);
    buffer3[64] = buffer3[4].wrapping_add((ws.t64 | (buffer3[48] as u32)) as u8);
    buffer2[33] ^= buffer1[26];
    buffer1[106] ^= buffer3[20] ^ 133;
    buffer2[30] = (((((buffer3[64] as u32) / 3).wrapping_sub(275 | ((buffer3[0] as u32) & 247)))
        ^ (buffer0[(buffer1[122] as usize) % 20] as u32)) & 0xff) as u8;
    buffer1[22] = (((buffer2[(buffer1[90] as usize) % 35] as u32) & 95) | 68) as u8;
    ws.a = ((buffer4[(buffer3[36] as usize) % 21] as u32) & 184)
        | ((buffer2[(buffer3[44] as usize) % 35] as u32) & !184);
    buffer2[18] = buffer2[18].wrapping_add(((ws.a.wrapping_mul(ws.a).wrapping_mul(ws.a)) >> 1) as u8);
    buffer2[5] = buffer2[5].wrapping_sub(buffer4[(buffer1[92] as usize) % 21]);
    ws.a = ((((buffer1[41] as u32) & !24) | ((buffer2[(buffer1[183] as usize) % 35] as u32) & 24))
        & ((buffer3[16] as u32).wrapping_add(53)))
        | ((buffer3[20] as u32) & (buffer2[(buffer3[20] as usize) % 35] as u32));
    ws.b = ((buffer1[17] as u32) & !(buffer3[44] as u32))
        | ((buffer0[(buffer1[59] as usize) % 20] as u32) & (buffer3[44] as u32));
    buffer2[18] ^= ws.a.wrapping_mul(ws.b) as u8;
    ws.a = weird_ror8(buffer1[11], (buffer2[(buffer1[28] as usize) % 35] as u32) & 7) & 7;
    ws.b = ((((buffer0[(buffer1[93] as usize) % 20] as u32) & !(buffer0[14] as u32))
        | ((buffer0[14] as u32) & 150)) & !28) | ((buffer1[7] as u32) & 28);
    buffer2[22] = ((((ws.b | weird_rol8(buffer2[(buffer3[0] as usize) % 35], ws.a)) & (buffer2[33] as u32)
        | (ws.b & weird_rol8(buffer2[(buffer3[0] as usize) % 35], ws.a))).wrapping_add(74)) & 0xff) as u8;
}

/// Runs part 7 of the garbling step on the buffers and the working words.
fn garble_stage_7(buffer0: &mut [u8; 20], buffer1: &mut [u8; 210], buffer2: &mut [u8; 35],
    buffer3: &mut [u8; 132], buffer4: &mut [u8; 21], ws: &mut GarbleWords)
    ensures
        (GarbleState { b0: final(buffer0)@, b1: final(buffer1)@, b2: final(buffer2)@, b3: final(buffer3)@,
            b4: final(buffer4)@, words: *final(ws) })
            == garble_stage_7_spec(GarbleState { b0: old(buffer0)@, b1: old(buffer1)@, b2: old(buffer2)@,
                b3: old(buffer3)@, b4: old(buffer4)@, words: *old(ws) }),
{
    ws.a = (buffer4[(((buffer0[(buffer1[39] as usize) % 20] ^ 217) as usize)) % 21] as u32);
    buffer0[15] = buffer0[15]
        .wrapping_sub((((((buffer3[20] as u32) | (buffer3[0] as u32)) & 214)
        | ((buffer3[20] as u32) & (buffer3[0] as u32))) & ws.a
        | (((((buffer3[20] as u32) | (buffer3[0] as u32)) & 214)
        | ((buffer3[20] as u32) & (buffer3[0] as u32)) | ws.a) & (buffer3[32] as u32))) as u8);
    ws.bc_lhs = ((buffer2[(buffer1[57] as usize) % 35] as u32)
        & (buffer0[(buffer3[64] as usize) % 20] as u32))
        | (((buffer0[(buffer3[64] as usize) % 20] as u32) | (buffer2[(buffer1[57] as usize) % 35] as u32))
        & 95);
    ws.b = (ws.bc_lhs | ((buffer3[64] as u32) & 45) | 82) & 32;
    ws.c = ws.bc_lhs & (((buffer3[64] as u32) & 45) | 82);
    ws.d = (((buffer3[0] as u32) / 3).wrapping_sub((buffer3[64] as u32) | (buffer1[22] as u32)))
        ^ (buffer3[28] as u32).wrapping_add(62) ^ (ws.b | ws.c);
    ws.t = (buffer0[(ws.d & 0xff) as usize % 20] as u32);
    buffer3[68] = ((pow4(buffer0[(buffer1[99] as usize) % 20] as u32))
        | (buffer2[(buffer3[64] as usize) % 35] as u32)) as u8;
    ws.u = (buffer0[(buffer1[50] as usize) % 20] as u32);
    ws.w = (buffer2[(buffer1[138] as usize) % 35] as u32);
    ws.x = (buffer4[(buffer1[39] as usize) % 21] as u32);
    ws.y = (buffer0[(buffer1[4] as usize) % 20] as u32);
    ws.z = (buffer4[(buffer1[202] as usize) % 21] as u32);
    ws.v = (buffer0[(buffer1[151] as usize) % 20] as u32);
    ws.s = (buffer2[(buffer1[14] as usize) % 35] as u32);
    ws.r = (buffer0[(buffer1[145] as usize) % 20] as u32);
}

/// Runs part 8 of the garbling step on the buffers and the working words.
fn garble_stage_8(buffer0: &mut [u8; 20], buffer1: &mut [u8; 210], buffer2: &mut [u8; 35],
    buffer3: &mut [u8; 132], buffer4: &mut [u8; 21], ws: &mut GarbleWords)
    ensures
        (GarbleState { b0: final(buffer0)@, b1: final(buffer1)@, b2: final(buffer2)@, b3: final(buffer3)@,
            b4: final(buffer4)@, words: *final(ws) })
            == garble_stage_8_spec(GarbleState { b0: old(buffer0)@, b1: old(buffer1)@, b2: old(buffer2)@,
                b3: old(buffer3)@, b4: old(buffer4)@, words: *old(ws) }),
{
    ws.a = ((buffer2[(buffer3[68] as usize) % 35] as u32) & (buffer0[(buffer1[209] as usize) % 20] as u32))
        | (((buffer2[(buffer3[68] as usize) % 35] as u32) | (buffer0[(buffer1[209] as usize) % 20] as u32))
        & 24);
    ws.b = weird_rol8(buffer4[(buffer1[127] as usize) % 21], (buffer2[(buffer3[68] as usize) % 35] as u32)
        & 7);
    ws.c = (ws.a & (buffer0[10] as u32)) | (ws.b & !(buffer0[10] as u32));
    ws.d = 7 ^ ((buffer4[(buffer2[(buffer3[36] as usize) % 35] as usize) % 21] as u32) << 1);
    buffer3[72] = ((ws.c & 71) | (ws.d & !71)) as u8;
    buffer2[2] = buffer2[2]
        .wrapping_add((((((buffer0[(buffer3[20] as usize) % 20] as u32) << 1) & 159)
        | ((buffer4[(buffer1[190] as usize) % 21] as u32) & !159))
        & (((((buffer4[(buffer3[64] as usize) % 21] as u32) & 110)
        | ((buffer0[(buffer1[25] as usize) % 20] as u32) & !110)) & !150)
        | ((buffer1[25] as u32) & 150))) as u8);
    buffer2[14] = buffer2[14]
        .wrapping_sub(((((buffer2[(buffer3[20] as usize) % 35] as u32)
        & ((buffer3[72] as u32) ^ (buffer2[(buffer1[100] as usize) % 35] as u32))) & !34)
        | ((buffer1[97] as u32) & 34)) as u8);
    buffer0[17] = 115;
    ws.q = (((buffer4[(buffer1[17] as usize) % 21] as u32) | (buffer0[(buffer3[20] as usize) % 20] as u32))
        & (buffer3[72] as u32))
        | ((buffer4[(buffer1[17] as usize) % 21] as u32) & (buffer0[(buffer3[20] as usize) % 20] as u32));
    buffer1[23] ^= (((ws.q & ((buffer1[50] as u32) / 3))
        | ((ws.q | ((buffer1[50] as u32) / 3)) & 246)) << 1) as u8;
    buffer0[13] = (((((((buffer0[(buffer3[40] as usize) % 20] as u32) | (buffer1[10] as u32)) & 82)
        | ((buffer0[(buffer3[40] as usize) % 20] as u32) & (buffer1[10] as u32))) & 209)
        | (((buffer0[(buffer1[39] as usize) % 20] as u32) << 1) & 46)) >> 1) as u8;
    buffer2[33] = buffer2[33].wrapping_sub(((buffer1[113] as u32) & 9) as u8);
    buffer2[28] = buffer2[28]
        .wrapping_sub(((((2 | ((buffer1[110] as u32) & 222)) >> 1) & !223)
        | ((buffer3[20] as u32) & 223)) as u8);
    ws.j = weird_rol8((ws.v | ws.z) as u8, ws.u & 7);
    ws.a = ((buffer2[16] as u32) & ws.t) | (ws.w & !(buffer2[16] as u32));
    ws.b = ((buffer1[33] as u32) & 17) | (ws.x & !17);
}

/// Runs part 9 of the garbling step on the buffers and the working words.
fn garble_stage_9(buffer0: &mut [u8; 20], buffer1: &mut [u8; 210], buffer2: &mut [u8; 35],
    buffer3: &mut [u8; 132], buffer4: &mut [u8; 21], ws: &mut GarbleWords)
    ensures
        (GarbleState { b0: final(buffer0)@, b1: final(buffer1)@, b2: final(buffer2)@, b3: final(buffer3)@,
            b4: final(buffer4)@, words: *final(ws) })
            == garble_stage_9_spec(GarbleState { b0: old(buffer0)@, b1: old(buffer1)@, b2: old(buffer2)@,
                b3: old(buffer3)@, b4: old(buffer4)@, words: *old(ws) }),
{
    ws.e = ((ws.y | ((ws.a.wrapping_add(ws.b)) / 5)) & 147) | (ws.y & ((ws.a.wrapping_add(ws.b)) / 5));
    ws.m = ((buffer3[40] as u32)
        & (buffer4[(((buffer3[8] as u32).wrapping_add(ws.j).wrapping_add(ws.e))
        & 0xff) as usize % 21] as u32))
        | (((buffer3[40] as u32)
        | (buffer4[(((buffer3[8] as u32).wrapping_add(ws.j).wrapping_add(ws.e))
        & 0xff) as usize % 21] as u32)) & (buffer2[23] as u32));
    buffer0[15] = ((((buffer4[(buffer3[20] as usize) % 21] as u32).wrapping_sub(48) & !(buffer1[184] as u32))
        | ((buffer4[(buffer3[20] as usize) % 21] as u32).wrapping_sub(48) & 189)
        | (189 & !(buffer1[184] as u32))) & ws.m.wrapping_mul(ws.m).wrapping_mul(ws.m)) as u8;
    buffer2[22] = buffer2[22].wrapping_add(buffer1[183]);
    buffer3[76] = (3u32.wrapping_mul((buffer4[(buffer1[1] as usize) % 21] as u32))
        ^ (buffer3[0] as u32)) as u8;
    ws.a = (buffer2[(((buffer3[8] as u32).wrapping_add(ws.j.wrapping_add(ws.e)))
        & 0xff) as usize % 35] as u32);
    ws.f = (((buffer4[(buffer1[178] as usize) % 21] as u32) & ws.a)
        | (((buffer4[(buffer1[178] as usize) % 21] as u32) | ws.a) & 209))
        .wrapping_mul((buffer0[(buffer1[13] as usize) % 20] as u32))
        .wrapping_mul((buffer4[(buffer1[26] as usize) % 21] as u32) >> 1);
    ws.g = (ws.f.wrapping_add(0x733ffff9)).wrapping_mul(198)
        .wrapping_sub(((ws.f.wrapping_add(0x733ffff9)).wrapping_mul(396).wrapping_add(212)) & 212)
        .wrapping_add(85);
    buffer3[80] = ((buffer3[36] as u32).wrapping_add(ws.g ^ 148).wrapping_add((ws.g ^ 107) << 1)
        .wrapping_sub(127)) as u8;
    buffer3[84] = (((buffer2[(buffer3[64] as usize) % 35] as u32) & 245)
        | ((buffer2[(buffer3[20] as usize) % 35] as u32) & 10)) as u8;
    ws.a = (buffer0[(buffer3[68] as usize) % 20] as u32) | 81;
    buffer2[18] = buffer2[18]
        .wrapping_sub(((ws.a.wrapping_mul(ws.a).wrapping_mul(ws.a) & !(buffer0[15] as u32))
        | (((buffer3[80] as u32) / 15) & (buffer0[15] as u32))) as u8);
    buffer3[88] = ((buffer3[8] as u32).wrapping_add(ws.j).wrapping_add(ws.e)
        .wrapping_sub((buffer0[(buffer1[160] as usize) % 20] as u32))
        .wrapping_add((buffer4[(buffer0[(((buffer3[8] as u32).wrapping_add(ws.j).wrapping_add(ws.e))
        & 255) as usize % 20] as usize) % 21] as u32) / 3)) as u8;
    ws.b = ((ws.r ^ (buffer3[72] as u32)) & !198) | ((ws.s.wrapping_mul(ws.s)) & 198);
    ws.f = ((buffer4[(buffer1[69] as usize) % 21] as u32) & (buffer1[172] as u32))
        | (((buffer4[(buffer1[69] as usize) % 21] as u32) | (buffer1[172] as u32))
        & ((buffer3[12] as u32).wrapping_sub(ws.b).wrapping_add(77)));
    buffer0[16] = (147u32
        .wrapping_sub(((buffer3[72] as u32) & (ws.f & 251 | 1))
        | (((ws.f & 250) | (buffer3[72] as u32)) & 198))) as u8;
}

/// Runs part 10 of the garbling step on the buffers and the working words.
fn garble_stage_10(buffer0: &mut [u8; 20], buffer1: &mut [u8; 210], buffer2: &mut [u8; 35],
    buffer3: &mut [u8; 132], buffer4: &mut [u8; 21], ws: &mut GarbleWords)
    ensures
        (GarbleState { b0: final(buffer0)@, b1: final(buffer1)@, b2: final(buffer2)@, b3: final(buffer3)@,
            b4: final(buffer4)@, words: *final(ws) })
            == garble_stage_10_spec(GarbleState { b0: old(buffer0)@, b1: old(buffer1)@, b2: old(buffer2)@,
                b3: old(buffer3)@, b4: old(buffer4)@, words: *old(ws) }),
{
    ws.c = ((buffer4[(buffer1[168] as usize) % 21] as u32) & (buffer0[(buffer1[29] as usize) % 20] as u32)
        & 7) | (((buffer4[(buffer1[168] as usize) % 21] as u32)
        | (buffer0[(buffer1[29] as usize) % 20] as u32)) & 6);
    ws.f = ((buffer4[(buffer1[155] as usize) % 21] as u32) & (buffer1[105] as u32))
        | (((buffer4[(buffer1[155] as usize) % 21] as u32) | (buffer1[105] as u32)) & 141);
    buffer0[3] = buffer0[3].wrapping_sub(buffer4[(weird_rol32(ws.f as u8, ws.c) % 21) as usize]);
    buffer1[5] = (weird_ror8(buffer0[12], ((buffer0[(buffer1[61] as usize) % 20] as u32) / 5) & 7)
        ^ ((!(buffer2[(buffer3[84] as usize) % 35] as u32)) / 5)) as u8;
    buffer1[198] = buffer1[198].wrapping_add(buffer1[3]);
    ws.a = 162 | (buffer2[(buffer3[64] as usize) % 35] as u32);
    buffer1[164] = buffer1[164].wrapping_add(((ws.a.wrapping_mul(ws.a)) / 5) as u8);
    ws.g = weird_ror8(139, (buffer3[80] as u32) & 7);
    ws.c = (((buffer4[(buffer3[64] as usize) % 21] as u32)
        .wrapping_mul((buffer4[(buffer3[64] as usize) % 21] as u32))
        .wrapping_mul((buffer4[(buffer3[64] as usize) % 21] as u32))) & 95)
        | ((buffer0[(buffer3[40] as usize) % 20] as u32) & !95);
    buffer3[92] = ((ws.g & 12) | ((buffer0[(buffer3[20] as usize) % 20] as u32) & 12)
        | (ws.g & (buffer0[(buffer3[20] as usize) % 20] as u32)) | ws.c) as u8;
    buffer2[12] = buffer2[12]
        .wrapping_add(((((buffer1[103] as u32) & 32) | ((buffer3[92] as u32) & ((buffer1[103] as u32) | 60))
        | 16) / 3) as u8);
    buffer3[96] = buffer1[143];
    buffer3[100] = 27;
    buffer3[104] = ((((buffer3[40] as u32) & !(buffer2[8] as u32))
        | ((buffer1[35] as u32) & (buffer2[8] as u32))) & (buffer3[64] as u32) ^ 119) as u8;
    buffer3[108] = (238
        & (((((buffer3[40] as u32) & !(buffer2[8] as u32)) | ((buffer1[35] as u32) & (buffer2[8] as u32)))
        & (buffer3[64] as u32)) << 1)) as u8;
    buffer3[112] = (((!(buffer3[64] as u32)) & ((buffer3[84] as u32) / 3)) ^ 49) as u8;
}

/// Runs part 11 of the garbling step on the buffers and the working words.
fn garble_stage_11(buffer0: &mut [u8; 20], buffer1: &mut [u8; 210], buffer2: &mut [u8; 35],
    buffer3: &mut [u8; 132], buffer4: &mut [u8; 21], ws: &mut GarbleWords)
    ensures
        (GarbleState { b0: final(buffer0)@, b1: final(buffer1)@, b2: final(buffer2)@, b3: final(buffer3)@,
            b4: final(buffer4)@, words: *final(ws) })
            == garble_stage_11_spec(GarbleState { b0: old(buffer0)@, b1: old(buffer1)@, b2: old(buffer2)@,
                b3: old(buffer3)@, b4: old(buffer4)@, words: *old(ws) }),
{
    buffer3[116] = (98 & (((!(buffer3[64] as u32)) & ((buffer3[84] as u32) / 3)) << 1)) as u8;
    ws.a = ((buffer1[35] as u32) & (buffer2[8] as u32)) | ((buffer3[40] as u32) & !(buffer2[8] as u32));
    ws.b = (ws.a & (buffer3[64] as u32)) | (((buffer3[84] as u32) / 3) & !(buffer3[64] as u32));
    buffer1[143] = buffer3[96]
        .wrapping_sub(((ws.b & (86 + (((buffer1[172] as u32) & 64) >> 1)))
        | ((((((buffer1[172] as u32) & 65) >> 1) ^ 86)
        | (((!(buffer3[64] as u32)) & ((buffer3[84] as u32) / 3))
        | ((((buffer3[40] as u32) & !(buffer2[8] as u32)) | ((buffer1[35] as u32) & (buffer2[8] as u32)))
        & (buffer3[64] as u32)))) & (buffer3[100] as u32))) as u8);
    buffer2[29] = 162;
    ws.a = (((buffer4[(buffer3[88] as usize) % 21] as u32) & 160)
        | ((buffer0[(buffer1[125] as usize) % 20] as u32) & 95)) >> 1;
    ws.b = (buffer2[(buffer1[149] as usize) % 35] as u32) ^ (buffer1[43] as u32)
        .wrapping_mul((buffer1[43] as u32));
    buffer0[15] = buffer0[15].wrapping_add(((ws.b & ws.a) | ((ws.a | ws.b) & 115)) as u8);
    buffer3[120] = buffer3[64].wrapping_sub(buffer0[(buffer3[40] as usize) % 20]);
    buffer1[95] = buffer4[(buffer3[20] as usize) % 21];
    ws.a = weird_ror8(buffer2[(buffer3[80] as usize) % 35],
        ((buffer2[(buffer1[17] as usize) % 35] as u32)
        .wrapping_mul((buffer2[(buffer1[17] as usize) % 35] as u32))
        .wrapping_mul((buffer2[(buffer1[17] as usize) % 35] as u32))) & 7);
    buffer0[7] = buffer0[7].wrapping_sub(ws.a.wrapping_mul(ws.a) as u8);
    buffer2[8] = buffer2[8].wrapping_sub(buffer1[184])
        .wrapping_add(((buffer4[(buffer1[202] as usize) % 21] as u32)
        .wrapping_mul((buffer4[(buffer1[202] as usize) % 21] as u32))
        .wrapping_mul((buffer4[(buffer1[202] as usize) % 21] as u32))) as u8);
    buffer0[16] = (((buffer2[(buffer1[102] as usize) % 35] as u32) << 1) & 132) as u8;
    buffer3[124] = (((buffer4[(buffer3[40] as usize) % 21] as u32) >> 1) ^ (buffer3[68] as u32)) as u8;
    buffer0[7] = buffer0[7]
        .wrapping_sub(buffer0[(buffer1[191] as usize) % 20]
        .wrapping_sub(((((buffer4[(buffer1[80] as usize) % 21] as u32) << 1) & !177)
        | ((buffer4[(buffer4[(buffer3[88] as usize) % 21] as usize) % 21] as u32) & 177)) as u8));
}

/// Runs part 12 of the garbling step on the buffers and the working words.
fn garble_stage_12(buffer0: &mut [u8; 20], buffer1: &mut [u8; 210], buffer2: &mut [u8; 35],
    buffer3: &mut [u8; 132], buffer4: &mut [u8; 21], ws: &mut GarbleWords)
    ensures
        (GarbleState { b0: final(buffer0)@, b1: final(buffer1)@, b2: final(buffer2)@, b3: final(buffer3)@,
            b4: final(buffer4)@, words: *final(ws) })
            == garble_stage_12_spec(GarbleState { b0: old(buffer0)@, b1: old(buffer1)@, b2: old(buffer2)@,
                b3: old(buffer3)@, b4: old(buffer4)@, words: *old(ws) }),
{
    buffer0[6] = buffer0[(buffer1[119] as usize) % 20];
    ws.a = ((buffer4[(buffer1[190] as usize) % 21] as u32) & !209) | ((buffer1[118] as u32) & 209);
    ws.b = (buffer0[(buffer3[120] as usize) % 20] as u32)
        .wrapping_mul((buffer0[(buffer3[120] as usize) % 20] as u32));
    buffer0[12] = ((buffer0[(buffer3[84] as usize) % 20] as u32)
        ^ ((buffer2[(buffer1[71] as usize) % 35] as u32)
        .wrapping_add((buffer2[(buffer1[15] as usize) % 35] as u32)))) as u8
        & ((ws.a & ws.b) | ((ws.a | ws.b) & 27)) as u8;
    ws.b = ((buffer1[32] as u32) & (buffer2[(buffer3[88] as usize) % 35] as u32))
        | (((buffer1[32] as u32) | (buffer2[(buffer3[88] as usize) % 35] as u32)) & 23);
    ws.d = ((buffer4[(buffer1[57] as usize) % 21] as u32).wrapping_mul(231) & 169) | (ws.b & 86);
    ws.f = ((((buffer0[(buffer1[82] as usize) % 20] as u32) & !29)
        | ((buffer4[(buffer3[124] as usize) % 21] as u32) & 29)) & 190)
        | ((buffer4[((ws.d / 5) % 21) as usize] as u32) & !190);
    ws.h = (buffer0[(buffer3[40] as usize) % 20] as u32)
        .wrapping_mul((buffer0[(buffer3[40] as usize) % 20] as u32))
        .wrapping_mul((buffer0[(buffer3[40] as usize) % 20] as u32));
    ws.k = (ws.h & (buffer1[82] as u32)) | (ws.h & 92) | ((buffer1[82] as u32) & 92);
    buffer3[128] = (((ws.f & ws.k) | ((ws.f | ws.k) & 192)) ^ (ws.d / 5)) as u8;
    buffer2[25] ^= (((buffer0[(buffer3[120] as usize) % 20] << 1) as u32).wrapping_mul((buffer1[5] as u32))
        .wrapping_sub(weird_rol8(buffer3[76], (buffer4[(buffer3[124] as usize) % 21] as u32) & 7)
        & (buffer3[20] as u32).wrapping_add(110))) as u8;
}

/// Garbles the five scratch buffers in place.
fn garble_rust(buffer0: &mut [u8; 20], buffer1: &mut [u8; 210], buffer2: &mut [u8; 35],
    buffer3: &mut [u8; 132], buffer4: &mut [u8; 21])
    ensures
        (final(buffer0)@, final(buffer1)@, final(buffer2)@, final(buffer3)@, final(buffer4)@)
            == garble_spec(old(buffer0)@, old(buffer1)@, old(buffer2)@, old(buffer3)@, old(buffer4)@),
{
    let mut ws = GarbleWords { tmp2: 0, tmp: 0, rshift: 0, term: 0, sub: 0, a: 0, e: 0, d: 0, b: 0, c: 0,
        tmp3: 0, b40: 0, b24: 0, b4_20: 0, b4_21: 0, p: 0, q: 0, r64: 0, s64: 0, t64: 0, bc_lhs: 0, t: 0,
        u: 0, w: 0, x: 0, y: 0, z: 0, v: 0, s: 0, r: 0, j: 0, m: 0, f: 0, g: 0, h: 0, k: 0 };
    garble_stage_1(buffer0, buffer1, buffer2, buffer3, buffer4, &mut ws);
    garble_stage_2(buffer0, buffer1, buffer2, buffer3, buffer4, &mut ws);
    garble_stage_3(buffer0, buffer1, buffer2, buffer3, buffer4, &mut ws);
    garble_stage_4(buffer0, buffer1, buffer2, buffer3, buffer4, &mut ws);
    garble_stage_5(buffer0, buffer1, buffer2, buffer3, buffer4, &mut ws);
    garble_stage_6(buffer0, buffer1, buffer2, buffer3, buffer4, &mut ws);
    garble_stage_7(buffer0, buffer1, buffer2, buffer3, buffer4, &mut ws);
    garble_stage_8(buffer0, buffer1, buffer2, buffer3, buffer4, &mut ws);
    garble_stage_9(buffer0, buffer1, buffer2, buffer3, buffer4, &mut ws);
    garble_stage_10(buffer0, buffer1, buffer2, buffer3, buffer4, &mut ws);
    garble_stage_11(buffer0, buffer1, buffer2, buffer3, buffer4, &mut ws);
    garble_stage_12(buffer0, buffer1, buffer2, buffer3, buffer4, &mut ws);
}


/// Byte `i` of the 210-byte working buffer before mixing: the 64-byte block read word by
/// word with the bytes of each 32-bit word reversed, repeated.
pub open spec fn swapped_block_byte(block: Seq<u8>, i: int) -> u8 {
    let q = i % 64;
    block[q - q % 4 + (3 - q % 4)]
}

/// One mixing step on the working buffer: the byte at `i % 210` is recomputed from three
/// earlier positions and itself.
pub open spec fn sap_mix_step(b1: Seq<u8>, i: u32) -> Seq<u8> {
    let x = b1[(i.wrapping_sub(155) as usize % 210) as int];
    let y = b1[(i.wrapping_sub(57) as usize % 210) as int];
    let z = b1[(i.wrapping_sub(13) as usize % 210) as int];
    let w = b1[(i as usize % 210) as int];
    b1.update((i as usize % 210) as int, rol8(y, 5).wrapping_add(rol8(z, 3) ^ w).wrapping_sub(rol8(x, 7)))
}

/// The first `n` mixing steps applied in order.
pub open spec fn sap_mix(b1: Seq<u8>, n: nat) -> Seq<u8>
    decreases n,
{
    if n == 0 {
        b1
    } else {
        sap_mix_step(sap_mix(b1, (n - 1) as nat), (n - 1) as u32)
    }
}

/// The fixed first scratch buffer.
pub open spec fn sap_seed0() -> Seq<u8> {
    seq![
        0x96u8, 0x5F, 0xC6, 0x53, 0xF8, 0x46, 0xCC, 0x18, 0xDF, 0xBE, 0xB2, 0xF8, 0x38, 0xD7, 0xEC, 0x22,
            0x03, 0xD1,
        0x20, 0x8F,
    ]
}

/// The fixed third scratch buffer.
pub open spec fn sap_seed2() -> Seq<u8> {
    seq![
        0x43u8, 0x54, 0x62, 0x7A, 0x18, 0xC3, 0xD6, 0xB3, 0x9A, 0x56, 0xF6, 0x1C, 0x14, 0x3F, 0x0C, 0x1D,
            0x3B, 0x36,
        0x83, 0xB1, 0x39, 0x51, 0x4A, 0xAA, 0x09, 0x3E, 0xFE, 0x44, 0xAF, 0xDE, 0xC3, 0x20, 0x9D, 0x42, 0x3A,
    ]
}

/// The fixed fifth scratch buffer.
pub open spec fn sap_seed4() -> Seq<u8> {
    seq![
        0xEDu8, 0x25, 0xD1, 0xBB, 0xBC, 0x27, 0x9F, 0x02, 0xA2, 0xA9, 0x11, 0x00, 0x0C, 0xB3, 0x52, 0xC0,
            0xBD, 0xE3,
        0x1B, 0x49, 0xC7,
    ]
}

/// The five scratch buffers made from a 64-byte block: fixed contents for the first, third
/// and fifth, zeros for the fourth, and for the second the block's word-swapped bytes after
/// 840 mixing steps.
pub open spec fn sap_buffers_spec(block: Seq<u8>) -> (Seq<u8>, Seq<u8>, Seq<u8>, Seq<u8>, Seq<u8>) {
    (
        sap_seed0(),
        sap_mix(Seq::new(210, |i: int| swapped_block_byte(block, i)), 840),
        sap_seed2(),
        Seq::new(132, |i: int| 0u8),
        sap_seed4(),
    )
}

/// Builds the five scratch buffers of the hash from a 64-byte block.
fn sap_buffers_from_block(block_in: &[u8; 64]) -> (r: ([u8; 20], [u8; 210], [u8; 35], [u8; 132], [u8; 21]))
    ensures
        (r.0@, r.1@, r.2@, r.3@, r.4@) == sap_buffers_spec(block_in@),
{
    let buffer0: [u8; 20] = [
        0x96, 0x5F, 0xC6, 0x53, 0xF8, 0x46, 0xCC, 0x18, 0xDF, 0xBE, 0xB2, 0xF8, 0x38, 0xD7, 0xEC, 0x22, 0x03,
            0xD1, 0x20,
        0x8F,
    ];
    let mut buffer1: [u8; 210] = [0u8; 210];
    let buffer2: [u8; 35] = [
        0x43, 0x54, 0x62, 0x7A, 0x18, 0xC3, 0xD6, 0xB3, 0x9A, 0x56, 0xF6, 0x1C, 0x14, 0x3F, 0x0C, 0x1D, 0x3B,
            0x36, 0x83,
        0xB1, 0x39, 0x51, 0x4A, 0xAA, 0x09, 0x3E, 0xFE, 0x44, 0xAF, 0xDE, 0xC3, 0x20, 0x9D, 0x42, 0x3A,
    ];
    let buffer3: [u8; 132] = [0u8; 132];
    let buffer4: [u8; 21] = [
        0xED, 0x25, 0xD1, 0xBB, 0xBC, 0x27, 0x9F, 0x02, 0xA2, 0xA9, 0x11, 0x00, 0x0C, 0xB3, 0x52, 0xC0, 0xBD,
            0xE3, 0x1B,
        0x49, 0xC7,
    ];
    let mut i: usize = 0;
    while i < 210
        invariant
            i <= 210,
            buffer1@.len() == 210,
            forall|k: int| 0 <= k < i ==> buffer1@[k] == swapped_block_byte(block_in@, k),
        decreases 210 - i,
    {
        let idx: usize = i % 64;
        // the byte at the same place in the word, counted from its other end
        let src: usize = idx - idx % 4 + (3 - idx % 4);
        buffer1[i] = block_in[src];
        i = i + 1;
    }
    let ghost start = buffer1@;
    assert(start == Seq::new(210, |k: int| swapped_block_byte(block_in@, k)));
    let mut n: u32 = 0;
    while n < 840
        invariant
            n <= 840,
            buffer1@ == sap_mix(start, n as nat),
        decreases 840 - n,
    {
        let x = buffer1[n.wrapping_sub(155) as usize % 210];
        let y = buffer1[n.wrapping_sub(57) as usize % 210];
        let z = buffer1[n.wrapping_sub(13) as usize % 210];
        let w = buffer1[n as usize % 210];
        buffer1[n as usize % 210] = rol8(y, 5).wrapping_add(rol8(z, 3) ^ w).wrapping_sub(rol8(x, 7));
        n = n + 1;
    }
    assert(buffer0@ == sap_seed0());
    assert(buffer2@ == sap_seed2());
    assert(buffer3@ == Seq::new(132, |k: int| 0u8));
    assert(buffer4@ == sap_seed4());
    (buffer0, buffer1, buffer2, buffer3, buffer4)
}

/// Which word of the fourth buffer seeds byte `i` of the key, for `i < 11`.
pub open spec fn finalize_word_index(i: int) -> int {
    seq![18int, 22, 23, 0, 5, 19, 32, 31, 10, 21, 30][i]
}

/// The key before the buffers are folded in: `0x3d` at index 3, `0xE1` plus the first
/// byte of a word of the fourth buffer at the other indices below 11, `0xE1` above.
pub open spec fn finalize_seed(b3: Seq<u8>) -> Seq<u8> {
    Seq::new(
        16,
        |i: int|
            if i == 3 {
                0x3du8
            } else if i < 11 {
                0xE1u8.wrapping_add(b3[finalize_word_index(i) * 4])
            } else {
                0xE1u8
            },
    )
}

/// `key` with the first `n` bytes of `src` xor-ed in, byte `i` of `src` onto byte `i % 16`.
pub open spec fn fold_xor(key: Seq<u8>, src: Seq<u8>, n: nat) -> Seq<u8>
    decreases n,
{
    if n == 0 {
        key
    } else {
        let k = fold_xor(key, src, (n - 1) as nat);
        let i = (n - 1) % 16;
        k.update(i, k[i] ^ src[n - 1])
    }
}

/// One diffusion step: byte `i` of the key recomputed from itself and three other bytes.
pub open spec fn diffuse_step(key: Seq<u8>, i: int) -> Seq<u8> {
    key.update(
        i,
        rol8(key[(i + 9) % 16], 1) ^ key[i] ^ rol8(key[(i + 11) % 16], 6) ^ rol8(key[(i + 15) % 16], 5),
    )
}

/// The diffusion steps for bytes `0..n`, in order.
pub open spec fn diffuse_pass(key: Seq<u8>, n: nat) -> Seq<u8>
    decreases n,
{
    if n == 0 {
        key
    } else {
        diffuse_step(diffuse_pass(key, (n - 1) as nat), n - 1)
    }
}

/// `rounds` full diffusion passes over the 16 key bytes.
pub open spec fn diffuse(key: Seq<u8>, rounds: nat) -> Seq<u8>
    decreases rounds,
{
    if rounds == 0 {
        key
    } else {
        diffuse_pass(diffuse(key, (rounds - 1) as nat), 16)
    }
}

/// The 16-byte result computed from the garbled buffers: the seed, the first, third and
/// second buffers folded in, then 16 diffusion passes.
pub open spec fn sap_finalize_spec(b0: Seq<u8>, b1: Seq<u8>, b2: Seq<u8>, b3: Seq<u8>) -> Seq<u8> {
    let k = fold_xor(finalize_seed(b3), b0, 20);
    let k = fold_xor(k, b2, 35);
    let k = fold_xor(k, b1, 210);
    diffuse(k, 16)
}

/// Xors the first `n` bytes of `src` into `key`, byte `i` onto byte `i % 16`.
fn xor_fold_into(key: &mut [u8; 16], src: &[u8], n: usize)
    requires
        n <= src@.len(),
    ensures
        final(key)@ == fold_xor(old(key)@, src@, n as nat),
{
    let mut i: usize = 0;
    while i < n
        invariant
            i <= n,
            n <= src@.len(),
            key@ == fold_xor(old(key)@, src@, i as nat),
        decreases n - i,
    {
        key[i % 16] = key[i % 16] ^ src[i];
        i = i + 1;
    }
}

/// Turns the garbled buffers into the 16-byte result. The key argument is not read.
fn sap_finalize(_key_in_out: &[u8; 16], buffer0: &[u8; 20], buffer1: &[u8; 210], buffer2: &[u8; 35],
    buffer3: &[u8; 132]) -> (key_out: [u8; 16])
    ensures
        key_out@ == sap_finalize_spec(buffer0@, buffer1@, buffer2@, buffer3@),
{
    let i0_index: [usize; 11] = [18, 22, 23, 0, 5, 19, 32, 31, 10, 21, 30];
    let mut key_out: [u8; 16] = [0xE1u8; 16];
    assert(i0_index@ == seq![18usize, 22, 23, 0, 5, 19, 32, 31, 10, 21, 30]);
    let mut i: usize = 0;
    while i < 11
        invariant
            i <= 11,
            key_out@.len() == 16,
            forall|k: int|
                #![trigger i0_index@[k]]
                0 <= k < 11 ==> i0_index@[k] == finalize_word_index(k) && i0_index@[k] <= 32,
            forall|k: int| 0 <= k < i ==> key_out@[k] == finalize_seed(buffer3@)[k],
            forall|k: int| i <= k < 16 ==> key_out@[k] == 0xE1u8,
        decreases 11 - i,
    {
        let word: usize = i0_index[i];
        key_out[i] = if i == 3 {
            0x3d
        } else {
            key_out[i].wrapping_add(buffer3[word * 4])
        };
        i = i + 1;
    }
    assert(key_out@ == finalize_seed(buffer3@));
    xor_fold_into(&mut key_out, buffer0, 20);
    xor_fold_into(&mut key_out, buffer2, 35);
    xor_fold_into(&mut key_out, buffer1, 210);
    let ghost folded = key_out@;
    let mut round: usize = 0;
    while round < 16
        invariant
            round <= 16,
            key_out@ == diffuse(folded, round as nat),
        decreases 16 - round,
    {
        let ghost before = key_out@;
        let mut i: usize = 0;
        while i < 16
            invariant
                i <= 16,
                key_out@ == diffuse_pass(before, i as nat),
            decreases 16 - i,
        {
            let x = key_out[(i + 9) % 16];
            let y = key_out[i];
            let z = key_out[(i + 11) % 16];
            let w = key_out[(i + 15) % 16];
            key_out[i] = rol8(x, 1) ^ y ^ rol8(z, 6) ^ rol8(w, 5);
            i = i + 1;
        }
        round = round + 1;
    }
    key_out
}

/// What the hash makes of a 64-byte block: the scratch buffers built from it, garbled,
/// then finalized.
pub open spec fn sap_hash_spec(block: Seq<u8>) -> Seq<u8> {
    let (b0, b1, b2, b3, b4) = sap_buffers_spec(block);
    let (g0, g1, g2, g3, g4) = garble_spec(b0, b1, b2, b3, b4);
    sap_finalize_spec(g0, g1, g2, g3)
}

/// The SAP hash of a 64-byte block. The result depends on the block alone: the key
/// argument is accepted and not read.
pub fn sap_hash_rust(block_in: &[u8; 64], key_in_out: &[u8; 16]) -> (r: [u8; 16])
    ensures
        r@ == sap_hash_spec(block_in@),
{
    let (mut buffer0, mut buffer1, mut buffer2, mut buffer3, mut buffer4) = sap_buffers_from_block(block_in);
    garble_rust(&mut buffer0, &mut buffer1, &mut buffer2, &mut buffer3, &mut buffer4);
    sap_finalize(key_in_out, &buffer0, &buffer1, &buffer2, &buffer3)
}

/// One full diffusion pass written out: the mixing steps of bytes 0 to 15, in order.
pub open spec fn pass_of_steps(k: Seq<u8>) -> Seq<u8> {
    let k1 = diffuse_step(k, 0);
    let k2 = diffuse_step(k1, 1);
    let k3 = diffuse_step(k2, 2);
    let k4 = diffuse_step(k3, 3);
    let k5 = diffuse_step(k4, 4);
    let k6 = diffuse_step(k5, 5);
    let k7 = diffuse_step(k6, 6);
    let k8 = diffuse_step(k7, 7);
    let k9 = diffuse_step(k8, 8);
    let k10 = diffuse_step(k9, 9);
    let k11 = diffuse_step(k10, 10);
    let k12 = diffuse_step(k11, 11);
    let k13 = diffuse_step(k12, 12);
    let k14 = diffuse_step(k13, 13);
    let k15 = diffuse_step(k14, 14);
    let k16 = diffuse_step(k15, 15);
    k16
}

/// Sixteen full diffusion passes, one after the other.
pub open spec fn sixteen_passes(k: Seq<u8>) -> Seq<u8> {
    let p1 = pass_of_steps(k);
    let p2 = pass_of_steps(p1);
    let p3 = pass_of_steps(p2);
    let p4 = pass_of_steps(p3);
    let p5 = pass_of_steps(p4);
    let p6 = pass_of_steps(p5);
    let p7 = pass_of_steps(p6);
    let p8 = pass_of_steps(p7);
    let p9 = pass_of_steps(p8);
    let p10 = pass_of_steps(p9);
    let p11 = pass_of_steps(p10);
    let p12 = pass_of_steps(p11);
    let p13 = pass_of_steps(p12);
    let p14 = pass_of_steps(p13);
    let p15 = pass_of_steps(p14);
    let p16 = pass_of_steps(p15);
    p16
}

proof fn lemma_pass_of_steps(k: Seq<u8>)
    ensures
        diffuse_pass(k, 16) == pass_of_steps(k),
{
    reveal_with_fuel(diffuse_pass, 17);
}

/// The 16-byte result is the folded key diffused by exactly sixteen full passes of the
/// mixing step: the seed from the fourth buffer, with the first, third and second buffers
/// xor-ed in, then sixteen times the sixteen mixing steps.
pub proof fn lemma_finalize_diffuses_sixteen_passes(b0: Seq<u8>, b1: Seq<u8>, b2: Seq<u8>, b3: Seq<u8>)
    ensures
        sap_finalize_spec(b0, b1, b2, b3) == sixteen_passes(
            fold_xor(fold_xor(fold_xor(finalize_seed(b3), b0, 20), b2, 35), b1, 210),
        ),
{
    let k = fold_xor(fold_xor(fold_xor(finalize_seed(b3), b0, 20), b2, 35), b1, 210);
    assert(diffuse(k, 0) == k);
    lemma_pass_of_steps(diffuse(k, 0));
    assert(diffuse(k, 1) == pass_of_steps(diffuse(k, 0)));
    lemma_pass_of_steps(diffuse(k, 1));
    assert(diffuse(k, 2) == pass_of_steps(diffuse(k, 1)));
    lemma_pass_of_steps(diffuse(k, 2));
    assert(diffuse(k, 3) == pass_of_steps(diffuse(k, 2)));
    lemma_pass_of_steps(diffuse(k, 3));
    assert(diffuse(k, 4) == pass_of_steps(diffuse(k, 3)));
    lemma_pass_of_steps(diffuse(k, 4));
    assert(diffuse(k, 5) == pass_of_steps(diffuse(k, 4)));
    lemma_pass_of_steps(diffuse(k, 5));
    assert(diffuse(k, 6) == pass_of_steps(diffuse(k, 5)));
    lemma_pass_of_steps(diffuse(k, 6));
    assert(diffuse(k, 7) == pass_of_steps(diffuse(k, 6)));
    lemma_pass_of_steps(diffuse(k, 7));
    assert(diffuse(k, 8) == pass_of_steps(diffuse(k, 7)));
    lemma_pass_of_steps(diffuse(k, 8));
    assert(diffuse(k, 9) == pass_of_steps(diffuse(k, 8)));
    lemma_pass_of_steps(diffuse(k, 9));
    assert(diffuse(k, 10) == pass_of_steps(diffuse(k, 9)));
    lemma_pass_of_steps(diffuse(k, 10));
    assert(diffuse(k, 11) == pass_of_steps(diffuse(k, 10)));
    lemma_pass_of_steps(diffuse(k, 11));
    assert(diffuse(k, 12) == pass_of_steps(diffuse(k, 11)));
    lemma_pass_of_steps(diffuse(k, 12));
    assert(diffuse(k, 13) == pass_of_steps(diffuse(k, 12)));
    lemma_pass_of_steps(diffuse(k, 13));
    assert(diffuse(k, 14) == pass_of_steps(diffuse(k, 13)));
    lemma_pass_of_steps(diffuse(k, 14));
    assert(diffuse(k, 15) == pass_of_steps(diffuse(k, 14)));
    lemma_pass_of_steps(diffuse(k, 15));
    assert(diffuse(k, 16) == pass_of_steps(diffuse(k, 15)));
    let p0 = k;
    let p1 = pass_of_steps(p0);
    assert(diffuse(k, 1) == p1);
    let p2 = pass_of_steps(p1);
    assert(diffuse(k, 2) == p2);
    let p3 = pass_of_steps(p2);
    assert(diffuse(k, 3) == p3);
    let p4 = pass_of_steps(p3);
    assert(diffuse(k, 4) == p4);
    let p5 = pass_of_steps(p4);
    assert(diffuse(k, 5) == p5);
    let p6 = pass_of_steps(p5);
    assert(diffuse(k, 6) == p6);
    let p7 = pass_of_steps(p6);
    assert(diffuse(k, 7) == p7);
    let p8 = pass_of_steps(p7);
    assert(diffuse(k, 8) == p8);
    let p9 = pass_of_steps(p8);
    assert(diffuse(k, 9) == p9);
    let p10 = pass_of_steps(p9);
    assert(diffuse(k, 10) == p10);
    let p11 = pass_of_steps(p10);
    assert(diffuse(k, 11) == p11);
    let p12 = pass_of_steps(p11);
    assert(diffuse(k, 12) == p12);
    let p13 = pass_of_steps(p12);
    assert(diffuse(k, 13) == p13);
    let p14 = pass_of_steps(p13);
    assert(diffuse(k, 14) == p14);
    let p15 = pass_of_steps(p14);
    assert(diffuse(k, 15) == p15);
    let p16 = pass_of_steps(p15);
    assert(diffuse(k, 16) == p16);
}

/// The SAP hash of a block is the folded key of its garbled buffers diffused by exactly
/// sixteen full passes of the mixing step.
pub proof fn lemma_sap_hash_sixteen_passes(block: Seq<u8>)
    ensures
        ({
            let (b0, b1, b2, b3, b4) = sap_buffers_spec(block);
            let (g0, g1, g2, g3, g4) = garble_spec(b0, b1, b2, b3, b4);
            sap_hash_spec(block) == sixteen_passes(
                fold_xor(fold_xor(fold_xor(finalize_seed(g3), g0, 20), g2, 35), g1, 210),
            )
        }),
{
    let (b0, b1, b2, b3, b4) = sap_buffers_spec(block);
    let (g0, g1, g2, g3, g4) = garble_spec(b0, b1, b2, b3, b4);
    lemma_finalize_diffuses_sixteen_passes(g0, g1, g2, g3);
}

} // verus!
