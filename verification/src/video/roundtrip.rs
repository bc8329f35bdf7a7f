use vstd::prelude::*;
use crate::video::nal::NalChunk;
use crate::video::annexb_iter::{
    START_CODE, start_code_at, next_start_code, lemma_next_start_code_bounds, annexb_scan, chunk_end,
    length_prefix_spec, length_prefixed_scan, cached_scan, AnnexBCacheVerifyKind, be_value, chunks_ordered,
};
use crate::video::nal::NalError;
use crate::video::annexb_converter::source_chunks;
use vstd::arithmetic::power::pow;
use crate::video::annexb_builder::{
    be_bytes, length_prefix_bytes, target_prefix, rebuild_spec, rebuilt_size, chunks_in_bounds,
    patch_prefixes, four_byte_prefix, all_four_byte, rebuild_result,
};

verus! {

/// The chunks lie one right after the other, from position 0 to `len`.
pub open spec fn tiles(cs: Seq<NalChunk>, len: int) -> bool {
    &&& cs.len() == 0 ==> len == 0
    &&& cs.len() > 0 ==> cs[0].prefix_start == 0 && chunk_end(cs[cs.len() - 1]) == len
    &&& forall|i: int| 0 <= i < cs.len() - 1 ==> chunk_end(#[trigger] cs[i]) == cs[i + 1].prefix_start
}

/// Every chunk has a four-byte start code as its prefix.
pub open spec fn start_code_prefixed(src: Seq<u8>, cs: Seq<NalChunk>) -> bool {
    forall|i: int| 0 <= i < cs.len() ==> #[trigger] cs[i].prefix_len == 4 && start_code_at(src, cs[i].prefix_start as int)
}

/// The chunks of an Annex B scan from `pos` lie one right after the other up to the end of
/// the buffer, each behind a start code.
proof fn lemma_annexb_scan_tiles(src: Seq<u8>, pos: int)
    requires
        0 <= pos <= src.len(),
        src.len() <= usize::MAX,
    ensures
        annexb_scan(src, pos) matches Ok(cs) ==> {
            &&& cs.len() == 0 ==> pos == src.len()
            &&& cs.len() > 0 ==> cs[0].prefix_start == pos && chunk_end(cs[cs.len() - 1]) == src.len()
            &&& forall|i: int| 0 <= i < cs.len() - 1 ==> chunk_end(#[trigger] cs[i]) == cs[i + 1].prefix_start
            &&& start_code_prefixed(src, cs)
        },
    decreases src.len() - pos,
{
    if pos + 4 <= src.len() && start_code_at(src, pos) {
        lemma_next_start_code_bounds(src, pos + 4);
        let next = next_start_code(src, pos + 4);
        let chunk = NalChunk { prefix_start: pos as usize, prefix_len: 4, data_size: (next - (pos + 4)) as usize };
        assert(chunk_end(chunk) == next);
        if next == src.len() {
            assert(start_code_prefixed(src, seq![chunk]));
        } else {
            lemma_annexb_scan_tiles(src, next);
            if let Ok(rest) = annexb_scan(src, next) {
                let all = seq![chunk] + rest;
                assert(annexb_scan(src, pos) == Ok::<Seq<NalChunk>, crate::video::nal::NalError>(all));
                assert(rest.len() > 0);
                assert forall|i: int| 0 <= i < all.len() - 1 implies chunk_end(#[trigger] all[i]) == all[i + 1].prefix_start by {
                    assert(all[i + 1] == rest[i]);
                    if i > 0 {
                        assert(all[i] == rest[i - 1]);
                    }
                }
                assert forall|i: int| 0 <= i < all.len() implies #[trigger] all[i].prefix_len == 4 && start_code_at(src, all[i].prefix_start as int) by {
                    if i > 0 {
                        assert(all[i] == rest[i - 1]);
                    }
                }
                assert(all[all.len() - 1] == rest[rest.len() - 1]);
            }
        }
    }
}

/// The chunks of an Annex B scan of a whole buffer tile it, each behind a start code.
pub proof fn lemma_annexb_chunks_tile(src: Seq<u8>)
    requires
        src.len() <= usize::MAX,
    ensures
        annexb_scan(src, 0) matches Ok(cs) ==> tiles(cs, src.len() as int) && start_code_prefixed(src, cs),
{
    lemma_annexb_scan_tiles(src, 0);
}


proof fn lemma_be_bytes_length(v: nat, n: nat)
    ensures
        be_bytes(v, n).len() == n,
    decreases n,
{
    if n > 0 {
        lemma_be_bytes_length(v / 256, (n - 1) as nat);
    }
}

/// A target prefix, when there is one, has at most four bytes.
proof fn lemma_target_prefix_len(c: NalChunk, to_length_prefixed: bool, nal_size_len: usize)
    ensures
        target_prefix(c, to_length_prefixed, nal_size_len) matches Some(p) ==> 1 <= p.len() <= 4
            && (to_length_prefixed ==> p.len() == nal_size_len),
{
    lemma_be_bytes_length(c.data_size as nat, nal_size_len as nat);
}

/// Chunk `oc` of the rebuilt buffer `b` has prefix `p` and the payload of chunk `c` of `src`.
pub open spec fn carries(b: Seq<u8>, src: Seq<u8>, oc: NalChunk, c: NalChunk, p: Seq<u8>) -> bool {
    &&& oc.data_size == c.data_size
    &&& oc.prefix_len == p.len()
    &&& b.subrange(oc.prefix_start as int, oc.prefix_start + oc.prefix_len) == p
    &&& b.subrange(oc.prefix_start + oc.prefix_len, chunk_end(oc)) == src.subrange(c.prefix_start + c.prefix_len, chunk_end(c))
}

/// What a rebuild produces, chunk by chunk: the rebuilt chunks tile the new buffer, each
/// behind its target prefix and carrying the payload of its source chunk.
#[verifier::spinoff_prover]
#[verifier::rlimit(50)]
pub proof fn lemma_rebuild_layout(src: Seq<u8>, cs: Seq<NalChunk>, to_length_prefixed: bool, nal_size_len: usize)
    requires
        chunks_in_bounds(cs, src.len() as int),
        rebuilt_size(cs, 4) <= usize::MAX,
    ensures
        rebuild_spec(src, cs, to_length_prefixed, nal_size_len) matches Some((b, ocs)) ==> {
            &&& ocs.len() == cs.len()
            &&& tiles(ocs, b.len() as int)
            &&& b.len() <= rebuilt_size(cs, 4)
            &&& forall|i: int| 0 <= i < cs.len() ==> #[trigger] carries(b, src, ocs[i], cs[i],
                target_prefix(cs[i], to_length_prefixed, nal_size_len)->0)
            &&& forall|i: int| 0 <= i < cs.len() ==> #[trigger] target_prefix(cs[i], to_length_prefixed, nal_size_len) is Some
        },
    decreases cs.len(),
{
    if cs.len() > 0 {
        let dl = cs.drop_last();
        assert(chunks_in_bounds(dl, src.len() as int)) by {
            assert forall|i: int| 0 <= i < dl.len() implies #[trigger] dl[i].prefix_start + dl[i].prefix_len + dl[i].data_size <= src.len() by {
                assert(dl[i] == cs[i]);
            }
        }
        lemma_rebuild_layout(src, dl, to_length_prefixed, nal_size_len);
        let c = cs.last();
        assert(c == cs[cs.len() - 1]);
        lemma_target_prefix_len(c, to_length_prefixed, nal_size_len);
        if let Some((b1, ocs1)) = rebuild_spec(src, dl, to_length_prefixed, nal_size_len) {
            if let Some(p) = target_prefix(c, to_length_prefixed, nal_size_len) {
                let start = c.prefix_start + c.prefix_len;
                let pay = src.subrange(start, start + c.data_size);
                let b = b1 + p + pay;
                let oc = NalChunk { prefix_start: b1.len() as usize, prefix_len: p.len() as usize, data_size: c.data_size };
                let ocs = ocs1.push(oc);
                assert(rebuild_spec(src, cs, to_length_prefixed, nal_size_len) == Some((b, ocs)));
                assert(b.len() <= rebuilt_size(cs, 4));
                assert(oc.prefix_start == b1.len());
                assert(chunk_end(oc) == b.len());
                assert forall|i: int| 0 <= i < cs.len() implies #[trigger] carries(b, src, ocs[i], cs[i],
                    target_prefix(cs[i], to_length_prefixed, nal_size_len)->0) by {
                    if i < cs.len() - 1 {
                        assert(ocs[i] == ocs1[i]);
                        assert(cs[i] == dl[i]);
                        assert(carries(b1, src, ocs1[i], dl[i], target_prefix(dl[i], to_length_prefixed, nal_size_len)->0));
                        if ocs1.len() > 0 {
                            assert(chunk_end(ocs1[i]) <= b1.len()) by {
                                lemma_tiles_end(ocs1, b1.len() as int, i);
                            }
                        }
                        assert(b.subrange(ocs[i].prefix_start as int, ocs[i].prefix_start + ocs[i].prefix_len)
                            =~= b1.subrange(ocs1[i].prefix_start as int, ocs1[i].prefix_start + ocs1[i].prefix_len));
                        assert(b.subrange(ocs[i].prefix_start + ocs[i].prefix_len, chunk_end(ocs[i]))
                            =~= b1.subrange(ocs1[i].prefix_start + ocs1[i].prefix_len, chunk_end(ocs1[i])));
                    } else {
                        assert(ocs[i] == oc);
                        assert(b.subrange(oc.prefix_start as int, oc.prefix_start + oc.prefix_len) =~= p);
                        assert(b.subrange(oc.prefix_start + oc.prefix_len, chunk_end(oc)) =~= pay);
                    }
                }
                assert forall|i: int| 0 <= i < cs.len() implies #[trigger] target_prefix(cs[i], to_length_prefixed, nal_size_len) is Some by {
                    if i < cs.len() - 1 {
                        assert(cs[i] == dl[i]);
                    }
                }
                assert forall|i: int| 0 <= i < ocs.len() - 1 implies chunk_end(#[trigger] ocs[i]) == ocs[i + 1].prefix_start by {
                    assert(ocs[i] == ocs1[i]);
                    if i + 1 < ocs1.len() {
                        assert(ocs[i + 1] == ocs1[i + 1]);
                    } else {
                        assert(ocs[i + 1] == oc);
                    }
                }
                if ocs1.len() > 0 {
                    assert(ocs[0] == ocs1[0]);
                }
                assert(ocs[ocs.len() - 1] == oc);
            }
        }
    }
}

/// Inside a tiling, every chunk ends within the buffer.
pub proof fn lemma_tiles_end(cs: Seq<NalChunk>, len: int, i: int)
    requires
        tiles(cs, len),
        0 <= i < cs.len(),
        forall|j: int| 0 <= j < cs.len() ==> #[trigger] chunk_end(cs[j]) >= cs[j].prefix_start,
    ensures
        chunk_end(cs[i]) <= len,
    decreases cs.len() - i,
{
    if i < cs.len() - 1 {
        lemma_tiles_end(cs, len, i + 1);
    }
}

/// Every chunk has a length prefix of `nal_size_len` bytes that gives its payload size.
pub open spec fn length_prefixed(src: Seq<u8>, cs: Seq<NalChunk>, nal_size_len: usize) -> bool {
    forall|i: int| 0 <= i < cs.len() ==> #[trigger] cs[i].prefix_len == nal_size_len
        && length_prefix_spec(src, cs[i].prefix_start as int, nal_size_len as int)
            == Ok::<(usize, usize), NalError>((cs[i].data_size, (cs[i].prefix_start + nal_size_len) as usize))
}

spec fn tile_start(cs: Seq<NalChunk>, len: int, i: int) -> int {
    if i < cs.len() { cs[i].prefix_start as int } else { len }
}

proof fn lemma_lp_scans_from(src: Seq<u8>, cs: Seq<NalChunk>, nal_size_len: usize, i: int)
    requires
        1 <= nal_size_len,
        src.len() <= usize::MAX,
        tiles(cs, src.len() as int),
        length_prefixed(src, cs, nal_size_len),
        0 <= i <= cs.len(),
    ensures
        length_prefixed_scan(src, nal_size_len, tile_start(cs, src.len() as int, i))
            == Ok::<Seq<NalChunk>, NalError>(cs.subrange(i, cs.len() as int)),
        cached_scan(src, cs, i, tile_start(cs, src.len() as int, i), AnnexBCacheVerifyKind::LengthPrefixed { nal_size_len })
            == Ok::<Seq<NalChunk>, NalError>(cs.subrange(i, cs.len() as int)),
    decreases cs.len() - i,
{
    let len = src.len() as int;
    if i == cs.len() {
        assert(cs.subrange(i, cs.len() as int) =~= Seq::<NalChunk>::empty());
    } else {
        lemma_lp_scans_from(src, cs, nal_size_len, i + 1);
        let c = cs[i];
        lemma_tiles_end(cs, len, i);
        assert(chunk_end(c) <= len);
        assert(c.prefix_start < len);
        assert(tile_start(cs, len, i + 1) == chunk_end(c)) by {
            if i + 1 == cs.len() {
                assert(cs[cs.len() - 1] == c);
            }
        }
        let rest = cs.subrange(i + 1, cs.len() as int);
        assert(seq![c] + rest =~= cs.subrange(i, cs.len() as int));
        assert(NalChunk { prefix_start: c.prefix_start, prefix_len: nal_size_len, data_size: c.data_size } == c);
        if i > 0 {
            assert(chunk_end(cs[i - 1]) == c.prefix_start);
        }
    }
}

/// A buffer tiled by length-prefixed chunks scans into exactly those chunks, freshly or
/// against them as a cache.
pub proof fn lemma_length_prefixed_scans(src: Seq<u8>, cs: Seq<NalChunk>, nal_size_len: usize)
    requires
        1 <= nal_size_len,
        src.len() <= usize::MAX,
        tiles(cs, src.len() as int),
        length_prefixed(src, cs, nal_size_len),
    ensures
        length_prefixed_scan(src, nal_size_len, 0) == Ok::<Seq<NalChunk>, NalError>(cs),
        cached_scan(src, cs, 0, 0, AnnexBCacheVerifyKind::LengthPrefixed { nal_size_len }) == Ok::<Seq<NalChunk>, NalError>(cs),
{
    lemma_lp_scans_from(src, cs, nal_size_len, 0);
    assert(cs.subrange(0, cs.len() as int) =~= cs);
    assert(tile_start(cs, src.len() as int, 0) == 0);
}

/// Big-endian bytes read back give the value they were written from, modulo the range of
/// `n` bytes.
pub proof fn lemma_be_value_of_bytes(v: nat, n: nat)
    ensures
        pow(256, n) > 0,
        be_value(be_bytes(v, n)) == v % (pow(256, n) as nat),
    decreases n,
{
    vstd::arithmetic::power::lemma_pow_positive(256, n);
    reveal(pow);
    if n > 0 {
        lemma_be_value_of_bytes(v / 256, (n - 1) as nat);
        let s = be_bytes(v, n);
        assert(s.drop_last() =~= be_bytes(v / 256, (n - 1) as nat));
        let p = pow(256, (n - 1) as nat);
        vstd::arithmetic::div_mod::lemma_mod_breakdown(v as int, 256, p);
        assert(pow(256, n) == 256 * p);
        assert(s.last() == (v % 256) as u8);
        assert(be_value(s) == be_value(s.drop_last()) * 256 + s.last() as nat);
        assert(be_value(s.drop_last()) == (v / 256) % (p as nat));
        assert(v % (pow(256, n) as nat) == 256 * ((v as int / 256) % p) + v as int % 256);
    }
}

/// A length prefix, where it fits, reads back as the payload size it was written for.
proof fn lemma_length_prefix_reads_back(b: Seq<u8>, at: int, nal_size_len: usize, data_size: usize)
    requires
        1 <= nal_size_len <= 4,
        0 <= at,
        at + nal_size_len + data_size <= b.len(),
        b.len() <= usize::MAX,
        data_size < 0x1_0000_0000,
        length_prefix_bytes(nal_size_len, data_size) matches Some(p) && b.subrange(at, at + nal_size_len) == p,
    ensures
        length_prefix_spec(b, at, nal_size_len as int) == Ok::<(usize, usize), NalError>((data_size, (at + nal_size_len) as usize)),
{
    lemma_be_value_of_bytes(data_size as nat, nal_size_len as nat);
    reveal_with_fuel(pow, 5);
    let sub = b.subrange(at, at + nal_size_len);
    assert(be_value(sub) == (data_size as nat) % (pow(256, nal_size_len as nat) as nat));
    assert(pow(256, 1) == 0x100);
    assert(pow(256, 2) == 0x1_0000);
    assert(pow(256, 3) == 0x100_0000);
    assert(pow(256, 4) == 0x1_0000_0000);
    let m = pow(256, nal_size_len as nat) as nat;
    assert(data_size < m) by {
        if nal_size_len == 1 {
        } else if nal_size_len == 2 {
        } else if nal_size_len == 3 {
        } else {
        }
    }
    vstd::arithmetic::div_mod::lemma_small_mod(data_size as nat, m);
    assert(be_value(sub) == data_size);
    assert(sub == b.subrange(at, at + nal_size_len as int));
}

/// The chunks of a tiling without their last one tile the buffer up to where it starts.
proof fn lemma_tiles_drop_last(cs: Seq<NalChunk>, len: int)
    requires
        tiles(cs, len),
        cs.len() > 0,
    ensures
        tiles(cs.drop_last(), cs[cs.len() - 1].prefix_start as int),
{
    let dl = cs.drop_last();
    if dl.len() > 0 {
        assert(dl[0] == cs[0]);
        assert(dl[dl.len() - 1] == cs[cs.len() - 2]);
        assert forall|i: int| 0 <= i < dl.len() - 1 implies chunk_end(#[trigger] dl[i]) == dl[i + 1].prefix_start by {
            assert(dl[i] == cs[i]);
            assert(dl[i + 1] == cs[i + 1]);
        }
    }
}

/// A tiling by chunks with `q`-byte prefixes is as long as their prefixes and payloads.
proof fn lemma_tiles_size(cs: Seq<NalChunk>, len: int, q: nat)
    requires
        tiles(cs, len),
        forall|i: int| 0 <= i < cs.len() ==> #[trigger] cs[i].prefix_len == q,
    ensures
        rebuilt_size(cs, q) == len,
    decreases cs.len(),
{
    if cs.len() > 0 {
        lemma_tiles_drop_last(cs, len);
        let dl = cs.drop_last();
        assert forall|i: int| 0 <= i < dl.len() implies #[trigger] dl[i].prefix_len == q by {
            assert(dl[i] == cs[i]);
        }
        lemma_tiles_size(dl, cs[cs.len() - 1].prefix_start as int, q);
        assert(cs.last() == cs[cs.len() - 1]);
    }
}

/// Chunks with the same payload sizes take the same room for the same prefix size.
proof fn lemma_rebuilt_size_same_payloads(c1: Seq<NalChunk>, c2: Seq<NalChunk>, q: nat)
    requires
        c1.len() == c2.len(),
        forall|i: int| 0 <= i < c1.len() ==> #[trigger] c1[i].data_size == c2[i].data_size,
    ensures
        rebuilt_size(c1, q) == rebuilt_size(c2, q),
    decreases c1.len(),
{
    if c1.len() > 0 {
        let d1 = c1.drop_last();
        let d2 = c2.drop_last();
        assert forall|i: int| 0 <= i < d1.len() implies #[trigger] d1[i].data_size == d2[i].data_size by {
            assert(d1[i] == c1[i]);
            assert(d2[i] == c2[i]);
        }
        lemma_rebuilt_size_same_payloads(d1, d2, q);
        assert(c1.last() == c1[c1.len() - 1]);
        assert(c2.last() == c2[c2.len() - 1]);
    }
}

/// Shorter prefixes take no more room.
proof fn lemma_rebuilt_size_mono(cs: Seq<NalChunk>, p: nat, q: nat)
    requires
        p <= q,
    ensures
        rebuilt_size(cs, p) <= rebuilt_size(cs, q),
    decreases cs.len(),
{
    if cs.len() > 0 {
        lemma_rebuilt_size_mono(cs.drop_last(), p, q);
    }
}

/// Chunk `a` of `x` and chunk `b` of `y` have the same prefix and payload bytes.
pub open spec fn same_chunk(x: Seq<u8>, y: Seq<u8>, a: NalChunk, b: NalChunk) -> bool {
    &&& a.prefix_len == b.prefix_len
    &&& a.data_size == b.data_size
    &&& x.subrange(a.prefix_start as int, a.prefix_start + a.prefix_len) == y.subrange(b.prefix_start as int, b.prefix_start + b.prefix_len)
    &&& x.subrange(a.prefix_start + a.prefix_len, chunk_end(a)) == y.subrange(b.prefix_start + b.prefix_len, chunk_end(b))
}

/// Two buffers tiled alike, with the same prefix and payload bytes chunk by chunk, are equal.
proof fn lemma_tiled_equal(x: Seq<u8>, y: Seq<u8>, c1: Seq<NalChunk>, c2: Seq<NalChunk>)
    requires
        tiles(c1, x.len() as int),
        tiles(c2, y.len() as int),
        c1.len() == c2.len(),
        forall|i: int| 0 <= i < c1.len() ==> #[trigger] same_chunk(x, y, c1[i], c2[i]),
    ensures
        x == y,
{
    let n = c1.len() as int;
    if n == 0 {
        assert(x =~= y);
    } else {
        lemma_tiled_prefix_equal(x, y, c1, c2, n - 1);
        assert(x =~= x.subrange(0, chunk_end(c1[n - 1])));
        assert(y =~= y.subrange(0, chunk_end(c2[n - 1])));
    }
}

proof fn lemma_tiled_prefix_equal(x: Seq<u8>, y: Seq<u8>, c1: Seq<NalChunk>, c2: Seq<NalChunk>, k: int)
    requires
        tiles(c1, x.len() as int),
        tiles(c2, y.len() as int),
        c1.len() == c2.len(),
        0 <= k < c1.len(),
        forall|i: int| 0 <= i < c1.len() ==> #[trigger] same_chunk(x, y, c1[i], c2[i]),
    ensures
        c1[k].prefix_start == c2[k].prefix_start,
        chunk_end(c1[k]) == chunk_end(c2[k]),
        x.subrange(0, chunk_end(c1[k])) == y.subrange(0, chunk_end(c2[k])),
    decreases k,
{
    lemma_tiles_end(c1, x.len() as int, k);
    lemma_tiles_end(c2, y.len() as int, k);
    let a = c1[k];
    let b = c2[k];
    assert(same_chunk(x, y, a, b));
    if k > 0 {
        lemma_tiled_prefix_equal(x, y, c1, c2, k - 1);
        assert(chunk_end(c1[k - 1]) == a.prefix_start);
        assert(chunk_end(c2[k - 1]) == b.prefix_start);
    }
    let ps = a.prefix_start as int;
    let pe = ps + a.prefix_len;
    let e = chunk_end(a);
    assert(x.subrange(0, e) == x.subrange(0, ps) + x.subrange(ps, pe) + x.subrange(pe, e)) by {
        assert(x.subrange(0, e) =~= x.subrange(0, ps) + x.subrange(ps, pe) + x.subrange(pe, e));
    }
    assert(y.subrange(0, e) == y.subrange(0, ps) + y.subrange(ps, pe) + y.subrange(pe, e)) by {
        assert(y.subrange(0, e) =~= y.subrange(0, ps) + y.subrange(ps, pe) + y.subrange(pe, e));
    }
}

/// Chunk `c` of `p` has the four-byte prefix of the target layout and the payload `s` has.
pub open spec fn patched_chunk(p: Seq<u8>, s: Seq<u8>, c: NalChunk, to_length_prefixed: bool) -> bool {
    &&& p.subrange(c.prefix_start as int, c.prefix_start + 4) == four_byte_prefix(c, to_length_prefixed)
    &&& p.subrange(c.prefix_start + 4, chunk_end(c)) == s.subrange(c.prefix_start + 4, chunk_end(c))
}

spec fn chunks_end(cs: Seq<NalChunk>) -> int {
    if cs.len() == 0 { 0 } else { chunk_end(cs[cs.len() - 1]) }
}

/// Overwriting the four-byte prefixes of ordered chunks changes those bytes only.
#[verifier::spinoff_prover]
proof fn lemma_patch_layout(s: Seq<u8>, cs: Seq<NalChunk>, to_length_prefixed: bool)
    requires
        chunks_ordered(cs, s.len() as int),
        all_four_byte(cs),
    ensures
        patch_prefixes(s, cs, to_length_prefixed).len() == s.len(),
        forall|i: int| 0 <= i < cs.len() ==> #[trigger] patched_chunk(patch_prefixes(s, cs, to_length_prefixed), s, cs[i], to_length_prefixed),
        patch_prefixes(s, cs, to_length_prefixed).subrange(chunks_end(cs), s.len() as int) == s.subrange(chunks_end(cs), s.len() as int),
    decreases cs.len(),
{
    if cs.len() > 0 {
        let dl = cs.drop_last();
        let n = cs.len() as int;
        assert(chunks_ordered(dl, s.len() as int)) by {
            assert forall|i: int| 0 <= i < dl.len() implies #[trigger] dl[i].prefix_len >= 1 && chunk_end(dl[i]) <= s.len() by {
                assert(dl[i] == cs[i]);
            }
            assert forall|i: int| 0 <= i < dl.len() - 1 implies chunk_end(#[trigger] dl[i]) <= dl[i + 1].prefix_start by {
                assert(dl[i] == cs[i]);
                assert(dl[i + 1] == cs[i + 1]);
            }
        }
        assert(all_four_byte(dl)) by {
            assert forall|i: int| 0 <= i < dl.len() implies #[trigger] dl[i].prefix_len == 4 by {
                assert(dl[i] == cs[i]);
            }
        }
        lemma_patch_layout(s, dl, to_length_prefixed);
        let prev = patch_prefixes(s, dl, to_length_prefixed);
        let c = cs.last();
        assert(c == cs[n - 1]);
        assert(c.prefix_len == 4);
        assert(chunk_end(c) <= s.len());
        let ps = c.prefix_start as int;
        let fb = four_byte_prefix(c, to_length_prefixed);
        lemma_be_bytes_length(c.data_size as nat, 4);
        assert(fb.len() == 4);
        let p = prev.subrange(0, ps) + fb + prev.subrange(ps + 4, prev.len() as int);
        assert(patch_prefixes(s, cs, to_length_prefixed) == p);
        let e0 = chunks_end(dl);
        assert(e0 <= ps) by {
            if dl.len() > 0 {
                assert(dl[dl.len() - 1] == cs[n - 2]);
            }
        }
        assert forall|i: int| 0 <= i < cs.len() implies #[trigger] patched_chunk(p, s, cs[i], to_length_prefixed) by {
            if i < n - 1 {
                assert(cs[i] == dl[i]);
                assert(patched_chunk(prev, s, dl[i], to_length_prefixed));
                lemma_ordered_before(cs, s.len() as int, i, n - 1);
                assert(chunk_end(cs[i]) <= ps);
                assert(p.subrange(cs[i].prefix_start as int, cs[i].prefix_start + 4) =~= prev.subrange(cs[i].prefix_start as int, cs[i].prefix_start + 4));
                assert(p.subrange(cs[i].prefix_start + 4, chunk_end(cs[i])) =~= prev.subrange(cs[i].prefix_start + 4, chunk_end(cs[i])));
            } else {
                assert(p.subrange(ps, ps + 4) =~= fb);
                assert(p.subrange(ps + 4, chunk_end(c)) =~= prev.subrange(ps + 4, chunk_end(c)));
                assert(prev.subrange(ps + 4, chunk_end(c)) =~= prev.subrange(e0, s.len() as int).subrange(ps + 4 - e0, chunk_end(c) - e0));
                assert(s.subrange(ps + 4, chunk_end(c)) =~= s.subrange(e0, s.len() as int).subrange(ps + 4 - e0, chunk_end(c) - e0));
            }
        }
        assert(p.subrange(chunk_end(c), s.len() as int) =~= prev.subrange(e0, s.len() as int).subrange(chunk_end(c) - e0, s.len() - e0));
        assert(s.subrange(chunk_end(c), s.len() as int) =~= s.subrange(e0, s.len() as int).subrange(chunk_end(c) - e0, s.len() - e0));
    }
}

/// In ordered chunks, an earlier chunk ends before a later one starts.
proof fn lemma_ordered_before(cs: Seq<NalChunk>, len: int, i: int, j: int)
    requires
        chunks_ordered(cs, len),
        0 <= i < j < cs.len(),
    ensures
        chunk_end(cs[i]) <= cs[j].prefix_start,
    decreases j - i,
{
    if i + 1 < j {
        lemma_ordered_before(cs, len, i + 1, j);
    }
}

/// A tiling by chunks with nonempty prefixes is ordered.
proof fn lemma_tiles_ordered(cs: Seq<NalChunk>, len: int)
    requires
        tiles(cs, len),
        forall|i: int| 0 <= i < cs.len() ==> #[trigger] cs[i].prefix_len >= 1,
    ensures
        chunks_ordered(cs, len),
{
    assert forall|i: int| 0 <= i < cs.len() implies #[trigger] cs[i].prefix_len >= 1 && chunk_end(cs[i]) <= len by {
        lemma_tiles_end(cs, len, i);
    }
}

/// Rebuilding as Annex B always succeeds.
proof fn lemma_rebuild_annexb_some(src: Seq<u8>, cs: Seq<NalChunk>, nal_size_len: usize)
    ensures
        rebuild_spec(src, cs, false, nal_size_len) is Some,
    decreases cs.len(),
{
    if cs.len() > 0 {
        lemma_rebuild_annexb_some(src, cs.drop_last(), nal_size_len);
    }
}

proof fn lemma_start_code_bytes(s: Seq<u8>, p: int)
    requires
        start_code_at(s, p),
    ensures
        s.subrange(p, p + 4) == START_CODE@,
{
    assert(s.subrange(p, p + 4) =~= START_CODE@);
}

/// Converting Annex B to length prefixes and back gives the buffer back: a converter that
/// keeps the chunks of the first conversion as its cache, and a fresh converter, both find
/// those chunks in the converted buffer, and rebuilding them as Annex B yields the buffer it started from.
#[verifier::spinoff_prover]
#[verifier::rlimit(50)]
pub proof fn lemma_convert_roundtrip(s: Seq<u8>, nal_size_len: usize)
    requires
        1 <= nal_size_len <= 4,
        s.len() < 0x1_0000_0000,
        s.len() * 4 + 4 <= isize::MAX,
        source_chunks(s, nal_size_len, Seq::empty(), true) is Ok,
        rebuild_result(s, source_chunks(s, nal_size_len, Seq::empty(), true)->Ok_0, true, nal_size_len) is Ok,
    ensures
        ({
            let cs = source_chunks(s, nal_size_len, Seq::empty(), true)->Ok_0;
            let o = rebuild_result(s, cs, true, nal_size_len)->Ok_0.0;
            let ocs = rebuild_result(s, cs, true, nal_size_len)->Ok_0.1;
            &&& source_chunks(o, nal_size_len, ocs, false) == Ok::<Seq<NalChunk>, NalError>(ocs)
            &&& source_chunks(o, nal_size_len, Seq::empty(), false) == Ok::<Seq<NalChunk>, NalError>(ocs)
            &&& rebuild_result(o, ocs, false, nal_size_len) matches Ok((back, _)) && back == s
        }),
{
    let len = s.len() as int;
    let cs = source_chunks(s, nal_size_len, Seq::empty(), true)->Ok_0;
    assert(annexb_scan(s, 0) == Ok::<Seq<NalChunk>, NalError>(cs));
    lemma_annexb_chunks_tile(s);
    let (o, ocs) = rebuild_result(s, cs, true, nal_size_len)->Ok_0;
    if len == 0 {
        assert(o.len() == 0 && ocs.len() == 0);
        assert(length_prefixed_scan(o, nal_size_len, 0) == Ok::<Seq<NalChunk>, NalError>(Seq::<NalChunk>::empty()));
    } else {
        assert(cs.len() > 0);
        assert(all_four_byte(cs));
        lemma_tiles_ordered(cs, len);
        if nal_size_len == 4 {
            assert(o == patch_prefixes(s, cs, true) && ocs == cs);
            lemma_patch_layout(s, cs, true);
            assert forall|i: int| 0 <= i < cs.len() implies #[trigger] cs[i].prefix_len == nal_size_len
                && length_prefix_spec(o, cs[i].prefix_start as int, nal_size_len as int)
                    == Ok::<(usize, usize), NalError>((cs[i].data_size, (cs[i].prefix_start + nal_size_len) as usize)) by {
                assert(patched_chunk(o, s, cs[i], true));
                lemma_tiles_end(cs, len, i);
                lemma_length_prefix_reads_back(o, cs[i].prefix_start as int, 4, cs[i].data_size);
            }
            lemma_length_prefixed_scans(o, cs, 4);
            lemma_patch_layout(o, cs, false);
            let back = patch_prefixes(o, cs, false);
            assert(rebuild_result(o, cs, false, 4) == Ok::<(Seq<u8>, Seq<NalChunk>), NalError>((back, cs)));
            assert forall|i: int| 0 <= i < cs.len() implies #[trigger] same_chunk(back, s, cs[i], cs[i]) by {
                assert(patched_chunk(back, o, cs[i], false));
                assert(patched_chunk(o, s, cs[i], true));
                lemma_start_code_bytes(s, cs[i].prefix_start as int);
            }
            lemma_tiled_equal(back, s, cs, cs);
        } else {
            lemma_tiles_size(cs, len, 4);
            lemma_rebuild_layout(s, cs, true, nal_size_len);
            assert(rebuild_spec(s, cs, true, nal_size_len) == Some((o, ocs)));
            assert forall|i: int| 0 <= i < cs.len() implies #[trigger] cs[i].data_size == ocs[i].data_size by {
                assert(carries(o, s, ocs[i], cs[i], target_prefix(cs[i], true, nal_size_len)->0));
            }
            lemma_rebuilt_size_same_payloads(cs, ocs, 4);
            assert(o.len() <= len);
            assert forall|i: int| 0 <= i < ocs.len() implies #[trigger] ocs[i].prefix_len == nal_size_len
                && length_prefix_spec(o, ocs[i].prefix_start as int, nal_size_len as int)
                    == Ok::<(usize, usize), NalError>((ocs[i].data_size, (ocs[i].prefix_start + nal_size_len) as usize)) by {
                assert(carries(o, s, ocs[i], cs[i], target_prefix(cs[i], true, nal_size_len)->0));
                assert(target_prefix(cs[i], true, nal_size_len) is Some);
                lemma_target_prefix_len(cs[i], true, nal_size_len);
                lemma_tiles_end(ocs, o.len() as int, i);
                lemma_tiles_end(cs, len, i);
                lemma_length_prefix_reads_back(o, ocs[i].prefix_start as int, nal_size_len, ocs[i].data_size);
            }
            lemma_length_prefixed_scans(o, ocs, nal_size_len);
            assert(chunks_in_bounds(ocs, o.len() as int)) by {
                assert forall|i: int| 0 <= i < ocs.len() implies #[trigger] ocs[i].prefix_start + ocs[i].prefix_len + ocs[i].data_size <= o.len() by {
                    lemma_tiles_end(ocs, o.len() as int, i);
                }
            }
            lemma_rebuild_annexb_some(o, ocs, nal_size_len);
            lemma_rebuild_layout(o, ocs, false, nal_size_len);
            let (back, bcs) = rebuild_spec(o, ocs, false, nal_size_len)->0;
            assert(o.len() > 0) by {
                lemma_tiles_end(ocs, o.len() as int, 0);
            }
            assert(rebuild_result(o, ocs, false, nal_size_len) == Ok::<(Seq<u8>, Seq<NalChunk>), NalError>((back, bcs)));
            assert forall|i: int| 0 <= i < cs.len() implies #[trigger] same_chunk(back, s, bcs[i], cs[i]) by {
                assert(carries(back, o, bcs[i], ocs[i], target_prefix(ocs[i], false, nal_size_len)->0));
                assert(carries(o, s, ocs[i], cs[i], target_prefix(cs[i], true, nal_size_len)->0));
                lemma_start_code_bytes(s, cs[i].prefix_start as int);
            }
            lemma_tiled_equal(back, s, bcs, cs);
        }
    }
}
} // verus!
