use vstd::prelude::*;
use bytes::BytesMut;
use crate::video::nal::{NalChunk, NalError};
use crate::video::annexb_iter::{AnnexBIter, START_CODE, iter_scan, collect_chunks, chunks_ordered, chunk_end};
use crate::video::bytes_buf::{
    bytes_mut_contents, bytes_new, bytes_with_capacity, bytes_len, bytes_extend, bytes_split,
    bytes_as_slice, bytes_as_mut_slice,
};

verus! {

/// The `n` low-order base-256 digits of `v`, most significant first.
pub open spec fn be_bytes(v: nat, n: nat) -> Seq<u8>
    decreases n,
{
    if n == 0 {
        Seq::empty()
    } else {
        be_bytes(v / 256, (n - 1) as nat).push((v % 256) as u8)
    }
}

/// The length prefix of `nal_size_len` bytes for a payload of `data_size` bytes: sizes 1 to 3
/// take only lengths that fit, size 4 takes the length modulo 2^32.
pub open spec fn length_prefix_bytes(nal_size_len: usize, data_size: usize) -> Option<Seq<u8>> {
    if nal_size_len == 1 && data_size <= 0xFF {
        Some(be_bytes(data_size as nat, 1))
    } else if nal_size_len == 2 && data_size <= 0xFFFF {
        Some(be_bytes(data_size as nat, 2))
    } else if nal_size_len == 3 && data_size <= 0xFF_FFFF {
        Some(be_bytes(data_size as nat, 3))
    } else if nal_size_len == 4 {
        Some(be_bytes(data_size as nat, 4))
    } else {
        None
    }
}

/// Big-endian encoding of the `n` low-order bytes of `value`.
pub(crate) fn encode_be(value: u64, n: usize) -> (r: Vec<u8>)
    ensures
        r@ == be_bytes(value as nat, n as nat),
    decreases n,
{
    if n == 0 {
        Vec::new()
    } else {
        let mut r = encode_be(value / 256, n - 1);
        r.push((value % 256) as u8);
        r
    }
}

/// Builds Annex B or length-prefixed buffers chunk by chunk: a prefix, then the payload.
pub struct AnnexBBuilder {
    out: BytesMut,
    chunks: Vec<NalChunk>,
    pending: Option<NalChunk>,
}

impl AnnexBBuilder {
    /// Bytes written so far.
    pub closed spec fn bytes(&self) -> Seq<u8> {
        bytes_mut_contents(self.out)
    }

    /// Chunks completed so far.
    pub closed spec fn done_chunks(&self) -> Seq<NalChunk> {
        self.chunks@
    }

    /// The chunk whose prefix was written and whose payload is awaited.
    pub closed spec fn pending_chunk(&self) -> Option<NalChunk> {
        self.pending
    }

    pub fn new(out: BytesMut) -> (r: Self)
        ensures
            r.bytes() == bytes_mut_contents(out),
            r.done_chunks() == Seq::<NalChunk>::empty(),
            r.pending_chunk() is None,
    {
        AnnexBBuilder { out, chunks: Vec::new(), pending: None }
    }

    fn begin_chunk(&mut self, prefix_len: usize, data_size: usize) -> (r: Result<(), NalError>)
        ensures
            final(self).bytes() == old(self).bytes(),
            final(self).done_chunks() == old(self).done_chunks(),
            old(self).pending_chunk() is Some || prefix_len == 0 ==> r == Err::<(), NalError>(NalError::Param)
                && final(self).pending_chunk() == old(self).pending_chunk(),
            !(old(self).pending_chunk() is Some || prefix_len == 0) ==> r is Ok && final(self).pending_chunk() == Some(
                NalChunk { prefix_start: old(self).bytes().len() as usize, prefix_len, data_size },
            ),
    {
        if self.pending.is_some() || prefix_len == 0 {
            return Err(NalError::Param);
        }
        let start = bytes_len(&self.out);
        self.pending = Some(NalChunk { prefix_start: start, prefix_len, data_size });
        Ok(())
    }

    /// Starts a chunk with a four-byte start code; `Param` if a payload is still awaited.
    pub fn push_start_code(&mut self, data_size: usize) -> (r: Result<(), NalError>)
        requires
            old(self).bytes().len() + 4 <= isize::MAX,
        ensures
            final(self).done_chunks() == old(self).done_chunks(),
            old(self).pending_chunk() is Some ==> r == Err::<(), NalError>(NalError::Param)
                && final(self).bytes() == old(self).bytes()
                && final(self).pending_chunk() == old(self).pending_chunk(),
            old(self).pending_chunk() is None ==> r is Ok
                && final(self).bytes() == old(self).bytes() + START_CODE@
                && final(self).pending_chunk() == Some(
                    NalChunk { prefix_start: old(self).bytes().len() as usize, prefix_len: 4, data_size },
                ),
    {
        match self.begin_chunk(4, data_size) {
            Err(e) => return Err(e),
            Ok(()) => {},
        }
        let code = START_CODE;
        bytes_extend(&mut self.out, code.as_slice());
        Ok(())
    }

    /// Starts a chunk with a big-endian length prefix of `nal_size_len` bytes. `Param` if a
    /// payload is still awaited, for a zero size, or if `data_size` does not fit the prefix;
    /// in the last case the chunk is begun but no prefix is written.
    pub fn push_length_prefix(&mut self, nal_size_len: usize, data_size: usize) -> (r: Result<(), NalError>)
        requires
            old(self).bytes().len() + 4 <= isize::MAX,
        ensures
            final(self).done_chunks() == old(self).done_chunks(),
            old(self).pending_chunk() is Some || nal_size_len == 0 ==> r == Err::<(), NalError>(NalError::Param)
                && final(self).bytes() == old(self).bytes()
                && final(self).pending_chunk() == old(self).pending_chunk(),
            !(old(self).pending_chunk() is Some || nal_size_len == 0) ==> final(self).pending_chunk() == Some(
                NalChunk { prefix_start: old(self).bytes().len() as usize, prefix_len: nal_size_len, data_size },
            ) && match length_prefix_bytes(nal_size_len, data_size) {
                Some(p) => r is Ok && final(self).bytes() == old(self).bytes() + p,
                None => r == Err::<(), NalError>(NalError::Param) && final(self).bytes() == old(self).bytes(),
            },
    {
        match self.begin_chunk(nal_size_len, data_size) {
            Err(e) => return Err(e),
            Ok(()) => {},
        }
        let prefix = if nal_size_len == 1 && data_size <= 0xFF {
            encode_be(data_size as u64, 1)
        } else if nal_size_len == 2 && data_size <= 0xFFFF {
            encode_be(data_size as u64, 2)
        } else if nal_size_len == 3 && data_size <= 0xFF_FFFF {
            encode_be(data_size as u64, 3)
        } else if nal_size_len == 4 {
            encode_be(data_size as u64, 4)
        } else {
            return Err(NalError::Param);
        };
        proof {
            reveal_with_fuel(be_bytes, 5);
        }
        bytes_extend(&mut self.out, prefix.as_slice());
        Ok(())
    }

    /// Writes the payload of the begun chunk and completes it. `Param` if no chunk was begun
    /// or `data` has another size than announced; either way the chunk is then no longer
    /// pending.
    pub fn push_data(&mut self, data: &[u8]) -> (r: Result<(), NalError>)
        requires
            old(self).bytes().len() + data@.len() <= isize::MAX,
        ensures
            final(self).pending_chunk() is None,
            match old(self).pending_chunk() {
                None => r == Err::<(), NalError>(NalError::Param) && final(self).bytes() == old(self).bytes()
                    && final(self).done_chunks() == old(self).done_chunks(),
                Some(c) => if data@.len() != c.data_size {
                    r == Err::<(), NalError>(NalError::Param) && final(self).bytes() == old(self).bytes()
                        && final(self).done_chunks() == old(self).done_chunks()
                } else {
                    r is Ok && final(self).bytes() == old(self).bytes() + data@
                        && final(self).done_chunks() == old(self).done_chunks().push(c)
                },
            },
    {
        let chunk = match self.pending.take() {
            Some(c) => c,
            None => return Err(NalError::Param),
        };
        if data.len() != chunk.data_size {
            return Err(NalError::Param);
        }
        bytes_extend(&mut self.out, data);
        self.chunks.push(chunk);
        Ok(())
    }

    /// The bytes and chunks built; `Param` if a payload is still awaited.
    pub fn finish(self) -> (r: Result<(BytesMut, Vec<NalChunk>), NalError>)
        ensures
            self.pending_chunk() is Some ==> r == Err::<(BytesMut, Vec<NalChunk>), NalError>(NalError::Param),
            self.pending_chunk() is None ==> (r matches Ok((b, cs)) && bytes_mut_contents(b) == self.bytes()
                && cs@ == self.done_chunks()),
    {
        let mut this = self;
        if this.pending.is_some() {
            return Err(NalError::Param);
        }
        let out = bytes_split(&mut this.out);
        Ok((out, this.chunks))
    }
}


/// Every chunk's prefix and payload lie inside a buffer of `len` bytes.
pub open spec fn chunks_in_bounds(chunks: Seq<NalChunk>, len: int) -> bool {
    forall|i: int| 0 <= i < chunks.len() ==> #[trigger] chunks[i].prefix_start + chunks[i].prefix_len + chunks[i].data_size <= len
}

/// The four-byte prefix a chunk gets when both layouts use four-byte prefixes.
pub open spec fn four_byte_prefix(c: NalChunk, to_length_prefixed: bool) -> Seq<u8> {
    if to_length_prefixed {
        be_bytes(c.data_size as nat, 4)
    } else {
        START_CODE@
    }
}

/// `s` with the four prefix bytes of each chunk overwritten, in order.
pub open spec fn patch_prefixes(s: Seq<u8>, chunks: Seq<NalChunk>, to_length_prefixed: bool) -> Seq<u8>
    decreases chunks.len(),
{
    if chunks.len() == 0 {
        s
    } else {
        let prev = patch_prefixes(s, chunks.drop_last(), to_length_prefixed);
        let c = chunks.last();
        prev.subrange(0, c.prefix_start as int) + four_byte_prefix(c, to_length_prefixed)
            + prev.subrange(c.prefix_start + 4, prev.len() as int)
    }
}

/// The prefix a chunk gets in the target layout, if its size fits.
pub open spec fn target_prefix(c: NalChunk, to_length_prefixed: bool, nal_size_len: usize) -> Option<Seq<u8>> {
    if to_length_prefixed {
        length_prefix_bytes(nal_size_len, c.data_size)
    } else {
        Some(START_CODE@)
    }
}

/// The chunks of `src` written out one after the other in the target layout, with their new
/// positions; `None` if a payload does not fit its length prefix.
pub open spec fn rebuild_spec(src: Seq<u8>, chunks: Seq<NalChunk>, to_length_prefixed: bool, nal_size_len: usize) -> Option<(Seq<u8>, Seq<NalChunk>)>
    decreases chunks.len(),
{
    if chunks.len() == 0 {
        Some((Seq::empty(), Seq::empty()))
    } else {
        match rebuild_spec(src, chunks.drop_last(), to_length_prefixed, nal_size_len) {
            None => None,
            Some((b, cs)) => {
                let c = chunks.last();
                match target_prefix(c, to_length_prefixed, nal_size_len) {
                    None => None,
                    Some(p) => {
                        let start = c.prefix_start + c.prefix_len;
                        Some((
                            b + p + src.subrange(start, start + c.data_size),
                            cs.push(NalChunk { prefix_start: b.len() as usize, prefix_len: p.len() as usize, data_size: c.data_size }),
                        ))
                    },
                }
            },
        }
    }
}

/// What rebuilding the chunks of `s` gives: nothing for an empty source or no chunks, the
/// source with its prefixes overwritten when both layouts use four-byte prefixes, else the
/// chunks written out anew.
pub open spec fn rebuild_result(s: Seq<u8>, chunks: Seq<NalChunk>, to_length_prefixed: bool, nal_size_len: usize) -> Result<(Seq<u8>, Seq<NalChunk>), NalError> {
    if s.len() == 0 || chunks.len() == 0 {
        Ok((Seq::empty(), Seq::empty()))
    } else if nal_size_len == 4 && all_four_byte(chunks) {
        Ok((patch_prefixes(s, chunks, to_length_prefixed), chunks))
    } else {
        match rebuild_spec(s, chunks, to_length_prefixed, nal_size_len) {
            None => Err(NalError::Param),
            Some(x) => Ok(x),
        }
    }
}

/// Rebuilding works in place on the source (and hands it all out).
pub open spec fn rebuild_in_place(s: Seq<u8>, chunks: Seq<NalChunk>, nal_size_len: usize) -> bool {
    s.len() > 0 && chunks.len() > 0 && nal_size_len == 4 && all_four_byte(chunks)
}

/// Size of the rebuilt buffer when every chunk gets a prefix of `prefix_len` bytes.
pub open spec fn rebuilt_size(chunks: Seq<NalChunk>, prefix_len: nat) -> nat
    decreases chunks.len(),
{
    if chunks.len() == 0 {
        0
    } else {
        rebuilt_size(chunks.drop_last(), prefix_len) + prefix_len + chunks.last().data_size as nat
    }
}

/// Every chunk has a four-byte prefix.
pub open spec fn all_four_byte(chunks: Seq<NalChunk>) -> bool {
    forall|i: int| 0 <= i < chunks.len() ==> #[trigger] chunks[i].prefix_len == 4
}

proof fn lemma_rebuild_prefix(src: Seq<u8>, chunks: Seq<NalChunk>, i: int, to_length_prefixed: bool, nal_size_len: usize)
    requires
        0 <= i <= chunks.len(),
        rebuild_spec(src, chunks.subrange(0, i), to_length_prefixed, nal_size_len) is None,
    ensures
        rebuild_spec(src, chunks, to_length_prefixed, nal_size_len) is None,
    decreases chunks.len() - i,
{
    if i < chunks.len() {
        assert(chunks.subrange(0, i + 1).drop_last() =~= chunks.subrange(0, i));
        lemma_rebuild_prefix(src, chunks, i + 1, to_length_prefixed, nal_size_len);
    } else {
        assert(chunks.subrange(0, i) =~= chunks);
    }
}

proof fn lemma_rebuilt_size_prefix(chunks: Seq<NalChunk>, i: int, prefix_len: nat)
    requires
        0 <= i <= chunks.len(),
    ensures
        rebuilt_size(chunks.subrange(0, i), prefix_len) <= rebuilt_size(chunks, prefix_len),
    decreases chunks.len() - i,
{
    if i < chunks.len() {
        assert(chunks.subrange(0, i + 1).drop_last() =~= chunks.subrange(0, i));
        lemma_rebuilt_size_prefix(chunks, i + 1, prefix_len);
    } else {
        assert(chunks.subrange(0, i) =~= chunks);
    }
}

proof fn lemma_be_bytes_len(v: nat, n: nat)
    ensures
        be_bytes(v, n).len() == n,
    decreases n,
{
    if n > 0 {
        lemma_be_bytes_len(v / 256, (n - 1) as nat);
    }
}

proof fn lemma_rebuild_len(src: Seq<u8>, chunks: Seq<NalChunk>, to_length_prefixed: bool, nal_size_len: usize)
    requires
        rebuild_spec(src, chunks, to_length_prefixed, nal_size_len) is Some,
        chunks_in_bounds(chunks, src.len() as int),
    ensures
        (rebuild_spec(src, chunks, to_length_prefixed, nal_size_len) matches Some((b, _)) && b.len() == rebuilt_size(
            chunks,
            if to_length_prefixed { nal_size_len as nat } else { 4 },
        )),
    decreases chunks.len(),
{
    if chunks.len() > 0 {
        let c = chunks.last();
        assert(chunks_in_bounds(chunks.drop_last(), src.len() as int)) by {
            assert forall|i: int| 0 <= i < chunks.drop_last().len() implies #[trigger] chunks.drop_last()[i].prefix_start
                + chunks.drop_last()[i].prefix_len + chunks.drop_last()[i].data_size <= src.len() by {
                assert(chunks.drop_last()[i] == chunks[i]);
            }
        }
        lemma_rebuild_len(src, chunks.drop_last(), to_length_prefixed, nal_size_len);
        assert(chunks[chunks.len() - 1] == c);
        lemma_be_bytes_len(c.data_size as nat, nal_size_len as nat);
    }
}

proof fn lemma_rebuilt_size_end(cs: Seq<NalChunk>, len: int, p: nat)
    requires
        chunks_ordered(cs, len),
        cs.len() > 0,
        p >= 1,
    ensures
        rebuilt_size(cs, p) <= p * chunk_end(cs.last()),
    decreases cs.len(),
{
    let c = cs.last();
    let init = cs.drop_last();
    assert(cs[cs.len() - 1] == c);
    assert(c.prefix_len >= 1);
    let ps = c.prefix_start as int;
    let pl = c.prefix_len as int;
    let ds = c.data_size as int;
    assert(p + ds <= p * pl + p * ds) by (nonlinear_arith)
        requires
            p >= 1,
            pl >= 1,
            ds >= 0,
    ;
    let e = chunk_end(c);
    assert(e == ps + pl + ds);
    assert(p * e == p * ps + p * pl + p * ds) by (nonlinear_arith)
        requires
            e == ps + pl + ds,
    ;
    if init.len() > 0 {
        assert(chunks_ordered(init, len)) by {
            assert forall|i: int| 0 <= i < init.len() implies #[trigger] init[i].prefix_len >= 1 && chunk_end(init[i]) <= len by {
                assert(init[i] == cs[i]);
            }
            assert forall|i: int| 0 <= i < init.len() - 1 implies chunk_end(#[trigger] init[i]) <= init[i + 1].prefix_start by {
                assert(init[i] == cs[i]);
                assert(init[i + 1] == cs[i + 1]);
            }
        }
        lemma_rebuilt_size_end(init, len, p);
        assert(init.last() == cs[cs.len() - 2]);
        assert(chunk_end(init.last()) <= ps);
        assert(p * chunk_end(init.last()) <= p * ps) by (nonlinear_arith)
            requires
                chunk_end(init.last()) <= ps,
                p >= 1,
        ;
    } else {
        assert(p * ps >= 0) by (nonlinear_arith)
            requires
                ps >= 0,
        ;
    }
}

/// Rebuilt from ordered chunks of a `len`-byte buffer with prefixes of `p >= 1` bytes,
/// a buffer is at most `p * len` bytes long, and every chunk lies inside the source.
pub proof fn lemma_rebuilt_size_bound(cs: Seq<NalChunk>, len: int, p: nat)
    requires
        chunks_ordered(cs, len),
        p >= 1,
        len >= 0,
    ensures
        rebuilt_size(cs, p) <= p * len,
        chunks_in_bounds(cs, len),
{
    if cs.len() > 0 {
        lemma_rebuilt_size_end(cs, len, p);
        assert(cs[cs.len() - 1] == cs.last());
        assert(p * chunk_end(cs.last()) <= p * len) by (nonlinear_arith)
            requires
                chunk_end(cs.last()) <= len,
                p >= 1,
        ;
    } else {
        assert(p * len >= 0) by (nonlinear_arith)
            requires
                len >= 0,
        ;
    }
    assert forall|i: int| 0 <= i < cs.len() implies #[trigger] cs[i].prefix_start + cs[i].prefix_len + cs[i].data_size <= len by {
        assert(chunk_end(cs[i]) <= len);
    }
}

impl AnnexBBuilder {
    /// Writes the chunks of `src` out again in the target layout (length prefixes of
    /// `nal_size_len` bytes, or start codes). When both layouts use four-byte prefixes the
    /// prefixes are overwritten in place and the whole of `src` is handed out, leaving `src`
    /// empty; otherwise a new buffer is built and `src` is left as it was.
    pub fn rebuild_from_chunks(
        src: &mut BytesMut,
        chunks: Vec<NalChunk>,
        to_length_prefixed: bool,
        nal_size_len: usize,
    ) -> (r: Result<(BytesMut, Vec<NalChunk>), NalError>)
        requires
            chunks_in_bounds(chunks@, bytes_mut_contents(*old(src)).len() as int),
            bytes_mut_contents(*old(src)).len() * 2 <= isize::MAX,
            rebuilt_size(chunks@, if to_length_prefixed { nal_size_len as nat } else { 4 }) + 4 <= isize::MAX,
        ensures
            match r {
                Ok((b, cs)) => rebuild_result(bytes_mut_contents(*old(src)), chunks@, to_length_prefixed, nal_size_len)
                    == Ok::<(Seq<u8>, Seq<NalChunk>), NalError>((bytes_mut_contents(b), cs@)),
                Err(e) => rebuild_result(bytes_mut_contents(*old(src)), chunks@, to_length_prefixed, nal_size_len)
                    == Err::<(Seq<u8>, Seq<NalChunk>), NalError>(e),
            },
            bytes_mut_contents(*final(src)) == if rebuild_in_place(bytes_mut_contents(*old(src)), chunks@, nal_size_len) {
                Seq::<u8>::empty()
            } else {
                bytes_mut_contents(*old(src))
            },
    {
        let ghost s = bytes_mut_contents(*src);
        let len = bytes_len(src);
        if len == 0 || chunks.len() == 0 {
            return Ok((bytes_new(), Vec::new()));
        }

        let mut all4 = nal_size_len == 4;
        let mut k: usize = 0;
        while k < chunks.len()
            invariant
                k <= chunks@.len(),
                all4 == (nal_size_len == 4 && forall|j: int| 0 <= j < k ==> #[trigger] chunks@[j].prefix_len == 4),
            decreases chunks@.len() - k,
        {
            if chunks[k].prefix_len != 4 {
                all4 = false;
            }
            k = k + 1;
        }

        if all4 {
            let buf = bytes_as_mut_slice(src);
            let mut i: usize = 0;
            while i < chunks.len()
                invariant
                    i <= chunks@.len(),
                    buf@.len() == s.len(),
                    s.len() == len,
                    all_four_byte(chunks@),
                    chunks_in_bounds(chunks@, s.len() as int),
                    buf@ == patch_prefixes(s, chunks@.subrange(0, i as int), to_length_prefixed),
                decreases chunks@.len() - i,
            {
                let chunk = chunks[i];
                let prefix: Vec<u8> = if to_length_prefixed {
                    encode_be(chunk.data_size as u64, 4)
                } else {
                    vec![0u8, 0u8, 0u8, 1u8]
                };
                proof {
                    lemma_be_bytes_len(chunk.data_size as nat, 4);
                    assert(chunk.prefix_len == 4);
                    assert(chunk.prefix_start + chunk.prefix_len + chunk.data_size <= s.len());
                    assert(chunks@.subrange(0, i + 1).drop_last() =~= chunks@.subrange(0, i as int));
                    assert(chunks@.subrange(0, i + 1).last() == chunk);
                }
                let ghost before = buf@;
                let mut j: usize = 0;
                while j < 4
                    invariant
                        j <= 4,
                        before.len() == len,
                        prefix@.len() == 4,
                        chunk.prefix_start + 4 <= buf@.len(),
                        buf@.len() == before.len(),
                        forall|q: int| 0 <= q < buf@.len() ==> #[trigger] buf@[q] == if chunk.prefix_start <= q < chunk.prefix_start + j {
                            prefix@[q - chunk.prefix_start]
                        } else {
                            before[q]
                        },
                    decreases 4 - j,
                {
                    buf[chunk.prefix_start + j] = prefix[j];
                    j = j + 1;
                }
                proof {
                    let p = chunk.prefix_start as int;
                    assert(prefix@ == four_byte_prefix(chunk, to_length_prefixed));
                    assert(buf@ =~= before.subrange(0, p) + four_byte_prefix(chunk, to_length_prefixed) + before.subrange(p + 4, before.len() as int));
                }
                i = i + 1;
            }
            proof {
                assert(chunks@.subrange(0, chunks@.len() as int) =~= chunks@);
            }
            let out = bytes_split(src);
            return Ok((out, chunks));
        }

        proof {
            assert(!(nal_size_len == 4 && all_four_byte(chunks@)));
        }
        let cap = if to_length_prefixed { len } else { len * 2 };
        let mut builder = AnnexBBuilder::new(bytes_with_capacity(cap));
        let data = bytes_as_slice(src);
        let ghost plen: nat = if to_length_prefixed { nal_size_len as nat } else { 4 };
        let mut i: usize = 0;
        while i < chunks.len()
            invariant
                i <= chunks@.len(),
                data@ == s,
                bytes_mut_contents(*src) == s,
                s == bytes_mut_contents(*old(src)),
                s.len() == len,
                len > 0,
                chunks@.len() > 0,
                !(nal_size_len == 4 && all_four_byte(chunks@)),
                chunks_in_bounds(chunks@, s.len() as int),
                rebuilt_size(chunks@, plen) + 4 <= isize::MAX,
                plen == if to_length_prefixed { nal_size_len as nat } else { 4 },
                builder.pending_chunk() is None,
                rebuild_spec(s, chunks@.subrange(0, i as int), to_length_prefixed, nal_size_len) == Some((builder.bytes(), builder.done_chunks())),
            decreases chunks@.len() - i,
        {
            let chunk = chunks[i];
            proof {
                assert(chunks@.subrange(0, i + 1).drop_last() =~= chunks@.subrange(0, i as int));
                assert(chunks@.subrange(0, i + 1).last() == chunk);
                lemma_rebuild_len(s, chunks@.subrange(0, i as int), to_length_prefixed, nal_size_len);
                assert(chunks_in_bounds(chunks@.subrange(0, i as int), s.len() as int)) by {
                    assert forall|q: int| 0 <= q < i implies #[trigger] chunks@.subrange(0, i as int)[q].prefix_start
                        + chunks@.subrange(0, i as int)[q].prefix_len + chunks@.subrange(0, i as int)[q].data_size <= s.len() by {
                        assert(chunks@.subrange(0, i as int)[q] == chunks@[q]);
                    }
                }
                lemma_rebuilt_size_prefix(chunks@, i + 1, plen);
                assert(chunk.prefix_start + chunk.prefix_len + chunk.data_size <= s.len());
                if to_length_prefixed {
                    lemma_be_bytes_len(chunk.data_size as nat, nal_size_len as nat);
                }
            }
            let payload_start = chunk.prefix_start + chunk.prefix_len;
            let payload_end = payload_start + chunk.data_size;

            let pushed = if to_length_prefixed {
                builder.push_length_prefix(nal_size_len, chunk.data_size)
            } else {
                builder.push_start_code(chunk.data_size)
            };
            match pushed {
                Err(e) => {
                    proof {
                        lemma_rebuild_prefix(s, chunks@, i + 1, to_length_prefixed, nal_size_len);
                    }
                    return Err(e);
                },
                Ok(()) => {},
            }
            let r = builder.push_data(&data[payload_start..payload_end]);
            match r {
                Err(e) => return Err(e),
                Ok(()) => {},
            }
            i = i + 1;
        }
        proof {
            assert(chunks@.subrange(0, chunks@.len() as int) =~= chunks@);
        }
        builder.finish()
    }

    /// Collects the chunks of `iter` and rebuilds them from `src` in the target layout;
    /// an empty source or no chunks give an empty result.
    pub fn rebuild(
        src: &mut BytesMut,
        iter: AnnexBIter<'_>,
        to_length_prefixed: bool,
        nal_size_len: usize,
    ) -> (r: Result<(BytesMut, Vec<NalChunk>), NalError>)
        requires
            iter.wf(),
            bytes_mut_contents(*old(src)).len() * 2 <= isize::MAX,
            iter_scan(iter) matches Ok(cs) ==> chunks_in_bounds(cs, bytes_mut_contents(*old(src)).len() as int)
                && rebuilt_size(cs, if to_length_prefixed { nal_size_len as nat } else { 4 }) + 4 <= isize::MAX,
        ensures
            ({
                let s = bytes_mut_contents(*old(src));
                if s.len() == 0 {
                    &&& r matches Ok((b, cs))
                    &&& bytes_mut_contents(b) == Seq::<u8>::empty()
                    &&& cs@ == Seq::<NalChunk>::empty()
                    &&& bytes_mut_contents(*final(src)) == s
                } else {
                    match iter_scan(iter) {
                        Err(e) => r == Err::<(BytesMut, Vec<NalChunk>), NalError>(e) && bytes_mut_contents(*final(src)) == s,
                        Ok(chunks) => {
                            &&& match r {
                                Ok((b, cs)) => rebuild_result(s, chunks, to_length_prefixed, nal_size_len)
                                    == Ok::<(Seq<u8>, Seq<NalChunk>), NalError>((bytes_mut_contents(b), cs@)),
                                Err(e) => rebuild_result(s, chunks, to_length_prefixed, nal_size_len)
                                    == Err::<(Seq<u8>, Seq<NalChunk>), NalError>(e),
                            }
                            &&& bytes_mut_contents(*final(src)) == if rebuild_in_place(s, chunks, nal_size_len) {
                                Seq::<u8>::empty()
                            } else {
                                s
                            }
                        },
                    }
                }
            }),
    {
        let ghost start = iter;
        if bytes_len(src) == 0 {
            return Ok((bytes_new(), Vec::new()));
        }
        let mut it = iter;
        let chunks = match collect_chunks(&mut it) {
            Ok(c) => c,
            Err(e) => return Err(e),
        };
        if chunks.len() == 0 {
            return Ok((bytes_new(), Vec::new()));
        }
        Self::rebuild_from_chunks(src, chunks, to_length_prefixed, nal_size_len)
    }
}

} // verus!
