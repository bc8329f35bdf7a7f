use vstd::prelude::*;
use crate::video::nal::{NalChunk, NalError};

verus! {

/// Annex B start code.
pub const START_CODE: [u8; 4] = [0, 0, 0, 1];

/// A four-byte start code `00 00 00 01` begins at `p`.
pub open spec fn start_code_at(src: Seq<u8>, p: int) -> bool {
    &&& 0 <= p
    &&& p + 4 <= src.len()
    &&& src[p] == 0
    &&& src[p + 1] == 0
    &&& src[p + 2] == 0
    &&& src[p + 3] == 1
}

/// First position from `from` on where a start code begins, or `src.len()` if there is none.
pub open spec fn next_start_code(src: Seq<u8>, from: int) -> int
    decreases src.len() - from,
{
    if from < 0 || from + 4 > src.len() {
        src.len() as int
    } else if start_code_at(src, from) {
        from
    } else {
        next_start_code(src, from + 1)
    }
}

/// Big-endian value of a byte string.
pub open spec fn be_value(s: Seq<u8>) -> nat
    decreases s.len(),
{
    if s.len() == 0 {
        0
    } else {
        be_value(s.drop_last()) * 256 + s.last() as nat
    }
}

/// Reading the length prefix of `nal_size_len` bytes at `offset`: the NAL length and where
/// its payload starts.
pub open spec fn length_prefix_spec(src: Seq<u8>, offset: int, nal_size_len: int) -> Result<(usize, usize), NalError> {
    if offset + nal_size_len > src.len() {
        Err(NalError::Underrun)
    } else if !(1 <= nal_size_len <= 4) {
        Err(NalError::Param)
    } else {
        let n = be_value(src.subrange(offset, offset + nal_size_len));
        let start = offset + nal_size_len;
        if start + n > src.len() {
            Err(NalError::Underrun)
        } else {
            Ok((n as usize, start as usize))
        }
    }
}

/// Payload bounds of `chunk` in a buffer of `len` bytes.
pub open spec fn payload_bounds_spec(len: int, chunk: NalChunk) -> Result<(usize, usize), NalError> {
    let start = chunk.prefix_start + chunk.prefix_len;
    let end = start + chunk.data_size;
    if chunk.prefix_len == 0 || end > len {
        Err(NalError::Param)
    } else {
        Ok((start as usize, end as usize))
    }
}

/// Start and end of the payload of `chunk` in `src`; `Param` for an empty prefix or a payload
/// that does not fit.
pub fn chunk_payload_bounds(src: &[u8], chunk: &NalChunk) -> (r: Result<(usize, usize), NalError>)
    ensures
        r == payload_bounds_spec(src@.len() as int, *chunk),
{
    let len = src.len();
    if chunk.prefix_len == 0 {
        return Err(NalError::Param);
    }
    let payload_start = match chunk.prefix_start.checked_add(chunk.prefix_len) {
        Some(v) => v,
        None => return Err(NalError::Param),
    };
    let payload_end = match payload_start.checked_add(chunk.data_size) {
        Some(v) => v,
        None => return Err(NalError::Param),
    };
    if payload_end > len {
        return Err(NalError::Param);
    }
    Ok((payload_start, payload_end))
}

/// Reads a big-endian NAL length of `nal_size_len` (1 to 4) bytes at `offset`. Returns the
/// length and the payload start; `Underrun` when prefix or payload run past the end,
/// `Param` for another prefix size.
pub fn read_length_prefixed_nal_len(src: &[u8], offset: usize, nal_size_len: usize) -> (r: Result<(usize, usize), NalError>)
    ensures
        r == length_prefix_spec(src@, offset as int, nal_size_len as int),
{
    let len = src.len();
    if offset > len || nal_size_len > len - offset {
        return Err(NalError::Underrun);
    }
    let ghost s = src@.subrange(offset as int, offset + nal_size_len);
    proof {
        reveal_with_fuel(be_value, 5);
    }
    let nal_len: usize = if nal_size_len == 1 {
        proof {
            assert(s.drop_last() =~= Seq::<u8>::empty());
        }
        src[offset] as usize
    } else if nal_size_len == 2 {
        proof {
            assert(s.drop_last().drop_last() =~= Seq::<u8>::empty());
        }
        (src[offset] as usize) * 256 + (src[offset + 1] as usize)
    } else if nal_size_len == 3 {
        proof {
            assert(s.drop_last().drop_last().drop_last() =~= Seq::<u8>::empty());
        }
        ((src[offset] as usize) * 256 + (src[offset + 1] as usize)) * 256 + (src[offset + 2] as usize)
    } else if nal_size_len == 4 {
        proof {
            assert(s.drop_last().drop_last().drop_last().drop_last() =~= Seq::<u8>::empty());
        }
        let hi = ((src[offset] as usize) * 256 + (src[offset + 1] as usize)) * 256 + (src[offset + 2] as usize);
        assert(hi <= 0xFF_FFFF);
        hi * 256 + (src[offset + 3] as usize)
    } else {
        return Err(NalError::Param);
    };
    let payload_start = offset + nal_size_len;
    if nal_len > len - payload_start {
        return Err(NalError::Underrun);
    }
    Ok((nal_len, payload_start))
}

/// Position of the next start code at or after `from`, or `buf.len()` if there is none.
fn find_next_start_code(buf: &[u8], from: usize) -> (r: usize)
    ensures
        r == next_start_code(buf@, from as int),
{
    let len = buf.len();
    if from > len || 4 > len - from {
        return len;
    }
    let mut one_idx = from + 3;
    while one_idx < len
        invariant
            from + 3 <= one_idx <= len,
            len == buf@.len(),
            next_start_code(buf@, one_idx - 3) == next_start_code(buf@, from as int),
        decreases len - one_idx,
    {
        if buf[one_idx] == 1 && buf[one_idx - 1] == 0 && buf[one_idx - 2] == 0 && buf[one_idx - 3] == 0 {
            return one_idx - 3;
        }
        one_idx += 1;
    }
    len
}


/// How chunks from a cache are checked against the buffer they are applied to.
pub enum AnnexBCacheVerifyKind {
    /// Only bounds and order are checked.
    NoCheck,
    /// Each chunk must start with a four-byte start code.
    AnnexB,
    /// Each chunk must start with a length prefix of this size that gives its payload size.
    LengthPrefixed { nal_size_len: usize },
}

/// Splits Annex B or length-prefixed (AVCC/HVCC) buffers into NAL chunks.
pub enum AnnexBIter<'a> {
    /// Chunks known from an earlier pass over a buffer of the same layout, checked as they
    /// are handed out.
    Cached {
        src: &'a [u8],
        chunks: Vec<NalChunk>,
        next_index: usize,
        prev_end: usize,
        cached_kind: AnnexBCacheVerifyKind,
    },
    /// Annex B with four-byte start codes.
    AnnexB { src: &'a [u8], pos: usize, done: bool },
    /// Big-endian length prefixes of `nal_size_len` bytes.
    LengthPrefixed { src: &'a [u8], nal_size_len: usize, offset: usize },
}

/// `chunk` passes the check that `kind` asks for on `src`.
pub open spec fn cache_check(src: Seq<u8>, chunk: NalChunk, kind: AnnexBCacheVerifyKind) -> bool {
    match kind {
        AnnexBCacheVerifyKind::NoCheck => true,
        AnnexBCacheVerifyKind::AnnexB => chunk.prefix_len == 4 && start_code_at(src, chunk.prefix_start as int),
        AnnexBCacheVerifyKind::LengthPrefixed { nal_size_len } => {
            &&& chunk.prefix_len == nal_size_len
            &&& length_prefix_spec(src, chunk.prefix_start as int, nal_size_len as int) matches Ok((n, _))
            &&& n == chunk.data_size
        },
    }
}

/// One step of the iterator: its next state and what it yields.
pub open spec fn annexb_step<'a>(it: AnnexBIter<'a>) -> (AnnexBIter<'a>, Option<Result<NalChunk, NalError>>) {
    match it {
        AnnexBIter::Cached { src, chunks, next_index, prev_end, cached_kind } => {
            if next_index >= chunks@.len() {
                (it, None)
            } else {
                let chunk = chunks@[next_index as int];
                let advanced = AnnexBIter::Cached { src, chunks, next_index: (next_index + 1) as usize, prev_end, cached_kind };
                match payload_bounds_spec(src@.len() as int, chunk) {
                    Err(_) => (advanced, Some(Err(NalError::Param))),
                    Ok((_, end)) => {
                        if chunk.prefix_start < prev_end || !cache_check(src@, chunk, cached_kind) {
                            (advanced, Some(Err(NalError::Param)))
                        } else {
                            (
                                AnnexBIter::Cached { src, chunks, next_index: (next_index + 1) as usize, prev_end: end, cached_kind },
                                Some(Ok(chunk)),
                            )
                        }
                    },
                }
            }
        },
        AnnexBIter::AnnexB { src, pos, done } => {
            if done {
                (it, None)
            } else if pos + 4 > src@.len() {
                (AnnexBIter::AnnexB { src, pos, done: true }, if pos == src@.len() { None } else { Some(Err(NalError::Param)) })
            } else if !start_code_at(src@, pos as int) {
                (AnnexBIter::AnnexB { src, pos, done: true }, Some(Err(NalError::Param)))
            } else {
                let next = next_start_code(src@, pos + 4);
                let chunk = NalChunk { prefix_start: pos, prefix_len: 4, data_size: (next - (pos + 4)) as usize };
                if next == src@.len() {
                    (AnnexBIter::AnnexB { src, pos: src@.len() as usize, done: true }, Some(Ok(chunk)))
                } else {
                    (AnnexBIter::AnnexB { src, pos: next as usize, done: false }, Some(Ok(chunk)))
                }
            }
        },
        AnnexBIter::LengthPrefixed { src, nal_size_len, offset } => {
            if offset >= src@.len() {
                (it, None)
            } else {
                match length_prefix_spec(src@, offset as int, nal_size_len as int) {
                    Ok((n, _start)) => (
                        AnnexBIter::LengthPrefixed { src, nal_size_len, offset: (offset + nal_size_len + n) as usize },
                        Some(Ok(NalChunk { prefix_start: offset, prefix_len: nal_size_len, data_size: n })),
                    ),
                    Err(e) => (AnnexBIter::LengthPrefixed { src, nal_size_len, offset: src@.len() as usize }, Some(Err(e))),
                }
            }
        },
    }
}

/// The next start code is at or after `from` (or the end), and is a start code.
pub proof fn lemma_next_start_code_bounds(src: Seq<u8>, from: int)
    requires
        0 <= from,
    ensures
        from <= next_start_code(src, from) <= src.len() || (from > src.len() && next_start_code(src, from) == src.len()),
        next_start_code(src, from) == src.len() || (start_code_at(src, next_start_code(src, from))
            && next_start_code(src, from) + 4 <= src.len()),
    decreases src.len() - from,
{
    if from + 4 <= src.len() && !start_code_at(src, from) {
        lemma_next_start_code_bounds(src, from + 1);
    }
}

impl<'a> AnnexBIter<'a> {
    /// The buffer positions and counters are in range.
    pub open spec fn wf(&self) -> bool {
        match *self {
            AnnexBIter::Cached { src, chunks, next_index, prev_end, cached_kind } => prev_end <= src@.len(),
            AnnexBIter::AnnexB { src, pos, done } => pos <= src@.len(),
            AnnexBIter::LengthPrefixed { src, nal_size_len, offset } => offset <= src@.len(),
        }
    }

    pub fn cached(src: &'a [u8], chunks: Vec<NalChunk>, cached_kind: AnnexBCacheVerifyKind) -> (r: Self)
        ensures
            r == (AnnexBIter::Cached { src, chunks, next_index: 0, prev_end: 0, cached_kind }),
            r.wf(),
    {
        AnnexBIter::Cached { src, chunks, next_index: 0, prev_end: 0, cached_kind }
    }

    pub fn annexb(src: &'a [u8]) -> (r: Self)
        ensures
            r == (AnnexBIter::AnnexB { src, pos: 0, done: false }),
            r.wf(),
    {
        AnnexBIter::AnnexB { src, pos: 0, done: false }
    }

    pub fn length_prefixed(src: &'a [u8], nal_size_len: usize) -> (r: Self)
        ensures
            r == (AnnexBIter::LengthPrefixed { src, nal_size_len, offset: 0 }),
            r.wf(),
    {
        AnnexBIter::LengthPrefixed { src, nal_size_len, offset: 0 }
    }

    /// The next chunk, an error, or `None` when the buffer is done.
    pub fn next(&mut self) -> (r: Option<Result<NalChunk, NalError>>)
        requires
            old(self).wf(),
        ensures
            final(self).wf(),
            (*final(self), r) == annexb_step(*old(self)),
    {
        match self {
            AnnexBIter::Cached { src, chunks, next_index, prev_end, cached_kind } => {
                if *next_index >= chunks.len() {
                    return None;
                }
                let chunk = chunks[*next_index];
                *next_index = *next_index + 1;
                let payload_end = match chunk_payload_bounds(src, &chunk) {
                    Ok((_start, end)) => end,
                    Err(_) => return Some(Err(NalError::Param)),
                };
                if chunk.prefix_start < *prev_end {
                    return Some(Err(NalError::Param));
                }
                match cached_kind {
                    AnnexBCacheVerifyKind::NoCheck => {},
                    AnnexBCacheVerifyKind::AnnexB => {
                        let p = chunk.prefix_start;
                        if chunk.prefix_len != 4 || !(src[p] == 0 && src[p + 1] == 0 && src[p + 2] == 0 && src[p + 3] == 1) {
                            return Some(Err(NalError::Param));
                        }
                    },
                    AnnexBCacheVerifyKind::LengthPrefixed { nal_size_len } => {
                        if chunk.prefix_len != *nal_size_len {
                            return Some(Err(NalError::Param));
                        }
                        match read_length_prefixed_nal_len(src, chunk.prefix_start, *nal_size_len) {
                            Ok((nal_len, _)) => {
                                if nal_len != chunk.data_size {
                                    return Some(Err(NalError::Param));
                                }
                            },
                            Err(_) => return Some(Err(NalError::Param)),
                        }
                    },
                }
                *prev_end = payload_end;
                Some(Ok(chunk))
            },
            AnnexBIter::AnnexB { src, pos, done } => {
                if *done {
                    return None;
                }
                let len = src.len();
                if 4 > len - *pos {
                    *done = true;
                    if *pos == len {
                        return None;
                    }
                    return Some(Err(NalError::Param));
                }
                let p = *pos;
                if !(src[p] == 0 && src[p + 1] == 0 && src[p + 2] == 0 && src[p + 3] == 1) {
                    *done = true;
                    return Some(Err(NalError::Param));
                }
                let start = *pos;
                let next = find_next_start_code(src, *pos + 4);
                proof {
                    lemma_next_start_code_bounds(src@, start + 4);
                }
                if next < start + 4 {
                    *done = true;
                    return Some(Err(NalError::Param));
                }
                if next == len {
                    *done = true;
                    *pos = len;
                } else {
                    *pos = next;
                }
                Some(Ok(NalChunk { prefix_start: start, prefix_len: 4, data_size: next - (start + 4) }))
            },
            AnnexBIter::LengthPrefixed { src, nal_size_len, offset } => {
                if *offset >= src.len() {
                    return None;
                }
                let start = *offset;
                match read_length_prefixed_nal_len(src, *offset, *nal_size_len) {
                    Ok((nal_len, payload_start)) => {
                        *offset = payload_start + nal_len;
                        Some(Ok(NalChunk { prefix_start: start, prefix_len: *nal_size_len, data_size: nal_len }))
                    },
                    Err(e) => {
                        *offset = src.len();
                        Some(Err(e))
                    },
                }
            },
        }
    }
}


/// `r` with `prefix` in front of its chunks, if it holds chunks.
pub open spec fn chunks_after(prefix: Seq<NalChunk>, r: Result<Seq<NalChunk>, NalError>) -> Result<Seq<NalChunk>, NalError> {
    match r {
        Ok(rest) => Ok(prefix + rest),
        Err(e) => Err(e),
    }
}

/// The chunks of an Annex B buffer from `pos` on: each starts with a start code and runs up
/// to the next one or the end of the buffer.
pub open spec fn annexb_scan(src: Seq<u8>, pos: int) -> Result<Seq<NalChunk>, NalError>
    decreases src.len() - pos,
{
    if pos < 0 || pos + 4 > src.len() {
        if pos == src.len() {
            Ok(Seq::empty())
        } else {
            Err(NalError::Param)
        }
    } else if !start_code_at(src, pos) {
        Err(NalError::Param)
    } else {
        let next = next_start_code(src, pos + 4);
        let chunk = NalChunk { prefix_start: pos as usize, prefix_len: 4, data_size: (next - (pos + 4)) as usize };
        if next == src.len() {
            Ok(seq![chunk])
        } else {
            proof {
                lemma_next_start_code_bounds(src, pos + 4);
            }
            chunks_after(seq![chunk], annexb_scan(src, next))
        }
    }
}

/// The chunks of a length-prefixed buffer from `offset` on.
pub open spec fn length_prefixed_scan(src: Seq<u8>, nal_size_len: usize, offset: int) -> Result<Seq<NalChunk>, NalError>
    decreases src.len() - offset,
{
    if offset >= src.len() {
        Ok(Seq::empty())
    } else {
        match length_prefix_spec(src, offset, nal_size_len as int) {
            Ok((n, _start)) => {
                let chunk = NalChunk { prefix_start: offset as usize, prefix_len: nal_size_len, data_size: n };
                chunks_after(seq![chunk], length_prefixed_scan(src, nal_size_len, offset + nal_size_len + n))
            },
            Err(e) => Err(e),
        }
    }
}

/// The cached chunks from `index` on, each checked against `src`, in increasing order.
pub open spec fn cached_scan(src: Seq<u8>, chunks: Seq<NalChunk>, index: int, prev_end: int, kind: AnnexBCacheVerifyKind) -> Result<Seq<NalChunk>, NalError>
    decreases chunks.len() - index,
{
    if index < 0 || index >= chunks.len() {
        Ok(Seq::empty())
    } else {
        let chunk = chunks[index];
        match payload_bounds_spec(src.len() as int, chunk) {
            Err(_) => Err(NalError::Param),
            Ok((_, end)) => {
                if chunk.prefix_start < prev_end || !cache_check(src, chunk, kind) {
                    Err(NalError::Param)
                } else {
                    chunks_after(seq![chunk], cached_scan(src, chunks, index + 1, end as int, kind))
                }
            },
        }
    }
}

/// Everything the iterator still yields: its chunks, or the first error.
pub open spec fn iter_scan<'a>(it: AnnexBIter<'a>) -> Result<Seq<NalChunk>, NalError> {
    match it {
        AnnexBIter::Cached { src, chunks, next_index, prev_end, cached_kind } => cached_scan(
            src@,
            chunks@,
            next_index as int,
            prev_end as int,
            cached_kind,
        ),
        AnnexBIter::AnnexB { src, pos, done } => if done {
            Ok(Seq::empty())
        } else {
            annexb_scan(src@, pos as int)
        },
        AnnexBIter::LengthPrefixed { src, nal_size_len, offset } => length_prefixed_scan(src@, nal_size_len, offset as int),
    }
}

spec fn iter_measure<'a>(it: AnnexBIter<'a>) -> int {
    match it {
        AnnexBIter::Cached { src, chunks, next_index, prev_end, cached_kind } => chunks@.len() - next_index,
        AnnexBIter::AnnexB { src, pos, done } => if done {
            0
        } else {
            src@.len() - pos + 1
        },
        AnnexBIter::LengthPrefixed { src, nal_size_len, offset } => src@.len() - offset,
    }
}

proof fn lemma_step_scan<'a>(it: AnnexBIter<'a>)
    requires
        it.wf(),
    ensures
        annexb_step(it).1 is None ==> iter_scan(it) == Ok::<Seq<NalChunk>, NalError>(Seq::empty()),
        annexb_step(it).1 matches Some(Ok(c)) ==> iter_scan(it) == chunks_after(seq![c], iter_scan(annexb_step(it).0)),
        annexb_step(it).1 matches Some(Ok(c)) ==> 0 <= iter_measure(annexb_step(it).0) < iter_measure(it),
        annexb_step(it).1 matches Some(Err(e)) ==> iter_scan(it) == Err::<Seq<NalChunk>, NalError>(e),
{
    match it {
        AnnexBIter::AnnexB { src, pos, done } => {
            assert(src.len() == src@.len());
            if !done && pos + 4 <= src@.len() && start_code_at(src@, pos as int) {
                lemma_next_start_code_bounds(src@, pos + 4);
                let next = next_start_code(src@, pos + 4);
                let chunk = NalChunk { prefix_start: pos, prefix_len: 4, data_size: (next - (pos + 4)) as usize };
                assert(annexb_scan(src@, pos as int) == if next == src@.len() {
                    Ok(seq![chunk])
                } else {
                    chunks_after(seq![chunk], annexb_scan(src@, next))
                });
                assert(annexb_step(it).1 == Some(Ok::<NalChunk, NalError>(chunk)));
                if next == src@.len() {
                    assert(seq![chunk] + Seq::<NalChunk>::empty() =~= seq![chunk]);
                    assert(iter_scan(annexb_step(it).0) == Ok::<Seq<NalChunk>, NalError>(Seq::empty()));
                } else {
                    assert(next as usize as int == next);
                    assert(annexb_step(it).0 == AnnexBIter::AnnexB { src, pos: next as usize, done: false });
                    assert(iter_scan(annexb_step(it).0) == annexb_scan(src@, next));
                }
            }
        },
        AnnexBIter::LengthPrefixed { src, nal_size_len, offset } => {
            assert(src.len() == src@.len());
        },
        AnnexBIter::Cached { src, chunks, next_index, prev_end, cached_kind } => {
            assert(src.len() == src@.len());
            assert(chunks.len() == chunks@.len());
        },
    }
}

/// All chunks the iterator yields, or the first error it runs into.
pub fn collect_chunks<'a>(iter: &mut AnnexBIter<'a>) -> (r: Result<Vec<NalChunk>, NalError>)
    requires
        old(iter).wf(),
    ensures
        final(iter).wf(),
        r is Ok ==> iter_scan(*old(iter)) == Ok::<Seq<NalChunk>, NalError>(r->Ok_0@),
        r is Err ==> iter_scan(*old(iter)) == Err::<Seq<NalChunk>, NalError>(r->Err_0),
{
    let ghost start = *iter;
    let mut out: Vec<NalChunk> = Vec::new();
    loop
        invariant
            iter.wf(),
            start == *old(iter),
            iter_scan(start) == chunks_after(out@, iter_scan(*iter)),
        decreases iter_measure(*iter),
    {
        let ghost before = *iter;
        proof {
            lemma_step_scan(before);
        }
        match iter.next() {
            None => {
                proof {
                    assert(out@ + Seq::<NalChunk>::empty() =~= out@);
                }
                return Ok(out);
            },
            Some(Err(e)) => {
                return Err(e);
            },
            Some(Ok(c)) => {
                proof {
                    match iter_scan(*iter) {
                        Ok(rest) => {
                            assert(out@ + (seq![c] + rest) =~= out@.push(c) + rest);
                        },
                        Err(_) => {},
                    }
                }
                out.push(c);
            },
        }
    }
}


/// End of a chunk's payload.
pub open spec fn chunk_end(c: NalChunk) -> int {
    c.prefix_start + c.prefix_len + c.data_size
}

/// Chunks with nonempty prefixes, inside `len` bytes, each starting where or after the
/// previous one ends.
pub open spec fn chunks_ordered(cs: Seq<NalChunk>, len: int) -> bool {
    &&& forall|i: int| 0 <= i < cs.len() ==> #[trigger] cs[i].prefix_len >= 1 && chunk_end(cs[i]) <= len
    &&& forall|i: int| 0 <= i < cs.len() - 1 ==> chunk_end(#[trigger] cs[i]) <= cs[i + 1].prefix_start
}

proof fn lemma_ordered_cons(c: NalChunk, rest: Seq<NalChunk>, len: int, from: int)
    requires
        c.prefix_len >= 1,
        chunk_end(c) <= from,
        from <= len,
        chunks_ordered(rest, len),
        forall|i: int| 0 <= i < rest.len() ==> #[trigger] rest[i].prefix_start >= from,
    ensures
        chunks_ordered(seq![c] + rest, len),
{
    let all = seq![c] + rest;
    assert forall|i: int| 0 <= i < all.len() implies #[trigger] all[i].prefix_len >= 1 && chunk_end(all[i]) <= len by {
        if i > 0 {
            assert(all[i] == rest[i - 1]);
        }
    }
    assert forall|i: int| 0 <= i < all.len() - 1 implies chunk_end(#[trigger] all[i]) <= all[i + 1].prefix_start by {
        assert(all[i + 1] == rest[i]);
        if i > 0 {
            assert(all[i] == rest[i - 1]);
        }
    }
}

proof fn lemma_annexb_scan_ordered(src: Seq<u8>, pos: int)
    requires
        0 <= pos,
        src.len() <= usize::MAX,
    ensures
        annexb_scan(src, pos) matches Ok(cs) ==> chunks_ordered(cs, src.len() as int)
            && forall|i: int| 0 <= i < cs.len() ==> #[trigger] cs[i].prefix_start >= pos,
    decreases src.len() - pos,
{
    if pos + 4 <= src.len() && start_code_at(src, pos) {
        lemma_next_start_code_bounds(src, pos + 4);
        let next = next_start_code(src, pos + 4);
        let chunk = NalChunk { prefix_start: pos as usize, prefix_len: 4, data_size: (next - (pos + 4)) as usize };
        if next == src.len() {
            lemma_ordered_cons(chunk, Seq::empty(), src.len() as int, next);
            assert(seq![chunk] + Seq::<NalChunk>::empty() =~= seq![chunk]);
        } else {
            lemma_annexb_scan_ordered(src, next);
            if let Ok(rest) = annexb_scan(src, next) {
                lemma_ordered_cons(chunk, rest, src.len() as int, next);
                let all = seq![chunk] + rest;
                assert forall|i: int| 0 <= i < all.len() implies #[trigger] all[i].prefix_start >= pos by {
                    if i > 0 {
                        assert(all[i] == rest[i - 1]);
                    }
                }
            }
        }
    }
}

proof fn lemma_length_prefixed_scan_ordered(src: Seq<u8>, nal_size_len: usize, offset: int)
    requires
        0 <= offset,
        src.len() <= usize::MAX,
    ensures
        length_prefixed_scan(src, nal_size_len, offset) matches Ok(cs) ==> chunks_ordered(cs, src.len() as int)
            && forall|i: int| 0 <= i < cs.len() ==> #[trigger] cs[i].prefix_start >= offset,
    decreases src.len() - offset,
{
    if offset < src.len() {
        if let Ok((n, _start)) = length_prefix_spec(src, offset, nal_size_len as int) {
            let next = offset + nal_size_len + n;
            let chunk = NalChunk { prefix_start: offset as usize, prefix_len: nal_size_len, data_size: n };
            lemma_length_prefixed_scan_ordered(src, nal_size_len, next);
            if let Ok(rest) = length_prefixed_scan(src, nal_size_len, next) {
                lemma_ordered_cons(chunk, rest, src.len() as int, next);
                let all = seq![chunk] + rest;
                assert forall|i: int| 0 <= i < all.len() implies #[trigger] all[i].prefix_start >= offset by {
                    if i > 0 {
                        assert(all[i] == rest[i - 1]);
                    }
                }
            }
        }
    }
}

proof fn lemma_cached_scan_ordered(src: Seq<u8>, chunks: Seq<NalChunk>, index: int, prev_end: int, kind: AnnexBCacheVerifyKind)
    requires
        0 <= prev_end <= src.len(),
        src.len() <= usize::MAX,
    ensures
        cached_scan(src, chunks, index, prev_end, kind) matches Ok(cs) ==> chunks_ordered(cs, src.len() as int)
            && forall|i: int| 0 <= i < cs.len() ==> #[trigger] cs[i].prefix_start >= prev_end,
    decreases chunks.len() - index,
{
    if 0 <= index < chunks.len() {
        let chunk = chunks[index];
        if let Ok((_, end)) = payload_bounds_spec(src.len() as int, chunk) {
            if chunk.prefix_start >= prev_end && cache_check(src, chunk, kind) {
                lemma_cached_scan_ordered(src, chunks, index + 1, end as int, kind);
                if let Ok(rest) = cached_scan(src, chunks, index + 1, end as int, kind) {
                    lemma_ordered_cons(chunk, rest, src.len() as int, end as int);
                    let all = seq![chunk] + rest;
                    assert forall|i: int| 0 <= i < all.len() implies #[trigger] all[i].prefix_start >= prev_end by {
                        if i > 0 {
                            assert(all[i] == rest[i - 1]);
                        }
                    }
                }
            }
        }
    }
}

/// The chunks an iterator yields are ordered and lie inside its buffer.
pub proof fn lemma_iter_scan_ordered<'a>(it: AnnexBIter<'a>)
    requires
        it.wf(),
    ensures
        iter_scan(it) matches Ok(cs) ==> chunks_ordered(cs, it.source()@.len() as int),
{
    match it {
        AnnexBIter::Cached { src, chunks, next_index, prev_end, cached_kind } => {
            assert(src.len() == src@.len());
            lemma_cached_scan_ordered(src@, chunks@, next_index as int, prev_end as int, cached_kind);
        },
        AnnexBIter::AnnexB { src, pos, done } => {
            assert(src.len() == src@.len());
            lemma_annexb_scan_ordered(src@, pos as int);
        },
        AnnexBIter::LengthPrefixed { src, nal_size_len, offset } => {
            assert(src.len() == src@.len());
            lemma_length_prefixed_scan_ordered(src@, nal_size_len, offset as int);
        },
    }
}

impl<'a> AnnexBIter<'a> {
    /// The buffer being split.
    pub open spec fn source(&self) -> &'a [u8] {
        match *self {
            AnnexBIter::Cached { src, .. } => src,
            AnnexBIter::AnnexB { src, .. } => src,
            AnnexBIter::LengthPrefixed { src, .. } => src,
        }
    }
}

} // verus!
