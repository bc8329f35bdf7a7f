use vstd::prelude::*;
use bytes::BytesMut;
use crate::video::nal::{NalChunk, NalError};
use crate::video::annexb_iter::{
    AnnexBIter, AnnexBCacheVerifyKind, iter_scan, collect_chunks, annexb_scan, length_prefixed_scan,
    cached_scan, lemma_iter_scan_ordered,
};
use crate::video::annexb_builder::{AnnexBBuilder, rebuild_result, rebuild_in_place, lemma_rebuilt_size_bound};
use crate::video::bytes_buf::{bytes_mut_contents, bytes_as_slice};

verus! {

/// Converts between Annex B and length-prefixed (AVCC/HVCC) layouts of the same NALs.
/// The chunks of the last conversion are kept and, when present, used (and checked) in
/// place of a fresh scan.
#[derive(Debug, Clone)]
pub struct AnnexBConverter {
    pub nal_size_len: usize,
    pub offsets_cache: Vec<NalChunk>,
}

/// The chunks a conversion works on: the cached ones, checked against `s`, or a fresh scan
/// of `s` in the source layout.
pub open spec fn source_chunks(s: Seq<u8>, nal_size_len: usize, cache: Seq<NalChunk>, to_length_prefixed: bool) -> Result<Seq<NalChunk>, NalError> {
    if to_length_prefixed {
        if cache.len() == 0 {
            annexb_scan(s, 0)
        } else {
            cached_scan(s, cache, 0, 0, AnnexBCacheVerifyKind::AnnexB)
        }
    } else {
        if cache.len() == 0 {
            length_prefixed_scan(s, nal_size_len, 0)
        } else {
            cached_scan(s, cache, 0, 0, AnnexBCacheVerifyKind::LengthPrefixed { nal_size_len })
        }
    }
}

impl Default for AnnexBConverter {
    fn default() -> (r: Self)
        ensures
            r.nal_size_len == 0,
            r.offsets_cache@ == Seq::<NalChunk>::empty(),
    {
        AnnexBConverter { nal_size_len: 0, offsets_cache: Vec::new() }
    }
}

impl AnnexBConverter {
    pub fn new(nal_size_len: usize) -> (r: Self)
        ensures
            r.nal_size_len == nal_size_len,
            r.offsets_cache@ == Seq::<NalChunk>::empty(),
    {
        AnnexBConverter { nal_size_len, offsets_cache: Vec::new() }
    }

    pub fn with_cache(nal_size_len: usize, cache: Vec<NalChunk>) -> (r: Self)
        ensures
            r.nal_size_len == nal_size_len,
            r.offsets_cache@ == cache@,
    {
        AnnexBConverter { nal_size_len, offsets_cache: cache }
    }

    /// Converts `src` to length prefixes of `nal_size_len` bytes (`to_length_prefixed`) or to
    /// Annex B. `Param` for a prefix size outside 1..=4; scan and rebuild errors as they come.
    /// On success the chunks of the result become the cache.
    pub fn convert(&mut self, src: &mut BytesMut, to_length_prefixed: bool) -> (r: Result<BytesMut, NalError>)
        requires
            bytes_mut_contents(*old(src)).len() * 4 + 4 <= isize::MAX,
        ensures
            final(self).nal_size_len == old(self).nal_size_len,
            ({
                let s = bytes_mut_contents(*old(src));
                let nsl = old(self).nal_size_len;
                if !(1 <= nsl <= 4) {
                    &&& r == Err::<BytesMut, NalError>(NalError::Param)
                    &&& final(self).offsets_cache@ == old(self).offsets_cache@
                    &&& bytes_mut_contents(*final(src)) == s
                } else {
                    match source_chunks(s, nsl, old(self).offsets_cache@, to_length_prefixed) {
                        Err(e) => {
                            &&& r == Err::<BytesMut, NalError>(e)
                            &&& final(self).offsets_cache@ == old(self).offsets_cache@
                            &&& bytes_mut_contents(*final(src)) == s
                        },
                        Ok(chunks) => {
                            &&& match rebuild_result(s, chunks, to_length_prefixed, nsl) {
                                Ok((bytes, cs)) => (r matches Ok(b) && bytes_mut_contents(b) == bytes)
                                    && final(self).offsets_cache@ == cs,
                                Err(e) => r == Err::<BytesMut, NalError>(e)
                                    && final(self).offsets_cache@ == old(self).offsets_cache@,
                            }
                            &&& bytes_mut_contents(*final(src)) == if rebuild_in_place(s, chunks, nsl) {
                                Seq::<u8>::empty()
                            } else {
                                s
                            }
                        },
                    }
                }
            }),
    {
        if !(1 <= self.nal_size_len && self.nal_size_len < 5) {
            return Err(NalError::Param);
        }
        let nsl = self.nal_size_len;
        let ghost s = bytes_mut_contents(*src);
        let slice = bytes_as_slice(src);
        let mut iter = if to_length_prefixed {
            if self.offsets_cache.len() == 0 {
                AnnexBIter::annexb(slice)
            } else {
                AnnexBIter::cached(slice, self.offsets_cache.clone(), AnnexBCacheVerifyKind::AnnexB)
            }
        } else {
            if self.offsets_cache.len() == 0 {
                AnnexBIter::length_prefixed(slice, nsl)
            } else {
                AnnexBIter::cached(slice, self.offsets_cache.clone(), AnnexBCacheVerifyKind::LengthPrefixed { nal_size_len: nsl })
            }
        };
        proof {
            assert(iter_scan(iter) == source_chunks(s, nsl, self.offsets_cache@, to_length_prefixed));
            lemma_iter_scan_ordered(iter);
        }
        let chunks = match collect_chunks(&mut iter) {
            Ok(c) => c,
            Err(e) => return Err(e),
        };
        proof {
            let p: nat = if to_length_prefixed { nsl as nat } else { 4 };
            lemma_rebuilt_size_bound(chunks@, s.len() as int, p);
            assert(p * s.len() <= 4 * s.len()) by (nonlinear_arith)
                requires
                    p <= 4,
            ;
        }
        let (out, out_chunks) = match AnnexBBuilder::rebuild_from_chunks(src, chunks, to_length_prefixed, nsl) {
            Ok(x) => x,
            Err(e) => return Err(e),
        };
        self.offsets_cache = out_chunks;
        Ok(out)
    }

    /// The chunks of `src` in the given layout, without converting; `Param` for a prefix
    /// size outside 1..=4.
    pub fn scan_only(src: &[u8], nal_size_len: usize, from_length_prefixed: bool) -> (r: Result<Vec<NalChunk>, NalError>)
        ensures
            !(1 <= nal_size_len <= 4) ==> r == Err::<Vec<NalChunk>, NalError>(NalError::Param),
            1 <= nal_size_len <= 4 ==> ({
                let scan = if from_length_prefixed {
                    length_prefixed_scan(src@, nal_size_len, 0)
                } else {
                    annexb_scan(src@, 0)
                };
                &&& r is Ok ==> scan == Ok::<Seq<NalChunk>, NalError>(r->Ok_0@)
                &&& r is Err ==> scan == Err::<Seq<NalChunk>, NalError>(r->Err_0)
            }),
    {
        if !(1 <= nal_size_len && nal_size_len < 5) {
            return Err(NalError::Param);
        }
        if from_length_prefixed {
            collect_chunks(&mut AnnexBIter::length_prefixed(src, nal_size_len))
        } else {
            collect_chunks(&mut AnnexBIter::annexb(src))
        }
    }
}

} // verus!
