use vstd::prelude::*;

verus! {

/// Bit `j` (counted from the least significant end) of a word.
pub open spec fn bit_of(w: u64, j: int) -> bool {
    (w >> (j as u64)) & 1u64 == 1u64
}

/// `v` with positions `[start, end)` set to `val`.
pub open spec fn set_range(v: Seq<bool>, start: int, end: int, val: bool) -> Seq<bool> {
    Seq::new(v.len(), |i: int| if start <= i < end { val } else { v[i] })
}

/// No position of `[a, b)` is marked.
pub open spec fn none_marked(v: Seq<bool>, a: int, b: int) -> bool {
    forall|i: int| a <= i < b ==> !v[i]
}

/// Every position of `[a, b)` is marked.
pub open spec fn all_marked(v: Seq<bool>, a: int, b: int) -> bool {
    forall|i: int| a <= i < b ==> v[i]
}

/// The bits of word `w` are those of `ow`, with the positions of the word that fall in
/// `[start, end)` (the word covering positions `base..base + 64`) forced to `val`.
pub open spec fn word_updated(nw: u64, ow: u64, base: int, start: int, end: int, val: bool) -> bool {
    forall|j: int| 0 <= j < 64 ==> #[trigger] bit_of(nw, j) == if start <= base + j < end { val } else { bit_of(ow, j) }
}

/// The bits of `w` are those of `ow` restricted to positions in `[start, end)`.
pub open spec fn word_masked(w: u64, ow: u64, base: int, start: int, end: int) -> bool {
    forall|j: int| 0 <= j < 64 ==> #[trigger] bit_of(w, j) == (bit_of(ow, j) && start <= base + j < end)
}

proof fn lemma_word_pos(wi: int, j: int)
    requires
        wi >= 0,
        0 <= j < 64,
    ensures
        (wi * 64 + j) / 64 == wi,
        (wi * 64 + j) % 64 == j,
{
    assert((wi * 64 + j) / 64 == wi) by (nonlinear_arith)
        requires wi >= 0, 0 <= j < 64;
    assert((wi * 64 + j) % 64 == j) by (nonlinear_arith)
        requires wi >= 0, 0 <= j < 64;
}

proof fn lemma_pos_split(i: int)
    requires
        i >= 0,
    ensures
        i == (i / 64) * 64 + i % 64,
        0 <= i % 64 < 64,
        i / 64 >= 0,
{
}

/// Mask with exactly the bits `[lo, hi)` set.
fn range_mask(lo: u64, hi: u64) -> (m: u64)
    requires
        lo < hi <= 64,
    ensures
        forall|j: int| 0 <= j < 64 ==> #[trigger] bit_of(m, j) == (lo <= j < hi),
{
    assert(lo < 64 ==> (1u64 << lo) >= 1u64) by (bit_vector);
    assert(hi < 64 ==> (1u64 << hi) >= 1u64) by (bit_vector);
    let m = if hi == 64 {
        !((1u64 << lo) - 1)
    } else {
        ((1u64 << hi) - 1) & !((1u64 << lo) - 1)
    };
    assert forall|j: int| 0 <= j < 64 implies #[trigger] bit_of(m, j) == (lo <= j < hi) by {
        let jj = j as u64;
        if hi == 64 {
            assert(lo < 64 && jj < 64 ==> (((!(((1u64 << lo) - 1u64) as u64)) >> jj) & 1u64 == 1u64) == (lo <= jj))
                by (bit_vector);
        } else {
            assert(lo < hi && hi < 64 && jj < 64 ==> ((((((1u64 << hi) - 1u64) as u64) & !(((1u64 << lo) - 1u64) as u64)) >> jj) & 1u64
                == 1u64) == (lo <= jj && jj < hi)) by (bit_vector);
        }
    }
    m
}

proof fn lemma_bit_or(w: u64, m: u64, j: int)
    requires
        0 <= j < 64,
    ensures
        bit_of(w | m, j) == (bit_of(w, j) || bit_of(m, j)),
{
    let jj = j as u64;
    assert(((w | m) >> jj) & 1u64 == 1u64 <==> ((w >> jj) & 1u64 == 1u64 || (m >> jj) & 1u64 == 1u64))
        by (bit_vector);
}

proof fn lemma_bit_and_not(w: u64, m: u64, j: int)
    requires
        0 <= j < 64,
    ensures
        bit_of(w & !m, j) == (bit_of(w, j) && !bit_of(m, j)),
{
    let jj = j as u64;
    assert(((w & !m) >> jj) & 1u64 == 1u64 <==> ((w >> jj) & 1u64 == 1u64 && !((m >> jj) & 1u64 == 1u64)))
        by (bit_vector);
}

proof fn lemma_bit_and(w: u64, m: u64, j: int)
    requires
        0 <= j < 64,
    ensures
        bit_of(w & m, j) == (bit_of(w, j) && bit_of(m, j)),
{
    let jj = j as u64;
    assert(((w & m) >> jj) & 1u64 == 1u64 <==> ((w >> jj) & 1u64 == 1u64 && (m >> jj) & 1u64 == 1u64))
        by (bit_vector);
}

proof fn lemma_bit_max(j: int)
    requires
        0 <= j < 64,
    ensures
        bit_of(u64::MAX, j),
        !bit_of(0u64, j),
{
    let jj = j as u64;
    assert(jj < 64 ==> (0xffff_ffff_ffff_ffffu64 >> jj) & 1u64 == 1u64) by (bit_vector);
    assert((0u64 >> jj) & 1u64 == 0u64) by (bit_vector);
}

/// A nonzero word has a set bit.
proof fn lemma_nonzero_has_bit(w: u64)
    requires
        w != 0,
    ensures
        (w.trailing_zeros() as int) < 64,
        bit_of(w, w.trailing_zeros() as int),
        forall|j: int| 0 <= j < w.trailing_zeros() ==> !#[trigger] bit_of(w, j),
{
    vstd::std_specs::bits::axiom_u64_trailing_zeros(w);
    let tz = w.trailing_zeros();
    assert forall|j: int| 0 <= j < tz implies !#[trigger] bit_of(w, j) by {
        assert((w >> (j as u64)) & 1u64 == 0u64);
    }
}

/// A word is zero exactly when none of its 64 bits is set.
proof fn lemma_zero_iff_no_bits(w: u64)
    ensures
        (w == 0) <==> (forall|j: int| 0 <= j < 64 ==> !#[trigger] bit_of(w, j)),
{
    if w == 0 {
        assert forall|j: int| 0 <= j < 64 implies !#[trigger] bit_of(w, j) by {
            lemma_bit_max(j);
        }
    } else {
        lemma_nonzero_has_bit(w);
    }
}

/// Part of `RingBuffer` used to represent gaps in the timeline.
pub struct Bitmap {
    gap_bitmap: Vec<u64>,
    capacity: usize,
    empty: bool,
}

impl View for Bitmap {
    type V = Seq<bool>;

    /// One flag per position, `true` where the position is marked as a gap.
    closed spec fn view(&self) -> Seq<bool> {
        Seq::new(self.capacity as nat, |i: int| bit_of(self.gap_bitmap@[i / 64], i % 64))
    }
}

/// Result of a gap search over `[start, end)`: `None` when nothing there is marked;
/// otherwise the first marked position and the length of the marked run that starts
/// there, cut at `end`.
pub open spec fn gap_search_result(v: Seq<bool>, start: int, end: int, r: Option<(usize, usize)>) -> bool {
    match r {
        None => none_marked(v, start, if end < v.len() { end } else { v.len() as int }),
        Some((g, n)) => {
            &&& start <= g
            &&& n >= 1
            &&& g + n <= end
            &&& none_marked(v, start, g as int)
            &&& all_marked(v, g as int, g + n)
            &&& (g + n == end || !v[g + n])
        },
    }
}

impl Bitmap {
    /// Words needed for `capacity` bits.
    pub open spec fn words_for(capacity: int) -> int {
        (capacity + 63) / 64
    }

    pub closed spec fn wf(&self) -> bool {
        &&& self.gap_bitmap@.len() == Self::words_for(self.capacity as int)
        &&& forall|w: int, j: int|
            0 <= w < self.gap_bitmap@.len() && 0 <= j < 64 && w * 64 + j >= self.capacity
                ==> !#[trigger] bit_of(self.gap_bitmap@[w], j)
        &&& self.empty == (forall|w: int| 0 <= w < self.gap_bitmap@.len() ==> #[trigger] self.gap_bitmap@[w] == 0u64)
    }

    /// The flag is set exactly when no position is marked.
    proof fn lemma_empty_flag(&self)
        requires
            self.wf(),
        ensures
            self.empty == none_marked(self@, 0, self.capacity as int),
    {
        if self.empty {
            assert forall|i: int| 0 <= i < self.capacity implies !self@[i] by {
                lemma_pos_split(i);
                assert(self.gap_bitmap@[i / 64] == 0u64);
                lemma_bit_max(i % 64);
            }
        } else {
            let w = choose|w: int| 0 <= w < self.gap_bitmap@.len() && self.gap_bitmap@[w] != 0u64;
            let word = self.gap_bitmap@[w];
            lemma_nonzero_has_bit(word);
            let j = word.trailing_zeros() as int;
            lemma_word_pos(w, j);
            assert(w * 64 + j < self.capacity);
            assert(self@[w * 64 + j]);
        }
    }

    pub fn new(capacity: usize) -> (r: Self)
        ensures
            r.wf(),
            r@ == Seq::new(capacity as nat, |i: int| false),
    {
        let words = capacity / 64 + if capacity % 64 != 0 { 1 } else { 0 };
        let mut gap_bitmap: Vec<u64> = Vec::new();
        let mut k: usize = 0;
        while k < words
            invariant
                k <= words,
                gap_bitmap@.len() == k,
                forall|w: int| 0 <= w < k ==> gap_bitmap@[w] == 0u64,
            decreases words - k,
        {
            gap_bitmap.push(0u64);
            k = k + 1;
        }
        let r = Bitmap { gap_bitmap, capacity, empty: true };
        assert forall|w: int, j: int|
            0 <= w < r.gap_bitmap@.len() && 0 <= j < 64 && w * 64 + j >= r.capacity
            implies !#[trigger] bit_of(r.gap_bitmap@[w], j) by {
            lemma_bit_max(j);
        }
        assert(r@ =~= Seq::new(capacity as nat, |i: int| false)) by {
            assert forall|i: int| 0 <= i < capacity implies !r@[i] by {
                lemma_pos_split(i);
                lemma_bit_max(i % 64);
            }
        }
        r
    }

    /// Whether no position is marked.
    pub fn is_empty(&self) -> (r: bool)
        requires
            self.wf(),
        ensures
            r == none_marked(self@, 0, self@.len() as int),
    {
        proof {
            self.lemma_empty_flag();
        }
        self.empty
    }

    pub fn capacity(&self) -> (r: usize)
        ensures
            r == self@.len(),
    {
        self.capacity
    }

    /// Applies `word_updated` to every word, given the per-word facts, and reads off the view.
    proof fn lemma_updated_view(old_bm: Self, new_bm: Self, start: int, end: int, val: bool)
        requires
            old_bm.wf(),
            new_bm.capacity == old_bm.capacity,
            new_bm.gap_bitmap@.len() == old_bm.gap_bitmap@.len(),
            0 <= start <= end <= old_bm.capacity,
            forall|w: int| 0 <= w < old_bm.gap_bitmap@.len() ==>
                word_updated(#[trigger] new_bm.gap_bitmap@[w], old_bm.gap_bitmap@[w], w * 64, start, end, val),
        ensures
            new_bm@ == set_range(old_bm@, start, end, val),
            forall|w: int, j: int|
                0 <= w < new_bm.gap_bitmap@.len() && 0 <= j < 64 && w * 64 + j >= new_bm.capacity
                    ==> !#[trigger] bit_of(new_bm.gap_bitmap@[w], j),
    {
        assert forall|i: int| 0 <= i < old_bm.capacity implies new_bm@[i] == set_range(old_bm@, start, end, val)[i] by {
            lemma_pos_split(i);
            let w = i / 64;
            let j = i % 64;
            assert(word_updated(new_bm.gap_bitmap@[w], old_bm.gap_bitmap@[w], w * 64, start, end, val));
            assert(bit_of(new_bm.gap_bitmap@[w], j) == if start <= w * 64 + j < end { val } else { bit_of(old_bm.gap_bitmap@[w], j) });
        }
        assert(new_bm@ =~= set_range(old_bm@, start, end, val));
        assert forall|w: int, j: int|
            0 <= w < new_bm.gap_bitmap@.len() && 0 <= j < 64 && w * 64 + j >= new_bm.capacity
            implies !#[trigger] bit_of(new_bm.gap_bitmap@[w], j) by {
            assert(word_updated(new_bm.gap_bitmap@[w], old_bm.gap_bitmap@[w], w * 64, start, end, val));
        }
    }

    /// Sets (`val`) or clears the positions `[start, start + len)` word by word.
    fn apply_region(&mut self, start: usize, len: usize, val: bool)
        requires
            old(self).wf(),
            len > 0,
            start + len <= old(self).capacity,
        ensures
            final(self).capacity == old(self).capacity,
            final(self).gap_bitmap@.len() == old(self).gap_bitmap@.len(),
            final(self).empty == old(self).empty,
            forall|w: int| 0 <= w < old(self).gap_bitmap@.len() ==>
                word_updated(#[trigger] final(self).gap_bitmap@[w], old(self).gap_bitmap@[w], w * 64, start as int, start + len, val),
    {
        let end = start + len;
        let first_word = start / 64;
        let last_word = (end - 1) / 64;
        let ghost old_words = self.gap_bitmap@;
        proof {
            lemma_pos_split(start as int);
            lemma_pos_split(end - 1);
            assert(last_word < self.gap_bitmap@.len());
        }

        let start_bit = (start % 64) as u64;
        let first_hi: u64 = if first_word == last_word {
            let end_bit = (end % 64) as u64;
            if end_bit == 0 { 64 } else { end_bit }
        } else {
            64
        };
        proof {
            if first_word == last_word && end % 64 != 0 {
                assert(end % 64 > start % 64);
            }
        }
        let first_mask = range_mask(start_bit, first_hi);
        let ow = self.gap_bitmap[first_word];
        let nw = if val { ow | first_mask } else { ow & !first_mask };
        self.gap_bitmap.set(first_word, nw);
        proof {
            assert forall|j: int| 0 <= j < 64 implies #[trigger] bit_of(nw, j) == if start <= first_word * 64 + j < end { val } else { bit_of(ow, j) } by {
                lemma_bit_or(ow, first_mask, j);
                lemma_bit_and_not(ow, first_mask, j);
            }
        }

        let mut w = first_word + 1;
        while w < last_word
            invariant
                first_word < w <= last_word + 1 || (w == first_word + 1),
                first_word <= last_word < old_words.len(),
                first_word == start / 64,
                last_word == (end - 1) / 64,
                end == start + len,
                self.gap_bitmap@.len() == old_words.len(),
                self.capacity == old(self).capacity,
                self.empty == old(self).empty,
                old_words == old(self).gap_bitmap@,
                forall|k: int| 0 <= k < old_words.len() && (k < first_word || k >= w) && k != first_word
                    ==> #[trigger] self.gap_bitmap@[k] == old_words[k],
                word_updated(self.gap_bitmap@[first_word as int], old_words[first_word as int], first_word * 64, start as int, end as int, val),
                forall|k: int| first_word < k < w ==>
                    word_updated(#[trigger] self.gap_bitmap@[k], old_words[k], k * 64, start as int, end as int, val),
            decreases last_word - w,
        {
            let v = if val { u64::MAX } else { 0u64 };
            self.gap_bitmap.set(w, v);
            proof {
                assert forall|j: int| 0 <= j < 64 implies #[trigger] bit_of(v, j) == if start <= w * 64 + j < end { val } else { bit_of(old_words[w as int], j) } by {
                    lemma_bit_max(j);
                }
            }
            w = w + 1;
        }

        if last_word != first_word {
            let end_bit = (end % 64) as u64;
            assert(end_bit < 64 ==> (1u64 << end_bit) >= 1u64) by (bit_vector);
            let last_mask: u64 = if end_bit == 0 { u64::MAX } else { (1u64 << end_bit) - 1 };
            proof {
                assert forall|j: int| 0 <= j < 64 implies #[trigger] bit_of(last_mask, j) == (last_word * 64 + j < end) by {
                    let jj = j as u64;
                    lemma_bit_max(j);
                    if end_bit != 0 {
                        assert(end_bit < 64 && jj < 64 ==> (((((1u64 << end_bit) - 1u64) as u64) >> jj) & 1u64 == 1u64) == (jj < end_bit)) by (bit_vector);
                    }
                }
            }
            let ow2 = self.gap_bitmap[last_word];
            let nw2 = if val { ow2 | last_mask } else { ow2 & !last_mask };
            self.gap_bitmap.set(last_word, nw2);
            proof {
                assert forall|j: int| 0 <= j < 64 implies #[trigger] bit_of(nw2, j) == if start <= last_word * 64 + j < end { val } else { bit_of(ow2, j) } by {
                    lemma_bit_or(ow2, last_mask, j);
                    lemma_bit_and_not(ow2, last_mask, j);
                }
            }
        }
        proof {
            assert forall|k: int| 0 <= k < old_words.len() implies
                word_updated(#[trigger] self.gap_bitmap@[k], old_words[k], k * 64, start as int, end as int, val) by {
                if k < first_word || k > last_word {
                    assert forall|j: int| 0 <= j < 64 implies #[trigger] bit_of(self.gap_bitmap@[k], j)
                        == if start <= k * 64 + j < end { val } else { bit_of(old_words[k], j) } by {
                        if k < first_word {
                            assert(k * 64 + j < first_word * 64) by (nonlinear_arith)
                                requires k < first_word, 0 <= j < 64;
                        } else {
                            assert(k * 64 + j >= (last_word + 1) * 64) by (nonlinear_arith)
                                requires k > last_word, 0 <= j < 64;
                        }
                    }
                }
            }
        }
    }

    /// Marks `[start, start + len)` as gap.
    pub fn mark_region(&mut self, start: usize, len: usize)
        requires
            old(self).wf(),
            len > 0 ==> start + len <= old(self)@.len(),
        ensures
            final(self).wf(),
            final(self)@ == set_range(old(self)@, start as int, start + len, true),
    {
        if len == 0 {
            assert(self@ =~= set_range(self@, start as int, start + len, true));
            return;
        }
        let ghost old_bm = *self;
        self.apply_region(start, len, true);
        self.empty = false;
        proof {
            Self::lemma_updated_view(old_bm, *self, start as int, start + len, true);
            let w = start / 64;
            let j = start % 64;
            lemma_pos_split(start as int);
            assert(word_updated(self.gap_bitmap@[w as int], old_bm.gap_bitmap@[w as int], w * 64, start as int, start + len, true));
            assert(bit_of(self.gap_bitmap@[w as int], j as int));
            lemma_zero_iff_no_bits(self.gap_bitmap@[w as int]);
        }
    }

    /// Clears `[start, start + len)` and recomputes whether any gap is left.
    pub fn unmark_region(&mut self, start: usize, len: usize)
        requires
            old(self).wf(),
            len > 0 && !none_marked(old(self)@, 0, old(self)@.len() as int) ==> start + len <= old(self)@.len(),
        ensures
            final(self).wf(),
            final(self)@ == set_range(old(self)@, start as int, start + len, false),
    {
        proof {
            self.lemma_empty_flag();
        }
        if len == 0 || self.empty {
            assert(self@ =~= set_range(self@, start as int, start + len, false));
            return;
        }
        let ghost old_bm = *self;
        self.apply_region(start, len, false);
        proof {
            Self::lemma_updated_view(old_bm, *self, start as int, start + len, false);
        }

        let mut still_non_empty = false;
        let mut i: usize = 0;
        let n = self.gap_bitmap.len();
        while i < n
            invariant_except_break
                i <= n,
                n == self.gap_bitmap@.len(),
                !still_non_empty,
                forall|k: int| 0 <= k < i ==> #[trigger] self.gap_bitmap@[k] == 0u64,
            ensures
                still_non_empty == !(forall|k: int| 0 <= k < n ==> #[trigger] self.gap_bitmap@[k] == 0u64),
            decreases n - i,
        {
            if self.gap_bitmap[i] != 0 {
                still_non_empty = true;
                break;
            }
            i = i + 1;
        }

        if !still_non_empty {
            self.empty = true;
        } else {
            self.empty = false;
        }
    }
}


impl Bitmap {
    /// Word `wi` with the bits outside `[start, end)` cleared.
    fn masked_word(&self, wi: usize, first_word: usize, last_word: usize, start: usize, end: usize) -> (w: u64)
        requires
            self.wf(),
            start < end <= self.capacity,
            first_word == start / 64,
            last_word == (end - 1) / 64,
            first_word <= wi <= last_word,
        ensures
            word_masked(w, self.gap_bitmap@[wi as int], wi * 64, start as int, end as int),
    {
        proof {
            lemma_pos_split(start as int);
            lemma_pos_split(end - 1);
            lemma_pos_split(end as int);
            assert(wi < self.gap_bitmap@.len());
        }
        let ow = self.gap_bitmap[wi];
        let mut w = ow;
        if wi == first_word {
            let lo = (start % 64) as u64;
            if lo != 0 {
                let m = range_mask(lo, 64);
                let ghost before = w;
                w = w & m;
                proof {
                    assert forall|j: int| 0 <= j < 64 implies #[trigger] bit_of(w, j) == (bit_of(before, j) && lo <= j) by {
                        lemma_bit_and(before, m, j);
                    }
                }
            }
        }
        let ghost w1 = w;
        proof {
            assert forall|j: int| 0 <= j < 64 implies #[trigger] bit_of(w1, j) == (bit_of(ow, j) && start <= wi * 64 + j) by {
                if wi > first_word {
                    assert(wi * 64 + j >= start) by (nonlinear_arith)
                        requires wi > first_word, start < (first_word + 1) * 64, 0 <= j;
                }
            }
        }
        if wi == last_word {
            let hi = (end % 64) as u64;
            if hi != 0 {
                let m = range_mask(0, hi);
                let ghost before = w;
                w = w & m;
                proof {
                    assert forall|j: int| 0 <= j < 64 implies #[trigger] bit_of(w, j) == (bit_of(before, j) && j < hi) by {
                        lemma_bit_and(before, m, j);
                    }
                }
            }
        }
        proof {
            assert forall|j: int| 0 <= j < 64 implies #[trigger] bit_of(w, j) == (bit_of(ow, j) && start <= wi * 64 + j < end) by {
                assert(bit_of(w1, j) == (bit_of(ow, j) && start <= wi * 64 + j));
                if wi < last_word {
                    assert(wi * 64 + j < end) by (nonlinear_arith)
                        requires wi < last_word, end - 1 >= last_word * 64, 0 <= j < 64;
                }
            }
        }
        w
    }
}

proof fn lemma_shift_bit(w: u64, tz: u64, k: int)
    requires
        tz < 64,
        0 <= k < 64,
    ensures
        bit_of(w >> tz, k) == (tz + k < 64 && bit_of(w, tz + k)),
{
    let kk = k as u64;
    assert(tz < 64 && kk < 64 ==> (((w >> tz) >> kk) & 1u64 == 1u64) == (tz + kk < 64 && (w >> ((tz + kk) as u64)) & 1u64
        == 1u64)) by (bit_vector);
}

/// Facts about the trailing ones of a word.
proof fn lemma_trailing_ones(w: u64)
    ensures
        (!w).trailing_zeros() <= 64,
        (w == u64::MAX) <==> ((!w).trailing_zeros() == 64),
        (!w).trailing_zeros() < 64 ==> !bit_of(w, (!w).trailing_zeros() as int),
        forall|k: int| 0 <= k < (!w).trailing_zeros() ==> #[trigger] bit_of(w, k),
{
    vstd::std_specs::bits::axiom_u64_trailing_ones(w);
    let n = (!w).trailing_zeros();
    assert forall|k: int| 0 <= k < n implies #[trigger] bit_of(w, k) by {
        assert((w >> (k as u64)) & 1u64 == 1u64);
    }
}

impl Bitmap {
    /// Relates a bit of a masked word to the view.
    proof fn lemma_masked_bit(&self, w: u64, wi: int, start: int, end: int, j: int)
        requires
            self.wf(),
            0 <= wi < self.gap_bitmap@.len(),
            0 <= j < 64,
            0 <= start,
            end <= self.capacity,
            word_masked(w, self.gap_bitmap@[wi], wi * 64, start, end),
        ensures
            bit_of(w, j) == (start <= wi * 64 + j < end && self@[wi * 64 + j]),
    {
        lemma_word_pos(wi, j);
        assert(bit_of(w, j) == (bit_of(self.gap_bitmap@[wi], j) && start <= wi * 64 + j < end));
    }

    /// Finds the first gap run inside `[start, start + len)`.
    ///
    /// Returns the first marked position and how many marked positions follow it
    /// without interruption, stopping at the end of the range.
    pub fn search_next_gap(&mut self, start: usize, len: usize) -> (r: Option<(usize, usize)>)
        requires
            old(self).wf(),
            len > 0 && !none_marked(old(self)@, 0, old(self)@.len() as int) ==> start + len <= old(self)@.len(),
        ensures
            *final(self) == *old(self),
            gap_search_result(old(self)@, start as int, start + len, r),
    {
        proof {
            self.lemma_empty_flag();
        }
        if len == 0 || self.empty {
            return None;
        }

        let end = start + len;
        let first_word = start / 64;
        let last_word = (end - 1) / 64;
        proof {
            lemma_pos_split(start as int);
            lemma_pos_split(end - 1);
            assert(last_word < self.gap_bitmap@.len());
            assert(last_word * 64 <= end - 1);
        }

        let mut wi = first_word;
        let mut w = self.masked_word(wi, first_word, last_word, start, end);

        while w == 0
            invariant
                self.wf(),
                self == old(self),
                end == start + len,
                end <= self.capacity,
                start < end,
                first_word == start / 64,
                last_word == (end - 1) / 64,
                last_word < self.gap_bitmap@.len(),
                last_word * 64 <= end - 1 < (last_word + 1) * 64,
                first_word <= wi <= last_word,
                word_masked(w, self.gap_bitmap@[wi as int], wi * 64, start as int, end as int),
                none_marked(self@, start as int, wi * 64),
            decreases last_word - wi,
        {
            proof {
                assert forall|i: int| wi * 64 <= i < (wi + 1) * 64 && start <= i < end implies !self@[i] by {
                    let j = i - wi * 64;
                    self.lemma_masked_bit(w, wi as int, start as int, end as int, j);
                    lemma_bit_max(j);
                }
            }
            if wi == last_word {
                return None;
            }
            wi = wi + 1;
            w = self.masked_word(wi, first_word, last_word, start, end);
        }

        proof {
            lemma_nonzero_has_bit(w);
        }
        let tz = w.trailing_zeros();
        let gap_start = wi * 64 + tz as usize;
        proof {
            self.lemma_masked_bit(w, wi as int, start as int, end as int, tz as int);
            assert forall|i: int| start <= i < gap_start implies !self@[i] by {
                if i >= wi * 64 {
                    self.lemma_masked_bit(w, wi as int, start as int, end as int, i - wi * 64);
                }
            }
        }

        let mut run = 0usize;

        let w_tail = w >> tz;
        proof {
            lemma_trailing_ones(w_tail);
        }
        let ones_here = (!w_tail).trailing_zeros() as usize;
        let bits_available_in_word = 64 - tz as usize;
        let mut take = if ones_here < bits_available_in_word { ones_here } else { bits_available_in_word };

        let max_total = end - gap_start;
        if take > max_total {
            take = max_total;
        }
        run = run + take;

        proof {
            assert forall|i: int| gap_start <= i < gap_start + run implies self@[i] by {
                let k = i - gap_start;
                lemma_shift_bit(w, tz as u64, k);
                assert(bit_of(w_tail, k));
                self.lemma_masked_bit(w, wi as int, start as int, end as int, tz + k);
            }
        }

        if run == max_total {
            return Some((gap_start, run));
        }

        if take < bits_available_in_word {
            proof {
                let k = ones_here as int;
                lemma_shift_bit(w, tz as u64, k);
                self.lemma_masked_bit(w, wi as int, start as int, end as int, tz + k);
            }
            return Some((gap_start, run));
        }

        let mut next_wi = wi + 1;
        while gap_start + run < end && next_wi <= last_word
            invariant
                self.wf(),
                self == old(self),
                end == start + len,
                end <= self.capacity,
                start <= gap_start < end,
                first_word == start / 64,
                last_word == (end - 1) / 64,
                last_word < self.gap_bitmap@.len(),
                last_word * 64 <= end - 1 < (last_word + 1) * 64,
                first_word < next_wi,
                gap_start + run == next_wi * 64,
                1 <= run < max_total,
                max_total == end - gap_start,
                none_marked(self@, start as int, gap_start as int),
                all_marked(self@, gap_start as int, gap_start + run),
            decreases last_word + 1 - next_wi,
        {
            let ww = self.masked_word(next_wi, first_word, last_word, start, end);

            if ww == u64::MAX {
                let remaining = end - (gap_start + run);
                let add = if remaining < 64 { remaining } else { 64 };
                proof {
                    assert forall|i: int| next_wi * 64 <= i < next_wi * 64 + 64 implies start <= i < end && self@[i] by {
                        let j = i - next_wi * 64;
                        lemma_bit_max(j);
                        self.lemma_masked_bit(ww, next_wi as int, start as int, end as int, j);
                    }
                    lemma_bit_max(63);
                    self.lemma_masked_bit(ww, next_wi as int, start as int, end as int, 63);
                    assert(end >= next_wi * 64 + 64);
                }
                run = run + add;
                if run == max_total {
                    return Some((gap_start, run));
                }
                next_wi = next_wi + 1;
                continue;
            }

            if ww == 0 {
                proof {
                    lemma_bit_max(0);
                    self.lemma_masked_bit(ww, next_wi as int, start as int, end as int, 0);
                }
                return Some((gap_start, run));
            }

            proof {
                lemma_trailing_ones(ww);
            }
            let ones = (!ww).trailing_zeros() as usize;
            let remaining = end - (gap_start + run);
            let add0 = if ones < remaining { ones } else { remaining };
            let add = if add0 < 64 { add0 } else { 64 };
            proof {
                assert forall|i: int| next_wi * 64 <= i < next_wi * 64 + ones implies start <= i < end && self@[i] by {
                    let j = i - next_wi * 64;
                    self.lemma_masked_bit(ww, next_wi as int, start as int, end as int, j);
                }
                self.lemma_masked_bit(ww, next_wi as int, start as int, end as int, ones as int);
            }
            run = run + add;
            return Some((gap_start, run));
        }

        Some((gap_start, run))
    }
}


/// Marking a region twice leaves the same flags as marking it once; likewise unmarking.
pub proof fn lemma_region_idempotent(v: Seq<bool>, start: int, end: int, val: bool)
    ensures
        set_range(set_range(v, start, end, val), start, end, val) == set_range(v, start, end, val),
{
    assert(set_range(set_range(v, start, end, val), start, end, val) =~= set_range(v, start, end, val));
}

/// Unmarking a region that was just marked on a bitmap with nothing marked leaves nothing
/// marked.
pub proof fn lemma_unmark_undoes_mark(v: Seq<bool>, start: int, end: int)
    requires
        none_marked(v, 0, v.len() as int),
    ensures
        set_range(set_range(v, start, end, true), start, end, false) == v,
{
    assert(set_range(set_range(v, start, end, true), start, end, false) =~= v);
}

/// The gap search answers uniquely: two results that both meet the search's contract are
/// equal.
pub proof fn lemma_gap_search_unique(v: Seq<bool>, start: int, end: int, r1: Option<(usize, usize)>, r2: Option<(usize, usize)>)
    requires
        end <= v.len(),
        gap_search_result(v, start, end, r1),
        gap_search_result(v, start, end, r2),
    ensures
        r1 == r2,
{
    match (r1, r2) {
        (Some((g1, n1)), Some((g2, n2))) => {
            if g1 < g2 {
                assert(v[g1 as int]);
            } else if g2 < g1 {
                assert(v[g2 as int]);
            } else {
                if n1 < n2 {
                    assert(v[g1 + n1]);
                } else if n2 < n1 {
                    assert(v[g2 + n2]);
                }
            }
        },
        (Some((g1, n1)), None) => {
            assert(v[g1 as int]);
        },
        (None, Some((g2, n2))) => {
            assert(v[g2 as int]);
        },
        (None, None) => {},
    }
}

/// On a bitmap with nothing marked, a search over the whole bitmap after marking one
/// non-empty region finds exactly that region.
pub proof fn lemma_search_finds_marked_region(v: Seq<bool>, start: usize, len: usize, r: Option<(usize, usize)>)
    requires
        none_marked(v, 0, v.len() as int),
        len > 0,
        start + len <= v.len(),
        gap_search_result(set_range(v, start as int, start + len, true), 0, v.len() as int, r),
    ensures
        r == Some((start, len)),
{
    let w = set_range(v, start as int, start + len, true);
    assert(gap_search_result(w, 0, v.len() as int, Some((start, len))));
    lemma_gap_search_unique(w, 0, v.len() as int, r, Some((start, len)));
}
} // verus!
