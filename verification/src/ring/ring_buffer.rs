use vstd::prelude::*;
use vstd::string::StringExecFns;
use crate::ring::bitmap::{Bitmap, set_range, none_marked, all_marked, gap_search_result};
use crate::ring::ring_storage::RingStorage;

verus! {

/// `cap` is a power of two that a `usize` can hold.
pub open spec fn is_pow2(cap: usize) -> bool {
    exists|n: nat| n < usize::BITS && cap == vstd::arithmetic::power2::pow2(n)
}

proof fn lemma_mask_is_mod(x: usize, cap: usize)
    requires
        is_pow2(cap),
    ensures
        cap > 0,
        x & ((cap - 1) as usize) == x % cap,
{
    let n = choose|n: nat| n < usize::BITS && cap == vstd::arithmetic::power2::pow2(n);
    vstd::arithmetic::power2::lemma_pow2_pos(n);
    vstd::bits::lemma_usize_low_bits_mask_is_mod(x, n);
}

/// Saturating subtraction on the timeline.
pub open spec fn sat_sub(a: int, b: int) -> int {
    if a > b { a - b } else { 0 }
}

pub open spec fn min_int(a: int, b: int) -> int {
    if a < b { a } else { b }
}

/// The character of the decimal digit `d`.
pub open spec fn digit_char(d: nat) -> char {
    (48 + d) as char
}

/// The decimal digits of `n`, most significant first.
pub open spec fn decimal(n: nat) -> Seq<char>
    decreases n,
{
    if n < 10 {
        seq![digit_char(n)]
    } else {
        decimal(n / 10).push(digit_char(n % 10))
    }
}

/// The text of one decimal digit.
fn digit_str(d: usize) -> (r: &'static str)
    requires
        d < 10,
    ensures
        r@ == seq![digit_char(d as nat)],
{
    match d {
        0 => {
            proof {
                reveal_strlit("0");
            }
            "0"
        },
        1 => {
            proof {
                reveal_strlit("1");
            }
            "1"
        },
        2 => {
            proof {
                reveal_strlit("2");
            }
            "2"
        },
        3 => {
            proof {
                reveal_strlit("3");
            }
            "3"
        },
        4 => {
            proof {
                reveal_strlit("4");
            }
            "4"
        },
        5 => {
            proof {
                reveal_strlit("5");
            }
            "5"
        },
        6 => {
            proof {
                reveal_strlit("6");
            }
            "6"
        },
        7 => {
            proof {
                reveal_strlit("7");
            }
            "7"
        },
        8 => {
            proof {
                reveal_strlit("8");
            }
            "8"
        },
        _ => {
            proof {
                reveal_strlit("9");
            }
            "9"
        },
    }
}

/// `n` written in decimal.
pub fn decimal_string(n: usize) -> (r: String)
    ensures
        r@ == decimal(n as nat),
    decreases n,
{
    if n < 10 {
        digit_str(n).to_owned()
    } else {
        let mut s = decimal_string(n / 10);
        s.append(digit_str(n % 10));
        s
    }
}

/// One piece of what a read hands out, in timeline order.
#[derive(Debug, PartialEq, Eq)]
pub enum RingSegment<'a, T> {
    /// Samples read from the ring; the timeline advanced over them.
    Data(&'a [T]),
    /// A timeline jump: no samples were produced for this many positions.
    Gap(usize),
    /// Samples lost because the writer got more than a capacity ahead.
    Overflow(usize),
    /// Samples requested past what had been written.
    Underflow(usize),
}

impl<'a, T> RingSegment<'a, T> {
    /// Number of timeline positions the segment covers.
    pub open spec fn spec_len(&self) -> nat {
        match self {
            RingSegment::Data(d) => d@.len(),
            RingSegment::Gap(n) => *n as nat,
            RingSegment::Overflow(n) => *n as nat,
            RingSegment::Underflow(n) => *n as nat,
        }
    }

    /// The text of the segment: its kind and how many positions it covers.
    pub open spec fn text(&self) -> Seq<char> {
        match self {
            RingSegment::Data(d) => "Data("@ + decimal(d@.len()) + ")"@,
            RingSegment::Gap(n) => "Gap("@ + decimal(*n as nat) + ")"@,
            RingSegment::Overflow(n) => "Overflow("@ + decimal(*n as nat) + ")"@,
            RingSegment::Underflow(n) => "Underflow("@ + decimal(*n as nat) + ")"@,
        }
    }

    /// The segment as text, such as `Data(480)` or `Gap(12)`.
    pub fn to_string(&self) -> (r: String)
        ensures
            r@ == self.text(),
    {
        match self {
            RingSegment::Data(d) => "Data(".to_owned().concat(decimal_string(d.len()).as_str()).concat(")"),
            RingSegment::Gap(n) => "Gap(".to_owned().concat(decimal_string(*n).as_str()).concat(")"),
            RingSegment::Overflow(n) => "Overflow(".to_owned().concat(decimal_string(*n).as_str()).concat(")"),
            RingSegment::Underflow(n) => "Underflow(".to_owned().concat(decimal_string(*n).as_str()).concat(")"),
        }
    }

    pub fn len(&self) -> (r: usize)
        ensures
            r == self.spec_len(),
    {
        match self {
            RingSegment::Data(d) => d.len(),
            RingSegment::Gap(n) => *n,
            RingSegment::Overflow(n) => *n,
            RingSegment::Underflow(n) => *n,
        }
    }

    pub fn is_empty(&self) -> (r: bool)
        ensures
            r == (self.spec_len() == 0),
    {
        self.len() == 0
    }

    pub fn is_data(&self) -> (r: bool)
        ensures
            r == (self is Data),
    {
        match self {
            RingSegment::Data(_) => true,
            _ => false,
        }
    }
}

/// Timeline positions a data or gap segment stands for: `Some(sample)` for data, `None` for a gap.
pub open spec fn segment_labels<'a, T>(s: RingSegment<'a, T>) -> Seq<Option<T>> {
    match s {
        RingSegment::Data(d) => d@.map_values(|x: T| Some(x)),
        RingSegment::Gap(n) => Seq::new(n as nat, |i: int| None),
        _ => Seq::empty(),
    }
}

/// The positions of a run of data and gap segments, one after the other.
pub open spec fn flatten_segments<'a, T>(segs: Seq<RingSegment<'a, T>>) -> Seq<Option<T>>
    decreases segs.len(),
{
    if segs.len() == 0 {
        Seq::empty()
    } else {
        flatten_segments(segs.drop_last()) + segment_labels(segs.last())
    }
}

/// `segs` splits `labels` into maximal runs: each segment is data or gap and nonempty,
/// neighbours differ in kind, and together they spell out `labels`.
pub open spec fn maximal_runs<'a, T>(segs: Seq<RingSegment<'a, T>>, labels: Seq<Option<T>>) -> bool {
    &&& flatten_segments(segs) == labels
    &&& forall|i: int| 0 <= i < segs.len() ==> (#[trigger] segs[i] is Data || segs[i] is Gap) && segs[i].spec_len() > 0
    &&& forall|i: int| 0 <= i < segs.len() - 1 ==> (#[trigger] segs[i] is Data) != (segs[i + 1] is Data)
}

/// Outcome of a read that ran into overflow or underflow.
#[derive(Debug, PartialEq, Clone, Copy)]
pub struct XRunReport {
    /// Samples that should have been read before valid data, but were lost.
    pub overflow: usize,
    /// Samples that were copied from the ring.
    pub copied: usize,
    /// Samples requested but not available (timeline holes and a dry ring).
    pub underflow: usize,
}

impl XRunReport {
    /// Sets the overflow part `[0, overflow)` and the underflow part
    /// `[overflow + copied, overflow + copied + underflow)` of `out` to zero.
    pub fn zero_fill_overflow_and_underflow<T: Zeroable>(&self, out: &mut [T])
        requires
            self.overflow + self.copied + self.underflow <= old(out)@.len(),
        ensures
            final(out)@.len() == old(out)@.len(),
            forall|k: int| 0 <= k < old(out)@.len() ==> #[trigger] final(out)@[k] == if k < self.overflow
                || (self.overflow + self.copied <= k < self.overflow + self.copied + self.underflow) {
                T::zero_value()
            } else {
                old(out)@[k]
            },
    {
        let _total = out.len();
        fill_zero(out, 0, self.overflow);
        fill_zero(out, self.overflow + self.copied, self.underflow);
    }

    pub fn overflow_slice<'a, T>(&self, data: &'a [T]) -> (r: &'a [T])
        requires
            self.overflow <= data@.len(),
        ensures
            r@ == data@.subrange(0, self.overflow as int),
    {
        &data[0..self.overflow]
    }

    pub fn overflow_slice_mut<'a, T>(&self, data: &'a mut [T]) -> (r: &'a mut [T])
        requires
            self.overflow <= old(data)@.len(),
        ensures
            r@ == old(data)@.subrange(0, self.overflow as int),
            final(data)@ == final(r)@ + old(data)@.subrange(self.overflow as int, old(data)@.len() as int),
    {
        let (front, _back) = data.split_at_mut(self.overflow);
        front
    }

    pub fn underflow_slice<'a, T>(&self, data: &'a [T]) -> (r: &'a [T])
        requires
            self.overflow + self.copied + self.underflow <= data@.len(),
        ensures
            r@ == data@.subrange(self.overflow + self.copied, self.overflow + self.copied + self.underflow),
    {
        let _total = data.len();
        &data[self.overflow + self.copied..self.overflow + self.copied + self.underflow]
    }

    pub fn underflow_slice_mut<'a, T>(&self, data: &'a mut [T]) -> (r: &'a mut [T])
        requires
            self.overflow + self.copied + self.underflow <= old(data)@.len(),
        ensures
            ({
                let start = self.overflow + self.copied;
                let end = start + self.underflow;
                &&& r@ == old(data)@.subrange(start, end)
                &&& final(data)@ == old(data)@.subrange(0, start) + final(r)@ + old(data)@.subrange(end, old(data)@.len() as int)
            }),
    {
        let _total = data.len();
        let start = self.overflow + self.copied;
        let (_front, rest) = data.split_at_mut(start);
        let (mid, _back) = rest.split_at_mut(self.underflow);
        mid
    }
}

/// Sample types whose zero value stands for silence.
pub trait Zeroable: Copy + Default {
    spec fn zero_value() -> Self;

    fn zero() -> (r: Self)
        ensures
            r == Self::zero_value(),
    ;
}

impl Zeroable for u8 {
    open spec fn zero_value() -> u8 {
        0
    }

    fn zero() -> (r: u8) {
        0
    }
}

impl Zeroable for i8 {
    open spec fn zero_value() -> i8 {
        0
    }

    fn zero() -> (r: i8) {
        0
    }
}

impl Zeroable for i16 {
    open spec fn zero_value() -> i16 {
        0
    }

    fn zero() -> (r: i16) {
        0
    }
}

impl Zeroable for i32 {
    open spec fn zero_value() -> i32 {
        0
    }

    fn zero() -> (r: i32) {
        0
    }
}

/// Sets `out[start..start + len]` to zero.
fn fill_zero<T: Zeroable>(out: &mut [T], start: usize, len: usize)
    requires
        start + len <= old(out)@.len(),
    ensures
        final(out)@.len() == old(out)@.len(),
        forall|k: int| 0 <= k < old(out)@.len() ==> #[trigger] final(out)@[k] == if start <= k < start + len {
            T::zero_value()
        } else {
            old(out)@[k]
        },
{
    let z = T::zero();
    let total = out.len();
    let mut j: usize = 0;
    while j < len
        invariant
            total == out@.len(),
            j <= len,
            start + len <= out@.len(),
            out@.len() == old(out)@.len(),
            z == T::zero_value(),
            forall|k: int| 0 <= k < old(out)@.len() ==> #[trigger] out@[k] == if start <= k < start + j {
                T::zero_value()
            } else {
                old(out)@[k]
            },
        decreases len - j,
    {
        out[start + j] = z;
        j = j + 1;
    }
}

#[derive(Debug, PartialEq, Eq)]
pub enum WriteReport {
    /// Every input sample went into the ring.
    Complete,
    Partial { written: usize },
}

#[derive(Debug, Clone, Copy)]
pub struct RingStats {
    pub capacity: usize,
    pub written: usize,
    pub consumed: usize,
    pub readable: usize,
    pub overflow: usize,
    pub underflow: usize,
}

impl RingStats {
    /// How long `samples` samples last at `sample_rate` frames per second of
    /// `frame_size_in_samples` samples each, in whole nanoseconds (kept to 64 bits).
    pub fn samples_to_nanos(samples: usize, sample_rate: usize, frame_size_in_samples: usize) -> (r: u64)
        requires
            sample_rate > 0,
            frame_size_in_samples > 0,
        ensures
            r == ((samples as int * 1_000_000_000) / (sample_rate as int * frame_size_in_samples as int)) as u64,
    {
        let s = samples as u128;
        let rate = sample_rate as u128;
        let frame = frame_size_in_samples as u128;
        assert(s * 1_000_000_000 <= 0xFFFF_FFFF_FFFF_FFFF * 1_000_000_000) by (nonlinear_arith)
            requires
                s <= 0xFFFF_FFFF_FFFF_FFFF,
        ;
        assert(rate * frame <= 0xFFFF_FFFF_FFFF_FFFF * 0xFFFF_FFFF_FFFF_FFFF) by (nonlinear_arith)
            requires
                rate <= 0xFFFF_FFFF_FFFF_FFFF,
                frame <= 0xFFFF_FFFF_FFFF_FFFF,
        ;
        assert(rate * frame > 0) by (nonlinear_arith)
            requires
                rate > 0,
                frame > 0,
        ;
        let total = s * 1_000_000_000u128 / (rate * frame);
        total as u64
    }
}

/// Single-producer single-consumer mirrored ring buffer for audio streams.
///
/// `write_head` is logical time: the number of samples that have passed through. Only the
/// last `capacity` samples of the timeline are kept; what the reader misses beyond that is
/// reported as overflow, and what it asks for before the writer produced it as underflow.
pub struct RingBuffer<T: Copy + Default> {
    ring: RingStorage<T>,
    capacity: usize,
    write_head: usize,
    read_head: usize,
    mask: usize,
    gaps: Bitmap,
}

impl<T: Copy + Default> RingBuffer<T> {
    pub closed spec fn wf(&self) -> bool {
        &&& 0 < self.capacity <= usize::MAX / 4
        &&& is_pow2(self.capacity)
        &&& self.mask == self.capacity - 1
        &&& self.ring.mirrored(self.capacity as int)
        &&& self.gaps.wf()
        &&& self.gaps@.len() == self.capacity
    }

    /// Same slots, samples and gap marks as `other`; only the heads may differ.
    pub closed spec fn same_contents(&self, other: &Self) -> bool {
        &&& self.ring == other.ring
        &&& self.gaps == other.gaps
        &&& self.capacity == other.capacity
        &&& self.mask == other.mask
    }

    /// Equal contents mean equal slots and labels, and well-formedness carries over.
    pub proof fn lemma_same_contents(&self, other: &Self)
        requires
            self.same_contents(other),
        ensures
            self.cap() == other.cap(),
            forall|t: int| #[trigger] self.label(t) == other.label(t),
            other.wf() ==> self.wf(),
    {
    }

    /// Number of slots.
    pub closed spec fn cap(&self) -> nat {
        self.capacity as nat
    }

    /// Logical time of the writer: samples that went into the timeline so far.
    pub closed spec fn written(&self) -> nat {
        self.write_head as nat
    }

    /// Logical time of the reader.
    pub closed spec fn consumed(&self) -> nat {
        self.read_head as nat
    }

    /// What the ring holds for timeline position `t`: `None` for a gap, else the sample.
    /// Meaningful for the last `cap()` positions before `written()`.
    pub closed spec fn label(&self, t: int) -> Option<T> {
        if self.gaps@[t % (self.capacity as int)] {
            None
        } else {
            Some(self.ring.elems()[t % (self.capacity as int)])
        }
    }

    /// The sample stored in the slot of timeline position `t`, whether or not the position is
    /// marked as a gap.
    pub closed spec fn slot(&self, t: int) -> T {
        self.ring.elems()[t % (self.capacity as int)]
    }

    /// A position that holds a sample holds the one in its slot.
    pub proof fn lemma_label_slot(&self, t: int)
        ensures
            self.label(t) is Some ==> self.label(t) == Some(self.slot(t)),
    {
    }

    /// Positions lost for the reader: more than a capacity behind the writer.
    pub open spec fn lost(&self) -> int {
        sat_sub(sat_sub(self.written() as int, self.cap() as int), self.consumed() as int)
    }

    #[inline]
    fn logical_to_ring_index(&self, logical: usize) -> (r: usize)
        requires
            is_pow2(self.capacity),
            self.mask == self.capacity - 1,
        ensures
            r == logical % self.capacity,
            r < self.capacity,
    {
        proof {
            lemma_mask_is_mod(logical, self.capacity);
        }
        logical & self.mask
    }

    /// A ring of `size` rounded up to a power of two (at least 1) slots.
    pub fn new_unsplit(size: usize) -> (r: Self)
        requires
            size <= usize::MAX / 8,
        ensures
            r.wf(),
            r.written() == 0,
            r.consumed() == 0,
            r.cap() >= size,
            r.cap() < 2 * size || r.cap() == 1,
            is_pow2(r.cap() as usize),
            forall|t: int| #[trigger] r.label(t) is Some,
    {
        let mut p: usize = 1;
        let ghost mut k: nat = 0;
        proof {
            vstd::arithmetic::power2::lemma2_to64();
        }
        while p < size
            invariant
                size <= usize::MAX / 8,
                k < usize::BITS,
                p == vstd::arithmetic::power2::pow2(k),
                1 <= p,
                p == 1 || p < 2 * size,
            decreases 2 * size - p,
        {
            proof {
                vstd::arithmetic::power2::lemma_pow2_unfold(k + 1);
                if k + 1 >= usize::BITS {
                    vstd::arithmetic::power2::lemma2_to64();
                    assert(usize::BITS == 32 || usize::BITS == 64);
                    assert(p >= 0x8000_0000);
                }
            }
            p = p * 2;
            proof {
                k = k + 1;
            }
        }
        let size = p;
        let gaps = Bitmap::new(size);
        let r = RingBuffer {
            ring: RingStorage::new(size),
            write_head: 0,
            read_head: 0,
            gaps,
            capacity: size,
            mask: size - 1,
        };
        proof {
            assert(is_pow2(size));
            assert forall|t: int| #[trigger] r.label(t) is Some by {
                assert(0 <= t % (size as int) < size);
                assert(!r.gaps@[t % (size as int)]);
            }
        }
        r
    }

    #[inline]
    pub fn capacity(&self) -> (r: usize)
        ensures
            r == self.cap(),
    {
        self.capacity
    }

    pub fn total_consumed(&self) -> (r: usize)
        ensures
            r == self.consumed(),
    {
        self.read_head
    }

    pub fn total_written(&self) -> (r: usize)
        ensures
            r == self.written(),
    {
        self.write_head
    }

    pub fn peek_overflow(&self) -> (r: usize)
        ensures
            r == self.lost(),
    {
        let read = self.read_head;
        let write = self.write_head;
        let a = if write > self.capacity { write - self.capacity } else { 0 };
        if a > read { a - read } else { 0 }
    }

    pub fn stat(&self) -> (r: RingStats)
        ensures
            r.consumed == self.consumed(),
            r.written == self.written(),
            r.readable == sat_sub(self.written() as int, self.consumed() as int),
            r.capacity == self.cap(),
            r.overflow == self.lost(),
            r.underflow == sat_sub(self.consumed() as int, self.written() as int),
    {
        let consumed = self.read_head;
        let written = self.write_head;
        let readable = if written > consumed { written - consumed } else { 0 };
        let capacity = self.capacity;
        let a = if written > capacity { written - capacity } else { 0 };
        let overflow = if a > consumed { a - consumed } else { 0 };
        let underflow = if consumed > written { consumed - written } else { 0 };
        RingStats { consumed, written, readable, capacity, overflow, underflow }
    }

    /// Advances the reader's timeline by `read` positions.
    pub fn read_commit(&mut self, read: usize)
        requires
            old(self).consumed() + read <= usize::MAX,
        ensures
            final(self).consumed() == old(self).consumed() + read,
            final(self).written() == old(self).written(),
            final(self).same_contents(old(self)),
    {
        if read == 0 {
            return;
        }
        self.read_head = self.read_head + read;
    }
}

proof fn lemma_phys_pos(w: int, t: int, cap: int)
    requires
        cap > 0,
        0 <= w <= t,
    ensures
        0 <= w % cap + (t - w) % cap < 2 * cap,
        (w % cap + (t - w) % cap) % cap == t % cap,
{
    vstd::arithmetic::div_mod::lemma_add_mod_noop(w, t - w, cap);
}

proof fn lemma_mod_small(x: int, cap: int)
    requires
        cap > 0,
        0 <= x < 2 * cap,
    ensures
        x % cap == if x < cap { x } else { x - cap },
{
    if x >= cap {
        vstd::arithmetic::div_mod::lemma_mod_add_multiples_vanish(x - cap, cap);
        vstd::arithmetic::div_mod::lemma_small_mod((x - cap) as nat, cap as nat);
    } else {
        vstd::arithmetic::div_mod::lemma_small_mod(x as nat, cap as nat);
    }
}

impl<T: Copy + Default> RingBuffer<T> {
    /// Slot of the write head.
    pub closed spec fn head(&self) -> int {
        (self.write_head as int) % (self.capacity as int)
    }

    /// Slot `s` is reached by one of the `n` positions from the write head on, counted
    /// through the mirror half.
    pub closed spec fn pending_slot(&self, n: int, s: int) -> bool {
        let h = self.head();
        (h <= s < h + n) || (h <= s + self.capacity < h + n)
    }

    /// What was stored for slot `s` through the positions from the write head on.
    pub closed spec fn pending_value(&self, n: int, s: int) -> T {
        let h = self.head();
        if h <= s < h + n {
            self.ring.elems()[s]
        } else {
            self.ring.elems()[s + self.capacity]
        }
    }

    /// Well-formed, except that the copies of the slots reached by the next `n` positions
    /// from the write head may disagree.
    pub closed spec fn wf_pending(&self, n: int) -> bool {
        &&& 0 <= n <= self.capacity
        &&& 0 < self.capacity <= usize::MAX / 4
        &&& is_pow2(self.capacity)
        &&& self.mask == self.capacity - 1
        &&& self.ring.elems().len() == 2 * self.capacity
        &&& forall|s: int| 0 <= s < self.capacity && !self.pending_slot(n, s)
            ==> #[trigger] self.ring.elems()[s] == self.ring.elems()[s + self.capacity]
        &&& self.gaps.wf()
        &&& self.gaps@.len() == self.capacity
    }

    pub proof fn lemma_wf_pending(&self, n: int)
        requires
            self.wf(),
            0 <= n <= self.cap(),
        ensures
            self.wf_pending(n),
    {
    }

    /// Syncs the mirror over the `written_phys` positions after the write head, clears their gap
    /// marks, and moves the write head `advance` positions on.
    pub fn write_commit_advance(&mut self, written_phys: usize, advance: usize)
        requires
            old(self).wf_pending(written_phys as int),
            old(self).written() + advance <= usize::MAX,
        ensures
            final(self).wf(),
            final(self).written() == old(self).written() + advance,
            final(self).consumed() == old(self).consumed(),
            final(self).cap() == old(self).cap(),
            forall|t: int| #![trigger final(self).label(t)] t >= 0 ==> final(self).label(t) == if old(self).pending_slot(
                written_phys as int,
                t % (old(self).cap() as int),
            ) {
                Some(old(self).pending_value(written_phys as int, t % (old(self).cap() as int)))
            } else {
                old(self).label(t)
            },
    {
        let cap = self.capacity;
        let old_head = self.write_head;
        let head = self.logical_to_ring_index(old_head);
        let ghost old_self = *self;

        if written_phys > 0 {
            self.ring.sync_mirror_range(cap, head, written_phys);
        }

        let first_len = if cap - head < written_phys { cap - head } else { written_phys };
        let second_len = written_phys - first_len;
        let ghost g0 = self.gaps@;
        self.gaps.unmark_region(head, first_len);
        self.gaps.unmark_region(0, second_len);
        self.write_head = self.write_head + advance;

        proof {
            let c = cap as int;
            let h = head as int;
            let n = written_phys as int;
            assert forall|s: int| 0 <= s < c implies #[trigger] self.ring.elems()[s] == self.ring.elems()[s + c]
                && self.ring.elems()[s] == (if old_self.pending_slot(n, s) { old_self.pending_value(n, s) } else { old_self.ring.elems()[s] })
                && self.gaps@[s] == (if old_self.pending_slot(n, s) { false } else { g0[s] }) by {
                if written_phys == 0 {
                    assert(!old_self.pending_slot(n, s));
                }
            }
            assert forall|t: int| #![trigger self.label(t)] t >= 0 implies self.label(t) == if old_self.pending_slot(n, t % c) {
                Some(old_self.pending_value(n, t % c))
            } else {
                old_self.label(t)
            } by {
                let s = t % c;
                assert(0 <= s < c);
                assert(self.ring.elems()[s] == (if old_self.pending_slot(n, s) { old_self.pending_value(n, s) } else { old_self.ring.elems()[s] }));
                assert(self.gaps@[s] == (if old_self.pending_slot(n, s) { false } else { g0[s] }));
            }
        }
    }

    #[inline]
    pub fn write_commit(&mut self, written: usize)
        requires
            old(self).wf_pending(written as int),
            old(self).written() + written <= usize::MAX,
        ensures
            final(self).wf(),
            final(self).written() == old(self).written() + written,
            final(self).consumed() == old(self).consumed(),
            final(self).cap() == old(self).cap(),
            forall|t: int| #![trigger final(self).label(t)] t >= 0 ==> final(self).label(t) == if old(self).pending_slot(
                written as int,
                t % (old(self).cap() as int),
            ) {
                Some(old(self).pending_value(written as int, t % (old(self).cap() as int)))
            } else {
                old(self).label(t)
            },
    {
        self.write_commit_advance(written, written)
    }
}

impl<T: Copy + Default> RingBuffer<T> {
    /// `self` is `before` with the timeline moved `size` positions on without samples: the
    /// last `cap()` of them are gaps, the older positions within a capacity of the writer
    /// kept their labels.
    pub open spec fn skipped(&self, before: &Self, size: nat) -> bool {
        &&& self.written() == before.written() + size
        &&& self.consumed() == before.consumed()
        &&& self.cap() == before.cap()
        &&& forall|t: int|
            self.written() - min_int(size as int, before.cap() as int) <= t < self.written() ==> #[trigger] self.label(t) is None
        &&& forall|t: int|
            0 <= t && self.written() - before.cap() <= t < self.written() - min_int(size as int, before.cap() as int)
                ==> #[trigger] self.label(t) == before.label(t)
    }
}

impl<T: Copy + Default> RingBuffer<T> {
    /// `self` is `before` with `input` appended to the timeline: the writer moved by the
    /// input's length, the last `cap()` input samples sit at their timeline positions, the
    /// older positions within a capacity of the writer kept their labels.
    pub open spec fn appended(&self, before: &Self, input: Seq<T>) -> bool {
        &&& self.written() == before.written() + input.len()
        &&& self.consumed() == before.consumed()
        &&& self.cap() == before.cap()
        &&& forall|t: int|
            self.written() - min_int(input.len() as int, before.cap() as int) <= t < self.written()
                ==> #[trigger] self.label(t) == Some(input[t - before.written()])
        &&& forall|t: int|
            0 <= t && self.written() - before.cap() <= t < self.written() - min_int(input.len() as int, before.cap() as int)
                ==> #[trigger] self.label(t) == before.label(t)
    }
}

impl<T: Copy + Default> RingBuffer<T> {
    /// Appends `input` to the timeline. Only the last `cap()` samples can be kept; when the
    /// input is longer, the earlier ones are dropped and the report says how many were stored.
    pub fn write(&mut self, input: &[T]) -> (r: WriteReport)
        requires
            old(self).wf(),
            old(self).written() + input@.len() <= usize::MAX,
        ensures
            final(self).wf(),
            final(self).appended(old(self), input@),
            r == if input@.len() <= old(self).cap() {
                WriteReport::Complete
            } else {
                WriteReport::Partial { written: old(self).cap() as usize }
            },
    {
        let cap = self.capacity;
        let total = input.len();
        if total == 0 {
            return WriteReport::Complete;
        }

        let phys = if total < cap { total } else { cap };
        let src_start = total - phys;
        let head = self.logical_to_ring_index(self.write_head);
        let e = src_start % cap;
        let ghost old_self = *self;
        let ghost c = cap as int;
        let ghost h = head as int;

        proof {
            if phys < cap {
                vstd::arithmetic::div_mod::lemma_small_mod(0, cap as nat);
            }
            vstd::arithmetic::div_mod::lemma_small_mod(0, cap as nat);
        }
        let mut k: usize = 0;
        while k < phys
            invariant
                0 <= k <= phys,
                phys <= cap,
                phys == total || phys == cap,
                src_start == total - phys,
                total == input@.len(),
                e == src_start % cap,
                e < cap,
                phys < cap ==> e == 0,
                c == cap,
                h == head,
                head < cap,
                cap == self.capacity,
                self.capacity == old_self.capacity,
                self.mask == old_self.mask,
                self.gaps == old_self.gaps,
                self.write_head == old_self.write_head,
                self.read_head == old_self.read_head,
                old_self.wf(),
                self.ring.elems().len() == 2 * c,
                forall|d: int| 0 <= d < c ==> #[trigger] self.ring.elems()[h + d] == if (d >= e && d - e < k) || (d < e && d + c - e < k) {
                    input@[src_start + (if d >= e { d - e } else { d + c - e })]
                } else {
                    old_self.ring.elems()[h + d]
                },
                forall|q: int| 0 <= q < 2 * c && !(h <= q < h + c) ==> #[trigger] self.ring.elems()[q] == old_self.ring.elems()[q],
            decreases phys - k,
        {
            let q = if e + k < cap { head + e + k } else { head + e + k - cap };
            self.ring.set(q, input[src_start + k]);
            k = k + 1;
        }

        proof {
            assert(self.wf_pending(phys as int)) by {
                assert forall|s: int| 0 <= s < c && !self.pending_slot(phys as int, s)
                    implies #[trigger] self.ring.elems()[s] == self.ring.elems()[s + c] by {
                    assert(old_self.ring.elems()[s] == old_self.ring.elems()[s + c]);
                    if s >= h {
                        assert(self.ring.elems()[h + (s - h)] == old_self.ring.elems()[h + (s - h)]);
                    } else {
                        assert(self.ring.elems()[h + (s + c - h)] == old_self.ring.elems()[h + (s + c - h)]);
                    }
                }
            }
        }
        let ghost mid = *self;
        self.write_commit_advance(phys, total);
        proof {
            let w = old_self.write_head as int;
            let n = phys as int;
            assert forall|t: int| w + total - n <= t < w + total implies #[trigger] self.label(t) == Some(input@[t - w]) by {
                let kk = t - (w + total - n);
                let dd = if e + kk < c { e + kk } else { e + kk - c };
                assert(0 <= dd < c);
                lemma_phys_pos(w, t, c);
                vstd::arithmetic::div_mod::lemma_add_mod_noop(src_start as int, kk, c);
                vstd::arithmetic::div_mod::lemma_mod_add_multiples_vanish(dd, c);
                vstd::arithmetic::div_mod::lemma_small_mod(dd as nat, c as nat);
                lemma_phys_pos(w, w + dd, c);
                assert((t - w) % c == dd) by {
                    assert(t - w == src_start + kk);
                    vstd::arithmetic::div_mod::lemma_small_mod(e as nat, c as nat);
                    vstd::arithmetic::div_mod::lemma_add_mod_noop(e as int, kk, c);
                    if kk < c {
                        vstd::arithmetic::div_mod::lemma_small_mod(kk as nat, c as nat);
                    }
                    if e + kk >= c {
                        vstd::arithmetic::div_mod::lemma_mod_add_multiples_vanish(e + kk - c, c);
                        vstd::arithmetic::div_mod::lemma_small_mod((e + kk - c) as nat, c as nat);
                    } else {
                        vstd::arithmetic::div_mod::lemma_small_mod((e + kk) as nat, c as nat);
                    }
                }
                let p = h + dd;
                lemma_mod_small(p, c);
                assert(p % c == t % c);
                assert(mid.ring.elems()[h + dd] == input@[src_start + kk]);
                assert(mid.pending_slot(n, t % c));
            }
            assert forall|t: int| 0 <= t && w + total - c <= t < w + total - n implies #[trigger] self.label(t) == old_self.label(t) by {
                assert(n == total);
                assert(e == 0);
                let dd = t - w + c;
                assert(0 <= dd < c);
                lemma_phys_pos(w, w + dd, c);
                vstd::arithmetic::div_mod::lemma_mod_add_multiples_vanish(t, c);
                assert((w + dd) % c == t % c);
                vstd::arithmetic::div_mod::lemma_small_mod(dd as nat, c as nat);
                let p = h + dd;
                lemma_mod_small(p, c);
                assert(!mid.pending_slot(n, t % c));
                assert(mid.ring.elems()[t % c] == old_self.ring.elems()[t % c]) by {
                    if t % c >= h {
                        assert(mid.ring.elems()[h + (t % c - h)] == old_self.ring.elems()[h + (t % c - h)]);
                    }
                }
            }
        }

        if phys < total {
            WriteReport::Partial { written: phys }
        } else {
            WriteReport::Complete
        }
    }
}

impl<T: Copy + Default> RingBuffer<T> {
    /// Appends `repeat` default samples to the timeline (only the last `cap()` are stored).
    pub fn write_default(&mut self, repeat: usize)
        requires
            old(self).wf(),
            old(self).written() + repeat <= usize::MAX,
        ensures
            final(self).wf(),
            final(self).written() == old(self).written() + repeat,
            final(self).consumed() == old(self).consumed(),
            final(self).cap() == old(self).cap(),
            exists|d: T| #![trigger call_ensures(T::default, (), d)]
                call_ensures(T::default, (), d) && forall|t: int|
                final(self).written() - min_int(repeat as int, old(self).cap() as int) <= t < final(self).written()
                    ==> #[trigger] final(self).label(t) == Some(d),
            forall|t: int|
                0 <= t && final(self).written() - old(self).cap() <= t < final(self).written() - min_int(repeat as int, old(self).cap() as int)
                    ==> #[trigger] final(self).label(t) == old(self).label(t),
    {
        let d = T::default();
        if repeat == 0 {
            assert(call_ensures(T::default, (), d));
            return;
        }
        let cap = self.capacity;
        let written_phys = if repeat < cap { repeat } else { cap };
        let head = self.logical_to_ring_index(self.write_head);
        let ghost old_self = *self;
        let ghost c = cap as int;
        let ghost h = head as int;

        let mut k: usize = 0;
        while k < written_phys
            invariant
                0 <= k <= written_phys,
                written_phys <= cap,
                c == cap,
                h == head,
                head < cap,
                cap == self.capacity,
                self.capacity == old_self.capacity,
                self.mask == old_self.mask,
                self.gaps == old_self.gaps,
                self.write_head == old_self.write_head,
                self.read_head == old_self.read_head,
                old_self.wf(),
                self.ring.elems().len() == 2 * c,
                forall|q: int| 0 <= q < 2 * c ==> #[trigger] self.ring.elems()[q] == if h <= q < h + k { d } else { old_self.ring.elems()[q] },
            decreases written_phys - k,
        {
            self.ring.set(head + k, d);
            k = k + 1;
        }

        let ghost mid = *self;
        self.write_commit_advance(written_phys, repeat);
        proof {
            let w = old_self.write_head as int;
            let n = written_phys as int;
            assert forall|t: int| w + repeat - n <= t < w + repeat implies #[trigger] self.label(t) == Some(d) by {
                let dd = t - (w + repeat - n);
                assert(0 <= dd < n);
                assert(mid.pending_slot(n, t % c)) by {
                    if n == c {
                        assert(0 <= t % c < c);
                    } else {
                        lemma_phys_pos(w, t, c);
                        vstd::arithmetic::div_mod::lemma_small_mod((t - w) as nat, c as nat);
                        lemma_mod_small(h + (t - w), c);
                    }
                }
            }
            assert forall|t: int| 0 <= t && w + repeat - c <= t < w + repeat - n implies #[trigger] self.label(t) == old_self.label(t) by {
                assert(n == repeat);
                let dd = t - w + c;
                assert(0 <= dd < c);
                lemma_phys_pos(w, w + dd, c);
                vstd::arithmetic::div_mod::lemma_mod_add_multiples_vanish(t, c);
                vstd::arithmetic::div_mod::lemma_small_mod(dd as nat, c as nat);
                lemma_mod_small(h + dd, c);
                assert(!mid.pending_slot(n, t % c));
            }
            assert(call_ensures(T::default, (), d));
        }
    }

    /// Moves the timeline `size` positions on without samples: the positions become a gap
    /// (the last `cap()` of them are remembered as such).
    pub fn advance_timeline(&mut self, size: usize)
        requires
            old(self).wf(),
            old(self).written() + size <= usize::MAX,
        ensures
            final(self).wf(),
            final(self).skipped(old(self), size as nat),
    {
        let cap = self.capacity;
        if size == 0 {
            return;
        }

        let mark = if size < cap { size } else { cap };
        let write_head = self.write_head;
        let start = self.logical_to_ring_index(write_head);
        let ghost old_self = *self;

        let first_len = if cap - start < mark { cap - start } else { mark };
        let second_len = mark - first_len;

        self.gaps.mark_region(start, first_len);
        self.gaps.mark_region(0, second_len);

        let ghost mid = *self;
        proof {
            mid.lemma_wf_pending(0);
        }
        self.write_commit_advance(0, size);
        proof {
            let c = cap as int;
            let h = start as int;
            let w = old_self.write_head as int;
            assert forall|t: int| w + size - mark <= t < w + size implies #[trigger] self.label(t) is None by {
                assert(!mid.pending_slot(0, t % c));
                if mark == c {
                    assert(0 <= t % c < c);
                } else {
                    lemma_phys_pos(w, t, c);
                    vstd::arithmetic::div_mod::lemma_small_mod((t - w) as nat, c as nat);
                    lemma_mod_small(h + (t - w), c);
                }
                assert(mid.gaps@[t % c]);
            }
            assert forall|t: int| 0 <= t && w + size - c <= t < w + size - mark implies #[trigger] self.label(t) == old_self.label(t) by {
                assert(!mid.pending_slot(0, t % c));
                let dd = t - w + c;
                assert(0 <= dd < c);
                lemma_phys_pos(w, w + dd, c);
                vstd::arithmetic::div_mod::lemma_mod_add_multiples_vanish(t, c);
                vstd::arithmetic::div_mod::lemma_small_mod(dd as nat, c as nat);
                lemma_mod_small(h + dd, c);
                assert(mid.gaps@[t % c] == old_self.gaps@[t % c]);
            }
        }
    }
}

/// A segment before its samples are borrowed: data as a start slot and a length.
enum SegDesc {
    Data(usize, usize),
    Gap(usize),
    Overflow(usize),
    Underflow(usize),
}

/// A gap search over the timeline positions `[start, start + len)` of `buf`.
pub open spec fn timeline_gap_result<T: Copy + Default>(buf: RingBuffer<T>, start: int, len: int, r: Option<(usize, usize)>) -> bool {
    match r {
        None => forall|t: int| start <= t < start + len ==> #[trigger] buf.label(t) is Some,
        Some((g, n)) => {
            &&& start <= g
            &&& n >= 1
            &&& g + n <= start + len
            &&& forall|t: int| start <= t < g ==> #[trigger] buf.label(t) is Some
            &&& forall|t: int| g <= t < g + n ==> #[trigger] buf.label(t) is None
            &&& (g + n == start + len || buf.label(g + n) is Some)
        },
    }
}

/// The positions a described segment stands for, given the ring's slots.
spec fn desc_labels<T>(elems: Seq<T>, d: SegDesc) -> Seq<Option<T>> {
    match d {
        SegDesc::Data(h, l) => Seq::new(l as nat, |k: int| Some(elems[h + k])),
        SegDesc::Gap(n) => Seq::new(n as nat, |i: int| None),
        _ => Seq::empty(),
    }
}

spec fn flatten_descs<T>(elems: Seq<T>, ds: Seq<SegDesc>) -> Seq<Option<T>>
    decreases ds.len(),
{
    if ds.len() == 0 {
        Seq::empty()
    } else {
        flatten_descs(elems, ds.drop_last()) + desc_labels(elems, ds.last())
    }
}

spec fn desc_len(d: SegDesc) -> nat {
    match d {
        SegDesc::Data(_, l) => l as nat,
        SegDesc::Gap(n) => n as nat,
        SegDesc::Overflow(n) => n as nat,
        SegDesc::Underflow(n) => n as nat,
    }
}

/// Nonempty data and gap descriptions, alternating in kind, with data inside `2 * cap` slots.
spec fn descs_are_runs(ds: Seq<SegDesc>, cap: int) -> bool {
    &&& forall|i: int| 0 <= i < ds.len() ==> (#[trigger] ds[i] is Data || ds[i] is Gap) && desc_len(ds[i]) > 0
    &&& forall|i: int| 0 <= i < ds.len() ==> (#[trigger] ds[i] matches SegDesc::Data(h, l) ==> h + l <= 2 * cap)
    &&& forall|i: int| 0 <= i < ds.len() - 1 ==> (#[trigger] ds[i] is Data) != (ds[i + 1] is Data)
}

/// Segment `seg` carries what `d` describes.
spec fn seg_matches<'a, T>(elems: Seq<T>, seg: RingSegment<'a, T>, d: SegDesc) -> bool {
    match d {
        SegDesc::Data(h, l) => match seg {
            RingSegment::Data(x) => x@ == elems.subrange(h as int, h + l),
            _ => false,
        },
        SegDesc::Gap(n) => seg == RingSegment::<'a, T>::Gap(n),
        SegDesc::Overflow(n) => seg == RingSegment::<'a, T>::Overflow(n),
        SegDesc::Underflow(n) => seg == RingSegment::<'a, T>::Underflow(n),
    }
}

proof fn lemma_flatten_matches<'a, T>(elems: Seq<T>, segs: Seq<RingSegment<'a, T>>, ds: Seq<SegDesc>)
    requires
        segs.len() == ds.len(),
        forall|i: int| 0 <= i < ds.len() ==> seg_matches(elems, #[trigger] segs[i], ds[i]),
        forall|i: int| 0 <= i < ds.len() ==> (#[trigger] ds[i] matches SegDesc::Data(h, l) ==> h + l <= elems.len()),
    ensures
        flatten_segments(segs) == flatten_descs(elems, ds),
    decreases ds.len(),
{
    if ds.len() > 0 {
        lemma_flatten_matches(elems, segs.drop_last(), ds.drop_last());
        assert(seg_matches(elems, segs[segs.len() - 1], ds[ds.len() - 1]));
        assert(segment_labels(segs.last()) =~= desc_labels(elems, ds.last()));
    }
}

proof fn lemma_flatten_push<T>(elems: Seq<T>, ds: Seq<SegDesc>, d: SegDesc)
    ensures
        flatten_descs(elems, ds.push(d)) == flatten_descs(elems, ds) + desc_labels(elems, d),
{
    assert(ds.push(d).drop_last() =~= ds);
}

/// Pushing a description that continues the runs keeps them runs.
proof fn lemma_runs_push(before: Seq<SegDesc>, d: SegDesc, cap: int)
    requires
        descs_are_runs(before, cap),
        d is Data || d is Gap,
        desc_len(d) > 0,
        d matches SegDesc::Data(h, l) ==> h + l <= 2 * cap,
        before.len() > 0 ==> (before.last() is Data) != (d is Data),
    ensures
        descs_are_runs(before.push(d), cap),
{
    let after = before.push(d);
    assert forall|i: int| 0 <= i < after.len() - 1 implies (#[trigger] after[i] is Data) != (after[i + 1] is Data) by {
        if i < before.len() - 1 {
            assert(after[i] == before[i]);
            assert(after[i + 1] == before[i + 1]);
        }
    }
    assert forall|i: int| 0 <= i < after.len() implies (#[trigger] after[i] is Data || after[i] is Gap) && desc_len(after[i]) > 0 by {
        if i < before.len() {
            assert(after[i] == before[i]);
        }
    }
    assert forall|i: int| 0 <= i < after.len() implies (#[trigger] after[i] matches SegDesc::Data(h, l) ==> h + l <= 2 * cap) by {
        if i < before.len() {
            assert(after[i] == before[i]);
        }
    }
}

impl<T: Copy + Default> RingBuffer<T> {
    proof fn lemma_push_data(
        &self,
        before: Seq<SegDesc>,
        window: Seq<Option<T>>,
        cursor: int,
        processed: int,
        head: int,
        data_len: int,
    )
        requires
            self.wf(),
            0 <= cursor,
            0 <= processed,
            1 <= data_len <= self.cap(),
            processed + data_len <= window.len(),
            head == (cursor + processed) % (self.cap() as int),
            forall|k: int| 0 <= k < window.len() ==> #[trigger] window[k] == self.label(cursor + k),
            forall|t: int| cursor + processed <= t < cursor + processed + data_len ==> #[trigger] self.label(t) is Some,
            descs_are_runs(before, self.cap() as int),
            flatten_descs(self.ring.elems(), before) == window.subrange(0, processed),
            processed < window.len() && before.len() > 0 ==> (before.last() is Data) == (self.label(cursor + processed) is None),
        ensures
            descs_are_runs(before.push(SegDesc::Data(head as usize, data_len as usize)), self.cap() as int),
            flatten_descs(self.ring.elems(), before.push(SegDesc::Data(head as usize, data_len as usize)))
                == window.subrange(0, processed + data_len),
    {
        let c = self.cap() as int;
        let elems = self.ring.elems();
        let d = SegDesc::Data(head as usize, data_len as usize);
        assert(0 <= head < c);
        lemma_flatten_push(elems, before, d);
        assert(desc_labels(elems, d) =~= window.subrange(processed, processed + data_len)) by {
            assert forall|k: int| 0 <= k < data_len implies #[trigger] desc_labels(elems, d)[k] == window.subrange(processed, processed + data_len)[k] by {
                let t = cursor + processed + k;
                lemma_phys_pos(cursor + processed, t, c);
                vstd::arithmetic::div_mod::lemma_small_mod(k as nat, c as nat);
                lemma_mod_small(head + k, c);
                assert(self.label(t) is Some);
                assert(window[processed + k] == self.label(t));
                let s = t % c;
                assert(0 <= s < c);
                assert(elems[s] == elems[s + c]);
            }
        }
        assert(window.subrange(0, processed + data_len) =~= window.subrange(0, processed) + window.subrange(processed, processed + data_len));
        if before.len() > 0 {
            assert(self.label(cursor + processed) is Some);
        }
        lemma_runs_push(before, d, c);
    }

    proof fn lemma_push_gap(
        &self,
        before: Seq<SegDesc>,
        window: Seq<Option<T>>,
        cursor: int,
        processed: int,
        take: int,
    )
        requires
            self.wf(),
            0 <= cursor,
            0 <= processed,
            1 <= take <= self.cap(),
            processed + take <= window.len(),
            forall|k: int| 0 <= k < window.len() ==> #[trigger] window[k] == self.label(cursor + k),
            forall|t: int| cursor + processed <= t < cursor + processed + take ==> #[trigger] self.label(t) is None,
            descs_are_runs(before, self.cap() as int),
            flatten_descs(self.ring.elems(), before) == window.subrange(0, processed),
            processed < window.len() && before.len() > 0 ==> (before.last() is Data) == (self.label(cursor + processed) is None),
        ensures
            descs_are_runs(before.push(SegDesc::Gap(take as usize)), self.cap() as int),
            flatten_descs(self.ring.elems(), before.push(SegDesc::Gap(take as usize)))
                == window.subrange(0, processed + take),
    {
        let elems = self.ring.elems();
        let d = SegDesc::Gap(take as usize);
        lemma_flatten_push(elems, before, d);
        assert(desc_labels(elems, d) =~= window.subrange(processed, processed + take)) by {
            assert forall|k: int| 0 <= k < take implies #[trigger] desc_labels(elems, d)[k] == window.subrange(processed, processed + take)[k] by {
                assert(self.label(cursor + processed + k) is None);
                assert(window[processed + k] == self.label(cursor + processed + k));
            }
        }
        assert(window.subrange(0, processed + take) =~= window.subrange(0, processed) + window.subrange(processed, processed + take));
        if before.len() > 0 {
            assert(self.label(cursor + processed) is None);
        }
        lemma_runs_push(before, d, self.cap() as int);
    }

    /// Gap search over timeline positions, across the wrap of the ring.
    fn search_gap_abs(&mut self, start_abs: usize, len: usize) -> (r: Option<(usize, usize)>)
        requires
            old(self).wf(),
            len <= old(self).cap(),
            start_abs + len <= usize::MAX,
        ensures
            *final(self) == *old(self),
            timeline_gap_result(*old(self), start_abs as int, len as int, r),
    {
        if len == 0 {
            return None;
        }
        let cap = self.capacity;
        let ghost c = cap as int;
        let ghost sa = start_abs as int;
        let start = self.logical_to_ring_index(start_abs);
        let first_len = if len < cap - start { len } else { cap - start };
        let ghost st = start as int;

        proof {
            assert forall|t: int| sa <= t < sa + len implies #[trigger] (t % c) == if t - sa < c - st { st + (t - sa) } else { t - sa - (c - st) } by {
                lemma_phys_pos(sa, t, c);
                vstd::arithmetic::div_mod::lemma_small_mod((t - sa) as nat, c as nat);
                lemma_mod_small(st + (t - sa), c);
            }
        }

        let r1 = self.gaps.search_next_gap(start, first_len);
        if let Some((gap_start_mod, gap_len0)) = r1 {
            let mut gap_len = gap_len0;
            let abs_start = start_abs + (gap_start_mod - start);

            if gap_start_mod + gap_len == cap && len > first_len {
                let r2 = self.gaps.search_next_gap(0, len - first_len);
                if let Some((gap2_start, gap2_len)) = r2 {
                    if gap2_start == 0 {
                        gap_len = gap_len + gap2_len;
                    }
                }
                proof {
                    assert(self.label(abs_start + gap_len0) is Some ==> !(r2 matches Some((g2s, _)) && g2s == 0));
                }
            }
            proof {
                assert forall|t: int| sa <= t < abs_start implies #[trigger] self.label(t) is Some by {
                    assert(!self.gaps@[t % c]);
                }
                assert forall|t: int| abs_start <= t < abs_start + gap_len implies #[trigger] self.label(t) is None by {
                    assert(self.gaps@[t % c]);
                }
                if abs_start + gap_len < sa + len {
                    let t = abs_start + gap_len;
                    assert(!self.gaps@[t % c]);
                }
            }
            return Some((abs_start, gap_len));
        }

        if len > first_len {
            let r2 = self.gaps.search_next_gap(0, len - first_len);
            if let Some((gap_start_mod, gap_len)) = r2 {
                let abs_start = start_abs + first_len + gap_start_mod;
                proof {
                    assert forall|t: int| sa <= t < abs_start implies #[trigger] self.label(t) is Some by {
                        assert(!self.gaps@[t % c]);
                    }
                    assert forall|t: int| abs_start <= t < abs_start + gap_len implies #[trigger] self.label(t) is None by {
                        assert(self.gaps@[t % c]);
                    }
                    if abs_start + gap_len < sa + len {
                        let t = abs_start + gap_len;
                        assert(!self.gaps@[t % c]);
                    }
                }
                return Some((abs_start, gap_len));
            }
        }

        proof {
            assert forall|t: int| sa <= t < sa + len implies #[trigger] self.label(t) is Some by {
                assert(!self.gaps@[t % c]);
            }
        }
        None
    }
}

impl<T: Copy + Default> RingBuffer<T> {
    /// Positions of a read of `requested` that were lost to overflow.
    pub open spec fn read_overflow(&self, requested: int) -> int {
        min_int(self.lost(), requested)
    }

    /// Timeline position where the readable part of the read starts.
    pub open spec fn read_cursor(&self, requested: int) -> int {
        self.consumed() + self.read_overflow(requested)
    }

    /// Positions of the read that the ring can serve (samples or gaps).
    pub open spec fn read_available(&self, requested: int) -> int {
        min_int(
            min_int(sat_sub(self.written() as int, self.read_cursor(requested)), self.cap() as int),
            requested - self.read_overflow(requested),
        )
    }

    /// Positions of the read that nothing was written for yet.
    pub open spec fn read_missing(&self, requested: int) -> int {
        requested - self.read_overflow(requested) - self.read_available(requested)
    }

    /// What the ring holds for the readable part of a read.
    pub open spec fn read_window(&self, requested: int) -> Seq<Option<T>> {
        Seq::new(self.read_available(requested) as nat, |k: int| self.label(self.read_cursor(requested) + k))
    }

    /// Splits the timeline positions `[cursor, cursor + readable)` into maximal runs of samples
    /// and gaps.
    fn plan_runs(&mut self, cursor: usize, readable: usize) -> (ds: Vec<SegDesc>)
        requires
            old(self).wf(),
            readable <= old(self).cap(),
            cursor + readable <= usize::MAX,
        ensures
            *final(self) == *old(self),
            descs_are_runs(ds@, old(self).cap() as int),
            flatten_descs(old(self).ring.elems(), ds@) == Seq::new(readable as nat, |k: int| old(self).label(cursor + k)),
    {
        let ghost old_self = *self;
        let ghost window = Seq::new(readable as nat, |k: int| self.label(cursor + k));
        let mut ds: Vec<SegDesc> = Vec::new();
        let mut processed: usize = 0;
        while processed < readable
            invariant
                self.wf(),
                *self == old_self,
                readable <= self.cap(),
                cursor + readable <= usize::MAX,
                window.len() == readable,
                forall|k: int| 0 <= k < readable ==> #[trigger] window[k] == self.label(cursor + k),
                processed <= readable,
                descs_are_runs(ds@, self.cap() as int),
                flatten_descs(self.ring.elems(), ds@) == window.subrange(0, processed as int),
                processed < readable && ds@.len() > 0 ==> (ds@.last() is Data) == (self.label(cursor + processed) is None),
            decreases readable - processed,
        {
            let span_len = readable - processed;
            let abs = cursor + processed;
            let ghost before = ds@;
            let found = self.search_gap_abs(abs, span_len);
            match found {
                Some((gap_start, gap_len)) => {
                    if gap_start > abs {
                        let data_len = gap_start - abs;
                        let head = self.logical_to_ring_index(abs);
                        proof {
                            self.lemma_push_data(before, window, cursor as int, processed as int, head as int, data_len as int);
                        }
                        ds.push(SegDesc::Data(head, data_len));
                        processed = processed + data_len;
                        proof {
                            assert(self.label(gap_start as int) is None);
                        }
                    } else {
                        let take = if gap_len < span_len { gap_len } else { span_len };
                        proof {
                            self.lemma_push_gap(before, window, cursor as int, processed as int, take as int);
                        }
                        ds.push(SegDesc::Gap(take));
                        processed = processed + take;
                    }
                },
                None => {
                    let head = self.logical_to_ring_index(abs);
                    proof {
                        self.lemma_push_data(before, window, cursor as int, processed as int, head as int, span_len as int);
                    }
                    ds.push(SegDesc::Data(head, span_len));
                    processed = readable;
                },
            }
        }
        proof {
            assert(window.subrange(0, processed as int) =~= window);
        }
        ds
    }

    /// Borrows the samples of each described run from the ring and appends the segments to `out`.
    fn runs_to_segments<'a>(&'a self, runs: &Vec<SegDesc>, out: Vec<RingSegment<'a, T>>) -> (r: Vec<RingSegment<'a, T>>)
        requires
            self.wf(),
            descs_are_runs(runs@, self.cap() as int),
        ensures
            r@.len() == out@.len() + runs@.len(),
            r@.subrange(0, out@.len() as int) == out@,
            maximal_runs(r@.subrange(out@.len() as int, r@.len() as int), flatten_descs(self.ring.elems(), runs@)),
    {
        let ring = self.ring.as_slice();
        let mut segs: Vec<RingSegment<'a, T>> = Vec::new();
        let mut i: usize = 0;
        while i < runs.len()
            invariant
                self.wf(),
                i <= runs@.len(),
                segs@.len() == i,
                ring@ == self.ring.elems(),
                ring@.len() == 2 * self.cap(),
                descs_are_runs(runs@, self.cap() as int),
                forall|j: int| 0 <= j < i ==> seg_matches(self.ring.elems(), #[trigger] segs@[j], runs@[j]),
            decreases runs@.len() - i,
        {
            let seg = match runs[i] {
                SegDesc::Data(h, l) => {
                    assert(runs@[i as int] matches SegDesc::Data(hh, ll) ==> hh + ll <= 2 * self.cap());
                    RingSegment::Data(&ring[h..h + l])
                },
                SegDesc::Gap(n) => RingSegment::Gap(n),
                SegDesc::Overflow(n) => RingSegment::Overflow(n),
                SegDesc::Underflow(n) => RingSegment::Underflow(n),
            };
            segs.push(seg);
            i = i + 1;
        }
        proof {
            let elems = self.ring.elems();
            lemma_flatten_matches(elems, segs@, runs@);
            assert forall|j: int| 0 <= j < segs@.len() implies (#[trigger] segs@[j] is Data || segs@[j] is Gap)
                && segs@[j].spec_len() > 0 by {
                assert(seg_matches(elems, segs@[j], runs@[j]));
            }
            assert forall|j: int| 0 <= j < segs@.len() - 1 implies (#[trigger] segs@[j] is Data) != (segs@[j + 1] is Data) by {
                assert(seg_matches(elems, segs@[j], runs@[j]));
                assert(seg_matches(elems, segs@[j + 1], runs@[j + 1]));
            }
        }
        let ghost segs_view = segs@;
        let mut out = out;
        let ghost out_view = out@;
        out.append(&mut segs);
        proof {
            assert(out@.subrange(0, out_view.len() as int) =~= out_view);
            assert(out@.subrange(out_view.len() as int, out@.len() as int) =~= segs_view);
        }
        out
    }

    /// Reads `requested` positions of the timeline, in order: an `Overflow` for what was lost,
    /// then the readable part as maximal runs of `Data` and `Gap`, then an `Underflow` for what
    /// was not written yet if `emit_underflow`. The reader's timeline moves over all of it,
    /// except over the missing part when that is not emitted.
    pub fn read_segments<'a>(&'a mut self, requested: usize, emit_underflow: bool) -> (r: Vec<RingSegment<'a, T>>)
        requires
            old(self).wf(),
            old(self).consumed() + requested <= usize::MAX,
        ensures
            final(self).wf(),
            final(self).same_contents(old(self)),
            final(self).written() == old(self).written(),
            final(self).consumed() == old(self).consumed() + old(self).read_overflow(requested as int)
                + old(self).read_available(requested as int)
                + if emit_underflow { old(self).read_missing(requested as int) } else { 0 },
            ({
                let ov = old(self).read_overflow(requested as int);
                let miss = emit_underflow && old(self).read_missing(requested as int) > 0;
                let a: int = if ov > 0 { 1 } else { 0 };
                let b: int = r@.len() - if miss { 1int } else { 0 };
                &&& a <= b
                &&& ov > 0 ==> r@[0] == RingSegment::<'a, T>::Overflow(ov as usize)
                &&& miss ==> r@[r@.len() - 1] == RingSegment::<'a, T>::Underflow(old(self).read_missing(requested as int) as usize)
                &&& maximal_runs(r@.subrange(a, b), old(self).read_window(requested as int))
            }),
    {
        let ghost old_self = *self;
        let read = self.read_head;
        let write = self.write_head;
        let cap = self.capacity;

        let a1 = if write > cap { write - cap } else { 0 };
        let lost = if a1 > read { a1 - read } else { 0 };
        let overflow = if lost < requested { lost } else { requested };
        let cursor = read + overflow;
        let a2 = if write > cursor { write - cursor } else { 0 };
        let available_timeline = if a2 < cap { a2 } else { cap };
        let rest = requested - overflow;
        let readable = if available_timeline < rest { available_timeline } else { rest };
        let remaining = rest - readable;

        let runs = self.plan_runs(cursor, readable);
        proof {
            assert(Seq::new(readable as nat, |k: int| old_self.label(cursor + k)) =~= old_self.read_window(requested as int));
        }

        let advance = overflow + readable + if emit_underflow { remaining } else { 0 };
        if advance > 0 {
            self.read_commit(advance);
        }
        let this: &'a Self = self;
        proof {
            this.lemma_same_contents(&old_self);
        }

        let mut out: Vec<RingSegment<'a, T>> = Vec::new();
        if overflow > 0 {
            out.push(RingSegment::Overflow(overflow));
        }
        let ghost pre = out@;
        let mut out = this.runs_to_segments(&runs, out);
        let ghost mid = out@;
        if remaining > 0 && emit_underflow {
            out.push(RingSegment::Underflow(remaining));
        }
        proof {
            let a = pre.len() as int;
            let b = mid.len() as int;
            assert(out@.subrange(a, b) =~= mid.subrange(a, b));
            if overflow > 0 {
                assert(out@[0] == mid.subrange(0, a)[0]);
            }
        }
        out
    }
}


/// Number of positions of `s` that hold a sample.
pub open spec fn count_some<T>(s: Seq<Option<T>>) -> nat
    decreases s.len(),
{
    if s.len() == 0 {
        0
    } else {
        count_some(s.drop_last()) + if s.last() is Some { 1nat } else { 0nat }
    }
}

proof fn lemma_count_some_concat<T>(s1: Seq<Option<T>>, s2: Seq<Option<T>>)
    ensures
        count_some(s1 + s2) == count_some(s1) + count_some(s2),
        count_some(s2) <= s2.len(),
    decreases s2.len(),
{
    if s2.len() > 0 {
        lemma_count_some_concat(s1, s2.drop_last());
        assert((s1 + s2).drop_last() =~= s1 + s2.drop_last());
    } else {
        assert(s1 + s2 =~= s1);
    }
}

proof fn lemma_count_some_all<T>(s: Seq<Option<T>>, all: bool)
    requires
        forall|k: int| 0 <= k < s.len() ==> (#[trigger] s[k] is Some) == all,
    ensures
        count_some(s) == if all { s.len() } else { 0 },
    decreases s.len(),
{
    if s.len() > 0 {
        lemma_count_some_all(s.drop_last(), all);
    }
}

/// Copies `src` into `out` from position `at` on.
fn copy_into<T: Copy>(out: &mut [T], at: usize, src: &[T])
    requires
        at + src@.len() <= old(out)@.len(),
    ensures
        final(out)@.len() == old(out)@.len(),
        forall|k: int| 0 <= k < old(out)@.len() ==> #[trigger] final(out)@[k] == if at <= k < at + src@.len() {
            src@[k - at]
        } else {
            old(out)@[k]
        },
{
    let total = out.len();
    let mut j: usize = 0;
    while j < src.len()
        invariant
            total == out@.len(),
            j <= src@.len(),
            at + src@.len() <= out@.len(),
            out@.len() == old(out)@.len(),
            forall|k: int| 0 <= k < old(out)@.len() ==> #[trigger] out@[k] == if at <= k < at + j {
                src@[k - at]
            } else {
                old(out)@[k]
            },
        decreases src@.len() - j,
    {
        out[at + j] = src[j];
        j = j + 1;
    }
}

proof fn lemma_flatten_concat<'a, T>(s1: Seq<RingSegment<'a, T>>, s2: Seq<RingSegment<'a, T>>)
    ensures
        flatten_segments(s1 + s2) == flatten_segments(s1) + flatten_segments(s2),
    decreases s2.len(),
{
    if s2.len() > 0 {
        lemma_flatten_concat(s1, s2.drop_last());
        assert((s1 + s2).drop_last() =~= s1 + s2.drop_last());
    } else {
        assert(s1 + s2 =~= s1);
    }
}

/// The positions of the first runs are a prefix of the positions of all of them.
proof fn lemma_runs_prefix<'a, T>(rs: Seq<RingSegment<'a, T>>, a: int, b: int, i: int, w: Seq<Option<T>>)
    requires
        0 <= a <= i < b <= rs.len(),
        flatten_segments(rs.subrange(a, b)) == w,
    ensures
        flatten_segments(rs.subrange(a, i + 1)).len() <= w.len(),
        flatten_segments(rs.subrange(a, i + 1)) == w.subrange(0, flatten_segments(rs.subrange(a, i + 1)).len() as int),
{
    lemma_flatten_concat(rs.subrange(a, i + 1), rs.subrange(i + 1, b));
    assert(rs.subrange(a, i + 1) + rs.subrange(i + 1, b) =~= rs.subrange(a, b));
    let f1 = flatten_segments(rs.subrange(a, i + 1));
    assert(w.subrange(0, f1.len() as int) =~= f1);
}

proof fn lemma_flatten_step<'a, T>(segs: Seq<RingSegment<'a, T>>, a: int, i: int)
    requires
        0 <= a <= i < segs.len(),
    ensures
        flatten_segments(segs.subrange(a, i + 1)) == flatten_segments(segs.subrange(a, i)) + segment_labels(segs[i]),
{
    assert(segs.subrange(a, i + 1).drop_last() =~= segs.subrange(a, i));
}

impl<T: Copy + Default> RingBuffer<T> {
    /// Reads `out.len()` positions of the timeline into `out`. Samples land at their offsets;
    /// lost positions at the front, timeline gaps and positions not yet written are left as
    /// they were and reported: lost ones as overflow, the others as underflow.
    #[verifier::rlimit(60)]
    pub fn read(&mut self, out: &mut [T]) -> (r: Result<(), XRunReport>)
        requires
            old(self).wf(),
            old(self).consumed() + old(out)@.len() <= usize::MAX,
        ensures
            final(self).wf(),
            final(self).same_contents(old(self)),
            final(self).written() == old(self).written(),
            final(self).consumed() == old(self).consumed() + old(out)@.len(),
            final(out)@.len() == old(out)@.len(),
            ({
                let n = old(out)@.len() as int;
                let ov = old(self).read_overflow(n);
                let w = old(self).read_window(n);
                forall|k: int| 0 <= k < n ==> #[trigger] final(out)@[k] == if ov <= k < ov + w.len() && w[k - ov] is Some {
                    w[k - ov]->0
                } else {
                    old(out)@[k]
                }
            }),
            ({
                let n = old(out)@.len() as int;
                let ov = old(self).read_overflow(n);
                let w = old(self).read_window(n);
                let under = old(self).read_missing(n) + w.len() - count_some(w);
                r == if ov == 0 && under == 0 {
                    Ok::<(), XRunReport>(())
                } else {
                    Err(XRunReport { overflow: ov as usize, copied: count_some(w) as usize, underflow: under as usize })
                }
            }),
    {
        let requested = out.len();
        let ghost old_self = *self;
        let ghost old_out = out@;
        let ghost n = requested as int;
        let ghost ov = old_self.read_overflow(n);
        let ghost w = old_self.read_window(n);
        let ghost av = w.len() as int;
        let ghost miss = old_self.read_missing(n);
        if requested == 0 {
            proof {
                assert(w.len() == 0);
            }
            return Ok(());
        }

        let segs = self.read_segments(requested, true);
        let ghost rs = segs@;
        let ghost a: int = if ov > 0 { 1 } else { 0 };
        let ghost b: int = rs.len() - if miss > 0 { 1int } else { 0 };
        let nsegs = segs.len();

        let mut overflow: usize = 0;
        let mut copied: usize = 0;
        let mut underflow: usize = 0;
        let mut cursor: usize = 0;
        let mut i: usize = 0;

        if nsegs > 0 {
            if let RingSegment::Overflow(k) = segs[0] {
                overflow = k;
                cursor = k;
                i = 1;
            }
        }
        proof {
            if a == 0 && nsegs > 0 {
                if b > 0 {
                    assert(rs.subrange(a, b)[0] == rs[0]);
                }
            }
            assert(rs.subrange(a, a) =~= Seq::<RingSegment<'_, T>>::empty());
            assert(w.subrange(0, 0) =~= Seq::<Option<T>>::empty());
        }

        while i < nsegs
            invariant
                nsegs == rs.len(),
                segs@ == rs,
                n == requested,
                out@.len() == n,
                0 <= ov && 0 <= av && 0 <= miss,
                ov + av + miss == n,
                av == w.len(),
                a == if ov > 0 { 1int } else { 0 },
                b == rs.len() - if miss > 0 { 1int } else { 0 },
                a <= b,
                ov > 0 ==> rs[0] == RingSegment::<'_, T>::Overflow(ov as usize),
                miss > 0 ==> rs[rs.len() - 1] == RingSegment::<'_, T>::Underflow(miss as usize),
                maximal_runs(rs.subrange(a, b), w),
                a <= i <= nsegs,
                overflow == ov,
                i <= b ==> {
                    &&& ov <= cursor <= ov + av
                    &&& flatten_segments(rs.subrange(a, i as int)) == w.subrange(0, cursor - ov)
                    &&& copied == count_some(w.subrange(0, cursor - ov))
                    &&& underflow == cursor - ov - copied
                },
                i > b ==> {
                    &&& i == nsegs
                    &&& cursor == n
                    &&& copied == count_some(w)
                    &&& underflow == av - copied + miss
                },
                forall|k: int| 0 <= k < n ==> #[trigger] out@[k] == if ov <= k < ov + av && k < cursor && w[k - ov] is Some {
                    w[k - ov]->0
                } else {
                    old_out[k]
                },
            decreases nsegs - i,
        {
            let ghost before = w.subrange(0, cursor - ov);
            proof {
                if i as int == b {
                    assert(rs.subrange(a, b) =~= rs.subrange(a, i as int));
                    assert(before =~= w);
                } else {
                    assert(rs.subrange(a, b)[i - a] == rs[i as int]);
                    lemma_flatten_step(rs, a, i as int);
                    lemma_runs_prefix(rs, a, b, i as int, w);
                }
            }
            match &segs[i] {
                RingSegment::Data(d) => {
                    let len = d.len();
                    let ghost cur0 = cursor;
                    proof {
                        assert(segment_labels(rs[i as int]) =~= d@.map_values(|x: T| Some(x)));
                        let f1 = before + d@.map_values(|x: T| Some(x));
                        assert forall|q: int| 0 <= q < len implies #[trigger] w[cur0 - ov + q] == Some(d@[q]) by {
                            assert(f1[cur0 - ov + q] == Some(d@[q]));
                        }
                    }
                    copy_into(out, cursor, d);
                    proof {
                        assert forall|k: int| 0 <= k < n implies #[trigger] out@[k] == if ov <= k < ov + av && k < cur0 + len && w[k - ov] is Some {
                            w[k - ov]->0
                        } else {
                            old_out[k]
                        } by {
                            if cur0 <= k < cur0 + len {
                                assert(w[cur0 - ov + (k - cur0)] == Some(d@[k - cur0]));
                            }
                        }
                    }
                    proof {
                        lemma_count_some_concat(before, d@.map_values(|x: T| Some(x)));
                        lemma_count_some_all(d@.map_values(|x: T| Some(x)), true);
                    }
                    copied = copied + len;
                    cursor = cursor + len;
                },
                RingSegment::Overflow(k) => {
                    proof {
                        assert(false);
                    }
                    overflow = overflow + *k;
                    cursor = cursor + *k;
                },
                RingSegment::Gap(k) | RingSegment::Underflow(k) => {
                    let ghost cur0 = cursor as int;
                    let ghost kk = *k as int;
                    proof {
                        if (i as int) < b {
                            let holes = Seq::new(*k as nat, |q: int| None::<T>);
                            assert(segment_labels(rs[i as int]) =~= holes);
                            lemma_count_some_concat(before, holes);
                            lemma_count_some_all(holes, false);
                            let f1 = before + holes;
                            assert forall|q: int| 0 <= q < kk implies #[trigger] w[cur0 - ov + q] is None by {
                                assert(f1[cur0 - ov + q] is None);
                            }
                        } else {
                            lemma_count_some_concat(before, Seq::<Option<T>>::empty());
                        }
                        assert forall|p: int| 0 <= p < n implies #[trigger] out@[p] == if ov <= p < ov + av && p < cur0 + kk && w[p - ov] is Some {
                            w[p - ov]->0
                        } else {
                            old_out[p]
                        } by {
                            if cur0 <= p < cur0 + kk && ov <= p < ov + av {
                                assert(w[cur0 - ov + (p - cur0)] is None);
                            }
                        }
                    }
                    underflow = underflow + *k;
                    cursor = cursor + *k;
                },
            }
            i = i + 1;
        }
        proof {
            if i as int <= b {
                assert(rs.subrange(a, b) =~= rs.subrange(a, i as int));
                assert(w.subrange(0, cursor - ov).len() == w.len());
                assert(w.subrange(0, cursor - ov) =~= w);
            }
        }

        if overflow == 0 && underflow == 0 {
            Ok(())
        } else {
            Err(XRunReport { copied, overflow, underflow })
        }
    }
}


impl<T: Copy + Default> RingBuffer<T> {
    /// The lost count and, without consuming anything, the stored samples from the first
    /// position still held on, up to `cap()` of them (gap positions show what their slot holds).
    pub fn readable_slice(&self) -> (r: (usize, &[T]))
        requires
            self.wf(),
        ensures
            r.0 == self.lost(),
            r.1@.len() == min_int(sat_sub(self.written() as int, self.consumed() + self.lost()), self.cap() as int),
            forall|k: int| 0 <= k < r.1@.len() ==> #[trigger] r.1@[k] == self.slot(self.consumed() + self.lost() + k),
    {
        let read = self.read_head;
        let write = self.write_head;
        let a = if write > self.capacity { write - self.capacity } else { 0 };
        let overflow = if a > read { a - read } else { 0 };
        let start = read + overflow;
        let available = if write > start { write - start } else { 0 };
        if available == 0 {
            let empty: &[T] = &[];
            return (overflow, empty);
        }
        let to_read = if available < self.capacity { available } else { self.capacity };
        let head = self.logical_to_ring_index(start);
        let ring = self.ring.as_slice();
        let slice = &ring[head..head + to_read];
        proof {
            let c = self.capacity as int;
            assert forall|k: int| 0 <= k < slice@.len() implies #[trigger] slice@[k] == self.slot(start + k) by {
                lemma_phys_pos(start as int, start + k, c);
                vstd::arithmetic::div_mod::lemma_small_mod(k as nat, c as nat);
                lemma_mod_small(head + k, c);
                let s = (start + k) % c;
                assert(ring@[s] == ring@[s + c]);
            }
        }
        (overflow, slice)
    }
}


impl<T: Copy + Default> RingBuffer<T> {
    /// `self` is `before` after the caller wrote `win` over the `cap()` slots from the write head.
    pub closed spec fn window_written(&self, before: &Self, win: Seq<T>) -> bool {
        let h = before.head();
        let c = before.capacity as int;
        &&& self.capacity == before.capacity
        &&& self.mask == before.mask
        &&& self.gaps == before.gaps
        &&& self.write_head == before.write_head
        &&& self.read_head == before.read_head
        &&& self.ring.elems() == before.ring.elems().subrange(0, h) + win + before.ring.elems().subrange(h + c, 2 * c)
    }

    /// The `cap()` slots from the write head on, for the producer to fill in place before
    /// `write_commit`.
    pub fn writable_slice(&mut self) -> (r: &mut [T])
        requires
            old(self).wf(),
        ensures
            r@.len() == old(self).cap(),
            forall|k: int| 0 <= k < old(self).cap() ==> #[trigger] r@[k] == old(self).slot(old(self).written() + k),
            final(self).window_written(old(self), final(r)@),
    {
        let cap = self.capacity;
        let write = self.write_head;
        let head = self.logical_to_ring_index(write);
        let ghost old_self = *self;
        proof {
            let c = cap as int;
            assert forall|k: int| 0 <= k < c implies #[trigger] old_self.ring.elems()[head + k] == old_self.slot(write + k) by {
                lemma_phys_pos(write as int, write + k, c);
                vstd::arithmetic::div_mod::lemma_small_mod(k as nat, c as nat);
                lemma_mod_small(head + k, c);
                let s = (write + k) % c;
                assert(old_self.ring.elems()[s] == old_self.ring.elems()[s + c]);
            }
        }
        let win = self.ring.window_mut(head, cap);
        proof {
            assert forall|k: int| 0 <= k < cap implies #[trigger] win@[k] == old_self.slot(write + k) by {
                assert(win@[k] == old_self.ring.elems()[head + k]);
            }
        }
        win
    }

    /// After `win` was written over the slots from the write head and only its first `n`
    /// entries changed, the buffer is ready for `write_commit(n)`, which then stores `win[k]`
    /// for position `written() + k` and keeps the rest of the last `cap()` positions.
    pub proof fn lemma_window_commit(&self, before: &Self, win: Seq<T>, n: int)
        requires
            before.wf(),
            self.window_written(before, win),
            win.len() == before.cap(),
            0 <= n <= before.cap(),
            forall|k: int| n <= k < before.cap() ==> #[trigger] win[k] == before.slot(before.written() + k),
        ensures
            self.wf_pending(n),
            self.written() == before.written(),
            self.consumed() == before.consumed(),
            self.cap() == before.cap(),
            forall|t: int| before.written() <= t < before.written() + n ==> self.pending_slot(n, #[trigger] (t % (self.cap() as int)))
                && self.pending_value(n, t % (self.cap() as int)) == win[t - before.written()],
            forall|t: int| 0 <= t && before.written() + n - before.cap() <= t < before.written() ==> !self.pending_slot(n, #[trigger] (t % (self.cap() as int)))
                && self.label(t) == before.label(t),
    {
        let c = self.capacity as int;
        let h = before.head();
        let w = before.write_head as int;
        let e = self.ring.elems();
        let b = before.ring.elems();
        assert(0 <= h < c);
        assert(self.head() == h);
        assert forall|k: int| 0 <= k < c implies #[trigger] b[h + k] == before.slot(w + k) by {
            lemma_phys_pos(w, w + k, c);
            vstd::arithmetic::div_mod::lemma_small_mod(k as nat, c as nat);
            lemma_mod_small(h + k, c);
            let s = (w + k) % c;
            assert(b[s] == b[s + c]);
        }
        assert forall|q: int| 0 <= q < 2 * c implies #[trigger] e[q] == if h <= q < h + c { win[q - h] } else { b[q] } by {
            if q < h {
                assert(e[q] == b.subrange(0, h)[q]);
            } else if q < h + c {
                assert(e[q] == win[q - h]);
            } else {
                assert(e[q] == b.subrange(h + c, 2 * c)[q - h - c]);
            }
        }
        assert forall|s: int| 0 <= s < c && !self.pending_slot(n, s) implies #[trigger] e[s] == e[s + c] by {
            assert(b[s] == b[s + c]);
            if s < h {
                assert(win[s + c - h] == before.slot(w + (s + c - h)));
                assert(b[h + (s + c - h)] == before.slot(w + (s + c - h)));
            } else {
                assert(win[s - h] == before.slot(w + (s - h)));
                assert(b[h + (s - h)] == before.slot(w + (s - h)));
            }
        }
        assert forall|t: int| w <= t < w + n implies self.pending_slot(n, #[trigger] (t % c))
            && self.pending_value(n, t % c) == win[t - w] by {
            let d = t - w;
            lemma_phys_pos(w, t, c);
            vstd::arithmetic::div_mod::lemma_small_mod(d as nat, c as nat);
            lemma_mod_small(h + d, c);
        }
        assert forall|t: int| 0 <= t && w + n - c <= t < w implies !self.pending_slot(n, #[trigger] (t % c))
            && self.label(t) == before.label(t) by {
            let d = t - w + c;
            assert(n <= d < c);
            lemma_phys_pos(w, w + d, c);
            vstd::arithmetic::div_mod::lemma_mod_add_multiples_vanish(t, c);
            vstd::arithmetic::div_mod::lemma_small_mod(d as nat, c as nat);
            lemma_mod_small(h + d, c);
            let s = t % c;
            assert(s == (h + d) % c);
            assert(win[d] == before.slot(w + d));
            assert(b[h + d] == before.slot(w + d));
            assert(b[s] == b[s + c]);
        }
    }
}



/// What a read gives back of a write: when the reader has caught up with the writer and
/// `input` is appended, a read of as many positions as were appended misses nothing; it
/// reports the samples beyond the last capacity as lost, and sees the others, in order.
pub proof fn lemma_read_returns_written<T: Copy + Default>(before: RingBuffer<T>, after: RingBuffer<T>, input: Seq<T>)
    requires
        before.wf(),
        before.consumed() == before.written(),
        after.appended(&before, input),
    ensures
        after.read_overflow(input.len() as int) == input.len() - min_int(input.len() as int, before.cap() as int),
        after.read_missing(input.len() as int) == 0,
        after.read_window(input.len() as int) == input.subrange(
            input.len() - min_int(input.len() as int, before.cap() as int),
            input.len() as int,
        ).map_values(|x: T| Some(x)),
        count_some(after.read_window(input.len() as int)) == min_int(input.len() as int, before.cap() as int),
{
    let n = input.len() as int;
    let m = min_int(n, before.cap() as int);
    let w = after.read_window(n);
    assert(after.read_overflow(n) == n - m);
    assert(after.read_cursor(n) == before.written() + n - m);
    assert(after.read_available(n) == m);
    assert forall|k: int| 0 <= k < m implies #[trigger] w[k] == Some(input[n - m + k]) by {
        assert(after.label(before.written() + n - m + k) == Some(input[n - m + k]));
    }
    assert(w =~= input.subrange(n - m, n).map_values(|x: T| Some(x)));
    lemma_count_some_all(w, true);
}

/// A read over skipped positions: when the reader has caught up and the timeline is moved
/// `size` positions on, a read of `size` positions misses nothing, reports what is beyond the
/// last capacity as lost, and sees only gaps, so no sample is copied.
pub proof fn lemma_read_after_skip_sees_gaps<T: Copy + Default>(before: RingBuffer<T>, after: RingBuffer<T>, size: nat)
    requires
        before.wf(),
        before.consumed() == before.written(),
        after.skipped(&before, size),
    ensures
        after.read_overflow(size as int) == size - min_int(size as int, before.cap() as int),
        after.read_missing(size as int) == 0,
        after.read_window(size as int).len() == min_int(size as int, before.cap() as int),
        forall|k: int| 0 <= k < after.read_window(size as int).len() ==> #[trigger] after.read_window(size as int)[k] is None,
        count_some(after.read_window(size as int)) == 0,
{
    let n = size as int;
    let m = min_int(n, before.cap() as int);
    let w = after.read_window(n);
    assert(after.read_cursor(n) == before.written() + n - m);
    assert(after.read_available(n) == m);
    assert forall|k: int| 0 <= k < m implies #[trigger] w[k] is None by {
        assert(after.label(before.written() + n - m + k) is None);
    }
    lemma_count_some_all(w, false);
}

/// Reads can be split: when nothing is lost and `a + b` positions are readable, what a read
/// of `a` sees followed by what a read of `b` then sees is what one read of `a + b` sees.
pub proof fn lemma_split_reads<T: Copy + Default>(first: RingBuffer<T>, second: RingBuffer<T>, a: nat, b: nat)
    requires
        first.wf(),
        first.lost() == 0,
        first.consumed() + a + b <= first.written(),
        a + b <= first.cap(),
        second.same_contents(&first),
        second.written() == first.written(),
        second.consumed() == first.consumed() + a,
    ensures
        first.read_window(a as int) + second.read_window(b as int) == first.read_window((a + b) as int),
        first.read_overflow((a + b) as int) == 0,
        second.read_overflow(b as int) == 0,
{
    second.lemma_same_contents(&first);
    let w1 = first.read_window(a as int);
    let w2 = second.read_window(b as int);
    let w = first.read_window((a + b) as int);
    assert(first.read_available(a as int) == a);
    assert(second.lost() == 0);
    assert(second.read_available(b as int) == b);
    assert(first.read_available((a + b) as int) == a + b);
    assert forall|k: int| 0 <= k < a + b implies #[trigger] (w1 + w2)[k] == w[k] by {
        if k < a {
            assert((w1 + w2)[k] == w1[k]);
        } else {
            assert((w1 + w2)[k] == w2[k - a]);
            assert(second.label(second.consumed() + k - a) == first.label(first.consumed() + k));
        }
    }
    assert(w1 + w2 =~= w);
}

/// A call on the ring as far as the writer's logical time goes: `write` with its input
/// length, `write_default` with its repeat count, `advance_timeline` with the span it skips,
/// `write_commit` and `write_commit_advance` with what they advance, and any read.
pub enum RingCall {
    Write(nat),
    WriteDefault(nat),
    AdvanceTimeline(nat),
    WriteCommit(nat),
    WriteCommitAdvance(nat),
    Read,
}

/// How far a call moves the write head; reads leave it.
pub open spec fn advanced_by(c: RingCall) -> nat {
    match c {
        RingCall::Write(n) => n,
        RingCall::WriteDefault(n) => n,
        RingCall::AdvanceTimeline(n) => n,
        RingCall::WriteCommit(n) => n,
        RingCall::WriteCommitAdvance(n) => n,
        RingCall::Read => 0,
    }
}

/// How far a sequence of calls moves the write head together.
pub open spec fn total_advance(calls: Seq<RingCall>) -> nat
    decreases calls.len(),
{
    if calls.len() == 0 {
        0
    } else {
        total_advance(calls.drop_last()) + advanced_by(calls.last())
    }
}

/// The writer's logical time counts every sample that went into the timeline: along any
/// sequence of calls, each moving `written()` as its contract says, it grows by the input
/// lengths of the writes, the repeat counts of `write_default`, the spans of
/// `advance_timeline` and what the commits advanced, and reads add nothing. On a new ring
/// (`written()` is 0) it is exactly that sum.
pub proof fn lemma_written_counts_calls<T: Copy + Default>(states: Seq<RingBuffer<T>>, calls: Seq<RingCall>)
    requires
        states.len() == calls.len() + 1,
        forall|i: int|
            0 <= i < calls.len() ==> states[i + 1].written() == states[i].written() + #[trigger] advanced_by(calls[i]),
    ensures
        states.last().written() == states[0].written() + total_advance(calls),
    decreases calls.len(),
{
    if calls.len() > 0 {
        let n = calls.len() - 1;
        let prefix = states.drop_last();
        assert forall|i: int| 0 <= i < calls.drop_last().len() implies prefix[i + 1].written() == prefix[i].written()
            + #[trigger] advanced_by(calls.drop_last()[i]) by {
            assert(advanced_by(calls[i]) == advanced_by(calls.drop_last()[i]));
        }
        lemma_written_counts_calls(prefix, calls.drop_last());
        assert(advanced_by(calls[n]) == advanced_by(calls.last()));
    }
}

} // verus!
