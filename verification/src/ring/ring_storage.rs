use vstd::prelude::*;

verus! {

/// Backing store of a ring of `cap` slots: `2 * cap` elements where the second half mirrors
/// the first, so that any `cap` consecutive slots starting below `cap` form one slice.
pub enum RingStorage<T: Copy + Default> {
    MirroredVec(Vec<T>),
}

impl<T: Copy + Default> RingStorage<T> {
    pub open spec fn elems(&self) -> Seq<T> {
        match self {
            RingStorage::MirroredVec(v) => v@,
        }
    }

    /// Both halves hold the same values.
    pub open spec fn mirrored(&self, cap: int) -> bool {
        &&& self.elems().len() == 2 * cap
        &&& forall|i: int| 0 <= i < cap ==> #[trigger] self.elems()[i] == self.elems()[i + cap]
    }

    pub fn new(capacity: usize) -> (r: Self)
        requires
            capacity <= usize::MAX / 2,
        ensures
            r.mirrored(capacity as int),
    {
        let d = T::default();
        let n = capacity * 2;
        let mut v: Vec<T> = Vec::new();
        let mut k: usize = 0;
        while k < n
            invariant
                k <= n,
                n == capacity * 2,
                v@.len() == k,
                forall|i: int| 0 <= i < k ==> #[trigger] v@[i] == d,
            decreases n - k,
        {
            v.push(d);
            k = k + 1;
        }
        let r = RingStorage::MirroredVec(v);
        assert(forall|i: int| 0 <= i < 2 * capacity ==> #[trigger] r.elems()[i] == d);
        r
    }

    /// Overwrites element `i`.
    pub fn set(&mut self, i: usize, v: T)
        requires
            i < old(self).elems().len(),
        ensures
            final(self).elems() == old(self).elems().update(i as int, v),
    {
        match self {
            RingStorage::MirroredVec(ring) => ring.set(i, v),
        }
    }

    pub fn as_slice(&self) -> (r: &[T])
        ensures
            r@ == self.elems(),
    {
        match self {
            RingStorage::MirroredVec(ring) => ring.as_slice(),
        }
    }

    pub fn as_mut_slice(&mut self) -> (r: &mut [T])
        ensures
            r@ == old(self).elems(),
            final(self).elems() == final(r)@,
    {
        match self {
            RingStorage::MirroredVec(ring) => ring.as_mut_slice(),
        }
    }

    /// The `len` elements from `start` on, to be changed in place.
    pub fn window_mut(&mut self, start: usize, len: usize) -> (r: &mut [T])
        requires
            start + len <= old(self).elems().len(),
        ensures
            r@ == old(self).elems().subrange(start as int, start + len),
            final(self).elems() == old(self).elems().subrange(0, start as int) + final(r)@
                + old(self).elems().subrange(start + len, old(self).elems().len() as int),
    {
        match self {
            RingStorage::MirroredVec(ring) => {
                let all = ring.as_mut_slice();
                let (_front, rest) = all.split_at_mut(start);
                let (win, _back) = rest.split_at_mut(len);
                win
            },
        }
    }

    /// Copies what was written into `[head, head + written_phys)` (counted over both halves)
    /// into the other half, so that both halves agree there again.
    pub fn sync_mirror_range(&mut self, cap: usize, head: usize, written_phys: usize)
        requires
            old(self).elems().len() == 2 * cap,
            cap <= usize::MAX / 2,
            head < cap,
            written_phys <= cap,
        ensures
            final(self).elems().len() == 2 * cap,
            forall|i: int| #![trigger final(self).elems()[i]]
                0 <= i < 2 * cap ==> final(self).elems()[i] == {
                    let s = if i < cap { i } else { i - cap };
                    if head <= s < head + written_phys {
                        old(self).elems()[s]
                    } else if head <= s + cap < head + written_phys {
                        old(self).elems()[s + cap]
                    } else {
                        old(self).elems()[i]
                    }
                },
    {
        match self {
            RingStorage::MirroredVec(ring) => {
                let start = head;
                let end = head + written_phys;
                let b_start = if start < cap { start } else { cap };
                let b_end = if end < cap { end } else { cap };
                let ghost orig = ring@;
                let mut k = b_start;
                let b_end = if b_end > b_start { b_end } else { b_start };
                while k < b_end
                    invariant
                        b_start <= k <= b_end,
                        cap <= usize::MAX / 2,
                        b_start == head,
                        b_end <= cap,
                        ring@.len() == 2 * cap,
                        forall|i: int| 0 <= i < 2 * cap ==> #[trigger] ring@[i] == if cap + b_start <= i && i < cap + k { orig[i - cap] } else { orig[i] },
                    decreases b_end - k,
                {
                    let x = ring[k];
                    ring.set(k + cap, x);
                    k = k + 1;
                }
                let ghost mid = ring@;
                let m_start = if start > cap { start } else { cap };
                let m_end = if end < 2 * cap { end } else { 2 * cap };
                let m_end = if m_end > m_start { m_end } else { m_start };
                let mut k2 = m_start;
                while k2 < m_end
                    invariant
                        m_start <= k2 <= m_end,
                        cap <= usize::MAX / 2,
                        m_start == cap,
                        m_end == if end > cap { end } else { cap as usize },
                        end <= 2 * cap,
                        ring@.len() == 2 * cap,
                        forall|i: int| 0 <= i < 2 * cap ==> #[trigger] ring@[i] == if 0 <= i && i + cap < k2 { mid[i + cap] } else { mid[i] },
                    decreases m_end - k2,
                {
                    let x = ring[k2];
                    ring.set(k2 - cap, x);
                    k2 = k2 + 1;
                }
            },
        }
    }
}


/// Greatest common divisor, by Euclid's algorithm.
pub open spec fn gcd(a: nat, b: nat) -> nat
    decreases b,
{
    if b == 0 {
        a
    } else {
        gcd(b, a % b)
    }
}

/// Greatest common divisor of `a` and `b`.
pub fn gcd_usize(a: usize, b: usize) -> (r: usize)
    ensures
        r == gcd(a as nat, b as nat),
{
    let ghost g = gcd(a as nat, b as nat);
    let mut x = a;
    let mut y = b;
    while y != 0
        invariant
            gcd(x as nat, y as nat) == g,
        decreases y,
    {
        let r = x % y;
        x = y;
        y = r;
    }
    x
}

/// Smallest number of elements of `elem_size` bytes that fills whole pages of `page_size`.
pub open spec fn elems_per_page(elem_size: nat, page_size: nat) -> nat {
    page_size / gcd(elem_size, page_size)
}

pub proof fn lemma_gcd_pos(a: nat, b: nat)
    requires
        b > 0,
    ensures
        gcd(a, b) > 0,
    decreases b,
{
    if a % b > 0 {
        lemma_gcd_pos(b, a % b);
    } else {
        assert(gcd(b, 0) == b);
    }
}

/// A capacity for a ring of `elem_size`-byte elements that a page-mirrored mapping can hold:
/// at least `capacity`, and at least one page's worth of elements. `None` when nothing is to
/// be aligned (no capacity, zero-sized elements or an unknown page size).
pub fn mmap_aligned_capacity(capacity: usize, elem_size: usize, page_size: Option<usize>) -> (r: Option<usize>)
    ensures
        capacity == 0 || elem_size == 0 || page_size is None || page_size == Some(0usize) ==> r is None,
        forall|p: usize| page_size == Some(p) && p > 0 && capacity > 0 && elem_size > 0 ==> r == Some(
            if capacity >= elems_per_page(elem_size as nat, p as nat) {
                capacity
            } else {
                elems_per_page(elem_size as nat, p as nat) as usize
            },
        ),
{
    if capacity == 0 || elem_size == 0 {
        return None;
    }
    let p = match page_size {
        Some(p) => p,
        None => return None,
    };
    if p == 0 {
        return None;
    }
    let g = gcd_usize(elem_size, p);
    proof {
        lemma_gcd_pos(elem_size as nat, p as nat);
    }
    let per_page = p / g;
    Some(if capacity >= per_page { capacity } else { per_page })
}

} // verus!
