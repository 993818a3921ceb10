//! Sizing of GPU buffers: the size of a new buffer and when a buffer must be
//! made larger.
use vstd::prelude::*;

verus! {

/// The alignment, in bytes, of buffer copies on the GPU.
pub const COPY_BUFFER_ALIGNMENT: u64 = 4;

/// Whether `n` is a power of two.
pub open spec fn is_pow2(n: nat) -> bool
    decreases n,
{
    if n == 1 {
        true
    } else if n == 0 || n % 2 == 1 {
        false
    } else {
        is_pow2(n / 2)
    }
}

/// The smallest power of two that is at least `n` (one for zero).
pub open spec fn next_pow2(n: nat) -> nat
    decreases n,
{
    if n <= 1 {
        1
    } else {
        2 * next_pow2(((n + 1) / 2) as nat)
    }
}

proof fn lemma_next_pow2(n: nat)
    ensures
        is_pow2(next_pow2(n)),
        next_pow2(n) >= n,
        next_pow2(n) == 1 || next_pow2(n) / 2 < n,
        forall|p: nat| is_pow2(p) && p >= n ==> p >= #[trigger] next_pow2(n),
    decreases n,
{
    if n > 1 {
        let h = ((n + 1) / 2) as nat;
        lemma_next_pow2(h);
        let r = next_pow2(n);
        assert(r == 2 * next_pow2(h));
        assert(is_pow2(r)) by {
            assert(r % 2 == 0);
            assert(r / 2 == next_pow2(h));
        }
        assert forall|p: nat| is_pow2(p) && p >= n implies p >= #[trigger] next_pow2(n) by {
            assert(p != 1);
            assert(p % 2 == 0);
            assert(is_pow2(p / 2));
            assert(p / 2 >= h);
        }
    }
}

/// Every power of two `2^e` is a power of two in the sense of `is_pow2`.
proof fn lemma_is_pow2_pow2(e: nat)
    ensures
        is_pow2(vstd::arithmetic::power2::pow2(e)),
    decreases e,
{
    vstd::arithmetic::power2::lemma_pow2_pos(e);
    if e == 0 {
        vstd::arithmetic::power2::lemma2_to64();
    } else {
        vstd::arithmetic::power2::lemma_pow2_unfold(e);
        lemma_is_pow2_pow2((e - 1) as nat);
        let p = vstd::arithmetic::power2::pow2(e);
        assert(p % 2 == 0);
        assert(p / 2 == vstd::arithmetic::power2::pow2((e - 1) as nat));
    }
}

/// The half of the range of `usize`, past its largest value, is a power of
/// two.
proof fn lemma_usize_half_pow2()
    ensures
        is_pow2((usize::MAX / 2 + 1) as nat),
        usize::MAX / 2 + 1 <= 0x8000_0000_0000_0000,
{
    vstd::arithmetic::power2::lemma2_to64();
    vstd::arithmetic::power2::lemma2_to64_rest();
    lemma_is_pow2_pow2(31);
    lemma_is_pow2_pow2(63);
    assert(usize::MAX == 0xffff_ffff || usize::MAX == 0xffff_ffff_ffff_ffff);
}

/// The smallest power of two that is at least `n`.
pub fn next_power_of_two(n: usize) -> (r: usize)
    requires
        n <= usize::MAX / 2 + 1,
    ensures
        r == next_pow2(n as nat),
        r <= usize::MAX / 2 + 1,
{
    proof {
        lemma_next_pow2(n as nat);
        lemma_usize_half_pow2();
    }
    let mut p: usize = 1;
    while p < n
        invariant
            is_pow2(p as nat),
            p <= usize::MAX / 2 + 1,
            is_pow2((usize::MAX / 2 + 1) as nat),
            next_pow2(n as nat) >= n,
            p <= next_pow2(n as nat),
            n <= usize::MAX / 2 + 1,
            forall|q: nat| is_pow2(q) && q >= n ==> q >= #[trigger] next_pow2(n as nat),
            is_pow2(next_pow2(n as nat)),
            next_pow2(n as nat) == 1 || next_pow2(n as nat) / 2 < n,
        decreases next_pow2(n as nat) - p,
    {
        proof {
            lemma_pow2_doubling(p as nat, next_pow2(n as nat));
            lemma_pow2_doubling(p as nat, (usize::MAX / 2 + 1) as nat);
        }
        p = p * 2;
    }
    proof {
        assert(p as nat >= n);
        assert(p as nat >= next_pow2(n as nat));
    }
    p
}

/// Between two powers of two, the smaller doubled is at most the larger.
proof fn lemma_pow2_doubling(p: nat, q: nat)
    requires
        is_pow2(p),
        is_pow2(q),
        p < q,
    ensures
        2 * p <= q,
    decreases q,
{
    if p == 1 {
        assert(q != 1);
        assert(q % 2 == 0);
    } else {
        assert(q % 2 == 0);
        assert(p % 2 == 0);
        lemma_pow2_doubling(p / 2, q / 2);
    }
}

/// A power of two of at least four is a multiple of four.
proof fn lemma_pow2_mod4(p: nat)
    requires
        is_pow2(p),
        p >= 4,
    ensures
        p % 4 == 0,
{
    assert(p % 2 == 0);
    assert(is_pow2(p / 2));
    assert((p / 2) % 2 == 0);
}

/// The size in bytes of a buffer made for `amount` elements of
/// `elem_size` bytes: the product rounded up to a power of two, then to the
/// copy alignment, and at least the copy alignment.
pub open spec fn spec_next_copy_size(elem_size: nat, amount: nat) -> nat {
    let p = next_pow2(elem_size * amount);
    if p < 4 {
        4
    } else {
        p
    }
}

pub fn next_copy_size(elem_size: usize, amount: usize) -> (r: u64)
    requires
        elem_size * amount <= usize::MAX / 2 + 1,
    ensures
        r == spec_next_copy_size(elem_size as nat, amount as nat),
{
    let align_mask: u64 = COPY_BUFFER_ALIGNMENT - 1;
    let n = elem_size * amount;
    let p = next_power_of_two(n);
    proof {
        lemma_next_pow2(n as nat);
    }
    let p64 = p as u64;
    proof {
        lemma_usize_half_pow2();
    }
    let v = (p64 + align_mask) & !align_mask;
    proof {
        if p64 >= 4 {
            lemma_pow2_mod4(p as nat);
            assert(((p64 + 3) as u64) & !3u64 == p64) by (bit_vector)
                requires
                    p64 % 4 == 0,
                    p64 <= 0x8000_0000_0000_0000u64,
            ;
        } else {
            assert(p64 == 1 || p64 == 2);
            assert(((p64 + 3) as u64) & !3u64 == 4) by (bit_vector)
                requires
                    p64 == 1 || p64 == 2,
            ;
        }
    }
    if v > COPY_BUFFER_ALIGNMENT {
        v
    } else {
        COPY_BUFFER_ALIGNMENT
    }
}

/// The size of a GPU buffer, in bytes.
#[derive(Debug, Clone, Copy, PartialEq, Eq, Structural)]
pub struct BufferSize {
    pub size: u64,
}

impl BufferSize {
    /// The size of a new buffer for `amount` elements of `elem_size` bytes.
    pub fn new(elem_size: usize, amount: usize) -> (r: BufferSize)
        requires
            elem_size * amount <= usize::MAX / 2 + 1,
        ensures
            r.size == spec_next_copy_size(elem_size as nat, amount as nat),
    {
        BufferSize { size: next_copy_size(elem_size, amount) }
    }

    /// Grows the size to hold `new_count` elements of `elem_size` bytes when
    /// it is smaller; returns whether it grew (and the buffer must then be
    /// made anew).
    pub fn expand_to_fit_new_size(&mut self, elem_size: usize, new_count: usize) -> (r: bool)
        requires
            elem_size * new_count <= usize::MAX,
        ensures
            r == (old(self).size < elem_size * new_count),
            r ==> final(self).size == elem_size * new_count,
            !r ==> final(self).size == old(self).size,
    {
        let new_size = (elem_size * new_count) as u64;
        if self.size < new_size {
            self.size = new_size;
            true
        } else {
            false
        }
    }
}

/// The offset in bytes of element `offset`.
pub fn byte_offset(offset: usize, elem_size: usize) -> (r: u64)
    requires
        offset * elem_size <= u64::MAX,
    ensures
        r == offset * elem_size,
{
    proof {
        assert(offset as u64 * elem_size as u64 == offset * elem_size) by (nonlinear_arith)
            requires
                offset * elem_size <= u64::MAX,
        ;
    }
    offset as u64 * elem_size as u64
}

} // verus!
