//! Size arithmetic for executable-memory allocations.
//!
//! The allocator that maps executable pages works in page-sized chunks and
//! rounds the chunk count up to a power of two; the arithmetic is here, the
//! system calls that map the pages are not.
use vstd::prelude::*;

verus! {

/// True when `x` is a power of two, stated over the machine representation.
pub open spec fn is_pow2_u64(x: u64) -> bool {
    x != 0 && x & (x - 1) as u64 == 0
}

/// Rounds `n` up to the least power of two that is at least `n`.
pub fn round_to_pow2(n: usize) -> (r: usize)
    requires
        1 <= n,
        n <= 0x8000_0000,
    ensures
        is_pow2_u64(r as u64),
        n <= r,
        r == 1 || (r as int) < 2 * n,
{
    let x: u64 = n as u64;
    let m0: u64 = x - 1;
    let m1: u64 = m0 | (m0 >> 1);
    let m2: u64 = m1 | (m1 >> 2);
    let m3: u64 = m2 | (m2 >> 4);
    let m4: u64 = m3 | (m3 >> 8);
    let m5: u64 = m4 | (m4 >> 16);
    let m6: u64 = m5 | (m5 >> 32);
    assert(m6 <= 0x7fff_ffff) by (bit_vector)
        requires
            x <= 0x8000_0000,
            1 <= x,
            m0 == x - 1,
            m1 == m0 | (m0 >> 1),
            m2 == m1 | (m1 >> 2),
            m3 == m2 | (m2 >> 4),
            m4 == m3 | (m3 >> 8),
            m5 == m4 | (m4 >> 16),
            m6 == m5 | (m5 >> 32),
    ;
    let r64: u64 = m6 + 1;
    assert(x <= r64 && (r64 & (r64 - 1) as u64) == 0 && (r64 == 1 || (r64 >> 1) < x))
        by (bit_vector)
        requires
            x <= 0x8000_0000,
            1 <= x,
            m0 == x - 1,
            m1 == m0 | (m0 >> 1),
            m2 == m1 | (m1 >> 2),
            m3 == m2 | (m2 >> 4),
            m4 == m3 | (m3 >> 8),
            m5 == m4 | (m4 >> 16),
            m6 == m5 | (m5 >> 32),
            r64 == m6 + 1,
    ;
    assert((r64 >> 1) < x ==> r64 < 2 * x) by (bit_vector);
    r64 as usize
}

} // verus!
