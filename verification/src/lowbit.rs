//! The lowest-set-bit function and the facts about Fenwick-tree index
//! chains that follow from it.
//!
//! Slot `k` (1-indexed) of a Fenwick tree covers the positions
//! `[k - lowbit(k), k)` of the underlying array.  The lemmas here describe
//! how those slot ranges nest along the two index chains the tree walks:
//! downward by `k - lowbit(k)` for prefix folds and upward by
//! `k + lowbit(k)` for point updates.
//!
//! Freedom from overflow is phrased as exactness of a cast — an integer
//! expression equals its value truncated to `usize` — because the
//! bit-vector solver cannot mention `usize::MAX` directly.

use vstd::prelude::*;

verus! {

/// The lowest set bit of `k`; `0` when `k == 0`.
///
/// `(!k + 1)` is the two's-complement negation of `k`, so `k & (!k + 1)`
/// keeps exactly the least significant one bit.
pub open spec fn lowbit(k: usize) -> usize {
    k & ((!k + 1) as usize)
}

/// For positive `k`, `lowbit(k)` is a positive value no larger than `k`.
pub proof fn lemma_lowbit_bounds(k: usize)
    by (bit_vector)
    requires
        1 <= k,
    ensures
        1 <= lowbit(k) <= k,
{
}

/// For positive `k`, the two's-complement negation used by the executable
/// code does not wrap.
pub proof fn lemma_lowbit_no_overflow(k: usize)
    by (bit_vector)
    requires
        1 <= k,
    ensures
        ((!k + 1) as usize) as int == (!k) as int + 1,
{
}

/// Stepping up the update chain never widens past the current slot's left
/// edge: the range of slot `k + lowbit(k)` starts at or before the range of
/// slot `k` does.
pub proof fn lemma_lowbit_step_up(k: usize)
    by (bit_vector)
    requires
        1 <= k,
        ((k + lowbit(k)) as usize) as int == k + lowbit(k),
    ensures
        ((k + lowbit(k)) as usize) - lowbit((k + lowbit(k)) as usize) <= k - lowbit(k),
        k < (k + lowbit(k)) as usize,
{
}

/// A slot strictly between `k` and `k + lowbit(k)` covers only positions at
/// or after `k`.
pub proof fn lemma_lowbit_between(k: usize, j: usize)
    by (bit_vector)
    requires
        1 <= k,
        k < j,
        j < k + lowbit(k),
    ensures
        j - lowbit(j) >= k,
{
}

/// When `pos` is a multiple of `2 * k` and `k` is a power of two, the slot
/// `pos + k` covers exactly the positions `[pos, pos + k)`.
pub proof fn lemma_lowbit_pow2_block(pos: usize, k: usize)
    by (bit_vector)
    requires
        1 <= k,
        k & ((k - 1) as usize) == 0,
        pos & ((2 * k - 1) as usize) == 0,
        ((pos + k) as usize) as int == pos + k,
    ensures
        lowbit((pos + k) as usize) == k,
{
}

/// Alignment is preserved when the binary-lifting search halves its stride:
/// both the unchanged position and the extended one are multiples of the
/// halved stride times two, and the halved stride is again a power of two.
pub proof fn lemma_pow2_mask_step(pos: usize, k: usize)
    by (bit_vector)
    requires
        1 <= k,
        k & ((k - 1) as usize) == 0,
        pos & ((2 * k - 1) as usize) == 0,
        ((pos + k) as usize) as int == pos + k,
    ensures
        pos & ((k - 1) as usize) == 0,
        ((pos + k) as usize) & ((k - 1) as usize) == 0,
        k >= 2 ==> (k >> 1) & (((k >> 1) - 1) as usize) == 0,
        k >= 2 ==> 2 * (k >> 1) == k,
        k == 1 ==> k >> 1 == 0usize,
{
}

/// A power of two strictly below twice `n` stays small enough that adding
/// any value up to `n` to it does not overflow, provided `2 * n` itself
/// fits in `usize`.
pub proof fn lemma_pow2_plus_fits(r: usize, n: usize, p: usize)
    by (bit_vector)
    requires
        1 <= r,
        r & ((r - 1) as usize) == 0,
        r < 2 * n,
        ((2 * n) as usize) as int == 2 * n,
        p <= n,
    ensures
        ((r + p) as usize) as int == r + p,
{
}

/// Masking zero gives zero.
pub proof fn lemma_zero_and(m: usize)
    by (bit_vector)
    ensures
        0usize & m == 0,
{
}

/// One is a power of two.
pub proof fn lemma_one_pow2()
    by (bit_vector)
    ensures
        1usize & ((1usize - 1) as usize) == 0,
{
}

/// Doubling a power of two yields a power of two.
pub proof fn lemma_pow2_double(r: usize)
    by (bit_vector)
    requires
        1 <= r,
        r & ((r - 1) as usize) == 0,
        ((2 * r) as usize) as int == 2 * r,
    ensures
        ((2 * r) as usize) & ((2 * r - 1) as usize) == 0,
{
}

/// Executable form of [`lowbit`] for positive arguments.
pub(crate) fn lowbit_of(k: usize) -> (r: usize)
    requires
        1 <= k,
    ensures
        r == lowbit(k),
        1 <= r <= k,
{
    proof {
        lemma_lowbit_no_overflow(k);
        lemma_lowbit_bounds(k);
    }
    k & (!k + 1)
}

} // verus!
