//! One-dimensional Fenwick (binary indexed) tree over a commutative monoid.
//!
//! The tree is specified against a ghost sequence — the logical array of
//! `n` values — and the structural invariant that slot `k` (1-indexed)
//! always holds the fold of the positions `[k - lowbit(k), k)` of that
//! array.  `update` folds a delta into one position; prefix folds walk the
//! downward index chain.  When the operation is a group, range folds,
//! point reads and point writes are derived from prefix folds, and when the
//! folded values are totally ordered and prefix folds are monotone, a
//! binary-lifting search locates where a threshold is first reached.
//!
//! The operation must be commutative: `update` folds the delta into slots
//! that aggregate positions before and after the touched one, so slot
//! contents can only be related to in-order folds of the array when the
//! operation's order does not matter.

use crate::algebra::{AbelianGroup, AbelianMonoid, AdditiveOperation, Magma, Monoid, Unital};
use crate::folds::{
    fold_range, lemma_fold_range_split, lemma_fold_range_unit, lemma_fold_range_update,
    lemma_prefix_difference,
};
use crate::lowbit::{
    lemma_lowbit_between, lemma_lowbit_bounds, lemma_lowbit_pow2_block, lemma_lowbit_step_up,
    lemma_pow2_double, lemma_pow2_mask_step, lemma_pow2_plus_fits, lemma_one_pow2,
    lemma_zero_and, lowbit, lowbit_of,
};
use vstd::prelude::*;
use vstd::std_specs::cmp::{PartialOrdIs, PartialOrdSpec};

verus! {

/// Number of update-chain steps still possible from index `idx` in a tree
/// of size `n`; used as a termination measure.
pub open spec fn chain_remaining(n: usize, idx: usize) -> int {
    if idx <= n {
        n - idx + 1
    } else {
        0
    }
}

/// Fenwick tree over `n` logical positions, folding with the operation `M`.
pub struct BinaryIndexedTree<M: Monoid> {
    n: usize,
    bit: Vec<M::T>,
    m: M,
    data: Ghost<Seq<M::T>>,
}

impl<M: Monoid> View for BinaryIndexedTree<M> {
    type V = Seq<M::T>;

    /// The logical array of `n` values the tree aggregates.
    closed spec fn view(&self) -> Seq<M::T> {
        self.data@
    }
}

impl<M: Monoid> BinaryIndexedTree<M> {
    /// Structural invariant: slot `k` holds the fold of positions
    /// `[k - lowbit(k), k)` of the logical array.
    pub closed spec fn wf(&self) -> bool {
        &&& self.bit@.len() == self.n + 1
        &&& self.data@.len() == self.n as int
        &&& self.n <= usize::MAX / 2
        &&& forall|k: int|
            1 <= k <= self.n ==> #[trigger] self.bit@[k] == fold_range::<M>(
                self.data@,
                k - lowbit(k as usize) as int,
                k,
            )
    }
}

impl<M: AbelianMonoid> BinaryIndexedTree<M> {
    /// Builds a tree over `n` positions, all holding the identity.
    ///
    /// The bound on `n` is a machine limit: the update chain walks to
    /// indices up to twice the size, which must stay representable.
    pub fn new(n: usize, m: M) -> (r: Self)
        requires
            n <= usize::MAX / 2,
        ensures
            r.wf(),
            r@ == Seq::new(n as nat, |i: int| M::unit_spec()),
    {
        let mut bit: Vec<M::T> = Vec::new();
        let mut i: usize = 0;
        while i <= n
            invariant
                n <= usize::MAX / 2,
                i <= n + 1,
                bit@.len() == i as int,
                forall|j: int| 0 <= j < i ==> bit@[j] == M::unit_spec(),
            decreases n + 1 - i,
        {
            bit.push(M::unit());
            i += 1;
        }
        let r = BinaryIndexedTree {
            n,
            bit,
            m,
            data: Ghost(Seq::new(n as nat, |i: int| M::unit_spec())),
        };
        proof {
            assert forall|k: int| 1 <= k <= n implies #[trigger] r.bit@[k] == fold_range::<M>(
                r.data@,
                k - lowbit(k as usize) as int,
                k,
            ) by {
                lemma_lowbit_bounds(k as usize);
                lemma_fold_range_unit::<M>(r.data@, k - lowbit(k as usize) as int, k);
            }
        }
        r
    }

    /// Fold of the positions `[0, k)`.
    pub fn accumulate0(&self, k: usize) -> (r: M::T)
        requires
            self.wf(),
            k <= self@.len(),
        ensures
            r == fold_range::<M>(self@, 0, k as int),
    {
        let ghost orig = k as int;
        let mut res = M::unit();
        let mut k = k;
        proof {
            M::unit_right(M::unit_spec());
            assert(fold_range::<M>(self@, orig, orig) == M::unit_spec());
        }
        while k > 0
            invariant
                self.wf(),
                k as int <= orig <= self.n as int,
                res == fold_range::<M>(self@, k as int, orig),
            decreases k,
        {
            proof {
                lemma_lowbit_bounds(k);
                let lb = lowbit(k) as int;
                M::op_commutative(
                    fold_range::<M>(self@, k as int, orig),
                    fold_range::<M>(self@, k as int - lb, k as int),
                );
                lemma_fold_range_split::<M>(self@, k as int - lb, k as int, orig);
            }
            res = M::operate(&res, &self.bit[k]);
            k -= lowbit_of(k);
        }
        res
    }

    /// Fold of the positions `[0, k]`.
    pub fn accumulate(&self, k: usize) -> (r: M::T)
        requires
            self.wf(),
            k < self@.len(),
        ensures
            r == fold_range::<M>(self@, 0, k + 1),
    {
        self.accumulate0(k + 1)
    }

    /// Folds `x` into position `k`: the logical array changes only at `k`,
    /// which now holds `old value op x`.
    pub fn update(&mut self, k: usize, x: M::T)
        requires
            old(self).wf(),
            k < old(self)@.len(),
        ensures
            final(self).wf(),
            final(self)@ == old(self)@.update(k as int, M::op(old(self)@[k as int], x)),
    {
        let ghost olddata = self.data@;
        let ghost newdata = olddata.update(k as int, M::op(olddata[k as int], x));
        proof {
            self.data@ = newdata;
        }
        let mut idx = k + 1;
        proof {
            lemma_lowbit_bounds(idx);
            assert forall|j: int|
                #![trigger fold_range::<M>(newdata, j - lowbit(j as usize) as int, j)]
                1 <= j <= k implies fold_range::<M>(newdata, j - lowbit(j as usize) as int, j)
                == fold_range::<M>(olddata, j - lowbit(j as usize) as int, j) by {
                lemma_lowbit_bounds(j as usize);
                lemma_fold_range_update::<M>(olddata, j - lowbit(j as usize) as int, j, k as int, x);
            }
        }
        while idx <= self.n
            invariant
                self.bit@.len() == self.n + 1,
                self.n <= usize::MAX / 2,
                olddata.len() == self.n as int,
                newdata == olddata.update(k as int, M::op(olddata[k as int], x)),
                self.data@ == newdata,
                k < self.n,
                k as int + 1 <= idx as int,
                idx as int - lowbit(idx) as int <= k as int,
                1 <= idx,
                forall|j: int|
                    1 <= j <= self.n ==> #[trigger] self.bit@[j] == if j < idx as int {
                        fold_range::<M>(newdata, j - lowbit(j as usize) as int, j)
                    } else {
                        fold_range::<M>(olddata, j - lowbit(j as usize) as int, j)
                    },
            decreases chain_remaining(self.n, idx),
        {
            let v = M::operate(&self.bit[idx], &x);
            self.bit.set(idx, v);
            let ghost oldidx = idx as int;
            proof {
                lemma_lowbit_bounds(idx);
                lemma_fold_range_update::<M>(
                    olddata,
                    oldidx - lowbit(idx) as int,
                    oldidx,
                    k as int,
                    x,
                );
                assert(((idx + lowbit(idx)) as usize) as int == idx + lowbit(idx));
                lemma_lowbit_step_up(idx);
            }
            idx += lowbit_of(idx);
            proof {
                assert forall|j: int|
                    #![trigger fold_range::<M>(newdata, j - lowbit(j as usize) as int, j)]
                    oldidx < j < idx as int && j <= self.n implies fold_range::<M>(
                    newdata,
                    j - lowbit(j as usize) as int,
                    j,
                ) == fold_range::<M>(olddata, j - lowbit(j as usize) as int, j) by {
                    lemma_lowbit_between(oldidx as usize, j as usize);
                    lemma_fold_range_update::<M>(
                        olddata,
                        j - lowbit(j as usize) as int,
                        j,
                        k as int,
                        x,
                    );
                }
            }
        }
    }
}

impl<G: AbelianGroup> BinaryIndexedTree<G> {
    /// Fold of the positions `[l, r)`, derived from two prefix folds by
    /// inverse composition.
    ///
    /// The bounds are deliberately asymmetric — `l` must be a valid
    /// position, `r` a valid exclusive end — mirroring the fact that the
    /// derivation is only meaningful on that domain.
    pub fn fold(&self, l: usize, r: usize) -> (res: G::T)
        requires
            self.wf(),
            l < self@.len(),
            0 < r <= self@.len(),
        ensures
            res == G::op(
                G::inv_spec(fold_range::<G>(self@, 0, l as int)),
                fold_range::<G>(self@, 0, r as int),
            ),
            l <= r ==> res == fold_range::<G>(self@, l as int, r as int),
    {
        let a = self.accumulate0(l);
        let ai = G::inverse(&a);
        let b = self.accumulate0(r);
        proof {
            if l <= r {
                lemma_prefix_difference::<G>(self@, l as int, r as int);
            }
        }
        G::operate(&ai, &b)
    }

    /// The value at position `k`.
    pub fn get(&self, k: usize) -> (res: G::T)
        requires
            self.wf(),
            k < self@.len(),
        ensures
            res == self@[k as int],
    {
        let res = self.fold(k, k + 1);
        proof {
            assert(fold_range::<G>(self@, k as int, k as int + 1) == G::op(
                fold_range::<G>(self@, k as int, k as int),
                self@[k as int],
            ));
            G::unit_left(self@[k as int]);
        }
        res
    }

    /// Overwrites position `k` with `x`, by folding in the delta
    /// `inverse(get(k)) op x`.
    pub fn set(&mut self, k: usize, x: G::T)
        requires
            old(self).wf(),
            k < old(self)@.len(),
        ensures
            final(self).wf(),
            final(self)@ == old(self)@.update(k as int, x),
    {
        let cur = self.get(k);
        let ci = G::inverse(&cur);
        let d = G::operate(&ci, &x);
        proof {
            G::op_associative(old(self)@[k as int], G::inv_spec(old(self)@[k as int]), x);
            G::inverse_right(old(self)@[k as int]);
            G::unit_left(x);
        }
        self.update(k, d);
    }
}

/// Smallest power of two that is at least `n`; `1` when `n == 0`.
fn next_pow2(n: usize) -> (r: usize)
    requires
        n <= usize::MAX / 2,
    ensures
        1 <= r,
        r & ((r - 1) as usize) == 0,
        n <= r,
        n >= 1 ==> r < 2 * n,
        n == 0 ==> r == 1,
{
    let mut r: usize = 1;
    proof {
        lemma_one_pow2();
    }
    while r < n
        invariant
            n <= usize::MAX / 2,
            1 <= r,
            r & ((r - 1) as usize) == 0,
            n >= 1 ==> r < 2 * n,
            n == 0 ==> r == 1,
        decreases chain_remaining(n, r),
    {
        proof {
            lemma_pow2_double(r);
        }
        r = r * 2;
    }
    r
}

impl<M: AbelianMonoid> BinaryIndexedTree<M> where M::T: Ord {
    /// Binary-lifting search over monotone prefix folds: returns the last
    /// position whose prefix fold is still strictly below `x` — equivalently,
    /// the first index at which the inclusive prefix fold reaches `x`, or
    /// the size when none does.
    ///
    /// The quantified precondition states the monotonicity assumption in
    /// the form the search relies on: whenever a prefix fold lies strictly
    /// below `x`, so does every shorter prefix fold.
    pub fn lower_bound(&self, x: M::T) -> (r: usize)
        requires
            self.wf(),
            <M::T as PartialOrdSpec>::obeys_partial_cmp_spec(),
            forall|p: int, q: int|
                #![trigger fold_range::<M>(self@, 0, p), fold_range::<M>(self@, 0, q)]
                0 <= p <= q <= self@.len() && fold_range::<M>(self@, 0, q).is_lt(&x)
                    ==> fold_range::<M>(self@, 0, p).is_lt(&x),
        ensures
            r <= self@.len(),
            r > 0 ==> fold_range::<M>(self@, 0, r as int).is_lt(&x),
            forall|p: int|
                r < p <= self@.len() ==> !(#[trigger] fold_range::<M>(self@, 0, p)).is_lt(&x),
    {
        let n = self.n;
        let mut acc = M::unit();
        let mut pos: usize = 0;
        let mut k = next_pow2(n);
        proof {
            assert(fold_range::<M>(self@, 0, 0) == M::unit_spec());
            lemma_zero_and((2 * k - 1) as usize);
        }
        while k > 0
            invariant
                self.wf(),
                <M::T as PartialOrdSpec>::obeys_partial_cmp_spec(),
                forall|p: int, q: int|
                    #![trigger fold_range::<M>(self@, 0, p), fold_range::<M>(self@, 0, q)]
                    0 <= p <= q <= self@.len() && fold_range::<M>(self@, 0, q).is_lt(&x)
                        ==> fold_range::<M>(self@, 0, p).is_lt(&x),
                n == self.n,
                n == self@.len(),
                pos <= n,
                acc == fold_range::<M>(self@, 0, pos as int),
                pos == 0 || fold_range::<M>(self@, 0, pos as int).is_lt(&x),
                k > 0 ==> k & ((k - 1) as usize) == 0,
                k > 0 ==> pos & ((2 * k - 1) as usize) == 0,
                k > 0 && n >= 1 ==> k < 2 * n,
                k > 0 && n == 0 ==> k == 1,
                forall|p: int|
                    0 <= p <= n && (#[trigger] fold_range::<M>(self@, 0, p)).is_lt(&x) ==> p
                        <= pos + 2 * k - (if k > 0 { 1int } else { 0int }),
            decreases k,
        {
            proof {
                if n >= 1 {
                    lemma_pow2_plus_fits(k, n, pos);
                }
            }
            let j = k + pos;
            let ghost oldpos = pos as int;
            if j <= n {
                proof {
                    lemma_lowbit_pow2_block(pos, k);
                    lemma_fold_range_split::<M>(self@, 0, oldpos, j as int);
                }
                let candidate = M::operate(&acc, &self.bit[j]);
                if candidate < x {
                    pos = j;
                    acc = candidate;
                }
            }
            proof {
                lemma_pow2_mask_step(oldpos as usize, k);
            }
            k = k >> 1;
        }
        pos
    }
}

/// The search law behind [`BinaryIndexedTree::lower_bound`]: given monotone
/// prefix folds, the three facts its contract states pin the result down to
/// the index a linear scan would find — every inclusive prefix fold before
/// `r` lies strictly below the threshold, and the one at `r` (when `r` is
/// not the size) does not.
pub proof fn lemma_lower_bound_characterization<M: AbelianMonoid>(s: Seq<M::T>, x: M::T, r: int) where
    M::T: Ord,

    requires
        forall|p: int, q: int|
            #![trigger fold_range::<M>(s, 0, p), fold_range::<M>(s, 0, q)]
            0 <= p <= q <= s.len() && fold_range::<M>(s, 0, q).is_lt(&x) ==> fold_range::<M>(
                s,
                0,
                p,
            ).is_lt(&x),
        0 <= r <= s.len(),
        r > 0 ==> fold_range::<M>(s, 0, r).is_lt(&x),
        forall|p: int| r < p <= s.len() ==> !(#[trigger] fold_range::<M>(s, 0, p)).is_lt(&x),
    ensures
        forall|i: int| 0 <= i < r ==> (#[trigger] fold_range::<M>(s, 0, i + 1)).is_lt(&x),
        r < s.len() ==> !fold_range::<M>(s, 0, r + 1).is_lt(&x),
{
    assert forall|i: int| 0 <= i < r implies (#[trigger] fold_range::<M>(s, 0, i + 1)).is_lt(&x) by {
        assert(fold_range::<M>(s, 0, r).is_lt(&x));
    }
}

/// Bound on prefix folds of the `i64` additive operation: when every
/// element of `s` lies in `[0, b]` and `s.len() * b` fits in `i64`, no
/// prefix fold wraps, and each lies in `[0, j * b]`.
proof fn lemma_additive_prefix_bounds(s: Seq<i64>, b: i64, j: int)
    requires
        0 <= b,
        forall|l: int| 0 <= l < s.len() ==> 0 <= #[trigger] s[l] <= b,
        0 <= j <= s.len(),
        s.len() * b <= i64::MAX,
    ensures
        0 <= fold_range::<AdditiveOperation<i64>>(s, 0, j) <= j * b,
        j > 0 ==> fold_range::<AdditiveOperation<i64>>(s, 0, j) >= fold_range::<
            AdditiveOperation<i64>,
        >(s, 0, j - 1),
    decreases j,
{
    vstd::arithmetic::mul::lemma_mul_inequality(j, s.len() as int, b as int);
    if j > 0 {
        lemma_additive_prefix_bounds(s, b, j - 1);
        assert((j - 1) * b + b == j * b) by (nonlinear_arith);
    }
}

/// Monotonicity law for [`BinaryIndexedTree::lower_bound`] over the `i64`
/// additive operation: a logical array of values in `[0, b]` whose total
/// weight `len * b` fits in `i64` has monotonically non-decreasing prefix
/// folds, so the search precondition holds for every threshold.
pub proof fn lemma_additive_prefixes_monotone(s: Seq<i64>, b: i64, x: i64)
    requires
        0 <= b,
        forall|l: int| 0 <= l < s.len() ==> 0 <= #[trigger] s[l] <= b,
        s.len() * b <= i64::MAX,
    ensures
        forall|p: int, q: int|
            #![trigger fold_range::<AdditiveOperation<i64>>(s, 0, p), fold_range::<AdditiveOperation<i64>>(s, 0, q)]
            0 <= p <= q <= s.len() && fold_range::<AdditiveOperation<i64>>(s, 0, q).is_lt(&x)
                ==> fold_range::<AdditiveOperation<i64>>(s, 0, p).is_lt(&x),
{
    assert forall|p: int, q: int|
        #![trigger fold_range::<AdditiveOperation<i64>>(s, 0, p), fold_range::<AdditiveOperation<i64>>(s, 0, q)]
        0 <= p <= q <= s.len() && fold_range::<AdditiveOperation<i64>>(s, 0, q).is_lt(
        &x,
    ) implies fold_range::<AdditiveOperation<i64>>(s, 0, p).is_lt(&x) by {
        lemma_additive_fold_steps(s, b, p, q);
    }
}

/// Prefix folds grow with the index, step by step.
proof fn lemma_additive_fold_steps(s: Seq<i64>, b: i64, p: int, q: int)
    requires
        0 <= b,
        forall|l: int| 0 <= l < s.len() ==> 0 <= #[trigger] s[l] <= b,
        0 <= p <= q <= s.len(),
        s.len() * b <= i64::MAX,
    ensures
        fold_range::<AdditiveOperation<i64>>(s, 0, p) <= fold_range::<AdditiveOperation<i64>>(
            s,
            0,
            q,
        ),
    decreases q - p,
{
    if q > p {
        lemma_additive_fold_steps(s, b, p, q - 1);
        lemma_additive_prefix_bounds(s, b, q);
    }
}

/// The round-trip law behind [`BinaryIndexedTree::set`] and
/// [`BinaryIndexedTree::get`]: `set(k, x)` turns the logical array `s` into
/// `s.update(k, x)`, and `get` reads the logical array, so a read at `k`
/// afterwards returns exactly `x` while every other position is unaffected.
pub proof fn lemma_set_get_round_trip<M: Monoid>(s: Seq<M::T>, k: int, x: M::T)
    requires
        0 <= k < s.len(),
    ensures
        s.update(k, x)[k] == x,
        s.update(k, x).len() == s.len(),
        forall|p: int| 0 <= p < s.len() && p != k ==> s.update(k, x)[p] == s[p],
{
}

/// The construction law behind [`BinaryIndexedTree::new`]: a fresh tree's
/// logical array holds the identity everywhere, so every prefix fold of it
/// is the identity.
pub proof fn lemma_new_tree_identity<M: AbelianMonoid>(n: nat, k: int)
    requires
        0 <= k <= n,
    ensures
        fold_range::<M>(Seq::new(n, |i: int| M::unit_spec()), 0, k) == M::unit_spec(),
{
    lemma_fold_range_unit::<M>(Seq::new(n, |i: int| M::unit_spec()), 0, k);
}

} // verus!
