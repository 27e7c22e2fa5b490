//! Two-dimensional Fenwick (binary indexed) tree over a commutative monoid.
//!
//! The tree aggregates an `h x w` logical grid, kept as a ghost sequence of
//! rows.  Slot `(a, b)` (1-indexed on both axes) holds the fold of the
//! sub-rectangle `[a - lowbit(a), a) x [b - lowbit(b), b)` of the grid; the
//! update and prefix-fold walks of the one-dimensional tree are applied
//! independently on each axis.  Under a group operation, the fold over an
//! arbitrary origin-anchored rectangle is derived from four prefix folds by
//! inclusion–exclusion.

use crate::algebra::{AbelianGroup, AbelianMonoid, Magma, Monoid, Unital};
use crate::binary_indexed_tree::chain_remaining;
use crate::folds::{
    fold_range, fold_rect, lemma_cancel_left, lemma_fold_rect_empty_cols,
    lemma_fold_rect_split_cols, lemma_fold_rect_split_rows, lemma_fold_rect_unit,
    lemma_fold_rect_update, lemma_inverse_of_op, lemma_op_exchange,
};
use crate::lowbit::{
    lemma_lowbit_between, lemma_lowbit_bounds, lemma_lowbit_step_up, lowbit, lowbit_of,
};
use vstd::prelude::*;

verus! {

/// Fenwick tree over an `h x w` grid of logical positions, folding with the
/// operation `M`.
pub struct BinaryIndexedTree2D<M: Monoid> {
    h: usize,
    w: usize,
    bit: Vec<Vec<M::T>>,
    m: M,
    data: Ghost<Seq<Seq<M::T>>>,
}

impl<M: Monoid> View for BinaryIndexedTree2D<M> {
    type V = Seq<Seq<M::T>>;

    /// The logical grid, one inner sequence per row.
    closed spec fn view(&self) -> Seq<Seq<M::T>> {
        self.data@
    }
}

impl<M: Monoid> BinaryIndexedTree2D<M> {
    /// The height `h` of the logical grid.
    pub closed spec fn height(&self) -> usize {
        self.h
    }

    /// The width `w` of the logical grid.
    pub closed spec fn width(&self) -> usize {
        self.w
    }

    /// Structural invariant: slot `(a, b)` holds the fold of the
    /// sub-rectangle `[a - lowbit(a), a) x [b - lowbit(b), b)` of the grid.
    pub closed spec fn wf(&self) -> bool {
        &&& self.bit@.len() == self.h + 1
        &&& self.data@.len() == self.h as int
        &&& self.h <= usize::MAX / 2
        &&& self.w <= usize::MAX / 2
        &&& forall|a: int| 0 <= a <= self.h ==> (#[trigger] self.bit@[a])@.len() == self.w + 1
        &&& forall|r: int| 0 <= r < self.h ==> (#[trigger] self.data@[r]).len() == self.w as int
        &&& forall|a: int, b: int|
            1 <= a <= self.h && 1 <= b <= self.w ==> #[trigger] self.bit@[a]@[b] == fold_rect::<
                M,
            >(
                self.data@,
                a - lowbit(a as usize) as int,
                a,
                b - lowbit(b as usize) as int,
                b,
            )
    }
}

impl<M: AbelianMonoid> BinaryIndexedTree2D<M> {
    /// Builds a tree over an `h x w` grid, all positions holding the
    /// identity.
    ///
    /// The bounds are machine limits: the update chains walk to indices up
    /// to twice each dimension, which must stay representable.
    pub fn new(h: usize, w: usize, m: M) -> (r: Self)
        requires
            h <= usize::MAX / 2,
            w <= usize::MAX / 2,
        ensures
            r.wf(),
            r.height() == h,
            r.width() == w,
            r@ == Seq::new(h as nat, |i: int| Seq::new(w as nat, |j: int| M::unit_spec())),
    {
        let mut bit: Vec<Vec<M::T>> = Vec::new();
        let mut a: usize = 0;
        while a <= h
            invariant
                h <= usize::MAX / 2,
                w <= usize::MAX / 2,
                a <= h + 1,
                bit@.len() == a as int,
                forall|s: int| 0 <= s < a ==> (#[trigger] bit@[s])@.len() == w + 1,
                forall|s: int, t: int|
                    0 <= s < a && 0 <= t <= w ==> #[trigger] bit@[s]@[t] == M::unit_spec(),
            decreases h + 1 - a,
        {
            let mut row: Vec<M::T> = Vec::new();
            let mut b: usize = 0;
            while b <= w
                invariant
                    w <= usize::MAX / 2,
                    b <= w + 1,
                    row@.len() == b as int,
                    forall|t: int| 0 <= t < b ==> row@[t] == M::unit_spec(),
                decreases w + 1 - b,
            {
                row.push(M::unit());
                b += 1;
            }
            bit.push(row);
            a += 1;
        }
        let ghost grid = Seq::new(h as nat, |i: int| Seq::new(w as nat, |j: int| M::unit_spec()));
        let r = BinaryIndexedTree2D { h, w, bit, m, data: Ghost(grid) };
        proof {
            assert forall|a: int, b: int|
                1 <= a <= h && 1 <= b <= w implies #[trigger] r.bit@[a]@[b] == fold_rect::<M>(
                grid,
                a - lowbit(a as usize) as int,
                a,
                b - lowbit(b as usize) as int,
                b,
            ) by {
                lemma_lowbit_bounds(a as usize);
                lemma_lowbit_bounds(b as usize);
                lemma_fold_rect_unit::<M>(
                    grid,
                    a - lowbit(a as usize) as int,
                    a,
                    b - lowbit(b as usize) as int,
                    b,
                );
            }
        }
        r
    }

    /// Fold of the rectangle `[0, i) x [0, j)`.
    pub fn accumulate0(&self, i: usize, j: usize) -> (r: M::T)
        requires
            self.wf(),
            i <= self@.len(),
            j <= self.width(),
        ensures
            r == fold_rect::<M>(self@, 0, i as int, 0, j as int),
    {
        let ghost s = self@;
        let mut res = M::unit();
        let mut a = i;
        while a > 0
            invariant
                self.wf(),
                self@ == s,
                a <= i <= self.height(),
                j <= self.width(),
                res == fold_rect::<M>(s, a as int, i as int, 0, j as int),
            decreases a,
        {
            proof {
                lemma_lowbit_bounds(a);
            }
            let ghost arow_lo = a as int - lowbit(a) as int;
            let mut b = j;
            proof {
                lemma_fold_rect_empty_cols::<M>(s, arow_lo, a as int, j as int);
                M::unit_left(fold_rect::<M>(s, a as int, i as int, 0, j as int));
            }
            while b > 0
                invariant
                    self.wf(),
                    self@ == s,
                    1 <= a <= i <= self.height(),
                    b <= j <= self.width(),
                    arow_lo == a as int - lowbit(a) as int,
                    res == M::op(
                        fold_rect::<M>(s, arow_lo, a as int, b as int, j as int),
                        fold_rect::<M>(s, a as int, i as int, 0, j as int),
                    ),
                decreases b,
            {
                proof {
                    lemma_lowbit_bounds(b);
                    let x_b = fold_rect::<M>(s, arow_lo, a as int, b as int, j as int);
                    let y = fold_rect::<M>(s, a as int, i as int, 0, j as int);
                    let r_b = fold_rect::<M>(
                        s,
                        arow_lo,
                        a as int,
                        b as int - lowbit(b) as int,
                        b as int,
                    );
                    M::op_associative(x_b, y, r_b);
                    M::op_commutative(y, r_b);
                    M::op_associative(x_b, r_b, y);
                    M::op_commutative(x_b, r_b);
                    lemma_fold_rect_split_cols::<M>(
                        s,
                        arow_lo,
                        a as int,
                        b as int - lowbit(b) as int,
                        b as int,
                        j as int,
                    );
                }
                res = M::operate(&res, &self.bit[a][b]);
                b -= lowbit_of(b);
            }
            proof {
                lemma_fold_rect_split_rows::<M>(s, arow_lo, a as int, i as int, 0, j as int);
            }
            a -= lowbit_of(a);
        }
        res
    }

    /// Fold of the rectangle `[0, i] x [0, j]`.
    pub fn accumulate(&self, i: usize, j: usize) -> (r: M::T)
        requires
            self.wf(),
            i < self@.len(),
            j < self.width(),
        ensures
            r == fold_rect::<M>(self@, 0, i + 1, 0, j + 1),
    {
        self.accumulate0(i + 1, j + 1)
    }

    /// Folds `x` into position `(i, j)`: the logical grid changes only at
    /// that cell, which now holds `old value op x`.
    pub fn update(&mut self, i: usize, j: usize, x: M::T)
        requires
            old(self).wf(),
            i < old(self)@.len(),
            j < old(self).width(),
        ensures
            final(self).wf(),
            final(self).height() == old(self).height(),
            final(self).width() == old(self).width(),
            final(self)@ == old(self)@.update(
                i as int,
                old(self)@[i as int].update(j as int, M::op(old(self)@[i as int][j as int], x)),
            ),
    {
        let ghost olddata = self.data@;
        let ghost newdata = olddata.update(
            i as int,
            olddata[i as int].update(j as int, M::op(olddata[i as int][j as int], x)),
        );
        proof {
            self.data@ = newdata;
        }
        let mut a = i + 1;
        proof {
            lemma_lowbit_bounds(a);
            assert forall|s: int, t: int|
                #![trigger fold_rect::<M>(newdata, s - lowbit(s as usize) as int, s, t - lowbit(t as usize) as int, t)]
                1 <= s <= i && 1 <= t <= self.w implies fold_rect::<M>(
                newdata,
                s - lowbit(s as usize) as int,
                s,
                t - lowbit(t as usize) as int,
                t,
            ) == fold_rect::<M>(
                olddata,
                s - lowbit(s as usize) as int,
                s,
                t - lowbit(t as usize) as int,
                t,
            ) by {
                lemma_lowbit_bounds(s as usize);
                lemma_lowbit_bounds(t as usize);
                lemma_fold_rect_update::<M>(
                    olddata,
                    s - lowbit(s as usize) as int,
                    s,
                    t - lowbit(t as usize) as int,
                    t,
                    i as int,
                    j as int,
                    x,
                );
            }
        }
        while a <= self.h
            invariant
                self.bit@.len() == self.h + 1,
                self.h <= usize::MAX / 2,
                self.w <= usize::MAX / 2,
                olddata.len() == self.h as int,
                forall|s: int| 0 <= s <= self.h ==> (#[trigger] self.bit@[s])@.len() == self.w + 1,
                forall|r: int| 0 <= r < self.h ==> (#[trigger] olddata[r]).len() == self.w as int,
                i < self.h,
                j < self.w,
                newdata == olddata.update(
                    i as int,
                    olddata[i as int].update(j as int, M::op(olddata[i as int][j as int], x)),
                ),
                self.data@ == newdata,
                i as int + 1 <= a as int,
                a as int - lowbit(a) as int <= i as int,
                1 <= a,
                forall|s: int, t: int|
                    1 <= s <= self.h && 1 <= t <= self.w ==> #[trigger] self.bit@[s]@[t] == if s
                        < a as int {
                        fold_rect::<M>(
                            newdata,
                            s - lowbit(s as usize) as int,
                            s,
                            t - lowbit(t as usize) as int,
                            t,
                        )
                    } else {
                        fold_rect::<M>(
                            olddata,
                            s - lowbit(s as usize) as int,
                            s,
                            t - lowbit(t as usize) as int,
                            t,
                        )
                    },
            decreases chain_remaining(self.h, a),
        {
            let ghost olda = a as int;
            let mut b = j + 1;
            proof {
                lemma_lowbit_bounds(b);
                lemma_lowbit_bounds(a);
                assert forall|t: int|
                    #![trigger lowbit(t as usize)]
                    1 <= t <= j implies fold_rect::<M>(
                    newdata,
                    olda - lowbit(a) as int,
                    olda,
                    t - lowbit(t as usize) as int,
                    t,
                ) == fold_rect::<M>(
                    olddata,
                    olda - lowbit(a) as int,
                    olda,
                    t - lowbit(t as usize) as int,
                    t,
                ) by {
                    lemma_lowbit_bounds(t as usize);
                    lemma_fold_rect_update::<M>(
                        olddata,
                        olda - lowbit(a) as int,
                        olda,
                        t - lowbit(t as usize) as int,
                        t,
                        i as int,
                        j as int,
                        x,
                    );
                }
            }
            while b <= self.w
                invariant
                    self.bit@.len() == self.h + 1,
                    self.h <= usize::MAX / 2,
                    self.w <= usize::MAX / 2,
                    olddata.len() == self.h as int,
                    forall|s: int|
                        0 <= s <= self.h ==> (#[trigger] self.bit@[s])@.len() == self.w + 1,
                    forall|r: int|
                        0 <= r < self.h ==> (#[trigger] olddata[r]).len() == self.w as int,
                    i < self.h,
                    j < self.w,
                    newdata == olddata.update(
                        i as int,
                        olddata[i as int].update(j as int, M::op(olddata[i as int][j as int], x)),
                    ),
                    self.data@ == newdata,
                    a == olda,
                    1 <= a <= self.h,
                    a as int - lowbit(a) as int <= i as int,
                    i < a,
                    j as int + 1 <= b as int,
                    b as int - lowbit(b) as int <= j as int,
                    1 <= b,
                    forall|s: int, t: int|
                        1 <= s <= self.h && 1 <= t <= self.w ==> #[trigger] self.bit@[s]@[t]
                            == if s < a as int || (s == a as int && t < b as int) {
                            fold_rect::<M>(
                                newdata,
                                s - lowbit(s as usize) as int,
                                s,
                                t - lowbit(t as usize) as int,
                                t,
                            )
                        } else {
                            fold_rect::<M>(
                                olddata,
                                s - lowbit(s as usize) as int,
                                s,
                                t - lowbit(t as usize) as int,
                                t,
                            )
                        },
                decreases chain_remaining(self.w, b),
            {
                let ghost oldb = b as int;
                let v = M::operate(&self.bit[a][b], &x);
                self.bit[a][b] = v;
                proof {
                    lemma_lowbit_bounds(a);
                    lemma_lowbit_bounds(b);
                    lemma_fold_rect_update::<M>(
                        olddata,
                        olda - lowbit(a) as int,
                        olda,
                        oldb - lowbit(b) as int,
                        oldb,
                        i as int,
                        j as int,
                        x,
                    );
                    assert(((b + lowbit(b)) as usize) as int == b + lowbit(b));
                    lemma_lowbit_step_up(b);
                }
                b += lowbit_of(b);
                proof {
                    assert forall|t: int|
                        #![trigger lowbit(t as usize)]
                        oldb < t < b as int && t <= self.w implies fold_rect::<M>(
                        newdata,
                        olda - lowbit(a) as int,
                        olda,
                        t - lowbit(t as usize) as int,
                        t,
                    ) == fold_rect::<M>(
                        olddata,
                        olda - lowbit(a) as int,
                        olda,
                        t - lowbit(t as usize) as int,
                        t,
                    ) by {
                        lemma_lowbit_between(oldb as usize, t as usize);
                        lemma_fold_rect_update::<M>(
                            olddata,
                            olda - lowbit(a) as int,
                            olda,
                            t - lowbit(t as usize) as int,
                            t,
                            i as int,
                            j as int,
                            x,
                        );
                    }
                }
            }
            proof {
                lemma_lowbit_bounds(a);
                assert(((a + lowbit(a)) as usize) as int == a + lowbit(a));
                lemma_lowbit_step_up(a);
            }
            a += lowbit_of(a);
            proof {
                assert forall|s: int, t: int|
                    #![trigger fold_rect::<M>(newdata, s - lowbit(s as usize) as int, s, t - lowbit(t as usize) as int, t)]
                    olda < s < a as int && s <= self.h && 1 <= t <= self.w implies fold_rect::<M>(
                    newdata,
                    s - lowbit(s as usize) as int,
                    s,
                    t - lowbit(t as usize) as int,
                    t,
                ) == fold_rect::<M>(
                    olddata,
                    s - lowbit(s as usize) as int,
                    s,
                    t - lowbit(t as usize) as int,
                    t,
                ) by {
                    lemma_lowbit_between(olda as usize, s as usize);
                    lemma_lowbit_bounds(t as usize);
                    lemma_fold_rect_update::<M>(
                        olddata,
                        s - lowbit(s as usize) as int,
                        s,
                        t - lowbit(t as usize) as int,
                        t,
                        i as int,
                        j as int,
                        x,
                    );
                }
            }
        }
    }
}

impl<G: AbelianGroup> BinaryIndexedTree2D<G> {
    /// Fold of the rectangle `[i1, i2) x [j1, j2)`, derived from four
    /// origin-anchored prefix folds by inclusion–exclusion.
    pub fn fold(&self, i1: usize, j1: usize, i2: usize, j2: usize) -> (res: G::T)
        requires
            self.wf(),
            i1 <= i2 <= self@.len(),
            j1 <= j2 <= self.width(),
        ensures
            res == fold_rect::<G>(self@, i1 as int, i2 as int, j1 as int, j2 as int),
    {
        let ghost s = self@;
        let ghost r11 = fold_rect::<G>(s, 0, i1 as int, 0, j1 as int);
        let ghost r12 = fold_rect::<G>(s, 0, i1 as int, j1 as int, j2 as int);
        let ghost r21 = fold_rect::<G>(s, i1 as int, i2 as int, 0, j1 as int);
        let ghost r22 = fold_rect::<G>(s, i1 as int, i2 as int, j1 as int, j2 as int);
        let mut res = G::unit();
        let a11 = self.accumulate0(i1, j1);
        res = G::operate(&res, &a11);
        proof {
            G::unit_left(r11);
        }
        let a12 = self.accumulate0(i1, j2);
        res = G::rinv_operate(&res, &a12);
        proof {
            lemma_fold_rect_split_cols::<G>(s, 0, i1 as int, 0, j1 as int, j2 as int);
            lemma_inverse_of_op::<G>(r11, r12);
            G::op_associative(r11, G::inv_spec(r11), G::inv_spec(r12));
            G::inverse_right(r11);
            G::unit_left(G::inv_spec(r12));
        }
        let a21 = self.accumulate0(i2, j1);
        res = G::rinv_operate(&res, &a21);
        let a22 = self.accumulate0(i2, j2);
        res = G::operate(&res, &a22);
        proof {
            lemma_fold_rect_split_rows::<G>(s, 0, i1 as int, i2 as int, 0, j1 as int);
            lemma_fold_rect_split_rows::<G>(s, 0, i1 as int, i2 as int, 0, j2 as int);
            lemma_fold_rect_split_cols::<G>(s, 0, i1 as int, 0, j1 as int, j2 as int);
            lemma_fold_rect_split_cols::<G>(s, i1 as int, i2 as int, 0, j1 as int, j2 as int);
            lemma_op_exchange::<G>(r11, r12, r21, r22);
            let big_s = G::op(r11, r21);
            let big_t = G::op(r12, r22);
            lemma_inverse_of_op::<G>(r11, r21);
            G::op_commutative(G::inv_spec(r11), G::inv_spec(r21));
            G::op_associative(G::inv_spec(r12), G::inv_spec(big_s), G::op(big_s, big_t));
            lemma_cancel_left::<G>(big_s, big_t);
            lemma_cancel_left::<G>(r12, r22);
        }
        res
    }

    /// The value at position `(i, j)`.
    pub fn get(&self, i: usize, j: usize) -> (res: G::T)
        requires
            self.wf(),
            i < self@.len(),
            j < self.width(),
        ensures
            res == self@[i as int][j as int],
    {
        let res = self.fold(i, j, i + 1, j + 1);
        proof {
            let s = self@;
            assert(fold_rect::<G>(s, i as int, i + 1, j as int, j + 1) == G::op(
                fold_rect::<G>(s, i as int, i as int, j as int, j + 1),
                fold_range::<G>(s[i as int], j as int, j + 1),
            ));
            assert(fold_range::<G>(s[i as int], j as int, j + 1) == G::op(
                fold_range::<G>(s[i as int], j as int, j as int),
                s[i as int][j as int],
            ));
            G::unit_left(s[i as int][j as int]);
            G::unit_left(G::op(G::unit_spec(), s[i as int][j as int]));
        }
        res
    }

    /// Overwrites position `(i, j)` with `x`, by folding in the delta
    /// `inverse(get(i, j)) op x`.
    pub fn set(&mut self, i: usize, j: usize, x: G::T)
        requires
            old(self).wf(),
            i < old(self)@.len(),
            j < old(self).width(),
        ensures
            final(self).wf(),
            final(self).height() == old(self).height(),
            final(self).width() == old(self).width(),
            final(self)@ == old(self)@.update(
                i as int,
                old(self)@[i as int].update(j as int, x),
            ),
    {
        let cur = self.get(i, j);
        let y = G::inverse(&cur);
        let z = G::operate(&y, &x);
        proof {
            let a = old(self)@[i as int][j as int];
            G::op_associative(a, G::inv_spec(a), x);
            G::inverse_right(a);
            G::unit_left(x);
        }
        self.update(i, j, z);
    }
}

} // verus!
