//! Left-to-right folds of sequences (and of rectangles of a two-dimensional
//! sequence) under a unital operation, together with the algebraic lemmas the
//! Fenwick-tree proofs rest on.

use crate::algebra::{Commutative, Invertible, Monoid, Unital};
use vstd::prelude::*;

verus! {

/// Fold of `s[i..j)` under `M`, combined left to right; `unit` when `j <= i`.
pub open spec fn fold_range<M: Unital>(s: Seq<M::T>, i: int, j: int) -> M::T
    decreases j - i,
{
    if j <= i {
        M::unit_spec()
    } else {
        M::op(fold_range::<M>(s, i, j - 1), s[j - 1])
    }
}

/// Fold of the rectangle `[i1, i2) x [j1, j2)` of `s`: each row's range fold,
/// combined top to bottom.
pub open spec fn fold_rect<M: Unital>(s: Seq<Seq<M::T>>, i1: int, i2: int, j1: int, j2: int) -> M::T
    decreases i2 - i1,
{
    if i2 <= i1 {
        M::unit_spec()
    } else {
        M::op(fold_rect::<M>(s, i1, i2 - 1, j1, j2), fold_range::<M>(s[i2 - 1], j1, j2))
    }
}

/// Splitting a range fold: `fold[i, k) == fold[i, j) op fold[j, k)`.
pub proof fn lemma_fold_range_split<M: Monoid>(s: Seq<M::T>, i: int, j: int, k: int)
    requires
        i <= j <= k,
    ensures
        fold_range::<M>(s, i, k) == M::op(fold_range::<M>(s, i, j), fold_range::<M>(s, j, k)),
    decreases k - j,
{
    if k == j {
        M::unit_right(fold_range::<M>(s, i, j));
    } else {
        lemma_fold_range_split::<M>(s, i, j, k - 1);
        M::op_associative(fold_range::<M>(s, i, j), fold_range::<M>(s, j, k - 1), s[k - 1]);
    }
}

/// A range fold only reads the elements inside the range.
pub proof fn lemma_fold_range_agree<M: Unital>(s: Seq<M::T>, t: Seq<M::T>, i: int, j: int)
    requires
        forall|l: int| i <= l < j ==> s[l] == t[l],
    ensures
        fold_range::<M>(s, i, j) == fold_range::<M>(t, i, j),
    decreases j - i,
{
    if j > i {
        lemma_fold_range_agree::<M>(s, t, i, j - 1);
    }
}

/// Folding over a range of identity elements yields the identity.
pub proof fn lemma_fold_range_unit<M: Monoid>(s: Seq<M::T>, i: int, j: int)
    requires
        forall|l: int| i <= l < j ==> s[l] == M::unit_spec(),
    ensures
        fold_range::<M>(s, i, j) == M::unit_spec(),
    decreases j - i,
{
    if j > i {
        lemma_fold_range_unit::<M>(s, i, j - 1);
        M::unit_right(fold_range::<M>(s, i, j - 1));
    }
}

/// Combining `x` into position `p` changes a range fold by exactly `x` when
/// `p` lies inside the range, and not at all otherwise.  Commutativity lets
/// the contribution of `x` move past the elements that follow `p`.
pub proof fn lemma_fold_range_update<M: Monoid + Commutative>(
    s: Seq<M::T>,
    i: int,
    j: int,
    p: int,
    x: M::T,
)
    requires
        0 <= p < s.len(),
        0 <= i,
        j <= s.len(),
    ensures
        fold_range::<M>(s.update(p, M::op(s[p], x)), i, j) == if i <= p < j {
            M::op(fold_range::<M>(s, i, j), x)
        } else {
            fold_range::<M>(s, i, j)
        },
    decreases j - i,
{
    let t = s.update(p, M::op(s[p], x));
    if j <= i {
    } else if p < i || p >= j {
        assert forall|l: int| i <= l < j implies s[l] == t[l] by {
            assert(t[l] == s.update(p, M::op(s[p], x))[l]);
        }
        lemma_fold_range_agree::<M>(s, t, i, j);
    } else if p == j - 1 {
        assert forall|l: int| i <= l < j - 1 implies s[l] == t[l] by {
            assert(t[l] == s.update(p, M::op(s[p], x))[l]);
        }
        lemma_fold_range_agree::<M>(s, t, i, j - 1);
        M::op_associative(fold_range::<M>(s, i, j - 1), s[j - 1], x);
    } else {
        lemma_fold_range_update::<M>(s, i, j - 1, p, x);
        M::op_associative(fold_range::<M>(s, i, j - 1), x, s[j - 1]);
        M::op_commutative(x, s[j - 1]);
        M::op_associative(fold_range::<M>(s, i, j - 1), s[j - 1], x);
    }
}

/// Exchange law of a commutative operation:
/// `(a op b) op (c op d) == (a op c) op (b op d)`.
pub proof fn lemma_op_exchange<M: Monoid + Commutative>(a: M::T, b: M::T, c: M::T, d: M::T)
    ensures
        M::op(M::op(a, b), M::op(c, d)) == M::op(M::op(a, c), M::op(b, d)),
{
    M::op_associative(a, b, M::op(c, d));
    M::op_associative(b, c, d);
    M::op_commutative(b, c);
    M::op_associative(c, b, d);
    M::op_associative(a, c, M::op(b, d));
}

/// A rectangle fold over an empty column range is the identity.
pub proof fn lemma_fold_rect_empty_cols<M: Monoid>(s: Seq<Seq<M::T>>, i1: int, i2: int, j: int)
    ensures
        fold_rect::<M>(s, i1, i2, j, j) == M::unit_spec(),
    decreases i2 - i1,
{
    if i2 > i1 {
        lemma_fold_rect_empty_cols::<M>(s, i1, i2 - 1, j);
        M::unit_right(M::unit_spec());
    }
}

/// Splitting a rectangle fold at a row boundary.
pub proof fn lemma_fold_rect_split_rows<M: Monoid>(
    s: Seq<Seq<M::T>>,
    i1: int,
    i2: int,
    i3: int,
    j1: int,
    j2: int,
)
    requires
        i1 <= i2 <= i3,
    ensures
        fold_rect::<M>(s, i1, i3, j1, j2) == M::op(
            fold_rect::<M>(s, i1, i2, j1, j2),
            fold_rect::<M>(s, i2, i3, j1, j2),
        ),
    decreases i3 - i2,
{
    if i3 == i2 {
        M::unit_right(fold_rect::<M>(s, i1, i2, j1, j2));
    } else {
        lemma_fold_rect_split_rows::<M>(s, i1, i2, i3 - 1, j1, j2);
        M::op_associative(
            fold_rect::<M>(s, i1, i2, j1, j2),
            fold_rect::<M>(s, i2, i3 - 1, j1, j2),
            fold_range::<M>(s[i3 - 1], j1, j2),
        );
    }
}

/// Splitting a rectangle fold at a column boundary.  Commutativity lets the
/// two column blocks of each row be regrouped across rows.
pub proof fn lemma_fold_rect_split_cols<M: Monoid + Commutative>(
    s: Seq<Seq<M::T>>,
    i1: int,
    i2: int,
    j1: int,
    j2: int,
    j3: int,
)
    requires
        j1 <= j2 <= j3,
    ensures
        fold_rect::<M>(s, i1, i2, j1, j3) == M::op(
            fold_rect::<M>(s, i1, i2, j1, j2),
            fold_rect::<M>(s, i1, i2, j2, j3),
        ),
    decreases i2 - i1,
{
    if i2 <= i1 {
        M::unit_left(M::unit_spec());
    } else {
        lemma_fold_rect_split_cols::<M>(s, i1, i2 - 1, j1, j2, j3);
        lemma_fold_range_split::<M>(s[i2 - 1], j1, j2, j3);
        lemma_op_exchange::<M>(
            fold_rect::<M>(s, i1, i2 - 1, j1, j2),
            fold_rect::<M>(s, i1, i2 - 1, j2, j3),
            fold_range::<M>(s[i2 - 1], j1, j2),
            fold_range::<M>(s[i2 - 1], j2, j3),
        );
    }
}

/// A rectangle fold only reads the rows inside its row range.
pub proof fn lemma_fold_rect_agree<M: Unital>(
    s: Seq<Seq<M::T>>,
    t: Seq<Seq<M::T>>,
    i1: int,
    i2: int,
    j1: int,
    j2: int,
)
    requires
        forall|r: int| i1 <= r < i2 ==> s[r] == t[r],
    ensures
        fold_rect::<M>(s, i1, i2, j1, j2) == fold_rect::<M>(t, i1, i2, j1, j2),
    decreases i2 - i1,
{
    if i2 > i1 {
        lemma_fold_rect_agree::<M>(s, t, i1, i2 - 1, j1, j2);
    }
}

/// Folding a rectangle of identity elements yields the identity.
pub proof fn lemma_fold_rect_unit<M: Monoid>(
    s: Seq<Seq<M::T>>,
    i1: int,
    i2: int,
    j1: int,
    j2: int,
)
    requires
        forall|r: int, c: int|
            i1 <= r < i2 && j1 <= c < j2 ==> #[trigger] s[r][c] == M::unit_spec(),
    ensures
        fold_rect::<M>(s, i1, i2, j1, j2) == M::unit_spec(),
    decreases i2 - i1,
{
    if i2 > i1 {
        lemma_fold_rect_unit::<M>(s, i1, i2 - 1, j1, j2);
        lemma_fold_range_unit::<M>(s[i2 - 1], j1, j2);
        M::unit_right(M::unit_spec());
    }
}

/// Combining `x` into the cell `(p, q)` changes a rectangle fold by exactly
/// `x` when the cell lies inside the rectangle, and not at all otherwise.
pub proof fn lemma_fold_rect_update<M: Monoid + Commutative>(
    s: Seq<Seq<M::T>>,
    i1: int,
    i2: int,
    j1: int,
    j2: int,
    p: int,
    q: int,
    x: M::T,
)
    requires
        0 <= p < s.len(),
        0 <= q < s[p].len(),
        0 <= i1,
        i2 <= s.len(),
        0 <= j1,
        j2 <= s[p].len(),
    ensures
        fold_rect::<M>(s.update(p, s[p].update(q, M::op(s[p][q], x))), i1, i2, j1, j2) == if i1
            <= p < i2 && j1 <= q < j2 {
            M::op(fold_rect::<M>(s, i1, i2, j1, j2), x)
        } else {
            fold_rect::<M>(s, i1, i2, j1, j2)
        },
    decreases i2 - i1,
{
    let t = s.update(p, s[p].update(q, M::op(s[p][q], x)));
    if i2 <= i1 {
    } else if p < i1 || p >= i2 {
        assert forall|r: int| i1 <= r < i2 implies t[r] == s[r] by {
            assert(t[r] == s.update(p, s[p].update(q, M::op(s[p][q], x)))[r]);
        }
        lemma_fold_rect_agree::<M>(t, s, i1, i2, j1, j2);
    } else if p == i2 - 1 {
        assert forall|r: int| i1 <= r < i2 - 1 implies t[r] == s[r] by {
            assert(t[r] == s.update(p, s[p].update(q, M::op(s[p][q], x)))[r]);
        }
        lemma_fold_rect_agree::<M>(t, s, i1, i2 - 1, j1, j2);
        lemma_fold_range_update::<M>(s[p], j1, j2, q, x);
        if j1 <= q < j2 {
            M::op_associative(fold_rect::<M>(s, i1, i2 - 1, j1, j2), fold_range::<M>(s[p], j1, j2), x);
        }
    } else {
        lemma_fold_rect_update::<M>(s, i1, i2 - 1, j1, j2, p, q, x);
        assert(t[i2 - 1] == s[i2 - 1]);
        if j1 <= q < j2 {
            M::op_associative(fold_rect::<M>(s, i1, i2 - 1, j1, j2), x, fold_range::<M>(s[i2 - 1], j1, j2));
            M::op_commutative(x, fold_range::<M>(s[i2 - 1], j1, j2));
            M::op_associative(fold_rect::<M>(s, i1, i2 - 1, j1, j2), fold_range::<M>(s[i2 - 1], j1, j2), x);
        }
    }
}

/// In a monoid, an element with `a op b == unit` is the inverse of `a`.
pub proof fn lemma_inverse_unique<M: Monoid + Invertible>(a: M::T, b: M::T)
    requires
        M::op(a, b) == M::unit_spec(),
    ensures
        b == M::inv_spec(a),
{
    M::unit_left(b);
    M::inverse_left(a);
    M::op_associative(M::inv_spec(a), a, b);
    M::unit_right(M::inv_spec(a));
}

/// In a commutative group the inverse distributes over the operation.
pub proof fn lemma_inverse_of_op<M: Monoid + Invertible + Commutative>(a: M::T, b: M::T)
    ensures
        M::inv_spec(M::op(a, b)) == M::op(M::inv_spec(a), M::inv_spec(b)),
{
    M::op_associative(M::op(a, b), M::inv_spec(b), M::inv_spec(a));
    M::op_associative(a, b, M::inv_spec(b));
    M::inverse_right(b);
    M::unit_right(a);
    M::inverse_right(a);
    lemma_inverse_unique::<M>(M::op(a, b), M::op(M::inv_spec(b), M::inv_spec(a)));
    M::op_commutative(M::inv_spec(b), M::inv_spec(a));
}

/// Cancellation on the left: `inverse(a) op (a op b) == b`.
pub proof fn lemma_cancel_left<M: Monoid + Invertible>(a: M::T, b: M::T)
    ensures
        M::op(M::inv_spec(a), M::op(a, b)) == b,
{
    M::op_associative(M::inv_spec(a), a, b);
    M::inverse_left(a);
    M::unit_left(b);
}

/// The prefix-difference law: for `i <= j`, combining the inverse of the
/// prefix fold at `i` with the prefix fold at `j` yields the fold of `[i, j)`.
pub proof fn lemma_prefix_difference<M: Monoid + Invertible>(s: Seq<M::T>, i: int, j: int)
    requires
        0 <= i <= j,
    ensures
        M::op(M::inv_spec(fold_range::<M>(s, 0, i)), fold_range::<M>(s, 0, j)) == fold_range::<M>(
            s,
            i,
            j,
        ),
{
    lemma_fold_range_split::<M>(s, 0, i, j);
    lemma_cancel_left::<M>(fold_range::<M>(s, 0, i), fold_range::<M>(s, i, j));
}

} // verus!
