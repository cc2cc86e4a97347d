//! Counting cells of a rectangle that satisfy a predicate, and the lemmas
//! the field operations need: counts of pointwise-equal predicates agree,
//! flipping one cell moves the count by one, and a positive count yields a
//! witness.

use vstd::prelude::*;

verus! {

/// How many `x` in `[0, n)` satisfy `p(x, y)`.
pub open spec fn count_row(p: spec_fn(int, int) -> bool, y: int, n: int) -> int
    decreases n,
{
    if n <= 0 {
        0
    } else {
        count_row(p, y, n - 1) + (if p(n - 1, y) {
            1int
        } else {
            0int
        })
    }
}

/// How many cells `(x, y)` in `[0, w) x [0, h)` satisfy `p(x, y)`.
pub open spec fn count_rect(p: spec_fn(int, int) -> bool, w: int, h: int) -> int
    decreases h,
{
    if h <= 0 {
        0
    } else {
        count_rect(p, w, h - 1) + count_row(p, h - 1, w)
    }
}

pub proof fn lemma_count_row_bounds(p: spec_fn(int, int) -> bool, y: int, n: int)
    ensures
        0 <= count_row(p, y, n),
        n >= 0 ==> count_row(p, y, n) <= n,
    decreases n,
{
    if n > 0 {
        lemma_count_row_bounds(p, y, n - 1);
    }
}

pub proof fn lemma_count_rect_nonneg(p: spec_fn(int, int) -> bool, w: int, h: int)
    ensures
        0 <= count_rect(p, w, h),
    decreases h,
{
    if h > 0 {
        lemma_count_rect_nonneg(p, w, h - 1);
        lemma_count_row_bounds(p, h - 1, w);
    }
}

/// Predicates that agree on a row give the same row count.
pub proof fn lemma_count_row_equal(
    p: spec_fn(int, int) -> bool,
    q: spec_fn(int, int) -> bool,
    y: int,
    n: int,
)
    requires
        forall|x: int| 0 <= x < n ==> #[trigger] p(x, y) == q(x, y),
    ensures
        count_row(p, y, n) == count_row(q, y, n),
    decreases n,
{
    if n > 0 {
        lemma_count_row_equal(p, q, y, n - 1);
    }
}

/// Predicates that agree on a rectangle give the same count.
pub proof fn lemma_count_rect_equal(
    p: spec_fn(int, int) -> bool,
    q: spec_fn(int, int) -> bool,
    w: int,
    h: int,
)
    requires
        forall|x: int, y: int| 0 <= x < w && 0 <= y < h ==> #[trigger] p(x, y) == q(x, y),
    ensures
        count_rect(p, w, h) == count_rect(q, w, h),
    decreases h,
{
    if h > 0 {
        lemma_count_rect_equal(p, q, w, h - 1);
        lemma_count_row_equal(p, q, h - 1, w);
    }
}

/// Setting one cell of a row from false to true raises the row count by one.
pub proof fn lemma_count_row_flip(
    p: spec_fn(int, int) -> bool,
    q: spec_fn(int, int) -> bool,
    y: int,
    n: int,
    fx: int,
)
    requires
        0 <= fx < n,
        !p(fx, y),
        q(fx, y),
        forall|x: int| 0 <= x < n && x != fx ==> #[trigger] p(x, y) == q(x, y),
    ensures
        count_row(q, y, n) == count_row(p, y, n) + 1,
    decreases n,
{
    if fx == n - 1 {
        lemma_count_row_equal(p, q, y, n - 1);
    } else {
        lemma_count_row_flip(p, q, y, n - 1, fx);
    }
}

/// Setting one cell of a rectangle from false to true raises the count by
/// one.
pub proof fn lemma_count_rect_flip(
    p: spec_fn(int, int) -> bool,
    q: spec_fn(int, int) -> bool,
    w: int,
    h: int,
    fx: int,
    fy: int,
)
    requires
        0 <= fx < w,
        0 <= fy < h,
        !p(fx, fy),
        q(fx, fy),
        forall|x: int, y: int| 0 <= x < w && 0 <= y < h && !(x == fx && y == fy) ==> #[trigger] p(
            x,
            y,
        ) == q(x, y),
    ensures
        count_rect(q, w, h) == count_rect(p, w, h) + 1,
    decreases h,
{
    if fy == h - 1 {
        lemma_count_rect_equal(p, q, w, h - 1);
        lemma_count_row_flip(p, q, h - 1, w, fx);
    } else {
        lemma_count_rect_flip(p, q, w, h - 1, fx, fy);
        lemma_count_row_equal(p, q, h - 1, w);
    }
}

/// A row on which the predicate never holds counts zero.
pub proof fn lemma_count_row_zero(p: spec_fn(int, int) -> bool, y: int, n: int)
    requires
        forall|x: int| 0 <= x < n ==> !#[trigger] p(x, y),
    ensures
        count_row(p, y, n) == 0,
    decreases n,
{
    if n > 0 {
        lemma_count_row_zero(p, y, n - 1);
    }
}

/// A rectangle on which the predicate never holds counts zero.
pub proof fn lemma_count_rect_zero(p: spec_fn(int, int) -> bool, w: int, h: int)
    requires
        forall|x: int, y: int| 0 <= x < w && 0 <= y < h ==> !#[trigger] p(x, y),
    ensures
        count_rect(p, w, h) == 0,
    decreases h,
{
    if h > 0 {
        lemma_count_rect_zero(p, w, h - 1);
        lemma_count_row_zero(p, h - 1, w);
    }
}

/// A row on which the predicate always holds counts its full length.
pub proof fn lemma_count_row_full(p: spec_fn(int, int) -> bool, y: int, n: int)
    requires
        n >= 0,
        forall|x: int| 0 <= x < n ==> #[trigger] p(x, y),
    ensures
        count_row(p, y, n) == n,
    decreases n,
{
    if n > 0 {
        lemma_count_row_full(p, y, n - 1);
    }
}

/// A rectangle on which the predicate always holds counts its full area.
pub proof fn lemma_count_rect_full(p: spec_fn(int, int) -> bool, w: int, h: int)
    requires
        w >= 0,
        h >= 0,
        forall|x: int, y: int| 0 <= x < w && 0 <= y < h ==> #[trigger] p(x, y),
    ensures
        count_rect(p, w, h) == w * h,
    decreases h,
{
    if h > 0 {
        lemma_count_rect_full(p, w, h - 1);
        lemma_count_row_full(p, h - 1, w);
        assert(w * h == w * (h - 1) + w) by (nonlinear_arith);
    } else {
        assert(w * h == 0) by (nonlinear_arith)
            requires
                h == 0,
        ;
    }
}

/// A positive row count yields a witness in the row.
pub proof fn lemma_count_row_pos_exists(p: spec_fn(int, int) -> bool, y: int, n: int)
    requires
        count_row(p, y, n) > 0,
    ensures
        exists|x: int| 0 <= x < n && #[trigger] p(x, y),
    decreases n,
{
    if n > 0 && !p(n - 1, y) {
        lemma_count_row_pos_exists(p, y, n - 1);
    }
}

/// A positive rectangle count yields a witness in the rectangle.
pub proof fn lemma_count_rect_pos_exists(p: spec_fn(int, int) -> bool, w: int, h: int)
    requires
        count_rect(p, w, h) > 0,
    ensures
        exists|x: int, y: int| 0 <= x < w && 0 <= y < h && #[trigger] p(x, y),
    decreases h,
{
    if h > 0 {
        if count_row(p, h - 1, w) > 0 {
            lemma_count_row_pos_exists(p, h - 1, w);
            let x = choose|x: int| 0 <= x < w && #[trigger] p(x, h - 1);
            assert(0 <= x < w && 0 <= h - 1 < h && p(x, h - 1));
        } else {
            lemma_count_row_bounds(p, h - 1, w);
            lemma_count_rect_pos_exists(p, w, h - 1);
        }
    }
}

} // verus!
