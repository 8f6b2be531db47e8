use vstd::prelude::*;
use vstd::arithmetic::div_mod::{lemma_fundamental_div_mod, lemma_mod_bound};

verus! {

/// `b` is one orthogonal step away from `a` on a `w`-by-`h` grid whose cells
/// are numbered row by row (`y * w + x`).
pub open spec fn adjacent(w: int, h: int, a: int, b: int) -> bool {
    &&& w > 0
    &&& 0 <= a < w * h
    &&& {
        ||| (a % w > 0 && b == a - 1)
        ||| (a % w + 1 < w && b == a + 1)
        ||| (a / w > 0 && b == a - w)
        ||| (a / w + 1 < h && b == a + w)
    }
}

/// A neighbour of a cell is itself a cell of the grid.
pub proof fn lemma_adjacent_in_grid(w: int, h: int, a: int, b: int)
    requires
        adjacent(w, h, a, b),
    ensures
        0 <= b < w * h,
{
    lemma_fundamental_div_mod(a, w);
    lemma_mod_bound(a, w);
    let x = a % w;
    let y = a / w;
    assert(a == w * y + x);
    assert(y < h) by (nonlinear_arith)
        requires a == w * y + x, 0 <= x, a < w * h, w > 0;
    assert(0 <= y) by (nonlinear_arith)
        requires a == w * y + x, x < w, a >= 0, w > 0;
    if x + 1 < w && b == a + 1 {
        assert(a + 1 < w * h) by (nonlinear_arith)
            requires a == w * y + x, x + 1 < w, y < h, y >= 0, w > 0;
    }
    if y > 0 && b == a - w {
        assert(a - w >= 0) by (nonlinear_arith)
            requires a == w * y + x, x >= 0, y > 0, w > 0;
    }
    if y + 1 < h && b == a + w {
        assert(a + w < w * h) by (nonlinear_arith)
            requires a == w * y + x, x < w, y + 1 < h, w > 0;
    }
}

} // verus!
