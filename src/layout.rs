use vstd::prelude::*;

verus! {

/// The position `x * h + y` of cell `(x, y)` lies inside a buffer of `w * h` cells.
pub proof fn lemma_index_in_range(x: int, y: int, w: int, h: int)
    requires
        0 <= x < w,
        0 <= y < h,
    ensures
        0 <= x * h + y < w * h,
{
    assert(0 <= x * h) by (nonlinear_arith)
        requires 0 <= x, 0 <= h;
    assert((x + 1) * h <= w * h) by (nonlinear_arith)
        requires x + 1 <= w, 0 <= h;
    assert((x + 1) * h == x * h + h) by (nonlinear_arith);
}

/// Two cells of the grid have the same position `x * h + y` only if they are the same cell.
pub proof fn lemma_index_injective(x1: int, y1: int, x2: int, y2: int, h: int)
    requires
        0 <= x1,
        0 <= x2,
        0 <= y1 < h,
        0 <= y2 < h,
        x1 * h + y1 == x2 * h + y2,
    ensures
        x1 == x2,
        y1 == y2,
{
    if x1 < x2 {
        assert(x1 * h + h <= x2 * h) by (nonlinear_arith)
            requires x1 + 1 <= x2, 0 <= h;
    } else if x2 < x1 {
        assert(x2 * h + h <= x1 * h) by (nonlinear_arith)
            requires x2 + 1 <= x1, 0 <= h;
    }
}

} // verus!
