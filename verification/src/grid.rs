//! Row-major addressing of a dense rectangular grid.

use vstd::prelude::*;

verus! {

/// Position of cell `(cx, cy)` in the backing array of a grid `w` cells wide.
pub open spec fn cell_index(w: int, cx: int, cy: int) -> int {
    cx + w * cy
}

/// Every cell of a `w` by `h` grid has a position below `w * h`.
pub proof fn lemma_cell_index_in_range(w: int, h: int, cx: int, cy: int)
    requires
        0 <= cx < w,
        0 <= cy < h,
    ensures
        0 <= cell_index(w, cx, cy) < w * h,
        w * cy >= 0,
{
    assert(w * cy >= 0) by (nonlinear_arith)
        requires
            w > 0,
            cy >= 0,
    ;
    assert(cx + w * cy < w * h) by (nonlinear_arith)
        requires
            0 <= cx < w,
            0 <= cy < h,
    ;
}

/// Two cells of one grid share a position only if they are the same cell.
pub proof fn lemma_cell_index_injective(w: int, cx1: int, cy1: int, cx2: int, cy2: int)
    requires
        0 <= cx1 < w,
        0 <= cx2 < w,
        0 <= cy1,
        0 <= cy2,
        cell_index(w, cx1, cy1) == cell_index(w, cx2, cy2),
    ensures
        cx1 == cx2,
        cy1 == cy2,
{
    assert(cy1 == cy2) by (nonlinear_arith)
        requires
            0 <= cx1 < w,
            0 <= cx2 < w,
            0 <= cy1,
            0 <= cy2,
            cx1 + w * cy1 == cx2 + w * cy2,
    ;
    assert(w * cy1 == w * cy2);
}

/// Every position below `w * h` belongs to exactly the cell `(i % w, i / w)`.
pub proof fn lemma_cell_of_index(w: int, h: int, i: int)
    requires
        0 < w,
        0 <= i < w * h,
    ensures
        0 <= i % w < w,
        0 <= i / w < h,
        cell_index(w, i % w, i / w) == i,
{
    assert(0 <= i / w < h && i == i % w + w * (i / w)) by (nonlinear_arith)
        requires
            0 < w,
            0 <= i < w * h,
    ;
}

/// Machine-word position of a cell.
pub fn index_of(w: u32, h: u32, cx: u32, cy: u32) -> (i: usize)
    requires
        cx < w,
        cy < h,
        w * h <= u32::MAX,
    ensures
        i == cell_index(w as int, cx as int, cy as int),
        i < w * h,
{
    proof {
        lemma_cell_index_in_range(w as int, h as int, cx as int, cy as int);
    }
    let i: u32 = cx + w * cy;
    i as usize
}

} // verus!
