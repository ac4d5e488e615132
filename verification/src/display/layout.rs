use vstd::prelude::*;

verus! {

/// Index of the element at column `x` of line `y` in row-major storage.
pub open spec fn flat_index(x: int, y: int, width: int) -> int {
    y * width + x
}

/// A position inside a `width` by `height` grid has a flat index inside the
/// storage of `width * height` elements.
pub proof fn lemma_flat_index_in_range(x: int, y: int, width: int, height: int)
    requires
        0 <= x < width,
        0 <= y < height,
    ensures
        0 <= flat_index(x, y, width) < width * height,
        y * width + width <= width * height,
{
    assert(y * width + width <= width * height) by (nonlinear_arith)
        requires
            0 <= y < height,
            0 < width,
    ;
    assert(0 <= y * width) by (nonlinear_arith)
        requires
            0 <= y,
            0 < width,
    ;
}

/// Two positions of one grid that share a flat index are the same position.
pub proof fn lemma_flat_index_injective(x1: int, y1: int, x2: int, y2: int, width: int)
    requires
        0 <= x1 < width,
        0 <= x2 < width,
        0 <= y1,
        0 <= y2,
        flat_index(x1, y1, width) == flat_index(x2, y2, width),
    ensures
        x1 == x2,
        y1 == y2,
{
    if y1 < y2 {
        assert(y1 * width + width <= y2 * width) by (nonlinear_arith)
            requires
                y1 < y2,
                0 < width,
        ;
    }
    if y2 < y1 {
        assert(y2 * width + width <= y1 * width) by (nonlinear_arith)
            requires
                y2 < y1,
                0 < width,
        ;
    }
}

/// The product of two 16-bit extents fits every supported pointer width.
pub proof fn lemma_cell_count_fits(cols: u16, rows: u16)
    ensures
        0 <= cols * rows <= 0xFFFE_0001,
        cols * rows <= usize::MAX,
{
    assert(0 <= cols * rows <= 0xFFFE_0001) by (nonlinear_arith)
        requires
            0 <= cols <= 0xFFFF,
            0 <= rows <= 0xFFFF,
    ;
}

} // verus!
