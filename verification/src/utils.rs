use vstd::prelude::*;

verus! {

/// Index of the cell `(x, y)` on a board `width` cells wide and `height`
/// cells high, read row by row; `-1` for a cell off the board.
pub open spec fn spec_get_index(x: int, y: int, width: int, height: int) -> int {
    if x < 0 || x >= width || y < 0 || y >= height {
        -1
    } else {
        y * width + x
    }
}

/// Whether the index of `(x, y)` fits in `i32` when the cell is on the board.
pub open spec fn index_fits(x: int, y: int, width: int, height: int) -> bool {
    0 <= x < width && 0 <= y < height ==> y * width + x <= i32::MAX
}

/// Converts board coordinates into a panel index (`-1` off the board).
pub fn get_index(cursol_x: i32, cursol_y: i32, width: i32, height: i32) -> (r: i32)
    requires
        index_fits(cursol_x as int, cursol_y as int, width as int, height as int),
    ensures
        r == spec_get_index(cursol_x as int, cursol_y as int, width as int, height as int),
{
    if cursol_x < 0 || cursol_x >= width || cursol_y < 0 || cursol_y >= height {
        return -1;
    }
    proof {
        assert(0 <= cursol_y * width) by (nonlinear_arith)
            requires
                0 <= cursol_y,
                0 < width,
        ;
    }
    cursol_y * width + cursol_x
}

/// A cell on a board of at most `i32::MAX + 1` cells has an index that fits in `i32`.
pub proof fn lemma_index_fits(x: int, y: int, width: int, height: int)
    requires
        0 <= x < width,
        0 <= y < height,
        width * height <= i32::MAX + 1,
    ensures
        0 <= y * width + x < width * height,
{
    assert(0 <= y * width + x < width * height) by (nonlinear_arith)
        requires
            0 <= x < width,
            0 <= y < height,
    ;
}

/// On a board of at most `i32::MAX + 1` cells every index fits in `i32`.
pub proof fn lemma_all_indices_fit(width: int, height: int)
    requires
        0 < width && 0 < height ==> width * height <= i32::MAX + 1,
    ensures
        forall|x: int, y: int| #[trigger] index_fits(x, y, width, height),
{
    assert forall|x: int, y: int| #[trigger] index_fits(x, y, width, height) by {
        if 0 <= x < width && 0 <= y < height {
            lemma_index_fits(x, y, width, height);
        }
    }
}

} // verus!
