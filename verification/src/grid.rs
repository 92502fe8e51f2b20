//! The sampling grid: an ordered enumeration of the width x height cells of
//! a rectangular region. Cell (x, y) stands for the sample point
//! re = re_min + x * (re_max - re_min) / width,
//! im = im_min + y * (im_max - im_min) / height;
//! the caller performs that floating-point mapping, the enumeration order
//! and the cell count are fixed here.

use vstd::prelude::*;

verus! {

/// The cell listed at position `n` of the enumeration: the x index runs in
/// the outer loop, the y index in the inner one.
pub open spec fn cell_at(height: u64, n: int) -> (u64, u64) {
    ((n / (height as int)) as u64, (n % (height as int)) as u64)
}

/// All cells of a `width` x `height` grid, x-major: cell (x, y) appears at
/// position x * height + y. A degenerate grid (width or height zero) yields
/// the empty enumeration.
pub fn grid_cells(width: u64, height: u64) -> (cells: Vec<(u64, u64)>)
    requires
        width * height <= usize::MAX,
    ensures
        cells@.len() == width * height,
        forall|n: int| 0 <= n < cells@.len() ==> cells@[n] == cell_at(height, n),
        forall|n: int| 0 <= n < cells@.len() ==> (#[trigger] cells@[n]).0 < width && cells@[n].1
            < height,
{
    let mut cells: Vec<(u64, u64)> = Vec::new();
    let mut x: u64 = 0;
    while x < width
        invariant
            width * height <= usize::MAX,
            x <= width,
            cells@.len() == x * height,
            forall|n: int| 0 <= n < cells@.len() ==> cells@[n] == cell_at(height, n),
            forall|n: int| 0 <= n < cells@.len() ==> (#[trigger] cells@[n]).0 < width
                && cells@[n].1 < height,
        decreases width - x,
    {
        let mut y: u64 = 0;
        proof {
            assert((x + 1) * height <= width * height) by (nonlinear_arith)
                requires x < width;
        }
        while y < height
            invariant
                width * height <= usize::MAX,
                x < width,
                y <= height,
                (x + 1) * height <= width * height,
                cells@.len() == x * height + y,
                forall|n: int| 0 <= n < cells@.len() ==> cells@[n] == cell_at(height, n),
                forall|n: int| 0 <= n < cells@.len() ==> (#[trigger] cells@[n]).0 < width
                    && cells@[n].1 < height,
            decreases height - y,
        {
            proof {
                assert(x * height + y < (x + 1) * height) by (nonlinear_arith)
                    requires y < height;
                assert((x as int * height as int + y as int) / (height as int) == x as int
                    && (x as int * height as int + y as int) % (height as int) == y as int)
                    by (nonlinear_arith)
                    requires 0 <= y < height, 0 <= x;
            }
            cells.push((x, y));
            y = y + 1;
        }
        x = x + 1;
        proof {
            assert(x * height == (x - 1) * height + height) by (nonlinear_arith);
        }
    }
    cells
}

} // verus!
