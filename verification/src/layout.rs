//! The arithmetic of what is shown: the size of the state table, and the
//! grid in which the services stand.

use vstd::prelude::*;

verus! {

/// The width, in characters, that the grid of services may take.
pub const GRID_WIDTH: usize = 70;

/// Bytes in a mebibyte.
pub const MEBIBYTE: u64 = 1_048_576;

/// A grid that is filled column by column.
#[derive(Clone, Copy, Debug, PartialEq, Eq, Structural)]
pub struct Grid {
    /// The number of cells in a row.
    pub per_row: usize,
    /// The number of rows.
    pub rows: usize,
}

/// The greatest number of states that the packet filter keeps on a system
/// with `physical` bytes of memory: a thousand for every ten mebibytes.
pub fn states_max(physical: u64) -> (states: u64)
    ensures
        states == physical / 10_485_760 * 1000,
{
    physical / 10_485_760 * 1000
}

/// `bytes` in whole mebibytes.
pub fn mebibytes(bytes: u64) -> (whole: u64)
    ensures
        whole == bytes / MEBIBYTE,
{
    bytes / MEBIBYTE
}

/// The grid for `count` services whose longest name has `longest`
/// characters. A cell is as wide as the longest name and a space on either
/// side; a row holds as many cells as fit into the width of the grid, and
/// there are as many rows as the services need. Where not even one cell
/// fits, there is no grid.
pub open spec fn grid_of(count: usize, longest: usize) -> Option<Grid> {
    if longest + 2 > GRID_WIDTH {
        None
    } else {
        let per_row = GRID_WIDTH as int / (longest + 2);
        Some(
            Grid { per_row: per_row as usize, rows: ((count + per_row - 1) / per_row) as usize },
        )
    }
}

/// The grid for `count` services whose longest name has `longest`
/// characters.
pub fn service_grid(count: usize, longest: usize) -> (grid: Option<Grid>)
    ensures
        grid == grid_of(count, longest),
        grid matches Some(grid) ==> grid.per_row >= 1 && grid.rows * grid.per_row >= count,
{
    if longest > GRID_WIDTH - 2 {
        return None;
    }
    let per_row = GRID_WIDTH / (longest + 2);
    assert(per_row >= 1) by {
        assert(GRID_WIDTH as int / (longest + 2) >= 1) by (nonlinear_arith)
            requires
                0 < longest + 2 <= GRID_WIDTH,
        ;
    }
    let rows = if count == 0 {
        0
    } else {
        (count - 1) / per_row + 1
    };
    proof {
        let c = count as int;
        let p = per_row as int;
        assert((c + p - 1) / p == if c == 0 {
            0
        } else {
            (c - 1) / p + 1
        }) by (nonlinear_arith)
            requires
                c >= 0,
                p >= 1,
        ;
        if c >= 1 {
            assert(((c - 1) / p + 1) * p >= c) by (nonlinear_arith)
                requires
                    c >= 1,
                    p >= 1,
            ;
        }
    }
    Some(Grid { per_row, rows })
}

impl Grid {
    /// The index of the service that stands in the cell at `row` and
    /// `column`: the services run down the first column, then down the
    /// second, and so on. `None` where the index does not fit.
    pub fn index(&self, row: usize, column: usize) -> (index: Option<usize>)
        ensures
            match index {
                Some(index) => index == row + self.rows * column,
                None => row + self.rows * column > usize::MAX,
            },
    {
        match self.rows.checked_mul(column) {
            Some(before) => row.checked_add(before),
            None => {
                None
            },
        }
    }
}

} // verus!
