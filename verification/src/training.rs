//! The Training view's heat map: a static intensity pattern over the last
//! twenty weeks, with a few cells marked as personal records.

use vstd::prelude::*;

verus! {

/// How many week columns the heat map shows.
pub const HEAT_WEEKS: usize = 20;

/// The intensity (0 to 4) of the cell in weekday row `r` and week column `c`, and
/// whether it marks a personal record (every nineteenth diagonal, past the third
/// week).
pub open spec fn heat_cell_of(r: int, c: int) -> (int, bool) {
    ((r * 3 + c * 7) % 5, (r + c) % 19 == 0 && c > 2)
}

/// The heat map cell at weekday row `r` (Monday = 0) and week column `c`.
pub fn heat_cell(r: usize, c: usize) -> (cell: (u32, bool))
    requires
        r < 7,
        c < HEAT_WEEKS,
    ensures
        (cell.0 as int, cell.1) == heat_cell_of(r as int, c as int),
{
    (((r * 3 + c * 7) % 5) as u32, (r + c) % 19 == 0 && c > 2)
}

} // verus!
