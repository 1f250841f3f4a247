use super::{fill_relation_table, PieceMoveTable};
use crate::geometry::diagonal_line;
use vstd::prelude::*;

verus! {

/// Fills the table with the bishop moves on an empty board: square `b` is set for square `a`
/// exactly when `b` is on a diagonal through `a`.
pub fn generate_bishop_moves(table: &mut PieceMoveTable)
    ensures
        forall|a: int, b: int| 0 <= a < 64 ==> #[trigger] final(table).moves()[a].has(b) == diagonal_line(a, b),
{
    fill_relation_table(table, 2);
}

} // verus!
