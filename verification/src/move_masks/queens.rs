use super::{fill_relation_table, PieceMoveTable};
use crate::geometry::aligned;
use vstd::prelude::*;

verus! {

/// Fills the table with the queen moves on an empty board: square `b` is set for square `a`
/// exactly when `b` is on a line through `a`.
pub fn generate_queen_moves(table: &mut PieceMoveTable)
    ensures
        forall|a: int, b: int| 0 <= a < 64 ==> #[trigger] final(table).moves()[a].has(b) == aligned(a, b),
{
    fill_relation_table(table, 4);
}

} // verus!
