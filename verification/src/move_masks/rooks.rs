use super::{fill_relation_table, PieceMoveTable};
use crate::geometry::straight_line;
use vstd::prelude::*;

verus! {

/// Fills the table with the rook moves on an empty board: square `b` is set for square `a`
/// exactly when `b` is on the rank or file of `a`.
pub fn generate_rook_moves(table: &mut PieceMoveTable)
    ensures
        forall|a: int, b: int| 0 <= a < 64 ==> #[trigger] final(table).moves()[a].has(b) == straight_line(a, b),
{
    fill_relation_table(table, 3);
}

} // verus!
