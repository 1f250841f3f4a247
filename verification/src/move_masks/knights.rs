use super::{fill_relation_table, PieceMoveTable};
use crate::geometry::knight_step;
use vstd::prelude::*;

verus! {

/// Fills the table with the knight moves on an empty board: square `b` is set for square `a`
/// exactly when a knight jumps from `a` to `b`.
pub fn generate_knight_moves(table: &mut PieceMoveTable)
    ensures
        forall|a: int, b: int| 0 <= a < 64 ==> #[trigger] final(table).moves()[a].has(b) == knight_step(a, b),
{
    fill_relation_table(table, 0);
}

} // verus!
