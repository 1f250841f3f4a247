use super::{fill_relation_table, PieceMoveTable};
use crate::geometry::king_step;
use vstd::prelude::*;

verus! {

/// Fills the table with the king moves on an empty board: square `b` is set for square `a`
/// exactly when `b` is next to `a`.
pub fn generate_king_moves(table: &mut PieceMoveTable)
    ensures
        forall|a: int, b: int| 0 <= a < 64 ==> #[trigger] final(table).moves()[a].has(b) == king_step(a, b),
{
    fill_relation_table(table, 1);
}

} // verus!
