//! Move masks: for every square, the squares a piece could reach on an empty board.
use crate::bitboards::BitBoard;
use crate::bits::bit;
use crate::coordinates::Square;
use crate::geometry::{
    aligned, diagonal_line, is_diagonal_line, is_king_step, is_knight_step, is_straight_line,
    king_step, knight_step, straight_line,
};
use vstd::prelude::*;

pub mod between;
pub mod bishops;
pub mod kings;
pub mod knights;
pub mod pawns;
pub mod queens;
pub mod rays;
pub mod rooks;

pub use between::{generate_between_masks, BetweenTable};
pub use bishops::generate_bishop_moves;
pub use kings::generate_king_moves;
pub use knights::generate_knight_moves;
pub use pawns::{generate_pawn_captures, generate_pawn_moves, PawnMoveTable};
pub use queens::generate_queen_moves;
pub use rays::RaysTable;
pub use rooks::generate_rook_moves;

verus! {

/// How a piece kind moves on an empty board: 0 knight, 1 king, 2 bishop, 3 rook, 4 queen.
pub open spec fn piece_relation(kind: int, a: int, b: int) -> bool {
    if kind == 0 {
        knight_step(a, b)
    } else if kind == 1 {
        king_step(a, b)
    } else if kind == 2 {
        diagonal_line(a, b)
    } else if kind == 3 {
        straight_line(a, b)
    } else {
        aligned(a, b)
    }
}

/// The squares that a piece of kind `kind` (see `piece_relation`) reaches from `a` on an empty board.
pub fn relation_mask(kind: u8, a: usize) -> (r: BitBoard)
    requires
        kind < 5,
        a < 64,
    ensures
        forall|d: int| #[trigger] r.has(d) == piece_relation(kind as int, a as int, d),
{
    let mut m: u64 = 0;
    let mut d: usize = 0;
    proof {
        assert forall|x: int| #[trigger] bit(m, x) == (0 <= x < d && piece_relation(kind as int, a as int, x)) by {
            crate::bits::lemma_bit_zero(x);
        }
    }
    while d < 64
        invariant
            d <= 64,
            kind < 5,
            a < 64,
            forall|x: int| #[trigger] bit(m, x) == (0 <= x < d && piece_relation(kind as int, a as int, x)),
        decreases 64 - d,
    {
        let related = match kind {
            0 => is_knight_step(a, d),
            1 => is_king_step(a, d),
            2 => is_diagonal_line(a, d),
            3 => is_straight_line(a, d),
            _ => is_diagonal_line(a, d) || is_straight_line(a, d),
        };
        let ghost old_m = m;
        if related {
            m = m | (1u64 << (d as u64));
        }
        proof {
            assert forall|x: int| #[trigger] bit(m, x) == (0 <= x < d + 1 && piece_relation(kind as int, a as int, x)) by {
                crate::bits::lemma_bit_or(old_m, 1u64 << (d as u64), x);
                crate::bits::lemma_bit_single(d as int, x);
            }
        }
        d = d + 1;
    }
    proof {
        assert forall|x: int| #[trigger] bit(m, x) == piece_relation(kind as int, a as int, x) by {
            if piece_relation(kind as int, a as int, x) {
                assert(0 <= x < 64);
            }
        }
    }
    BitBoard(m)
}

/// For every square, a set of target squares.
pub struct PieceMoveTable([BitBoard; 64]);

impl PieceMoveTable {
    /// The target set stored for each square index.
    pub closed spec fn moves(self) -> Seq<BitBoard> {
        self.0@
    }

    pub proof fn lemma_len(self)
        ensures
            self.moves().len() == 64,
    {
    }

    /// A table whose sets are all empty.
    pub fn new() -> (t: Self)
        ensures
            t.moves() == Seq::new(64, |i: int| BitBoard(0)),
    {
        let t = Self([BitBoard(0); 64]);
        assert(t.moves() =~= Seq::new(64, |i: int| BitBoard(0)));
        t
    }

    pub fn set_moves(&mut self, square: Square, value: BitBoard)
        ensures
            final(self).moves() == old(self).moves().update(square.idx(), value),
    {
        let i = square.to_index();
        self.0[i] = value;
    }

    /// Empties every set.
    pub fn reset_moves(&mut self)
        ensures
            final(self).moves() == Seq::new(64, |i: int| BitBoard(0)),
    {
        self.0 = [BitBoard(0); 64];
        assert(self.moves() =~= Seq::new(64, |i: int| BitBoard(0)));
    }

    pub fn get_moves(&self, square: Square) -> (r: BitBoard)
        ensures
            r == self.moves()[square.idx()],
    {
        self.0[square.to_index()]
    }
}

impl Default for PieceMoveTable {
    fn default() -> (t: Self)
        ensures
            t.moves() == Seq::new(64, |i: int| BitBoard(0)),
    {
        Self::new()
    }
}

/// Fills `table` with the targets of kind `kind` (see `piece_relation`) for every square.
pub(crate) fn fill_relation_table(table: &mut PieceMoveTable, kind: u8)
    requires
        kind < 5,
    ensures
        forall|s: int, d: int| 0 <= s < 64 ==> #[trigger] final(table).moves()[s].has(d)
            == piece_relation(kind as int, s, d),
{
    proof {
        table.lemma_len();
    }
    let mut s: u8 = 0;
    while s < 64
        invariant
            s <= 64,
            kind < 5,
            table.moves().len() == 64,
            forall|t: int, d: int| 0 <= t < s ==> #[trigger] table.moves()[t].has(d)
                == piece_relation(kind as int, t, d),
        decreases 64 - s,
    {
        let square = Square::from_u8(s);
        let mask = relation_mask(kind, s as usize);
        table.set_moves(square, mask);
        proof {
            table.lemma_len();
        }
        s = s + 1;
    }
}

} // verus!
