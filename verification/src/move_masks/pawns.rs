use crate::bitboards::BitBoard;
use crate::bits::bit;
use crate::colors::Color;
use crate::coordinates::Square;
use crate::geometry::{is_pawn_capture, is_pawn_push, pawn_capture_geom, pawn_push_geom};
use vstd::prelude::*;

verus! {

/// For every square and color, the squares a pawn advances to and the squares it captures on.
pub struct PawnMoveTable {
    moves: [BitBoard; 128],
    captures: [BitBoard; 128],
}

/// Slot of a square and a color in a pawn table.
pub open spec fn pawn_slot(square: int, color: Color) -> int {
    square + 64 * color.index_spec()
}

/// The squares that a pawn of color `white` on `a` advances to (`capture` false)
/// or captures on (`capture` true), on an empty board.
pub fn pawn_mask(white: bool, capture: bool, a: usize) -> (r: BitBoard)
    requires
        a < 64,
    ensures
        forall|d: int| #[trigger] r.has(d) == if capture {
            pawn_capture_geom(white, a as int, d)
        } else {
            pawn_push_geom(white, a as int, d)
        },
{
    let mut m: u64 = 0;
    let mut d: usize = 0;
    proof {
        assert forall|x: int| #[trigger] bit(m, x) == (0 <= x < d && (if capture {
            pawn_capture_geom(white, a as int, x)
        } else {
            pawn_push_geom(white, a as int, x)
        })) by {
            crate::bits::lemma_bit_zero(x);
        }
    }
    while d < 64
        invariant
            d <= 64,
            a < 64,
            forall|x: int| #[trigger] bit(m, x) == (0 <= x < d && (if capture {
                pawn_capture_geom(white, a as int, x)
            } else {
                pawn_push_geom(white, a as int, x)
            })),
        decreases 64 - d,
    {
        let related = if capture {
            is_pawn_capture(white, a, d)
        } else {
            is_pawn_push(white, a, d)
        };
        let ghost old_m = m;
        if related {
            m = m | (1u64 << (d as u64));
        }
        proof {
            assert forall|x: int| #[trigger] bit(m, x) == (0 <= x < d + 1 && (if capture {
                pawn_capture_geom(white, a as int, x)
            } else {
                pawn_push_geom(white, a as int, x)
            })) by {
                crate::bits::lemma_bit_or(old_m, 1u64 << (d as u64), x);
                crate::bits::lemma_bit_single(d as int, x);
            }
        }
        d = d + 1;
    }
    BitBoard(m)
}

impl PawnMoveTable {
    /// The advance targets stored for each slot (see `pawn_slot`).
    pub closed spec fn moves_view(self) -> Seq<BitBoard> {
        self.moves@
    }

    /// The capture targets stored for each slot (see `pawn_slot`).
    pub closed spec fn captures_view(self) -> Seq<BitBoard> {
        self.captures@
    }

    pub proof fn lemma_len(self)
        ensures
            self.moves_view().len() == 128,
            self.captures_view().len() == 128,
    {
    }

    /// A table whose sets are all empty.
    pub fn new() -> (t: Self)
        ensures
            t.moves_view() == Seq::new(128, |i: int| BitBoard(0)),
            t.captures_view() == Seq::new(128, |i: int| BitBoard(0)),
    {
        let t = Self { moves: [BitBoard(0); 128], captures: [BitBoard(0); 128] };
        assert(t.moves_view() =~= Seq::new(128, |i: int| BitBoard(0)));
        assert(t.captures_view() =~= Seq::new(128, |i: int| BitBoard(0)));
        t
    }

    pub fn set_moves(&mut self, square: Square, color: Color, value: BitBoard)
        ensures
            final(self).moves_view() == old(self).moves_view().update(pawn_slot(square.idx(), color), value),
            final(self).captures_view() == old(self).captures_view(),
    {
        let index = square.to_index() + 64 * color.to_index();
        self.moves[index] = value;
    }

    pub fn set_captures(&mut self, square: Square, color: Color, value: BitBoard)
        ensures
            final(self).captures_view() == old(self).captures_view().update(pawn_slot(square.idx(), color), value),
            final(self).moves_view() == old(self).moves_view(),
    {
        let index = square.to_index() + 64 * color.to_index();
        self.captures[index] = value;
    }

    /// Empties every advance set.
    pub fn reset_moves(&mut self)
        ensures
            final(self).moves_view() == Seq::new(128, |i: int| BitBoard(0)),
            final(self).captures_view() == old(self).captures_view(),
    {
        self.moves = [BitBoard(0); 128];
        assert(self.moves_view() =~= Seq::new(128, |i: int| BitBoard(0)));
    }

    /// Empties every capture set.
    pub fn reset_captures(&mut self)
        ensures
            final(self).captures_view() == Seq::new(128, |i: int| BitBoard(0)),
            final(self).moves_view() == old(self).moves_view(),
    {
        self.captures = [BitBoard(0); 128];
        assert(self.captures_view() =~= Seq::new(128, |i: int| BitBoard(0)));
    }

    pub fn get_moves(&self, square: Square, color: Color) -> (r: BitBoard)
        ensures
            r == self.moves_view()[pawn_slot(square.idx(), color)],
    {
        let index = square.to_index() + 64 * color.to_index();
        self.moves[index]
    }

    pub fn get_captures(&self, square: Square, color: Color) -> (r: BitBoard)
        ensures
            r == self.captures_view()[pawn_slot(square.idx(), color)],
    {
        let index = square.to_index() + 64 * color.to_index();
        self.captures[index]
    }
}

impl Default for PawnMoveTable {
    fn default() -> (t: Self)
        ensures
            t.moves_view() == Seq::new(128, |i: int| BitBoard(0)),
            t.captures_view() == Seq::new(128, |i: int| BitBoard(0)),
    {
        Self::new()
    }
}

fn fill_pawn_table(table: &mut PawnMoveTable, color: Color, capture: bool)
    ensures
        capture ==> forall|a: int, b: int| 0 <= a < 64 ==> #[trigger] final(table).captures_view()[pawn_slot(a, color)].has(b)
            == pawn_capture_geom(color == Color::White, a, b),
        !capture ==> forall|a: int, b: int| 0 <= a < 64 ==> #[trigger] final(table).moves_view()[pawn_slot(a, color)].has(b)
            == pawn_push_geom(color == Color::White, a, b),
        forall|a: int| 0 <= a < 128 && !(64 * color.index_spec() <= a < 64 * color.index_spec() + 64)
            ==> #[trigger] final(table).moves_view()[a] == old(table).moves_view()[a],
        forall|a: int| 0 <= a < 128 && !(64 * color.index_spec() <= a < 64 * color.index_spec() + 64)
            ==> #[trigger] final(table).captures_view()[a] == old(table).captures_view()[a],
        capture ==> final(table).moves_view() == old(table).moves_view(),
        !capture ==> final(table).captures_view() == old(table).captures_view(),
{
    proof {
        table.lemma_len();
    }
    let white = match color {
        Color::White => true,
        Color::Black => false,
    };
    let mut s: u8 = 0;
    while s < 64
        invariant
            s <= 64,
            white == (color == Color::White),
            table.moves_view().len() == 128,
            table.captures_view().len() == 128,
            capture ==> forall|a: int, b: int| 0 <= a < s ==> #[trigger] table.captures_view()[pawn_slot(a, color)].has(b)
                == pawn_capture_geom(white, a, b),
            !capture ==> forall|a: int, b: int| 0 <= a < s ==> #[trigger] table.moves_view()[pawn_slot(a, color)].has(b)
                == pawn_push_geom(white, a, b),
            forall|a: int| 0 <= a < 128 && !(64 * color.index_spec() <= a < 64 * color.index_spec() + 64)
                ==> #[trigger] table.moves_view()[a] == old(table).moves_view()[a],
            forall|a: int| 0 <= a < 128 && !(64 * color.index_spec() <= a < 64 * color.index_spec() + 64)
                ==> #[trigger] table.captures_view()[a] == old(table).captures_view()[a],
            capture ==> table.moves_view() == old(table).moves_view(),
            !capture ==> table.captures_view() == old(table).captures_view(),
        decreases 64 - s,
    {
        let square = Square::from_u8(s);
        let mask = pawn_mask(white, capture, s as usize);
        if capture {
            table.set_captures(square, color, mask);
        } else {
            table.set_moves(square, color, mask);
        }
        proof {
            table.lemma_len();
        }
        s = s + 1;
    }
}

/// Fills the advance sets of one color: from `a` a pawn advances to `b` exactly when `b` is one
/// square ahead, or two squares ahead from its start rank.
pub fn generate_pawn_moves(table: &mut PawnMoveTable, color: Color)
    ensures
        forall|a: int, b: int| 0 <= a < 64 ==> #[trigger] final(table).moves_view()[pawn_slot(a, color)].has(b)
            == pawn_push_geom(color == Color::White, a, b),
        forall|a: int| 0 <= a < 128 && !(64 * color.index_spec() <= a < 64 * color.index_spec() + 64)
            ==> #[trigger] final(table).moves_view()[a] == old(table).moves_view()[a],
        final(table).captures_view() == old(table).captures_view(),
{
    fill_pawn_table(table, color, false);
}

/// Fills the capture sets of one color: from `a` a pawn captures on `b` exactly when `b` is one
/// square diagonally ahead.
pub fn generate_pawn_captures(table: &mut PawnMoveTable, color: Color)
    ensures
        forall|a: int, b: int| 0 <= a < 64 ==> #[trigger] final(table).captures_view()[pawn_slot(a, color)].has(b)
            == pawn_capture_geom(color == Color::White, a, b),
        forall|a: int| 0 <= a < 128 && !(64 * color.index_spec() <= a < 64 * color.index_spec() + 64)
            ==> #[trigger] final(table).captures_view()[a] == old(table).captures_view()[a],
        final(table).moves_view() == old(table).moves_view(),
{
    fill_pawn_table(table, color, true);
}

} // verus!
