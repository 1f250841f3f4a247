//! Where the pieces stand: one set of squares per piece kind and per color.
use crate::bitboards::BitBoard;
use crate::bits::bit;
use crate::colors::Color;
use crate::geometry::{
    aligned, is_diagonal_line, is_king_step, is_knight_step, is_path_clear, is_pawn_capture,
    is_square, is_straight_line, path_blockers, path_clear, sole_blocker,
};
use crate::pieces::{Piece, PieceType};
use crate::rules::{
    attacker, attacks, clear_path, holds_color, occupied, pin_source, pinned, slides_towards,
    sole_occupied_between, Place,
};
use vstd::prelude::*;

verus! {

broadcast use crate::bits::group_bit_lemmas;

/// The sets of squares of each piece kind (indexed as `PieceType::to_index`) and of each color.
#[derive(Clone, Copy, Debug, PartialEq, Eq)]
pub struct PieceMasks {
    pub pieces: [BitBoard; 6],
    pub colors: [BitBoard; 2],
    pub combined: BitBoard,
}

impl PieceMasks {
    /// The sets agree: every occupied square has exactly one color and one kind.
    pub open spec fn wf(self) -> bool {
        &&& forall|i: int| #[trigger]
            self.combined.has(i) == (self.colors[0].has(i) || self.colors[1].has(i))
        &&& forall|i: int| !(#[trigger] self.colors[0].has(i) && self.colors[1].has(i))
        &&& forall|i: int| #[trigger]
            self.combined.has(i) == (self.pieces[0].has(i) || self.pieces[1].has(i)
                || self.pieces[2].has(i) || self.pieces[3].has(i) || self.pieces[4].has(i)
                || self.pieces[5].has(i))
        &&& forall|i: int, t1: int, t2: int|
            0 <= t1 < t2 < 6 ==> !(#[trigger] self.pieces[t1].has(i) && #[trigger] self.pieces[t2].has(
                i,
            ))
    }

    /// The kind of the piece on an occupied square.
    pub open spec fn type_at(self, i: int) -> PieceType {
        if self.pieces[0].has(i) {
            PieceType::Pawn
        } else if self.pieces[1].has(i) {
            PieceType::Knight
        } else if self.pieces[2].has(i) {
            PieceType::Bishop
        } else if self.pieces[3].has(i) {
            PieceType::Rook
        } else if self.pieces[4].has(i) {
            PieceType::Queen
        } else {
            PieceType::King
        }
    }

    /// The color of the piece on an occupied square.
    pub open spec fn color_at(self, i: int) -> Color {
        if self.colors[0].has(i) {
            Color::White
        } else {
            Color::Black
        }
    }

    pub open spec fn piece_at(self, i: int) -> Option<Piece> {
        if self.combined.has(i) {
            Some(Piece(self.type_at(i), self.color_at(i)))
        } else {
            None
        }
    }

    /// What stands on every square.
    pub open spec fn placement(self) -> Place {
        |i: int| self.piece_at(i)
    }

    /// In a consistent set of masks, the set of a kind (color) holds exactly the squares of
    /// pieces of that kind (color).
    pub proof fn lemma_masks_meaning(self)
        requires
            self.wf(),
        ensures
            forall|i: int, t: int|
                0 <= t < 6 ==> #[trigger] self.pieces[t].has(i) == (self.piece_at(i) matches Some(
                    pc,
                ) && pc.0.index_spec() == t),
            forall|i: int|
                #[trigger] self.colors[0].has(i) == (self.piece_at(i) matches Some(pc) && pc.1
                    == Color::White),
            forall|i: int|
                #[trigger] self.colors[1].has(i) == (self.piece_at(i) matches Some(pc) && pc.1
                    == Color::Black),
            forall|i: int| #[trigger] self.combined.has(i) == (self.piece_at(i) is Some),
    {
        assert forall|i: int, t: int| 0 <= t < 6 implies #[trigger] self.pieces[t].has(i) == (
        self.piece_at(i) matches Some(pc) && pc.0.index_spec() == t) by {
            if self.pieces[t].has(i) {
                assert(self.combined.has(i));
                if t != 0 {
                    assert(!self.pieces[0].has(i));
                }
                if t != 1 {
                    assert(!(self.pieces[if t < 1 { t } else { 1 }].has(i) && self.pieces[if t < 1 { 1 } else { t }].has(i)));
                }
                if t != 2 {
                    assert(!(self.pieces[if t < 2 { t } else { 2 }].has(i) && self.pieces[if t < 2 { 2 } else { t }].has(i)));
                }
                if t != 3 {
                    assert(!(self.pieces[if t < 3 { t } else { 3 }].has(i) && self.pieces[if t < 3 { 3 } else { t }].has(i)));
                }
                if t != 4 {
                    assert(!(self.pieces[if t < 4 { t } else { 4 }].has(i) && self.pieces[if t < 4 { 4 } else { t }].has(i)));
                }
            }
        }
    }

    /// A board with no piece.
    pub fn empty() -> (m: PieceMasks)
        ensures
            m.wf(),
            forall|i: int| #[trigger] m.piece_at(i) is None,
    {
        PieceMasks { pieces: [BitBoard(0); 6], colors: [BitBoard(0); 2], combined: BitBoard(0) }
    }

    /// The piece on square `i`.
    pub fn piece_on(&self, i: usize) -> (r: Option<Piece>)
        requires
            self.wf(),
            i < 64,
        ensures
            r == self.piece_at(i as int),
    {
        let s = i as u64;
        if (self.combined.0 >> s) & 1 != 1 {
            return None;
        }
        let pt = if (self.pieces[0].0 >> s) & 1 == 1 {
            PieceType::Pawn
        } else if (self.pieces[1].0 >> s) & 1 == 1 {
            PieceType::Knight
        } else if (self.pieces[2].0 >> s) & 1 == 1 {
            PieceType::Bishop
        } else if (self.pieces[3].0 >> s) & 1 == 1 {
            PieceType::Rook
        } else if (self.pieces[4].0 >> s) & 1 == 1 {
            PieceType::Queen
        } else {
            PieceType::King
        };
        let c = if (self.colors[0].0 >> s) & 1 == 1 {
            Color::White
        } else {
            Color::Black
        };
        Some(Piece(pt, c))
    }

    /// Removes whatever stands on square `i`.
    pub fn clear(&mut self, i: usize)
        requires
            old(self).wf(),
            i < 64,
        ensures
            final(self).wf(),
            forall|j: int| #[trigger] final(self).piece_at(j) == if j == i {
                None
            } else {
                old(self).piece_at(j)
            },
    {
        let keep = !(1u64 << (i as u64));
        let ghost o = *self;
        self.pieces[0] = BitBoard(self.pieces[0].0 & keep);
        self.pieces[1] = BitBoard(self.pieces[1].0 & keep);
        self.pieces[2] = BitBoard(self.pieces[2].0 & keep);
        self.pieces[3] = BitBoard(self.pieces[3].0 & keep);
        self.pieces[4] = BitBoard(self.pieces[4].0 & keep);
        self.pieces[5] = BitBoard(self.pieces[5].0 & keep);
        self.colors[0] = BitBoard(self.colors[0].0 & keep);
        self.colors[1] = BitBoard(self.colors[1].0 & keep);
        self.combined = BitBoard(self.combined.0 & keep);
        proof {
            assert forall|j: int| #[trigger] bit(keep, j) == (0 <= j < 64 && j != i) by {
                crate::bits::lemma_bit_not(1u64 << (i as u64), j);
                crate::bits::lemma_bit_single(i as int, j);
            }
            assert forall|j: int, t: int| 0 <= t < 6 implies #[trigger] self.pieces[t].has(j) == (o.pieces[t].has(j) && j != i) by {
                crate::bits::lemma_bit_and(o.pieces[t].0, keep, j);
            }
            assert forall|j: int, t: int| 0 <= t < 2 implies #[trigger] self.colors[t].has(j) == (o.colors[t].has(j) && j != i) by {
                crate::bits::lemma_bit_and(o.colors[t].0, keep, j);
            }
        }
    }

    /// Places `piece` on square `i`, replacing whatever stood there.
    pub fn put(&mut self, i: usize, piece: Piece)
        requires
            old(self).wf(),
            i < 64,
        ensures
            final(self).wf(),
            forall|j: int| #[trigger] final(self).piece_at(j) == if j == i {
                Some(piece)
            } else {
                old(self).piece_at(j)
            },
    {
        self.clear(i);
        let ghost o = *self;
        let m = 1u64 << (i as u64);
        let t = piece.0.to_index();
        let c = piece.1.to_index();
        self.pieces[t] = BitBoard(self.pieces[t].0 | m);
        self.colors[c] = BitBoard(self.colors[c].0 | m);
        self.combined = BitBoard(self.combined.0 | m);
        proof {
            assert forall|j: int| #[trigger] bit(m, j) == (j == i) by {
                crate::bits::lemma_bit_single(i as int, j);
            }
            assert forall|j: int, u: int| 0 <= u < 6 implies #[trigger] self.pieces[u].has(j) == (o.pieces[u].has(j) || (u == t && j == i)) by {
                crate::bits::lemma_bit_or(o.pieces[u].0, m, j);
            }
            assert forall|j: int, u: int| 0 <= u < 2 implies #[trigger] self.colors[u].has(j) == (o.colors[u].has(j) || (u == c && j == i)) by {
                crate::bits::lemma_bit_or(o.colors[u].0, m, j);
            }
            assert(o.piece_at(i as int) is None);
            assert(!o.combined.has(i as int));
            assert forall|j: int| #[trigger] self.piece_at(j) == if j == i {
                Some(piece)
            } else {
                o.piece_at(j)
            } by {
                if j == i as int {
                    assert(!o.pieces[0].has(j) && !o.pieces[1].has(j) && !o.pieces[2].has(j));
                    assert(!o.pieces[3].has(j) && !o.pieces[4].has(j) && !o.pieces[5].has(j));
                    assert(!o.colors[0].has(j) && !o.colors[1].has(j));
                    assert(self.pieces[0].has(j) == (t == 0));
                    assert(self.pieces[1].has(j) == (t == 1));
                    assert(self.pieces[2].has(j) == (t == 2));
                    assert(self.pieces[3].has(j) == (t == 3));
                    assert(self.pieces[4].has(j) == (t == 4));
                    assert(self.pieces[5].has(j) == (t == 5));
                    assert(self.colors[0].has(j) == (c == 0));
                    assert(self.colors[1].has(j) == (c == 1));
                    assert(self.type_at(j) == piece.0);
                    assert(self.color_at(j) == piece.1);
                } else {
                    assert(self.pieces[0].has(j) == o.pieces[0].has(j));
                    assert(self.pieces[1].has(j) == o.pieces[1].has(j));
                    assert(self.pieces[2].has(j) == o.pieces[2].has(j));
                    assert(self.pieces[3].has(j) == o.pieces[3].has(j));
                    assert(self.pieces[4].has(j) == o.pieces[4].has(j));
                    assert(self.pieces[5].has(j) == o.pieces[5].has(j));
                    assert(self.colors[0].has(j) == o.colors[0].has(j));
                    assert(self.colors[1].has(j) == o.colors[1].has(j));
                }
            }
        }
    }

    /// Whether the piece `pc` on `a` attacks `t`.
    fn piece_attacks(&self, pc: Piece, a: usize, t: usize) -> (r: bool)
        requires
            self.wf(),
            a < 64,
            t < 64,
        ensures
            r == attacks(pc, a as int, t as int, self.placement()),
    {
        proof {
            assert forall|x: int| #[trigger] bit(self.combined.0, x) == occupied(self.placement(), x) by {}
        }
        match pc.0 {
            PieceType::Pawn => is_pawn_capture(pc.1 == Color::White, a, t),
            PieceType::Knight => is_knight_step(a, t),
            PieceType::King => is_king_step(a, t),
            PieceType::Bishop => is_diagonal_line(a, t) && is_path_clear(a, t, self.combined.0),
            PieceType::Rook => is_straight_line(a, t) && is_path_clear(a, t, self.combined.0),
            PieceType::Queen => (is_diagonal_line(a, t) || is_straight_line(a, t))
                && is_path_clear(a, t, self.combined.0),
        }
    }

    /// The squares of the pieces of color `by` that attack `t`.
    pub fn attackers(&self, t: usize, by: Color) -> (r: u64)
        requires
            self.wf(),
            t < 64,
        ensures
            forall|a: int| #[trigger] bit(r, a) == attacker(self.placement(), a, t as int, by),
    {
        let mut r: u64 = 0;
        let mut a: usize = 0;
        while a < 64
            invariant
                a <= 64,
                t < 64,
                self.wf(),
                forall|x: int| #[trigger] bit(r, x) == (0 <= x < a && attacker(self.placement(), x, t as int, by)),
            decreases 64 - a,
        {
            let ghost old_r = r;
            let hit = match self.piece_on(a) {
                Some(pc) => pc.1 == by && self.piece_attacks(pc, a, t),
                None => false,
            };
            if hit {
                r = r | (1u64 << (a as u64));
            }
            proof {
                assert forall|x: int| #[trigger] bit(r, x) == (0 <= x < a + 1 && attacker(self.placement(), x, t as int, by)) by {
                    crate::bits::lemma_bit_or(old_r, 1u64 << (a as u64), x);
                    crate::bits::lemma_bit_single(a as int, x);
                }
            }
            a = a + 1;
        }
        proof {
            assert forall|x: int| #[trigger] bit(r, x) == attacker(self.placement(), x, t as int, by) by {
                if attacker(self.placement(), x, t as int, by) {
                    assert(is_square(x));
                }
            }
        }
        r
    }

    /// The squares of the pieces of color `own` pinned to square `k`.
    pub fn pinned_to(&self, k: usize, own: Color) -> (r: u64)
        requires
            self.wf(),
            k < 64,
        ensures
            forall|b: int| #[trigger] bit(r, b) == pinned(self.placement(), k as int, own, b),
    {
        let mut r: u64 = 0;
        let mut a: usize = 0;
        let opp = own.opposite();
        let ghost p = self.placement();
        proof {
            assert forall|x: int| #[trigger] bit(self.combined.0, x) == occupied(p, x) by {}
        }
        while a < 64
            invariant
                a <= 64,
                k < 64,
                self.wf(),
                p == self.placement(),
                opp == own.opposite_spec(),
                forall|x: int| #[trigger] bit(self.combined.0, x) == occupied(p, x),
                forall|b: int| #[trigger] bit(r, b) ==
                    (is_square(b) && holds_color(p, b, own) && exists|x: int| 0 <= x < a && #[trigger] pin_source(p, k as int, own, x, b)),
            decreases 64 - a,
        {
            let ghost old_r = r;
            let candidate = match self.piece_on(a) {
                Some(pc) => pc.1 == opp && match pc.0 {
                    PieceType::Bishop => is_diagonal_line(k, a),
                    PieceType::Rook => is_straight_line(k, a),
                    PieceType::Queen => is_diagonal_line(k, a) || is_straight_line(k, a),
                    _ => false,
                },
                None => false,
            };
            if candidate {
                let (count, blocker) = path_blockers(k, a, self.combined.0);
                if count == 1 {
                    let owned = match self.piece_on(blocker) {
                        Some(bp) => bp.1 == own,
                        None => false,
                    };
                    if owned {
                        r = r | (1u64 << (blocker as u64));
                    }
                    proof {
                        assert(sole_occupied_between(p, k as int, a as int, blocker as int));
                        assert forall|b: int| #[trigger] bit(r, b) ==
                            (is_square(b) && holds_color(p, b, own) && exists|x: int| 0 <= x < a + 1 && #[trigger] pin_source(p, k as int, own, x, b)) by {
                            crate::bits::lemma_bit_or(old_r, 1u64 << (blocker as u64), b);
                            crate::bits::lemma_bit_single(blocker as int, b);
                            if b == blocker && owned {
                                assert(pin_source(p, k as int, own, a as int, b));
                            }
                            if pin_source(p, k as int, own, a as int, b) {
                                lemma_sole_occupied_unique(p, k as int, a as int, b, blocker as int);
                            }
                            if exists|x: int| 0 <= x < a + 1 && #[trigger] pin_source(p, k as int, own, x, b) {
                                let x = choose|x: int| 0 <= x < a + 1 && #[trigger] pin_source(p, k as int, own, x, b);
                                if x < a {
                                    assert(exists|y: int| 0 <= y < a && #[trigger] pin_source(p, k as int, own, y, b));
                                }
                            }
                        }
                    }
                } else {
                    proof {
                        assert forall|b: int| !pin_source(p, k as int, own, a as int, b) by {
                            if pin_source(p, k as int, own, a as int, b) {
                                if count == 0 {
                                    let j = choose|j: int| 0 < j < crate::geometry::line_len(k as int, a as int) && #[trigger] crate::geometry::line_square(k as int, a as int, j) == b && occupied(p, b) && forall|i: int|
                                        0 < i < crate::geometry::line_len(k as int, a as int) && i != j ==> !occupied(p, #[trigger] crate::geometry::line_square(k as int, a as int, i));
                                    assert(!bit(self.combined.0, crate::geometry::line_square(k as int, a as int, j)));
                                } else {
                                    assert(sole_blocker(k as int, a as int, self.combined.0, b));
                                }
                            }
                        }
                        assert forall|b: int| #[trigger] bit(r, b) ==
                            (is_square(b) && holds_color(p, b, own) && exists|x: int| 0 <= x < a + 1 && #[trigger] pin_source(p, k as int, own, x, b)) by {
                            if exists|x: int| 0 <= x < a + 1 && #[trigger] pin_source(p, k as int, own, x, b) {
                                let x = choose|x: int| 0 <= x < a + 1 && #[trigger] pin_source(p, k as int, own, x, b);
                                if x < a {
                                    assert(exists|y: int| 0 <= y < a && #[trigger] pin_source(p, k as int, own, y, b));
                                }
                            }
                        }
                    }
                }
            } else {
                proof {
                    assert forall|b: int| !pin_source(p, k as int, own, a as int, b) by {}
                    assert forall|b: int| #[trigger] bit(r, b) ==
                        (is_square(b) && holds_color(p, b, own) && exists|x: int| 0 <= x < a + 1 && #[trigger] pin_source(p, k as int, own, x, b)) by {
                        if exists|x: int| 0 <= x < a + 1 && #[trigger] pin_source(p, k as int, own, x, b) {
                            let x = choose|x: int| 0 <= x < a + 1 && #[trigger] pin_source(p, k as int, own, x, b);
                            if x < a {
                                assert(exists|y: int| 0 <= y < a && #[trigger] pin_source(p, k as int, own, y, b));
                            }
                        }
                    }
                }
            }
            a = a + 1;
        }
        proof {
            assert forall|b: int| #[trigger] bit(r, b) == pinned(p, k as int, own, b) by {
                if pinned(p, k as int, own, b) {
                    let x = choose|x: int| is_square(x) && #[trigger] pin_source(p, k as int, own, x, b);
                    assert(0 <= x < 64);
                }
            }
        }
        r
    }
}

/// The only occupied square strictly between two squares is unique.
proof fn lemma_sole_occupied_unique(p: Place, k: int, a: int, b1: int, b2: int)
    requires
        sole_occupied_between(p, k, a, b1),
        sole_occupied_between(p, k, a, b2),
    ensures
        b1 == b2,
{
    let j1 = choose|j: int|
        0 < j < crate::geometry::line_len(k, a) && #[trigger] crate::geometry::line_square(k, a, j) == b1 && occupied(p, b1) && forall|i: int|
            0 < i < crate::geometry::line_len(k, a) && i != j ==> !occupied(p, #[trigger] crate::geometry::line_square(k, a, i));
    let j2 = choose|j: int|
        0 < j < crate::geometry::line_len(k, a) && #[trigger] crate::geometry::line_square(k, a, j) == b2 && occupied(p, b2) && forall|i: int|
            0 < i < crate::geometry::line_len(k, a) && i != j ==> !occupied(p, #[trigger] crate::geometry::line_square(k, a, i));
    if j1 != j2 {
        assert(!occupied(p, crate::geometry::line_square(k, a, j2)));
    }
}

} // verus!
