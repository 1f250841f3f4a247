//! The positions of a game and the moves between them, and their text in short notation.
use crate::board_moves::{board_move_text, properties_of, san_text, BoardMove, MovePropertiesOnBoard};
use crate::chess_boards::ChessBoard;
use crate::colors::Color;
use crate::text::{decimal, push_char, push_str, usize_to_string};
use vstd::prelude::*;

verus! {

/// The text of the `i`-th move: its short notation when it is legal in the position it was made
/// from, else its long notation.
pub open spec fn entry_text(positions: Seq<ChessBoard>, moves: Seq<BoardMove>, i: int) -> Seq<char> {
    if i < positions.len() && positions[i].halfmoves() < usize::MAX && positions[i].fullmoves()
        < usize::MAX && positions[i].is_legal_spec(moves[i]) {
        san_text(moves[i], properties_of(positions[i], moves[i]))
    } else {
        board_move_text(moves[i])
    }
}

/// The text of the first `n` moves: numbered pairs "1.e4 e5 2.Nf3 ", or, when black moved
/// first, "1. ... e5 2.Nf3 Nc6 ".
pub open spec fn moves_text(positions: Seq<ChessBoard>, moves: Seq<BoardMove>, n: int) -> Seq<char>
    decreases n,
{
    if n <= 0 {
        if positions.len() > 0 && positions[0].side() == Color::Black {
            seq!['1', '.', ' ', '.', '.', '.', ' ']
        } else {
            Seq::empty()
        }
    } else {
        let i = n - 1;
        let numbered = if positions[0].side() == Color::White {
            i % 2 == 0
        } else {
            i % 2 == 1
        };
        let number = if positions[0].side() == Color::White {
            (i + 2) / 2
        } else {
            (i + 2) / 2 + 1
        };
        moves_text(positions, moves, i) + if numbered {
            decimal(number as nat) + seq!['.']
        } else {
            Seq::empty()
        } + entry_text(positions, moves, i) + seq![' ']
    }
}

/// The text of a history: nothing when it holds no position.
pub open spec fn history_text(positions: Seq<ChessBoard>, moves: Seq<BoardMove>) -> Seq<char> {
    if positions.len() == 0 {
        Seq::empty()
    } else {
        moves_text(positions, moves, moves.len() as int)
    }
}

/// The positions of a game and the moves made: the `i`-th move was made in the `i`-th position.
#[derive(Debug)]
pub struct GameHistory {
    positions: Vec<ChessBoard>,
    moves: Vec<BoardMove>,
}

impl GameHistory {
    pub closed spec fn positions_spec(self) -> Seq<ChessBoard> {
        self.positions@
    }

    pub closed spec fn moves_spec(self) -> Seq<BoardMove> {
        self.moves@
    }

    /// A history holds no more positions than a `usize` counts.
    pub proof fn lemma_positions_bound(self)
        ensures
            self.positions_spec().len() <= usize::MAX,
    {
        assert(self.positions.len() == self.positions@.len());
    }

    /// A history that starts at `position`.
    pub fn from_position(position: ChessBoard) -> (r: Self)
        ensures
            r.positions_spec() == seq![position],
            r.moves_spec() == Seq::<BoardMove>::empty(),
    {
        let mut positions = Vec::new();
        positions.push(position);
        GameHistory { positions, moves: Vec::new() }
    }

    /// Records the move `chess_move` and the position it led to.
    pub fn push(&mut self, chess_move: BoardMove, new_position: ChessBoard)
        ensures
            final(self).positions_spec() == old(self).positions_spec().push(new_position),
            final(self).moves_spec() == old(self).moves_spec().push(chess_move),
    {
        self.positions.push(new_position);
        self.moves.push(chess_move);
    }

    pub fn get_positions(&self) -> (r: &Vec<ChessBoard>)
        ensures
            r@ == self.positions_spec(),
    {
        &self.positions
    }

    pub fn get_moves(&self) -> (r: &Vec<BoardMove>)
        ensures
            r@ == self.moves_spec(),
    {
        &self.moves
    }

    /// The text of the `i`-th move.
    fn entry_string(&self, i: usize) -> (r: String)
        requires
            i < self.moves@.len(),
        ensures
            r@ == entry_text(self.positions@, self.moves@, i as int),
    {
        let mv = self.moves[i];
        if i < self.positions.len() {
            let position = self.positions[i];
            if position.get_moves_since_capture_or_pawn_move() < usize::MAX && position.get_move_number() < usize::MAX {
                match MovePropertiesOnBoard::new(mv, position) {
                    Ok(pr) => {
                        return mv.to_string(pr);
                    },
                    Err(_) => {},
                }
            }
        }
        mv.notation()
    }

    /// The moves in short notation, numbered in pairs.
    pub fn to_string(&self) -> (r: String)
        ensures
            r@ == history_text(self.positions_spec(), self.moves_spec()),
    {
        let mut r = String::new();
        if self.positions.len() == 0 {
            return r;
        }
        let white_first = self.positions[0].get_side_to_move() == Color::White;
        if !white_first {
            push_str(&mut r, "1. ... ");
            proof {
                reveal_strlit("1. ... ");
            }
        }
        assert(r@ =~= moves_text(self.positions@, self.moves@, 0));
        let mut i: usize = 0;
        while i < self.moves.len()
            invariant
                i <= self.moves@.len(),
                self.positions@.len() > 0,
                white_first == (self.positions@[0].side() == Color::White),
                r@ == moves_text(self.positions@, self.moves@, i as int),
            decreases self.moves@.len() - i,
        {
            let ghost before = r@;
            let numbered = if white_first {
                i % 2 == 0
            } else {
                i % 2 == 1
            };
            if numbered {
                let number = if white_first {
                    i / 2 + 1
                } else {
                    i / 2 + 2
                };
                let t = usize_to_string(number);
                push_str(&mut r, t.as_str());
                push_char(&mut r, '.');
            }
            let ghost mid = r@;
            let e = self.entry_string(i);
            push_str(&mut r, e.as_str());
            push_char(&mut r, ' ');
            proof {
                let num: int = if white_first {
                    (i + 2) / 2
                } else {
                    (i + 2) / 2 + 1
                };
                let prefix = if numbered {
                    decimal(num as nat) + seq!['.']
                } else {
                    Seq::<char>::empty()
                };
                assert(mid =~= before + prefix);
                assert(r@ =~= moves_text(self.positions@, self.moves@, i + 1));
            }
            i = i + 1;
        }
        r
    }
}

impl Clone for GameHistory {
    /// A copy of the history.
    fn clone(&self) -> (r: Self)
        ensures
            r.positions_spec() == self.positions_spec(),
            r.moves_spec() == self.moves_spec(),
    {
        let positions = self.positions.clone();
        let moves = self.moves.clone();
        assert(positions@ =~= self.positions@);
        assert(moves@ =~= self.moves@);
        GameHistory { positions, moves }
    }
}

impl Default for GameHistory {
    /// A history with no position.
    fn default() -> (r: Self)
        ensures
            r.positions_spec() == Seq::<ChessBoard>::empty(),
            r.moves_spec() == Seq::<BoardMove>::empty(),
    {
        GameHistory { positions: Vec::new(), moves: Vec::new() }
    }
}

} // verus!
