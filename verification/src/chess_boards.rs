//! A position: where the pieces stand, whose move it is, the castling rights, the en-passant
//! square and the move counters, together with what the rules derive from them (the pieces
//! that give check, the pinned pieces, whether any move is left). The hash of a position is
//! computed when it is asked for.
use crate::bitboards::BitBoard;
use crate::board_builders::BoardBuilder;
use crate::bits::bit;
use crate::board_moves::{BoardMove, DisplayAmbiguityType, PieceMove};
use crate::castling::CastlingRights;
use crate::colors::Color;
use crate::coordinates::{file_of, rank_of, Square};
use crate::errors::LibChessError;
use crate::geometry::{
    aligned, diagonal_line, is_diagonal_line, is_king_step, is_knight_step, is_path_clear,
    is_square, is_straight_line, knight_step, straight_line,
};
use crate::movegen::{
    after_castle, after_piece_move, castle_ok_exec, exists_legal_move, in_check_exec,
    is_legal_piece_move_exec, legal_moves_list, lemma_kings_after_move, sole_king,
};
use crate::pieces::{Piece, PieceType};
use crate::placement::PieceMasks;
use crate::rules::{
    attacker, clear_path, ep_after, ep_victim, fullmoves_after, home, halfmoves_after, holds_color, in_check,
    kingside_castle_ok, legal_board_move, occupied, opp_rights_after, own_rights_after, pinned,
    place_after_move, queenside_castle_ok, sole_king_at, Place,
};
use crate::zobrist::{
    black_to_move_key, castling_key, en_passant_key, lemma_pieces_hash_init, pieces_hash, position_hash,
    PositionHashValueType, ZobristHasher,
};
use vstd::prelude::*;

verus! {

broadcast use crate::bits::group_bit_lemmas, PieceMove::lemma_with_parts;

/// The status of a position.
#[derive(Debug, Clone, Copy, PartialEq, Eq, Structural)]
pub enum BoardStatus {
    Ongoing,
    CheckMated(Color),
    TheoreticalDrawDeclared,
    FiftyMovesDrawDeclared,
    Stalemate,
}

/// The moves allowed in a position.
pub type LegalMoves = Vec<BoardMove>;

/// A position that the rules allow: one king of each color, the side that is not to move is not
/// in check, the castling rights and the en-passant square agree with the pieces, and the derived
/// sets (checks, pins) and the terminal flag agree with the position.
#[derive(Debug, Clone, Copy, PartialEq, Eq)]
pub struct ChessBoard {
    masks: PieceMasks,
    side_to_move: Color,
    castle_rights: [CastlingRights; 2],
    en_passant: Option<Square>,
    pinned: BitBoard,
    checks: BitBoard,
    is_terminal_position: bool,
    moves_since_capture_or_pawn_move: usize,
    move_number: usize,
}

/// The parts of a board agree: one king of each color, the side that is not to move is not in
/// check, the checks, pins and terminal flag are those of the position, and the castling rights
/// and the en-passant square agree with the pieces.
spec fn consistent(
    masks: PieceMasks,
    side: Color,
    rights: [CastlingRights; 2],
    ep: Option<Square>,
    pins: BitBoard,
    checks: BitBoard,
    terminal: bool,
) -> bool {
    let p = masks.placement();
    let k = choose|k: int| sole_king_at(p, side, k);
    &&& masks.wf()
    &&& exists|k: int| sole_king_at(p, Color::White, k)
    &&& exists|k: int| sole_king_at(p, Color::Black, k)
    &&& !in_check(p, side.opposite_spec())
    &&& forall|a: int| #[trigger] checks.has(a) == attacker(p, a, k, side.opposite_spec())
    &&& forall|b: int| #[trigger] pins.has(b) == pinned(p, k, side, b)
    &&& terminal == !exists|mv: BoardMove| #[trigger] legal_board_move(p, side, ep, rights[side.index_spec()], mv)
    &&& castling_consistent(p, Color::White, rights[0])
    &&& castling_consistent(p, Color::Black, rights[1])
    &&& ep_consistent(p, side, ep)
}

impl ChessBoard {
    /// What stands on every square.
    pub closed spec fn place(self) -> Place {
        self.masks.placement()
    }

    /// The side to move.
    pub closed spec fn side(self) -> Color {
        self.side_to_move
    }

    /// The castling rights of color `c`.
    pub closed spec fn rights(self, c: Color) -> CastlingRights {
        self.castle_rights[c.index_spec()]
    }

    /// The en-passant square.
    pub closed spec fn ep(self) -> Option<Square> {
        self.en_passant
    }

    /// Moves made since the last capture or pawn move.
    pub closed spec fn halfmoves(self) -> int {
        self.moves_since_capture_or_pawn_move as int
    }

    /// The move number.
    pub closed spec fn fullmoves(self) -> int {
        self.move_number as int
    }

    /// The square of the king of color `c`.
    pub open spec fn king_square(self, c: Color) -> int {
        choose|k: int| sole_king_at(self.place(), c, k)
    }

    /// The rules allow the move `mv` in this position.
    pub open spec fn is_legal_spec(self, mv: BoardMove) -> bool {
        legal_board_move(self.place(), self.side(), self.ep(), self.rights(self.side()), mv)
    }

    /// The side to move has a move that the rules allow.
    pub open spec fn has_legal_move(self) -> bool {
        exists|mv: BoardMove| #[trigger] self.is_legal_spec(mv)
    }

    /// The king of the side to move is in check.
    pub open spec fn in_check_spec(self) -> bool {
        in_check(self.place(), self.side())
    }

    /// The Zobrist hash of the position.
    pub open spec fn hash_spec(self) -> u64 {
        position_hash(self.place(), self.side(), self.rights(Color::White), self.rights(Color::Black), self.ep())
    }

    /// `self` is the position reached from `prev` by the move `mv`.
    pub open spec fn follows(self, prev: ChessBoard, mv: BoardMove) -> bool {
        let side = prev.side();
        let opp = side.opposite_spec();
        &&& self.place() == place_after_move(prev.place(), side, prev.ep(), mv)
        &&& self.side() == opp
        &&& self.rights(side) == own_rights_after(prev.rights(side), mv)
        &&& self.rights(opp) == opp_rights_after(side, prev.rights(opp), mv)
        &&& self.ep() == ep_after(mv)
        &&& self.halfmoves() == halfmoves_after(prev.place(), side, prev.halfmoves(), mv)
        &&& self.fullmoves() == fullmoves_after(side, prev.fullmoves())
    }

    #[verifier::type_invariant]
    closed spec fn inv(self) -> bool {
        consistent(
            self.masks,
            self.side_to_move,
            self.castle_rights,
            self.en_passant,
            self.pinned,
            self.checks,
            self.is_terminal_position,
        )
    }

    /// Every board has one king of each color, and the side that is not to move is not in check.
    fn facts(&self)
        ensures
            exists|k: int| #[trigger] sole_king_at(self.place(), Color::White, k),
            exists|k: int| #[trigger] sole_king_at(self.place(), Color::Black, k),
            sole_king_at(self.place(), Color::White, self.king_square(Color::White)),
            sole_king_at(self.place(), Color::Black, self.king_square(Color::Black)),
            !in_check(self.place(), self.side().opposite_spec()),
    {
        proof {
            use_type_invariant(self);
            let w = choose|k: int| sole_king_at(self.masks.placement(), Color::White, k);
            let b = choose|k: int| sole_king_at(self.masks.placement(), Color::Black, k);
            assert(sole_king_at(self.place(), Color::White, w));
            assert(sole_king_at(self.place(), Color::Black, b));
        }
    }

    /// Puts a position together and derives what the rules derive from it.
    fn assemble(
        masks: PieceMasks,
        side: Color,
        rights: [CastlingRights; 2],
        ep: Option<Square>,
        half: usize,
        full: usize,
    ) -> (r: ChessBoard)
        requires
            masks.wf(),
            exists|k: int| sole_king_at(masks.placement(), Color::White, k),
            exists|k: int| sole_king_at(masks.placement(), Color::Black, k),
            !in_check(masks.placement(), side.opposite_spec()),
            castling_consistent(masks.placement(), Color::White, rights[0]),
            castling_consistent(masks.placement(), Color::Black, rights[1]),
            ep_consistent(masks.placement(), side, ep),
        ensures
            r.place() == masks.placement(),
            r.side() == side,
            r.rights(Color::White) == rights[0],
            r.rights(Color::Black) == rights[1],
            r.ep() == ep,
            r.halfmoves() == half,
            r.fullmoves() == full,
    {
        let ghost p = masks.placement();
        let k = match sole_king(&masks, side) {
            Some(k) => k,
            None => {
                proof {
                    if side == Color::White {
                        let w = choose|k: int| sole_king_at(p, Color::White, k);
                        assert(sole_king_at(p, side, w));
                    } else {
                        let b = choose|k: int| sole_king_at(p, Color::Black, k);
                        assert(sole_king_at(p, side, b));
                    }
                }
                0
            },
        };
        let ghost ks = choose|x: int| sole_king_at(p, side, x);
        proof {
            assert(sole_king_at(p, side, ks));
            assert(p(k as int) == Some(Piece(PieceType::King, side)));
            assert(ks == k);
        }
        let opp = side.opposite();
        let checks = BitBoard(masks.attackers(k, opp));
        let pinned = BitBoard(masks.pinned_to(k, side));
        let own_rights = rights[side.to_index()];
        let terminal = !exists_legal_move(&masks, side, ep, own_rights);
        proof {
            assert(consistent(masks, side, rights, ep, pinned, checks, terminal));
        }
        let r = ChessBoard {
            masks,
            side_to_move: side,
            castle_rights: rights,
            en_passant: ep,
            pinned,
            checks,
            is_terminal_position: terminal,
            moves_since_capture_or_pawn_move: half,
            move_number: full,
        };
        proof {
            assert(r.rights(side) == own_rights);
            assert forall|mv: BoardMove| #[trigger] r.is_legal_spec(mv) == legal_board_move(p, side, ep, own_rights, mv) by {}
        }
        r
    }
}

impl ChessBoard {
    /// The squares of the pieces of color `color`.
    pub fn get_color_mask(&self, color: Color) -> (r: BitBoard)
        ensures
            forall|i: int| #[trigger] r.has(i) == holds_color(self.place(), i, color),
    {
        proof {
            use_type_invariant(self);
            self.masks.lemma_masks_meaning();
        }
        self.masks.colors[color.to_index()]
    }

    /// The squares of all pieces.
    pub fn get_combined_mask(&self) -> (r: BitBoard)
        ensures
            forall|i: int| #[trigger] r.has(i) == occupied(self.place(), i),
    {
        proof {
            use_type_invariant(self);
            self.masks.lemma_masks_meaning();
        }
        self.masks.combined
    }

    /// The squares of the pieces of kind `piece_type`.
    pub fn get_piece_type_mask(&self, piece_type: PieceType) -> (r: BitBoard)
        ensures
            forall|i: int| #[trigger] r.has(i) == (self.place()(i) matches Some(pc) && pc.0 == piece_type),
    {
        proof {
            use_type_invariant(self);
            self.masks.lemma_masks_meaning();
        }
        self.masks.pieces[piece_type.to_index()]
    }

    /// The square of the king of color `color`.
    pub fn get_king_square(&self, color: Color) -> (r: Square)
        ensures
            r.idx() == self.king_square(color),
            sole_king_at(self.place(), color, r.idx()),
    {
        self.facts();
        let mask = self.get_piece_type_mask(PieceType::King) & self.get_color_mask(color);
        let ghost k = self.king_square(color);
        proof {
            assert(mask.has(k));
            crate::bits::lemma_zero_iff_no_bits(mask.0);
        }
        let r = mask.to_square();
        proof {
            Square::lemma_idx_range(r);
            assert(self.place()(r.idx()) == Some(Piece(PieceType::King, color)));
        }
        r
    }

    /// The pieces of the side to move that are pinned to their king.
    pub fn get_pin_mask(&self) -> (r: BitBoard)
        ensures
            forall|b: int| #[trigger] r.has(b) == pinned(self.place(), self.king_square(self.side()), self.side(), b),
    {
        proof {
            use_type_invariant(self);
        }
        self.pinned
    }

    /// The pieces that give check to the king of the side to move.
    pub fn get_check_mask(&self) -> (r: BitBoard)
        ensures
            forall|a: int| #[trigger] r.has(a) == attacker(self.place(), a, self.king_square(self.side()), self.side().opposite_spec()),
    {
        proof {
            use_type_invariant(self);
        }
        self.checks
    }

    /// The castling rights (not whether castling is possible now) of color `color`.
    pub fn get_castle_rights(&self, color: Color) -> (r: CastlingRights)
        ensures
            r == self.rights(color),
    {
        self.castle_rights[color.to_index()]
    }

    /// The side to move.
    pub fn get_side_to_move(&self) -> (r: Color)
        ensures
            r == self.side(),
    {
        self.side_to_move
    }

    /// The en-passant square left by the last move, if any.
    pub fn get_en_passant(&self) -> (r: Option<Square>)
        ensures
            r == self.ep(),
    {
        self.en_passant
    }

    /// The move number (it grows after every move of black).
    pub fn get_move_number(&self) -> (r: usize)
        ensures
            r == self.fullmoves(),
    {
        self.move_number
    }

    /// Moves made since the last capture or pawn move (for the fifty-move rule).
    pub fn get_moves_since_capture_or_pawn_move(&self) -> (r: usize)
        ensures
            r == self.halfmoves(),
    {
        self.moves_since_capture_or_pawn_move
    }

    /// Whether no piece stands on `square`.
    pub fn is_empty_square(&self, square: Square) -> (r: bool)
        ensures
            r == !occupied(self.place(), square.idx()),
    {
        proof {
            use_type_invariant(self);
        }
        self.masks.piece_on(square.to_index()).is_none()
    }

    /// The kind of the piece on `square`, if any.
    pub fn get_piece_type_on(&self, square: Square) -> (r: Option<PieceType>)
        ensures
            r == match self.place()(square.idx()) {
                Some(pc) => Some(pc.0),
                None => None::<PieceType>,
            },
    {
        proof {
            use_type_invariant(self);
        }
        match self.masks.piece_on(square.to_index()) {
            Some(pc) => Some(pc.0),
            None => None,
        }
    }

    /// The color of the piece on `square`, if any.
    pub fn get_piece_color_on(&self, square: Square) -> (r: Option<Color>)
        ensures
            r == match self.place()(square.idx()) {
                Some(pc) => Some(pc.1),
                None => None::<Color>,
            },
    {
        proof {
            use_type_invariant(self);
        }
        match self.masks.piece_on(square.to_index()) {
            Some(pc) => Some(pc.1),
            None => None,
        }
    }

    /// The piece on `square`, if any.
    pub fn get_piece_on(&self, square: Square) -> (r: Option<Piece>)
        ensures
            r == self.place()(square.idx()),
    {
        proof {
            use_type_invariant(self);
        }
        self.masks.piece_on(square.to_index())
    }

    /// Whether the side to move has no move left (checkmate or stalemate).
    pub fn is_terminal(&self) -> (r: bool)
        ensures
            r == !self.has_legal_move(),
    {
        proof {
            use_type_invariant(self);
            let p = self.masks.placement();
            let rights = self.castle_rights[self.side_to_move.index_spec()];
            if self.has_legal_move() {
                let mv = choose|mv: BoardMove| #[trigger] self.is_legal_spec(mv);
                assert(legal_board_move(p, self.side_to_move, self.en_passant, rights, mv));
            }
            if exists|mv: BoardMove| #[trigger] legal_board_move(p, self.side_to_move, self.en_passant, rights, mv) {
                let mv = choose|mv: BoardMove| #[trigger] legal_board_move(p, self.side_to_move, self.en_passant, rights, mv);
                assert(self.is_legal_spec(mv));
            }
        }
        self.is_terminal_position
    }

    /// The Zobrist hash of the position.
    pub fn get_hash(&self) -> (r: PositionHashValueType)
        ensures
            r == self.hash_spec(),
    {
        proof {
            use_type_invariant(self);
        }
        ZobristHasher::new().hash_of(
            &self.masks,
            self.side_to_move,
            self.castle_rights[0],
            self.castle_rights[1],
            self.en_passant,
        )
    }

    /// Whether the king of the side to move is in check.
    pub(crate) fn in_check_now(&self) -> (r: bool)
        ensures
            r == self.in_check_spec(),
    {
        self.facts();
        let checks = self.get_check_mask();
        let ghost p = self.place();
        let ghost k = self.king_square(self.side());
        let ghost opp = self.side().opposite_spec();
        proof {
            crate::bits::lemma_zero_iff_no_bits(checks.0);
            if in_check(p, self.side()) {
                let k2 = choose|k2: int| is_square(k2) && #[trigger] p(k2) == Some(Piece(PieceType::King, self.side())) && crate::rules::attacked(p, k2, opp);
                assert(k2 == k);
                let a = choose|a: int| #[trigger] attacker(p, a, k2, opp);
                assert(checks.has(a));
            }
            if checks.0 != 0 {
                let a = choose|a: int| 0 <= a < 64 && #[trigger] bit(checks.0, a);
                assert(attacker(p, a, k, opp));
                assert(crate::rules::attacked(p, k, opp));
                assert(p(k) == Some(Piece(PieceType::King, self.side())));
            }
        }
        !checks.is_blank()
    }

    /// Whether the rules allow the move `chess_move` in this position.
    pub fn is_legal_move(&self, chess_move: &BoardMove) -> (r: bool)
        ensures
            r == self.is_legal_spec(*chess_move),
    {
        proof {
            use_type_invariant(self);
        }
        if self.is_terminal_position {
            return false;
        }
        let side = self.side_to_move;
        let rights = self.castle_rights[side.to_index()];
        match chess_move {
            BoardMove::MovePiece(m) => is_legal_piece_move_exec(
                &self.masks,
                side,
                self.en_passant,
                m.get_piece_type(),
                m.get_source_square().to_index(),
                m.get_destination_square().to_index(),
                m.get_promotion(),
            ),
            BoardMove::CastleKingSide => crate::movegen::castle_legal_exec(&self.masks, side, self.en_passant, rights, true),
            BoardMove::CastleQueenSide => crate::movegen::castle_legal_exec(&self.masks, side, self.en_passant, rights, false),
        }
    }

    /// All the moves that the rules allow in this position, once each, in the order of
    /// `move_key`: pawn moves first, then those of knights, bishops, rooks, queens and the king,
    /// each kind by source square, destination and promotion, and the castlings last.
    pub fn get_legal_moves(&self) -> (r: LegalMoves)
        ensures
            r@.no_duplicates(),
            crate::movegen::in_key_order(r@),
            forall|mv: BoardMove| r@.contains(mv) <==> #[trigger] self.is_legal_spec(mv),
    {
        proof {
            use_type_invariant(self);
        }
        let side = self.side_to_move;
        let r = legal_moves_list(&self.masks, side, self.en_passant, self.castle_rights[side.to_index()]);
        proof {
            assert forall|mv: BoardMove| r@.contains(mv) <==> #[trigger] self.is_legal_spec(mv) by {
                assert(self.is_legal_spec(mv) == legal_board_move(self.masks.placement(), side, self.en_passant, self.castle_rights[side.index_spec()], mv));
            }
        }
        r
    }
}

/// The castling rights of the moving side after its move.
fn own_rights_after_exec(own: CastlingRights, mv: &BoardMove) -> (r: CastlingRights)
    ensures
        r == own_rights_after(own, *mv),
{
    let lost = match mv {
        BoardMove::MovePiece(m) => match m.get_piece_type() {
            PieceType::Rook => {
                let f = m.get_source_square().to_index() % 8;
                if f == 7 {
                    CastlingRights::KingSide
                } else if f == 0 {
                    CastlingRights::QueenSide
                } else {
                    CastlingRights::Neither
                }
            },
            PieceType::King => CastlingRights::BothSides,
            _ => CastlingRights::Neither,
        },
        _ => CastlingRights::BothSides,
    };
    own.difference(lost)
}

/// The castling rights of the other side after a move of `side`.
fn opp_rights_after_exec(side: Color, opp: CastlingRights, mv: &BoardMove) -> (r: CastlingRights)
    ensures
        r == opp_rights_after(side, opp, *mv),
{
    let base: usize = match side {
        Color::White => 56,
        Color::Black => 0,
    };
    let lost = match mv {
        BoardMove::MovePiece(m) => {
            let d = m.get_destination_square().to_index();
            if d == base + 7 {
                CastlingRights::KingSide
            } else if d == base {
                CastlingRights::QueenSide
            } else {
                CastlingRights::Neither
            }
        },
        _ => CastlingRights::Neither,
    };
    opp.difference(lost)
}

/// The en-passant square after a move.
fn ep_after_exec(mv: &BoardMove) -> (r: Option<Square>)
    ensures
        r == ep_after(*mv),
{
    match mv {
        BoardMove::MovePiece(m) => {
            let s = m.get_source_square().to_index();
            let d = m.get_destination_square().to_index();
            let (rs, rd) = (s / 8, d / 8);
            if m.get_piece_type() == PieceType::Pawn && (rs + 2 == rd || rd + 2 == rs) {
                let e = (rs + rd) / 2 * 8 + d % 8;
                Some(Square::from_u8(e as u8))
            } else {
                None
            }
        },
        _ => None,
    }
}

impl ChessBoard {
    /// The position after the move `mv`, which the rules allow.
    fn play(&self, mv: &BoardMove) -> (r: ChessBoard)
        requires
            self.is_legal_spec(*mv),
            self.halfmoves() < usize::MAX,
            self.fullmoves() < usize::MAX,
        ensures
            r.follows(*self, *mv),
            r.valid(),
    {
        proof {
            use_type_invariant(self);
        }
        self.facts();
        let ghost p = self.place();
        let side = self.side_to_move;
        let opp = side.opposite();
        let ep = self.en_passant;
        let rights_now = self.castle_rights[side.to_index()];
        let masks = match mv {
            BoardMove::MovePiece(m) => {
                proof {
                    assert(crate::rules::pseudo_target(p, side, ep, m.piece_type_spec(), m.from_spec().idx(), m.to_spec().idx()));
                }
                after_piece_move(
                    &self.masks,
                    side,
                    ep,
                    m.get_piece_type(),
                    m.get_source_square().to_index(),
                    m.get_destination_square().to_index(),
                    m.get_promotion(),
                )
            },
            BoardMove::CastleKingSide => after_castle(&self.masks, side, true),
            BoardMove::CastleQueenSide => after_castle(&self.masks, side, false),
        };
        proof {
            assert(masks.placement() == place_after_move(p, side, ep, *mv));
            assert(legal_board_move(p, side, ep, rights_now, *mv));
            lemma_kings_after_move(p, side, ep, rights_now, *mv, Color::White, self.king_square(Color::White));
            lemma_kings_after_move(p, side, ep, rights_now, *mv, Color::Black, self.king_square(Color::Black));
            assert(!in_check(masks.placement(), side));
            assert(castling_consistent(p, Color::White, self.rights(Color::White)));
            assert(castling_consistent(p, Color::Black, self.rights(Color::Black)));
            lemma_move_keeps_own_rights(p, side, ep, rights_now, *mv);
            lemma_move_keeps_opp_rights(p, side, ep, rights_now, self.rights(side.opposite_spec()), *mv);
            lemma_move_leaves_ep_consistent(p, side, ep, rights_now, *mv);
        }
        let own = own_rights_after_exec(rights_now, mv);
        let other = opp_rights_after_exec(side, self.castle_rights[opp.to_index()], mv);
        let rights = match side {
            Color::White => [own, other],
            Color::Black => [other, own],
        };
        let new_ep = ep_after_exec(mv);
        let half = match mv {
            BoardMove::MovePiece(m) => {
                let capture = match self.masks.piece_on(m.get_destination_square().to_index()) {
                    Some(pc) => pc.1 == opp,
                    None => false,
                };
                if m.get_piece_type() == PieceType::Pawn || capture {
                    0
                } else {
                    self.moves_since_capture_or_pawn_move + 1
                }
            },
            _ => self.moves_since_capture_or_pawn_move + 1,
        };
        let full = match side {
            Color::Black => self.move_number + 1,
            Color::White => self.move_number,
        };
        let r = ChessBoard::assemble(masks, opp, rights, new_ep, half, full);
        proof {
            assert(r.rights(side) == own);
            assert(r.rights(opp) == other);
            use_type_invariant(&r);
        }
        r
    }

    /// The hash of the position `next` that the legal move `mv` leads to, from the hash `hash`
    /// of this board: the keys of the squares that the move touches, of the side to move, of the
    /// castling rights and of the en-passant squares change, and nothing else.
    pub fn hash_after_move(&self, keys: &ZobristHasher, hash: PositionHashValueType, mv: &BoardMove, next: &ChessBoard) -> (r: PositionHashValueType)
        requires
            hash == self.hash_spec(),
            self.is_legal_spec(*mv),
            next.follows(*self, *mv),
        ensures
            r == next.hash_spec(),
    {
        proof {
            use_type_invariant(self);
            use_type_invariant(next);
            if let BoardMove::MovePiece(m) = *mv {
                assert(crate::rules::pseudo_target(self.place(), self.side(), self.ep(), m.piece_type_spec(), m.from_spec().idx(), m.to_spec().idx()));
            }
        }
        let masks = &next.masks;
        let rights = next.castle_rights;
        let new_ep = next.en_passant;
        let side = self.side_to_move;
        let ghost p = self.place();
        let squares: Vec<usize> = match mv {
            BoardMove::MovePiece(m) => {
                let a = m.get_source_square().to_index();
                let d = m.get_destination_square().to_index();
                let mut v = vec![a, d];
                match side {
                    Color::White => {
                        if d >= 8 {
                            v.push(d - 8);
                        }
                    },
                    Color::Black => {
                        if d + 8 < 64 {
                            v.push(d + 8);
                        }
                    },
                }
                v
            },
            _ => {
                let base: usize = match side {
                    Color::White => 0,
                    Color::Black => 56,
                };
                match mv {
                    BoardMove::CastleKingSide => vec![base + 4, base + 6, base + 7, base + 5],
                    _ => vec![base + 4, base + 2, base, base + 3],
                }
            },
        };
        proof {
            assert(forall|j: int| 0 <= j < squares@.len() ==> #[trigger] squares@[j] < 64);
            assert forall|i: int|
                (forall|j: int| 0 <= j < squares@.len() ==> #[trigger] squares@[j] as int != i) implies self.masks.piece_at(i)
                    == masks.piece_at(i) by {
                assert(self.masks.placement()(i) == self.masks.piece_at(i));
                assert(masks.placement()(i) == masks.piece_at(i));
                match mv {
                    BoardMove::MovePiece(m) => {
                        assert(squares@[0] as int != i);
                        assert(squares@[1] as int != i);
                        if squares@.len() > 2 {
                            assert(squares@[2] as int != i);
                        }
                    },
                    _ => {
                        assert(squares@[0] as int != i);
                        assert(squares@[1] as int != i);
                        assert(squares@[2] as int != i);
                        assert(squares@[3] as int != i);
                    },
                }
            }
        }
        let mut h = keys.piece_changes(hash, &self.masks, masks, &squares);
        h = h ^ keys.get_black_to_move_value();
        h = h ^ keys.get_castling_rights_value(self.castle_rights[0], Color::White);
        h = h ^ keys.get_castling_rights_value(rights[0], Color::White);
        h = h ^ keys.get_castling_rights_value(self.castle_rights[1], Color::Black);
        h = h ^ keys.get_castling_rights_value(rights[1], Color::Black);
        let e1: u64 = match self.en_passant {
            Some(e) => keys.get_en_passant_value(e),
            None => 0,
        };
        let e2: u64 = match new_ep {
            Some(e) => keys.get_en_passant_value(e),
            None => 0,
        };
        h = h ^ e1 ^ e2;
        proof {
            let q = masks.placement();
            lemma_position_hash_parts(p, side, self.castle_rights[0], self.castle_rights[1], self.en_passant);
            lemma_position_hash_parts(q, side.opposite_spec(), rights[0], rights[1], new_ep);
            let i1 = if side == Color::Black { black_to_move_key() } else { 0u64 };
            let i2 = if side.opposite_spec() == Color::Black { black_to_move_key() } else { 0u64 };
            let bk = black_to_move_key();
            assert(i2 == i1 ^ bk) by {
                assert(0u64 ^ bk == bk) by (bit_vector);
                assert(bk ^ bk == 0u64) by (bit_vector);
            }
            let p1 = pieces_hash(p, 0u64, 64);
            let p2 = pieces_hash(q, 0u64, 64);
            let w1 = castling_key(Color::White, self.castle_rights[0]);
            let w2 = castling_key(Color::White, rights[0]);
            let b1 = castling_key(Color::Black, self.castle_rights[1]);
            let b2 = castling_key(Color::Black, rights[1]);
            assert(((((((((((i1 ^ p1) ^ w1) ^ b1) ^ e1) ^ p1) ^ p2) ^ bk) ^ w1) ^ w2) ^ b1) ^ b2 ^ e1 ^ e2
                == (((i1 ^ bk) ^ p2) ^ w2) ^ b2 ^ e2) by (bit_vector);
            assert(rights[0] == next.rights(Color::White));
            assert(rights[1] == next.rights(Color::Black));
        }
        h
    }

    /// The position after the move `next_move`; an error if the rules do not allow it.
    pub fn make_move(&self, next_move: &BoardMove) -> (r: Result<ChessBoard, LibChessError>)
        requires
            self.halfmoves() < usize::MAX,
            self.fullmoves() < usize::MAX,
        ensures
            r is Ok <==> self.is_legal_spec(*next_move),
            r matches Ok(b) ==> b.follows(*self, *next_move) && b.valid(),
            r is Err ==> r == Err::<ChessBoard, LibChessError>(LibChessError::IllegalMoveDetected),
    {
        if !self.is_legal_move(next_move) {
            return Err(LibChessError::IllegalMoveDetected);
        }
        Ok(self.play(next_move))
    }

    /// The position after the move `next_move`, which the caller knows to be legal (for
    /// instance because it comes from `get_legal_moves`).
    pub fn make_move_unchecked(&self, next_move: &BoardMove) -> (r: ChessBoard)
        requires
            self.is_legal_spec(*next_move),
            self.halfmoves() < usize::MAX,
            self.fullmoves() < usize::MAX,
        ensures
            r.follows(*self, *next_move),
            r.valid(),
    {
        self.play(next_move)
    }

    /// Makes the move `next_move`, which the caller knows to be legal, on this board, and hands
    /// the board back.
    pub fn make_move_mut_unchecked(&mut self, next_move: &BoardMove) -> (r: &mut Self)
        requires
            old(self).is_legal_spec(*next_move),
            old(self).halfmoves() < usize::MAX,
            old(self).fullmoves() < usize::MAX,
        ensures
            (*r).follows(*old(self), *next_move),
            (*r).valid(),
            *final(self) == *final(r),
    {
        let next = self.play(next_move);
        *self = next;
        self
    }

    /// Makes the move `next_move` on this board and hands the board back; an error, with the
    /// board unchanged, if the rules do not allow it.
    pub fn make_move_mut(&mut self, next_move: &BoardMove) -> (r: Result<&mut Self, LibChessError>)
        requires
            old(self).halfmoves() < usize::MAX,
            old(self).fullmoves() < usize::MAX,
        ensures
            r is Ok <==> old(self).is_legal_spec(*next_move),
            match r {
                Ok(b) => (*b).follows(*old(self), *next_move) && (*b).valid() && *final(self) == *final(b),
                Err(e) => e == LibChessError::IllegalMoveDetected && *final(self) == *old(self),
            },
    {
        if !self.is_legal_move(next_move) {
            return Err(LibChessError::IllegalMoveDetected);
        }
        Ok(self.make_move_mut_unchecked(next_move))
    }
}

/// The hash of a position as the exclusive or of its parts: the side's key, the pieces, the
/// castling keys of both colors and the en-passant key (0 for none).
proof fn lemma_position_hash_parts(p: Place, side: Color, w: CastlingRights, b: CastlingRights, ep: Option<Square>)
    ensures
        position_hash(p, side, w, b, ep) == (((if side == Color::Black { black_to_move_key() } else { 0u64 })
            ^ pieces_hash(p, 0u64, 64)) ^ castling_key(Color::White, w)) ^ castling_key(Color::Black, b) ^ match ep {
            Some(s) => en_passant_key(file_of(s.idx())),
            None => 0u64,
        },
{
    let init = if side == Color::Black { black_to_move_key() } else { 0u64 };
    lemma_pieces_hash_init(p, init, 64);
    let x = ((init ^ pieces_hash(p, 0u64, 64)) ^ castling_key(Color::White, w)) ^ castling_key(Color::Black, b);
    assert(x ^ 0u64 == x) by (bit_vector);
}

/// Castling rights that agree with the placement: a color holds rights only with its king on
/// its e-file home square, and each side only with its rook on that side's corner.
pub open spec fn castling_consistent(p: Place, c: Color, r: CastlingRights) -> bool {
    if p(home(c, 4)) == Some(Piece(PieceType::King, c)) {
        &&& r.kingside_spec() ==> p(home(c, 7)) == Some(Piece(PieceType::Rook, c))
        &&& r.queenside_spec() ==> p(home(c, 0)) == Some(Piece(PieceType::Rook, c))
    } else {
        r == CastlingRights::Neither
    }
}

/// An en-passant square that agrees with the placement: a pawn of the side that just moved
/// stands right behind it.
pub open spec fn ep_consistent(p: Place, side: Color, ep: Option<Square>) -> bool {
    match ep {
        Some(sq) => is_square(ep_victim(side, sq.idx())) && p(ep_victim(side, sq.idx())) == Some(
            Piece(PieceType::Pawn, side.opposite_spec()),
        ),
        None => true,
    }
}

/// Castling rights without a side agree with any placement.
proof fn lemma_no_rights_consistent(p: Place, c: Color)
    ensures
        castling_consistent(p, c, CastlingRights::Neither),
{
}

/// A legal move keeps the rights of the side that moves in agreement with the pieces.
proof fn lemma_move_keeps_own_rights(p: Place, side: Color, ep: Option<Square>, own: CastlingRights, mv: BoardMove)
    requires
        legal_board_move(p, side, ep, own, mv),
        castling_consistent(p, side, own),
    ensures
        castling_consistent(place_after_move(p, side, ep, mv), side, own_rights_after(own, mv)),
{
    let q = place_after_move(p, side, ep, mv);
    let r = own_rights_after(own, mv);
    match mv {
        BoardMove::MovePiece(m) => {
            let pt = m.piece_type_spec();
            let s = m.from_spec().idx();
            let d = m.to_spec().idx();
            if pt == PieceType::King {
                assert(r == CastlingRights::Neither);
            } else if own != CastlingRights::Neither {
                assert(p(home(side, 4)) == Some(Piece(PieceType::King, side)));
                assert(d != home(side, 4));
                assert(s != home(side, 4));
                assert(q(home(side, 4)) == p(home(side, 4)));
                if r.kingside_spec() {
                    assert(own.kingside_spec());
                    assert(p(home(side, 7)) == Some(Piece(PieceType::Rook, side)));
                    assert(d != home(side, 7));
                    if s == home(side, 7) {
                        assert(file_of(s) == 7);
                    }
                    assert(q(home(side, 7)) == p(home(side, 7)));
                }
                if r.queenside_spec() {
                    assert(own.queenside_spec());
                    assert(p(home(side, 0)) == Some(Piece(PieceType::Rook, side)));
                    assert(d != home(side, 0));
                    if s == home(side, 0) {
                        assert(file_of(s) == 0);
                    }
                    assert(q(home(side, 0)) == p(home(side, 0)));
                }
            } else {
                assert(r == CastlingRights::Neither);
            }
        },
        _ => {
            assert(r == CastlingRights::Neither);
        },
    }
}

/// A legal move keeps the rights of the other side in agreement with the pieces.
proof fn lemma_move_keeps_opp_rights(
    p: Place,
    side: Color,
    ep: Option<Square>,
    own: CastlingRights,
    theirs: CastlingRights,
    mv: BoardMove,
)
    requires
        legal_board_move(p, side, ep, own, mv),
        castling_consistent(p, side.opposite_spec(), theirs),
    ensures
        castling_consistent(place_after_move(p, side, ep, mv), side.opposite_spec(), opp_rights_after(side, theirs, mv)),
{
    let o = side.opposite_spec();
    let q = place_after_move(p, side, ep, mv);
    let r = opp_rights_after(side, theirs, mv);
    if theirs == CastlingRights::Neither {
        assert(r == CastlingRights::Neither);
    } else {
        assert(p(home(o, 4)) == Some(Piece(PieceType::King, o)));
        assert(back_rank_differs(side));
        match mv {
            BoardMove::MovePiece(m) => {
                let s = m.from_spec().idx();
                let d = m.to_spec().idx();
                assert(d != home(o, 4));
                assert(s != home(o, 4));
                assert(q(home(o, 4)) == p(home(o, 4)));
                if r.kingside_spec() {
                    assert(p(home(o, 7)) == Some(Piece(PieceType::Rook, o)));
                    assert(d != home(o, 7));
                    assert(s != home(o, 7));
                    assert(q(home(o, 7)) == p(home(o, 7)));
                }
                if r.queenside_spec() {
                    assert(p(home(o, 0)) == Some(Piece(PieceType::Rook, o)));
                    assert(d != home(o, 0));
                    assert(s != home(o, 0));
                    assert(q(home(o, 0)) == p(home(o, 0)));
                }
            },
            _ => {
                assert(r == theirs);
                assert(q(home(o, 4)) == p(home(o, 4)));
                assert(q(home(o, 7)) == p(home(o, 7)));
                assert(q(home(o, 0)) == p(home(o, 0)));
            },
        }
    }
}

/// The back ranks of the two sides differ.
spec fn back_rank_differs(side: Color) -> bool {
    forall|a: int, b: int| 0 <= a < 8 && 0 <= b < 8 ==> #[trigger] home(side, a) != #[trigger] home(side.opposite_spec(), b)
}

/// After a legal move, the en-passant square that it leaves has the pawn that passed it behind it.
proof fn lemma_move_leaves_ep_consistent(p: Place, side: Color, ep: Option<Square>, own: CastlingRights, mv: BoardMove)
    requires
        legal_board_move(p, side, ep, own, mv),
    ensures
        ep_consistent(place_after_move(p, side, ep, mv), side.opposite_spec(), ep_after(mv)),
{
    if let BoardMove::MovePiece(m) = mv {
        let s = m.from_spec().idx();
        let d = m.to_spec().idx();
        if let Some(e) = ep_after(mv) {
            let mid = ((rank_of(s) + rank_of(d)) / 2) * 8 + file_of(d);
            assert(m.piece_type_spec() == PieceType::Pawn);
            assert(file_of(s) == file_of(d));
            assert(0 <= mid < 64);
            Square::lemma_from_idx(mid);
            assert(e.idx() == mid);
            assert(ep_victim(side.opposite_spec(), mid) == d);
            assert(m.promotion_spec() is None);
        }
    }
}

/// What is wrong with the parts of a position, checked in this order: the number of kings of
/// each color, the side not to move in check, the en-passant square, the castling rights.
pub open spec fn setup_error(
    p: Place,
    side: Color,
    white: CastlingRights,
    black: CastlingRights,
    ep: Option<Square>,
) -> Option<LibChessError> {
    if !(exists|k: int| #[trigger] sole_king_at(p, Color::White, k)) || !(exists|k: int| #[trigger] sole_king_at(p, Color::Black, k)) {
        Some(LibChessError::InvalidBoardMultipleOneColorKings)
    } else if in_check(p, side.opposite_spec()) {
        Some(LibChessError::InvalidBoardOpponentIsOnCheck)
    } else if !ep_consistent(p, side, ep) {
        Some(LibChessError::InvalidBoardInconsistentEnPassant)
    } else if !castling_consistent(p, Color::White, white) || !castling_consistent(p, Color::Black, black) {
        Some(LibChessError::InvalidBoardInconsistentCastlingRights)
    } else {
        None
    }
}

/// What is wrong with the parts in a builder.
pub open spec fn builder_error(b: BoardBuilder) -> Option<LibChessError> {
    setup_error(b.place(), b.side_spec(), b.rights_spec(Color::White), b.rights_spec(Color::Black), b.ep_spec())
}

/// The board has the given parts.
pub open spec fn has_parts(
    board: ChessBoard,
    p: Place,
    side: Color,
    white: CastlingRights,
    black: CastlingRights,
    ep: Option<Square>,
    half: int,
    full: int,
) -> bool {
    &&& board.place() == p
    &&& board.side() == side
    &&& board.rights(Color::White) == white
    &&& board.rights(Color::Black) == black
    &&& board.ep() == ep
    &&& board.halfmoves() == half
    &&& board.fullmoves() == full
}

/// The board has the parts of the builder.
pub open spec fn board_of_builder(board: ChessBoard, b: BoardBuilder) -> bool {
    has_parts(board, b.place(), b.side_spec(), b.rights_spec(Color::White), b.rights_spec(Color::Black), b.ep_spec(), b.halfmoves_spec(), b.fullmoves_spec())
}

/// The masks of the pieces that the builder places.
fn masks_of(b: &BoardBuilder) -> (m: PieceMasks)
    ensures
        m.wf(),
        m.placement() == b.place(),
{
    let mut m = PieceMasks::empty();
    let mut i: usize = 0;
    while i < 64
        invariant
            i <= 64,
            m.wf(),
            forall|j: int| #[trigger] m.piece_at(j) == if 0 <= j < i { b.square_spec(j) } else { None },
        decreases 64 - i,
    {
        let sq = Square::from_u8(i as u8);
        match b.get_square(sq) {
            Some(pc) => {
                m.put(i, pc);
            },
            None => {},
        }
        i = i + 1;
    }
    assert forall|j: int| #[trigger] m.placement()(j) == b.place()(j) by {
        if !(0 <= j < 64) {
            b.lemma_off_board(j);
        }
    }
    assert(m.placement() =~= b.place());
    m
}

/// Whether a castling side is held with the king and rook on their squares.
fn castling_consistent_exec(m: &PieceMasks, c: Color, r: CastlingRights) -> (ok: bool)
    requires
        m.wf(),
    ensures
        ok == castling_consistent(m.placement(), c, r),
{
    let base: usize = match c {
        Color::White => 0,
        Color::Black => 56,
    };
    assert(base == crate::rules::back_rank(c) * 8);
    if m.piece_on(base + 4) == Some(Piece(PieceType::King, c)) {
        (!r.has_kingside() || m.piece_on(base + 7) == Some(Piece(PieceType::Rook, c))) && (
        !r.has_queenside() || m.piece_on(base) == Some(Piece(PieceType::Rook, c)))
    } else {
        r == CastlingRights::Neither
    }
}

/// Whether the en-passant square has a pawn of the side that just moved behind it.
fn ep_consistent_exec(m: &PieceMasks, side: Color, ep: Option<Square>) -> (ok: bool)
    requires
        m.wf(),
    ensures
        ok == ep_consistent(m.placement(), side, ep),
{
    match ep {
        Some(sq) => {
            let d = sq.to_index();
            let victim: i64 = match side {
                Color::White => d as i64 - 8,
                Color::Black => d as i64 + 8,
            };
            if victim < 0 || victim >= 64 {
                return false;
            }
            m.piece_on(victim as usize) == Some(Piece(PieceType::Pawn, side.opposite()))
        },
        None => true,
    }
}

impl ChessBoard {
    /// The board with the parts of the builder, or the first thing wrong with them.
    pub fn from_builder(builder: &BoardBuilder) -> (r: Result<ChessBoard, LibChessError>)
        ensures
            match builder_error(*builder) {
                Some(e) => r == Err::<ChessBoard, LibChessError>(e),
                None => r matches Ok(board) && board_of_builder(board, *builder),
            },
    {
        let masks = masks_of(builder);
        let ghost p = masks.placement();
        let side = builder.get_side_to_move();
        let white_king = sole_king(&masks, Color::White);
        let black_king = sole_king(&masks, Color::Black);
        if white_king.is_none() || black_king.is_none() {
            proof {
                if let Some(k) = white_king {
                    assert(sole_king_at(p, Color::White, k as int));
                }
                if let Some(k) = black_king {
                    assert(sole_king_at(p, Color::Black, k as int));
                }
            }
            return Err(LibChessError::InvalidBoardMultipleOneColorKings);
        }
        proof {
            if let Some(k) = white_king {
                assert(sole_king_at(p, Color::White, k as int));
            }
            if let Some(k) = black_king {
                assert(sole_king_at(p, Color::Black, k as int));
            }
        }
        if in_check_exec(&masks, side.opposite()) {
            return Err(LibChessError::InvalidBoardOpponentIsOnCheck);
        }
        let ep = builder.get_en_passant();
        if !ep_consistent_exec(&masks, side, ep) {
            return Err(LibChessError::InvalidBoardInconsistentEnPassant);
        }
        let white = builder.get_castle_rights(Color::White);
        let black = builder.get_castle_rights(Color::Black);
        if !castling_consistent_exec(&masks, Color::White, white) || !castling_consistent_exec(&masks, Color::Black, black) {
            return Err(LibChessError::InvalidBoardInconsistentCastlingRights);
        }
        let board = ChessBoard::assemble(
            masks,
            side,
            [white, black],
            ep,
            builder.get_moves_since_capture_or_pawn_move(),
            builder.get_move_number(),
        );
        Ok(board)
    }

    /// The board with the given parts (see `BoardBuilder::setup`), or the first thing wrong with
    /// them.
    pub fn setup(
        pieces: &[(Square, Piece)],
        side_to_move: Color,
        white_castle_rights: CastlingRights,
        black_castle_rights: CastlingRights,
        en_passant: Option<Square>,
        moves_since_capture_or_pawn_move: usize,
        move_number: usize,
    ) -> (r: Result<ChessBoard, LibChessError>)
        ensures
            ({
                let p = |i: int| crate::board_builders::setup_square(pieces@, i);
                match setup_error(p, side_to_move, white_castle_rights, black_castle_rights, en_passant) {
                    Some(e) => r == Err::<ChessBoard, LibChessError>(e),
                    None => r matches Ok(board) && has_parts(board, p, side_to_move, white_castle_rights, black_castle_rights, en_passant, moves_since_capture_or_pawn_move as int, move_number as int),
                }
            }),
    {
        let b = BoardBuilder::setup(
            pieces,
            side_to_move,
            white_castle_rights,
            black_castle_rights,
            en_passant,
            moves_since_capture_or_pawn_move,
            move_number,
        );
        proof {
            assert(b.place() =~= (|i: int| crate::board_builders::setup_square(pieces@, i)));
        }
        ChessBoard::from_builder(&b)
    }

    /// The board that a FEN text describes; an error if the text does not read or the position
    /// is not one the rules allow.
    pub fn from_fen(fen: &str) -> (r: Result<ChessBoard, LibChessError>)
        requires
            !crate::board_builders::fen_unreadable(fen@),
        ensures
            !crate::board_builders::fen_accepts(fen@) ==> (r matches Err(e) && e matches LibChessError::InvalidFENString { s } && s@ == fen@),
            crate::board_builders::fen_accepts(fen@) ==> exists|b: BoardBuilder| #[trigger] crate::board_builders::fen_describes(fen@, b) && match builder_error(b) {
                Some(e) => r == Err::<ChessBoard, LibChessError>(e),
                None => r matches Ok(board) && board_of_builder(board, b),
            },
    {
        ChessBoard::read_fen(fen)
    }

    /// The board that a FEN text describes (see `from_fen`); an en-passant field that names no
    /// square means none.
    fn read_fen(fen: &str) -> (r: Result<ChessBoard, LibChessError>)
        ensures
            !crate::board_builders::fen_accepts(fen@) ==> (r matches Err(e) && e matches LibChessError::InvalidFENString { s } && s@ == fen@),
            crate::board_builders::fen_accepts(fen@) ==> exists|b: BoardBuilder| #[trigger] crate::board_builders::fen_describes(fen@, b) && match builder_error(b) {
                Some(e) => r == Err::<ChessBoard, LibChessError>(e),
                None => r matches Ok(board) && board_of_builder(board, b),
            },
    {
        match BoardBuilder::read_fen(fen) {
            Ok(b) => {
                let r = ChessBoard::from_builder(&b);
                proof {
                    assert(crate::board_builders::fen_describes(fen@, b));
                }
                r
            },
            Err(e) => Err(e),
        }
    }
}

/// Reading a board's FEN text gives the board back: when the text is accepted and describes a
/// builder with the board's parts that passes the checks of a setup (all of which `as_fen`
/// promises of its text), `from_fen` answers with a board with the board's parts.
pub proof fn lemma_fen_reads_back(board: ChessBoard, text: Seq<char>, b: BoardBuilder, r: Result<ChessBoard, LibChessError>)
    requires
        crate::board_builders::builder_of_board(b, board),
        crate::board_builders::fen_accepts(text),
        crate::board_builders::fen_describes(text, b),
        builder_error(b) is None,
        exists|b2: BoardBuilder| #[trigger] crate::board_builders::fen_describes(text, b2) && match builder_error(b2) {
            Some(e) => r == Err::<ChessBoard, LibChessError>(e),
            None => r matches Ok(g) && board_of_builder(g, b2),
        },
    ensures
        r matches Ok(g) && has_parts(
            g,
            board.place(),
            board.side(),
            board.rights(Color::White),
            board.rights(Color::Black),
            board.ep(),
            board.halfmoves(),
            board.fullmoves(),
        ),
{
    let b2 = choose|b2: BoardBuilder| #[trigger] crate::board_builders::fen_describes(text, b2) && match builder_error(b2) {
        Some(e) => r == Err::<ChessBoard, LibChessError>(e),
        None => r matches Ok(g) && board_of_builder(g, b2),
    };
    assert forall|i: int| #[trigger] b2.square_spec(i) == b.square_spec(i) by {}
    assert(b2.place() =~= b.place());
    assert(b.place() =~= board.place()) by {
        assert forall|i: int| #[trigger] b.place()(i) == board.place()(i) by {
            if !(0 <= i < 64) {
                b.lemma_off_board(i);
                assert(!board.masks.combined.has(i));
            }
        }
    }
}

/// A FEN text in canonical form comes back unchanged: when `from_fen` answers `r` for it (as
/// its contract describes the answer) with a board, the board's FEN text, which `as_fen`
/// writes, is the text itself.
pub proof fn lemma_canonical_fen_comes_back(s: Seq<char>, r: Result<ChessBoard, LibChessError>)
    requires
        crate::board_builders::canonical_fen(s),
        exists|b: BoardBuilder| #[trigger] crate::board_builders::fen_describes(s, b) && match builder_error(b) {
            Some(e) => r == Err::<ChessBoard, LibChessError>(e),
            None => r matches Ok(board) && board_of_builder(board, b),
        },
    ensures
        crate::board_builders::fen_accepts(s),
        r matches Ok(board) ==> crate::board_builders::board_fen(board) == s,
{
    let b = choose|b: BoardBuilder| #[trigger] crate::board_builders::fen_describes(s, b) && match builder_error(b) {
        Some(e) => r == Err::<ChessBoard, LibChessError>(e),
        None => r matches Ok(board) && board_of_builder(board, b),
    };
    crate::board_builders::lemma_canonical_fen_round_trip(s, b);
    if let Ok(board) = r {
        assert(crate::board_builders::builder_of_board(b, board));
        let c = choose|c: BoardBuilder| crate::board_builders::builder_of_board(c, board);
        BoardBuilder::lemma_same_parts(b, c, board);
    }
}

impl core::str::FromStr for ChessBoard {
    type Err = LibChessError;

    fn from_str(value: &str) -> (r: Result<ChessBoard, LibChessError>)
        ensures
            !crate::board_builders::fen_accepts(value@) ==> (r matches Err(e) && e matches LibChessError::InvalidFENString { s } && s@ == value@),
            crate::board_builders::fen_accepts(value@) ==> exists|b: BoardBuilder| #[trigger] crate::board_builders::fen_describes(value@, b) && match builder_error(b) {
                Some(e) => r == Err::<ChessBoard, LibChessError>(e),
                None => r matches Ok(board) && board_of_builder(board, b),
            },
    {
        ChessBoard::read_fen(value)
    }
}

/// The starting position has one king of each color, black is not in check, and all castling
/// rights agree with it.
proof fn lemma_start_valid(p: Place)
    requires
        forall|i: int| #[trigger] p(i) == crate::board_builders::start_piece(i),
    ensures
        sole_king_at(p, Color::White, 4),
        sole_king_at(p, Color::Black, 60),
        !in_check(p, Color::Black),
        castling_consistent(p, Color::White, CastlingRights::BothSides),
        castling_consistent(p, Color::Black, CastlingRights::BothSides),
{
    assert(p(4) == crate::board_builders::start_piece(4));
    assert(p(60) == crate::board_builders::start_piece(60));
    assert(p(0) == crate::board_builders::start_piece(0));
    assert(p(7) == crate::board_builders::start_piece(7));
    assert(p(56) == crate::board_builders::start_piece(56));
    assert(p(63) == crate::board_builders::start_piece(63));
    assert forall|a: int| !#[trigger] attacker(p, a, 60, Color::White) by {
        assert(p(a) == crate::board_builders::start_piece(a));
        if is_square(a) && (p(a) matches Some(pc) && pc.1 == Color::White) {
            assert(0 <= a < 16);
            assert(rank_of(a) <= 1);
            assert(crate::geometry::rdiff(a, 60) >= 6);
            assert(-3 <= crate::geometry::fdiff(a, 60) <= 4);
            if file_of(a) == 4 {
                assert(a == 4 || a == 12);
            }
        }
    }
    if in_check(p, Color::Black) {
        let k = choose|k: int| is_square(k) && #[trigger] p(k) == Some(Piece(PieceType::King, Color::Black)) && crate::rules::attacked(p, k, Color::White);
        assert(p(k) == crate::board_builders::start_piece(k));
        assert(k == 60);
        let a = choose|a: int| #[trigger] attacker(p, a, 60, Color::White);
    }
}

impl ChessBoard {
    /// The starting position.
    fn start() -> (r: ChessBoard)
        ensures
            forall|i: int| #[trigger] r.place()(i) == crate::board_builders::start_piece(i),
            r.side() == Color::White,
            r.rights(Color::White) == CastlingRights::BothSides,
            r.rights(Color::Black) == CastlingRights::BothSides,
            r.ep() is None,
            r.halfmoves() == 0,
            r.fullmoves() == 1,
    {
        let b = BoardBuilder::default();
        let masks = masks_of(&b);
        proof {
            assert forall|i: int| #[trigger] masks.placement()(i) == crate::board_builders::start_piece(i) by {
                assert(b.place()(i) == b.square_spec(i));
            }
            lemma_start_valid(masks.placement());
        }
        ChessBoard::assemble(masks, Color::White, [CastlingRights::BothSides, CastlingRights::BothSides], None, 0, 1)
    }
}

/// The starting position: white to move, all castling rights, no en-passant square, move 1.
pub open spec fn is_start_position(b: ChessBoard) -> bool {
    &&& forall|i: int| #[trigger] b.place()(i) == crate::board_builders::start_piece(i)
    &&& b.side() == Color::White
    &&& b.rights(Color::White) == CastlingRights::BothSides
    &&& b.rights(Color::Black) == CastlingRights::BothSides
    &&& b.ep() is None
    &&& b.halfmoves() == 0
    &&& b.fullmoves() == 1
}

impl Default for ChessBoard {
    /// The starting position.
    fn default() -> (r: ChessBoard)
        ensures
            is_start_position(r),
    {
        ChessBoard::start()
    }
}

impl ChessBoard {
    /// The FEN text of the position. Reading it back gives the position: the text is accepted,
    /// it describes every builder with the position's parts, and those parts pass the checks of
    /// a setup.
    pub fn as_fen(&self) -> (r: String)
        ensures
            r@ == crate::board_builders::board_fen(*self),
            crate::board_builders::fen_accepts(r@),
            forall|b: BoardBuilder| #[trigger] crate::board_builders::builder_of_board(b, *self) ==> crate::board_builders::fen_describes(r@, b),
            forall|b: BoardBuilder| #[trigger] crate::board_builders::builder_of_board(b, *self) ==> builder_error(b) is None,
    {
        proof {
            use_type_invariant(self);
        }
        let b = BoardBuilder::from_board(self);
        proof {
            let c = choose|x: BoardBuilder| crate::board_builders::builder_of_board(x, *self);
            BoardBuilder::lemma_same_parts(b, c, *self);
            crate::board_builders::lemma_fen_round_trip(b);
            assert forall|x: BoardBuilder| #[trigger] crate::board_builders::builder_of_board(x, *self) implies crate::board_builders::fen_describes(crate::board_builders::fen_text(b), x) by {
                BoardBuilder::lemma_same_parts(b, x, *self);
            }
            assert forall|x: BoardBuilder| #[trigger] crate::board_builders::builder_of_board(x, *self) implies builder_error(x) is None by {
                assert(x.place() =~= self.place());
            }
        }
        b.to_string()
    }
}

/// Number of squares below `n` that hold a piece of color `c`.
pub open spec fn count_color(p: Place, c: Color, n: int) -> nat
    decreases n,
{
    if n <= 0 {
        0
    } else {
        count_color(p, c, n - 1) + if holds_color(p, n - 1, c) {
            1nat
        } else {
            0nat
        }
    }
}

/// Counting the pieces of a color counts the squares of a mask that holds exactly them.
proof fn lemma_count_color_bits(p: Place, c: Color, mask: u64, n: int)
    requires
        n <= 64,
        forall|i: int| 0 <= i < 64 ==> #[trigger] bit(mask, i) == holds_color(p, i, c),
    ensures
        count_color(p, c, n) == crate::bits::bits_below(mask, n),
    decreases n,
{
    if n > 0 {
        lemma_count_color_bits(p, c, mask, n - 1);
        assert(bit(mask, n - 1) == holds_color(p, n - 1, c));
    }
}

/// Distinct squares below `n` that hold pieces of color `c` are counted: there are at least as
/// many pieces of that color.
proof fn lemma_count_color_at_least(p: Place, c: Color, pts: Seq<int>, n: int)
    requires
        forall|j: int| 0 <= j < pts.len() ==> 0 <= #[trigger] pts[j] < n && holds_color(p, pts[j], c),
        forall|j: int, k: int| 0 <= j < k < pts.len() ==> #[trigger] pts[j] != #[trigger] pts[k],
    ensures
        count_color(p, c, n) >= pts.len(),
    decreases n,
{
    if n <= 0 {
        if pts.len() > 0 {
            assert(0 <= pts[0] < n);
        }
    } else if exists|j: int| 0 <= j < pts.len() && #[trigger] pts[j] == n - 1 {
        let j = choose|j: int| 0 <= j < pts.len() && #[trigger] pts[j] == n - 1;
        let rest = pts.remove(j);
        assert forall|a: int| 0 <= a < rest.len() implies 0 <= #[trigger] rest[a] < n - 1 && holds_color(p, rest[a], c) by {
            if a < j {
                assert(rest[a] == pts[a]);
                assert(pts[a] != pts[j]);
            } else {
                assert(rest[a] == pts[a + 1]);
                assert(pts[j] != pts[a + 1]);
            }
        }
        assert forall|a: int, b: int| 0 <= a < b < rest.len() implies #[trigger] rest[a] != #[trigger] rest[b] by {
            let a2 = if a < j { a } else { a + 1 };
            let b2 = if b < j { b } else { b + 1 };
            assert(rest[a] == pts[a2]);
            assert(rest[b] == pts[b2]);
        }
        lemma_count_color_at_least(p, c, rest, n - 1);
        assert(holds_color(p, n - 1, c));
    } else {
        assert forall|a: int| 0 <= a < pts.len() implies 0 <= #[trigger] pts[a] < n - 1 && holds_color(p, pts[a], c) by {
            assert(pts[a] != n - 1);
        }
        lemma_count_color_at_least(p, c, pts, n - 1);
    }
}

/// When every piece of color `c` below `n` stands on `a` or `b`, there are at most two.
proof fn lemma_count_color_at_most_two(p: Place, c: Color, a: int, b: int, n: int)
    requires
        a != b,
        forall|i: int| 0 <= i < n && #[trigger] holds_color(p, i, c) ==> i == a || i == b,
    ensures
        count_color(p, c, n) <= (if 0 <= a < n { 1int } else { 0int }) + (if 0 <= b < n { 1int } else { 0int }),
    decreases n,
{
    if n > 0 {
        lemma_count_color_at_most_two(p, c, a, b, n - 1);
    }
}

/// A color with a queen, a rook or a pawn beside its king has mating material: whatever else
/// stands on the board, it is not a color that cannot mate.
pub proof fn lemma_heavy_piece_can_mate(p: Place, c: Color, k: int, i: int)
    requires
        sole_king_at(p, c, k),
        is_square(i),
        p(i) matches Some(pc) && pc.1 == c && (pc.0 == PieceType::Queen || pc.0 == PieceType::Rook
            || pc.0 == PieceType::Pawn),
    ensures
        !cannot_mate(p, c),
{
    assert(p(k) == Some(Piece(PieceType::King, c)));
    assert(i != k);
    assert(holds_color(p, k, c));
    assert(holds_color(p, i, c));
    lemma_count_color_at_least(p, c, seq![k, i], 64);
    if count_color(p, c, 64) == 2 && exists|m: int|
        is_square(m) && (#[trigger] p(m) matches Some(pc) && pc.1 == c && (pc.0 == PieceType::Knight
            || pc.0 == PieceType::Bishop)) {
        let m = choose|m: int|
            is_square(m) && (#[trigger] p(m) matches Some(pc) && pc.1 == c && (pc.0 == PieceType::Knight
                || pc.0 == PieceType::Bishop));
        assert(m != k && m != i);
        assert(holds_color(p, m, c));
        lemma_count_color_at_least(p, c, seq![k, i, m], 64);
    }
}

/// A color with only its king and one knight or bishop, or only its king, cannot mate.
pub proof fn lemma_minor_piece_cannot_mate(p: Place, c: Color, k: int, m: int)
    requires
        sole_king_at(p, c, k),
        is_square(m),
        m != k ==> (p(m) matches Some(pc) && pc.1 == c && (pc.0 == PieceType::Knight || pc.0 == PieceType::Bishop)),
        forall|i: int| is_square(i) && #[trigger] holds_color(p, i, c) ==> i == k || i == m,
    ensures
        cannot_mate(p, c),
{
    if m == k {
        lemma_count_color_at_most_two(p, c, k, -1, 64);
    } else {
        lemma_count_color_at_most_two(p, c, k, m, 64);
        assert(p(m) matches Some(pc) && pc.1 == c && (pc.0 == PieceType::Knight || pc.0 == PieceType::Bishop));
    }
}

/// The number of pieces of color `c` is the number of squares in a mask that holds exactly the
/// squares of that color's pieces (such as `get_color_mask` gives, counted by `count_ones`).
pub proof fn lemma_color_count_is_popcount(p: Place, c: Color, mask: BitBoard)
    requires
        forall|i: int| #[trigger] mask.has(i) == holds_color(p, i, c),
    ensures
        count_color(p, c, 64) == crate::bits::popcount(mask.0),
{
    assert forall|i: int| 0 <= i < 64 implies #[trigger] bit(mask.0, i) == holds_color(p, i, c) by {
        assert(mask.has(i) == holds_color(p, i, c));
    }
    lemma_count_color_bits(p, c, mask.0, 64);
    crate::bits::lemma_popcount_bits(mask.0);
}

/// Color `c` cannot give mate: it has only its king, or its king and one knight or bishop.
pub open spec fn cannot_mate(p: Place, c: Color) -> bool {
    let n = count_color(p, c, 64);
    n <= 1 || (n == 2 && exists|i: int|
        is_square(i) && (#[trigger] p(i) matches Some(pc) && pc.1 == c && (pc.0 == PieceType::Knight
            || pc.0 == PieceType::Bishop)))
}

/// The piece of kind `pt` on `a` could move to `d` along its lines, whatever stands on `d`
/// (what short notation has to tell apart).
pub open spec fn reaches(p: Place, pt: PieceType, a: int, d: int) -> bool {
    match pt {
        PieceType::Knight => knight_step(d, a),
        PieceType::Bishop => diagonal_line(d, a) && clear_path(p, a, d),
        PieceType::Rook => straight_line(d, a) && clear_path(p, a, d),
        PieceType::Queen => aligned(d, a) && clear_path(p, a, d),
        _ => false,
    }
}

/// Number of squares below `n` holding a piece `pc` that reaches `d`.
pub open spec fn count_reaching(p: Place, pc: Piece, d: int, n: int) -> nat
    decreases n,
{
    if n <= 0 {
        0
    } else {
        count_reaching(p, pc, d, n - 1) + if p(n - 1) == Some(pc) && reaches(p, pc.0, n - 1, d) {
            1nat
        } else {
            0nat
        }
    }
}

/// Number of squares below `n` on file `f` holding the piece `pc`.
pub open spec fn count_on_file(p: Place, pc: Piece, f: int, n: int) -> nat
    decreases n,
{
    if n <= 0 {
        0
    } else {
        count_on_file(p, pc, f, n - 1) + if p(n - 1) == Some(pc) && file_of(n - 1) == f {
            1nat
        } else {
            0nat
        }
    }
}

impl ChessBoard {
    /// The side to move has too little to give mate, and so has the other side.
    pub open spec fn theoretical_draw_spec(self) -> bool {
        cannot_mate(self.place(), Color::White) && cannot_mate(self.place(), Color::Black)
    }

    /// The status of the position.
    pub open spec fn status_spec(self) -> BoardStatus {
        if !self.has_legal_move() {
            if self.in_check_spec() {
                BoardStatus::CheckMated(self.side())
            } else {
                BoardStatus::Stalemate
            }
        } else if self.theoretical_draw_spec() {
            BoardStatus::TheoreticalDrawDeclared
        } else if self.halfmoves() >= 100 {
            BoardStatus::FiftyMovesDrawDeclared
        } else {
            BoardStatus::Ongoing
        }
    }

    /// How much of the source square the short notation of a legal move has to show: a pawn
    /// capture shows its file; for a knight, bishop, rook or queen, when another piece of the
    /// same kind and color also reaches the destination, the file, or the whole square when the
    /// file holds more than one such piece.
    pub open spec fn ambiguity_spec(self, m: PieceMove) -> DisplayAmbiguityType {
        let pt = m.piece_type_spec();
        let s = m.from_spec().idx();
        let d = m.to_spec().idx();
        let pc = Piece(pt, self.side());
        if pt == PieceType::Pawn {
            if file_of(s) != file_of(d) {
                DisplayAmbiguityType::ExtraFile
            } else {
                DisplayAmbiguityType::Neither
            }
        } else if pt == PieceType::King {
            DisplayAmbiguityType::Neither
        } else if count_reaching(self.place(), pc, d, 64) > 1 {
            if count_on_file(self.place(), pc, file_of(s), 64) > 1 {
                DisplayAmbiguityType::ExtraSquare
            } else {
                DisplayAmbiguityType::ExtraFile
            }
        } else {
            DisplayAmbiguityType::Neither
        }
    }

    /// The castling sides that are possible now: rights held, king and rook on their squares,
    /// the squares between them empty, the king's path not attacked, and no check (as given by
    /// `check_mask` when it is given).
    pub fn castling_is_available_on_board(&self, check_mask: Option<BitBoard>) -> (r: CastlingRights)
        ensures
            ({
                let no_checks = match check_mask {
                    Some(c) => c.0 == 0,
                    None => !self.in_check_spec(),
                };
                let rights = self.rights(self.side());
                r == CastlingRights::from_sides(
                    kingside_castle_ok(self.place(), self.side(), rights, no_checks),
                    queenside_castle_ok(self.place(), self.side(), rights, no_checks),
                )
            }),
    {
        proof {
            use_type_invariant(self);
        }
        let no_checks = match check_mask {
            Some(c) => c.is_blank(),
            None => !self.in_check_now(),
        };
        let side = self.side_to_move;
        let rights = self.castle_rights[side.to_index()];
        let k = castle_ok_exec(&self.masks, side, rights, no_checks, true);
        let q = castle_ok_exec(&self.masks, side, rights, no_checks, false);
        CastlingRights::from_bits(k, q)
    }

    /// Number of pieces of color `c`.
    fn count_color_exec(&self, c: Color) -> (n: usize)
        ensures
            n == count_color(self.place(), c, 64),
            n <= 64,
    {
        proof {
            use_type_invariant(self);
        }
        let mut n: usize = 0;
        let mut i: usize = 0;
        while i < 64
            invariant
                i <= 64,
                n <= i,
                self.masks.wf(),
                n == count_color(self.masks.placement(), c, i as int),
            decreases 64 - i,
        {
            match self.masks.piece_on(i) {
                Some(pc) => {
                    if pc.1 == c {
                        n = n + 1;
                    }
                },
                None => {},
            }
            i = i + 1;
        }
        n
    }

    /// Whether color `c` has a knight or a bishop.
    fn has_minor_piece(&self, c: Color) -> (r: bool)
        ensures
            r == exists|i: int| is_square(i) && (#[trigger] self.place()(i) matches Some(pc) && pc.1 == c && (pc.0 == PieceType::Knight || pc.0 == PieceType::Bishop)),
    {
        proof {
            use_type_invariant(self);
        }
        let mut i: usize = 0;
        while i < 64
            invariant
                i <= 64,
                self.masks.wf(),
                forall|j: int| 0 <= j < i ==> !(#[trigger] self.masks.placement()(j) matches Some(pc) && pc.1 == c && (pc.0 == PieceType::Knight || pc.0 == PieceType::Bishop)),
            decreases 64 - i,
        {
            match self.masks.piece_on(i) {
                Some(pc) => {
                    if pc.1 == c && (pc.0 == PieceType::Knight || pc.0 == PieceType::Bishop) {
                        assert(is_square(i as int) && (self.place()(i as int) matches Some(pc) && pc.1 == c && (pc.0 == PieceType::Knight || pc.0 == PieceType::Bishop)));
                        return true;
                    }
                },
                None => {},
            }
            i = i + 1;
        }
        false
    }

    /// Whether neither side has enough pieces left to give mate.
    pub fn is_theoretical_draw_on_board(&self) -> (r: bool)
        ensures
            r == self.theoretical_draw_spec(),
    {
        let white = self.count_color_exec(Color::White);
        let black = self.count_color_exec(Color::Black);
        if white > 2 || black > 2 {
            return false;
        }
        let white_cannot = white <= 1 || self.has_minor_piece(Color::White);
        let black_cannot = black <= 1 || self.has_minor_piece(Color::Black);
        white_cannot && black_cannot
    }

    /// The status of the position: checkmate or stalemate when no move is left, else a draw for
    /// too little material or fifty moves without capture or pawn move, else ongoing.
    pub fn get_status(&self) -> (r: BoardStatus)
        ensures
            r == self.status_spec(),
    {
        if self.is_terminal() {
            if self.in_check_now() {
                BoardStatus::CheckMated(self.side_to_move)
            } else {
                BoardStatus::Stalemate
            }
        } else if self.is_theoretical_draw_on_board() {
            BoardStatus::TheoreticalDrawDeclared
        } else if self.moves_since_capture_or_pawn_move >= 100 {
            BoardStatus::FiftyMovesDrawDeclared
        } else {
            BoardStatus::Ongoing
        }
    }

    /// Whether the piece `pc` on `a` reaches `d` (see `reaches`).
    fn reaches_exec(&self, pt: PieceType, a: usize, d: usize) -> (r: bool)
        requires
            a < 64,
            d < 64,
        ensures
            r == reaches(self.place(), pt, a as int, d as int),
    {
        proof {
            use_type_invariant(self);
            assert forall|x: int| #[trigger] bit(self.masks.combined.0, x) == occupied(self.place(), x) by {}
        }
        let occ = self.masks.combined.0;
        match pt {
            PieceType::Knight => is_knight_step(d, a),
            PieceType::Bishop => is_diagonal_line(d, a) && is_path_clear(a, d, occ),
            PieceType::Rook => is_straight_line(d, a) && is_path_clear(a, d, occ),
            PieceType::Queen => (is_diagonal_line(d, a) || is_straight_line(d, a)) && is_path_clear(a, d, occ),
            _ => false,
        }
    }

    /// How much of the source square the short notation of `piece_move` has to show; an error
    /// if the move is not legal here.
    pub fn get_move_ambiguity_type(&self, piece_move: &PieceMove) -> (r: Result<DisplayAmbiguityType, LibChessError>)
        ensures
            self.is_legal_spec(BoardMove::MovePiece(*piece_move)) ==> r == Ok::<DisplayAmbiguityType, LibChessError>(self.ambiguity_spec(*piece_move)),
            !self.is_legal_spec(BoardMove::MovePiece(*piece_move)) ==> r == Err::<DisplayAmbiguityType, LibChessError>(LibChessError::IllegalMoveDetected),
    {
        if !self.is_legal_move(&BoardMove::MovePiece(*piece_move)) {
            return Err(LibChessError::IllegalMoveDetected);
        }
        proof {
            use_type_invariant(self);
        }
        let pt = piece_move.get_piece_type();
        let s = piece_move.get_source_square().to_index();
        let d = piece_move.get_destination_square().to_index();
        if pt == PieceType::Pawn {
            if s % 8 != d % 8 {
                return Ok(DisplayAmbiguityType::ExtraFile);
            }
            return Ok(DisplayAmbiguityType::Neither);
        }
        if pt == PieceType::King {
            return Ok(DisplayAmbiguityType::Neither);
        }
        let pc = Piece(pt, self.side_to_move);
        let ghost p = self.place();
        let mut reaching: usize = 0;
        let mut on_file: usize = 0;
        let mut a: usize = 0;
        while a < 64
            invariant
                a <= 64,
                s < 64,
                d < 64,
                reaching <= a,
                on_file <= a,
                self.masks.wf(),
                p == self.place(),
                p == self.masks.placement(),
                pc == Piece(pt, self.side()),
                reaching == count_reaching(p, pc, d as int, a as int),
                on_file == count_on_file(p, pc, file_of(s as int), a as int),
            decreases 64 - a,
        {
            let ghost before = reaching;
            proof {
                assert(count_reaching(p, pc, d as int, a + 1) == count_reaching(p, pc, d as int, a as int) + if p(a as int) == Some(pc) && reaches(p, pc.0, a as int, d as int) {
                    1nat
                } else {
                    0nat
                });
            }
            if self.masks.piece_on(a) == Some(pc) {
                let hit = self.reaches_exec(pt, a, d);
                if hit {
                    reaching = reaching + 1;
                }
                assert(p(a as int) == Some(pc));
                assert(hit == reaches(p, pc.0, a as int, d as int));
                if a % 8 == s % 8 {
                    on_file = on_file + 1;
                }
            }
            a = a + 1;
        }
        if reaching > 1 {
            if on_file > 1 {
                Ok(DisplayAmbiguityType::ExtraSquare)
            } else {
                Ok(DisplayAmbiguityType::ExtraFile)
            }
        } else {
            Ok(DisplayAmbiguityType::Neither)
        }
    }
}

impl ChessBoard {
    /// The sets of squares of the position.
    pub(crate) fn piece_masks(&self) -> (r: &PieceMasks)
        ensures
            r.wf(),
            r.placement() == self.place(),
    {
        proof {
            use_type_invariant(self);
        }
        &self.masks
    }
}

impl ChessBoard {
    /// After the move `mv`, the side to move has a move that the rules allow.
    pub open spec fn has_reply(self, mv: BoardMove) -> bool {
        let side = self.side();
        let opp = side.opposite_spec();
        exists|r: BoardMove| #[trigger] legal_board_move(
            place_after_move(self.place(), side, self.ep(), mv),
            opp,
            ep_after(mv),
            opp_rights_after(side, self.rights(opp), mv),
            r,
        )
    }

    /// The board is one the rules allow, with its checks, pins and terminal flag derived from
    /// the position: what the type keeps of every board.
    pub closed spec fn valid(self) -> bool {
        self.inv()
    }

    /// Two valid boards that agree on the position, the side to move, the castling rights, the
    /// en-passant square and the move counters are the same board.
    pub proof fn lemma_same_parts(a: ChessBoard, b: ChessBoard)
        requires
            a.valid(),
            b.valid(),
            a.place() == b.place(),
            a.side() == b.side(),
            a.rights(Color::White) == b.rights(Color::White),
            a.rights(Color::Black) == b.rights(Color::Black),
            a.ep() == b.ep(),
            a.halfmoves() == b.halfmoves(),
            a.fullmoves() == b.fullmoves(),
        ensures
            a == b,
    {
        let ma = a.masks;
        let mb = b.masks;
        ma.lemma_masks_meaning();
        mb.lemma_masks_meaning();
        assert forall|i: int| #[trigger] ma.piece_at(i) == mb.piece_at(i) by {
            assert(a.place()(i) == b.place()(i));
        }
        assert forall|t: int| 0 <= t < 6 implies #[trigger] ma.pieces[t] == mb.pieces[t] by {
            assert forall|i: int| 0 <= i < 64 implies #[trigger] bit(ma.pieces[t].0, i) == bit(mb.pieces[t].0, i) by {
                assert(ma.pieces[t].has(i) == mb.pieces[t].has(i));
            }
            crate::bits::lemma_bits_ext(ma.pieces[t].0, mb.pieces[t].0);
        }
        assert(ma.pieces =~= mb.pieces);
        assert forall|c: int| 0 <= c < 2 implies #[trigger] ma.colors[c] == mb.colors[c] by {
            assert forall|i: int| 0 <= i < 64 implies #[trigger] bit(ma.colors[c].0, i) == bit(mb.colors[c].0, i) by {
                assert(ma.colors[0].has(i) == mb.colors[0].has(i));
                assert(ma.colors[1].has(i) == mb.colors[1].has(i));
            }
            crate::bits::lemma_bits_ext(ma.colors[c].0, mb.colors[c].0);
        }
        assert(ma.colors =~= mb.colors);
        assert forall|i: int| 0 <= i < 64 implies #[trigger] bit(ma.combined.0, i) == bit(mb.combined.0, i) by {
            assert(ma.combined.has(i) == mb.combined.has(i));
        }
        crate::bits::lemma_bits_ext(ma.combined.0, mb.combined.0);
        assert(ma == mb);
        let p = a.place();
        let k = choose|k: int| sole_king_at(p, a.side_to_move, k);
        assert forall|i: int| 0 <= i < 64 implies #[trigger] bit(a.checks.0, i) == bit(b.checks.0, i) by {
            assert(a.checks.has(i) == attacker(p, i, k, a.side_to_move.opposite_spec()));
            assert(b.checks.has(i) == attacker(p, i, k, a.side_to_move.opposite_spec()));
        }
        crate::bits::lemma_bits_ext(a.checks.0, b.checks.0);
        assert forall|i: int| 0 <= i < 64 implies #[trigger] bit(a.pinned.0, i) == bit(b.pinned.0, i) by {
            assert(a.pinned.has(i) == pinned(p, k, a.side_to_move, i));
            assert(b.pinned.has(i) == pinned(p, k, a.side_to_move, i));
        }
        crate::bits::lemma_bits_ext(a.pinned.0, b.pinned.0);
        assert(a.castle_rights =~= b.castle_rights) by {
            assert(a.castle_rights[0] == a.rights(Color::White));
            assert(a.castle_rights[1] == a.rights(Color::Black));
            assert(b.castle_rights[0] == b.rights(Color::White));
            assert(b.castle_rights[1] == b.rights(Color::Black));
        }
    }

    /// No valid board with a queen, a rook or a pawn on it is a theoretical draw, so its status is
    /// never the draw for too little material.
    pub proof fn lemma_heavy_piece_no_material_draw(board: ChessBoard, i: int)
        requires
            board.valid(),
            is_square(i),
            board.place()(i) matches Some(pc) && (pc.0 == PieceType::Queen || pc.0 == PieceType::Rook
                || pc.0 == PieceType::Pawn),
        ensures
            !board.theoretical_draw_spec(),
            board.status_spec() != BoardStatus::TheoreticalDrawDeclared,
    {
        let p = board.place();
        let c = p(i).unwrap().1;
        let k = choose|k: int| sole_king_at(p, c, k);
        assert(sole_king_at(p, c, k)) by {
            if c == Color::White {
                assert(exists|k: int| sole_king_at(board.masks.placement(), Color::White, k));
            } else {
                assert(exists|k: int| sole_king_at(board.masks.placement(), Color::Black, k));
            }
        }
        lemma_heavy_piece_can_mate(p, c, k, i);
    }

    /// The count of moves since the last capture or pawn move after a move: a pawn move or the
    /// capture of an opposing piece resets it to 0, any other move adds one.
    pub proof fn lemma_halfmove_counter(after: ChessBoard, prev: ChessBoard, mv: BoardMove)
        requires
            after.follows(prev, mv),
        ensures
            match mv {
                BoardMove::MovePiece(m) => (match prev.place()(m.to_spec().idx()) {
                    Some(pc) => pc.1 != prev.side(),
                    None => false,
                }) ==> after.halfmoves() == 0,
                _ => true,
            },
            match mv {
                BoardMove::MovePiece(m) => m.piece_type_spec() == PieceType::Pawn ==> after.halfmoves() == 0,
                _ => true,
            },
            match mv {
                BoardMove::MovePiece(m) => (m.piece_type_spec() != PieceType::Pawn && match prev.place()(m.to_spec().idx()) {
                    Some(pc) => pc.1 == prev.side(),
                    None => true,
                }) ==> after.halfmoves() == prev.halfmoves() + 1,
                _ => after.halfmoves() == prev.halfmoves() + 1,
            },
    {
        if let BoardMove::MovePiece(m) = mv {
            if let Some(pc) = prev.place()(m.to_spec().idx()) {
                if pc.1 != prev.side() {
                    assert(pc.1 == prev.side().opposite_spec()) by {
                        match pc.1 {
                            Color::White => {},
                            Color::Black => {},
                        }
                        match prev.side() {
                            Color::White => {},
                            Color::Black => {},
                        }
                    }
                    assert(holds_color(prev.place(), m.to_spec().idx(), prev.side().opposite_spec()));
                }
            }
            if holds_color(prev.place(), m.to_spec().idx(), prev.side().opposite_spec()) {
                assert(prev.place()(m.to_spec().idx()) matches Some(pc) && pc.1 != prev.side());
            }
        }
    }

    /// A move leads to one board: valid boards that both follow `prev` by `mv` are the same, so
    /// the checked and unchecked ways of making a move give the same board.
    pub proof fn lemma_follows_unique(x: ChessBoard, y: ChessBoard, prev: ChessBoard, mv: BoardMove)
        requires
            x.valid(),
            y.valid(),
            x.follows(prev, mv),
            y.follows(prev, mv),
        ensures
            x == y,
    {
        let side = prev.side();
        assert(x.rights(Color::White) == y.rights(Color::White)) by {
            if side == Color::White {
                assert(x.rights(side) == y.rights(side));
            } else {
                assert(x.rights(side.opposite_spec()) == y.rights(side.opposite_spec()));
            }
        }
        assert(x.rights(Color::Black) == y.rights(Color::Black)) by {
            if side == Color::Black {
                assert(x.rights(side) == y.rights(side));
            } else {
                assert(x.rights(side.opposite_spec()) == y.rights(side.opposite_spec()));
            }
        }
        Self::lemma_same_parts(x, y);
    }

    /// The hash of a position depends on the pieces, the side to move, the castling rights and
    /// the en-passant square, not on the move counters: positions that agree in those have the
    /// same hash, so a repetition is counted whatever the counters say.
    pub proof fn lemma_hash_ignores_counters(a: ChessBoard, b: ChessBoard)
        requires
            a.place() == b.place(),
            a.side() == b.side(),
            a.rights(Color::White) == b.rights(Color::White),
            a.rights(Color::Black) == b.rights(Color::Black),
            a.ep() == b.ep(),
        ensures
            a.hash_spec() == b.hash_spec(),
    {
    }

    /// A legal move never leaves the mover's king in check: in the position it leads to, the
    /// side that moved is not in check.
    pub proof fn lemma_legal_move_keeps_king_safe(after: ChessBoard, prev: ChessBoard, mv: BoardMove)
        requires
            prev.is_legal_spec(mv),
            after.follows(prev, mv),
        ensures
            !in_check(after.place(), prev.side()),
            after.side() == prev.side().opposite_spec(),
    {
    }

    /// A position reached by `mv` has a legal move exactly when `mv` has a reply.
    pub proof fn lemma_follows_has_legal_move(after: ChessBoard, prev: ChessBoard, mv: BoardMove)
        requires
            after.follows(prev, mv),
        ensures
            after.has_legal_move() == prev.has_reply(mv),
    {
        let side = prev.side();
        let opp = side.opposite_spec();
        let p2 = place_after_move(prev.place(), side, prev.ep(), mv);
        let r2 = opp_rights_after(side, prev.rights(opp), mv);
        if after.has_legal_move() {
            let r = choose|r: BoardMove| #[trigger] after.is_legal_spec(r);
            assert(legal_board_move(p2, opp, ep_after(mv), r2, r));
        }
        if prev.has_reply(mv) {
            let r = choose|r: BoardMove| #[trigger] legal_board_move(p2, opp, ep_after(mv), r2, r);
            assert(after.is_legal_spec(r));
        }
    }
}

} // verus!
