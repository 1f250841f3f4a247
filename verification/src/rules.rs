//! The rules of chess as mathematical statements about a placement of pieces.
//!
//! A placement maps every square index (0..64) to the piece standing on it, if any.
use crate::board_moves::BoardMove;
use crate::castling::CastlingRights;
use crate::colors::Color;
use crate::coordinates::{file_of, rank_of, Square};
use crate::geometry::{
    aligned, diagonal_line, fdiff, iabs, is_square, king_step, knight_step, line_len, line_square,
    pawn_capture_geom, pawn_dir, pawn_start_rank, rdiff, straight_line,
};
use crate::pieces::{Piece, PieceType};
use vstd::prelude::*;

verus! {

/// What stands on every square.
pub type Place = spec_fn(int) -> Option<Piece>;

pub open spec fn occupied(p: Place, i: int) -> bool {
    p(i) is Some
}

/// Whether square `i` holds a piece of color `c`.
pub open spec fn holds_color(p: Place, i: int, c: Color) -> bool {
    match p(i) {
        Some(pc) => pc.1 == c,
        None => false,
    }
}

/// No piece stands strictly between `a` and `b`.
pub open spec fn clear_path(p: Place, a: int, b: int) -> bool {
    forall|k: int| 0 < k < line_len(a, b) ==> !occupied(p, #[trigger] line_square(a, b, k))
}

/// The piece `pc` standing on `a` attacks square `t`.
pub open spec fn attacks(pc: Piece, a: int, t: int, p: Place) -> bool {
    match pc.0 {
        PieceType::Pawn => pawn_capture_geom(pc.1 == Color::White, a, t),
        PieceType::Knight => knight_step(a, t),
        PieceType::King => king_step(a, t),
        PieceType::Bishop => diagonal_line(a, t) && clear_path(p, a, t),
        PieceType::Rook => straight_line(a, t) && clear_path(p, a, t),
        PieceType::Queen => aligned(a, t) && clear_path(p, a, t),
    }
}

/// A piece of color `by` stands on `a` and attacks `t`.
pub open spec fn attacker(p: Place, a: int, t: int, by: Color) -> bool {
    is_square(a) && match p(a) {
        Some(pc) => pc.1 == by && attacks(pc, a, t, p),
        None => false,
    }
}

/// Some piece of color `by` attacks `t`.
pub open spec fn attacked(p: Place, t: int, by: Color) -> bool {
    exists|a: int| #[trigger] attacker(p, a, t, by)
}

/// The king of color `c` stands on an attacked square.
pub open spec fn in_check(p: Place, c: Color) -> bool {
    exists|k: int|
        is_square(k) && #[trigger] p(k) == Some(Piece(PieceType::King, c)) && attacked(
            p,
            k,
            c.opposite_spec(),
        )
}

/// Exactly one square holds the king of color `c`, and it is `k`.
pub open spec fn sole_king_at(p: Place, c: Color, k: int) -> bool {
    is_square(k) && forall|i: int|
        is_square(i) ==> (#[trigger] p(i) == Some(Piece(PieceType::King, c)) <==> i == k)
}

/// A sliding piece of kind `pt` on `a` would attack along the line to `k`.
pub open spec fn slides_towards(pt: PieceType, k: int, a: int) -> bool {
    ((pt == PieceType::Bishop || pt == PieceType::Queen) && diagonal_line(k, a)) || ((pt
        == PieceType::Rook || pt == PieceType::Queen) && straight_line(k, a))
}

/// `b` is the only occupied square strictly between `k` and `a`.
pub open spec fn sole_occupied_between(p: Place, k: int, a: int, b: int) -> bool {
    exists|j: int|
        0 < j < line_len(k, a) && #[trigger] line_square(k, a, j) == b && occupied(p, b) && forall|
            i: int,
        |
            0 < i < line_len(k, a) && i != j ==> !occupied(p, #[trigger] line_square(k, a, i))
}

/// The piece of color `own` on `b` is the only piece between the square `k` and an opposing
/// sliding piece that aims at `k`.
pub open spec fn pinned(p: Place, k: int, own: Color, b: int) -> bool {
    is_square(b) && holds_color(p, b, own) && exists|a: int|
        is_square(a) && #[trigger] pin_source(p, k, own, a, b)
}

/// The opposing sliding piece on `a` pins the piece on `b` to `k`.
pub open spec fn pin_source(p: Place, k: int, own: Color, a: int, b: int) -> bool {
    match p(a) {
        Some(ap) => ap.1 == own.opposite_spec() && slides_towards(ap.0, k, a)
            && sole_occupied_between(p, k, a, b),
        None => false,
    }
}

/// The square behind `d` from the mover's point of view (where a pawn captured en passant stands).
pub open spec fn ep_victim(side: Color, d: int) -> int {
    d - 8 * pawn_dir(side == Color::White)
}

/// Capturing en passant on `d` is possible: `d` is the en-passant square and an opposing pawn
/// stands behind it.
pub open spec fn ep_capture_possible(p: Place, side: Color, ep: Option<Square>, d: int) -> bool {
    &&& ep matches Some(e) && e.idx() == d
    &&& is_square(ep_victim(side, d))
    &&& p(ep_victim(side, d)) == Some(Piece(PieceType::Pawn, side.opposite_spec()))
}

/// The piece of kind `pt` and color `side` on `s` may move to `d`, leaving aside whether its own
/// king is left in check.
pub open spec fn pseudo_target(
    p: Place,
    side: Color,
    ep: Option<Square>,
    pt: PieceType,
    s: int,
    d: int,
) -> bool {
    &&& is_square(s)
    &&& is_square(d)
    &&& p(s) == Some(Piece(pt, side))
    &&& !holds_color(p, d, side)
    &&& !(p(d) matches Some(pc) && pc.0 == PieceType::King)
    &&& match pt {
        PieceType::Pawn => {
            let w = side == Color::White;
            ||| (fdiff(s, d) == 0 && rdiff(s, d) == pawn_dir(w) && !occupied(p, d))
            ||| (fdiff(s, d) == 0 && rdiff(s, d) == 2 * pawn_dir(w) && rank_of(s) == pawn_start_rank(
                w,
            ) && !occupied(p, s + 8 * pawn_dir(w)) && !occupied(p, d))
            ||| (pawn_capture_geom(w, s, d) && (occupied(p, d) || ep_capture_possible(
                p,
                side,
                ep,
                d,
            )))
        },
        PieceType::Knight => knight_step(s, d),
        PieceType::King => king_step(s, d),
        PieceType::Bishop => diagonal_line(s, d) && clear_path(p, s, d),
        PieceType::Rook => straight_line(s, d) && clear_path(p, s, d),
        PieceType::Queen => aligned(s, d) && clear_path(p, s, d),
    }
}

/// The rank on which pawns of a side promote.
pub open spec fn promotion_rank(side: Color) -> int {
    if side == Color::White {
        7
    } else {
        0
    }
}

/// The rank on which the pieces of a side start.
pub open spec fn back_rank(side: Color) -> int {
    if side == Color::White {
        0
    } else {
        7
    }
}

/// The promotion part of a move is as the rules ask: a pawn reaching the last rank becomes a
/// knight, bishop, rook or queen; no other move promotes.
pub open spec fn promotion_ok(side: Color, pt: PieceType, d: int, promo: Option<PieceType>) -> bool {
    if pt == PieceType::Pawn && rank_of(d) == promotion_rank(side) {
        promo matches Some(q) && (q == PieceType::Knight || q == PieceType::Bishop || q
            == PieceType::Rook || q == PieceType::Queen)
    } else {
        promo is None
    }
}

/// The move of a pawn from `s` to `d` captures en passant.
pub open spec fn ep_capture_move(
    p: Place,
    side: Color,
    ep: Option<Square>,
    pt: PieceType,
    s: int,
    d: int,
) -> bool {
    pt == PieceType::Pawn && fdiff(s, d) != 0 && ep_capture_possible(p, side, ep, d)
}

/// The placement after the piece on `s` moves to `d` (as `promo`, when given, or as `pt`).
pub open spec fn place_after_piece_move(
    p: Place,
    side: Color,
    ep: Option<Square>,
    pt: PieceType,
    s: int,
    d: int,
    promo: Option<PieceType>,
) -> Place {
    |i: int|
        if i == d {
            Some(
                Piece(
                    match promo {
                        Some(q) => q,
                        None => pt,
                    },
                    side,
                ),
            )
        } else if i == s {
            None
        } else if ep_capture_move(p, side, ep, pt, s, d) && i == ep_victim(side, d) {
            None
        } else {
            p(i)
        }
}

/// A move of a piece that the rules allow.
pub open spec fn legal_piece_move(
    p: Place,
    side: Color,
    ep: Option<Square>,
    pt: PieceType,
    s: int,
    d: int,
    promo: Option<PieceType>,
) -> bool {
    &&& pseudo_target(p, side, ep, pt, s, d)
    &&& promotion_ok(side, pt, d, promo)
    &&& !in_check(place_after_piece_move(p, side, ep, pt, s, d, promo), side)
}

/// Square on the back rank of `side` in file `f`.
pub open spec fn home(side: Color, f: int) -> int {
    back_rank(side) * 8 + f
}

/// Castling on the king side is allowed: the rights are held, the king is not in check, the king
/// and the rook stand on their squares, the squares between them are empty, and the squares the
/// king crosses are not attacked.
pub open spec fn kingside_castle_ok(p: Place, side: Color, rights: CastlingRights, no_checks: bool) -> bool {
    let opp = side.opposite_spec();
    &&& rights.kingside_spec()
    &&& no_checks
    &&& p(home(side, 4)) == Some(Piece(PieceType::King, side))
    &&& p(home(side, 7)) == Some(Piece(PieceType::Rook, side))
    &&& !occupied(p, home(side, 5))
    &&& !occupied(p, home(side, 6))
    &&& !attacked(p, home(side, 5), opp)
    &&& !attacked(p, home(side, 6), opp)
}

/// Castling on the queen side is allowed (see `kingside_castle_ok`).
pub open spec fn queenside_castle_ok(p: Place, side: Color, rights: CastlingRights, no_checks: bool) -> bool {
    let opp = side.opposite_spec();
    &&& rights.queenside_spec()
    &&& no_checks
    &&& p(home(side, 4)) == Some(Piece(PieceType::King, side))
    &&& p(home(side, 0)) == Some(Piece(PieceType::Rook, side))
    &&& !occupied(p, home(side, 3))
    &&& !occupied(p, home(side, 2))
    &&& !occupied(p, home(side, 1))
    &&& !attacked(p, home(side, 3), opp)
    &&& !attacked(p, home(side, 2), opp)
}

/// The placement after castling: king from file `e` to `king_to`, rook from `rook_from` to `rook_to`.
pub open spec fn place_after_castle(p: Place, side: Color, king_to: int, rook_from: int, rook_to: int) -> Place {
    |i: int|
        if i == home(side, king_to) {
            Some(Piece(PieceType::King, side))
        } else if i == home(side, rook_to) {
            Some(Piece(PieceType::Rook, side))
        } else if i == home(side, 4) || i == home(side, rook_from) {
            None
        } else {
            p(i)
        }
}

/// A move that the rules allow: a legal piece move, or a castling that is allowed and does not
/// leave the king in check.
pub open spec fn legal_board_move(
    p: Place,
    side: Color,
    ep: Option<Square>,
    rights: CastlingRights,
    mv: BoardMove,
) -> bool {
    match mv {
        BoardMove::MovePiece(m) => legal_piece_move(
            p,
            side,
            ep,
            m.piece_type_spec(),
            m.from_spec().idx(),
            m.to_spec().idx(),
            m.promotion_spec(),
        ),
        BoardMove::CastleKingSide => kingside_castle_ok(p, side, rights, !in_check(p, side))
            && !in_check(place_after_castle(p, side, 6, 7, 5), side),
        BoardMove::CastleQueenSide => queenside_castle_ok(p, side, rights, !in_check(p, side))
            && !in_check(place_after_castle(p, side, 2, 0, 3), side),
    }
}

/// The placement after a move.
pub open spec fn place_after_move(p: Place, side: Color, ep: Option<Square>, mv: BoardMove) -> Place {
    match mv {
        BoardMove::MovePiece(m) => place_after_piece_move(
            p,
            side,
            ep,
            m.piece_type_spec(),
            m.from_spec().idx(),
            m.to_spec().idx(),
            m.promotion_spec(),
        ),
        BoardMove::CastleKingSide => place_after_castle(p, side, 6, 7, 5),
        BoardMove::CastleQueenSide => place_after_castle(p, side, 2, 0, 3),
    }
}

/// The castling rights of the moving side after its move: a king move or a castling gives up
/// both sides, a rook leaving the h-file (a-file) gives up the king (queen) side.
pub open spec fn own_rights_after(own: CastlingRights, mv: BoardMove) -> CastlingRights {
    let lost = match mv {
        BoardMove::MovePiece(m) => match m.piece_type_spec() {
            PieceType::Rook => if file_of(m.from_spec().idx()) == 7 {
                CastlingRights::KingSide
            } else if file_of(m.from_spec().idx()) == 0 {
                CastlingRights::QueenSide
            } else {
                CastlingRights::Neither
            },
            PieceType::King => CastlingRights::BothSides,
            _ => CastlingRights::Neither,
        },
        _ => CastlingRights::BothSides,
    };
    CastlingRights::from_sides(
        own.kingside_spec() && !lost.kingside_spec(),
        own.queenside_spec() && !lost.queenside_spec(),
    )
}

/// The castling rights of the other side after a move of `side`: a move onto the corner of its
/// h-file (a-file) takes its king (queen) side.
pub open spec fn opp_rights_after(side: Color, opp: CastlingRights, mv: BoardMove) -> CastlingRights {
    let o = side.opposite_spec();
    let lost = match mv {
        BoardMove::MovePiece(m) => if m.to_spec().idx() == home(o, 7) {
            CastlingRights::KingSide
        } else if m.to_spec().idx() == home(o, 0) {
            CastlingRights::QueenSide
        } else {
            CastlingRights::Neither
        },
        _ => CastlingRights::Neither,
    };
    CastlingRights::from_sides(
        opp.kingside_spec() && !lost.kingside_spec(),
        opp.queenside_spec() && !lost.queenside_spec(),
    )
}

/// The en-passant square after a move: the square a pawn passed over in a double step.
pub open spec fn ep_after(mv: BoardMove) -> Option<Square> {
    match mv {
        BoardMove::MovePiece(m) => if m.piece_type_spec() == PieceType::Pawn && iabs(
            rank_of(m.to_spec().idx()) - rank_of(m.from_spec().idx()),
        ) == 2 {
            Some(
                Square::from_idx(
                    ((rank_of(m.from_spec().idx()) + rank_of(m.to_spec().idx())) / 2) * 8
                        + file_of(m.to_spec().idx()),
                ),
            )
        } else {
            None
        },
        _ => None,
    }
}

/// The count of moves since the last capture or pawn move, after a move.
pub open spec fn halfmoves_after(p: Place, side: Color, n: int, mv: BoardMove) -> int {
    match mv {
        BoardMove::MovePiece(m) => if m.piece_type_spec() == PieceType::Pawn || holds_color(
            p,
            m.to_spec().idx(),
            side.opposite_spec(),
        ) {
            0
        } else {
            n + 1
        },
        _ => n + 1,
    }
}

/// The move number after a move: it grows when black has moved.
pub open spec fn fullmoves_after(side: Color, n: int) -> int {
    if side == Color::Black {
        n + 1
    } else {
        n
    }
}

} // verus!
