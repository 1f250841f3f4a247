//! Moves on a placement: which moves the rules allow, and the placement they lead to.
use crate::bits::bit;
use crate::board_moves::{BoardMove, PieceMove};
use crate::castling::CastlingRights;
use crate::colors::Color;
use crate::coordinates::{rank_of, Square};
use crate::geometry::{
    coords, is_diagonal_line, is_king_step, is_knight_step, is_path_clear, is_pawn_capture,
    is_square, is_straight_line, pawn_dir,
};
use crate::pieces::{Piece, PieceType};
use crate::placement::PieceMasks;
use crate::rules::{
    attacked, attacker, back_rank, ep_capture_move, ep_capture_possible, ep_victim, home,
    in_check, kingside_castle_ok, legal_board_move, legal_piece_move, occupied,
    place_after_castle, place_after_piece_move, promotion_ok, promotion_rank, pseudo_target,
    queenside_castle_ok, sole_king_at, place_after_move, holds_color, Place,
};
use vstd::prelude::*;

verus! {

broadcast use crate::bits::group_bit_lemmas, PieceMove::lemma_with_parts;

/// Whether an opposing pawn can be taken en passant by moving to `d`.
pub fn ep_capture_possible_exec(m: &PieceMasks, side: Color, ep: Option<Square>, d: usize) -> (r: bool)
    requires
        m.wf(),
        d < 64,
    ensures
        r == ep_capture_possible(m.placement(), side, ep, d as int),
{
    match ep {
        Some(e) => {
            if e.to_index() != d {
                return false;
            }
            let victim: i64 = match side {
                Color::White => d as i64 - 8,
                Color::Black => d as i64 + 8,
            };
            if victim < 0 || victim >= 64 {
                return false;
            }
            m.piece_on(victim as usize) == Some(Piece(PieceType::Pawn, side.opposite()))
        },
        None => false,
    }
}

/// Whether the piece of kind `pt` and color `side` on `s` may move to `d` (own king aside).
pub fn is_pseudo_target(
    m: &PieceMasks,
    side: Color,
    ep: Option<Square>,
    pt: PieceType,
    s: usize,
    d: usize,
) -> (r: bool)
    requires
        m.wf(),
        s < 64,
        d < 64,
    ensures
        r == pseudo_target(m.placement(), side, ep, pt, s as int, d as int),
{
    let ghost p = m.placement();
    if m.piece_on(s) != Some(Piece(pt, side)) {
        return false;
    }
    let target = m.piece_on(d);
    match target {
        Some(pc) => {
            if pc.1 == side || pc.0 == PieceType::King {
                return false;
            }
        },
        None => {},
    }
    proof {
        assert forall|x: int| #[trigger] bit(m.combined.0, x) == occupied(p, x) by {}
    }
    match pt {
        PieceType::Pawn => {
            let w = side == Color::White;
            let (rs, fs) = coords(s);
            let (rd, fd) = coords(d);
            let dir: i32 = if w {
                1
            } else {
                -1
            };
            let start: i32 = if w {
                1
            } else {
                6
            };
            let single = fd == fs && rd - rs == dir && target.is_none();
            let double = if fd == fs && rd - rs == 2 * dir && rs == start && target.is_none() {
                let mid = (s as i64 + 8 * (dir as i64)) as usize;
                m.piece_on(mid).is_none()
            } else {
                false
            };
            let capture = is_pawn_capture(w, s, d) && (target.is_some() || ep_capture_possible_exec(m, side, ep, d));
            single || double || capture
        },
        PieceType::Knight => is_knight_step(s, d),
        PieceType::King => is_king_step(s, d),
        PieceType::Bishop => is_diagonal_line(s, d) && is_path_clear(s, d, m.combined.0),
        PieceType::Rook => is_straight_line(s, d) && is_path_clear(s, d, m.combined.0),
        PieceType::Queen => (is_diagonal_line(s, d) || is_straight_line(s, d)) && is_path_clear(s, d, m.combined.0),
    }
}

/// Whether the king of color `c` stands on an attacked square.
pub fn in_check_exec(m: &PieceMasks, c: Color) -> (r: bool)
    requires
        m.wf(),
    ensures
        r == in_check(m.placement(), c),
{
    let ghost p = m.placement();
    let opp = c.opposite();
    let mut k: usize = 0;
    while k < 64
        invariant
            k <= 64,
            m.wf(),
            p == m.placement(),
            opp == c.opposite_spec(),
            forall|j: int| 0 <= j < k ==> !(#[trigger] p(j) == Some(Piece(PieceType::King, c)) && attacked(p, j, opp)),
        decreases 64 - k,
    {
        if m.piece_on(k) == Some(Piece(PieceType::King, c)) {
            let a = m.attackers(k, opp);
            proof {
                crate::bits::lemma_zero_iff_no_bits(a);
                if a != 0 {
                    let x = choose|x: int| 0 <= x < 64 && #[trigger] bit(a, x);
                    assert(attacker(p, x, k as int, opp));
                }
                if attacked(p, k as int, opp) {
                    let x = choose|x: int| #[trigger] attacker(p, x, k as int, opp);
                    assert(bit(a, x));
                }
            }
            if a != 0 {
                assert(is_square(k as int) && p(k as int) == Some(Piece(PieceType::King, c)) && attacked(p, k as int, opp));
                return true;
            }
        }
        k = k + 1;
    }
    false
}

/// Whether the promotion part of a move follows the rules.
pub fn promotion_ok_exec(side: Color, pt: PieceType, d: usize, promo: Option<PieceType>) -> (r: bool)
    requires
        d < 64,
    ensures
        r == promotion_ok(side, pt, d as int, promo),
{
    let last: usize = match side {
        Color::White => 7,
        Color::Black => 0,
    };
    if pt == PieceType::Pawn && d / 8 == last {
        match promo {
            Some(q) => q == PieceType::Knight || q == PieceType::Bishop || q == PieceType::Rook || q
                == PieceType::Queen,
            None => false,
        }
    } else {
        promo.is_none()
    }
}

/// The placement after the piece of kind `pt` on `s` moves to `d`.
pub fn after_piece_move(
    m: &PieceMasks,
    side: Color,
    ep: Option<Square>,
    pt: PieceType,
    s: usize,
    d: usize,
    promo: Option<PieceType>,
) -> (r: PieceMasks)
    requires
        m.wf(),
        s < 64,
        d < 64,
        s != d,
    ensures
        r.wf(),
        r.placement() == place_after_piece_move(m.placement(), side, ep, pt, s as int, d as int, promo),
{
    let ghost p = m.placement();
    let ep_cap = pt == PieceType::Pawn && s % 8 != d % 8 && ep_capture_possible_exec(m, side, ep, d);
    let mut r = *m;
    r.clear(s);
    let placed = match promo {
        Some(q) => q,
        None => pt,
    };
    r.put(d, Piece(placed, side));
    if ep_cap {
        let victim = match side {
            Color::White => d - 8,
            Color::Black => d + 8,
        };
        r.clear(victim);
    }
    proof {
        assert(ep_cap == ep_capture_move(p, side, ep, pt, s as int, d as int));
        assert(r.placement() =~= place_after_piece_move(p, side, ep, pt, s as int, d as int, promo));
    }
    r
}

/// Whether the rules allow the piece of kind `pt` on `s` to move to `d`, promoting as `promo`.
pub fn is_legal_piece_move_exec(
    m: &PieceMasks,
    side: Color,
    ep: Option<Square>,
    pt: PieceType,
    s: usize,
    d: usize,
    promo: Option<PieceType>,
) -> (r: bool)
    requires
        m.wf(),
        s < 64,
        d < 64,
    ensures
        r == crate::rules::legal_piece_move(m.placement(), side, ep, pt, s as int, d as int, promo),
{
    if !is_pseudo_target(m, side, ep, pt, s, d) {
        return false;
    }
    if !promotion_ok_exec(side, pt, d, promo) {
        return false;
    }
    let after = after_piece_move(m, side, ep, pt, s, d, promo);
    !in_check_exec(&after, side)
}

/// Whether the square `t` is attacked by a piece of color `by`.
pub fn is_attacked_exec(m: &PieceMasks, t: usize, by: Color) -> (r: bool)
    requires
        m.wf(),
        t < 64,
    ensures
        r == attacked(m.placement(), t as int, by),
{
    let a = m.attackers(t, by);
    proof {
        let p = m.placement();
        crate::bits::lemma_zero_iff_no_bits(a);
        if a != 0 {
            let x = choose|x: int| 0 <= x < 64 && #[trigger] bit(a, x);
            assert(attacker(p, x, t as int, by));
        }
        if attacked(p, t as int, by) {
            let x = choose|x: int| #[trigger] attacker(p, x, t as int, by);
            assert(bit(a, x));
        }
    }
    a != 0
}

/// Whether castling on the king side (`kingside`) or on the queen side is allowed.
pub fn castle_ok_exec(m: &PieceMasks, side: Color, rights: CastlingRights, no_checks: bool, kingside: bool) -> (r: bool)
    requires
        m.wf(),
    ensures
        kingside ==> r == kingside_castle_ok(m.placement(), side, rights, no_checks),
        !kingside ==> r == queenside_castle_ok(m.placement(), side, rights, no_checks),
{
    let ghost p = m.placement();
    let base: usize = match side {
        Color::White => 0,
        Color::Black => 56,
    };
    assert(base == back_rank(side) * 8);
    let opp = side.opposite();
    if !no_checks {
        return false;
    }
    if m.piece_on(base + 4) != Some(Piece(PieceType::King, side)) {
        return false;
    }
    if kingside {
        if !rights.has_kingside() {
            return false;
        }
        if m.piece_on(base + 7) != Some(Piece(PieceType::Rook, side)) {
            return false;
        }
        if m.piece_on(base + 5).is_some() || m.piece_on(base + 6).is_some() {
            return false;
        }
        !is_attacked_exec(m, base + 5, opp) && !is_attacked_exec(m, base + 6, opp)
    } else {
        if !rights.has_queenside() {
            return false;
        }
        if m.piece_on(base).is_some() && m.piece_on(base) == Some(Piece(PieceType::Rook, side)) {
        } else {
            return false;
        }
        if m.piece_on(base + 3).is_some() || m.piece_on(base + 2).is_some() || m.piece_on(base + 1).is_some() {
            return false;
        }
        !is_attacked_exec(m, base + 3, opp) && !is_attacked_exec(m, base + 2, opp)
    }
}

/// The placement after castling on the king side (`kingside`) or on the queen side.
pub fn after_castle(m: &PieceMasks, side: Color, kingside: bool) -> (r: PieceMasks)
    requires
        m.wf(),
    ensures
        r.wf(),
        kingside ==> r.placement() == place_after_castle(m.placement(), side, 6, 7, 5),
        !kingside ==> r.placement() == place_after_castle(m.placement(), side, 2, 0, 3),
{
    let base: usize = match side {
        Color::White => 0,
        Color::Black => 56,
    };
    assert(base == back_rank(side) * 8);
    let mut r = *m;
    let (king_to, rook_from, rook_to) = if kingside {
        (6, 7, 5)
    } else {
        (2, 0, 3)
    };
    r.clear(base + 4);
    r.clear(base + rook_from);
    r.put(base + king_to, Piece(PieceType::King, side));
    r.put(base + rook_to, Piece(PieceType::Rook, side));
    proof {
        if kingside {
            assert(r.placement() =~= place_after_castle(m.placement(), side, 6, 7, 5));
        } else {
            assert(r.placement() =~= place_after_castle(m.placement(), side, 2, 0, 3));
        }
    }
    r
}

/// Whether some promotion choice makes the move of the piece on `s` to `d` legal.
pub fn legal_from_to(m: &PieceMasks, side: Color, ep: Option<Square>, pt: PieceType, s: usize, d: usize) -> (r: bool)
    requires
        m.wf(),
        s < 64,
        d < 64,
    ensures
        r == exists|q: Option<PieceType>| #[trigger] legal_piece_move(m.placement(), side, ep, pt, s as int, d as int, q),
{
    let ghost p = m.placement();
    let r = is_legal_piece_move_exec(m, side, ep, pt, s, d, None)
        || is_legal_piece_move_exec(m, side, ep, pt, s, d, Some(PieceType::Knight))
        || is_legal_piece_move_exec(m, side, ep, pt, s, d, Some(PieceType::Bishop))
        || is_legal_piece_move_exec(m, side, ep, pt, s, d, Some(PieceType::Rook))
        || is_legal_piece_move_exec(m, side, ep, pt, s, d, Some(PieceType::Queen));
    proof {
        if exists|q: Option<PieceType>| #[trigger] legal_piece_move(p, side, ep, pt, s as int, d as int, q) {
            let q = choose|q: Option<PieceType>| #[trigger] legal_piece_move(p, side, ep, pt, s as int, d as int, q);
            assert(promotion_ok(side, pt, d as int, q));
        }
        if r {
            if legal_piece_move(p, side, ep, pt, s as int, d as int, None) {
            } else if legal_piece_move(p, side, ep, pt, s as int, d as int, Some(PieceType::Knight)) {
            } else if legal_piece_move(p, side, ep, pt, s as int, d as int, Some(PieceType::Bishop)) {
            } else if legal_piece_move(p, side, ep, pt, s as int, d as int, Some(PieceType::Rook)) {
            } else {
                assert(legal_piece_move(p, side, ep, pt, s as int, d as int, Some(PieceType::Queen)));
            }
        }
    }
    r
}

/// Whether castling on the king side (`kingside`) or queen side is allowed and leaves the king
/// out of check.
pub fn castle_legal_exec(m: &PieceMasks, side: Color, ep: Option<Square>, rights: CastlingRights, kingside: bool) -> (r: bool)
    requires
        m.wf(),
    ensures
        kingside ==> r == legal_board_move(m.placement(), side, ep, rights, BoardMove::CastleKingSide),
        !kingside ==> r == legal_board_move(m.placement(), side, ep, rights, BoardMove::CastleQueenSide),
{
    let no_checks = !in_check_exec(m, side);
    if !castle_ok_exec(m, side, rights, no_checks, kingside) {
        return false;
    }
    let after = after_castle(m, side, kingside);
    !in_check_exec(&after, side)
}

/// Whether the side `side` has a move that the rules allow.
pub fn exists_legal_move(m: &PieceMasks, side: Color, ep: Option<Square>, rights: CastlingRights) -> (r: bool)
    requires
        m.wf(),
    ensures
        r == exists|mv: BoardMove| #[trigger] legal_board_move(m.placement(), side, ep, rights, mv),
{
    let ghost p = m.placement();
    let mut s: usize = 0;
    while s < 64
        invariant
            s <= 64,
            m.wf(),
            p == m.placement(),
            forall|pt: PieceType, a: int, d: int, q: Option<PieceType>|
                0 <= a < s ==> !#[trigger] legal_piece_move(p, side, ep, pt, a, d, q),
        decreases 64 - s,
    {
        match m.piece_on(s) {
            Some(pc) => {
                if pc.1 == side {
                    let mut d: usize = 0;
                    while d < 64
                        invariant
                            d <= 64,
                            s < 64,
                            m.wf(),
                            p == m.placement(),
                            p(s as int) == Some(pc),
                            forall|pt: PieceType, a: int, d2: int, q: Option<PieceType>|
                                0 <= a < s ==> !#[trigger] legal_piece_move(p, side, ep, pt, a, d2, q),
                            forall|pt: PieceType, d2: int, q: Option<PieceType>|
                                0 <= d2 < d ==> !#[trigger] legal_piece_move(p, side, ep, pt, s as int, d2, q),
                        decreases 64 - d,
                    {
                        if legal_from_to(m, side, ep, pc.0, s, d) {
                            proof {
                                let q = choose|q: Option<PieceType>| #[trigger] legal_piece_move(p, side, ep, pc.0, s as int, d as int, q);
                                let pm = PieceMove::with_parts(pc.0, Square::from_idx(s as int), Square::from_idx(d as int), q);
                                Square::lemma_from_idx(s as int);
                                Square::lemma_from_idx(d as int);
                                assert(legal_board_move(p, side, ep, rights, BoardMove::MovePiece(pm)));
                            }
                            return true;
                        }
                        proof {
                            assert forall|pt: PieceType, q: Option<PieceType>|
                                !#[trigger] legal_piece_move(p, side, ep, pt, s as int, d as int, q) by {
                                if legal_piece_move(p, side, ep, pt, s as int, d as int, q) {
                                    assert(pt == pc.0);
                                }
                            }
                        }
                        d = d + 1;
                    }
                }
            },
            None => {},
        }
        s = s + 1;
    }
    let k = castle_legal_exec(m, side, ep, rights, true);
    let q = castle_legal_exec(m, side, ep, rights, false);
    let r = k || q;
    proof {
        if k {
            assert(legal_board_move(p, side, ep, rights, BoardMove::CastleKingSide));
        }
        if q {
            assert(legal_board_move(p, side, ep, rights, BoardMove::CastleQueenSide));
        }
        if exists|mv: BoardMove| #[trigger] legal_board_move(p, side, ep, rights, mv) {
            let mv = choose|mv: BoardMove| #[trigger] legal_board_move(p, side, ep, rights, mv);
            match mv {
                BoardMove::MovePiece(pm) => {
                    Square::lemma_idx_range(pm.from_spec());
                    assert(!legal_piece_move(p, side, ep, pm.piece_type_spec(), pm.from_spec().idx(), pm.to_spec().idx(), pm.promotion_spec()));
                },
                _ => {},
            }
        }
    }
    r
}

/// The square of the only king of color `c`, if there is exactly one.
pub fn sole_king(m: &PieceMasks, c: Color) -> (r: Option<usize>)
    requires
        m.wf(),
    ensures
        r matches Some(k) ==> k < 64 && sole_king_at(m.placement(), c, k as int),
        r is None ==> !exists|k: int| #[trigger] sole_king_at(m.placement(), c, k),
{
    let ghost p = m.placement();
    let king = Piece(PieceType::King, c);
    let mut found: Option<usize> = None;
    let mut i: usize = 0;
    while i < 64
        invariant
            i <= 64,
            m.wf(),
            p == m.placement(),
            king == Piece(PieceType::King, c),
            found is None ==> forall|j: int| 0 <= j < i ==> #[trigger] p(j) != Some(king),
            found matches Some(k) ==> k < i && p(k as int) == Some(king) && forall|j: int|
                0 <= j < i && j != k ==> #[trigger] p(j) != Some(king),
        decreases 64 - i,
    {
        if m.piece_on(i) == Some(king) {
            match found {
                Some(k) => {
                    proof {
                        assert(p(i as int) == Some(king));
                        assert(p(k as int) == Some(king));
                        assert(k < i);
                        assert forall|x: int| !#[trigger] sole_king_at(p, c, x) by {
                            if sole_king_at(p, c, x) {
                                assert(is_square(k as int));
                                assert(is_square(i as int));
                                assert(king == Piece(PieceType::King, c));
                                assert(p(k as int) == Some(Piece(PieceType::King, c)) <==> k == x);
                                assert(p(i as int) == Some(Piece(PieceType::King, c)) <==> i == x);
                            }
                        }
                    }
                    return None;
                },
                None => {
                    found = Some(i);
                },
            }
        }
        i = i + 1;
    }
    proof {
        if found is None {
            assert forall|x: int| !#[trigger] sole_king_at(p, c, x) by {
                if sole_king_at(p, c, x) {
                    assert(p(x) == Some(king));
                }
            }
        }
    }
    found
}

/// Code of a promotion choice: 0 for none, otherwise the index of the kind.
pub open spec fn promo_code(q: Option<PieceType>) -> int {
    match q {
        None => 0,
        Some(t) => t.index_spec(),
    }
}

/// Ordering key of a move: for a piece move the kind of piece (pawns first, then knights,
/// bishops, rooks, queens and the king), then the source square, the destination and the
/// promotion (none, knight, bishop, rook, queen); the castlings come last, the king side first.
pub open spec fn move_key(mv: BoardMove) -> int {
    match mv {
        BoardMove::MovePiece(pm) => pm.piece_type_spec().index_spec() * 24576 + pm.from_spec().idx() * 384
            + pm.to_spec().idx() * 6 + promo_code(pm.promotion_spec()),
        BoardMove::CastleKingSide => 6int * 24576,
        BoardMove::CastleQueenSide => 6int * 24576 + 1,
    }
}

/// The moves come in increasing order of their keys.
pub open spec fn in_key_order(ms: Seq<BoardMove>) -> bool {
    forall|i: int, j: int| 0 <= i < j < ms.len() ==> move_key(#[trigger] ms[i]) < move_key(#[trigger] ms[j])
}

/// `ms` holds, once each, exactly the legal piece moves whose key is below `bound`.
pub open spec fn listed_below(
    ms: Seq<BoardMove>,
    p: Place,
    side: Color,
    ep: Option<Square>,
    rights: CastlingRights,
    bound: int,
) -> bool {
    &&& ms.no_duplicates()
    &&& in_key_order(ms)
    &&& forall|i: int|
        0 <= i < ms.len() ==> (#[trigger] ms[i]) is MovePiece && legal_board_move(p, side, ep, rights, ms[i])
            && move_key(ms[i]) < bound
    &&& forall|mv: BoardMove|
        mv is MovePiece && #[trigger] legal_board_move(p, side, ep, rights, mv) && move_key(mv) < bound
            ==> ms.contains(mv)
}

/// Two piece moves that promote only as the rules allow and have the same key are the same.
proof fn lemma_key_names_move(a: PieceMove, b: PieceMove, side: Color)
    requires
        promotion_ok(side, a.piece_type_spec(), a.to_spec().idx(), a.promotion_spec()),
        b.promotion_spec() != Some(PieceType::Pawn),
        b.promotion_spec() != Some(PieceType::King),
        move_key(BoardMove::MovePiece(a)) == move_key(BoardMove::MovePiece(b)),
    ensures
        a == b,
{
    Square::lemma_idx_range(a.from_spec());
    Square::lemma_idx_range(a.to_spec());
    Square::lemma_idx_range(b.from_spec());
    Square::lemma_idx_range(b.to_spec());
    PieceType::lemma_index(a.piece_type_spec());
    PieceType::lemma_index(b.piece_type_spec());
    let ca = promo_code(a.promotion_spec());
    let cb = promo_code(b.promotion_spec());
    assert(0 <= ca < 5);
    assert(0 <= cb < 5);
    assert(a.piece_type_spec().index_spec() == b.piece_type_spec().index_spec());
    assert(a.from_spec().idx() == b.from_spec().idx());
    assert(a.to_spec().idx() == b.to_spec().idx());
    assert(ca == cb);
    assert(a.promotion_spec() == b.promotion_spec()) by {
        if let Some(x) = a.promotion_spec() {
            PieceType::lemma_index(x);
        }
        if let Some(y) = b.promotion_spec() {
            PieceType::lemma_index(y);
        }
    }
    assert(a.piece_type_spec() == b.piece_type_spec());
    Square::lemma_from_idx(a.from_spec().idx());
    PieceMove::lemma_ext(a, b);
}

/// Appends the move of the piece on `s` to `d` promoting as `q` if it is legal.
fn push_if_legal(
    moves: &mut Vec<BoardMove>,
    m: &PieceMasks,
    side: Color,
    ep: Option<Square>,
    rights: CastlingRights,
    pt: PieceType,
    s: usize,
    d: usize,
    q: Option<PieceType>,
)
    requires
        m.wf(),
        s < 64,
        d < 64,
        q != Some(PieceType::Pawn),
        q != Some(PieceType::King),
        m.placement()(s as int) == Some(Piece(pt, side)),
        listed_below(old(moves)@, m.placement(), side, ep, rights, pt.index_spec() * 24576 + s * 384 + d * 6 + promo_code(q)),
    ensures
        listed_below(final(moves)@, m.placement(), side, ep, rights, pt.index_spec() * 24576 + s * 384 + d * 6 + promo_code(q) + 1),
{
    let ghost p = m.placement();
    let ghost bound = pt.index_spec() * 24576 + s * 384 + d * 6 + promo_code(q);
    let ghost old_moves = moves@;
    let from = Square::from_u8(s as u8);
    let to = Square::from_u8(d as u8);
    let ghost cand = PieceMove::with_parts(pt, from, to, q);
    proof {
        assert forall|mv: BoardMove|
            mv is MovePiece && #[trigger] legal_board_move(p, side, ep, rights, mv) && move_key(mv) == bound
            implies mv == BoardMove::MovePiece(cand) by {
            lemma_key_names_move(mv->MovePiece_0, cand, side);
        }
    }
    if is_legal_piece_move_exec(m, side, ep, pt, s, d, q) {
        match PieceMove::new(pt, from, to, q) {
            Ok(pm) => {
                proof {
                    PieceMove::lemma_ext(pm, cand);
                    assert(legal_board_move(p, side, ep, rights, BoardMove::MovePiece(pm)));
                    assert(!old_moves.contains(BoardMove::MovePiece(pm)));
                }
                moves.push(BoardMove::MovePiece(pm));
                proof {
                    assert forall|i: int| 0 <= i < moves@.len() implies (#[trigger] moves@[i]) is MovePiece
                        && legal_board_move(p, side, ep, rights, moves@[i]) && move_key(moves@[i]) < bound + 1 by {
                        if i < old_moves.len() {
                            assert(moves@[i] == old_moves[i]);
                        }
                    }
                    assert(move_key(BoardMove::MovePiece(pm)) == bound);
                    assert forall|i: int, j: int| 0 <= i < j < moves@.len() implies move_key(#[trigger] moves@[i]) < move_key(#[trigger] moves@[j]) by {
                        assert(moves@[i] == old_moves[i]);
                        if j < old_moves.len() {
                            assert(moves@[j] == old_moves[j]);
                        }
                    }
                    assert forall|mv: BoardMove|
                        mv is MovePiece && #[trigger] legal_board_move(p, side, ep, rights, mv) && move_key(mv) < bound + 1
                        implies moves@.contains(mv) by {
                        if move_key(mv) < bound {
                            let j = choose|j: int| 0 <= j < old_moves.len() && old_moves[j] == mv;
                            assert(moves@[j] == mv);
                        } else {
                            assert(moves@[old_moves.len() as int] == mv);
                        }
                    }
                }
            },
            Err(_) => {},
        }
    }
}

/// Appends the legal moves of the piece of kind `kind` on `s` to `d`, in the order of their
/// keys (promotions are tried only for a pawn reaching the last rank).
#[verifier::rlimit(30)]
fn push_moves_to(
    moves: &mut Vec<BoardMove>,
    m: &PieceMasks,
    side: Color,
    ep: Option<Square>,
    rights: CastlingRights,
    kind: PieceType,
    s: usize,
    d: usize,
)
    requires
        m.wf(),
        s < 64,
        d < 64,
        m.placement()(s as int) == Some(Piece(kind, side)),
        listed_below(old(moves)@, m.placement(), side, ep, rights, kind.index_spec() * 24576 + s * 384 + d * 6),
    ensures
        listed_below(final(moves)@, m.placement(), side, ep, rights, kind.index_spec() * 24576 + s * 384 + (d + 1) * 6),
{
    let ghost p = m.placement();
    let ghost t = kind.index_spec();
    push_if_legal(moves, m, side, ep, rights, kind, s, d, None);
    // only a pawn reaching the last rank promotes
    let promoting = kind == PieceType::Pawn && match side {
        Color::White => d >= 56,
        Color::Black => d < 8,
    };
    if promoting {
        push_if_legal(moves, m, side, ep, rights, kind, s, d, Some(PieceType::Knight));
        push_if_legal(moves, m, side, ep, rights, kind, s, d, Some(PieceType::Bishop));
        push_if_legal(moves, m, side, ep, rights, kind, s, d, Some(PieceType::Rook));
        push_if_legal(moves, m, side, ep, rights, kind, s, d, Some(PieceType::Queen));
    }
    proof {
        assert(promoting == (kind == PieceType::Pawn && rank_of(d as int) == promotion_rank(side)));
        assert forall|mv: BoardMove|
            mv is MovePiece && #[trigger] legal_board_move(p, side, ep, rights, mv) && move_key(mv) < t * 24576 + s * 384 + (d + 1) * 6
            implies moves@.contains(mv) by {
            let pm = mv->MovePiece_0;
            Square::lemma_idx_range(pm.from_spec());
            Square::lemma_idx_range(pm.to_spec());
            PieceType::lemma_index(pm.piece_type_spec());
            PieceType::lemma_index(kind);
            assert(promotion_ok(side, pm.piece_type_spec(), pm.to_spec().idx(), pm.promotion_spec()));
            assert(promo_code(pm.promotion_spec()) < 5);
            if move_key(mv) >= t * 24576 + s * 384 + d * 6 + 1 {
                assert(pm.piece_type_spec().index_spec() == t);
                assert(pm.from_spec().idx() == s);
                assert(pm.to_spec().idx() == d);
                assert(pm.promotion_spec() is Some);
                assert(pm.piece_type_spec() == kind);
            }
        }
    }
}

/// All the moves that the rules allow, once each, in the order of `move_key`.
#[verifier::rlimit(50)]
#[verifier::spinoff_prover]
pub fn legal_moves_list(m: &PieceMasks, side: Color, ep: Option<Square>, rights: CastlingRights) -> (r: Vec<BoardMove>)
    requires
        m.wf(),
    ensures
        r@.no_duplicates(),
        in_key_order(r@),
        forall|mv: BoardMove| r@.contains(mv) <==> #[trigger] legal_board_move(m.placement(), side, ep, rights, mv),
{
    let ghost p = m.placement();
    let mut moves: Vec<BoardMove> = Vec::new();
    let mut t: usize = 0;
    while t < 6
        invariant
            t <= 6,
            m.wf(),
            p == m.placement(),
            listed_below(moves@, p, side, ep, rights, t * 24576),
        decreases 6 - t,
    {
        let kind = match t {
            0 => PieceType::Pawn,
            1 => PieceType::Knight,
            2 => PieceType::Bishop,
            3 => PieceType::Rook,
            4 => PieceType::Queen,
            _ => PieceType::King,
        };
        assert(kind.index_spec() == t);
        let mut s: usize = 0;
        while s < 64
            invariant
                s <= 64,
                t < 6,
                kind.index_spec() == t,
                m.wf(),
                p == m.placement(),
                listed_below(moves@, p, side, ep, rights, t * 24576 + s * 384),
            decreases 64 - s,
        {
            let own = match m.piece_on(s) {
                Some(pc) => pc.1 == side && pc.0 == kind,
                None => false,
            };
            if own {
                let mut d: usize = 0;
                while d < 64
                    invariant
                        d <= 64,
                        s < 64,
                        t < 6,
                        kind.index_spec() == t,
                        m.wf(),
                        p == m.placement(),
                        p(s as int) == Some(Piece(kind, side)),
                        listed_below(moves@, p, side, ep, rights, t * 24576 + s * 384 + d * 6),
                    decreases 64 - d,
                {
                    push_moves_to(&mut moves, m, side, ep, rights, kind, s, d);
                    d = d + 1;
                }
            } else {
                proof {
                    assert forall|mv: BoardMove|
                        mv is MovePiece && #[trigger] legal_board_move(p, side, ep, rights, mv) && move_key(mv) < t * 24576 + (s + 1) * 384
                        implies moves@.contains(mv) by {
                        let pm = mv->MovePiece_0;
                        Square::lemma_idx_range(pm.from_spec());
                        Square::lemma_idx_range(pm.to_spec());
                        assert(promotion_ok(side, pm.piece_type_spec(), pm.to_spec().idx(), pm.promotion_spec()));
                        assert(0 <= promo_code(pm.promotion_spec()) < 6);
                        assert(pseudo_target(p, side, ep, pm.piece_type_spec(), pm.from_spec().idx(), pm.to_spec().idx()));
                        if pm.piece_type_spec().index_spec() == t && pm.from_spec().idx() == s {
                            assert(pm.piece_type_spec() == kind);
                        }
                    }
                }
            }
            s = s + 1;
        }
        t = t + 1;
    }
    let ghost pieces = moves@;
    if castle_legal_exec(m, side, ep, rights, true) {
        moves.push(BoardMove::CastleKingSide);
    }
    let ghost with_k = moves@;
    if castle_legal_exec(m, side, ep, rights, false) {
        moves.push(BoardMove::CastleQueenSide);
    }
    proof {
        assert forall|mv: BoardMove| moves@.contains(mv) <==> #[trigger] legal_board_move(p, side, ep, rights, mv) by {
            if moves@.contains(mv) {
                let j = choose|j: int| 0 <= j < moves@.len() && moves@[j] == mv;
                if j < pieces.len() {
                    assert(pieces[j] == mv);
                }
            }
            if legal_board_move(p, side, ep, rights, mv) {
                match mv {
                    BoardMove::MovePiece(pm) => {
                        Square::lemma_idx_range(pm.from_spec());
                        Square::lemma_idx_range(pm.to_spec());
                        assert(promotion_ok(side, pm.piece_type_spec(), pm.to_spec().idx(), pm.promotion_spec()));
                        assert(pieces.contains(mv));
                        let j = choose|j: int| 0 <= j < pieces.len() && pieces[j] == mv;
                        assert(moves@[j] == mv);
                    },
                    BoardMove::CastleKingSide => {
                        assert(with_k[pieces.len() as int] == mv);
                        assert(moves@[pieces.len() as int] == mv);
                    },
                    BoardMove::CastleQueenSide => {
                        assert(moves@[moves@.len() - 1] == mv);
                    },
                }
            }
        }
        assert(!pieces.contains(BoardMove::CastleKingSide));
        assert(!pieces.contains(BoardMove::CastleQueenSide));
        assert(!with_k.contains(BoardMove::CastleQueenSide));
        assert forall|i: int, j: int| 0 <= i < j < moves@.len() implies move_key(#[trigger] moves@[i]) < move_key(#[trigger] moves@[j]) by {
            if j < pieces.len() {
                assert(moves@[i] == pieces[i]);
                assert(moves@[j] == pieces[j]);
            } else if i < pieces.len() {
                assert(moves@[i] == pieces[i]);
                assert(move_key(pieces[i]) < 6 * 24576);
            } else {
                assert(j == pieces.len() + 1);
                assert(moves@[i] == BoardMove::CastleKingSide);
                assert(moves@[j] == BoardMove::CastleQueenSide);
            }
        }
    }
    moves
}

/// A legal move leaves exactly one king of each color on the board.
pub proof fn lemma_kings_after_move(
    p: Place,
    side: Color,
    ep: Option<Square>,
    rights: CastlingRights,
    mv: BoardMove,
    c: Color,
    k: int,
)
    requires
        legal_board_move(p, side, ep, rights, mv),
        sole_king_at(p, c, k),
    ensures
        exists|k2: int| #[trigger] sole_king_at(place_after_move(p, side, ep, mv), c, k2),
{
    let q = place_after_move(p, side, ep, mv);
    let king = Piece(PieceType::King, c);
    match mv {
        BoardMove::MovePiece(pm) => {
            let pt = pm.piece_type_spec();
            let s = pm.from_spec().idx();
            let d = pm.to_spec().idx();
            let promo = pm.promotion_spec();
            assert(pseudo_target(p, side, ep, pt, s, d));
            assert(promotion_ok(side, pt, d, promo));
            assert(p(s) == Some(Piece(pt, side)));
            assert(!holds_color(p, d, side));
            let ep_cap = ep_capture_move(p, side, ep, pt, s, d);
            if ep_cap {
                assert(p(ep_victim(side, d)) == Some(Piece(PieceType::Pawn, side.opposite_spec())));
            }
            assert(p(k) == Some(king));
            if c == side && pt == PieceType::King {
                assert(k == s);
                assert forall|i: int| is_square(i) implies (#[trigger] q(i) == Some(king) <==> i == d) by {
                    if i != d && i != s && !(ep_cap && i == ep_victim(side, d)) {
                        assert(q(i) == p(i));
                    }
                }
                assert(sole_king_at(q, c, d));
            } else {
                assert(k != s);
                assert(k != d);
                assert(q(d) != Some(king));
                if ep_cap {
                    assert(k != ep_victim(side, d));
                }
                assert(q(k) == p(k));
                assert forall|i: int| is_square(i) implies (#[trigger] q(i) == Some(king) <==> i == k) by {
                    if i != d && i != s && !(ep_cap && i == ep_victim(side, d)) {
                        assert(q(i) == p(i));
                    }
                }
                assert(sole_king_at(q, c, k));
            }
        },
        BoardMove::CastleKingSide => {
            lemma_kings_after_castle(p, side, rights, 6, 7, 5, c, k);
        },
        BoardMove::CastleQueenSide => {
            lemma_kings_after_castle(p, side, rights, 2, 0, 3, c, k);
        },
    }
}

proof fn lemma_kings_after_castle(
    p: Place,
    side: Color,
    rights: CastlingRights,
    king_to: int,
    rook_from: int,
    rook_to: int,
    c: Color,
    k: int,
)
    requires
        sole_king_at(p, c, k),
        p(home(side, 4)) == Some(Piece(PieceType::King, side)),
        p(home(side, rook_from)) == Some(Piece(PieceType::Rook, side)),
        !occupied(p, home(side, king_to)),
        !occupied(p, home(side, rook_to)),
        0 <= king_to < 8,
        0 <= rook_from < 8,
        0 <= rook_to < 8,
        king_to != rook_to,
    ensures
        exists|k2: int| #[trigger] sole_king_at(place_after_castle(p, side, king_to, rook_from, rook_to), c, k2),
{
    let q = place_after_castle(p, side, king_to, rook_from, rook_to);
    let king = Piece(PieceType::King, c);
    assert(is_square(home(side, 4)));
    assert(p(k) == Some(king));
    if c == side {
        assert(k == home(side, 4));
        let k2 = home(side, king_to);
        assert forall|i: int| is_square(i) implies (#[trigger] q(i) == Some(king) <==> i == k2) by {
            if i != home(side, king_to) && i != home(side, rook_to) && i != home(side, 4) && i != home(side, rook_from) {
                assert(q(i) == p(i));
            }
        }
        assert(sole_king_at(q, c, k2));
    } else {
        assert(k != home(side, 4));
        assert(k != home(side, rook_from));
        assert(k != home(side, king_to));
        assert(k != home(side, rook_to));
        assert forall|i: int| is_square(i) implies (#[trigger] q(i) == Some(king) <==> i == k) by {
            if i != home(side, king_to) && i != home(side, rook_to) && i != home(side, 4) && i != home(side, rook_from) {
                assert(q(i) == p(i));
            }
        }
        assert(sole_king_at(q, c, k));
    }
}

} // verus!
