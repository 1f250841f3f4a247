//! Short notation names a legal move uniquely: no two legal moves of a position share it, so a
//! move read from a game record in short notation is determined by the position.
use crate::board_files::File;
use crate::board_moves::{
    check_suffix, piece_prefix, promo_text, properties_of, san_piece_text, san_text, source_hint,
    BoardMove, DisplayAmbiguityType, MovePropertiesOnBoard, PieceMove,
};
use crate::board_ranks::Rank;
use crate::chess_boards::{count_on_file, count_reaching, reaches, ChessBoard};
use crate::coordinates::{file_of, rank_of, Square};
use crate::geometry::{fdiff, iabs, is_square, pawn_dir, rdiff};
use crate::pieces::{Piece, PieceType};
use crate::rules::{legal_board_move, legal_piece_move, pseudo_target, sole_king_at, Place};
use vstd::prelude::*;

verus! {

broadcast use PieceMove::lemma_with_parts;

/// Two joined texts with parts of equal lengths have equal parts.
proof fn lemma_concat_split(x: Seq<char>, y: Seq<char>, u: Seq<char>, v: Seq<char>)
    requires
        x + y == u + v,
        x.len() == u.len(),
    ensures
        x == u,
        y == v,
{
    assert(x =~= (x + y).subrange(0, x.len() as int));
    assert(u =~= (u + v).subrange(0, u.len() as int));
    assert(y =~= (x + y).subrange(x.len() as int, (x + y).len() as int));
    assert(v =~= (u + v).subrange(u.len() as int, (u + v).len() as int));
}

/// A check mark is nothing, "+" or "#".
proof fn lemma_suffix_shape(pr: MovePropertiesOnBoard)
    ensures
        check_suffix(pr).len() <= 1,
        check_suffix(pr).len() == 1 ==> (check_suffix(pr)[0] == '+' || check_suffix(pr)[0] == '#'),
{
}

/// Texts that end in neither "+" nor "#", each followed by a check mark, are equal only when
/// the texts are and the marks are.
proof fn lemma_strip_suffix(a: Seq<char>, b: Seq<char>, pa: MovePropertiesOnBoard, pb: MovePropertiesOnBoard)
    requires
        a + check_suffix(pa) == b + check_suffix(pb),
        a.len() > 0,
        b.len() > 0,
        a.last() != '+' && a.last() != '#',
        b.last() != '+' && b.last() != '#',
    ensures
        a == b,
{
    lemma_suffix_shape(pa);
    lemma_suffix_shape(pb);
    let sa = check_suffix(pa);
    let sb = check_suffix(pb);
    if sa.len() == sb.len() {
        lemma_concat_split(a, sa, b, sb);
    } else if sa.len() == 1 {
        assert((a + sa).last() == sa[0]);
        assert((b + sb).last() == b.last());
    } else {
        assert((b + sb).last() == sb[0]);
        assert((a + sa).last() == a.last());
    }
}

/// The text of a move before its check mark.
spec fn core_text(mv: BoardMove, pr: MovePropertiesOnBoard) -> Seq<char> {
    match mv {
        BoardMove::MovePiece(m) => san_piece_text(m, pr),
        BoardMove::CastleKingSide => seq!['O', '-', 'O'],
        BoardMove::CastleQueenSide => seq!['O', '-', 'O', '-', 'O'],
    }
}

/// Facts about the characters of file letters, rank digits and piece letters.
proof fn lemma_char_classes(sq: Square, pt: PieceType)
    ensures
        'a' <= sq.name_spec()[0] <= 'h',
        '1' <= sq.name_spec()[1] <= '8',
        'A' <= pt.letter_spec() <= 'Z',
        pt.letter_spec() != 'O',
        sq.name_spec().len() == 2,
{
    let f = File::from_idx(sq.file_idx());
    let k = Rank::from_idx(sq.rank_idx());
    match f {
        File::A => {},
        File::B => {},
        File::C => {},
        File::D => {},
        File::E => {},
        File::F => {},
        File::G => {},
        File::H => {},
    }
    match k {
        Rank::First => {},
        Rank::Second => {},
        Rank::Third => {},
        Rank::Fourth => {},
        Rank::Fifth => {},
        Rank::Sixth => {},
        Rank::Seventh => {},
        Rank::Eighth => {},
    }
    match pt {
        PieceType::Pawn => {},
        PieceType::Knight => {},
        PieceType::Bishop => {},
        PieceType::Rook => {},
        PieceType::Queen => {},
        PieceType::King => {},
    }
}

/// Piece letters name their kinds.
proof fn lemma_letter_injective(a: PieceType, b: PieceType)
    requires
        a.letter_spec() == b.letter_spec(),
    ensures
        a == b,
{
    match a {
        PieceType::Pawn => {},
        PieceType::Knight => {},
        PieceType::Bishop => {},
        PieceType::Rook => {},
        PieceType::Queen => {},
        PieceType::King => {},
    }
}

/// The file letter of a square's name names its file.
proof fn lemma_file_letter(a: Square, b: Square)
    requires
        a.name_spec()[0] == b.name_spec()[0],
    ensures
        file_of(a.idx()) == file_of(b.idx()),
{
    Square::lemma_idx_range(a);
    Square::lemma_idx_range(b);
    let fa = File::from_idx(a.file_idx());
    let fb = File::from_idx(b.file_idx());
    assert(fa == fb) by {
        match fa {
            File::A => {},
            File::B => {},
            File::C => {},
            File::D => {},
            File::E => {},
            File::F => {},
            File::G => {},
            File::H => {},
        }
    }
    File::lemma_from_idx(a.file_idx());
    File::lemma_from_idx(b.file_idx());
}

/// At least as many pieces reach `d` as the two given squares below `n` that do.
proof fn lemma_count_reaching_two(p: Place, pc: Piece, d: int, n: int, a: int, b: int)
    requires
        a != b,
        0 <= a,
        0 <= b,
        p(a) == Some(pc) && reaches(p, pc.0, a, d),
        p(b) == Some(pc) && reaches(p, pc.0, b, d),
    ensures
        count_reaching(p, pc, d, n) >= (if a < n { 1int } else { 0int }) + (if b < n { 1int } else { 0int }),
    decreases n,
{
    if n > 0 {
        lemma_count_reaching_two(p, pc, d, n - 1, a, b);
    }
}

/// At least as many pieces stand on file `f` as the two given squares below `n` on it.
proof fn lemma_count_on_file_two(p: Place, pc: Piece, f: int, n: int, a: int, b: int)
    requires
        a != b,
        0 <= a,
        0 <= b,
        p(a) == Some(pc) && file_of(a) == f,
        p(b) == Some(pc) && file_of(b) == f,
    ensures
        count_on_file(p, pc, f, n) >= (if a < n { 1int } else { 0int }) + (if b < n { 1int } else { 0int }),
    decreases n,
{
    if n > 0 {
        lemma_count_on_file_two(p, pc, f, n - 1, a, b);
    }
}

/// A legal piece move reaches its destination in the sense of `reaches` (for pieces other than
/// pawns and kings).
proof fn lemma_legal_reaches(p: Place, side: crate::colors::Color, ep: Option<Square>, m: PieceMove)
    requires
        legal_piece_move(p, side, ep, m.piece_type_spec(), m.from_spec().idx(), m.to_spec().idx(), m.promotion_spec()),
        m.piece_type_spec() != PieceType::Pawn,
        m.piece_type_spec() != PieceType::King,
    ensures
        reaches(p, m.piece_type_spec(), m.from_spec().idx(), m.to_spec().idx()),
{
}

/// Two legal moves of the same kind of piece to the same square with the same source hint
/// start from the same square.
proof fn lemma_same_source(board: ChessBoard, a: PieceMove, b: PieceMove)
    requires
        board.is_legal_spec(BoardMove::MovePiece(a)),
        board.is_legal_spec(BoardMove::MovePiece(b)),
        a.piece_type_spec() == b.piece_type_spec(),
        a.to_spec() == b.to_spec(),
        source_hint(a.from_spec(), properties_of(board, BoardMove::MovePiece(a)).ambiguity_type)
            == source_hint(b.from_spec(), properties_of(board, BoardMove::MovePiece(b)).ambiguity_type),
        exists|k: int| sole_king_at(board.place(), board.side(), k),
    ensures
        a.from_spec() == b.from_spec(),
{
    let p = board.place();
    let side = board.side();
    let pt = a.piece_type_spec();
    let sa = a.from_spec().idx();
    let sb = b.from_spec().idx();
    let d = a.to_spec().idx();
    let ta = properties_of(board, BoardMove::MovePiece(a)).ambiguity_type;
    let tb = properties_of(board, BoardMove::MovePiece(b)).ambiguity_type;
    let ha = source_hint(a.from_spec(), ta);
    let hb = source_hint(b.from_spec(), tb);
    Square::lemma_idx_range(a.from_spec());
    Square::lemma_idx_range(b.from_spec());
    Square::lemma_idx_range(a.to_spec());
    assert(pseudo_target(p, side, board.ep(), pt, sa, d));
    assert(pseudo_target(p, side, board.ep(), pt, sb, d));
    if sa != sb {
        let pc = Piece(pt, side);
        assert(p(sa) == Some(pc));
        assert(p(sb) == Some(pc));
        if pt == PieceType::King {
            let k = choose|k: int| sole_king_at(p, side, k);
            assert(p(sa) == Some(Piece(PieceType::King, side)));
            assert(sa == k);
            assert(sb == k);
        } else if pt == PieceType::Pawn {
            let w = side == crate::colors::Color::White;
            if file_of(sa) != file_of(d) && file_of(sb) != file_of(d) {
                assert(ta == DisplayAmbiguityType::ExtraFile);
                assert(tb == DisplayAmbiguityType::ExtraFile);
                assert(ha[0] == hb[0]);
                assert(ha[0] == a.from_spec().name_spec()[0]);
                lemma_file_letter(a.from_spec(), b.from_spec());
                assert(rank_of(sa) == rank_of(sb));
                assert(sa == rank_of(sa) * 8 + file_of(sa));
                assert(sb == rank_of(sb) * 8 + file_of(sb));
            } else if file_of(sa) == file_of(d) && file_of(sb) == file_of(d) {
                assert(sa == rank_of(sa) * 8 + file_of(sa));
                assert(sb == rank_of(sb) * 8 + file_of(sb));
                assert(d == rank_of(d) * 8 + file_of(d));
                if rdiff(sa, d) == pawn_dir(w) {
                    assert(rdiff(sb, d) == 2 * pawn_dir(w));
                    assert(sb + 8 * pawn_dir(w) == sa);
                } else {
                    assert(rdiff(sb, d) == pawn_dir(w));
                    assert(sa + 8 * pawn_dir(w) == sb);
                }
            } else {
                assert(ha.len() != hb.len());
            }
        } else {
            lemma_legal_reaches(p, side, board.ep(), a);
            lemma_legal_reaches(p, side, board.ep(), b);
            assert(ta == board.ambiguity_spec(a));
            assert(tb == board.ambiguity_spec(b));
            lemma_count_reaching_two(p, pc, d, 64, sa, sb);
            assert(count_reaching(p, pc, d, 64) > 1);
            if ta == DisplayAmbiguityType::ExtraSquare && tb == DisplayAmbiguityType::ExtraSquare {
                Square::lemma_name_injective(a.from_spec(), b.from_spec());
            } else if ta == DisplayAmbiguityType::ExtraFile && tb == DisplayAmbiguityType::ExtraFile {
                assert(ha[0] == hb[0]);
                assert(ha[0] == a.from_spec().name_spec()[0]);
                lemma_file_letter(a.from_spec(), b.from_spec());
                lemma_count_on_file_two(p, pc, file_of(sa), 64, sa, sb);
            } else {
                assert(ha.len() != hb.len());
            }
        }
    }
}

/// The parts of the short notation of a legal piece move: its text before the check mark is
/// the piece letter, the source hint and the capture mark, then the destination and the
/// promotion.
proof fn lemma_piece_core(board: ChessBoard, m: PieceMove)
    requires
        board.is_legal_spec(BoardMove::MovePiece(m)),
    ensures
        ({
            let pr = properties_of(board, BoardMove::MovePiece(m));
            let head = piece_prefix(m.piece_type_spec()) + source_hint(m.from_spec(), pr.ambiguity_type) + (if pr.is_capture {
                seq!['x']
            } else {
                Seq::<char>::empty()
            });
            let core = san_piece_text(m, pr);
            &&& core == head + m.to_spec().name_spec() + promo_text(m.promotion_spec())
            &&& core.len() > 0
            &&& core.last() != '+' && core.last() != '#'
            &&& core[0] != 'O'
            &&& (m.piece_type_spec() != PieceType::Pawn ==> head.len() >= 1 && head[0] == m.piece_type_spec().letter_spec())
            &&& (m.piece_type_spec() == PieceType::Pawn ==> core.len() >= 1 && 'a' <= core[0] <= 'h')
            &&& (m.promotion_spec() is None ==> '1' <= core.last() <= '8')
            &&& (m.promotion_spec() matches Some(q) ==> core.last() == q.letter_spec() && core[core.len() - 2] == '=')
        }),
{
    let pr = properties_of(board, BoardMove::MovePiece(m));
    let pt = m.piece_type_spec();
    let head = piece_prefix(pt) + source_hint(m.from_spec(), pr.ambiguity_type) + (if pr.is_capture {
        seq!['x']
    } else {
        Seq::<char>::empty()
    });
    let core = san_piece_text(m, pr);
    let dn = m.to_spec().name_spec();
    lemma_char_classes(m.to_spec(), pt);
    lemma_char_classes(m.from_spec(), pt);
    assert(core =~= head + dn + promo_text(m.promotion_spec()));
    match m.promotion_spec() {
        Some(q) => {
            lemma_char_classes(m.to_spec(), q);
            assert(core.last() == q.letter_spec());
            assert(core[core.len() - 2] == '=');
        },
        None => {
            assert(core.last() == dn[1]);
        },
    }
    if pt != PieceType::Pawn {
        assert(head[0] == pt.letter_spec());
        assert(core[0] == head[0]);
    } else {
        let t = pr.ambiguity_type;
        let p = board.place();
        let side = board.side();
        let s = m.from_spec().idx();
        let d = m.to_spec().idx();
        assert(t == board.ambiguity_spec(m));
        if t == DisplayAmbiguityType::ExtraFile {
            assert(core[0] == m.from_spec().name_spec()[0]);
        } else {
            assert(file_of(s) == file_of(d));
            assert(pseudo_target(p, side, board.ep(), pt, s, d));
            assert(!pr.is_capture);
            assert(head.len() == 0);
            assert(core[0] == dn[0]);
        }
    }
}

/// Two legal piece moves whose short notations before the check mark are equal are the same.
#[verifier::spinoff_prover]
#[verifier::rlimit(30)]
proof fn lemma_piece_cores_unique(board: ChessBoard, a: PieceMove, b: PieceMove)
    requires
        board.is_legal_spec(BoardMove::MovePiece(a)),
        board.is_legal_spec(BoardMove::MovePiece(b)),
        san_piece_text(a, properties_of(board, BoardMove::MovePiece(a))) == san_piece_text(b, properties_of(board, BoardMove::MovePiece(b))),
        exists|k: int| sole_king_at(board.place(), board.side(), k),
    ensures
        a == b,
{
    let pr1 = properties_of(board, BoardMove::MovePiece(a));
    let pr2 = properties_of(board, BoardMove::MovePiece(b));
    let c1 = san_piece_text(a, pr1);
    let c2 = san_piece_text(b, pr2);
    lemma_piece_core(board, a);
    lemma_piece_core(board, b);
    let pa = a.piece_type_spec();
    let pb = b.piece_type_spec();
    let xa = if pr1.is_capture {
        seq!['x']
    } else {
        Seq::<char>::empty()
    };
    let xb = if pr2.is_capture {
        seq!['x']
    } else {
        Seq::<char>::empty()
    };
    let ha = piece_prefix(pa) + source_hint(a.from_spec(), pr1.ambiguity_type) + xa;
    let hb = piece_prefix(pb) + source_hint(b.from_spec(), pr2.ambiguity_type) + xb;
    lemma_char_classes(a.to_spec(), pa);
    lemma_char_classes(b.to_spec(), pb);
    lemma_char_classes(a.from_spec(), pa);
    lemma_char_classes(b.from_spec(), pb);
    // the promotion
    assert(a.promotion_spec() is Some <==> b.promotion_spec() is Some) by {
        if let Some(q) = a.promotion_spec() {
            lemma_char_classes(a.to_spec(), q);
        }
        if let Some(q) = b.promotion_spec() {
            lemma_char_classes(b.to_spec(), q);
        }
    }
    if let (Some(q1), Some(q2)) = (a.promotion_spec(), b.promotion_spec()) {
        lemma_letter_injective(q1, q2);
    }
    let pt = promo_text(a.promotion_spec());
    assert(pt == promo_text(b.promotion_spec()));
    lemma_concat_split(ha + a.to_spec().name_spec(), pt, hb + b.to_spec().name_spec(), pt);
    // the destination
    lemma_concat_split(ha, a.to_spec().name_spec(), hb, b.to_spec().name_spec());
    Square::lemma_name_injective(a.to_spec(), b.to_spec());
    // the kind of piece
    assert(pr1.is_capture == pr2.is_capture);
    assert(xa == xb);
    if pa != PieceType::Pawn && pb != PieceType::Pawn {
        assert(ha[0] == hb[0]);
        lemma_letter_injective(pa, pb);
    } else if pa != PieceType::Pawn {
        assert(c1[0] == ha[0]);
    } else if pb != PieceType::Pawn {
        assert(c2[0] == hb[0]);
    }
    assert(pa == pb);
    lemma_concat_split(piece_prefix(pa) + source_hint(a.from_spec(), pr1.ambiguity_type), xa, piece_prefix(pb) + source_hint(b.from_spec(), pr2.ambiguity_type), xb);
    lemma_concat_split(piece_prefix(pa), source_hint(a.from_spec(), pr1.ambiguity_type), piece_prefix(pb), source_hint(b.from_spec(), pr2.ambiguity_type));
    // the source
    lemma_same_source(board, a, b);
    PieceMove::lemma_ext(a, b);
}

/// Short notation tells the legal moves of a position apart: two legal moves whose short
/// notations in the position are equal are the same move. (The position's side has one king, as
/// on every board.)
pub proof fn lemma_short_notation_unique(board: ChessBoard, m1: BoardMove, m2: BoardMove)
    requires
        board.is_legal_spec(m1),
        board.is_legal_spec(m2),
        san_text(m1, properties_of(board, m1)) == san_text(m2, properties_of(board, m2)),
        exists|k: int| sole_king_at(board.place(), board.side(), k),
    ensures
        m1 == m2,
{
    let pr1 = properties_of(board, m1);
    let pr2 = properties_of(board, m2);
    let c1 = core_text(m1, pr1);
    let c2 = core_text(m2, pr2);
    assert(san_text(m1, pr1) == c1 + check_suffix(pr1));
    assert(san_text(m2, pr2) == c2 + check_suffix(pr2));
    if let BoardMove::MovePiece(a) = m1 {
        lemma_piece_core(board, a);
    } else {
        assert(c1.last() == 'O');
        assert(c1[0] == 'O');
    }
    if let BoardMove::MovePiece(b) = m2 {
        lemma_piece_core(board, b);
    } else {
        assert(c2.last() == 'O');
        assert(c2[0] == 'O');
    }
    lemma_strip_suffix(c1, c2, pr1, pr2);
    match (m1, m2) {
        (BoardMove::MovePiece(a), BoardMove::MovePiece(b)) => {
            lemma_piece_cores_unique(board, a, b);
        },
        (BoardMove::CastleKingSide, BoardMove::CastleQueenSide) => {
            assert(c1.len() != c2.len());
        },
        (BoardMove::CastleQueenSide, BoardMove::CastleKingSide) => {
            assert(c1.len() != c2.len());
        },
        _ => {},
    }
}

} // verus!
