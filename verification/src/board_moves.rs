use crate::board_builders::named_square;
use crate::board_files::File;
use crate::chess_boards::ChessBoard;
use crate::colors::Color;
use crate::coordinates::Square;
use crate::errors::LibChessError;
use crate::pieces::{ascii_upper, PieceType};
use crate::rules::{holds_color, in_check, place_after_move};
use crate::text::{char_to_string, push_char, push_str, split_at_char, split_on};
use vstd::prelude::*;

verus! {

/// How much of the source square a move written in short notation has to show.
#[derive(Debug, Clone, Copy, PartialEq, Eq, Hash, Structural)]
pub enum DisplayAmbiguityType {
    ExtraFile,
    ExtraSquare,
    Neither,
}

/// The kinds a pawn may be promoted to.
#[derive(Debug, Clone, Copy, PartialEq, Eq, Hash, Structural)]
pub enum PromotionPieceType {
    Knight,
    Bishop,
    Rook,
    Queen,
}

impl PromotionPieceType {
    pub open spec fn piece_type_spec(self) -> PieceType {
        match self {
            PromotionPieceType::Knight => PieceType::Knight,
            PromotionPieceType::Bishop => PieceType::Bishop,
            PromotionPieceType::Rook => PieceType::Rook,
            PromotionPieceType::Queen => PieceType::Queen,
        }
    }

    /// The piece kind a pawn becomes.
    pub fn to_piece_type(&self) -> (r: PieceType)
        ensures
            r == self.piece_type_spec(),
    {
        match self {
            PromotionPieceType::Knight => PieceType::Knight,
            PromotionPieceType::Bishop => PieceType::Bishop,
            PromotionPieceType::Rook => PieceType::Rook,
            PromotionPieceType::Queen => PieceType::Queen,
        }
    }

    /// Parses the letter (either case) of a promotion kind.
    pub fn from_str(value: &str) -> (r: Result<Self, LibChessError>)
        ensures
            r is Ok <==> (value@.len() == 1 && (crate::pieces::ascii_upper(value@[0]) == 'N'
                || crate::pieces::ascii_upper(value@[0]) == 'B' || crate::pieces::ascii_upper(value@[0]) == 'R'
                || crate::pieces::ascii_upper(value@[0]) == 'Q')),
            r matches Ok(p) ==> p.piece_type_spec().letter_spec() == crate::pieces::ascii_upper(value@[0]),
            r is Err ==> r == Err::<Self, LibChessError>(LibChessError::InvalidBoardMoveRepresentation),
    {
        if value.unicode_len() != 1 {
            return Err(LibChessError::InvalidBoardMoveRepresentation);
        }
        match value.get_char(0) {
            'N' | 'n' => Ok(PromotionPieceType::Knight),
            'B' | 'b' => Ok(PromotionPieceType::Bishop),
            'R' | 'r' => Ok(PromotionPieceType::Rook),
            'Q' | 'q' => Ok(PromotionPieceType::Queen),
            _ => Err(LibChessError::InvalidBoardMoveRepresentation),
        }
    }
}

impl From<PromotionPieceType> for PieceType {
    fn from(piece_type: PromotionPieceType) -> (r: PieceType) {
        piece_type.to_piece_type()
    }
}

impl vstd::std_specs::convert::FromSpecImpl<PromotionPieceType> for PieceType {
    open spec fn obeys_from_spec() -> bool {
        true
    }

    open spec fn from_spec(v: PromotionPieceType) -> PieceType {
        v.piece_type_spec()
    }
}

/// A move of one piece from a square to a square, with the kind a pawn is promoted to.
#[derive(Debug, Clone, Copy, PartialEq, Eq, Hash, Structural)]
pub struct PieceMove {
    piece_type: PieceType,
    square_from: Square,
    square_to: Square,
    promotion: Option<PieceType>,
}

impl PieceMove {
    pub closed spec fn piece_type_spec(self) -> PieceType {
        self.piece_type
    }

    pub closed spec fn from_spec(self) -> Square {
        self.square_from
    }

    pub closed spec fn to_spec(self) -> Square {
        self.square_to
    }

    pub closed spec fn promotion_spec(self) -> Option<PieceType> {
        self.promotion
    }

    /// The move with the given parts.
    pub closed spec fn with_parts(
        piece_type: PieceType,
        square_from: Square,
        square_to: Square,
        promotion: Option<PieceType>,
    ) -> PieceMove {
        PieceMove { piece_type, square_from, square_to, promotion }
    }

    pub broadcast proof fn lemma_with_parts(
        piece_type: PieceType,
        square_from: Square,
        square_to: Square,
        promotion: Option<PieceType>,
    )
        ensures
            #![trigger PieceMove::with_parts(piece_type, square_from, square_to, promotion)]
            PieceMove::with_parts(piece_type, square_from, square_to, promotion).piece_type_spec() == piece_type,
            PieceMove::with_parts(piece_type, square_from, square_to, promotion).from_spec() == square_from,
            PieceMove::with_parts(piece_type, square_from, square_to, promotion).to_spec() == square_to,
            PieceMove::with_parts(piece_type, square_from, square_to, promotion).promotion_spec() == promotion,
    {
    }

    /// Two moves with the same parts are the same move.
    pub proof fn lemma_ext(m1: PieceMove, m2: PieceMove)
        requires
            m1.piece_type_spec() == m2.piece_type_spec(),
            m1.from_spec() == m2.from_spec(),
            m1.to_spec() == m2.to_spec(),
            m1.promotion_spec() == m2.promotion_spec(),
        ensures
            m1 == m2,
    {
    }

    /// A move of a piece; promoting to a pawn is an error.
    pub fn new(
        piece_type: PieceType,
        square_from: Square,
        square_to: Square,
        promotion: Option<PieceType>,
    ) -> (r: Result<Self, LibChessError>)
        ensures
            promotion == Some(PieceType::Pawn) ==> r == Err::<Self, LibChessError>(LibChessError::InvalidPromotionPiece),
            promotion != Some(PieceType::Pawn) ==> (r matches Ok(m) && m.piece_type_spec() == piece_type
                && m.from_spec() == square_from && m.to_spec() == square_to && m.promotion_spec() == promotion),
    {
        if promotion == Some(PieceType::Pawn) {
            return Err(LibChessError::InvalidPromotionPiece);
        }
        Ok(PieceMove { piece_type, square_from, square_to, promotion })
    }

    pub fn get_piece_type(&self) -> (r: PieceType)
        ensures
            r == self.piece_type_spec(),
    {
        self.piece_type
    }

    pub fn get_source_square(&self) -> (r: Square)
        ensures
            r == self.from_spec(),
    {
        self.square_from
    }

    pub fn get_destination_square(&self) -> (r: Square)
        ensures
            r == self.to_spec(),
    {
        self.square_to
    }

    pub fn get_promotion(&self) -> (r: Option<PieceType>)
        ensures
            r == self.promotion_spec(),
    {
        self.promotion
    }
}

/// A move on the board: a piece move or a castling.
#[derive(Debug, Clone, Copy, PartialEq, Eq, Hash, Structural)]
pub enum BoardMove {
    MovePiece(PieceMove),
    CastleKingSide,
    CastleQueenSide,
}

impl BoardMove {
    /// The piece move; an error for a castling.
    pub fn piece_move(&self) -> (r: Result<PieceMove, LibChessError>)
        ensures
            *self matches BoardMove::MovePiece(m) ==> r == Ok::<PieceMove, LibChessError>(m),
            !(*self is MovePiece) ==> r == Err::<PieceMove, LibChessError>(LibChessError::InvalidBoardMoveRepresentation),
    {
        if let BoardMove::MovePiece(m) = self {
            Ok(*m)
        } else {
            Err(LibChessError::InvalidBoardMoveRepresentation)
        }
    }
}

/// The letter of a piece kind in move texts ("" for a pawn).
pub open spec fn piece_prefix(pt: PieceType) -> Seq<char> {
    if pt == PieceType::Pawn {
        Seq::empty()
    } else {
        seq![pt.letter_spec()]
    }
}

/// "=" and the letter of the promotion kind, if any.
pub open spec fn promo_text(q: Option<PieceType>) -> Seq<char> {
    match q {
        Some(t) => seq!['=', t.letter_spec()],
        None => Seq::empty(),
    }
}

/// The long notation of a piece move, such as "e2e4", "Qa1a8" or "e7e8=Q".
pub open spec fn piece_move_text(m: PieceMove) -> Seq<char> {
    piece_prefix(m.piece_type_spec()) + m.from_spec().name_spec() + m.to_spec().name_spec()
        + promo_text(m.promotion_spec())
}

/// The long notation of a move; "O-O" and "O-O-O" for the castlings.
pub open spec fn board_move_text(mv: BoardMove) -> Seq<char> {
    match mv {
        BoardMove::MovePiece(m) => piece_move_text(m),
        BoardMove::CastleKingSide => seq!['O', '-', 'O'],
        BoardMove::CastleQueenSide => seq!['O', '-', 'O', '-', 'O'],
    }
}

/// The characters of a square name are letters and digits of ASCII.
pub(crate) proof fn lemma_square_name_chars(sq: Square)
    ensures
        forall|i: int| 0 <= i < 2 ==> #[trigger] sq.name_spec()[i] != '=' && (sq.name_spec()[i] as int) < 128
            && sq.name_spec()[i] != 'O' && sq.name_spec()[i] != ' ',
{
    let f = File::from_idx(sq.file_idx());
    let k = crate::board_ranks::Rank::from_idx(sq.rank_idx());
    assert(f.char_spec() != '=' && (f.char_spec() as int) < 128 && f.char_spec() != 'O' && f.char_spec() != ' ') by {
        match f {
            File::A => {},
            File::B => {},
            File::C => {},
            File::D => {},
            File::E => {},
            File::F => {},
            File::G => {},
            File::H => {},
        }
    }
    assert(k.char_spec() != '=' && (k.char_spec() as int) < 128 && k.char_spec() != 'O' && k.char_spec() != ' ') by {
        match k {
            crate::board_ranks::Rank::First => {},
            crate::board_ranks::Rank::Second => {},
            crate::board_ranks::Rank::Third => {},
            crate::board_ranks::Rank::Fourth => {},
            crate::board_ranks::Rank::Fifth => {},
            crate::board_ranks::Rank::Sixth => {},
            crate::board_ranks::Rank::Seventh => {},
            crate::board_ranks::Rank::Eighth => {},
        }
    }
}

/// Reading the long notation of a move gives the move back: the text is one that `from_str`
/// reads, and it reads as the move. (A promotion to a pawn, which no constructor lets a move
/// hold, is left out.)
pub proof fn lemma_notation_round_trip(mv: BoardMove)
    requires
        mv matches BoardMove::MovePiece(m) ==> m.promotion_spec() != Some(PieceType::Pawn),
    ensures
        board_move_text(mv) == seq!['O', '-', 'O', '-', 'O'] || board_move_text(mv) == seq!['O', '-', 'O']
            || !move_text_unreadable(board_move_text(mv)),
        read_board_move(board_move_text(mv)) == Ok::<BoardMove, LibChessError>(mv),
{
    if let BoardMove::MovePiece(m) = mv {
        let pt = m.piece_type_spec();
        let pre = piece_prefix(pt);
        let a = m.from_spec().name_spec();
        let b = m.to_spec().name_spec();
        let p = pre + a + b;
        let s = board_move_text(mv);
        let n = p.len() as int;
        lemma_square_name_chars(m.from_spec());
        lemma_square_name_chars(m.to_spec());
        assert(pt.letter_spec() != '=' && (pt.letter_spec() as int) < 128 && pt.letter_spec() != 'O'
            && ascii_upper(pt.letter_spec()) == pt.letter_spec() && kind_of_letter(pt.letter_spec()) == Some(pt)) by {
            match pt {
                PieceType::Pawn => {},
                PieceType::Knight => {},
                PieceType::Bishop => {},
                PieceType::Rook => {},
                PieceType::Queen => {},
                PieceType::King => {},
            }
        }
        assert forall|i: int| 0 <= i < p.len() implies #[trigger] p[i] != '=' && (p[i] as int) < 128 by {
            if i < pre.len() {
                assert(p[i] == pt.letter_spec());
            } else if i < pre.len() + 2 {
                assert(p[i] == a[i - pre.len()]);
            } else {
                assert(p[i] == b[i - pre.len() - 2]);
            }
        }
        assert(!p.contains('='));
        assert(s[0] != 'O') by {
            if pre.len() > 0 {
                assert(s[0] == pt.letter_spec());
            } else {
                assert(s[0] == a[0]);
            }
        }
        assert(p.subrange(n - 4, n - 2) =~= a);
        assert(p.subrange(n - 2, n) =~= b);
        Square::lemma_name_round_trip(m.from_spec());
        Square::lemma_name_round_trip(m.to_spec());
        assert(named_square(a) == Some(m.from_spec()));
        assert(named_square(b) == Some(m.to_spec()));
        assert(ascii_text(p));
        lemma_ascii_utf8_len(p);
        assert(utf8_width(p[0]) == 1);
        assert(ascii_tail(p)) by {
            assert((p[n - 1] as int) < 128);
            assert((p[n - 2] as int) < 128);
            assert((p[n - 3] as int) < 128);
            assert((p[n - 4] as int) < 128);
        }
        assert(text_kind(p) == Some(pt)) by {
            if pt == PieceType::Pawn {
                assert(pre.len() == 0);
            } else {
                assert(p[0] == pt.letter_spec());
            }
        }
        let t = split_on(s, '=');
        match m.promotion_spec() {
            None => {
                assert(s =~= p);
                crate::text::lemma_split_on_whole(p, '=');
                assert(t == seq![p]);
                assert(text_promotion(t) is None);
            },
            Some(q) => {
                let l = q.letter_spec();
                assert(l != '=' && (l as int) < 128 && kind_of_letter(l) == Some(q)) by {
                    match q {
                        PieceType::Pawn => {},
                        PieceType::Knight => {},
                        PieceType::Bishop => {},
                        PieceType::Rook => {},
                        PieceType::Queen => {},
                        PieceType::King => {},
                    }
                }
                assert(s =~= p.push('=') + seq![l]);
                crate::text::lemma_split_on_sep(p, '=');
                crate::text::lemma_split_on_whole(p, '=');
                assert(!seq![l].contains('=')) by {
                    if seq![l].contains('=') {
                        assert(seq![l][0] == '=');
                    }
                }
                crate::text::lemma_split_on_append(p.push('='), seq![l], '=');
                assert(split_on(p.push('='), '=') == seq![p, Seq::<char>::empty()]);
                assert(seq![p, Seq::<char>::empty()].update(1, Seq::<char>::empty() + seq![l]) =~= seq![p, seq![l]]);
                assert(t == seq![p, seq![l]]);
                assert(t[1] =~= seq![l]);
                assert(text_promotion(t) == Some(q));
            },
        }
        assert(t[0] == p);
        assert(ascii_text(s)) by {
            assert forall|i: int| 0 <= i < s.len() implies (#[trigger] s[i] as int) < 128 by {
                if i < p.len() {
                    assert(s[i] == p[i]);
                }
            }
        }
        assert(s != seq!['O', '-', 'O', '-', 'O']) by {
            assert(seq!['O', '-', 'O', '-', 'O'][0] == 'O');
        }
        assert(s != seq!['O', '-', 'O']) by {
            assert(seq!['O', '-', 'O'][0] == 'O');
        }
        PieceMove::lemma_ext(PieceMove::with_parts(pt, m.from_spec(), m.to_spec(), m.promotion_spec()), m);
    }
}

/// The piece kind whose letter is `c` in either case.
pub open spec fn kind_of_letter(c: char) -> Option<PieceType> {
    let u = ascii_upper(c);
    if u == 'P' {
        Some(PieceType::Pawn)
    } else if u == 'N' {
        Some(PieceType::Knight)
    } else if u == 'B' {
        Some(PieceType::Bishop)
    } else if u == 'R' {
        Some(PieceType::Rook)
    } else if u == 'Q' {
        Some(PieceType::Queen)
    } else if u == 'K' {
        Some(PieceType::King)
    } else {
        None
    }
}

/// The text holds only ASCII characters.
pub open spec fn ascii_text(s: Seq<char>) -> bool {
    forall|i: int| 0 <= i < s.len() ==> (#[trigger] s[i] as int) < 128
}

/// The number of bytes of a character in UTF-8.
pub open spec fn utf8_width(c: char) -> int {
    if (c as int) < 0x80 {
        1
    } else if (c as int) < 0x800 {
        2
    } else if (c as int) < 0x10000 {
        3
    } else {
        4
    }
}

/// The number of bytes of a text in UTF-8.
pub open spec fn utf8_len(s: Seq<char>) -> int
    decreases s.len(),
{
    if s.len() == 0 {
        0
    } else {
        utf8_len(s.drop_last()) + utf8_width(s.last())
    }
}

/// A text of ASCII characters has one byte per character.
pub proof fn lemma_ascii_utf8_len(s: Seq<char>)
    requires
        ascii_text(s),
    ensures
        utf8_len(s) == s.len(),
    decreases s.len(),
{
    if s.len() > 0 {
        assert(ascii_text(s.drop_last())) by {
            assert forall|i: int| 0 <= i < s.drop_last().len() implies (#[trigger] s.drop_last()[i] as int) < 128 by {
                assert(s.drop_last()[i] == s[i]);
            }
        }
        lemma_ascii_utf8_len(s.drop_last());
        assert((s[s.len() - 1] as int) < 128);
    }
}

/// The last four characters of the text are one byte each.
pub open spec fn ascii_tail(p: Seq<char>) -> bool {
    let n = p.len() as int;
    &&& n >= 4
    &&& utf8_width(p[n - 1]) == 1
    &&& utf8_width(p[n - 2]) == 1
    &&& utf8_width(p[n - 3]) == 1
    &&& utf8_width(p[n - 4]) == 1
}

/// The text ends in a two-byte character after two one-byte characters that name no square:
/// the source square is read, and refused, before the destination is looked at.
pub open spec fn refused_before_wide_end(p: Seq<char>) -> bool {
    let n = p.len() as int;
    &&& n >= 3
    &&& utf8_width(p[n - 1]) == 2
    &&& utf8_width(p[n - 2]) == 1
    &&& utf8_width(p[n - 3]) == 1
    &&& named_square(p.subrange(n - 3, n - 1)) is None
}

/// The piece kind of a move text: a pawn for four bytes before the '=', else the kind named by
/// the first character.
pub open spec fn text_kind(p: Seq<char>) -> Option<PieceType> {
    if utf8_len(p) == 4 {
        Some(PieceType::Pawn)
    } else if p.len() == 0 {
        None
    } else {
        kind_of_letter(p[0])
    }
}

/// The promotion part of a move text (the part after the first '='): an empty part reads as a
/// pawn, a single letter as its kind.
pub open spec fn text_promotion(t: Seq<Seq<char>>) -> Option<PieceType> {
    if t.len() > 1 {
        if t[1].len() == 0 {
            Some(PieceType::Pawn)
        } else {
            kind_of_letter(t[1][0])
        }
    } else {
        None
    }
}

/// The move texts on which reading stops without an answer, with the part before the first '='
/// measured in bytes: a part of other than four bytes that is empty or starts with a character
/// of more than one byte; a piece letter followed by fewer than four bytes; a piece kind
/// followed by squares that do not end in four one-byte characters (unless the source square is
/// refused first); or a promotion part that is neither empty nor a single piece letter after
/// two valid squares.
pub open spec fn move_text_unreadable(s: Seq<char>) -> bool {
    let t = split_on(s, '=');
    let p = t[0];
    let n = p.len() as int;
    let l = utf8_len(p);
    ||| (l != 4 && (n == 0 || utf8_width(p[0]) != 1))
    ||| (text_kind(p) is Some && l < 4)
    ||| (text_kind(p) is Some && l >= 4 && !ascii_tail(p) && !refused_before_wide_end(p))
    ||| (text_kind(p) is Some && l >= 4 && ascii_tail(p) && named_square(p.subrange(n - 4, n - 2)) is Some
        && named_square(p.subrange(n - 2, n)) is Some && t.len() > 1 && !(t[1].len() == 0 || (
    t[1].len() == 1 && kind_of_letter(t[1][0]) is Some)))
}

/// What `PieceMove::from_str` reads from a text it can read: the kind, the two squares given by
/// the last four characters before the first '=', and the promotion after it.
pub open spec fn read_piece_move(s: Seq<char>) -> Result<PieceMove, LibChessError> {
    let t = split_on(s, '=');
    let p = t[0];
    let n = p.len() as int;
    match text_kind(p) {
        None => Err(LibChessError::InvalidBoardMoveRepresentation),
        Some(pt) => if !ascii_tail(p) {
            Err(LibChessError::InvalidBoardMoveRepresentation)
        } else {
            match (named_square(p.subrange(n - 4, n - 2)), named_square(p.subrange(n - 2, n))) {
            (Some(a), Some(b)) => if text_promotion(t) == Some(PieceType::Pawn) {
                Err(LibChessError::InvalidPromotionPiece)
            } else {
                Ok(PieceMove::with_parts(pt, a, b, text_promotion(t)))
            },
            _ => Err(LibChessError::InvalidBoardMoveRepresentation),
            }
        },
    }
}

/// The castling names, read before any piece move.
pub open spec fn read_board_move(s: Seq<char>) -> Result<BoardMove, LibChessError> {
    if s == seq!['O', '-', 'O', '-', 'O'] {
        Ok(BoardMove::CastleQueenSide)
    } else if s == seq!['O', '-', 'O'] {
        Ok(BoardMove::CastleKingSide)
    } else {
        match read_piece_move(s) {
            Ok(m) => Ok(BoardMove::MovePiece(m)),
            Err(e) => Err(e),
        }
    }
}

/// The number of bytes of `c` in UTF-8.
pub(crate) fn utf8_width_exec(c: char) -> (r: usize)
    ensures
        r == utf8_width(c),
{
    let v = c as u32;
    if v < 0x80 {
        1
    } else if v < 0x800 {
        2
    } else if v < 0x10000 {
        3
    } else {
        4
    }
}

/// The number of bytes of `s` in UTF-8, or 5 where it is more.
fn utf8_len_capped(s: &str) -> (r: usize)
    ensures
        r == if utf8_len(s@) < 5 { utf8_len(s@) } else { 5 },
{
    let n = s.unicode_len();
    let mut l: usize = 0;
    let mut i: usize = 0;
    assert(s@.take(0) =~= Seq::<char>::empty());
    while i < n
        invariant
            i <= n,
            n == s@.len(),
            l == if utf8_len(s@.take(i as int)) < 5 { utf8_len(s@.take(i as int)) } else { 5 },
            utf8_len(s@.take(i as int)) >= 0,
        decreases n - i,
    {
        let w = utf8_width_exec(s.get_char(i));
        proof {
            assert(s@.take(i + 1).drop_last() =~= s@.take(i as int));
            assert(s@.take(i + 1).last() == s@[i as int]);
        }
        l = if l + w < 5 { l + w } else { 5 };
        i = i + 1;
    }
    assert(s@.take(n as int) =~= s@);
    l
}

/// Reads a move in long notation (see `read_piece_move`), or `None` for a text that
/// `move_text_unreadable` shuts out.
fn read_move_text(value: &str) -> (r: Option<Result<PieceMove, LibChessError>>)
    ensures
        r is None <==> move_text_unreadable(value@),
        r matches Some(x) ==> x == read_piece_move(value@),
{
    let tokens = split_at_char(value, '=');
    let ghost t = split_on(value@, '=');
    proof {
        crate::text::lemma_split_on_len(value@, '=');
        assert(tokens@.len() == t.len());
        assert forall|k: int| 0 <= k < t.len() implies #[trigger] t[k] == tokens@[k]@ by {}
    }
    let p = tokens[0].as_str();
    let ghost ps = p@;
    let n = p.unicode_len();
    let l = utf8_len_capped(p);
    let piece_type = if l == 4 {
        PieceType::Pawn
    } else {
        if n == 0 {
            return None;
        }
        if utf8_width_exec(p.get_char(0)) != 1 {
            return None;
        }
        match kind_of_letter_exec(p.get_char(0)) {
            Some(k) => k,
            None => return Some(Err(LibChessError::InvalidBoardMoveRepresentation)),
        }
    };
    assert(text_kind(ps) == Some(piece_type));
    if l < 4 {
        return None;
    }
    let tail = n >= 4 && utf8_width_exec(p.get_char(n - 1)) == 1 && utf8_width_exec(p.get_char(n - 2)) == 1
        && utf8_width_exec(p.get_char(n - 3)) == 1 && utf8_width_exec(p.get_char(n - 4)) == 1;
    if !tail {
        if n >= 3 && utf8_width_exec(p.get_char(n - 1)) == 2 && utf8_width_exec(p.get_char(n - 2)) == 1
            && utf8_width_exec(p.get_char(n - 3)) == 1 {
            if read_square(p.substring_char(n - 3, n - 1)).is_none() {
                return Some(Err(LibChessError::InvalidBoardMoveRepresentation));
            }
        }
        return None;
    }
    let source = match read_square(p.substring_char(n - 4, n - 2)) {
        Some(sq) => sq,
        None => return Some(Err(LibChessError::InvalidBoardMoveRepresentation)),
    };
    let destination = match read_square(p.substring_char(n - 2, n)) {
        Some(sq) => sq,
        None => return Some(Err(LibChessError::InvalidBoardMoveRepresentation)),
    };
    let promotion = if tokens.len() > 1 {
        let q = tokens[1].as_str();
        let m = q.unicode_len();
        if m == 0 {
            Some(PieceType::Pawn)
        } else if m == 1 {
            match kind_of_letter_exec(q.get_char(0)) {
                Some(k) => Some(k),
                None => return None,
            }
        } else {
            return None;
        }
    } else {
        None
    };
    Some(PieceMove::new(piece_type, source, destination, promotion))
}

fn kind_of_letter_exec(c: char) -> (r: Option<PieceType>)
    ensures
        r == kind_of_letter(c),
{
    match c {
        'P' | 'p' => Some(PieceType::Pawn),
        'N' | 'n' => Some(PieceType::Knight),
        'B' | 'b' => Some(PieceType::Bishop),
        'R' | 'r' => Some(PieceType::Rook),
        'Q' | 'q' => Some(PieceType::Queen),
        'K' | 'k' => Some(PieceType::King),
        _ => None,
    }
}

/// The square named by a text, if any.
fn read_square(t: &str) -> (r: Option<Square>)
    ensures
        r == named_square(t@),
{
    let r = match Square::read_name(t) {
        Ok(sq) => Some(sq),
        Err(_) => None,
    };
    proof {
        match r {
            Some(sq) => {
                let other = choose|x: Square| #[trigger] x.name_spec() == t@;
                Square::lemma_name_injective(sq, other);
            },
            None => {
                if exists|x: Square| #[trigger] x.name_spec() == t@ {
                    let x = choose|x: Square| #[trigger] x.name_spec() == t@;
                    assert(File::from_idx(x.file_idx()).char_spec() == t@[0]);
                    assert(crate::board_ranks::Rank::from_idx(x.rank_idx()).char_spec() == t@[1]);
                }
            },
        }
    }
    r
}

impl PieceMove {
    /// The long notation of the move, such as "e2e4", "Qa1a8" or "e7e8=Q".
    pub fn notation(&self) -> (r: String)
        ensures
            r@ == piece_move_text(*self),
    {
        let mut r = String::new();
        if self.piece_type != PieceType::Pawn {
            push_char(&mut r, self.piece_type.to_char());
        }
        let a = self.square_from.to_string();
        push_str(&mut r, a.as_str());
        let b = self.square_to.to_string();
        push_str(&mut r, b.as_str());
        match self.promotion {
            Some(t) => {
                push_char(&mut r, '=');
                push_char(&mut r, t.to_char());
            },
            None => {},
        }
        assert(r@ =~= piece_move_text(*self));
        r
    }

    /// Reads a move in long notation: an optional piece letter (either case; none for a pawn),
    /// the source and destination squares, and an optional "=" with the promotion letter.
    pub fn from_str(value: &str) -> (r: Result<PieceMove, LibChessError>)
        requires
            !move_text_unreadable(value@),
        ensures
            r == read_piece_move(value@),
    {
        match read_move_text(value) {
            Some(r) => r,
            None => {
                proof {
                    assert(false);
                }
                Err(LibChessError::InvalidBoardMoveRepresentation)
            },
        }
    }

    /// Whether `from_str` reads `value` (see `move_text_unreadable`).
    pub fn is_readable(value: &str) -> (r: bool)
        ensures
            r == !move_text_unreadable(value@),
    {
        read_move_text(value).is_some()
    }

    /// Whether the move takes a piece of the other color standing on its destination.
    pub fn is_capture_on_board(&self, board: ChessBoard) -> (r: bool)
        ensures
            r == holds_color(board.place(), self.to_spec().idx(), board.side().opposite_spec()),
    {
        match board.get_piece_color_on(self.square_to) {
            Some(c) => c == board.get_side_to_move().opposite(),
            None => false,
        }
    }
}

impl BoardMove {
    /// The long notation of the move; "O-O" and "O-O-O" for the castlings.
    pub fn notation(&self) -> (r: String)
        ensures
            r@ == board_move_text(*self),
    {
        match self {
            BoardMove::MovePiece(m) => m.notation(),
            BoardMove::CastleKingSide => {
                let mut r = String::new();
                push_str(&mut r, "O-O");
                proof {
                    reveal_strlit("O-O");
                }
                assert(r@ =~= seq!['O', '-', 'O']);
                r
            },
            BoardMove::CastleQueenSide => {
                let mut r = String::new();
                push_str(&mut r, "O-O-O");
                proof {
                    reveal_strlit("O-O-O");
                }
                assert(r@ =~= seq!['O', '-', 'O', '-', 'O']);
                r
            },
        }
    }

    /// Whether `from_str` reads `value`: a castling name, or a text that `PieceMove::from_str`
    /// reads.
    pub fn is_readable(value: &str) -> (r: bool)
        ensures
            r == (value@ == seq!['O', '-', 'O', '-', 'O'] || value@ == seq!['O', '-', 'O'] || !move_text_unreadable(value@)),
    {
        let n = value.unicode_len();
        if n == 5 && value.get_char(0) == 'O' && value.get_char(1) == '-' && value.get_char(2) == 'O' && value.get_char(3) == '-' && value.get_char(4) == 'O' {
            assert(value@ =~= seq!['O', '-', 'O', '-', 'O']);
            return true;
        }
        if n == 3 && value.get_char(0) == 'O' && value.get_char(1) == '-' && value.get_char(2) == 'O' {
            assert(value@ =~= seq!['O', '-', 'O']);
            return true;
        }
        proof {
            if value@ == seq!['O', '-', 'O', '-', 'O'] {
                assert(value@[3] == '-');
            }
            if value@ == seq!['O', '-', 'O'] {
                assert(value@[1] == '-');
            }
        }
        PieceMove::is_readable(value)
    }

    /// Reads "O-O", "O-O-O" or a piece move in long notation.
    pub fn from_str(value: &str) -> (r: Result<BoardMove, LibChessError>)
        requires
            value@ == seq!['O', '-', 'O', '-', 'O'] || value@ == seq!['O', '-', 'O'] || !move_text_unreadable(value@),
        ensures
            r == read_board_move(value@),
    {
        let n = value.unicode_len();
        if n == 5 && value.get_char(0) == 'O' && value.get_char(1) == '-' && value.get_char(2) == 'O' && value.get_char(3) == '-' && value.get_char(4) == 'O' {
            assert(value@ =~= seq!['O', '-', 'O', '-', 'O']);
            return Ok(BoardMove::CastleQueenSide);
        }
        if n == 3 && value.get_char(0) == 'O' && value.get_char(1) == '-' && value.get_char(2) == 'O' {
            assert(value@ =~= seq!['O', '-', 'O']);
            return Ok(BoardMove::CastleKingSide);
        }
        proof {
            if value@ == seq!['O', '-', 'O', '-', 'O'] {
                assert(value@[3] == '-');
            }
            if value@ == seq!['O', '-', 'O'] {
                assert(value@[1] == '-');
            }
        }
        match PieceMove::from_str(value) {
            Ok(m) => Ok(BoardMove::MovePiece(m)),
            Err(e) => Err(e),
        }
    }
}

/// What short notation needs to know of a move on a board.
#[derive(Debug, Clone, Copy)]
pub struct MovePropertiesOnBoard {
    pub is_check: bool,
    pub is_checkmate: bool,
    pub is_capture: bool,
    pub ambiguity_type: DisplayAmbiguityType,
}

/// The properties of the legal move `mv` on `board`: whether it gives check, whether it gives
/// mate, whether it captures on its destination, and how much of its source it has to show.
pub open spec fn properties_of(board: ChessBoard, mv: BoardMove) -> MovePropertiesOnBoard {
    let side = board.side();
    let check = in_check(place_after_move(board.place(), side, board.ep(), mv), side.opposite_spec());
    MovePropertiesOnBoard {
        is_check: check,
        is_checkmate: check && !board.has_reply(mv),
        is_capture: match mv {
            BoardMove::MovePiece(m) => holds_color(board.place(), m.to_spec().idx(), side.opposite_spec()),
            _ => false,
        },
        ambiguity_type: match mv {
            BoardMove::MovePiece(m) => if m.piece_type_spec() == PieceType::King {
                DisplayAmbiguityType::Neither
            } else {
                board.ambiguity_spec(m)
            },
            _ => DisplayAmbiguityType::Neither,
        },
    }
}

impl MovePropertiesOnBoard {
    /// The properties of `board_move` on `board`; an error if the move is not legal there.
    pub fn new(board_move: BoardMove, board: ChessBoard) -> (r: Result<Self, LibChessError>)
        requires
            board.halfmoves() < usize::MAX,
            board.fullmoves() < usize::MAX,
        ensures
            r is Ok <==> board.is_legal_spec(board_move),
            r matches Ok(pr) ==> pr == properties_of(board, board_move),
            r is Err ==> r == Err::<Self, LibChessError>(LibChessError::IllegalMoveDetected),
    {
        let after = match board.make_move(&board_move) {
            Ok(b) => b,
            Err(e) => return Err(e),
        };
        let is_check = after.in_check_now();
        let is_checkmate = after.is_terminal() && is_check;
        proof {
            ChessBoard::lemma_follows_has_legal_move(after, board, board_move);
        }
        let is_capture = match board_move {
            BoardMove::MovePiece(m) => m.is_capture_on_board(board),
            BoardMove::CastleKingSide => false,
            BoardMove::CastleQueenSide => false,
        };
        let ambiguity_type = match board_move {
            BoardMove::MovePiece(m) => {
                if m.get_piece_type() == PieceType::King {
                    DisplayAmbiguityType::Neither
                } else {
                    match board.get_move_ambiguity_type(&m) {
                        Ok(t) => t,
                        Err(e) => return Err(e),
                    }
                }
            },
            BoardMove::CastleKingSide => DisplayAmbiguityType::Neither,
            BoardMove::CastleQueenSide => DisplayAmbiguityType::Neither,
        };
        Ok(MovePropertiesOnBoard { is_check, is_checkmate, is_capture, ambiguity_type })
    }
}

/// "#" for a mate, "+" for a check.
pub open spec fn check_suffix(pr: MovePropertiesOnBoard) -> Seq<char> {
    if pr.is_checkmate {
        seq!['#']
    } else if pr.is_check {
        seq!['+']
    } else {
        Seq::empty()
    }
}

/// The part of the source square that short notation shows.
pub open spec fn source_hint(from: Square, t: DisplayAmbiguityType) -> Seq<char> {
    match t {
        DisplayAmbiguityType::ExtraFile => seq![File::from_idx(from.file_idx()).char_spec()],
        DisplayAmbiguityType::ExtraSquare => from.name_spec(),
        DisplayAmbiguityType::Neither => Seq::empty(),
    }
}

/// The short notation of a piece move without the check mark.
pub open spec fn san_piece_text(m: PieceMove, pr: MovePropertiesOnBoard) -> Seq<char> {
    piece_prefix(m.piece_type_spec()) + source_hint(m.from_spec(), pr.ambiguity_type) + (if pr.is_capture {
        seq!['x']
    } else {
        Seq::empty()
    }) + m.to_spec().name_spec() + promo_text(m.promotion_spec())
}

/// The short notation of a move with the given properties, such as "Nf3", "exd5", "Bxh2+",
/// "e8=Q#" or "O-O".
pub open spec fn san_text(mv: BoardMove, pr: MovePropertiesOnBoard) -> Seq<char> {
    match mv {
        BoardMove::MovePiece(m) => san_piece_text(m, pr) + check_suffix(pr),
        BoardMove::CastleKingSide => seq!['O', '-', 'O'] + check_suffix(pr),
        BoardMove::CastleQueenSide => seq!['O', '-', 'O', '-', 'O'] + check_suffix(pr),
    }
}

fn push_hint(r: &mut String, from: Square, t: DisplayAmbiguityType)
    ensures
        final(r)@ == old(r)@ + source_hint(from, t),
{
    match t {
        DisplayAmbiguityType::ExtraFile => {
            push_char(r, from.get_file().to_char());
        },
        DisplayAmbiguityType::ExtraSquare => {
            let s = from.to_string();
            push_str(r, s.as_str());
        },
        DisplayAmbiguityType::Neither => {
            assert(old(r)@ + source_hint(from, t) =~= old(r)@);
        },
    }
}

fn push_promo(r: &mut String, q: Option<PieceType>)
    ensures
        final(r)@ == old(r)@ + promo_text(q),
{
    match q {
        Some(k) => {
            push_char(r, '=');
            push_char(r, k.to_char());
            assert(final(r)@ =~= old(r)@ + promo_text(q));
        },
        None => {
            assert(old(r)@ + promo_text(q) =~= old(r)@);
        },
    }
}

fn push_prefix(r: &mut String, pt: PieceType)
    ensures
        final(r)@ == old(r)@ + piece_prefix(pt),
{
    if pt != PieceType::Pawn {
        push_char(r, pt.to_char());
    } else {
        assert(old(r)@ + piece_prefix(pt) =~= old(r)@);
    }
}

fn san_piece_string(m: &PieceMove, properties: &MovePropertiesOnBoard) -> (r: String)
    ensures
        r@ == san_piece_text(*m, *properties),
{
    let mut r = String::new();
    push_prefix(&mut r, m.get_piece_type());
    assert(r@ =~= piece_prefix(m.piece_type_spec()));
    push_hint(&mut r, m.get_source_square(), properties.ambiguity_type);
    let ghost b = r@;
    if properties.is_capture {
        push_char(&mut r, 'x');
    }
    assert(r@ =~= b + if properties.is_capture { seq!['x'] } else { Seq::<char>::empty() });
    let t = m.get_destination_square().to_string();
    push_str(&mut r, t.as_str());
    push_promo(&mut r, m.get_promotion());
    r
}

impl BoardMove {
    /// The short notation of the move, given its properties on the board.
    pub fn to_string(&self, properties: MovePropertiesOnBoard) -> (r: String)
        ensures
            r@ == san_text(*self, properties),
    {
        let mut r = String::new();
        match self {
            BoardMove::MovePiece(m) => {
                r = san_piece_string(m, &properties);
            },
            BoardMove::CastleKingSide => {
                push_str(&mut r, "O-O");
                proof {
                    reveal_strlit("O-O");
                }
            },
            BoardMove::CastleQueenSide => {
                push_str(&mut r, "O-O-O");
                proof {
                    reveal_strlit("O-O-O");
                }
            },
        }
        let ghost body = r@;
        if properties.is_checkmate {
            push_char(&mut r, '#');
        } else if properties.is_check {
            push_char(&mut r, '+');
        }
        assert(r@ =~= body + check_suffix(properties));
        assert(r@ =~= san_text(*self, properties));
        r
    }
}

} // verus!
