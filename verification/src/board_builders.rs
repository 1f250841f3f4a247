//! The parts of a position, without any check that they make sense together, and their text in
//! Forsyth-Edwards notation (FEN).
use crate::castling::CastlingRights;
use crate::colors::Color;
use crate::board_files::File;
use crate::board_ranks::Rank;
use crate::coordinates::Square;
use crate::pieces::{Piece, PieceType};
use crate::rules::Place;
use crate::errors::LibChessError;
use crate::text::{
    copy_str, decimal, digit_char, parse_usize, push_char, push_str, split_at_char, split_on, str_contains,
    unsigned_text, unsigned_value, usize_to_string,
};
use vstd::prelude::*;

verus! {

/// What the pairs put on square `i`: the piece of the last pair naming `i`.
pub open spec fn setup_square(pairs: Seq<(Square, Piece)>, i: int) -> Option<Piece>
    decreases pairs.len(),
{
    if pairs.len() == 0 {
        None
    } else if pairs.last().0.idx() == i {
        Some(pairs.last().1)
    } else {
        setup_square(pairs.drop_last(), i)
    }
}

/// The parts of a position: a piece or nothing on each square, the side to move, the castling
/// rights of each color, the en-passant square and the two move counters.
#[derive(Debug, Clone, Copy)]
pub struct BoardBuilder {
    pieces: [Option<Piece>; 64],
    side_to_move: Color,
    castle_rights: [CastlingRights; 2],
    en_passant: Option<Square>,
    moves_since_capture_or_pawn_move: usize,
    move_number: usize,
}

impl BoardBuilder {
    /// What stands on square `i` (nothing off the board).
    pub closed spec fn square_spec(self, i: int) -> Option<Piece> {
        if 0 <= i < 64 {
            self.pieces@[i]
        } else {
            None
        }
    }

    /// Nothing stands off the board.
    pub proof fn lemma_off_board(self, i: int)
        requires
            !(0 <= i < 64),
        ensures
            self.square_spec(i) is None,
    {
    }

    /// What stands on every square.
    pub open spec fn place(self) -> Place {
        |i: int| self.square_spec(i)
    }

    pub closed spec fn side_spec(self) -> Color {
        self.side_to_move
    }

    pub closed spec fn rights_spec(self, c: Color) -> CastlingRights {
        self.castle_rights@[c.index_spec()]
    }

    pub closed spec fn ep_spec(self) -> Option<Square> {
        self.en_passant
    }

    pub closed spec fn halfmoves_spec(self) -> int {
        self.moves_since_capture_or_pawn_move as int
    }

    pub closed spec fn fullmoves_spec(self) -> int {
        self.move_number as int
    }

    /// An empty board, white to move, no castling rights, no en-passant square, both counters 0.
    pub fn new() -> (r: BoardBuilder)
        ensures
            forall|i: int| #[trigger] r.square_spec(i) is None,
            r.side_spec() == Color::White,
            r.rights_spec(Color::White) == CastlingRights::Neither,
            r.rights_spec(Color::Black) == CastlingRights::Neither,
            r.ep_spec() is None,
            r.halfmoves_spec() == 0,
            r.fullmoves_spec() == 0,
    {
        BoardBuilder {
            pieces: [None; 64],
            side_to_move: Color::White,
            castle_rights: [CastlingRights::Neither, CastlingRights::Neither],
            en_passant: None,
            moves_since_capture_or_pawn_move: 0,
            move_number: 0,
        }
    }

    /// The parts given one by one; a square named twice holds the piece of the later pair.
    pub fn setup(
        pieces: &[(Square, Piece)],
        side_to_move: Color,
        white_castle_rights: CastlingRights,
        black_castle_rights: CastlingRights,
        en_passant: Option<Square>,
        moves_since_capture_or_pawn_move: usize,
        move_number: usize,
    ) -> (r: BoardBuilder)
        ensures
            forall|i: int| #[trigger] r.square_spec(i) == setup_square(pieces@, i),
            r.side_spec() == side_to_move,
            r.rights_spec(Color::White) == white_castle_rights,
            r.rights_spec(Color::Black) == black_castle_rights,
            r.ep_spec() == en_passant,
            r.halfmoves_spec() == moves_since_capture_or_pawn_move,
            r.fullmoves_spec() == move_number,
    {
        let mut builder = BoardBuilder {
            pieces: [None; 64],
            side_to_move,
            castle_rights: [white_castle_rights, black_castle_rights],
            en_passant,
            moves_since_capture_or_pawn_move,
            move_number,
        };
        let mut n: usize = 0;
        while n < pieces.len()
            invariant
                n <= pieces@.len(),
                builder.side_to_move == side_to_move,
                builder.castle_rights@ == seq![white_castle_rights, black_castle_rights],
                builder.en_passant == en_passant,
                builder.moves_since_capture_or_pawn_move == moves_since_capture_or_pawn_move,
                builder.move_number == move_number,
                forall|i: int| #[trigger] builder.square_spec(i) == setup_square(pieces@.subrange(0, n as int), i),
            decreases pieces@.len() - n,
        {
            let (s, p) = pieces[n];
            let ghost before = builder;
            let k = s.to_index();
            builder.pieces.set(k, Some(p));
            proof {
                let pre = pieces@.subrange(0, n as int);
                let post = pieces@.subrange(0, n + 1);
                assert(post.drop_last() =~= pre);
                assert(post.last() == (s, p));
                Square::lemma_idx_range(s);
                assert forall|i: int| #[trigger] builder.square_spec(i) == setup_square(post, i) by {
                    assert(before.square_spec(i) == setup_square(pre, i));
                    if 0 <= i < 64 && i != k {
                        assert(builder.pieces@[i] == before.pieces@[i]);
                    }
                }
            }
            n = n + 1;
        }
        assert(pieces@.subrange(0, pieces@.len() as int) =~= pieces@);
        builder
    }

    /// The pieces on the 64 squares, from a1 to h8.
    pub fn get_pieces(&self) -> (r: [Option<Piece>; 64])
        ensures
            forall|i: int| 0 <= i < 64 ==> #[trigger] r@[i] == self.square_spec(i),
    {
        self.pieces
    }

    pub fn get_move_number(&self) -> (r: usize)
        ensures
            r == self.fullmoves_spec(),
    {
        self.move_number
    }

    pub fn get_moves_since_capture_or_pawn_move(&self) -> (r: usize)
        ensures
            r == self.halfmoves_spec(),
    {
        self.moves_since_capture_or_pawn_move
    }

    pub fn get_castle_rights(&self, color: Color) -> (r: CastlingRights)
        ensures
            r == self.rights_spec(color),
    {
        self.castle_rights[color.to_index()]
    }

    pub fn get_side_to_move(&self) -> (r: Color)
        ensures
            r == self.side_spec(),
    {
        self.side_to_move
    }

    pub fn get_en_passant(&self) -> (r: Option<Square>)
        ensures
            r == self.ep_spec(),
    {
        self.en_passant
    }

    /// The piece on `square`, if any.
    pub fn get_square(&self, square: Square) -> (r: Option<Piece>)
        ensures
            r == self.square_spec(square.idx()),
    {
        self.pieces[square.to_index()]
    }

    pub fn set_move_number(&mut self, counter: usize)
        ensures
            final(self).fullmoves_spec() == counter,
            final(self).halfmoves_spec() == old(self).halfmoves_spec(),
            final(self).side_spec() == old(self).side_spec(),
            final(self).ep_spec() == old(self).ep_spec(),
            forall|c: Color| #[trigger] final(self).rights_spec(c) == old(self).rights_spec(c),
            forall|i: int| #[trigger] final(self).square_spec(i) == old(self).square_spec(i),
    {
        self.move_number = counter;
    }

    pub fn set_moves_since_capture_or_pawn_move(&mut self, counter: usize)
        ensures
            final(self).halfmoves_spec() == counter,
            final(self).fullmoves_spec() == old(self).fullmoves_spec(),
            final(self).side_spec() == old(self).side_spec(),
            final(self).ep_spec() == old(self).ep_spec(),
            forall|c: Color| #[trigger] final(self).rights_spec(c) == old(self).rights_spec(c),
            forall|i: int| #[trigger] final(self).square_spec(i) == old(self).square_spec(i),
    {
        self.moves_since_capture_or_pawn_move = counter;
    }

    pub fn set_side_to_move(&mut self, color: Color)
        ensures
            final(self).side_spec() == color,
            final(self).halfmoves_spec() == old(self).halfmoves_spec(),
            final(self).fullmoves_spec() == old(self).fullmoves_spec(),
            final(self).ep_spec() == old(self).ep_spec(),
            forall|c: Color| #[trigger] final(self).rights_spec(c) == old(self).rights_spec(c),
            forall|i: int| #[trigger] final(self).square_spec(i) == old(self).square_spec(i),
    {
        self.side_to_move = color;
    }

    pub fn set_castling_rights(&mut self, color: Color, rights: CastlingRights)
        ensures
            final(self).rights_spec(color) == rights,
            final(self).rights_spec(color.opposite_spec()) == old(self).rights_spec(color.opposite_spec()),
            final(self).side_spec() == old(self).side_spec(),
            final(self).halfmoves_spec() == old(self).halfmoves_spec(),
            final(self).fullmoves_spec() == old(self).fullmoves_spec(),
            final(self).ep_spec() == old(self).ep_spec(),
            forall|i: int| #[trigger] final(self).square_spec(i) == old(self).square_spec(i),
    {
        self.castle_rights.set(color.to_index(), rights);
    }

    pub fn set_en_passant(&mut self, square: Option<Square>)
        ensures
            final(self).ep_spec() == square,
            final(self).side_spec() == old(self).side_spec(),
            final(self).halfmoves_spec() == old(self).halfmoves_spec(),
            final(self).fullmoves_spec() == old(self).fullmoves_spec(),
            forall|c: Color| #[trigger] final(self).rights_spec(c) == old(self).rights_spec(c),
            forall|i: int| #[trigger] final(self).square_spec(i) == old(self).square_spec(i),
    {
        self.en_passant = square;
    }

    pub fn set_square(&mut self, square: Square, piece: Option<Piece>)
        ensures
            forall|i: int| #[trigger] final(self).square_spec(i) == if i == square.idx() {
                piece
            } else {
                old(self).square_spec(i)
            },
            final(self).side_spec() == old(self).side_spec(),
            final(self).halfmoves_spec() == old(self).halfmoves_spec(),
            final(self).fullmoves_spec() == old(self).fullmoves_spec(),
            final(self).ep_spec() == old(self).ep_spec(),
            forall|c: Color| #[trigger] final(self).rights_spec(c) == old(self).rights_spec(c),
    {
        self.pieces.set(square.to_index(), piece);
    }
}

/// The letter of a piece in FEN: upper case for white, lower case for black.
pub open spec fn piece_letter(pc: Piece) -> char {
    if pc.1 == Color::White {
        pc.0.letter_spec()
    } else {
        ((pc.0.letter_spec() as int) + 32) as char
    }
}

/// The count of a run of empty squares ("" for none).
pub open spec fn run_text(run: nat) -> Seq<char> {
    if run == 0 {
        Seq::empty()
    } else {
        decimal(run)
    }
}

/// The text of the squares from `file` to the h-file of rank `rank`, after `run` empty squares
/// that are not written yet.
pub open spec fn row_text(p: Place, rank: int, file: int, run: nat) -> Seq<char>
    decreases 8 - file,
{
    if file >= 8 {
        run_text(run)
    } else {
        match p(rank * 8 + file) {
            Some(pc) => run_text(run) + seq![piece_letter(pc)] + row_text(p, rank, file + 1, 0),
            None => row_text(p, rank, file + 1, run + 1),
        }
    }
}

/// The ranks from the eighth down to `rank`, separated by '/'.
pub open spec fn rows_text(p: Place, rank: int) -> Seq<char>
    decreases 7 - rank,
{
    if rank >= 7 {
        row_text(p, 7, 0, 0)
    } else {
        rows_text(p, rank + 1) + seq!['/'] + row_text(p, rank, 0, 0)
    }
}

/// The castling field: "-" when neither color has rights, else the white sides in upper case
/// followed by the black sides.
pub open spec fn castling_text(white: CastlingRights, black: CastlingRights) -> Seq<char> {
    if white == CastlingRights::Neither && black == CastlingRights::Neither {
        seq!['-']
    } else {
        white.letters_spec().map_values(|c: char| ((c as int) - 32) as char) + black.letters_spec()
    }
}

/// The FEN text of a builder.
pub open spec fn fen_text(b: BoardBuilder) -> Seq<char> {
    rows_text(b.place(), 0) + seq![' '] + seq![
        if b.side_spec() == Color::White {
            'w'
        } else {
            'b'
        },
    ] + seq![' '] + castling_text(b.rights_spec(Color::White), b.rights_spec(Color::Black)) + seq![' ']
        + match b.ep_spec() {
        Some(s) => s.name_spec(),
        None => seq!['-'],
    } + seq![' '] + decimal(b.halfmoves_spec() as nat) + seq![' '] + decimal(b.fullmoves_spec() as nat)
}

pub(crate) fn piece_letter_exec(pc: Piece) -> (c: char)
    ensures
        c == piece_letter(pc),
{
    match (pc.0, pc.1) {
        (PieceType::Pawn, Color::White) => 'P',
        (PieceType::Knight, Color::White) => 'N',
        (PieceType::Bishop, Color::White) => 'B',
        (PieceType::Rook, Color::White) => 'R',
        (PieceType::Queen, Color::White) => 'Q',
        (PieceType::King, Color::White) => 'K',
        (PieceType::Pawn, Color::Black) => 'p',
        (PieceType::Knight, Color::Black) => 'n',
        (PieceType::Bishop, Color::Black) => 'b',
        (PieceType::Rook, Color::Black) => 'r',
        (PieceType::Queen, Color::Black) => 'q',
        (PieceType::King, Color::Black) => 'k',
    }
}

fn push_run(out: &mut String, run: usize)
    ensures
        final(out)@ == old(out)@ + run_text(run as nat),
{
    if run > 0 {
        let t = usize_to_string(run);
        push_str(out, t.as_str());
    } else {
        assert(old(out)@ + run_text(0) =~= old(out)@);
    }
}

impl BoardBuilder {
    /// Appends the text of rank `rank`.
    fn push_row(&self, out: &mut String, rank: usize)
        requires
            rank < 8,
        ensures
            final(out)@ == old(out)@ + row_text(self.place(), rank as int, 0, 0),
    {
        let ghost start = out@;
        let mut run: usize = 0;
        let mut file: usize = 0;
        while file < 8
            invariant
                file <= 8,
                run <= file,
                rank < 8,
                out@ + row_text(self.place(), rank as int, file as int, run as nat) == start + row_text(self.place(), rank as int, 0, 0),
            decreases 8 - file,
        {
            let ghost before = out@;
            let ghost old_run = run;
            match self.pieces[rank * 8 + file] {
                Some(pc) => {
                    push_run(out, run);
                    push_char(out, piece_letter_exec(pc));
                    run = 0;
                    proof {
                        assert(self.place()(rank * 8 + file) == Some(pc));
                        assert(out@ + row_text(self.place(), rank as int, file + 1, 0) =~= before + row_text(self.place(), rank as int, file as int, old_run as nat));
                    }
                },
                None => {
                    run = run + 1;
                    proof {
                        assert(self.place()(rank * 8 + file) is None);
                    }
                },
            }
            file = file + 1;
        }
        push_run(out, run);
    }

    /// The FEN text of the parts.
    #[verifier::rlimit(40)]
    pub fn to_string(&self) -> (r: String)
        ensures
            r@ == fen_text(*self),
    {
        let mut out = String::new();
        self.push_row(&mut out, 7);
        assert(out@ =~= rows_text(self.place(), 7));
        let mut rank: usize = 7;
        while rank > 0
            invariant
                rank <= 7,
                out@ == rows_text(self.place(), rank as int),
            decreases rank,
        {
            rank = rank - 1;
            push_char(&mut out, '/');
            self.push_row(&mut out, rank);
        }
        push_char(&mut out, ' ');
        push_char(&mut out, match self.side_to_move {
            Color::White => 'w',
            Color::Black => 'b',
        });
        push_char(&mut out, ' ');
        let white = self.castle_rights[0];
        let black = self.castle_rights[1];
        let ghost before_castles = out@;
        if white == CastlingRights::Neither && black == CastlingRights::Neither {
            push_char(&mut out, '-');
        } else {
            if white.has_kingside() {
                push_char(&mut out, 'K');
            }
            if white.has_queenside() {
                push_char(&mut out, 'Q');
            }
            let b = black.to_string();
            push_str(&mut out, b.as_str());
        }
        proof {
            assert(out@ =~= before_castles + castling_text(white, black));
        }
        push_char(&mut out, ' ');
        match self.en_passant {
            Some(s) => {
                let t = s.to_string();
                push_str(&mut out, t.as_str());
            },
            None => {
                push_char(&mut out, '-');
            },
        }
        push_char(&mut out, ' ');
        let h = usize_to_string(self.moves_since_capture_or_pawn_move);
        push_str(&mut out, h.as_str());
        push_char(&mut out, ' ');
        let f = usize_to_string(self.move_number);
        push_str(&mut out, f.as_str());
        proof {
            assert(out@ =~= fen_text(*self));
        }
        out
    }
}

/// The piece that a FEN letter names: upper case for white, lower case for black.
pub open spec fn letter_piece(c: char) -> Option<Piece> {
    if c == 'P' {
        Some(Piece(PieceType::Pawn, Color::White))
    } else if c == 'N' {
        Some(Piece(PieceType::Knight, Color::White))
    } else if c == 'B' {
        Some(Piece(PieceType::Bishop, Color::White))
    } else if c == 'R' {
        Some(Piece(PieceType::Rook, Color::White))
    } else if c == 'Q' {
        Some(Piece(PieceType::Queen, Color::White))
    } else if c == 'K' {
        Some(Piece(PieceType::King, Color::White))
    } else if c == 'p' {
        Some(Piece(PieceType::Pawn, Color::Black))
    } else if c == 'n' {
        Some(Piece(PieceType::Knight, Color::Black))
    } else if c == 'b' {
        Some(Piece(PieceType::Bishop, Color::Black))
    } else if c == 'r' {
        Some(Piece(PieceType::Rook, Color::Black))
    } else if c == 'q' {
        Some(Piece(PieceType::Queen, Color::Black))
    } else if c == 'k' {
        Some(Piece(PieceType::King, Color::Black))
    } else {
        None
    }
}

/// Where reading the piece field stands: the rank and file of the next square and the squares
/// filled so far.
pub type FenCursor = (int, int, Seq<Option<Piece>>);

/// Reads one character of the piece field. A '/' goes down one rank (an error below the first);
/// a digit skips that many files (nothing when that would leave the board); a piece letter puts
/// the piece on the square and moves right (staying on the h-file); any other character is an
/// error.
pub open spec fn fen_step(st: FenCursor, c: char) -> Option<FenCursor> {
    let (rank, file, squares) = st;
    if c == '/' {
        if rank > 0 {
            Some((rank - 1, 0, squares))
        } else {
            None
        }
    } else if '1' <= c <= '8' {
        let n = (c as int) - 48;
        if file + n < 8 {
            Some((rank, file + n, squares))
        } else {
            Some(st)
        }
    } else {
        match letter_piece(c) {
            Some(pc) => Some(
                (
                    rank,
                    if file < 7 {
                        file + 1
                    } else {
                        file
                    },
                    squares.update(rank * 8 + file, Some(pc)),
                ),
            ),
            None => None,
        }
    }
}

/// Reads the piece field, starting on a8 with an empty board.
pub open spec fn fen_scan(cs: Seq<char>) -> Option<FenCursor>
    decreases cs.len(),
{
    if cs.len() == 0 {
        Some((7, 0, Seq::new(64, |i: int| None::<Piece>)))
    } else {
        match fen_scan(cs.drop_last()) {
            Some(st) => fen_step(st, cs.last()),
            None => None,
        }
    }
}

/// Reads the characters `cs` of a piece field from the point `st` (see `fen_scan`).
pub open spec fn fen_run(st: Option<FenCursor>, cs: Seq<char>) -> Option<FenCursor>
    decreases cs.len(),
{
    if cs.len() == 0 {
        st
    } else {
        match fen_run(st, cs.drop_last()) {
            Some(s) => fen_step(s, cs.last()),
            None => None,
        }
    }
}

proof fn lemma_scan_is_run(cs: Seq<char>)
    ensures
        fen_scan(cs) == fen_run(Some((7, 0, Seq::new(64, |i: int| None::<Piece>))), cs),
    decreases cs.len(),
{
    if cs.len() > 0 {
        lemma_scan_is_run(cs.drop_last());
    }
}

proof fn lemma_run_append(st: Option<FenCursor>, a: Seq<char>, b: Seq<char>)
    ensures
        fen_run(st, a + b) == fen_run(fen_run(st, a), b),
    decreases b.len(),
{
    if b.len() == 0 {
        assert(a + b =~= a);
    } else {
        lemma_run_append(st, a, b.drop_last());
        assert((a + b).drop_last() =~= a + b.drop_last());
        assert((a + b).last() == b.last());
        if fen_run(st, a) is None {
            lemma_run_none(b.drop_last());
        }
    }
}

proof fn lemma_run_none(cs: Seq<char>)
    ensures
        fen_run(None, cs) is None,
    decreases cs.len(),
{
    if cs.len() > 0 {
        lemma_run_none(cs.drop_last());
    }
}

proof fn lemma_run_one(st: Option<FenCursor>, c: char)
    ensures
        fen_run(st, seq![c]) == match st {
            Some(s) => fen_step(s, c),
            None => None,
        },
{
    assert(seq![c].drop_last() =~= Seq::<char>::empty());
    assert(fen_run(st, seq![c].drop_last()) == st);
    assert(seq![c].last() == c);
}

/// A piece's FEN letter reads back as the piece, and is no digit, '/' or space.
proof fn lemma_piece_letter(pc: Piece)
    ensures
        letter_piece(piece_letter(pc)) == Some(pc),
        piece_letter(pc) != '/',
        piece_letter(pc) != ' ',
        !('1' <= piece_letter(pc) <= '8'),
{
    match pc.0 {
        PieceType::Pawn => {},
        PieceType::Knight => {},
        PieceType::Bishop => {},
        PieceType::Rook => {},
        PieceType::Queen => {},
        PieceType::King => {},
    }
}

/// The count of a run of one to eight empty squares is one digit.
proof fn lemma_run_digit(run: int)
    requires
        1 <= run <= 8,
    ensures
        run_text(run as nat) == seq![digit_char(run)],
        '1' <= digit_char(run) <= '8',
        (digit_char(run) as int) - 48 == run,
{
    assert(digit_char(run) as int == run + 48);
}

/// Where reading a row stands before `file` when `run` empty squares before it are not yet written.
spec fn row_cursor(file: int, run: int) -> int {
    if file - run < 8 {
        file - run
    } else {
        7
    }
}

/// Reading the text of a row from `file` on fills the pieces of the row from `file` on.
proof fn lemma_scan_row(p: Place, rank: int, file: int, run: int, sq: Seq<Option<Piece>>)
    requires
        0 <= rank < 8,
        0 <= run <= file <= 8,
        forall|j: int| file - run <= j < file ==> (#[trigger] p(rank * 8 + j)) is None,
        sq.len() == 64,
    ensures
        fen_run(Some((rank, row_cursor(file, run), sq)), row_text(p, rank, file, run as nat)) matches Some(st)
            && st.0 == rank && st.2.len() == 64 && forall|i: int|
            0 <= i < 64 ==> #[trigger] st.2[i] == if rank * 8 + file <= i < rank * 8 + 8 && p(i) is Some {
                p(i)
            } else {
                sq[i]
            },
    decreases 8 - file,
{
    let st0 = Some((rank, row_cursor(file, run), sq));
    if file >= 8 {
        if run == 0 {
            assert(run_text(0) =~= Seq::<char>::empty());
        } else {
            lemma_run_digit(run);
            lemma_run_one(st0, digit_char(run));
        }
    } else {
        match p(rank * 8 + file) {
            Some(pc) => {
                let a = run_text(run as nat);
                let l = piece_letter(pc);
                let rest = row_text(p, rank, file + 1, 0);
                assert(row_text(p, rank, file, run as nat) == a + seq![l] + rest);
                let st1 = Some((rank, file, sq));
                if run == 0 {
                    assert(a =~= Seq::<char>::empty());
                    assert(fen_run(st0, a) == st1);
                } else {
                    lemma_run_digit(run);
                    lemma_run_one(st0, digit_char(run));
                    assert(fen_run(st0, a) == st1);
                }
                lemma_piece_letter(pc);
                lemma_run_one(st1, l);
                let sq2 = sq.update(rank * 8 + file, Some(pc));
                let st2 = Some((rank, row_cursor(file + 1, 0), sq2));
                assert(fen_run(st1, seq![l]) == st2);
                lemma_run_append(st0, a, seq![l]);
                lemma_run_append(st0, a + seq![l], rest);
                lemma_scan_row(p, rank, file + 1, 0, sq2);
            },
            None => {
                assert(row_text(p, rank, file, run as nat) == row_text(p, rank, file + 1, (run + 1) as nat));
                assert(row_cursor(file + 1, run + 1) == row_cursor(file, run));
                lemma_scan_row(p, rank, file + 1, run + 1, sq);
            },
        }
    }
}

/// Reading the ranks from the eighth down to `rank` fills those ranks as the place holds them.
proof fn lemma_scan_rows(p: Place, rank: int)
    requires
        0 <= rank <= 7,
    ensures
        fen_scan(rows_text(p, rank)) matches Some(st) && st.0 == rank && st.2.len() == 64 && forall|i: int|
            0 <= i < 64 ==> #[trigger] st.2[i] == if i >= rank * 8 {
                p(i)
            } else {
                None
            },
    decreases 7 - rank,
{
    let none64 = Seq::new(64, |i: int| None::<Piece>);
    if rank >= 7 {
        lemma_scan_is_run(row_text(p, 7, 0, 0));
        lemma_scan_row(p, 7, 0, 0, none64);
    } else {
        lemma_scan_rows(p, rank + 1);
        let a = rows_text(p, rank + 1);
        let row = row_text(p, rank, 0, 0);
        let st = fen_scan(a).unwrap();
        lemma_scan_is_run(a);
        lemma_scan_is_run(rows_text(p, rank));
        assert(rows_text(p, rank) == a + seq!['/'] + row);
        lemma_run_append(Some((7, 0, none64)), a, seq!['/']);
        lemma_run_append(Some((7, 0, none64)), a + seq!['/'], row);
        lemma_run_one(Some(st), '/');
        lemma_scan_row(p, rank, 0, 0, st.2);
    }
}

/// Two texts without a character joined have none either.
proof fn lemma_concat_lacks(a: Seq<char>, b: Seq<char>, c: char)
    requires
        !a.contains(c),
        !b.contains(c),
    ensures
        !(a + b).contains(c),
{
    if (a + b).contains(c) {
        let i = choose|i: int| 0 <= i < (a + b).len() && (a + b)[i] == c;
        if i < a.len() {
            assert(a[i] == c);
        } else {
            assert(b[i - a.len()] == c);
        }
    }
}

/// The text of a row has no space.
proof fn lemma_row_no_space(p: Place, rank: int, file: int, run: int)
    requires
        0 <= run <= file <= 8,
    ensures
        !row_text(p, rank, file, run as nat).contains(' '),
    decreases 8 - file,
{
    assert(!run_text(run as nat).contains(' ')) by {
        if run > 0 {
            lemma_run_digit(run);
            if run_text(run as nat).contains(' ') {
                assert(run_text(run as nat)[0] == ' ');
            }
        }
    }
    if file < 8 {
        match p(rank * 8 + file) {
            Some(pc) => {
                lemma_piece_letter(pc);
                lemma_row_no_space(p, rank, file + 1, 0);
                assert(!seq![piece_letter(pc)].contains(' ')) by {
                    if seq![piece_letter(pc)].contains(' ') {
                        assert(seq![piece_letter(pc)][0] == ' ');
                    }
                }
                lemma_concat_lacks(run_text(run as nat), seq![piece_letter(pc)], ' ');
                lemma_concat_lacks(run_text(run as nat) + seq![piece_letter(pc)], row_text(p, rank, file + 1, 0), ' ');
            },
            None => {
                lemma_row_no_space(p, rank, file + 1, run + 1);
            },
        }
    }
}

/// The text of the ranks has no space.
proof fn lemma_rows_no_space(p: Place, rank: int)
    ensures
        !rows_text(p, rank).contains(' '),
    decreases 7 - rank,
{
    if rank >= 7 {
        lemma_row_no_space(p, 7, 0, 0);
    } else {
        lemma_row_no_space(p, rank, 0, 0);
        lemma_rows_no_space(p, rank + 1);
        assert(!seq!['/'].contains(' ')) by {
            if seq!['/'].contains(' ') {
                assert(seq!['/'][0] == ' ');
            }
        }
        lemma_concat_lacks(rows_text(p, rank + 1), seq!['/'], ' ');
        lemma_concat_lacks(rows_text(p, rank + 1) + seq!['/'], row_text(p, rank, 0, 0), ' ');
    }
}

/// The castling field has no space, and it grants exactly the rights it was written from.
proof fn lemma_castling_text(white: CastlingRights, black: CastlingRights)
    ensures
        !castling_text(white, black).contains(' '),
        CastlingRights::from_sides(castling_text(white, black).contains('K'), castling_text(white, black).contains('Q')) == white,
        CastlingRights::from_sides(castling_text(white, black).contains('k'), castling_text(white, black).contains('q')) == black,
{
    let t = castling_text(white, black);
    let w = white.letters_spec().map_values(|c: char| ((c as int) - 32) as char);
    if !(white == CastlingRights::Neither && black == CastlingRights::Neither) {
        assert(t == w + black.letters_spec());
    }
    assert(forall|i: int| 0 <= i < t.len() ==> t[i] == '-' || t[i] == 'K' || t[i] == 'Q' || t[i] == 'k' || t[i] == 'q') by {
        match white {
            CastlingRights::Neither => {},
            CastlingRights::QueenSide => {},
            CastlingRights::KingSide => {},
            CastlingRights::BothSides => {},
        }
    }
    assert(t.contains('K') <==> white.kingside_spec()) by {
        if white.kingside_spec() {
            assert(t[0] == 'K');
        }
    }
    assert(t.contains('Q') <==> white.queenside_spec()) by {
        if white.queenside_spec() {
            assert(t[w.len() - 1] == 'Q');
        }
    }
    assert(t.contains('k') <==> black.kingside_spec()) by {
        if black.kingside_spec() {
            assert(t[w.len() as int] == 'k');
        }
    }
    assert(t.contains('q') <==> black.queenside_spec()) by {
        if black.queenside_spec() {
            assert(t[t.len() - 1] == 'q');
        }
    }
    white.lemma_from_sides();
    black.lemma_from_sides();
}

/// Reading the FEN text of a builder gives the builder back: the text is accepted, and what it
/// describes is exactly the builder.
pub proof fn lemma_fen_round_trip(b: BoardBuilder)
    ensures
        fen_accepts(fen_text(b)),
        fen_describes(fen_text(b), b),
{
    let rows = rows_text(b.place(), 0);
    let side = seq![if b.side_spec() == Color::White { 'w' } else { 'b' }];
    let castl = castling_text(b.rights_spec(Color::White), b.rights_spec(Color::Black));
    let ep = match b.ep_spec() {
        Some(s) => s.name_spec(),
        None => seq!['-'],
    };
    let h = decimal(b.halfmoves_spec() as nat);
    let f = decimal(b.fullmoves_spec() as nat);
    let text = fen_text(b);
    assert(text =~= ((((rows.push(' ') + side).push(' ') + castl).push(' ') + ep).push(' ') + h).push(' ') + f);
    lemma_rows_no_space(b.place(), 0);
    lemma_castling_text(b.rights_spec(Color::White), b.rights_spec(Color::Black));
    crate::text::lemma_decimal_unsigned(b.halfmoves_spec() as nat);
    crate::text::lemma_decimal_unsigned(b.fullmoves_spec() as nat);
    assert(!side.contains(' ')) by {
        if side.contains(' ') {
            assert(side[0] == ' ');
        }
    }
    assert(!ep.contains(' ')) by {
        match b.ep_spec() {
            Some(s) => {
                if ep.contains(' ') {
                    let i = choose|i: int| 0 <= i < ep.len() && ep[i] == ' ';
                    crate::board_moves::lemma_square_name_chars(s);
                }
            },
            None => {
                if ep.contains(' ') {
                    assert(ep[0] == ' ');
                }
            },
        }
    }
    crate::text::lemma_split_on_whole(rows, ' ');
    crate::text::lemma_split_on_field(rows, side, ' ');
    crate::text::lemma_split_on_field(rows.push(' ') + side, castl, ' ');
    crate::text::lemma_split_on_field((rows.push(' ') + side).push(' ') + castl, ep, ' ');
    crate::text::lemma_split_on_field(((rows.push(' ') + side).push(' ') + castl).push(' ') + ep, h, ' ');
    crate::text::lemma_split_on_field((((rows.push(' ') + side).push(' ') + castl).push(' ') + ep).push(' ') + h, f, ' ');
    let t = split_on(text, ' ');
    assert(t =~= seq![rows, side, castl, ep, h, f]);
    lemma_scan_rows(b.place(), 0);
    let st = fen_scan(rows).unwrap();
    assert forall|i: int| #[trigger] b.square_spec(i) == if 0 <= i < 64 { st.2[i] } else { None } by {
        if 0 <= i < 64 {
            assert(st.2[i] == b.place()(i));
        } else {
            b.lemma_off_board(i);
        }
    }
    match b.ep_spec() {
        Some(s) => {
            Square::lemma_name_round_trip(s);
        },
        None => {
            assert(!(exists|sq: Square| #[trigger] sq.name_spec() == seq!['-'])) by {
                if exists|sq: Square| #[trigger] sq.name_spec() == seq!['-'] {
                    let sq = choose|sq: Square| #[trigger] sq.name_spec() == seq!['-'];
                    assert(sq.name_spec().len() == 2);
                }
            }
        },
    }
}

/// The text of a row depends only on what stands on that row.
proof fn lemma_row_text_local(p1: Place, p2: Place, rank: int, file: int, run: nat)
    requires
        forall|j: int| file <= j < 8 ==> #[trigger] p1(rank * 8 + j) == p2(rank * 8 + j),
    ensures
        row_text(p1, rank, file, run) == row_text(p2, rank, file, run),
    decreases 8 - file,
{
    if file < 8 {
        assert(p1(rank * 8 + file) == p2(rank * 8 + file));
        lemma_row_text_local(p1, p2, rank, file + 1, 0);
        lemma_row_text_local(p1, p2, rank, file + 1, run + 1);
    }
}

/// The text of the ranks from the eighth down to `rank` depends only on what stands on those
/// ranks.
proof fn lemma_rows_text_local(p1: Place, p2: Place, rank: int)
    requires
        0 <= rank,
        forall|i: int| 0 <= i < 64 ==> #[trigger] p1(i) == p2(i),
    ensures
        rows_text(p1, rank) == rows_text(p2, rank),
    decreases 7 - rank,
{
    if rank >= 7 {
        assert forall|j: int| 0 <= j < 8 implies #[trigger] p1(7 * 8 + j) == p2(7 * 8 + j) by {
            assert(p1(56 + j) == p2(56 + j));
        }
        lemma_row_text_local(p1, p2, 7, 0, 0);
    } else {
        assert forall|j: int| 0 <= j < 8 implies #[trigger] p1(rank * 8 + j) == p2(rank * 8 + j) by {
            assert(0 <= rank * 8 + j < 64);
        }
        lemma_row_text_local(p1, p2, rank, 0, 0);
        lemma_rows_text_local(p1, p2, rank + 1);
    }
}

/// A FEN text in the form that `as_fen` writes: the piece field with each run of empty squares
/// as one digit, the side as "w" or "b", the castling letters in the order "KQkq" (or "-"), an
/// en-passant field that is "-" or a square's name, and both counters in plain decimal, each
/// field separated from the next by one space.
pub open spec fn canonical_fen(s: Seq<char>) -> bool {
    let t = split_on(s, ' ');
    &&& t.len() == 6
    &&& exists|p: Place| #[trigger] rows_text(p, 0) == t[0]
    &&& (t[1] == seq!['w'] || t[1] == seq!['b'])
    &&& exists|w: CastlingRights, k: CastlingRights| #[trigger] castling_text(w, k) == t[2]
    &&& (t[3] == seq!['-'] || exists|sq: Square| #[trigger] sq.name_spec() == t[3])
    &&& exists|n: nat| n <= usize::MAX && #[trigger] decimal(n) == t[4]
    &&& exists|n: nat| n <= usize::MAX && #[trigger] decimal(n) == t[5]
}

/// A FEN text in canonical form is accepted, and the FEN text of what it describes is the text
/// itself: reading it and writing the result gives it back unchanged.
#[verifier::spinoff_prover]
#[verifier::rlimit(40)]
pub proof fn lemma_canonical_fen_round_trip(s: Seq<char>, b: BoardBuilder)
    requires
        canonical_fen(s),
    ensures
        fen_accepts(s),
        !fen_unreadable(s),
        fen_describes(s, b) ==> fen_text(b) == s,
{
    let t = split_on(s, ' ');
    assert(!crate::coordinates::square_text_unreadable(t[3])) by {
        if t[3] != seq!['-'] {
            let sq = choose|sq: Square| #[trigger] sq.name_spec() == t[3];
            assert(sq.name_spec().len() == 2);
        } else {
            assert(t[3][0] == '-');
        }
    }
    let p = choose|p: Place| #[trigger] rows_text(p, 0) == t[0];
    lemma_scan_rows(p, 0);
    let n4 = choose|n: nat| n <= usize::MAX && #[trigger] decimal(n) == t[4];
    let n5 = choose|n: nat| n <= usize::MAX && #[trigger] decimal(n) == t[5];
    crate::text::lemma_decimal_unsigned(n4);
    crate::text::lemma_decimal_unsigned(n5);
    if fen_describes(s, b) {
        let st = fen_scan(t[0]).unwrap();
        assert forall|i: int| 0 <= i < 64 implies #[trigger] b.place()(i) == p(i) by {
            assert(b.square_spec(i) == st.2[i]);
        }
        lemma_rows_text_local(b.place(), p, 0);
        let (w, k) = choose|w: CastlingRights, k: CastlingRights| #[trigger] castling_text(w, k) == t[2];
        lemma_castling_text(w, k);
        assert(b.rights_spec(Color::White) == w);
        assert(b.rights_spec(Color::Black) == k);
        let side = seq![if b.side_spec() == Color::White { 'w' } else { 'b' }];
        assert(side == t[1]);
        let ep = match b.ep_spec() {
            Some(q) => q.name_spec(),
            None => seq!['-'],
        };
        assert(ep == t[3]) by {
            if t[3] == seq!['-'] {
                if exists|sq: Square| #[trigger] sq.name_spec() == seq!['-'] {
                    let sq = choose|sq: Square| #[trigger] sq.name_spec() == seq!['-'];
                    assert(sq.name_spec().len() == 2);
                }
                assert(named_square(t[3]) is None);
            } else {
                assert(named_square(t[3]) is Some);
            }
        }
        assert(b.halfmoves_spec() as nat == n4);
        assert(b.fullmoves_spec() as nat == n5);
        crate::text::lemma_join_split(s, ' ');
        let j = crate::text::join_on(t, ' ');
        assert(t.drop_last().drop_last().drop_last().drop_last().drop_last() =~= seq![t[0]]);
        assert(j == crate::text::join_on(t.drop_last(), ' ').push(' ') + t[5]);
        assert(crate::text::join_on(t.drop_last(), ' ') == crate::text::join_on(t.drop_last().drop_last(), ' ').push(' ') + t[4]);
        assert(crate::text::join_on(t.drop_last().drop_last(), ' ') == crate::text::join_on(t.drop_last().drop_last().drop_last(), ' ').push(' ') + t[3]);
        assert(crate::text::join_on(t.drop_last().drop_last().drop_last(), ' ') == crate::text::join_on(t.drop_last().drop_last().drop_last().drop_last(), ' ').push(' ') + t[2]);
        assert(crate::text::join_on(t.drop_last().drop_last().drop_last().drop_last(), ' ') == crate::text::join_on(t.drop_last().drop_last().drop_last().drop_last().drop_last(), ' ').push(' ') + t[1]);
        assert(crate::text::join_on(t.drop_last().drop_last().drop_last().drop_last().drop_last(), ' ') == t[0]);
        assert(fen_text(b) =~= s);
    }
}

/// The FEN text of every builder is in canonical form.
pub proof fn lemma_fen_text_canonical(b: BoardBuilder)
    ensures
        canonical_fen(fen_text(b)),
{
    let rows = rows_text(b.place(), 0);
    let side = seq![if b.side_spec() == Color::White { 'w' } else { 'b' }];
    let castl = castling_text(b.rights_spec(Color::White), b.rights_spec(Color::Black));
    let ep = match b.ep_spec() {
        Some(s) => s.name_spec(),
        None => seq!['-'],
    };
    let h = decimal(b.halfmoves_spec() as nat);
    let f = decimal(b.fullmoves_spec() as nat);
    let text = fen_text(b);
    assert(text =~= ((((rows.push(' ') + side).push(' ') + castl).push(' ') + ep).push(' ') + h).push(' ') + f);
    lemma_rows_no_space(b.place(), 0);
    lemma_castling_text(b.rights_spec(Color::White), b.rights_spec(Color::Black));
    crate::text::lemma_decimal_unsigned(b.halfmoves_spec() as nat);
    crate::text::lemma_decimal_unsigned(b.fullmoves_spec() as nat);
    assert(!side.contains(' ')) by {
        if side.contains(' ') {
            assert(side[0] == ' ');
        }
    }
    assert(!ep.contains(' ')) by {
        match b.ep_spec() {
            Some(s) => {
                if ep.contains(' ') {
                    let i = choose|i: int| 0 <= i < ep.len() && ep[i] == ' ';
                    crate::board_moves::lemma_square_name_chars(s);
                }
            },
            None => {
                if ep.contains(' ') {
                    assert(ep[0] == ' ');
                }
            },
        }
    }
    crate::text::lemma_split_on_whole(rows, ' ');
    crate::text::lemma_split_on_field(rows, side, ' ');
    crate::text::lemma_split_on_field(rows.push(' ') + side, castl, ' ');
    crate::text::lemma_split_on_field((rows.push(' ') + side).push(' ') + castl, ep, ' ');
    crate::text::lemma_split_on_field(((rows.push(' ') + side).push(' ') + castl).push(' ') + ep, h, ' ');
    crate::text::lemma_split_on_field((((rows.push(' ') + side).push(' ') + castl).push(' ') + ep).push(' ') + h, f, ' ');
    let t = split_on(text, ' ');
    assert(t =~= seq![rows, side, castl, ep, h, f]);
    assert(rows_text(b.place(), 0) == t[0]);
    assert(castling_text(b.rights_spec(Color::White), b.rights_spec(Color::Black)) == t[2]);
    match b.ep_spec() {
        Some(q) => {
            assert(q.name_spec() == t[3]);
        },
        None => {},
    }
    assert(decimal(b.halfmoves_spec() as nat) == t[4]);
    assert(decimal(b.fullmoves_spec() as nat) == t[5]);
}

/// The square that a two-character name denotes.
pub open spec fn named_square(t: Seq<char>) -> Option<Square> {
    if exists|sq: Square| #[trigger] sq.name_spec() == t {
        Some(choose|sq: Square| #[trigger] sq.name_spec() == t)
    } else {
        None
    }
}

/// A FEN text that `BoardBuilder::from_str` accepts: six fields separated by single spaces, a
/// piece field that reads without error, a side field of "w", "W", "b" or "B", and two counters
/// that `usize::from_str` reads.
pub open spec fn fen_accepts(s: Seq<char>) -> bool {
    let t = split_on(s, ' ');
    &&& t.len() == 6
    &&& fen_scan(t[0]) is Some
    &&& (t[1] == seq!['w'] || t[1] == seq!['W'] || t[1] == seq!['b'] || t[1] == seq!['B'])
    &&& unsigned_text(t[4]) && unsigned_value(t[4]) <= usize::MAX
    &&& unsigned_text(t[5]) && unsigned_value(t[5]) <= usize::MAX
}

/// The builder that an accepted FEN text describes. The castling field grants a side when it
/// contains its letter anywhere; an en-passant field that names no square means none.
pub open spec fn fen_describes(s: Seq<char>, b: BoardBuilder) -> bool {
    let t = split_on(s, ' ');
    let squares = fen_scan(t[0]).unwrap().2;
    &&& forall|i: int| #[trigger] b.square_spec(i) == if 0 <= i < 64 { squares[i] } else { None }
    &&& b.side_spec() == if t[1] == seq!['w'] || t[1] == seq!['W'] {
        Color::White
    } else {
        Color::Black
    }
    &&& b.rights_spec(Color::White) == CastlingRights::from_sides(t[2].contains('K'), t[2].contains('Q'))
    &&& b.rights_spec(Color::Black) == CastlingRights::from_sides(t[2].contains('k'), t[2].contains('q'))
    &&& b.ep_spec() == named_square(t[3])
    &&& b.halfmoves_spec() == unsigned_value(t[4])
    &&& b.fullmoves_spec() == unsigned_value(t[5])
}

proof fn lemma_scan_push(cs: Seq<char>, i: int)
    requires
        0 <= i < cs.len(),
    ensures
        fen_scan(cs.subrange(0, i + 1)) == match fen_scan(cs.subrange(0, i)) {
            Some(st) => fen_step(st, cs[i]),
            None => None,
        },
{
    assert(cs.subrange(0, i + 1).drop_last() =~= cs.subrange(0, i));
}

proof fn lemma_scan_stays_failed(cs: Seq<char>, i: int)
    requires
        0 <= i <= cs.len(),
        fen_scan(cs.subrange(0, i)) is None,
    ensures
        fen_scan(cs) is None,
    decreases cs.len() - i,
{
    if i < cs.len() {
        lemma_scan_push(cs, i);
        lemma_scan_stays_failed(cs, i + 1);
    } else {
        assert(cs.subrange(0, i) =~= cs);
    }
}

/// The piece that a FEN letter names.
fn letter_piece_exec(c: char) -> (r: Option<Piece>)
    ensures
        r == letter_piece(c),
{
    match c {
        'P' => Some(Piece(PieceType::Pawn, Color::White)),
        'N' => Some(Piece(PieceType::Knight, Color::White)),
        'B' => Some(Piece(PieceType::Bishop, Color::White)),
        'R' => Some(Piece(PieceType::Rook, Color::White)),
        'Q' => Some(Piece(PieceType::Queen, Color::White)),
        'K' => Some(Piece(PieceType::King, Color::White)),
        'p' => Some(Piece(PieceType::Pawn, Color::Black)),
        'n' => Some(Piece(PieceType::Knight, Color::Black)),
        'b' => Some(Piece(PieceType::Bishop, Color::Black)),
        'r' => Some(Piece(PieceType::Rook, Color::Black)),
        'q' => Some(Piece(PieceType::Queen, Color::Black)),
        'k' => Some(Piece(PieceType::King, Color::Black)),
        _ => None,
    }
}

/// Reads the piece field of a FEN text.
fn scan_pieces(t: &str) -> (r: Option<[Option<Piece>; 64]>)
    ensures
        r is Some <==> fen_scan(t@) is Some,
        r matches Some(a) ==> a@ == fen_scan(t@).unwrap().2,
{
    let n = t.unicode_len();
    let mut squares: [Option<Piece>; 64] = [None; 64];
    let mut rank: usize = 7;
    let mut file: usize = 0;
    let mut i: usize = 0;
    assert(t@.subrange(0, 0) =~= Seq::<char>::empty());
    assert(squares@ =~= Seq::new(64, |i: int| None::<Piece>));
    while i < n
        invariant
            i <= n,
            n == t@.len(),
            rank < 8,
            file < 8,
            fen_scan(t@.subrange(0, i as int)) == Some((rank as int, file as int, squares@)),
        decreases n - i,
    {
        let c = t.get_char(i);
        proof {
            lemma_scan_push(t@, i as int);
        }
        if c == '/' {
            if rank == 0 {
                proof {
                    lemma_scan_stays_failed(t@, i + 1);
                }
                return None;
            }
            rank = rank - 1;
            file = 0;
        } else if '1' <= c && c <= '8' {
            let d = ((c as u32) - 48) as usize;
            if file + d < 8 {
                file = file + d;
            }
        } else {
            match letter_piece_exec(c) {
                Some(pc) => {
                    squares.set(rank * 8 + file, Some(pc));
                    if file < 7 {
                        file = file + 1;
                    }
                },
                None => {
                    proof {
                        lemma_scan_stays_failed(t@, i + 1);
                    }
                    return None;
                },
            }
        }
        i = i + 1;
    }
    assert(t@.subrange(0, n as int) =~= t@);
    Some(squares)
}

/// The error for a FEN text that does not read.
fn fen_error(value: &str) -> (r: LibChessError)
    ensures
        r matches LibChessError::InvalidFENString { s } && s@ == value@,
{
    LibChessError::InvalidFENString { s: copy_str(value) }
}

/// The FEN texts on which reading stops without an answer: a text accepted in all else whose
/// en-passant field is a single two-byte character.
pub open spec fn fen_unreadable(s: Seq<char>) -> bool {
    fen_accepts(s) && crate::coordinates::square_text_unreadable(split_on(s, ' ')[3])
}

impl BoardBuilder {
    /// Reads a FEN text.
    pub fn from_str(value: &str) -> (r: Result<BoardBuilder, LibChessError>)
        requires
            !fen_unreadable(value@),
        ensures
            r is Ok <==> fen_accepts(value@),
            r matches Ok(b) ==> fen_describes(value@, b),
            r matches Err(e) ==> (e matches LibChessError::InvalidFENString { s } && s@ == value@),
    {
        BoardBuilder::read_fen(value)
    }

    /// Whether `from_str` reads `value` (see `fen_unreadable`).
    pub fn is_readable(value: &str) -> (r: bool)
        ensures
            r == !fen_unreadable(value@),
    {
        if BoardBuilder::read_fen(value).is_err() {
            return true;
        }
        let tokens = split_at_char(value, ' ');
        proof {
            let t = split_on(value@, ' ');
            assert(tokens@.len() == t.len());
            assert(t[3] == tokens@[3]@);
        }
        Square::is_readable(tokens[3].as_str())
    }

    /// Reads a FEN text; an en-passant field that names no square means none.
    pub(crate) fn read_fen(value: &str) -> (r: Result<BoardBuilder, LibChessError>)
        ensures
            r is Ok <==> fen_accepts(value@),
            r matches Ok(b) ==> fen_describes(value@, b),
            r matches Err(e) ==> (e matches LibChessError::InvalidFENString { s } && s@ == value@),
    {
        let tokens = split_at_char(value, ' ');
        let ghost t = split_on(value@, ' ');
        proof {
            assert(tokens@.len() == t.len());
            assert forall|k: int| 0 <= k < t.len() implies #[trigger] t[k] == tokens@[k]@ by {}
        }
        if tokens.len() != 6 {
            return Err(fen_error(value));
        }
        let half = match parse_usize(tokens[4].as_str()) {
            Some(v) => v,
            None => return Err(fen_error(value)),
        };
        let full = match parse_usize(tokens[5].as_str()) {
            Some(v) => v,
            None => return Err(fen_error(value)),
        };
        let squares = match scan_pieces(tokens[0].as_str()) {
            Some(a) => a,
            None => return Err(fen_error(value)),
        };
        let side_token = tokens[1].as_str();
        let side = if side_token.unicode_len() != 1 {
            return Err(fen_error(value));
        } else {
            let c = side_token.get_char(0);
            proof {
                assert(side_token@ =~= seq![c]);
            }
            if c == 'w' || c == 'W' {
                Color::White
            } else if c == 'b' || c == 'B' {
                Color::Black
            } else {
                return Err(fen_error(value));
            }
        };
        let castles = tokens[2].as_str();
        let white = CastlingRights::from_bits(str_contains(castles, 'K'), str_contains(castles, 'Q'));
        let black = CastlingRights::from_bits(str_contains(castles, 'k'), str_contains(castles, 'q'));
        let en_passant = match Square::read_name(tokens[3].as_str()) {
            Ok(sq) => Some(sq),
            Err(_) => None,
        };
        proof {
            let e = tokens@[3]@;
            match en_passant {
                Some(sq) => {
                    assert(sq.name_spec() == e);
                    let other = choose|x: Square| #[trigger] x.name_spec() == e;
                    Square::lemma_name_injective(sq, other);
                },
                None => {
                    if exists|x: Square| #[trigger] x.name_spec() == e {
                        let x = choose|x: Square| #[trigger] x.name_spec() == e;
                        assert(File::from_idx(x.file_idx()).char_spec() == e[0]);
                        assert(Rank::from_idx(x.rank_idx()).char_spec() == e[1]);
                    }
                },
            }
        }
        let b = BoardBuilder {
            pieces: squares,
            side_to_move: side,
            castle_rights: [white, black],
            en_passant,
            moves_since_capture_or_pawn_move: half,
            move_number: full,
        };
        Ok(b)
    }
}

impl core::str::FromStr for BoardBuilder {
    type Err = LibChessError;

    fn from_str(value: &str) -> (r: Result<BoardBuilder, LibChessError>)
        ensures
            r is Ok <==> fen_accepts(value@),
            r matches Ok(b) ==> fen_describes(value@, b),
            r matches Err(e) ==> (e matches LibChessError::InvalidFENString { s } && s@ == value@),
    {
        BoardBuilder::read_fen(value)
    }
}

/// The kind of the piece that starts on file `f` of a back rank.
pub open spec fn back_rank_kind(f: int) -> PieceType {
    if f == 0 || f == 7 {
        PieceType::Rook
    } else if f == 1 || f == 6 {
        PieceType::Knight
    } else if f == 2 || f == 5 {
        PieceType::Bishop
    } else if f == 3 {
        PieceType::Queen
    } else {
        PieceType::King
    }
}

/// What stands on square `i` in the starting position.
pub open spec fn start_piece(i: int) -> Option<Piece> {
    if 0 <= i < 8 {
        Some(Piece(back_rank_kind(i % 8), Color::White))
    } else if 8 <= i < 16 {
        Some(Piece(PieceType::Pawn, Color::White))
    } else if 48 <= i < 56 {
        Some(Piece(PieceType::Pawn, Color::Black))
    } else if 56 <= i < 64 {
        Some(Piece(back_rank_kind(i % 8), Color::Black))
    } else {
        None
    }
}

fn start_piece_exec(i: usize) -> (r: Option<Piece>)
    requires
        i < 64,
    ensures
        r == start_piece(i as int),
{
    let kind = match i % 8 {
        0 | 7 => PieceType::Rook,
        1 | 6 => PieceType::Knight,
        2 | 5 => PieceType::Bishop,
        3 => PieceType::Queen,
        _ => PieceType::King,
    };
    if i < 8 {
        Some(Piece(kind, Color::White))
    } else if i < 16 {
        Some(Piece(PieceType::Pawn, Color::White))
    } else if i < 48 {
        None
    } else if i < 56 {
        Some(Piece(PieceType::Pawn, Color::Black))
    } else {
        Some(Piece(kind, Color::Black))
    }
}

impl Default for BoardBuilder {
    /// The starting position: white to move, all castling rights, no en-passant square, move 1.
    fn default() -> (r: BoardBuilder)
        ensures
            forall|i: int| #[trigger] r.square_spec(i) == start_piece(i),
            r.side_spec() == Color::White,
            r.rights_spec(Color::White) == CastlingRights::BothSides,
            r.rights_spec(Color::Black) == CastlingRights::BothSides,
            r.ep_spec() is None,
            r.halfmoves_spec() == 0,
            r.fullmoves_spec() == 1,
    {
        let mut pieces: [Option<Piece>; 64] = [None; 64];
        let mut i: usize = 0;
        while i < 64
            invariant
                i <= 64,
                forall|j: int| 0 <= j < 64 ==> #[trigger] pieces@[j] == if j < i { start_piece(j) } else { None },
            decreases 64 - i,
        {
            pieces.set(i, start_piece_exec(i));
            i = i + 1;
        }
        BoardBuilder {
            pieces,
            side_to_move: Color::White,
            castle_rights: [CastlingRights::BothSides, CastlingRights::BothSides],
            en_passant: None,
            moves_since_capture_or_pawn_move: 0,
            move_number: 1,
        }
    }
}

/// The builder holds the parts of the board.
pub open spec fn builder_of_board(b: BoardBuilder, board: crate::chess_boards::ChessBoard) -> bool {
    &&& forall|i: int| 0 <= i < 64 ==> #[trigger] b.square_spec(i) == board.place()(i)
    &&& b.side_spec() == board.side()
    &&& b.rights_spec(Color::White) == board.rights(Color::White)
    &&& b.rights_spec(Color::Black) == board.rights(Color::Black)
    &&& b.ep_spec() == board.ep()
    &&& b.halfmoves_spec() == board.halfmoves()
    &&& b.fullmoves_spec() == board.fullmoves()
}

/// The FEN text of a board.
pub open spec fn board_fen(board: crate::chess_boards::ChessBoard) -> Seq<char> {
    fen_text(choose|b: BoardBuilder| builder_of_board(b, board))
}

impl BoardBuilder {
    /// Builders with the same parts are equal.
    pub proof fn lemma_same_parts(b1: BoardBuilder, b2: BoardBuilder, board: crate::chess_boards::ChessBoard)
        requires
            builder_of_board(b1, board),
            builder_of_board(b2, board),
        ensures
            b1 == b2,
    {
        assert(b1.pieces =~= b2.pieces) by {
            assert forall|i: int| 0 <= i < 64 implies b1.pieces@[i] == b2.pieces@[i] by {
                assert(b1.square_spec(i) == b2.square_spec(i));
            }
        }
        assert(b1.castle_rights =~= b2.castle_rights) by {
            assert(b1.castle_rights@[0] == b2.castle_rights@[0]);
            assert(b1.castle_rights@[1] == b2.castle_rights@[1]);
        }
    }

    /// The parts of a board.
    pub fn from_board(board: &crate::chess_boards::ChessBoard) -> (r: BoardBuilder)
        ensures
            builder_of_board(r, *board),
    {
        let mut pieces: [Option<Piece>; 64] = [None; 64];
        let mut i: usize = 0;
        while i < 64
            invariant
                i <= 64,
                forall|j: int| 0 <= j < 64 ==> #[trigger] pieces@[j] == if j < i { board.place()(j) } else { None },
            decreases 64 - i,
        {
            pieces.set(i, board.get_piece_on(Square::from_u8(i as u8)));
            i = i + 1;
        }
        BoardBuilder {
            pieces,
            side_to_move: board.get_side_to_move(),
            castle_rights: [board.get_castle_rights(Color::White), board.get_castle_rights(Color::Black)],
            en_passant: board.get_en_passant(),
            moves_since_capture_or_pawn_move: board.get_moves_since_capture_or_pawn_move(),
            move_number: board.get_move_number(),
        }
    }
}

impl From<crate::chess_boards::ChessBoard> for BoardBuilder {
    fn from(board: crate::chess_boards::ChessBoard) -> (r: BoardBuilder) {
        let r = BoardBuilder::from_board(&board);
        proof {
            let c = choose|b: BoardBuilder| builder_of_board(b, board);
            BoardBuilder::lemma_same_parts(r, c, board);
        }
        r
    }
}

impl vstd::std_specs::convert::FromSpecImpl<crate::chess_boards::ChessBoard> for BoardBuilder {
    open spec fn obeys_from_spec() -> bool {
        true
    }

    open spec fn from_spec(board: crate::chess_boards::ChessBoard) -> BoardBuilder {
        choose|b: BoardBuilder| builder_of_board(b, board)
    }
}

} // verus!
