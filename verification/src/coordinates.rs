use crate::board_files::File;
use crate::board_ranks::Rank;
use crate::errors::LibChessError;
use vstd::prelude::*;

verus! {

/// Number of squares on the board.
pub const SQUARES_NUMBER: usize = 64;

/// Rank (0..8) of a square index.
pub open spec fn rank_of(i: int) -> int {
    i / 8
}

/// File (0..8) of a square index.
pub open spec fn file_of(i: int) -> int {
    i % 8
}

/// Index of the square on a rank and a file.
pub open spec fn square_at(rank: int, file: int) -> int {
    rank * 8 + file
}

/// Whether a rank and a file both lie on the board.
pub open spec fn on_board(rank: int, file: int) -> bool {
    0 <= rank < 8 && 0 <= file < 8
}

/// A square of the board, numbered from a1 (0) along the ranks to h8 (63).
#[derive(Debug, Clone, Copy, PartialEq, Eq, Hash, Structural)]
pub enum Square {
    A1, B1, C1, D1, E1, F1, G1, H1, A2, B2, C2, D2, E2, F2, G2, H2, A3, B3, C3, D3, E3, F3, G3, H3, A4, B4, C4, D4, E4, F4, G4, H4, A5, B5, C5, D5, E5, F5, G5, H5, A6, B6, C6, D6, E6, F6, G6, H6, A7, B7, C7, D7, E7, F7, G7, H7, A8, B8, C8, D8, E8, F8, G8, H8,
}

impl Square {
    /// Index of the square (0 for a1, 63 for h8).
    pub open spec fn idx(self) -> int {
        match self {
            Square::A1 => 0,
            Square::B1 => 1,
            Square::C1 => 2,
            Square::D1 => 3,
            Square::E1 => 4,
            Square::F1 => 5,
            Square::G1 => 6,
            Square::H1 => 7,
            Square::A2 => 8,
            Square::B2 => 9,
            Square::C2 => 10,
            Square::D2 => 11,
            Square::E2 => 12,
            Square::F2 => 13,
            Square::G2 => 14,
            Square::H2 => 15,
            Square::A3 => 16,
            Square::B3 => 17,
            Square::C3 => 18,
            Square::D3 => 19,
            Square::E3 => 20,
            Square::F3 => 21,
            Square::G3 => 22,
            Square::H3 => 23,
            Square::A4 => 24,
            Square::B4 => 25,
            Square::C4 => 26,
            Square::D4 => 27,
            Square::E4 => 28,
            Square::F4 => 29,
            Square::G4 => 30,
            Square::H4 => 31,
            Square::A5 => 32,
            Square::B5 => 33,
            Square::C5 => 34,
            Square::D5 => 35,
            Square::E5 => 36,
            Square::F5 => 37,
            Square::G5 => 38,
            Square::H5 => 39,
            Square::A6 => 40,
            Square::B6 => 41,
            Square::C6 => 42,
            Square::D6 => 43,
            Square::E6 => 44,
            Square::F6 => 45,
            Square::G6 => 46,
            Square::H6 => 47,
            Square::A7 => 48,
            Square::B7 => 49,
            Square::C7 => 50,
            Square::D7 => 51,
            Square::E7 => 52,
            Square::F7 => 53,
            Square::G7 => 54,
            Square::H7 => 55,
            Square::A8 => 56,
            Square::B8 => 57,
            Square::C8 => 58,
            Square::D8 => 59,
            Square::E8 => 60,
            Square::F8 => 61,
            Square::G8 => 62,
            Square::H8 => 63,
        }
    }

    /// The square with index `i` (for `i` in 0..64).
    pub open spec fn from_idx(i: int) -> Square {
        if i == 0 { Square::A1 }
        else if i == 1 { Square::B1 }
        else if i == 2 { Square::C1 }
        else if i == 3 { Square::D1 }
        else if i == 4 { Square::E1 }
        else if i == 5 { Square::F1 }
        else if i == 6 { Square::G1 }
        else if i == 7 { Square::H1 }
        else if i == 8 { Square::A2 }
        else if i == 9 { Square::B2 }
        else if i == 10 { Square::C2 }
        else if i == 11 { Square::D2 }
        else if i == 12 { Square::E2 }
        else if i == 13 { Square::F2 }
        else if i == 14 { Square::G2 }
        else if i == 15 { Square::H2 }
        else if i == 16 { Square::A3 }
        else if i == 17 { Square::B3 }
        else if i == 18 { Square::C3 }
        else if i == 19 { Square::D3 }
        else if i == 20 { Square::E3 }
        else if i == 21 { Square::F3 }
        else if i == 22 { Square::G3 }
        else if i == 23 { Square::H3 }
        else if i == 24 { Square::A4 }
        else if i == 25 { Square::B4 }
        else if i == 26 { Square::C4 }
        else if i == 27 { Square::D4 }
        else if i == 28 { Square::E4 }
        else if i == 29 { Square::F4 }
        else if i == 30 { Square::G4 }
        else if i == 31 { Square::H4 }
        else if i == 32 { Square::A5 }
        else if i == 33 { Square::B5 }
        else if i == 34 { Square::C5 }
        else if i == 35 { Square::D5 }
        else if i == 36 { Square::E5 }
        else if i == 37 { Square::F5 }
        else if i == 38 { Square::G5 }
        else if i == 39 { Square::H5 }
        else if i == 40 { Square::A6 }
        else if i == 41 { Square::B6 }
        else if i == 42 { Square::C6 }
        else if i == 43 { Square::D6 }
        else if i == 44 { Square::E6 }
        else if i == 45 { Square::F6 }
        else if i == 46 { Square::G6 }
        else if i == 47 { Square::H6 }
        else if i == 48 { Square::A7 }
        else if i == 49 { Square::B7 }
        else if i == 50 { Square::C7 }
        else if i == 51 { Square::D7 }
        else if i == 52 { Square::E7 }
        else if i == 53 { Square::F7 }
        else if i == 54 { Square::G7 }
        else if i == 55 { Square::H7 }
        else if i == 56 { Square::A8 }
        else if i == 57 { Square::B8 }
        else if i == 58 { Square::C8 }
        else if i == 59 { Square::D8 }
        else if i == 60 { Square::E8 }
        else if i == 61 { Square::F8 }
        else if i == 62 { Square::G8 }
        else { Square::H8 }
    }

    pub broadcast proof fn lemma_idx_range(s: Square)
        ensures
            0 <= #[trigger] s.idx() < 64,
            Square::from_idx(s.idx()) == s,
    {
    }

    pub broadcast proof fn lemma_from_idx(i: int)
        requires
            0 <= i < 64,
        ensures
            (#[trigger] Square::from_idx(i)).idx() == i,
    {
    }

    /// The square with index `i`.
    pub(crate) fn from_u8(i: u8) -> (s: Square)
        requires
            i < 64,
        ensures
            s.idx() == i,
    {
        match i {
            0 => Square::A1,
            1 => Square::B1,
            2 => Square::C1,
            3 => Square::D1,
            4 => Square::E1,
            5 => Square::F1,
            6 => Square::G1,
            7 => Square::H1,
            8 => Square::A2,
            9 => Square::B2,
            10 => Square::C2,
            11 => Square::D2,
            12 => Square::E2,
            13 => Square::F2,
            14 => Square::G2,
            15 => Square::H2,
            16 => Square::A3,
            17 => Square::B3,
            18 => Square::C3,
            19 => Square::D3,
            20 => Square::E3,
            21 => Square::F3,
            22 => Square::G3,
            23 => Square::H3,
            24 => Square::A4,
            25 => Square::B4,
            26 => Square::C4,
            27 => Square::D4,
            28 => Square::E4,
            29 => Square::F4,
            30 => Square::G4,
            31 => Square::H4,
            32 => Square::A5,
            33 => Square::B5,
            34 => Square::C5,
            35 => Square::D5,
            36 => Square::E5,
            37 => Square::F5,
            38 => Square::G5,
            39 => Square::H5,
            40 => Square::A6,
            41 => Square::B6,
            42 => Square::C6,
            43 => Square::D6,
            44 => Square::E6,
            45 => Square::F6,
            46 => Square::G6,
            47 => Square::H6,
            48 => Square::A7,
            49 => Square::B7,
            50 => Square::C7,
            51 => Square::D7,
            52 => Square::E7,
            53 => Square::F7,
            54 => Square::G7,
            55 => Square::H7,
            56 => Square::A8,
            57 => Square::B8,
            58 => Square::C8,
            59 => Square::D8,
            60 => Square::E8,
            61 => Square::F8,
            62 => Square::G8,
            _ => Square::H8,
        }
    }

    /// Index of the square as a byte.
    pub fn to_int(&self) -> (r: u8)
        ensures
            r == self.idx(),
    {
        match self {
            Square::A1 => 0,
            Square::B1 => 1,
            Square::C1 => 2,
            Square::D1 => 3,
            Square::E1 => 4,
            Square::F1 => 5,
            Square::G1 => 6,
            Square::H1 => 7,
            Square::A2 => 8,
            Square::B2 => 9,
            Square::C2 => 10,
            Square::D2 => 11,
            Square::E2 => 12,
            Square::F2 => 13,
            Square::G2 => 14,
            Square::H2 => 15,
            Square::A3 => 16,
            Square::B3 => 17,
            Square::C3 => 18,
            Square::D3 => 19,
            Square::E3 => 20,
            Square::F3 => 21,
            Square::G3 => 22,
            Square::H3 => 23,
            Square::A4 => 24,
            Square::B4 => 25,
            Square::C4 => 26,
            Square::D4 => 27,
            Square::E4 => 28,
            Square::F4 => 29,
            Square::G4 => 30,
            Square::H4 => 31,
            Square::A5 => 32,
            Square::B5 => 33,
            Square::C5 => 34,
            Square::D5 => 35,
            Square::E5 => 36,
            Square::F5 => 37,
            Square::G5 => 38,
            Square::H5 => 39,
            Square::A6 => 40,
            Square::B6 => 41,
            Square::C6 => 42,
            Square::D6 => 43,
            Square::E6 => 44,
            Square::F6 => 45,
            Square::G6 => 46,
            Square::H6 => 47,
            Square::A7 => 48,
            Square::B7 => 49,
            Square::C7 => 50,
            Square::D7 => 51,
            Square::E7 => 52,
            Square::F7 => 53,
            Square::G7 => 54,
            Square::H7 => 55,
            Square::A8 => 56,
            Square::B8 => 57,
            Square::C8 => 58,
            Square::D8 => 59,
            Square::E8 => 60,
            Square::F8 => 61,
            Square::G8 => 62,
            Square::H8 => 63,
        }
    }

}

impl Square {
    /// Rank index (0..8) of the square.
    pub open spec fn rank_idx(self) -> int {
        rank_of(self.idx())
    }

    /// File index (0..8) of the square.
    pub open spec fn file_idx(self) -> int {
        file_of(self.idx())
    }

    /// The two-character name of the square, such as `e4`.
    pub open spec fn name_spec(self) -> Seq<char> {
        seq![File::from_idx(self.file_idx()).char_spec(), Rank::from_idx(self.rank_idx()).char_spec()]
    }

    /// Different squares have different names.
    pub proof fn lemma_name_injective(a: Square, b: Square)
        requires
            a.name_spec() == b.name_spec(),
        ensures
            a == b,
    {
        Square::lemma_idx_range(a);
        Square::lemma_idx_range(b);
        let fa = File::from_idx(a.file_idx());
        let fb = File::from_idx(b.file_idx());
        let ra = Rank::from_idx(a.rank_idx());
        let rb = Rank::from_idx(b.rank_idx());
        assert(fa.char_spec() == a.name_spec()[0]);
        assert(fb.char_spec() == b.name_spec()[0]);
        assert(ra.char_spec() == a.name_spec()[1]);
        assert(rb.char_spec() == b.name_spec()[1]);
        assert(fa == fb);
        assert(ra == rb);
        File::lemma_from_idx(a.file_idx());
        File::lemma_from_idx(b.file_idx());
        Rank::lemma_from_idx(a.rank_idx());
        Rank::lemma_from_idx(b.rank_idx());
        assert(a.idx() == b.idx());
    }

    /// Reading the name of a square gives the square back: the name is a file letter and a rank
    /// digit, as `from_str` asks, and no other square has it.
    pub proof fn lemma_name_round_trip(sq: Square)
        ensures
            sq.name_spec().len() == 2,
            exists|f: File| #[trigger] f.char_spec() == sq.name_spec()[0],
            exists|k: Rank| #[trigger] k.char_spec() == sq.name_spec()[1],
            forall|other: Square| #[trigger] other.name_spec() == sq.name_spec() ==> other == sq,
    {
        let f = File::from_idx(sq.file_idx());
        let k = Rank::from_idx(sq.rank_idx());
        assert(f.char_spec() == sq.name_spec()[0]);
        assert(k.char_spec() == sq.name_spec()[1]);
        assert forall|other: Square| #[trigger] other.name_spec() == sq.name_spec() implies other == sq by {
            Square::lemma_name_injective(other, sq);
        }
    }

    /// A light square: rank and file indices of different parity.
    pub open spec fn is_light_spec(self) -> bool {
        (self.rank_idx() + self.file_idx()) % 2 != 0
    }

    /// The square with index `square`; an error above 63.
    pub fn new(square: u8) -> (r: Result<Square, LibChessError>)
        ensures
            square < 64 ==> r == Ok::<Square, LibChessError>(Square::from_idx(square as int)),
            square >= 64 ==> r == Err::<Square, LibChessError>(LibChessError::InvalidBoardFileName),
    {
        if square < 64 {
            let s = Square::from_u8(square);
            proof {
                Square::lemma_idx_range(s);
            }
            Ok(s)
        } else {
            Err(LibChessError::InvalidBoardFileName)
        }
    }

    /// The square on a rank and a file.
    pub fn from_rank_file(rank: Rank, file: File) -> (s: Square)
        ensures
            s.idx() == square_at(rank.idx(), file.idx()),
            s.rank_idx() == rank.idx(),
            s.file_idx() == file.idx(),
    {
        let r = rank.to_index();
        let f = file.to_index();
        proof {
            Rank::lemma_idx_range(rank);
            File::lemma_idx_range(file);
        }
        Square::from_u8((r * 8 + f) as u8)
    }

    pub fn get_rank(&self) -> (r: Rank)
        ensures
            r.idx() == self.rank_idx(),
            r == Rank::from_idx(self.rank_idx()),
    {
        let i = self.to_index();
        proof {
            Rank::lemma_from_idx(rank_of(i as int));
        }
        match Rank::from_index(i / 8) {
            Ok(r) => r,
            Err(_) => Rank::Eighth,
        }
    }

    pub fn get_file(&self) -> (f: File)
        ensures
            f.idx() == self.file_idx(),
            f == File::from_idx(self.file_idx()),
    {
        let i = self.to_index();
        proof {
            File::lemma_from_idx(file_of(i as int));
        }
        match File::from_index(i % 8) {
            Ok(f) => f,
            Err(_) => File::H,
        }
    }

    pub fn to_index(&self) -> (r: usize)
        ensures
            r == self.idx(),
            r < 64,
    {
        proof {
            Square::lemma_idx_range(*self);
        }
        self.to_int() as usize
    }

    /// The square one rank up; an error on the eighth rank.
    pub fn up(&self) -> (r: Result<Self, LibChessError>)
        ensures
            self.rank_idx() < 7 ==> r == Ok::<Square, LibChessError>(Square::from_idx(self.idx() + 8)),
            self.rank_idx() == 7 ==> r == Err::<Square, LibChessError>(LibChessError::InvalidBoardRankIndex { n: 8 }),
    {
        let rank = self.get_rank().up()?;
        Ok(Square::from_rank_file(rank, self.get_file()))
    }

    /// The square one rank down; an error on the first rank.
    pub fn down(&self) -> (r: Result<Self, LibChessError>)
        ensures
            self.rank_idx() > 0 ==> r == Ok::<Square, LibChessError>(Square::from_idx(self.idx() - 8)),
            self.rank_idx() == 0 ==> r == Err::<Square, LibChessError>(LibChessError::NegativeBoardRankIndex),
    {
        let rank = self.get_rank().down()?;
        Ok(Square::from_rank_file(rank, self.get_file()))
    }

    /// The square one file left (towards the a-file); an error on the a-file.
    pub fn left(&self) -> (r: Result<Self, LibChessError>)
        ensures
            self.file_idx() > 0 ==> r == Ok::<Square, LibChessError>(Square::from_idx(self.idx() - 1)),
            self.file_idx() == 0 ==> r == Err::<Square, LibChessError>(LibChessError::NegativeBoardFileIndex),
    {
        let file = self.get_file().left()?;
        Ok(Square::from_rank_file(self.get_rank(), file))
    }

    /// The square one file right (towards the h-file); an error on the h-file.
    pub fn right(&self) -> (r: Result<Self, LibChessError>)
        ensures
            self.file_idx() < 7 ==> r == Ok::<Square, LibChessError>(Square::from_idx(self.idx() + 1)),
            self.file_idx() == 7 ==> r == Err::<Square, LibChessError>(LibChessError::InvalidBoardFileIndex { n: 8 }),
    {
        let file = self.get_file().right()?;
        Ok(Square::from_rank_file(self.get_rank(), file))
    }

    pub fn is_light(&self) -> (r: bool)
        ensures
            r == self.is_light_spec(),
    {
        let rank_id = self.get_rank().to_index();
        let file_id = self.get_file().to_index();
        if (rank_id + file_id) % 2 == 0 {
            return false;
        }
        true
    }

    pub fn is_dark(&self) -> (r: bool)
        ensures
            r == !self.is_light_spec(),
    {
        !self.is_light()
    }

    /// Rank and file differences from this square to `other`.
    pub fn offsets_from(&self, other: Square) -> (r: (i32, i32))
        ensures
            r.0 == other.rank_idx() - self.rank_idx(),
            r.1 == other.file_idx() - self.file_idx(),
    {
        let (a, b) = (self.to_index(), other.to_index());
        ((b / 8) as i32 - (a / 8) as i32, (b % 8) as i32 - (a % 8) as i32)
    }

    /// Parses a square name such as `e4`. A text of one two-byte character is left out: it is two
    /// bytes long, yet has no second character to read.
    pub fn from_str(s: &str) -> (r: Result<Square, LibChessError>)
        requires
            !square_text_unreadable(s@),
        ensures
            r is Ok <==> (s@.len() == 2 && (exists|f: File| #[trigger] f.char_spec() == s@[0])
                && (exists|k: Rank| #[trigger] k.char_spec() == s@[1])),
            r matches Ok(sq) ==> sq.name_spec() == s@,
            r is Err ==> r == Err::<Square, LibChessError>(LibChessError::InvalidSquareRepresentation),
    {
        Square::read_name(s)
    }

    /// Whether `from_str` reads `s` (see `square_text_unreadable`).
    pub fn is_readable(s: &str) -> (r: bool)
        ensures
            r == !square_text_unreadable(s@),
    {
        !(s.unicode_len() == 1 && crate::board_moves::utf8_width_exec(s.get_char(0)) == 2)
    }

    /// Reads a square name such as `e4`; any other text is refused.
    pub(crate) fn read_name(s: &str) -> (r: Result<Square, LibChessError>)
        ensures
            r is Ok <==> (s@.len() == 2 && (exists|f: File| #[trigger] f.char_spec() == s@[0])
                && (exists|k: Rank| #[trigger] k.char_spec() == s@[1])),
            r matches Ok(sq) ==> sq.name_spec() == s@,
            r is Err ==> r == Err::<Square, LibChessError>(LibChessError::InvalidSquareRepresentation),
    {
        if s.unicode_len() != 2 {
            return Err(LibChessError::InvalidSquareRepresentation);
        }
        let file = match File::from_char(s.get_char(0)) {
            Some(f) => f,
            None => return Err(LibChessError::InvalidSquareRepresentation),
        };
        let rank = match Rank::from_char(s.get_char(1)) {
            Some(r) => r,
            None => return Err(LibChessError::InvalidSquareRepresentation),
        };
        let sq = Square::from_rank_file(rank, file);
        proof {
            File::lemma_idx_range(file);
            Rank::lemma_idx_range(rank);
            assert(sq.name_spec() =~= s@);
        }
        Ok(sq)
    }

    /// The two-character name of the square.
    pub fn to_string(&self) -> (r: String)
        ensures
            r@ == self.name_spec(),
    {
        let mut r = self.get_file().to_string();
        crate::text::push_char(&mut r, self.get_rank().to_char());
        assert(r@ =~= self.name_spec());
        r
    }
}

/// The square texts on which reading stops without an answer: a single character of two bytes.
pub open spec fn square_text_unreadable(s: Seq<char>) -> bool {
    s.len() == 1 && crate::board_moves::utf8_width(s[0]) == 2
}

impl core::str::FromStr for Square {
    type Err = LibChessError;

    fn from_str(s: &str) -> (r: Result<Square, LibChessError>)
        ensures
            r is Ok <==> (s@.len() == 2 && (exists|f: File| #[trigger] f.char_spec() == s@[0])
                && (exists|k: Rank| #[trigger] k.char_spec() == s@[1])),
            r matches Ok(sq) ==> sq.name_spec() == s@,
            r is Err ==> r == Err::<Square, LibChessError>(LibChessError::InvalidSquareRepresentation),
    {
        Square::read_name(s)
    }
}

} // verus!
