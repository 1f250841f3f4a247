use crate::errors::LibChessError;
use vstd::prelude::*;

verus! {

/// Number of files on the board.
pub const FILES_NUMBER: usize = 8;

/// A file of the board.
#[derive(Debug, Clone, Copy, PartialEq, Eq, Hash, Structural)]
pub enum File {
    A, B, C, D, E, F, G, H,
}

impl File {
    /// Index of the file (0..8).
    pub open spec fn idx(self) -> int {
        match self {
            File::A => 0,
            File::B => 1,
            File::C => 2,
            File::D => 3,
            File::E => 4,
            File::F => 5,
            File::G => 6,
            File::H => 7,
        }
    }

    /// The file with index `i` (for `i` in 0..8).
    pub open spec fn from_idx(i: int) -> File {
        if i == 0 { File::A }
        else if i == 1 { File::B }
        else if i == 2 { File::C }
        else if i == 3 { File::D }
        else if i == 4 { File::E }
        else if i == 5 { File::F }
        else if i == 6 { File::G }
        else { File::H }
    }

    /// The character that names the file.
    pub open spec fn char_spec(self) -> char {
        match self {
            File::A => 'a',
            File::B => 'b',
            File::C => 'c',
            File::D => 'd',
            File::E => 'e',
            File::F => 'f',
            File::G => 'g',
            File::H => 'h',
        }
    }

    pub broadcast proof fn lemma_idx_range(x: File)
        ensures
            0 <= #[trigger] x.idx() < 8,
            File::from_idx(x.idx()) == x,
    {
    }

    pub broadcast proof fn lemma_from_idx(i: int)
        requires
            0 <= i < 8,
        ensures
            (#[trigger] File::from_idx(i)).idx() == i,
    {
    }

    pub fn to_index(&self) -> (r: usize)
        ensures
            r == self.idx(),
    {
        match self {
            File::A => 0,
            File::B => 1,
            File::C => 2,
            File::D => 3,
            File::E => 4,
            File::F => 5,
            File::G => 6,
            File::H => 7,
        }
    }

    pub fn from_index(n: usize) -> (r: Result<File, LibChessError>)
        ensures
            n < 8 ==> r == Ok::<File, LibChessError>(File::from_idx(n as int)),
            n >= 8 ==> r == Err::<File, LibChessError>(LibChessError::InvalidBoardFileIndex { n }),
    {
        match n {
            0 => Ok(File::A),
            1 => Ok(File::B),
            2 => Ok(File::C),
            3 => Ok(File::D),
            4 => Ok(File::E),
            5 => Ok(File::F),
            6 => Ok(File::G),
            7 => Ok(File::H),
            _ => Err(LibChessError::InvalidBoardFileIndex { n }),
        }
    }

    /// The next file (towards the h-file); an error on the last one.
    pub fn right(&self) -> (r: Result<File, LibChessError>)
        ensures
            self.idx() < 7 ==> r == Ok::<File, LibChessError>(File::from_idx(self.idx() + 1)),
            self.idx() == 7 ==> r == Err::<File, LibChessError>(LibChessError::InvalidBoardFileIndex { n: 8 }),
    {
        File::from_index(self.to_index() + 1)
    }

    /// The previous file (towards the a-file); an error on the first one.
    pub fn left(&self) -> (r: Result<File, LibChessError>)
        ensures
            self.idx() > 0 ==> r == Ok::<File, LibChessError>(File::from_idx(self.idx() - 1)),
            self.idx() == 0 ==> r == Err::<File, LibChessError>(LibChessError::NegativeBoardFileIndex),
    {
        if self.to_index() == 0 {
            return Err(LibChessError::NegativeBoardFileIndex);
        }
        File::from_index(self.to_index() - 1)
    }

    /// The character that names the file.
    pub fn to_char(&self) -> (c: char)
        ensures
            c == self.char_spec(),
    {
        match self {
            File::A => 'a',
            File::B => 'b',
            File::C => 'c',
            File::D => 'd',
            File::E => 'e',
            File::F => 'f',
            File::G => 'g',
            File::H => 'h',
        }
    }

    /// The file that a character names, if any.
    pub fn from_char(c: char) -> (r: Option<File>)
        ensures
            r matches Some(x) ==> x.char_spec() == c,
            r is None ==> forall|x: File| #[trigger] x.char_spec() != c,
    {
        match c {
            'a' => Some(File::A),
            'b' => Some(File::B),
            'c' => Some(File::C),
            'd' => Some(File::D),
            'e' => Some(File::E),
            'f' => Some(File::F),
            'g' => Some(File::G),
            'h' => Some(File::H),
            _ => None,
        }
    }

    /// Parses the one-character name of a file.
    pub fn from_str(s: &str) -> (r: Result<File, LibChessError>)
        ensures
            r is Ok <==> (s@.len() == 1 && exists|x: File| #[trigger] x.char_spec() == s@[0]),
            r matches Ok(x) ==> s@ == seq![x.char_spec()],
            r is Err ==> r == Err::<File, LibChessError>(LibChessError::InvalidBoardFileName),
    {
        if s.unicode_len() != 1 {
            return Err(LibChessError::InvalidBoardFileName);
        }
        match File::from_char(s.get_char(0)) {
            Some(x) => {
                assert(s@ =~= seq![x.char_spec()]);
                Ok(x)
            },
            None => Err(LibChessError::InvalidBoardFileName),
        }
    }

    /// The name of the file as a string.
    pub fn to_string(&self) -> (r: String)
        ensures
            r@ == seq![self.char_spec()],
    {
        crate::text::char_to_string(self.to_char())
    }
}

impl core::str::FromStr for File {
    type Err = LibChessError;

    fn from_str(s: &str) -> (r: Result<File, LibChessError>)
        ensures
            r is Ok <==> (s@.len() == 1 && exists|x: File| #[trigger] x.char_spec() == s@[0]),
            r matches Ok(x) ==> s@ == seq![x.char_spec()],
            r is Err ==> r == Err::<File, LibChessError>(LibChessError::InvalidBoardFileName),
    {
        File::from_str(s)
    }
}

} // verus!
