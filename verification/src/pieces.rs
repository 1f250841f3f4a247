use crate::colors::Color;
use crate::errors::LibChessError;
use vstd::prelude::*;

verus! {

/// The kind of a chess piece.
#[derive(Debug, Clone, Copy, PartialEq, Eq, Hash, Structural)]
pub enum PieceType {
    Pawn,
    Knight,
    Bishop,
    Rook,
    Queen,
    King,
}

/// A piece: its kind and its color.
#[derive(Debug, Clone, Copy, PartialEq, Eq, Hash, Structural)]
pub struct Piece(pub PieceType, pub Color);

/// Number of piece kinds.
pub const PIECE_TYPES_NUMBER: usize = 6;

/// Upper-case form of an ASCII letter; other characters are unchanged.
pub open spec fn ascii_upper(c: char) -> char {
    if 'a' <= c <= 'z' {
        ((c as int) - 32) as char
    } else {
        c
    }
}

impl PieceType {
    pub open spec fn index_spec(self) -> int {
        match self {
            PieceType::Pawn => 0,
            PieceType::Knight => 1,
            PieceType::Bishop => 2,
            PieceType::Rook => 3,
            PieceType::Queen => 4,
            PieceType::King => 5,
        }
    }

    pub open spec fn from_index_spec(n: int) -> PieceType {
        if n == 0 {
            PieceType::Pawn
        } else if n == 1 {
            PieceType::Knight
        } else if n == 2 {
            PieceType::Bishop
        } else if n == 3 {
            PieceType::Rook
        } else if n == 4 {
            PieceType::Queen
        } else {
            PieceType::King
        }
    }

    /// The upper-case letter of the piece kind.
    pub open spec fn letter_spec(self) -> char {
        match self {
            PieceType::Pawn => 'P',
            PieceType::Knight => 'N',
            PieceType::Bishop => 'B',
            PieceType::Rook => 'R',
            PieceType::Queen => 'Q',
            PieceType::King => 'K',
        }
    }

    pub broadcast proof fn lemma_index(p: PieceType)
        ensures
            0 <= #[trigger] p.index_spec() < 6,
            PieceType::from_index_spec(p.index_spec()) == p,
    {
    }

    pub broadcast proof fn lemma_from_index(n: int)
        requires
            0 <= n < 6,
        ensures
            (#[trigger] PieceType::from_index_spec(n)).index_spec() == n,
    {
    }

    pub fn to_index(&self) -> (r: usize)
        ensures
            r == self.index_spec(),
    {
        match self {
            PieceType::Pawn => 0,
            PieceType::Knight => 1,
            PieceType::Bishop => 2,
            PieceType::Rook => 3,
            PieceType::Queen => 4,
            PieceType::King => 5,
        }
    }

    pub fn from_index(n: usize) -> (r: Result<Self, LibChessError>)
        ensures
            n < 6 ==> r == Ok::<PieceType, LibChessError>(PieceType::from_index_spec(n as int)),
            n >= 6 ==> r == Err::<PieceType, LibChessError>(LibChessError::InvalidPeaceIndex { n }),
    {
        match n {
            0 => Ok(PieceType::Pawn),
            1 => Ok(PieceType::Knight),
            2 => Ok(PieceType::Bishop),
            3 => Ok(PieceType::Rook),
            4 => Ok(PieceType::Queen),
            5 => Ok(PieceType::King),
            _ => Err(LibChessError::InvalidPeaceIndex { n }),
        }
    }

    /// The piece kind whose upper-case letter is the upper-case form of `c`.
    pub fn from_char(c: char) -> (r: Option<PieceType>)
        ensures
            r matches Some(p) ==> p.letter_spec() == ascii_upper(c),
            r is None ==> forall|p: PieceType| #[trigger] p.letter_spec() != ascii_upper(c),
    {
        match c {
            'P' | 'p' => Some(PieceType::Pawn),
            'N' | 'n' => Some(PieceType::Knight),
            'B' | 'b' => Some(PieceType::Bishop),
            'R' | 'r' => Some(PieceType::Rook),
            'Q' | 'q' => Some(PieceType::Queen),
            'K' | 'k' => Some(PieceType::King),
            _ => None,
        }
    }

    /// Parses a piece letter (either case); the empty string names a pawn.
    pub fn from_str(value: &str) -> (r: Result<Self, LibChessError>)
        ensures
            value@.len() == 0 ==> r == Ok::<PieceType, LibChessError>(PieceType::Pawn),
            value@.len() > 1 ==> r == Err::<PieceType, LibChessError>(LibChessError::InvalidPeaceRepresentation),
            value@.len() == 1 ==> (r is Ok <==> exists|p: PieceType| #[trigger] p.letter_spec() == ascii_upper(value@[0])),
            value@.len() == 1 ==> (r matches Ok(p) ==> p.letter_spec() == ascii_upper(value@[0])),
            r is Err ==> r == Err::<PieceType, LibChessError>(LibChessError::InvalidPeaceRepresentation),
    {
        let n = value.unicode_len();
        if n > 1 {
            return Err(LibChessError::InvalidPeaceRepresentation);
        }
        if n == 0 {
            return Ok(PieceType::Pawn);
        }
        match PieceType::from_char(value.get_char(0)) {
            Some(p) => Ok(p),
            None => Err(LibChessError::InvalidPeaceRepresentation),
        }
    }

    /// The upper-case letter of the piece kind.
    pub fn to_char(&self) -> (c: char)
        ensures
            c == self.letter_spec(),
    {
        match self {
            PieceType::Pawn => 'P',
            PieceType::Knight => 'N',
            PieceType::Bishop => 'B',
            PieceType::Rook => 'R',
            PieceType::Queen => 'Q',
            PieceType::King => 'K',
        }
    }

    /// The upper-case letter of the piece kind as a string.
    pub fn to_string(&self) -> (r: String)
        ensures
            r@ == seq![self.letter_spec()],
    {
        crate::text::char_to_string(self.to_char())
    }
}

impl core::str::FromStr for PieceType {
    type Err = LibChessError;

    fn from_str(value: &str) -> (r: Result<Self, LibChessError>)
        ensures
            value@.len() == 0 ==> r == Ok::<PieceType, LibChessError>(PieceType::Pawn),
            value@.len() > 1 ==> r == Err::<PieceType, LibChessError>(LibChessError::InvalidPeaceRepresentation),
            value@.len() == 1 ==> (r is Ok <==> exists|p: PieceType| #[trigger] p.letter_spec() == ascii_upper(value@[0])),
            value@.len() == 1 ==> (r matches Ok(p) ==> p.letter_spec() == ascii_upper(value@[0])),
            r is Err ==> r == Err::<PieceType, LibChessError>(LibChessError::InvalidPeaceRepresentation),
    {
        PieceType::from_str(value)
    }
}

} // verus!
