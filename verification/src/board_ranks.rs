use crate::errors::LibChessError;
use vstd::prelude::*;

verus! {

/// Number of ranks on the board.
pub const RANKS_NUMBER: usize = 8;

/// A rank of the board.
#[derive(Debug, Clone, Copy, PartialEq, Eq, Hash, Structural)]
pub enum Rank {
    First, Second, Third, Fourth, Fifth, Sixth, Seventh, Eighth,
}

impl Rank {
    /// Index of the rank (0..8).
    pub open spec fn idx(self) -> int {
        match self {
            Rank::First => 0,
            Rank::Second => 1,
            Rank::Third => 2,
            Rank::Fourth => 3,
            Rank::Fifth => 4,
            Rank::Sixth => 5,
            Rank::Seventh => 6,
            Rank::Eighth => 7,
        }
    }

    /// The rank with index `i` (for `i` in 0..8).
    pub open spec fn from_idx(i: int) -> Rank {
        if i == 0 { Rank::First }
        else if i == 1 { Rank::Second }
        else if i == 2 { Rank::Third }
        else if i == 3 { Rank::Fourth }
        else if i == 4 { Rank::Fifth }
        else if i == 5 { Rank::Sixth }
        else if i == 6 { Rank::Seventh }
        else { Rank::Eighth }
    }

    /// The character that names the rank.
    pub open spec fn char_spec(self) -> char {
        match self {
            Rank::First => '1',
            Rank::Second => '2',
            Rank::Third => '3',
            Rank::Fourth => '4',
            Rank::Fifth => '5',
            Rank::Sixth => '6',
            Rank::Seventh => '7',
            Rank::Eighth => '8',
        }
    }

    pub broadcast proof fn lemma_idx_range(x: Rank)
        ensures
            0 <= #[trigger] x.idx() < 8,
            Rank::from_idx(x.idx()) == x,
    {
    }

    pub broadcast proof fn lemma_from_idx(i: int)
        requires
            0 <= i < 8,
        ensures
            (#[trigger] Rank::from_idx(i)).idx() == i,
    {
    }

    pub fn to_index(&self) -> (r: usize)
        ensures
            r == self.idx(),
    {
        match self {
            Rank::First => 0,
            Rank::Second => 1,
            Rank::Third => 2,
            Rank::Fourth => 3,
            Rank::Fifth => 4,
            Rank::Sixth => 5,
            Rank::Seventh => 6,
            Rank::Eighth => 7,
        }
    }

    pub fn from_index(n: usize) -> (r: Result<Rank, LibChessError>)
        ensures
            n < 8 ==> r == Ok::<Rank, LibChessError>(Rank::from_idx(n as int)),
            n >= 8 ==> r == Err::<Rank, LibChessError>(LibChessError::InvalidBoardRankIndex { n }),
    {
        match n {
            0 => Ok(Rank::First),
            1 => Ok(Rank::Second),
            2 => Ok(Rank::Third),
            3 => Ok(Rank::Fourth),
            4 => Ok(Rank::Fifth),
            5 => Ok(Rank::Sixth),
            6 => Ok(Rank::Seventh),
            7 => Ok(Rank::Eighth),
            _ => Err(LibChessError::InvalidBoardRankIndex { n }),
        }
    }

    /// The next rank (towards the eighth rank); an error on the last one.
    pub fn up(&self) -> (r: Result<Rank, LibChessError>)
        ensures
            self.idx() < 7 ==> r == Ok::<Rank, LibChessError>(Rank::from_idx(self.idx() + 1)),
            self.idx() == 7 ==> r == Err::<Rank, LibChessError>(LibChessError::InvalidBoardRankIndex { n: 8 }),
    {
        Rank::from_index(self.to_index() + 1)
    }

    /// The previous rank (towards the first rank); an error on the first one.
    pub fn down(&self) -> (r: Result<Rank, LibChessError>)
        ensures
            self.idx() > 0 ==> r == Ok::<Rank, LibChessError>(Rank::from_idx(self.idx() - 1)),
            self.idx() == 0 ==> r == Err::<Rank, LibChessError>(LibChessError::NegativeBoardRankIndex),
    {
        if self.to_index() == 0 {
            return Err(LibChessError::NegativeBoardRankIndex);
        }
        Rank::from_index(self.to_index() - 1)
    }

    /// The character that names the rank.
    pub fn to_char(&self) -> (c: char)
        ensures
            c == self.char_spec(),
    {
        match self {
            Rank::First => '1',
            Rank::Second => '2',
            Rank::Third => '3',
            Rank::Fourth => '4',
            Rank::Fifth => '5',
            Rank::Sixth => '6',
            Rank::Seventh => '7',
            Rank::Eighth => '8',
        }
    }

    /// The rank that a character names, if any.
    pub fn from_char(c: char) -> (r: Option<Rank>)
        ensures
            r matches Some(x) ==> x.char_spec() == c,
            r is None ==> forall|x: Rank| #[trigger] x.char_spec() != c,
    {
        match c {
            '1' => Some(Rank::First),
            '2' => Some(Rank::Second),
            '3' => Some(Rank::Third),
            '4' => Some(Rank::Fourth),
            '5' => Some(Rank::Fifth),
            '6' => Some(Rank::Sixth),
            '7' => Some(Rank::Seventh),
            '8' => Some(Rank::Eighth),
            _ => None,
        }
    }

    /// Parses the one-character name of a rank.
    pub fn from_str(s: &str) -> (r: Result<Rank, LibChessError>)
        ensures
            r is Ok <==> (s@.len() == 1 && exists|x: Rank| #[trigger] x.char_spec() == s@[0]),
            r matches Ok(x) ==> s@ == seq![x.char_spec()],
            r is Err ==> r == Err::<Rank, LibChessError>(LibChessError::InvalidBoardRankName),
    {
        if s.unicode_len() != 1 {
            return Err(LibChessError::InvalidBoardRankName);
        }
        match Rank::from_char(s.get_char(0)) {
            Some(x) => {
                assert(s@ =~= seq![x.char_spec()]);
                Ok(x)
            },
            None => Err(LibChessError::InvalidBoardRankName),
        }
    }

    /// The name of the rank as a string.
    pub fn to_string(&self) -> (r: String)
        ensures
            r@ == seq![self.char_spec()],
    {
        crate::text::char_to_string(self.to_char())
    }
}

impl core::str::FromStr for Rank {
    type Err = LibChessError;

    fn from_str(s: &str) -> (r: Result<Rank, LibChessError>)
        ensures
            r is Ok <==> (s@.len() == 1 && exists|x: Rank| #[trigger] x.char_spec() == s@[0]),
            r matches Ok(x) ==> s@ == seq![x.char_spec()],
            r is Err ==> r == Err::<Rank, LibChessError>(LibChessError::InvalidBoardRankName),
    {
        Rank::from_str(s)
    }
}

} // verus!
