use crate::board_ranks::Rank;
use crate::errors::LibChessError;
use vstd::prelude::*;

verus! {

/// The side a piece belongs to.
#[derive(Debug, Clone, Copy, PartialEq, Eq, Hash, Structural)]
pub enum Color {
    White,
    Black,
}

/// Number of colors.
pub const COLORS_NUMBER: usize = 2;

impl Color {
    /// Index of the color: White is 0, Black is 1.
    pub open spec fn index_spec(self) -> int {
        match self {
            Color::White => 0,
            Color::Black => 1,
        }
    }

    /// The other color.
    pub open spec fn opposite_spec(self) -> Color {
        match self {
            Color::White => Color::Black,
            Color::Black => Color::White,
        }
    }

    /// The color whose index is `n`, where one exists.
    pub open spec fn from_index_spec(n: int) -> Color {
        if n == 0 {
            Color::White
        } else {
            Color::Black
        }
    }

    pub fn to_index(&self) -> (r: usize)
        ensures
            r == self.index_spec(),
    {
        match self {
            Color::White => 0,
            Color::Black => 1,
        }
    }

    pub fn from_index(n: usize) -> (r: Result<Color, LibChessError>)
        ensures
            n < COLORS_NUMBER ==> r == Ok::<Color, LibChessError>(Color::from_index_spec(n as int)),
            n >= COLORS_NUMBER ==> r == Err::<Color, LibChessError>(LibChessError::InvalidColorIndex { n }),
    {
        match n {
            0 => Ok(Color::White),
            1 => Ok(Color::Black),
            _ => Err(LibChessError::InvalidColorIndex { n }),
        }
    }

    /// The other color (the same as `!self`).
    pub fn opposite(&self) -> (r: Color)
        ensures
            r == self.opposite_spec(),
    {
        match self {
            Color::White => Color::Black,
            Color::Black => Color::White,
        }
    }
}

impl Color {
    /// The rank on which the pieces of the color start.
    pub fn get_back_rank(&self) -> (r: Rank)
        ensures
            r.idx() == crate::rules::back_rank(*self),
    {
        match self {
            Color::White => Rank::First,
            Color::Black => Rank::Eighth,
        }
    }

    /// The rank on which the pawns of the color promote.
    pub fn get_promotion_rank(&self) -> (r: Rank)
        ensures
            r.idx() == crate::rules::promotion_rank(*self),
    {
        match self {
            Color::White => Rank::Eighth,
            Color::Black => Rank::First,
        }
    }

    /// The name of the color: "white" or "black".
    pub fn to_string(&self) -> (r: String)
        ensures
            r@ == self.name_spec(),
    {
        let mut r = String::new();
        match self {
            Color::White => {
                crate::text::push_str(&mut r, "white");
                proof {
                    reveal_strlit("white");
                }
            },
            Color::Black => {
                crate::text::push_str(&mut r, "black");
                proof {
                    reveal_strlit("black");
                }
            },
        }
        assert(r@ =~= self.name_spec());
        r
    }

    pub open spec fn name_spec(self) -> Seq<char> {
        match self {
            Color::White => seq!['w', 'h', 'i', 't', 'e'],
            Color::Black => seq!['b', 'l', 'a', 'c', 'k'],
        }
    }
}

impl core::ops::Not for Color {
    type Output = Color;

    fn not(self) -> (r: Color) {
        self.opposite()
    }
}

impl vstd::std_specs::ops::NotSpecImpl for Color {
    open spec fn obeys_not_spec() -> bool {
        true
    }

    open spec fn not_req(self) -> bool {
        true
    }

    open spec fn not_spec(self) -> Color {
        self.opposite_spec()
    }
}

} // verus!
