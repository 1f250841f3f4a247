use vstd::prelude::*;

verus! {

/// Castling rights of one side.
#[derive(Debug, Clone, Copy, PartialEq, Eq, Hash, Structural)]
pub enum CastlingRights {
    Neither,
    QueenSide,
    KingSide,
    BothSides,
}

/// Number of different castling rights.
pub const CASTLING_RIGHTS_NUMBER: usize = 4;

impl CastlingRights {
    pub open spec fn kingside_spec(self) -> bool {
        self == CastlingRights::KingSide || self == CastlingRights::BothSides
    }

    pub open spec fn queenside_spec(self) -> bool {
        self == CastlingRights::QueenSide || self == CastlingRights::BothSides
    }

    /// The rights that hold exactly the given sides.
    pub open spec fn from_sides(kingside: bool, queenside: bool) -> CastlingRights {
        if kingside && queenside {
            CastlingRights::BothSides
        } else if kingside {
            CastlingRights::KingSide
        } else if queenside {
            CastlingRights::QueenSide
        } else {
            CastlingRights::Neither
        }
    }

    /// Position of the rights in the declaration order.
    pub open spec fn index_spec(self) -> int {
        match self {
            CastlingRights::Neither => 0,
            CastlingRights::QueenSide => 1,
            CastlingRights::KingSide => 2,
            CastlingRights::BothSides => 3,
        }
    }

    /// The lower-case letters that name the rights in a FEN string ("" for none).
    pub open spec fn letters_spec(self) -> Seq<char> {
        match self {
            CastlingRights::Neither => Seq::<char>::empty(),
            CastlingRights::QueenSide => seq!['q'],
            CastlingRights::KingSide => seq!['k'],
            CastlingRights::BothSides => seq!['k', 'q'],
        }
    }

    pub proof fn lemma_from_sides(self)
        ensures
            CastlingRights::from_sides(self.kingside_spec(), self.queenside_spec()) == self,
    {
    }

    pub fn to_index(&self) -> (r: usize)
        ensures
            r == self.index_spec(),
    {
        match self {
            CastlingRights::Neither => 0,
            CastlingRights::QueenSide => 1,
            CastlingRights::KingSide => 2,
            CastlingRights::BothSides => 3,
        }
    }

    /// The rights whose bit code is `i` (bit 0: king side, bit 1: queen side).
    pub fn from_index(i: usize) -> (r: CastlingRights)
        requires
            i < CASTLING_RIGHTS_NUMBER,
        ensures
            r == CastlingRights::from_sides(i % 2 == 1, i / 2 == 1),
    {
        match i {
            0 => CastlingRights::Neither,
            1 => CastlingRights::KingSide,
            2 => CastlingRights::QueenSide,
            _ => CastlingRights::BothSides,
        }
    }

    pub fn has_kingside(&self) -> (r: bool)
        ensures
            r == self.kingside_spec(),
    {
        match self {
            CastlingRights::Neither | CastlingRights::QueenSide => false,
            _ => true,
        }
    }

    pub fn has_queenside(&self) -> (r: bool)
        ensures
            r == self.queenside_spec(),
    {
        match self {
            CastlingRights::Neither | CastlingRights::KingSide => false,
            _ => true,
        }
    }

    pub(crate) fn from_bits(kingside: bool, queenside: bool) -> (r: CastlingRights)
        ensures
            r == CastlingRights::from_sides(kingside, queenside),
    {
        match (kingside, queenside) {
            (false, false) => CastlingRights::Neither,
            (true, false) => CastlingRights::KingSide,
            (false, true) => CastlingRights::QueenSide,
            (true, true) => CastlingRights::BothSides,
        }
    }

    /// The sides held by either `self` or `other`.
    pub fn union(self, other: CastlingRights) -> (r: CastlingRights)
        ensures
            r == CastlingRights::from_sides(
                self.kingside_spec() || other.kingside_spec(),
                self.queenside_spec() || other.queenside_spec(),
            ),
    {
        CastlingRights::from_bits(
            self.has_kingside() || other.has_kingside(),
            self.has_queenside() || other.has_queenside(),
        )
    }

    /// The sides held by `self` and not by `other`.
    pub fn difference(self, other: CastlingRights) -> (r: CastlingRights)
        ensures
            r == CastlingRights::from_sides(
                self.kingside_spec() && !other.kingside_spec(),
                self.queenside_spec() && !other.queenside_spec(),
            ),
    {
        CastlingRights::from_bits(
            self.has_kingside() && !other.has_kingside(),
            self.has_queenside() && !other.has_queenside(),
        )
    }

    /// The lower-case letters that name the rights in a FEN string.
    pub fn to_string(&self) -> (r: String)
        ensures
            r@ == self.letters_spec(),
    {
        let mut r = String::new();
        if self.has_kingside() {
            crate::text::push_char(&mut r, 'k');
        }
        if self.has_queenside() {
            crate::text::push_char(&mut r, 'q');
        }
        assert(r@ =~= self.letters_spec());
        r
    }
}

impl core::ops::Add for CastlingRights {
    type Output = CastlingRights;

    fn add(self, other: CastlingRights) -> (r: CastlingRights) {
        self.union(other)
    }
}

impl vstd::std_specs::ops::AddSpecImpl for CastlingRights {
    open spec fn obeys_add_spec() -> bool {
        true
    }

    open spec fn add_req(self, rhs: CastlingRights) -> bool {
        true
    }

    open spec fn add_spec(self, rhs: CastlingRights) -> CastlingRights {
        CastlingRights::from_sides(
            self.kingside_spec() || rhs.kingside_spec(),
            self.queenside_spec() || rhs.queenside_spec(),
        )
    }
}

impl core::ops::Sub for CastlingRights {
    type Output = CastlingRights;

    fn sub(self, other: CastlingRights) -> (r: CastlingRights) {
        self.difference(other)
    }
}

impl vstd::std_specs::ops::SubSpecImpl for CastlingRights {
    open spec fn obeys_sub_spec() -> bool {
        true
    }

    open spec fn sub_req(self, rhs: CastlingRights) -> bool {
        true
    }

    open spec fn sub_spec(self, rhs: CastlingRights) -> CastlingRights {
        CastlingRights::from_sides(
            self.kingside_spec() && !rhs.kingside_spec(),
            self.queenside_spec() && !rhs.queenside_spec(),
        )
    }
}

impl core::ops::AddAssign for CastlingRights {
    fn add_assign(&mut self, other: CastlingRights)
        ensures
            *final(self) == CastlingRights::from_sides(
                old(self).kingside_spec() || other.kingside_spec(),
                old(self).queenside_spec() || other.queenside_spec(),
            ),
    {
        *self = self.union(other);
    }
}

impl core::ops::SubAssign for CastlingRights {
    fn sub_assign(&mut self, other: CastlingRights)
        ensures
            *final(self) == CastlingRights::from_sides(
                old(self).kingside_spec() && !other.kingside_spec(),
                old(self).queenside_spec() && !other.queenside_spec(),
            ),
    {
        *self = self.difference(other);
    }
}

} // verus!
