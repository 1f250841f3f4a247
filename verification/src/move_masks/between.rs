use crate::bitboards::BitBoard;
use crate::coordinates::Square;
use crate::geometry::{aligned, between_bits, is_diagonal_line, is_straight_line, strictly_between};
use vstd::prelude::*;

verus! {

/// Number of unordered pairs of squares (a square paired with itself included).
pub const TABLE_SIZE: usize = 2080;

/// First slot of the row of pairs whose lower square is `l`.
pub open spec fn row_start(l: int) -> int {
    64 * l - (l - 1) * l / 2
}

/// Slot of the pair of squares `a`, `b` (in either order).
pub open spec fn pair_index(a: int, b: int) -> int {
    if a <= b {
        row_start(a) + b - a
    } else {
        row_start(b) + a - b
    }
}

/// What the table holds for squares `a <= b`: the empty set for a square with itself, the
/// squares strictly between them when they share a line, and nothing otherwise.
pub open spec fn between_entry(a: int, b: int, e: Option<BitBoard>) -> bool {
    if a == b {
        e == Some(BitBoard(0))
    } else if aligned(a, b) {
        e matches Some(m) && forall|x: int| #[trigger] m.has(x) == strictly_between(a, b, x)
    } else {
        e is None
    }
}

proof fn lemma_row_start_step(l: int)
    requires
        0 <= l,
    ensures
        row_start(l + 1) == row_start(l) + 64 - l,
        (l - 1) * l >= 0,
{
    assert((l + 1 - 1) * (l + 1) == (l - 1) * l + 2 * l) by (nonlinear_arith);
    assert((l - 1) * l >= 0) by (nonlinear_arith)
        requires
            0 <= l,
    ;
    assert(((l - 1) * l + 2 * l) / 2 == (l - 1) * l / 2 + l) by (nonlinear_arith);
}

proof fn lemma_row_start_mono(l1: int, l2: int)
    requires
        0 <= l1 < l2 <= 64,
    ensures
        row_start(l2) >= row_start(l1) + 64 - l1,
    decreases l2 - l1,
{
    lemma_row_start_step(l1);
    if l2 > l1 + 1 {
        lemma_row_start_mono(l1 + 1, l2);
    }
}

/// Slots of pairs are distinct and below `TABLE_SIZE`; in lexicographic order they increase.
pub proof fn lemma_pair_index(a1: int, b1: int, a2: int, b2: int)
    requires
        0 <= a1 <= b1 < 64,
        0 <= a2 <= b2 < 64,
    ensures
        0 <= pair_index(a1, b1) < TABLE_SIZE,
        (a1 < a2 || (a1 == a2 && b1 < b2)) ==> pair_index(a1, b1) < pair_index(a2, b2),
{
    lemma_row_start_step(a1);
    lemma_row_start_step(0);
    if a1 > 0 {
        lemma_row_start_mono(0, a1);
    }
    if a1 < 63 {
        lemma_row_start_mono(a1, 64);
    }
    assert(row_start(64) == 2080);
    if a1 < a2 {
        lemma_row_start_mono(a1, a2);
    }
}

fn slot(square_a: Square, square_b: Square) -> (r: usize)
    ensures
        r == pair_index(square_a.idx(), square_b.idx()),
        r < TABLE_SIZE,
{
    let (mut ai, mut bi) = (square_a.to_index(), square_b.to_index());
    if ai > bi {
        let t = ai;
        ai = bi;
        bi = t;
    }
    proof {
        lemma_pair_index(ai as int, bi as int, ai as int, bi as int);
        lemma_row_start_step(ai as int);
    }
    let offset: usize = if ai == 0 {
        0
    } else {
        assert(0 <= (ai - 1) * ai <= 63 * 64 && (ai - 1) * ai / 2 <= 64 * ai) by (nonlinear_arith)
            requires
                1 <= ai < 64,
        ;
        let p = (ai - 1) * ai;
        64 * ai - p / 2
    };
    assert(offset == row_start(ai as int));
    offset + bi - ai
}

/// For every pair of squares, the squares strictly between them, when they share a line.
pub struct BetweenTable([Option<BitBoard>; 2080]);

impl BetweenTable {
    /// The entry stored in each slot.
    pub closed spec fn entries(self) -> Seq<Option<BitBoard>> {
        self.0@
    }

    /// A table whose entries are all `None`.
    pub fn new() -> (t: Self)
        ensures
            t.entries() == Seq::new(TABLE_SIZE as nat, |i: int| None::<BitBoard>),
    {
        let t = Self([None; 2080]);
        assert(t.entries() =~= Seq::new(TABLE_SIZE as nat, |i: int| None::<BitBoard>));
        t
    }

    /// Stores the entry of the pair `square_a`, `square_b`.
    pub fn set(&mut self, square_a: Square, square_b: Square, value: Option<BitBoard>)
        ensures
            final(self).entries() == old(self).entries().update(pair_index(square_a.idx(), square_b.idx()), value),
    {
        let i = slot(square_a, square_b);
        self.0[i] = value;
    }

    /// The entry of the pair `square_a`, `square_b`.
    pub fn get(&self, square_a: Square, square_b: Square) -> (r: Option<BitBoard>)
        ensures
            r == self.entries()[pair_index(square_a.idx(), square_b.idx())],
    {
        self.0[slot(square_a, square_b)]
    }
}

impl Default for BetweenTable {
    fn default() -> (t: Self)
        ensures
            t.entries() == Seq::new(TABLE_SIZE as nat, |i: int| None::<BitBoard>),
    {
        Self::new()
    }
}

/// Fills the table: for squares `a <= b`, the slot of the pair holds what `between_entry`
/// describes.
pub fn generate_between_masks(table: &mut BetweenTable)
    ensures
        forall|a: int, b: int| 0 <= a <= b < 64 ==> between_entry(a, b, #[trigger] final(table).entries()[pair_index(a, b)]),
        final(table).entries().len() == old(table).entries().len(),
{
    let mut index_a: u8 = 0;
    while index_a < 64
        invariant
            index_a <= 64,
            table.entries().len() == TABLE_SIZE,
            forall|a: int, b: int| 0 <= a <= b < 64 && a < index_a ==> between_entry(a, b, #[trigger] table.entries()[pair_index(a, b)]),
        decreases 64 - index_a,
    {
        let square_a = Square::from_u8(index_a);
        let mut index_b: u8 = index_a;
        while index_b < 64
            invariant
                index_a <= index_b <= 64,
                index_a < 64,
                square_a.idx() == index_a,
                table.entries().len() == TABLE_SIZE,
                forall|a: int, b: int| 0 <= a <= b < 64 && (a < index_a || (a == index_a && b < index_b))
                    ==> between_entry(a, b, #[trigger] table.entries()[pair_index(a, b)]),
            decreases 64 - index_b,
        {
            let square_b = Square::from_u8(index_b);
            let ghost before = table.entries();
            let value = if index_a == index_b {
                Some(BitBoard(0))
            } else if is_diagonal_line(index_a as usize, index_b as usize) || is_straight_line(index_a as usize, index_b as usize) {
                Some(BitBoard(between_bits(index_a as usize, index_b as usize)))
            } else {
                None
            };
            table.set(square_a, square_b, value);
            proof {
                lemma_pair_index(index_a as int, index_b as int, index_a as int, index_b as int);
                assert forall|a: int, b: int| 0 <= a <= b < 64 && (a < index_a || (a == index_a && b < index_b + 1))
                    implies between_entry(a, b, #[trigger] table.entries()[pair_index(a, b)]) by {
                    if a == index_a && b == index_b {
                    } else {
                        lemma_pair_index(a, b, index_a as int, index_b as int);
                        assert(table.entries()[pair_index(a, b)] == before[pair_index(a, b)]);
                    }
                }
            }
            index_b = index_b + 1;
        }
        index_a = index_a + 1;
    }
}

} // verus!
