use crate::bits::{bit, popcount, swap_bytes_spec, lemma_nonzero_has_bit, lemma_zero_iff_no_bits, lemma_bit_or, lemma_bit_single};
use crate::board_files::File;
use crate::board_ranks::Rank;
use crate::coordinates::{file_of, rank_of, Square};
use vstd::prelude::*;
use vstd::std_specs::bits::u64_trailing_zeros;

verus! {

broadcast use crate::bits::group_bit_lemmas;

/// A set of squares, one bit per square (bit `i` for the square with index `i`).
#[derive(PartialEq, Eq, Clone, Copy, Debug, Default, Hash, Structural)]
pub struct BitBoard(pub u64);

impl BitBoard {
    /// Whether the square with index `i` belongs to the set.
    #[verifier::inline]
    pub open spec fn has(self, i: int) -> bool {
        bit(self.0, i)
    }

    /// Whether the set holds no square.
    pub open spec fn is_empty_spec(self) -> bool {
        forall|i: int| 0 <= i < 64 ==> !#[trigger] self.has(i)
    }

    pub fn new(b: u64) -> (r: BitBoard)
        ensures
            r.0 == b,
    {
        BitBoard(b)
    }

    /// The set that holds one square.
    pub fn from_square(square: Square) -> (r: Self)
        ensures
            forall|i: int| #[trigger] r.has(i) == (i == square.idx()),
            r.0 == 1u64 << (square.idx() as u64),
    {
        let s = square.to_int();
        proof {
            Square::lemma_idx_range(square);
            assert forall|i: int| #[trigger] bit(1u64 << (s as u64), i) == (i == square.idx()) by {
                lemma_bit_single(s as int, i);
            }
        }
        BitBoard(1u64 << (s as u64))
    }

    /// The set that holds the square on a rank and a file.
    pub fn from_rank_file(rank: Rank, file: File) -> (r: Self)
        ensures
            forall|i: int| #[trigger] r.has(i) == (i == rank.idx() * 8 + file.idx()),
    {
        Self::from_square(Square::from_rank_file(rank, file))
    }

    /// The set of all squares of a file.
    pub fn from_file(file: File) -> (r: Self)
        ensures
            forall|i: int| #[trigger] r.has(i) == (0 <= i < 64 && file_of(i) == file.idx()),
    {
        let f = file.to_index();
        let mut m: u64 = 0;
        let mut i: usize = 0;
        while i < 64
            invariant
                i <= 64,
                f == file.idx(),
                f < 8,
                forall|j: int| #[trigger] bit(m, j) == (0 <= j < i && file_of(j) == f),
            decreases 64 - i,
        {
            let ghost old_m = m;
            if i % 8 == f {
                m = m | (1u64 << (i as u64));
                proof {
                    assert forall|j: int| #[trigger] bit(m, j) == (0 <= j < i + 1 && file_of(j) == f) by {
                        lemma_bit_or(old_m, 1u64 << (i as u64), j);
                        lemma_bit_single(i as int, j);
                    }
                }
            }
            i = i + 1;
        }
        BitBoard(m)
    }

    /// The raw bits.
    pub fn bits(&self) -> (r: u64)
        ensures
            r == self.0,
    {
        self.0
    }

    /// Whether the set holds no square.
    pub fn is_blank(&self) -> (r: bool)
        ensures
            r == (self.0 == 0),
            r == self.is_empty_spec(),
    {
        proof {
            lemma_zero_iff_no_bits(self.0);
        }
        self.0 == 0
    }

    /// Number of squares in the set.
    pub fn count_ones(&self) -> (r: u32)
        ensures
            r == popcount(self.0),
    {
        let mut x = self.0;
        let mut c: u32 = 0;
        let mut n: u64 = 0;
        let y0 = self.0;
        assert(y0 >> 0u64 == y0) by (bit_vector);
        while x != 0
            invariant
                c + popcount(x) == popcount(self.0),
                c <= n <= 64,
                x == self.0 >> n,
            decreases x,
        {
            let y = self.0;
            assert(x & 1 == x % 2) by (bit_vector);
            assert(x >> 1 == x / 2) by (bit_vector);
            assert(n >= 64 ==> y >> n == 0) by (bit_vector);
            assert(n < 64 ==> (y >> n) >> 1 == y >> (n + 1)) by (bit_vector);
            c = c + (x & 1) as u32;
            x = x >> 1;
            n = n + 1;
        }
        c
    }

    /// The set mirrored across the middle of the board (ranks in reverse order).
    pub fn inverse(&self) -> (r: BitBoard)
        ensures
            r.0 == swap_bytes_spec(self.0),
    {
        let x = self.0;
        BitBoard(((x & 0xff) << 56u64) | (((x >> 8u64) & 0xff) << 48u64) | (((x >> 16u64) & 0xff)
            << 40u64) | (((x >> 24u64) & 0xff) << 32u64) | (((x >> 32u64) & 0xff) << 24u64) | (((x
            >> 40u64) & 0xff) << 16u64) | (((x >> 48u64) & 0xff) << 8u64) | ((x >> 56u64) & 0xff))
    }

    /// The lowest square of a set that is not empty.
    pub fn to_square(&self) -> (s: Square)
        requires
            self.0 != 0,
        ensures
            s.idx() == u64_trailing_zeros(self.0),
            self.has(s.idx()),
            forall|i: int| 0 <= i < s.idx() ==> !#[trigger] self.has(i),
    {
        proof {
            lemma_nonzero_has_bit(self.0);
        }
        Square::from_u8(self.0.trailing_zeros() as u8)
    }

    /// The lowest square of the set, if any.
    pub fn first_bit_square(&self) -> (r: Option<Square>)
        ensures
            r is None <==> self.0 == 0,
            r matches Some(s) ==> self.has(s.idx()) && forall|i: int|
                0 <= i < s.idx() ==> !#[trigger] self.has(i),
    {
        if self.0 == 0 {
            None
        } else {
            Some(self.to_square())
        }
    }

    /// The squares of the set in increasing order.
    pub fn squares(&self) -> (r: Vec<Square>)
        ensures
            forall|k: int| 0 <= k < r.len() ==> #[trigger] self.has(r@[k].idx()),
            forall|i: int| #[trigger] self.has(i) ==> exists|k: int| 0 <= k < r.len() && r@[k].idx() == i,
            forall|k1: int, k2: int| 0 <= k1 < k2 < r.len() ==> r@[k1].idx() < r@[k2].idx(),
    {
        let mut r: Vec<Square> = Vec::new();
        let mut i: u8 = 0;
        while i < 64
            invariant
                i <= 64,
                forall|k: int| 0 <= k < r.len() ==> self.has(#[trigger] r@[k].idx()) && r@[k].idx() < i,
                forall|j: int| 0 <= j < i && #[trigger] self.has(j) ==> exists|k: int| 0 <= k < r.len() && r@[k].idx() == j,
                forall|k1: int, k2: int| 0 <= k1 < k2 < r.len() ==> r@[k1].idx() < r@[k2].idx(),
            decreases 64 - i,
        {
            if (self.0 >> (i as u64)) & 1 == 1 {
                let s = Square::from_u8(i);
                let ghost old_r = r@;
                assert(bit(self.0, i as int));
                r.push(s);
                assert(r@[r.len() - 1].idx() == i);
                assert forall|k: int| 0 <= k < old_r.len() implies r@[k] == old_r[k] by {}
            }
            i = i + 1;
        }
        r
    }

    /// The board drawn as eight lines of `X` (in the set) and `.` (not), eighth rank first.
    pub fn to_string(&self) -> (r: String)
        ensures
            r@.len() == 8 * 17,
            forall|row: int, f: int| 0 <= row < 8 && 0 <= f < 8 ==>
                #[trigger] r@[row * 17 + 2 * f] == (if self.has((7 - row) * 8 + f) { 'X' } else { '.' }),
            forall|row: int, f: int| 0 <= row < 8 && 0 <= f < 8 ==> #[trigger] r@[row * 17 + 2 * f + 1] == ' ',
            forall|row: int| 0 <= row < 8 ==> #[trigger] r@[row * 17 + 16] == '\n',
    {
        let mut s = String::new();
        let mut row: usize = 0;
        while row < 8
            invariant
                row <= 8,
                s@.len() == row * 17,
                forall|rw: int, f: int| 0 <= rw < row && 0 <= f < 8 ==>
                    #[trigger] s@[rw * 17 + 2 * f] == (if self.has((7 - rw) * 8 + f) { 'X' } else { '.' }),
                forall|rw: int, f: int| 0 <= rw < row && 0 <= f < 8 ==> #[trigger] s@[rw * 17 + 2 * f + 1] == ' ',
                forall|rw: int| 0 <= rw < row ==> #[trigger] s@[rw * 17 + 16] == '\n',
            decreases 8 - row,
        {
            let mut f: usize = 0;
            while f < 8
                invariant
                    row < 8,
                    f <= 8,
                    s@.len() == row * 17 + 2 * f,
                    forall|rw: int, ff: int| 0 <= rw < row && 0 <= ff < 8 ==>
                        #[trigger] s@[rw * 17 + 2 * ff] == (if self.has((7 - rw) * 8 + ff) { 'X' } else { '.' }),
                    forall|ff: int| 0 <= ff < f ==>
                        #[trigger] s@[row * 17 + 2 * ff] == (if self.has((7 - row) * 8 + ff) { 'X' } else { '.' }),
                    forall|rw: int, ff: int| 0 <= rw < row && 0 <= ff < 8 ==> #[trigger] s@[rw * 17 + 2 * ff + 1] == ' ',
                    forall|rw: int| 0 <= rw < row ==> #[trigger] s@[rw * 17 + 16] == '\n',
                    forall|ff: int| 0 <= ff < f ==> #[trigger] s@[row * 17 + 2 * ff + 1] == ' ',
                decreases 8 - f,
            {
                let n = ((7 - row) * 8 + f) as u64;
                let c = if (self.0 >> n) & 1 == 1 {
                    'X'
                } else {
                    '.'
                };
                crate::text::push_char(&mut s, c);
                crate::text::push_char(&mut s, ' ');
                f = f + 1;
            }
            crate::text::push_char(&mut s, '\n');
            row = row + 1;
        }
        s
    }
}

impl core::ops::BitAnd for BitBoard {
    type Output = BitBoard;

    fn bitand(self, other: BitBoard) -> (r: BitBoard) {
        BitBoard(self.0 & other.0)
    }
}

impl vstd::std_specs::ops::BitAndSpecImpl for BitBoard {
    open spec fn obeys_bitand_spec() -> bool {
        true
    }

    open spec fn bitand_req(self, rhs: BitBoard) -> bool {
        true
    }

    open spec fn bitand_spec(self, rhs: BitBoard) -> BitBoard {
        BitBoard(self.0 & rhs.0)
    }
}

impl core::ops::BitOr for BitBoard {
    type Output = BitBoard;

    fn bitor(self, other: BitBoard) -> (r: BitBoard) {
        BitBoard(self.0 | other.0)
    }
}

impl vstd::std_specs::ops::BitOrSpecImpl for BitBoard {
    open spec fn obeys_bitor_spec() -> bool {
        true
    }

    open spec fn bitor_req(self, rhs: BitBoard) -> bool {
        true
    }

    open spec fn bitor_spec(self, rhs: BitBoard) -> BitBoard {
        BitBoard(self.0 | rhs.0)
    }
}

impl core::ops::BitXor for BitBoard {
    type Output = BitBoard;

    fn bitxor(self, other: BitBoard) -> (r: BitBoard) {
        BitBoard(self.0 ^ other.0)
    }
}

impl vstd::std_specs::ops::BitXorSpecImpl for BitBoard {
    open spec fn obeys_bitxor_spec() -> bool {
        true
    }

    open spec fn bitxor_req(self, rhs: BitBoard) -> bool {
        true
    }

    open spec fn bitxor_spec(self, rhs: BitBoard) -> BitBoard {
        BitBoard(self.0 ^ rhs.0)
    }
}

impl core::ops::Not for BitBoard {
    type Output = BitBoard;

    fn not(self) -> (r: BitBoard) {
        BitBoard(!self.0)
    }
}

impl vstd::std_specs::ops::NotSpecImpl for BitBoard {
    open spec fn obeys_not_spec() -> bool {
        true
    }

    open spec fn not_req(self) -> bool {
        true
    }

    open spec fn not_spec(self) -> BitBoard {
        BitBoard(!self.0)
    }
}

impl core::ops::BitAndAssign for BitBoard {
    fn bitand_assign(&mut self, other: BitBoard)
        ensures
            *final(self) == BitBoard(old(self).0 & other.0),
    {
        self.0 = self.0 & other.0;
    }
}

impl core::ops::BitOrAssign for BitBoard {
    fn bitor_assign(&mut self, other: BitBoard)
        ensures
            *final(self) == BitBoard(old(self).0 | other.0),
    {
        self.0 = self.0 | other.0;
    }
}

impl core::ops::BitXorAssign for BitBoard {
    fn bitxor_assign(&mut self, other: BitBoard)
        ensures
            *final(self) == BitBoard(old(self).0 ^ other.0),
    {
        self.0 = self.0 ^ other.0;
    }
}

impl core::ops::Mul for BitBoard {
    type Output = BitBoard;

    fn mul(self, other: BitBoard) -> (r: BitBoard) {
        BitBoard(self.0.wrapping_mul(other.0))
    }
}

impl vstd::std_specs::ops::MulSpecImpl for BitBoard {
    open spec fn obeys_mul_spec() -> bool {
        true
    }

    open spec fn mul_req(self, rhs: BitBoard) -> bool {
        true
    }

    open spec fn mul_spec(self, rhs: BitBoard) -> BitBoard {
        BitBoard(vstd::wrapping::u64_specs::wrapping_mul(self.0, rhs.0))
    }
}

} // verus!
