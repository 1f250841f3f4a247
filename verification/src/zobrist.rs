//! Zobrist hashing: a position's hash is the exclusive or of random keys, one for every piece on
//! its square, one for the castling rights of each side, one for the file of the en-passant
//! square and one for black to move.
use crate::castling::CastlingRights;
use crate::colors::Color;
use crate::coordinates::{file_of, Square};
use crate::pieces::{Piece, PieceType};
use crate::placement::PieceMasks;
use crate::rules::Place;
use rand::rngs::StdRng;
use rand::{Rng, SeedableRng};
use vstd::prelude::*;

verus! {

/// The seed of the random keys.
pub const SEED: u64 = 1370359990842121;

/// Number of keys: black to move, 2 x 6 x 64 pieces on squares, 2 x 4 castling rights, 8 files.
pub const KEYS_NUMBER: usize = 785;

pub type PositionHashValueType = u64;

/// The first `count` values drawn from `StdRng::seed_from_u64(seed)`.
pub uninterp spec fn seeded_sequence(seed: u64, count: nat) -> Seq<u64>;

/// Draws `count` values of type `u64` from a standard generator seeded with `seed`
/// (`StdRng::seed_from_u64`, then `Rng::gen` `count` times). The values are named by
/// `seeded_sequence`; nothing more is stated of them.
#[verifier::external_body]
fn random_u64_sequence(seed: u64, count: usize) -> (r: Vec<u64>)
    ensures
        r@ == seeded_sequence(seed, count as nat),
        r@.len() == count,
{
    StdRng::seed_from_u64(seed).sample_iter(rand::distributions::Standard).take(count).collect()
}

/// All the keys, in the order they are drawn.
pub open spec fn zobrist_keys() -> Seq<u64> {
    seeded_sequence(SEED, KEYS_NUMBER as nat)
}

pub open spec fn black_to_move_key() -> u64 {
    zobrist_keys()[0]
}

pub open spec fn piece_key(piece: Piece, square: int) -> u64 {
    zobrist_keys()[1 + piece.1.index_spec() * 384 + piece.0.index_spec() * 64 + square]
}

pub open spec fn castling_key(color: Color, rights: CastlingRights) -> u64 {
    zobrist_keys()[769 + color.index_spec() * 4 + rights.index_spec()]
}

pub open spec fn en_passant_key(file: int) -> u64 {
    zobrist_keys()[777 + file]
}

/// `init` combined with the keys of the pieces on the squares below `n`.
pub open spec fn pieces_hash(p: Place, init: u64, n: int) -> u64
    decreases n,
{
    if n <= 0 {
        init
    } else {
        pieces_hash(p, init, n - 1) ^ match p(n - 1) {
            Some(pc) => piece_key(pc, n - 1),
            None => 0u64,
        }
    }
}

/// The hash of a position.
pub open spec fn position_hash(
    p: Place,
    side: Color,
    white_rights: CastlingRights,
    black_rights: CastlingRights,
    ep: Option<Square>,
) -> u64 {
    let init: u64 = if side == Color::Black {
        black_to_move_key()
    } else {
        0u64
    };
    let h = pieces_hash(p, init, 64) ^ castling_key(Color::White, white_rights) ^ castling_key(
        Color::Black,
        black_rights,
    );
    match ep {
        Some(s) => h ^ en_passant_key(file_of(s.idx())),
        None => h,
    }
}

/// The key of what stands on a square: that of the piece, or 0 for an empty square.
pub open spec fn square_key(piece: Option<Piece>, square: int) -> u64 {
    match piece {
        Some(pc) => piece_key(pc, square),
        None => 0u64,
    }
}

/// Combining with a starting value is combining with it afterwards.
pub proof fn lemma_pieces_hash_init(p: Place, init: u64, n: int)
    ensures
        pieces_hash(p, init, n) == init ^ pieces_hash(p, 0u64, n),
    decreases n,
{
    if n <= 0 {
        assert(init ^ 0u64 == init) by (bit_vector);
    } else {
        lemma_pieces_hash_init(p, init, n - 1);
        let a = pieces_hash(p, 0u64, n - 1);
        let k = square_key(p(n - 1), n - 1);
        assert((init ^ a) ^ k == init ^ (a ^ k)) by (bit_vector);
    }
}

/// Changing what stands on one square `s` changes the hash by the keys of what stood there and
/// what stands there now.
pub proof fn lemma_pieces_hash_change(p1: Place, p2: Place, s: int, n: int)
    requires
        0 <= s < 64,
        n <= 64,
        forall|i: int| i != s ==> #[trigger] p1(i) == p2(i),
    ensures
        pieces_hash(p2, 0u64, n) == if s < n {
            pieces_hash(p1, 0u64, n) ^ square_key(p1(s), s) ^ square_key(p2(s), s)
        } else {
            pieces_hash(p1, 0u64, n)
        },
    decreases n,
{
    if n > 0 {
        lemma_pieces_hash_change(p1, p2, s, n - 1);
        let a = pieces_hash(p1, 0u64, n - 1);
        let k1 = square_key(p1(s), s);
        let k2 = square_key(p2(s), s);
        if n - 1 == s {
            assert(a ^ k2 == ((a ^ k1) ^ k1) ^ k2) by (bit_vector);
        } else {
            assert(p1(n - 1) == p2(n - 1));
            let k = square_key(p1(n - 1), n - 1);
            if s < n - 1 {
                assert(((a ^ k1) ^ k2) ^ k == ((a ^ k) ^ k1) ^ k2) by (bit_vector);
            }
        }
    }
}

/// The place that has the pieces of `after` on the squares of `done` and those of `before`
/// elsewhere.
pub open spec fn place_between(before: Place, after: Place, done: Seq<usize>) -> Place {
    |i: int| if listed(done, i) { after(i) } else { before(i) }
}

/// The square `i` is among `done`.
pub open spec fn listed(done: Seq<usize>, i: int) -> bool {
    exists|j: int| 0 <= j < done.len() && #[trigger] done[j] as int == i
}

/// The hash tells the side to move apart: with black to move, a position hashes to its hash with
/// white to move combined with the first key drawn, whatever the pieces, the castling rights and
/// the en-passant square; the two hashes are equal only if that key is 0.
pub proof fn lemma_side_to_move_in_hash(
    p: Place,
    white_rights: CastlingRights,
    black_rights: CastlingRights,
    ep: Option<Square>,
)
    ensures
        position_hash(p, Color::Black, white_rights, black_rights, ep) == position_hash(
            p,
            Color::White,
            white_rights,
            black_rights,
            ep,
        ) ^ zobrist_keys()[0],
        (position_hash(p, Color::Black, white_rights, black_rights, ep) == position_hash(
            p,
            Color::White,
            white_rights,
            black_rights,
            ep,
        )) <==> zobrist_keys()[0] == 0,
{
    let k = zobrist_keys()[0];
    let x = pieces_hash(p, 0u64, 64);
    lemma_pieces_hash_init(p, k, 64);
    lemma_pieces_hash_init(p, 0u64, 64);
    let cw = castling_key(Color::White, white_rights);
    let cb = castling_key(Color::Black, black_rights);
    match ep {
        Some(s) => {
            let e = en_passant_key(file_of(s.idx()));
            assert((((k ^ x) ^ cw) ^ cb) ^ e == ((((0u64 ^ x) ^ cw) ^ cb) ^ e) ^ k) by (bit_vector);
            let w = (((0u64 ^ x) ^ cw) ^ cb) ^ e;
            assert((w ^ k == w) <==> k == 0) by (bit_vector);
        },
        None => {
            assert(((k ^ x) ^ cw) ^ cb == (((0u64 ^ x) ^ cw) ^ cb) ^ k) by (bit_vector);
            let w = ((0u64 ^ x) ^ cw) ^ cb;
            assert((w ^ k == w) <==> k == 0) by (bit_vector);
        },
    }
}

/// The table of random keys.
#[derive(Debug)]
pub struct ZobristHasher {
    keys: Vec<u64>,
}

impl ZobristHasher {
    #[verifier::type_invariant]
    spec fn inv(self) -> bool {
        self.keys@ == zobrist_keys() && self.keys@.len() == KEYS_NUMBER
    }

    /// The keys of the table, in the order they were drawn.
    pub closed spec fn keys_spec(self) -> Seq<u64> {
        self.keys@
    }

    /// Draws the keys: the first `KEYS_NUMBER` values of the generator seeded with `SEED`.
    pub fn new() -> (r: Self)
        ensures
            r.keys_spec() == zobrist_keys(),
    {
        let keys = random_u64_sequence(SEED, KEYS_NUMBER);
        ZobristHasher { keys }
    }

    pub fn get_piece_square_value(&self, piece: Piece, square: Square) -> (r: PositionHashValueType)
        ensures
            r == piece_key(piece, square.idx()),
    {
        proof {
            use_type_invariant(self);
        }
        self.keys[1 + piece.1.to_index() * 384 + piece.0.to_index() * 64 + square.to_index()]
    }

    pub fn get_black_to_move_value(&self) -> (r: PositionHashValueType)
        ensures
            r == black_to_move_key(),
            r == zobrist_keys()[0],
    {
        proof {
            use_type_invariant(self);
        }
        self.keys[0]
    }

    pub fn get_castling_rights_value(&self, castling_rights: CastlingRights, color: Color) -> (r: PositionHashValueType)
        ensures
            r == castling_key(color, castling_rights),
    {
        proof {
            use_type_invariant(self);
        }
        self.keys[769 + color.to_index() * 4 + castling_rights.to_index()]
    }

    /// The key of the file of an en-passant square.
    pub fn get_en_passant_value(&self, square: Square) -> (r: PositionHashValueType)
        ensures
            r == en_passant_key(file_of(square.idx())),
    {
        proof {
            use_type_invariant(self);
        }
        self.keys[777 + square.to_index() % 8]
    }

    /// The hash of the position given by its parts.
    pub(crate) fn hash_of(
        &self,
        masks: &PieceMasks,
        side: Color,
        white_rights: CastlingRights,
        black_rights: CastlingRights,
        ep: Option<Square>,
    ) -> (r: PositionHashValueType)
        requires
            masks.wf(),
        ensures
            r == position_hash(masks.placement(), side, white_rights, black_rights, ep),
    {
        let ghost p = masks.placement();
        let init: u64 = match side {
            Color::Black => self.get_black_to_move_value(),
            Color::White => 0,
        };
        let mut hash = init;
        let mut sq: usize = 0;
        while sq < 64
            invariant
                sq <= 64,
                masks.wf(),
                p == masks.placement(),
                hash == pieces_hash(p, init, sq as int),
            decreases 64 - sq,
        {
            match masks.piece_on(sq) {
                Some(pc) => {
                    hash = hash ^ self.get_piece_square_value(pc, Square::from_u8(sq as u8));
                },
                None => {
                    assert(hash ^ 0u64 == hash) by (bit_vector);
                },
            }
            sq = sq + 1;
        }
        hash = hash ^ self.get_castling_rights_value(white_rights, Color::White);
        hash = hash ^ self.get_castling_rights_value(black_rights, Color::Black);
        match ep {
            Some(s) => {
                hash = hash ^ self.get_en_passant_value(s);
            },
            None => {},
        }
        hash
    }
}

impl ZobristHasher {
    /// `hash` changed by the keys of what stands on the squares `squares` before and after a
    /// change of the pieces that touches no other square: the difference of the pieces' part of
    /// the hash.
    pub(crate) fn piece_changes(
        &self,
        hash: u64,
        before: &PieceMasks,
        after: &PieceMasks,
        squares: &Vec<usize>,
    ) -> (r: u64)
        requires
            before.wf(),
            after.wf(),
            forall|j: int| 0 <= j < squares@.len() ==> #[trigger] squares@[j] < 64,
            forall|i: int|
                (forall|j: int| 0 <= j < squares@.len() ==> #[trigger] squares@[j] as int != i) ==> before.piece_at(i)
                    == after.piece_at(i),
        ensures
            r == hash ^ pieces_hash(before.placement(), 0u64, 64) ^ pieces_hash(after.placement(), 0u64, 64),
    {
        let ghost p1 = before.placement();
        let ghost p2 = after.placement();
        let mut acc = hash;
        let mut j: usize = 0;
        proof {
            assert(place_between(p1, p2, squares@.take(0)) =~= p1);
            let a = pieces_hash(p1, 0u64, 64);
            assert(hash == (hash ^ a) ^ a) by (bit_vector);
        }
        while j < squares.len()
            invariant
                j <= squares@.len(),
                before.wf(),
                after.wf(),
                p1 == before.placement(),
                p2 == after.placement(),
                forall|k: int| 0 <= k < squares@.len() ==> #[trigger] squares@[k] < 64,
                acc == hash ^ pieces_hash(p1, 0u64, 64) ^ pieces_hash(place_between(p1, p2, squares@.take(j as int)), 0u64, 64),
            decreases squares@.len() - j,
        {
            let s = squares[j];
            let ghost q = place_between(p1, p2, squares@.take(j as int));
            let ghost q2 = place_between(p1, p2, squares@.take(j + 1));
            let mut seen = false;
            let mut k: usize = 0;
            while k < j
                invariant
                    k <= j < squares@.len(),
                    s == squares@[j as int],
                    seen == exists|m: int| 0 <= m < k && #[trigger] squares@[m] == s,
                decreases j - k,
            {
                if squares[k] == s {
                    seen = true;
                }
                k = k + 1;
            }
            if seen {
                proof {
                    let m2 = choose|m2: int| 0 <= m2 < k && squares@[m2] == s;
                    assert(squares@.take(j as int)[m2] == s);
                    assert forall|i: int| #[trigger] q2(i) == q(i) by {
                        if listed(squares@.take(j + 1), i) {
                            let m = choose|m: int| 0 <= m < j + 1 && #[trigger] squares@.take(j + 1)[m] as int == i;
                            if m < j {
                                assert(squares@.take(j as int)[m] as int == i);
                            }
                        }
                        if listed(squares@.take(j as int), i) {
                            let m = choose|m: int| 0 <= m < j && #[trigger] squares@.take(j as int)[m] as int == i;
                            assert(squares@.take(j + 1)[m] as int == i);
                        }
                    }
                    assert(q2 =~= q);
                }
            } else {
                let old_key: u64 = match before.piece_on(s) {
                    Some(pc) => self.get_piece_square_value(pc, Square::from_u8(s as u8)),
                    None => 0,
                };
                let new_key: u64 = match after.piece_on(s) {
                    Some(pc) => self.get_piece_square_value(pc, Square::from_u8(s as u8)),
                    None => 0,
                };
                proof {
                    assert(q(s as int) == p1(s as int)) by {
                        if listed(squares@.take(j as int), s as int) {
                            let m = choose|m: int| 0 <= m < j && #[trigger] squares@.take(j as int)[m] as int == s as int;
                            assert(squares@[m] == s);
                        }
                    }
                    assert(q2(s as int) == p2(s as int)) by {
                        assert(squares@.take(j + 1)[j as int] == s);
                    }
                    assert forall|i: int| i != s as int implies #[trigger] q(i) == q2(i) by {
                        if listed(squares@.take(j + 1), i) {
                            let m = choose|m: int| 0 <= m < j + 1 && #[trigger] squares@.take(j + 1)[m] as int == i;
                            assert(m != j);
                            assert(squares@.take(j as int)[m] as int == i);
                        }
                        if listed(squares@.take(j as int), i) {
                            let m = choose|m: int| 0 <= m < j && #[trigger] squares@.take(j as int)[m] as int == i;
                            assert(squares@.take(j + 1)[m] as int == i);
                        }
                    }
                    lemma_pieces_hash_change(q, q2, s as int, 64);
                    let a = hash ^ pieces_hash(p1, 0u64, 64);
                    let b = pieces_hash(q, 0u64, 64);
                    assert((a ^ b) ^ (old_key ^ new_key) == a ^ ((b ^ old_key) ^ new_key)) by (bit_vector);
                }
                acc = acc ^ (old_key ^ new_key);
            }
            j = j + 1;
        }
        proof {
            assert(squares@.take(squares@.len() as int) =~= squares@);
            let q = place_between(p1, p2, squares@);
            assert forall|i: int| #[trigger] q(i) == p2(i) by {
                if !listed(squares@, i) {
                    assert forall|m: int| 0 <= m < squares@.len() implies #[trigger] squares@[m] as int != i by {}
                    assert(before.piece_at(i) == after.piece_at(i));
                }
            }
            assert(q =~= p2);
        }
        acc
    }

    /// The hash of a position, computed from scratch.
    pub fn calculate_position_hash(&self, position: &crate::chess_boards::ChessBoard) -> (r: PositionHashValueType)
        ensures
            r == position.hash_spec(),
    {
        self.hash_of(
            position.piece_masks(),
            position.get_side_to_move(),
            position.get_castle_rights(Color::White),
            position.get_castle_rights(Color::Black),
            position.get_en_passant(),
        )
    }
}

impl Clone for ZobristHasher {
    /// A copy of the table.
    fn clone(&self) -> (r: Self)
        ensures
            r.keys_spec() == self.keys_spec(),
    {
        proof {
            use_type_invariant(self);
        }
        let keys = self.keys.clone();
        assert(keys@ =~= self.keys@);
        ZobristHasher { keys }
    }
}

impl Default for ZobristHasher {
    /// The table of `new`.
    fn default() -> (r: Self)
        ensures
            r.keys_spec() == zobrist_keys(),
    {
        Self::new()
    }
}

} // verus!
