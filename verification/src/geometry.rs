//! Geometry of the board: how squares relate to one another, independent of any position.
use crate::bits::bit;
use crate::coordinates::{file_of, rank_of, square_at};
use vstd::prelude::*;

verus! {

pub open spec fn iabs(x: int) -> int {
    if x < 0 {
        -x
    } else {
        x
    }
}

pub open spec fn sgn(x: int) -> int {
    if x > 0 {
        1
    } else if x < 0 {
        -1
    } else {
        0
    }
}

pub open spec fn imax(x: int, y: int) -> int {
    if x >= y {
        x
    } else {
        y
    }
}

/// Rank difference from square `a` to square `b`.
pub open spec fn rdiff(a: int, b: int) -> int {
    rank_of(b) - rank_of(a)
}

/// File difference from square `a` to square `b`.
pub open spec fn fdiff(a: int, b: int) -> int {
    file_of(b) - file_of(a)
}

pub open spec fn is_square(i: int) -> bool {
    0 <= i < 64
}

/// A knight's jump from `a` to `b`.
pub open spec fn knight_step(a: int, b: int) -> bool {
    is_square(a) && is_square(b) && ((iabs(rdiff(a, b)) == 1 && iabs(fdiff(a, b)) == 2) || (iabs(
        rdiff(a, b),
    ) == 2 && iabs(fdiff(a, b)) == 1))
}

/// A king's step from `a` to `b`.
pub open spec fn king_step(a: int, b: int) -> bool {
    is_square(a) && is_square(b) && iabs(rdiff(a, b)) <= 1 && iabs(fdiff(a, b)) <= 1 && a != b
}

/// `b` lies on a diagonal through `a` (and differs from it).
pub open spec fn diagonal_line(a: int, b: int) -> bool {
    is_square(a) && is_square(b) && iabs(rdiff(a, b)) == iabs(fdiff(a, b)) && rdiff(a, b) != 0
}

/// `b` lies on the rank or the file of `a` (and differs from it).
pub open spec fn straight_line(a: int, b: int) -> bool {
    is_square(a) && is_square(b) && ((rdiff(a, b) == 0) != (fdiff(a, b) == 0))
}

/// `b` is reachable from `a` along a line: a diagonal, a rank or a file.
pub open spec fn aligned(a: int, b: int) -> bool {
    diagonal_line(a, b) || straight_line(a, b)
}

/// Number of steps from `a` to `b` along their line.
pub open spec fn line_len(a: int, b: int) -> int {
    imax(iabs(rdiff(a, b)), iabs(fdiff(a, b)))
}

/// The square `k` steps from `a` towards `b`.
pub open spec fn line_square(a: int, b: int, k: int) -> int {
    square_at(rank_of(a) + k * sgn(rdiff(a, b)), file_of(a) + k * sgn(fdiff(a, b)))
}

/// No square strictly between `a` and `b` is set in `occ`.
pub open spec fn path_clear(a: int, b: int, occ: u64) -> bool {
    forall|k: int| 0 < k < line_len(a, b) ==> !bit(occ, #[trigger] line_square(a, b, k))
}

/// `x` lies strictly between `a` and `b` on their line.
pub open spec fn strictly_between(a: int, b: int, x: int) -> bool {
    aligned(a, b) && exists|k: int| 0 < k < line_len(a, b) && #[trigger] line_square(a, b, k) == x
}

/// `x` is the only square strictly between `a` and `b` that is set in `occ`.
pub open spec fn sole_blocker(a: int, b: int, occ: u64, x: int) -> bool {
    aligned(a, b) && exists|k: int|
        0 < k < line_len(a, b) && #[trigger] line_square(a, b, k) == x && bit(occ, x) && forall|
            j: int,
        |
            0 < j < line_len(a, b) && j != k ==> !bit(occ, #[trigger] line_square(a, b, j))
}

pub proof fn lemma_square_coords(i: int)
    requires
        is_square(i),
    ensures
        0 <= rank_of(i) < 8,
        0 <= file_of(i) < 8,
        square_at(rank_of(i), file_of(i)) == i,
{
}

pub proof fn lemma_square_at(r: int, f: int)
    requires
        0 <= r < 8,
        0 <= f < 8,
    ensures
        is_square(square_at(r, f)),
        rank_of(square_at(r, f)) == r,
        file_of(square_at(r, f)) == f,
{
}

/// The squares along an aligned line lie on the board, step by step.
pub proof fn lemma_line_square(a: int, b: int, k: int)
    requires
        aligned(a, b),
        0 <= k <= line_len(a, b),
    ensures
        is_square(line_square(a, b, k)),
        rank_of(line_square(a, b, k)) == rank_of(a) + k * sgn(rdiff(a, b)),
        file_of(line_square(a, b, k)) == file_of(a) + k * sgn(fdiff(a, b)),
        k == line_len(a, b) ==> line_square(a, b, k) == b,
        k == 0 ==> line_square(a, b, k) == a,
{
    let sr = sgn(rdiff(a, b));
    let sf = sgn(fdiff(a, b));
    let r = rank_of(a) + k * sr;
    let f = file_of(a) + k * sf;
    assert(0 <= r < 8 && 0 <= f < 8) by {
        if sr == 1 {
            assert(k * sr == k);
        } else if sr == -1 {
            assert(k * sr == -k);
        } else {
            assert(k * sr == 0);
        }
        if sf == 1 {
            assert(k * sf == k);
        } else if sf == -1 {
            assert(k * sf == -k);
        } else {
            assert(k * sf == 0);
        }
    }
    lemma_square_at(r, f);
    if k == line_len(a, b) {
        assert(k * sr == rdiff(a, b) && k * sf == fdiff(a, b)) by {
            if sr == 1 {
                assert(k * sr == k);
            } else if sr == -1 {
                assert(k * sr == -k);
            } else {
                assert(k * sr == 0);
            }
            if sf == 1 {
                assert(k * sf == k);
            } else if sf == -1 {
                assert(k * sf == -k);
            } else {
                assert(k * sf == 0);
            }
        }
    }
    if k == 0 {
        assert(k * sr == 0 && k * sf == 0);
    }
}

/// Rank and file of a square.
pub fn coords(s: usize) -> (r: (i32, i32))
    requires
        s < 64,
    ensures
        r.0 == rank_of(s as int),
        r.1 == file_of(s as int),
        0 <= r.0 < 8,
        0 <= r.1 < 8,
{
    ((s / 8) as i32, (s % 8) as i32)
}

fn abs_i32(x: i32) -> (r: i32)
    requires
        -100 < x < 100,
    ensures
        r == iabs(x as int),
{
    if x < 0 {
        -x
    } else {
        x
    }
}

fn sgn_i32(x: i32) -> (r: i32)
    ensures
        r == sgn(x as int),
{
    if x > 0 {
        1
    } else if x < 0 {
        -1
    } else {
        0
    }
}

pub fn is_knight_step(a: usize, b: usize) -> (r: bool)
    requires
        a < 64,
        b < 64,
    ensures
        r == knight_step(a as int, b as int),
{
    let (ra, fa) = coords(a);
    let (rb, fb) = coords(b);
    let dr = abs_i32(rb - ra);
    let df = abs_i32(fb - fa);
    (dr == 1 && df == 2) || (dr == 2 && df == 1)
}

pub fn is_king_step(a: usize, b: usize) -> (r: bool)
    requires
        a < 64,
        b < 64,
    ensures
        r == king_step(a as int, b as int),
{
    let (ra, fa) = coords(a);
    let (rb, fb) = coords(b);
    abs_i32(rb - ra) <= 1 && abs_i32(fb - fa) <= 1 && a != b
}

pub fn is_diagonal_line(a: usize, b: usize) -> (r: bool)
    requires
        a < 64,
        b < 64,
    ensures
        r == diagonal_line(a as int, b as int),
{
    let (ra, fa) = coords(a);
    let (rb, fb) = coords(b);
    abs_i32(rb - ra) == abs_i32(fb - fa) && rb != ra
}

pub fn is_straight_line(a: usize, b: usize) -> (r: bool)
    requires
        a < 64,
        b < 64,
    ensures
        r == straight_line(a as int, b as int),
{
    let (ra, fa) = coords(a);
    let (rb, fb) = coords(b);
    (rb == ra) != (fb == fa)
}

/// Whether no square strictly between `a` and `b` is set in `occ`.
pub fn is_path_clear(a: usize, b: usize, occ: u64) -> (r: bool)
    requires
        a < 64,
        b < 64,
        aligned(a as int, b as int),
    ensures
        r == path_clear(a as int, b as int, occ),
{
    let (ra, fa) = coords(a);
    let (rb, fb) = coords(b);
    let sr = sgn_i32(rb - ra);
    let sf = sgn_i32(fb - fa);
    let dr = abs_i32(rb - ra);
    let df = abs_i32(fb - fa);
    let n = if dr >= df {
        dr
    } else {
        df
    };
    let mut k: i32 = 1;
    while k < n
        invariant
            1 <= k,
            n == line_len(a as int, b as int),
            n <= 7,
            k <= n || n == 0,
            sr == sgn(rdiff(a as int, b as int)),
            sf == sgn(fdiff(a as int, b as int)),
            ra == rank_of(a as int),
            fa == file_of(a as int),
            aligned(a as int, b as int),
            forall|j: int| 0 < j < k ==> !bit(occ, #[trigger] line_square(a as int, b as int, j)),
        decreases n - k,
    {
        proof {
            lemma_line_square(a as int, b as int, k as int);
        }
        let x = ((ra + k * sr) * 8 + (fa + k * sf)) as u64;
        assert(x == line_square(a as int, b as int, k as int));
        if (occ >> x) & 1 == 1 {
            assert(bit(occ, line_square(a as int, b as int, k as int)));
            return false;
        }
        k = k + 1;
    }
    true
}

/// Counts the squares strictly between `a` and `b` that are set in `occ`, up to two;
/// where there is exactly one, also gives it.
pub fn path_blockers(a: usize, b: usize, occ: u64) -> (r: (u8, usize))
    requires
        a < 64,
        b < 64,
        aligned(a as int, b as int),
    ensures
        r.0 <= 2,
        r.0 == 0 <==> path_clear(a as int, b as int, occ),
        r.0 == 1 ==> r.1 < 64 && sole_blocker(a as int, b as int, occ, r.1 as int),
        r.0 == 2 ==> forall|x: int| !sole_blocker(a as int, b as int, occ, x),
{
    let (ra, fa) = coords(a);
    let (rb, fb) = coords(b);
    let sr = sgn_i32(rb - ra);
    let sf = sgn_i32(fb - fa);
    let dr = abs_i32(rb - ra);
    let df = abs_i32(fb - fa);
    let n = if dr >= df {
        dr
    } else {
        df
    };
    let mut k: i32 = 1;
    let mut count: u8 = 0;
    let mut found: usize = 0;
    let ghost mut found_k: int = 0;
    while k < n
        invariant
            1 <= k,
            n == line_len(a as int, b as int),
            n <= 7,
            k <= n || n == 0,
            sr == sgn(rdiff(a as int, b as int)),
            sf == sgn(fdiff(a as int, b as int)),
            ra == rank_of(a as int),
            fa == file_of(a as int),
            aligned(a as int, b as int),
            count <= 1,
            count == 0 ==> forall|j: int| 0 < j < k ==> !bit(occ, #[trigger] line_square(a as int, b as int, j)),
            count == 1 ==> {
                &&& 0 < found_k < k
                &&& found == line_square(a as int, b as int, found_k)
                &&& found < 64
                &&& bit(occ, found as int)
                &&& forall|j: int| 0 < j < k && j != found_k ==> !bit(occ, #[trigger] line_square(a as int, b as int, j))
            },
        decreases n - k,
    {
        proof {
            lemma_line_square(a as int, b as int, k as int);
        }
        let x = ((ra + k * sr) * 8 + (fa + k * sf)) as u64;
        assert(x == line_square(a as int, b as int, k as int));
        if (occ >> x) & 1 == 1 {
            assert(bit(occ, line_square(a as int, b as int, k as int)));
            if count == 1 {
                proof {
                    assert forall|y: int| !sole_blocker(a as int, b as int, occ, y) by {
                        if sole_blocker(a as int, b as int, occ, y) {
                            let kk = choose|kk: int|
                                0 < kk < line_len(a as int, b as int) && #[trigger] line_square(a as int, b as int, kk) == y
                                    && bit(occ, y) && forall|j: int|
                                    0 < j < line_len(a as int, b as int) && j != kk ==> !bit(occ, #[trigger] line_square(a as int, b as int, j));
                            assert(kk == k || kk == found_k) by {
                                if kk != k {
                                    assert(!bit(occ, line_square(a as int, b as int, k as int)));
                                }
                            }
                            if kk == k {
                                assert(!bit(occ, line_square(a as int, b as int, found_k)));
                            } else {
                                assert(!bit(occ, line_square(a as int, b as int, k as int)));
                            }
                        }
                    }
                }
                return (2, 0);
            }
            count = 1;
            found = x as usize;
            proof {
                found_k = k as int;
            }
        }
        k = k + 1;
    }
    if count == 1 {
        assert(sole_blocker(a as int, b as int, occ, found as int)) by {
            assert(line_square(a as int, b as int, found_k) == found);
        }
        assert(!path_clear(a as int, b as int, occ)) by {
            assert(!bit(occ, line_square(a as int, b as int, found_k)) == false);
        }
    }
    (count, found)
}

} // verus!

verus! {

/// The direction in which pawns of a color advance: one rank up for white, down for black.
pub open spec fn pawn_dir(white: bool) -> int {
    if white {
        1
    } else {
        -1
    }
}

/// The rank from which pawns of a color may advance two squares.
pub open spec fn pawn_start_rank(white: bool) -> int {
    if white {
        1
    } else {
        6
    }
}

/// Squares a pawn on `a` advances to on an empty board: one step, or two from its start rank.
pub open spec fn pawn_push_geom(white: bool, a: int, b: int) -> bool {
    is_square(a) && is_square(b) && fdiff(a, b) == 0 && (rdiff(a, b) == pawn_dir(white) || (
    rdiff(a, b) == 2 * pawn_dir(white) && rank_of(a) == pawn_start_rank(white)))
}

/// Squares a pawn on `a` captures on.
pub open spec fn pawn_capture_geom(white: bool, a: int, b: int) -> bool {
    is_square(a) && is_square(b) && rdiff(a, b) == pawn_dir(white) && iabs(fdiff(a, b)) == 1
}

/// Square `b` lies on ray `dir` from `a`: 0 up, 1 down, 2 right, 3 left,
/// 4 up-right, 5 up-left, 6 down-right, 7 down-left.
pub open spec fn on_ray(dir: int, a: int, b: int) -> bool {
    let dy = rdiff(a, b);
    let dx = fdiff(a, b);
    is_square(a) && is_square(b) && if dir == 0 {
        dy > 0 && dx == 0
    } else if dir == 1 {
        dy < 0 && dx == 0
    } else if dir == 2 {
        dy == 0 && dx > 0
    } else if dir == 3 {
        dy == 0 && dx < 0
    } else if dir == 4 {
        iabs(dy) == iabs(dx) && dx > 0 && dy > 0
    } else if dir == 5 {
        iabs(dy) == iabs(dx) && dx < 0 && dy > 0
    } else if dir == 6 {
        iabs(dy) == iabs(dx) && dx > 0 && dy < 0
    } else {
        dir == 7 && iabs(dy) == iabs(dx) && dx < 0 && dy < 0
    }
}

pub fn is_pawn_push(white: bool, a: usize, b: usize) -> (r: bool)
    requires
        a < 64,
        b < 64,
    ensures
        r == pawn_push_geom(white, a as int, b as int),
{
    let (ra, fa) = coords(a);
    let (rb, fb) = coords(b);
    let dir: i32 = if white {
        1
    } else {
        -1
    };
    let start: i32 = if white {
        1
    } else {
        6
    };
    fb == fa && (rb - ra == dir || (rb - ra == 2 * dir && ra == start))
}

pub fn is_pawn_capture(white: bool, a: usize, b: usize) -> (r: bool)
    requires
        a < 64,
        b < 64,
    ensures
        r == pawn_capture_geom(white, a as int, b as int),
{
    let (ra, fa) = coords(a);
    let (rb, fb) = coords(b);
    let dir: i32 = if white {
        1
    } else {
        -1
    };
    rb - ra == dir && abs_i32(fb - fa) == 1
}

pub fn is_on_ray(dir: usize, a: usize, b: usize) -> (r: bool)
    requires
        a < 64,
        b < 64,
        dir < 8,
    ensures
        r == on_ray(dir as int, a as int, b as int),
{
    let (ra, fa) = coords(a);
    let (rb, fb) = coords(b);
    let dy = rb - ra;
    let dx = fb - fa;
    match dir {
        0 => dy > 0 && dx == 0,
        1 => dy < 0 && dx == 0,
        2 => dy == 0 && dx > 0,
        3 => dy == 0 && dx < 0,
        4 => abs_i32(dy) == abs_i32(dx) && dx > 0 && dy > 0,
        5 => abs_i32(dy) == abs_i32(dx) && dx < 0 && dy > 0,
        6 => abs_i32(dy) == abs_i32(dx) && dx > 0 && dy < 0,
        _ => abs_i32(dy) == abs_i32(dx) && dx < 0 && dy < 0,
    }
}

/// The squares strictly between two aligned squares.
pub fn between_bits(a: usize, b: usize) -> (r: u64)
    requires
        a < 64,
        b < 64,
        aligned(a as int, b as int),
    ensures
        forall|x: int| #[trigger] bit(r, x) == strictly_between(a as int, b as int, x),
{
    let (ra, fa) = coords(a);
    let (rb, fb) = coords(b);
    let sr = sgn_i32(rb - ra);
    let sf = sgn_i32(fb - fa);
    let dr = abs_i32(rb - ra);
    let df = abs_i32(fb - fa);
    let n = if dr >= df {
        dr
    } else {
        df
    };
    let mut k: i32 = 1;
    let mut m: u64 = 0;
    proof {
        assert forall|x: int| #[trigger] bit(m, x) == exists|j: int|
            0 < j < k && #[trigger] line_square(a as int, b as int, j) == x by {
            crate::bits::lemma_bit_zero(x);
        }
    }
    while k < n
        invariant
            1 <= k,
            n == line_len(a as int, b as int),
            n <= 7,
            k <= n || n == 0,
            sr == sgn(rdiff(a as int, b as int)),
            sf == sgn(fdiff(a as int, b as int)),
            ra == rank_of(a as int),
            fa == file_of(a as int),
            aligned(a as int, b as int),
            forall|x: int| #[trigger] bit(m, x) == exists|j: int|
                0 < j < k && #[trigger] line_square(a as int, b as int, j) == x,
        decreases n - k,
    {
        proof {
            lemma_line_square(a as int, b as int, k as int);
        }
        let x = ((ra + k * sr) * 8 + (fa + k * sf)) as u64;
        assert(x == line_square(a as int, b as int, k as int));
        let ghost old_m = m;
        m = m | (1u64 << x);
        proof {
            assert forall|y: int| #[trigger] bit(m, y) == exists|j: int|
                0 < j < k + 1 && #[trigger] line_square(a as int, b as int, j) == y by {
                crate::bits::lemma_bit_or(old_m, 1u64 << x, y);
                crate::bits::lemma_bit_single(x as int, y);
                if y == x {
                    assert(line_square(a as int, b as int, k as int) == y);
                }
                if exists|j: int| 0 < j < k + 1 && #[trigger] line_square(a as int, b as int, j) == y {
                    let j = choose|j: int| 0 < j < k + 1 && #[trigger] line_square(a as int, b as int, j) == y;
                    if j < k {
                        assert(bit(old_m, y));
                    }
                }
            }
        }
        k = k + 1;
    }
    proof {
        assert forall|x: int| #[trigger] bit(m, x) == strictly_between(a as int, b as int, x) by {
            if bit(m, x) {
                let j = choose|j: int| 0 < j < k && #[trigger] line_square(a as int, b as int, j) == x;
                assert(0 < j < line_len(a as int, b as int) && line_square(a as int, b as int, j) == x);
            }
            if strictly_between(a as int, b as int, x) {
                let j = choose|j: int| 0 < j < line_len(a as int, b as int) && #[trigger] line_square(a as int, b as int, j) == x;
                assert(0 < j < k && line_square(a as int, b as int, j) == x);
            }
        }
    }
    m
}

} // verus!
