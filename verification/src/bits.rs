use vstd::prelude::*;
use vstd::std_specs::bits::{axiom_u64_trailing_zeros, u64_trailing_zeros};

verus! {

/// Whether bit `i` (0..64) of `x` is set.
pub open spec fn bit(x: u64, i: int) -> bool {
    0 <= i < 64 && (x >> (i as u64)) & 1u64 == 1u64
}

/// Number of set bits of `x`.
pub open spec fn popcount(x: u64) -> nat
    decreases x,
{
    if x == 0 {
        0
    } else {
        (x % 2) as nat + popcount(x / 2)
    }
}

/// The value of `x` with its eight bytes in reverse order.
pub open spec fn swap_bytes_spec(x: u64) -> u64 {
    ((x & 0xff) << 56u64) | (((x >> 8u64) & 0xff) << 48u64) | (((x >> 16u64) & 0xff) << 40u64)
        | (((x >> 24u64) & 0xff) << 32u64) | (((x >> 32u64) & 0xff) << 24u64) | (((x >> 40u64)
        & 0xff) << 16u64) | (((x >> 48u64) & 0xff) << 8u64) | ((x >> 56u64) & 0xff)
}

pub broadcast proof fn lemma_bit_and(a: u64, b: u64, i: int)
    ensures
        #[trigger] bit(a & b, i) == (bit(a, i) && bit(b, i)),
{
    if 0 <= i < 64 {
        let j = i as u64;
        assert(((a & b) >> j) & 1u64 == 1u64 <==> ((a >> j) & 1u64 == 1u64 && (b >> j) & 1u64
            == 1u64)) by (bit_vector);
    }
}

pub broadcast proof fn lemma_bit_or(a: u64, b: u64, i: int)
    ensures
        #[trigger] bit(a | b, i) == (bit(a, i) || bit(b, i)),
{
    if 0 <= i < 64 {
        let j = i as u64;
        assert(((a | b) >> j) & 1u64 == 1u64 <==> ((a >> j) & 1u64 == 1u64 || (b >> j) & 1u64
            == 1u64)) by (bit_vector);
    }
}

pub broadcast proof fn lemma_bit_xor(a: u64, b: u64, i: int)
    ensures
        #[trigger] bit(a ^ b, i) == (bit(a, i) != bit(b, i)),
{
    if 0 <= i < 64 {
        let j = i as u64;
        assert(((a ^ b) >> j) & 1u64 == 1u64 <==> ((a >> j) & 1u64 == 1u64) != ((b >> j) & 1u64
            == 1u64)) by (bit_vector);
    }
}

pub broadcast proof fn lemma_bit_not(a: u64, i: int)
    ensures
        #[trigger] bit(!a, i) == (0 <= i < 64 && !bit(a, i)),
{
    if 0 <= i < 64 {
        let j = i as u64;
        assert(j < 64 ==> (((!a) >> j) & 1u64 == 1u64 <==> !((a >> j) & 1u64 == 1u64)))
            by (bit_vector);
    }
}

pub broadcast proof fn lemma_bit_single(s: int, i: int)
    requires
        0 <= s < 64,
    ensures
        #[trigger] bit(1u64 << (s as u64), i) == (i == s),
{
    let t = s as u64;
    if 0 <= i < 64 {
        let j = i as u64;
        assert(t < 64 && j < 64 ==> (((1u64 << t) >> j) & 1u64 == 1u64 <==> j == t))
            by (bit_vector);
    }
}

pub broadcast proof fn lemma_bit_zero(i: int)
    ensures
        !#[trigger] bit(0u64, i),
{
    if 0 <= i < 64 {
        let j = i as u64;
        assert((0u64 >> j) & 1u64 == 0u64) by (bit_vector);
    }
}

pub broadcast group group_bit_lemmas {
    lemma_bit_and,
    lemma_bit_or,
    lemma_bit_xor,
    lemma_bit_not,
    lemma_bit_single,
    lemma_bit_zero,
}

/// A value other than zero has its lowest set bit at its count of trailing zeros.
pub proof fn lemma_nonzero_has_bit(x: u64)
    requires
        x != 0,
    ensures
        u64_trailing_zeros(x) < 64,
        bit(x, u64_trailing_zeros(x) as int),
        forall|i: int| 0 <= i < u64_trailing_zeros(x) ==> !#[trigger] bit(x, i),
{
    axiom_u64_trailing_zeros(x);
    assert forall|i: int| 0 <= i < u64_trailing_zeros(x) implies !#[trigger] bit(x, i) by {
        let j = i as u64;
        assert((x >> j) & 1u64 == 0u64);
    }
}

/// Number of set bits of `x` among the bits below `n`.
pub open spec fn bits_below(x: u64, n: int) -> nat
    decreases n,
{
    if n <= 0 {
        0
    } else {
        bits_below(x, n - 1) + if bit(x, n - 1) {
            1nat
        } else {
            0nat
        }
    }
}

/// The bits of `x` below `n + 1` are its lowest bit and the bits of `x / 2` below `n`.
proof fn lemma_bits_below_shift(x: u64, n: int)
    requires
        0 <= n < 64,
    ensures
        bits_below(x, n + 1) == (x % 2) as nat + bits_below(x / 2, n),
    decreases n,
{
    if n == 0 {
        assert(((x >> 0u64) & 1u64 == 1u64) <==> x % 2 == 1) by (bit_vector);
        assert(bit(x, 0) <==> x % 2 == 1);
        assert(bits_below(x / 2, 0) == 0);
        assert(bits_below(x, 0) == 0);
        assert(bits_below(x, 1) == bits_below(x, 0) + if bit(x, 0) { 1nat } else { 0nat });
    } else {
        lemma_bits_below_shift(x, n - 1);
        let j = (n - 1) as u64;
        assert(j < 63 ==> (((x >> (j + 1)) & 1u64 == 1u64) <==> (((x / 2) >> j) & 1u64 == 1u64))) by (bit_vector);
        assert(j + 1 == n as u64);
        assert(bit(x, n) == bit(x / 2, n - 1));
        assert(bits_below(x, n + 1) == bits_below(x, n) + if bit(x, n) { 1nat } else { 0nat });
        assert(bits_below(x / 2, n) == bits_below(x / 2, n - 1) + if bit(x / 2, n - 1) { 1nat } else { 0nat });
    }
}

/// No bit of zero is set.
proof fn lemma_bits_below_zero(n: int)
    ensures
        bits_below(0u64, n) == 0,
    decreases n,
{
    if n > 0 {
        lemma_bits_below_zero(n - 1);
        lemma_bit_zero(n - 1);
    }
}

/// The number of set bits of `x` is the number of its 64 bits that are set.
pub proof fn lemma_popcount_bits(x: u64)
    ensures
        popcount(x) == bits_below(x, 64),
    decreases x,
{
    if x == 0 {
        lemma_bits_below_zero(64);
    } else {
        let y = x / 2;
        lemma_popcount_bits(y);
        lemma_bits_below_shift(x, 63);
        assert((((x / 2) >> 63u64) & 1u64) == 0u64) by (bit_vector);
        assert(!bit(y, 63));
        assert(bits_below(y, 64) == bits_below(y, 63));
    }
}

/// Two values with the same bits are equal.
pub proof fn lemma_bits_ext(a: u64, b: u64)
    requires
        forall|i: int| 0 <= i < 64 ==> #[trigger] bit(a, i) == bit(b, i),
    ensures
        a == b,
{
    let x = a ^ b;
    if x != 0 {
        lemma_nonzero_has_bit(x);
        lemma_bit_xor(a, b, u64_trailing_zeros(x) as int);
        assert(bit(a, u64_trailing_zeros(x) as int) == bit(b, u64_trailing_zeros(x) as int));
    }
    assert(a ^ b == 0 ==> a == b) by (bit_vector);
}

/// A value is zero exactly when none of its bits is set.
pub proof fn lemma_zero_iff_no_bits(x: u64)
    ensures
        x == 0 <==> forall|i: int| 0 <= i < 64 ==> !#[trigger] bit(x, i),
{
    if x != 0 {
        lemma_nonzero_has_bit(x);
    } else {
        assert forall|i: int| 0 <= i < 64 implies !#[trigger] bit(x, i) by {
            lemma_bit_zero(i);
        }
    }
}

} // verus!
