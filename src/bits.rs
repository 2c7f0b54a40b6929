//! Bit utilities on 64-bit bitboards.

use vstd::prelude::*;
use vstd::std_specs::bits::u64_trailing_zeros;

verus! {

broadcast use vstd::std_specs::bits::axiom_u64_trailing_zeros;

/// The number of set bits of `x`.
pub open spec fn popcount(x: u64) -> nat
    decreases x,
{
    if x == 0 {
        0
    } else {
        proof {
            lemma_clear_lowest_decreases(x);
        }
        1 + popcount(x & vstd::prelude::sub(x, 1))
    }
}

/// Clearing the lowest set bit makes a non-zero word smaller.
pub proof fn lemma_clear_lowest_decreases(x: u64)
    requires
        x != 0,
    ensures
        x & vstd::prelude::sub(x, 1) < x,
{
    assert(x != 0 ==> x & vstd::prelude::sub(x, 1) < x) by (bit_vector);
}

/// Identities of `|`, `^` and `&` on words.
pub proof fn lemma_word_algebra(a: u64, b: u64, c: u64)
    by (bit_vector)
    ensures
        a | 0 == a,
        0u64 | a == a,
        a ^ 0 == a,
        0u64 ^ a == a,
        a | (b | c) == (a | b) | c,
        a ^ (b ^ c) == (a ^ b) ^ c,
        (a ^ b) ^ c == (a ^ c) ^ b,
        (a ^ b) ^ b == a,
        a & b == b & a,
        (a & !b) & b == 0,
        a & !a == 0,
        a & b != 0 ==> a != 0,
{
}

/// Facts about the width of the magic index.
pub proof fn lemma_index_width(p: u64, bits: u64, n: u64)
    by (bit_vector)
    ensures
        1 <= bits <= 63 ==> p >> vstd::prelude::sub(64u64, bits) < 1u64 << bits,
        bits == 12 ==> p >> vstd::prelude::sub(64u64, bits) < 4096,
        bits == 9 ==> p >> vstd::prelude::sub(64u64, bits) < 512,
        bits == 12 ==> 1u64 << bits == 4096,
        bits == 9 ==> 1u64 << bits == 512,
        n <= 12 ==> 1u64 << n <= 4096,
{
}

/// The magic transform: wrapping multiplication, then keep the top `bits` bits.
pub open spec fn transform_spec(occ: u64, magic: u64, bits: u64) -> u64 {
    occ.wrapping_mul(magic) >> vstd::prelude::sub(64u64, bits)
}

/// The subset of `mask` selected by the low `bits` bits of `index`: bit `i` of
/// `index` chooses the `i`-th lowest set bit of `mask`.
pub open spec fn index_subset(index: u64, bits: u64, mask: u64) -> u64
    decreases bits,
{
    if bits == 0 || mask == 0 {
        0
    } else {
        let low: u64 = if index & 1 != 0 {
            1u64 << u64_trailing_zeros(mask)
        } else {
            0
        };
        low | index_subset(index >> 1u64, (bits - 1) as u64, mask & vstd::prelude::sub(mask, 1))
    }
}

/// Removes the least significant set bit and returns its index.
pub fn pop_1st_bit(bitboard: &mut u64) -> (r: u32)
    requires
        *old(bitboard) != 0,
    ensures
        r == u64_trailing_zeros(*old(bitboard)),
        r < 64,
        *final(bitboard) == *old(bitboard) & vstd::prelude::sub(*old(bitboard), 1),
{
    let pos = bitboard.trailing_zeros();
    *bitboard = *bitboard & (*bitboard - 1);
    pos
}

/// A word has no more set bits than its value.
pub proof fn lemma_popcount_bound(x: u64)
    ensures
        popcount(x) <= x,
    decreases x,
{
    if x != 0 {
        lemma_clear_lowest_decreases(x);
        lemma_popcount_bound(x & vstd::prelude::sub(x, 1));
    }
}

/// Counts the set bits of `x`.
pub fn count_bits(x: u64) -> (r: u64)
    ensures
        r as nat == popcount(x),
{
    let mut m = x;
    let mut n: u64 = 0;
    proof {
        lemma_popcount_bound(x);
    }
    while m != 0
        invariant
            n as nat + popcount(m) == popcount(x),
            popcount(x) <= u64::MAX,
        decreases m,
    {
        proof {
            lemma_clear_lowest_decreases(m);
        }
        m = m & (m - 1);
        n = n + 1;
    }
    n
}

/// The magic transform `(occ * magic) >> (64 - bits)` with wrapping multiplication.
pub fn transform(bitboard: u64, magic: u64, bits: u64) -> (r: u64)
    requires
        1 <= bits <= 63,
    ensures
        r == transform_spec(bitboard, magic, bits),
        r < 1u64 << bits,
{
    let p = bitboard.wrapping_mul(magic);
    let r = p >> (64 - bits);
    proof {
        lemma_index_width(p, bits, 0);
    }
    r
}

/// Spreads the low `bits` bits of `index` over the set bits of `mask`,
/// lowest first.
pub fn index_to_bitboard(index: u64, bits: u64, mask: u64) -> (r: u64)
    ensures
        r == index_subset(index, bits, mask),
{
    let mut m = mask;
    let mut idx = index;
    let mut left = bits;
    let mut result: u64 = 0;
    let ghost whole = index_subset(index, bits, mask);
    proof {
        lemma_word_algebra(whole, 0, 0);
    }
    while left > 0 && m != 0
        invariant
            result | index_subset(idx, left, m) == index_subset(index, bits, mask),
        decreases left,
    {
        let low = m;
        let j = pop_1st_bit(&mut m);
        let pick: u64 = if idx & 1 != 0 {
            1u64 << j
        } else {
            0
        };
        let ghost rest = index_subset(idx >> 1u64, (left - 1) as u64, m);
        assert(index_subset(idx, left, low) == pick | rest);
        proof {
            lemma_word_algebra(result, pick, rest);
        }
        result = result | pick;
        idx = idx >> 1;
        left = left - 1;
    }
    proof {
        lemma_word_algebra(result, 0, 0);
    }
    result
}


proof fn lemma_lowest_bit_split(m: u64, x: u64, t: u64)
    by (bit_vector)
    requires
        m != 0,
        t < 64,
        (m >> t) & 1 == 1,
        m << vstd::prelude::sub(64u64, t) == 0,
        x & !m == 0,
    ensures
        (x & !(1u64 << t)) & !(m & vstd::prelude::sub(m, 1)) == 0,
        (if x & (1u64 << t) != 0 { 1u64 << t } else { 0u64 }) | (x & !(1u64 << t)) == x,
{
}

proof fn lemma_index_bits(jp: u64, c: u64, n: u64)
    by (bit_vector)
    requires
        1 <= n <= 63,
        jp < 1u64 << vstd::prelude::sub(n, 1),
        c <= 1,
    ensures
        vstd::prelude::add(vstd::prelude::mul(jp, 2), c) < 1u64 << n,
        vstd::prelude::add(vstd::prelude::mul(jp, 2), c) >> 1u64 == jp,
        (vstd::prelude::add(vstd::prelude::mul(jp, 2), c) & 1 != 0) == (c == 1),
{
}

/// Every subset `x` of `mask` is the subset some index below `2^n` selects,
/// `n` the number of bits of `mask`.
pub proof fn lemma_subset_has_index(x: u64, mask: u64)
    requires
        x & !mask == 0,
        popcount(mask) <= 63,
    ensures
        exists|j: u64|
            j < (1u64 << popcount(mask) as u64) && #[trigger] index_subset(
                j,
                popcount(mask) as u64,
                mask,
            ) == x,
    decreases mask,
{
    let n = popcount(mask) as u64;
    if mask == 0 {
        assert(x & !0u64 == 0 ==> x == 0) by (bit_vector);
        assert(index_subset(0, n, mask) == 0);
        assert(0u64 < (1u64 << 0u64)) by (bit_vector);
    } else {
        lemma_clear_lowest_decreases(mask);
        let rest = mask & vstd::prelude::sub(mask, 1);
        let t = u64_trailing_zeros(mask) as u64;
        assert((mask >> t) & 1u64 == 1u64);
        let low = 1u64 << t;
        lemma_lowest_bit_split(mask, x, t);
        let xr = x & !low;
        lemma_subset_has_index(xr, rest);
        let jp = choose|jp: u64|
            jp < (1u64 << popcount(rest) as u64) && #[trigger] index_subset(
                jp,
                popcount(rest) as u64,
                rest,
            ) == xr;
        let c: u64 = if x & low != 0 {
            1
        } else {
            0
        };
        lemma_index_bits(jp, c, n);
        let j = vstd::prelude::add(vstd::prelude::mul(jp, 2), c);
        assert(index_subset(j, n, mask) == (if j & 1 != 0 {
            low
        } else {
            0
        }) | index_subset(j >> 1u64, (n - 1) as u64, rest));
    }
}

} // verus!
