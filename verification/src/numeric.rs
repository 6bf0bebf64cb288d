//! Single-precision numbers by their bit patterns: how they compare, and random
//! ones between zero and one.
use vstd::prelude::*;

verus! {

/// Whether `bits` is the pattern of a number: all others stand for none.
pub open spec fn is_number(bits: u32) -> bool {
    bits <= 0x7f80_0000 || 0x8000_0000 <= bits <= 0xff80_0000
}

/// The place of a number among all numbers: the upper half of the patterns holds
/// the negative ones, downwards, and there is a zero in both halves.
pub open spec fn standing(bits: u32) -> int {
    if bits < 0x8000_0000 {
        bits as int
    } else {
        0x8000_0000 - bits
    }
}

/// Whether `a` and `b` are numbers of which `a` is less.
pub open spec fn below(a: u32, b: u32) -> bool {
    is_number(a) && is_number(b) && standing(a) < standing(b)
}

/// Whether `a` and `b` are numbers of which `a` is not greater.
pub open spec fn at_most(a: u32, b: u32) -> bool {
    is_number(a) && is_number(b) && standing(a) <= standing(b)
}

fn holds_number(bits: u32) -> (r: bool)
    ensures
        r == is_number(bits),
{
    bits <= 0x7f80_0000 || (0x8000_0000 <= bits && bits <= 0xff80_0000)
}

fn place_of(bits: u32) -> (r: i64)
    ensures
        r == standing(bits),
{
    if bits < 0x8000_0000 {
        bits as i64
    } else {
        0x8000_0000 - bits as i64
    }
}

pub fn is_below(a: u32, b: u32) -> (r: bool)
    ensures
        r == below(a, b),
{
    holds_number(a) && holds_number(b) && place_of(a) < place_of(b)
}

pub fn is_at_most(a: u32, b: u32) -> (r: bool)
    ensures
        r == at_most(a, b),
{
    holds_number(a) && holds_number(b) && place_of(a) <= place_of(b)
}

/// Of two numbers one is not greater than the other, and only one of them is
/// less; what is no number compares with nothing.
pub proof fn numbers_are_in_order(a: u32, b: u32, c: u32)
    ensures
        is_number(a) && is_number(b) ==> at_most(a, b) != below(b, a),
        at_most(a, b) && at_most(b, c) ==> at_most(a, c),
        !is_number(a) ==> !at_most(a, b) && !at_most(b, a) && !below(a, b) && !below(b, a),
{
}

/// The bit pattern of `m * 2^(e - 149)` as a single-precision number, for an `m`
/// that is not zero and below `2^24` and an `e` that leaves room for it.
pub open spec fn normalized(m: int, e: int) -> int
    decreases 0x100_0000 - m,
{
    if m >= 0x80_0000 || m <= 0 {
        e * 0x80_0000 + (m - 0x80_0000)
    } else {
        normalized(2 * m, e - 1)
    }
}

/// The bit pattern of `m / 2^24`.
pub open spec fn unit_bits(m: int) -> int {
    if m == 0 {
        0
    } else {
        normalized(m, 126)
    }
}

proof fn lemma_loose(m: int, e: int)
    requires
        0 < m < 0x100_0000,
    ensures
        normalized(m, e) < (e + 1) * 0x80_0000,
        m >= 0x80_0000 ==> normalized(m, e) >= e * 0x80_0000,
    decreases 0x100_0000 - m,
{
    if m < 0x80_0000 {
        lemma_loose(2 * m, e - 1);
    }
}

proof fn lemma_lower(m: int, e: int, k: int)
    requires
        0 < m < 0x100_0000,
        0 <= k <= 23,
        m >= 0x80_0000 || k > 0,
        m * vstd::arithmetic::power2::pow2(k as nat) >= 0x80_0000,
    ensures
        normalized(m, e) >= (e - k) * 0x80_0000,
    decreases k,
{
    vstd::arithmetic::power2::lemma2_to64();
    if m < 0x80_0000 {
        let p = vstd::arithmetic::power2::pow2((k - 1) as nat) as int;
        vstd::arithmetic::power2::lemma_pow2_unfold(k as nat);
        assert(m * (2 * p) == (2 * m) * p) by (nonlinear_arith);
        if k == 1 {
            assert(p == 1);
            assert((2 * m) * p == 2 * m) by (nonlinear_arith)
                requires
                    p == 1,
            ;
        }
        lemma_lower(2 * m, e - 1, k - 1);
    } else {
        lemma_loose(m, e);
    }
}

proof fn lemma_less(a: int, b: int, e: int)
    requires
        0 < a < b < 0x100_0000,
    ensures
        normalized(a, e) < normalized(b, e),
    decreases 0x100_0000 - a,
{
    if a < 0x80_0000 {
        if b < 0x80_0000 {
            lemma_less(2 * a, 2 * b, e - 1);
        } else {
            lemma_loose(a * 2, e - 1);
        }
    }
}

fn normalize(m: u32, e: u32) -> (r: u32)
    requires
        0 < m < 0x100_0000,
        24 <= e <= 126,
    ensures
        r == normalized(m as int, e as int),
        r < (e + 1) * 0x80_0000,
{
    let mut m1: u32 = m;
    let mut e1: u32 = e;
    let ghost mut p: int = 1;
    proof {
        vstd::arithmetic::power2::lemma2_to64();
    }
    while m1 < 0x80_0000
        invariant
            0 < m1 < 0x100_0000,
            24 <= e <= 126,
            e1 <= e,
            e - e1 <= 23,
            p == vstd::arithmetic::power2::pow2((e - e1) as nat),
            m1 >= p,
            normalized(m as int, e as int) == normalized(m1 as int, e1 as int),
        decreases 0x100_0000 - m1,
    {
        proof {
            vstd::arithmetic::power2::lemma2_to64();
            vstd::arithmetic::power2::lemma_pow2_unfold((e - e1 + 1) as nat);
            if e - e1 >= 23 {
                assert(p == 0x80_0000);
            }
        }
        m1 = 2 * m1;
        e1 = e1 - 1;
        proof {
            p = 2 * p;
        }
    }
    proof {
        lemma_loose(m as int, e as int);
        lemma_loose(m1 as int, e1 as int);
    }
    e1 * 0x80_0000 + (m1 - 0x80_0000)
}

/// The highest 24 bits of a random number, as many as a single-precision number
/// tells apart.
pub open spec fn top_bits(r: u64) -> int {
    r as int / 0x100_0000_0000
}

/// A number between zero and one from a random number: its highest 24 bits as a
/// fraction, as a bit pattern.
pub fn rand_unit_f32(r: u64) -> (bits: u32)
    ensures
        bits == unit_bits(top_bits(r)),
{
    let m: u32 = (r / 0x100_0000_0000) as u32;
    if m == 0 {
        0
    } else {
        normalize(m, 126)
    }
}

/// The number is below one.
pub proof fn a_fraction_is_below_one(r: u64)
    ensures
        0 <= unit_bits(top_bits(r)) < 0x3f80_0000,
{
    let m = top_bits(r);
    if m != 0 {
        lemma_loose(m, 126);
        vstd::arithmetic::power2::lemma2_to64();
        assert(m * 0x80_0000 >= 0x80_0000);
        lemma_lower(m, 126, 23);
    }
}

/// A larger random number never gives a smaller fraction, and where the highest
/// bits differ, it gives a larger one.
pub proof fn fractions_keep_the_order(a: u64, b: u64)
    requires
        a <= b,
    ensures
        unit_bits(top_bits(a)) <= unit_bits(top_bits(b)),
        top_bits(a) < top_bits(b) ==> unit_bits(top_bits(a)) < unit_bits(top_bits(b)),
{
    let (m, n) = (top_bits(a), top_bits(b));
    if 0 < m < n {
        lemma_less(m, n, 126);
    } else if m == 0 && 0 < n {
        vstd::arithmetic::power2::lemma2_to64();
        assert(n * 0x80_0000 >= 0x80_0000);
        lemma_lower(n, 126, 23);
    }
}

/// Numbers that are not negative compare as their patterns do, negative ones the other
/// way around, and a negative one is below one that is not, but for the two zeros. What
/// is no number is neither below nor at most anything.
pub proof fn patterns_compare_as_numbers(a: u32, b: u32, less: bool, not_more: bool)
    requires
        call_ensures(is_below, (a, b), less),
        call_ensures(is_at_most, (a, b), not_more),
    ensures
        a <= 0x7f80_0000 && b <= 0x7f80_0000 ==> less == (a < b) && not_more == (a <= b),
        0x8000_0000 <= a <= 0xff80_0000 && 0x8000_0000 <= b <= 0xff80_0000 ==> less == (b < a) && not_more == (b
            <= a),
        0x8000_0000 < a <= 0xff80_0000 && b <= 0x7f80_0000 ==> less && not_more,
        a <= 0x7f80_0000 && 0x8000_0000 < b <= 0xff80_0000 ==> !less && !not_more,
        a == 0x8000_0000 && b == 0 ==> !less && not_more,
        a == 0 && b == 0x8000_0000 ==> !less && not_more,
        0x7f80_0000 < a < 0x8000_0000 || 0xff80_0000 < a ==> !less && !not_more,
        0x7f80_0000 < b < 0x8000_0000 || 0xff80_0000 < b ==> !less && !not_more,
{
}

/// Half of all random numbers give at least one half, and half of those at least three
/// quarters.
pub proof fn fractions_are_spread_evenly(r: u64, bits: u32)
    requires
        call_ensures(rand_unit_f32, (r,), bits),
    ensures
        r < 0x100_0000_0000 <==> bits == 0,
        bits < 0x3f80_0000,
        r >= 0x8000_0000_0000_0000 <==> bits >= 0x3f00_0000,
        r >= 0xc000_0000_0000_0000 <==> bits >= 0x3f40_0000,
{
    a_fraction_is_below_one(r);
    let m = top_bits(r);
    if m >= 0x80_0000 {
        assert(normalized(m, 126) == 126 * 0x80_0000 + (m - 0x80_0000));
    } else if m > 0 {
        lemma_loose(2 * m, 125);
        assert(normalized(m, 126) == normalized(2 * m, 125));
        vstd::arithmetic::power2::lemma2_to64();
        assert(m * 0x80_0000 >= 0x80_0000);
        lemma_lower(m, 126, 23);
    }
}

} // verus!
