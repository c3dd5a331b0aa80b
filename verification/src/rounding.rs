//! Rounding to multiples of a power of two.
use vstd::arithmetic::power2::*;
use vstd::prelude::*;

verus! {

/// The least multiple of `align` that is not below `n`.
pub open spec fn round_up(n: int, align: int) -> int {
    ((n + align - 1) / align) * align
}

/// `round_up` lands on a multiple, at most `align - 1` above its argument.
pub proof fn lemma_round_up_bounds(n: int, align: int)
    requires
        align > 0,
    ensures
        n <= round_up(n, align) < n + align,
        round_up(n, align) % align == 0,
{
    let m = n + align - 1;
    vstd::arithmetic::div_mod::lemma_fundamental_div_mod(m, align);
    vstd::arithmetic::div_mod::lemma_mod_multiples_basic(m / align, align);
    assert(align * (m / align) == (m / align) * align) by (nonlinear_arith);
}

/// A multiple of `align` rounds to itself.
pub proof fn lemma_round_up_of_multiple(n: int, align: int)
    requires
        align > 0,
        n % align == 0,
    ensures
        round_up(n, align) == n,
{
    lemma_round_up_bounds(n, align);
    lemma_multiples_apart(n, round_up(n, align), align);
}

/// Two multiples of `align` that are less than `align` apart are the same.
pub proof fn lemma_multiples_apart(a: int, b: int, align: int)
    requires
        align > 0,
        a % align == 0,
        b % align == 0,
        a <= b < a + align,
    ensures
        a == b,
{
    vstd::arithmetic::div_mod::lemma_fundamental_div_mod(a, align);
    vstd::arithmetic::div_mod::lemma_fundamental_div_mod(b, align);
    let qa = a / align;
    let qb = b / align;
    assert(qa == qb) by (nonlinear_arith)
        requires
            align > 0,
            a == align * qa,
            b == align * qb,
            a <= b < a + align,
    ;
}

/// No multiple of `align` lies between a number and its `round_up`.
pub proof fn lemma_round_up_is_least(n: int, align: int, m: int)
    requires
        align > 0,
        m % align == 0,
        n <= m,
    ensures
        round_up(n, align) <= m,
{
    lemma_round_up_bounds(n, align);
    let r = round_up(n, align);
    if m < r {
        lemma_multiples_apart(m, r, align);
    }
}

/// Clearing the bits below a power of two subtracts the remainder.
pub proof fn lemma_mask_rounds_down(x: usize, align: usize)
    requires
        is_pow2(align as int),
    ensures
        align > 0,
        x & !((align - 1) as usize) == x - x % align,
{
    let k = lemma_exponent(align);
    vstd::bits::lemma_usize_pow2_no_overflow(k);
    vstd::bits::lemma_usize_low_bits_mask_is_mod(x, k);
    let mask: usize = (align - 1) as usize;
    assert(vstd::bits::low_bits_mask(k) as usize == mask);
    assert(x & mask == x % align);
    assert((x & mask) + (x & !mask) == x) by (bit_vector);
}

/// A power of two that fits in `usize` has an exponent below the width.
proof fn lemma_exponent(align: usize) -> (k: nat)
    requires
        is_pow2(align as int),
    ensures
        pow2(k) == align,
        k < usize::BITS,
{
    is_pow2_equiv(align as int);
    let k = choose|i: nat| vstd::arithmetic::power::pow(2, i) == align;
    lemma_pow2(k);
    if k >= usize::BITS {
        vstd::layout::unsigned_int_max_values();
        if k > usize::BITS {
            lemma_pow2_strictly_increases(usize::BITS as nat, k);
        }
    }
    k
}

/// A power of two that fits in `usize` divides `isize::MAX + 1`.
pub proof fn lemma_pow2_divides_half_range(align: usize)
    requires
        is_pow2(align as int),
    ensures
        0 < align <= isize::MAX + 1,
        (isize::MAX + 1) % (align as int) == 0,
{
    let k = lemma_exponent(align);
    let top = (usize::BITS - 1) as nat;
    vstd::layout::signed_int_min_max_values();
    assert(isize::BITS == usize::BITS);
    let rest = (top - k) as nat;
    lemma_pow2_adds(rest, k);
    lemma_pow2_pos(k);
    lemma_pow2_pos(rest);
    vstd::arithmetic::div_mod::lemma_mod_multiples_basic(pow2(rest) as int, align as int);
    assert(align <= pow2(rest) * align) by (nonlinear_arith)
        requires
            pow2(rest) >= 1,
            align >= 0,
    ;
}

/// The one-bit test for powers of two agrees with their definition.
proof fn lemma_one_bit(a: usize)
    requires
        a > 0,
    ensures
        is_pow2(a as int) <==> a & ((a - 1) as usize) == 0,
    decreases a,
{
    reveal(is_pow2);
    let b: usize = (a - 1) as usize;
    if a == 1 {
        assert(1usize & 0 == 0) by (bit_vector);
    } else {
        let h: usize = a / 2;
        let hb: usize = (h - 1) as usize;
        if a % 2 == 0 {
            assert((a & b == 0) <==> (h & hb == 0)) by (bit_vector)
                requires
                    a >= 2,
                    a % 2 == 0,
                    b == a - 1,
                    h == a / 2,
                    hb == h - 1,
            ;
            lemma_one_bit(h);
        } else {
            assert(a & b != 0) by (bit_vector)
                requires
                    a >= 2,
                    a % 2 != 0,
                    b == a - 1,
            ;
        }
    }
}

/// Tells whether `n` is a power of two.
pub fn is_power_of_two(n: usize) -> (r: bool)
    ensures
        r == is_pow2(n as int),
{
    if n == 0 {
        proof {
            reveal(is_pow2);
        }
        return false;
    }
    proof {
        lemma_one_bit(n);
    }
    n & (n - 1) == 0
}

} // verus!
