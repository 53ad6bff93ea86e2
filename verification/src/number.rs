//! Binary floating-point numbers as plain integers.
//!
//! The growth physics computes with binary floating point.  Where only the
//! order of its results matters, they enter the library as integers: the bit
//! pattern of a non-negative single, or the order code of a double.  The spec
//! functions below say which number a pattern stands for, as an integer
//! multiple of the finest step of its format, so that comparisons of codes
//! are comparisons of numbers.

use vstd::arithmetic::power2;
use vstd::prelude::*;

verus! {

/// Magnitude with exponent field `e` and fraction field `m`, of a format
/// with `step` fractions to an exponent, in units of the format's finest
/// step.
pub open spec fn scaled(e: int, m: int, step: int) -> int {
    if e == 0 {
        m
    } else {
        (step + m) * power2::pow2((e - 1) as nat)
    }
}

/// The number that the pattern of a non-negative single stands for, in
/// units of 2^-149.
pub open spec fn single(bits: u32) -> int {
    scaled(bits as int / 0x80_0000, bits as int % 0x80_0000, 0x80_0000)
}

/// The number one, in the units of [`single`].
pub open spec fn single_unit() -> int {
    power2::pow2(149) as int
}

proof fn scaled_increases(ea: int, ma: int, eb: int, mb: int, step: int)
    requires
        0 <= ma < step,
        0 <= mb < step,
        0 <= ea,
        ea < eb || (ea == eb && ma < mb),
    ensures
        scaled(ea, ma, step) < scaled(eb, mb, step),
{
    if ea == eb {
        if ea > 0 {
            let p = power2::pow2((ea - 1) as nat) as int;
            power2::lemma_pow2_pos((ea - 1) as nat);
            assert((step + ma) * p < (step + mb) * p) by (nonlinear_arith)
                requires
                    ma < mb,
                    p > 0,
            ;
        }
    } else {
        let q = power2::pow2((eb - 1) as nat) as int;
        power2::lemma_pow2_pos((eb - 1) as nat);
        assert((step + mb) * q >= step * q) by (nonlinear_arith)
            requires
                mb >= 0,
                q > 0,
        ;
        if ea > 0 {
            let p = power2::pow2((ea - 1) as nat) as int;
            power2::lemma_pow2_pos((ea - 1) as nat);
            if ea < eb - 1 {
                power2::lemma_pow2_strictly_increases(ea as nat, (eb - 1) as nat);
            }
            power2::lemma_pow2_adds(1, (ea - 1) as nat);
            power2::lemma2_to64();
            assert(2 * p <= q);
            assert((step + ma) * p < step * q) by (nonlinear_arith)
                requires
                    0 <= ma < step,
                    p > 0,
                    2 * p <= q,
            ;
        } else {
            assert(step * q >= step) by (nonlinear_arith)
                requires
                    q >= 1,
                    step > 0,
            ;
        }
    }
}

/// Patterns of non-negative singles are ordered as the numbers.
pub proof fn singles_are_ordered(a: u32, b: u32)
    ensures
        a < b <==> single(a) < single(b),
        a == b <==> single(a) == single(b),
        single(a) >= 0,
        single(a) == 0 <==> a == 0,
{
    if a < b {
        single_increases(a, b);
    } else if b < a {
        single_increases(b, a);
    }
    if a > 0 {
        single_increases(0, a);
    }
}

proof fn single_increases(a: u32, b: u32)
    requires
        a < b,
    ensures
        single(a) < single(b),
{
    scaled_increases(
        a as int / 0x80_0000,
        a as int % 0x80_0000,
        b as int / 0x80_0000,
        b as int % 0x80_0000,
        0x80_0000,
    );
}

/// Distance of a double's pattern from that of zero of the same sign.
pub open spec fn double_steps(bits: u64) -> int {
    if bits < 0x8000_0000_0000_0000 {
        bits as int
    } else {
        bits - 0x8000_0000_0000_0000
    }
}

/// Whether the pattern is that of a double which is not a number.
pub open spec fn is_nan(bits: u64) -> bool {
    double_steps(bits) > 0x7ff0_0000_0000_0000
}

/// The number that a double's pattern stands for, in units of 2^-1074; an
/// infinity counts as the step past the largest finite number.
pub open spec fn double(bits: u64) -> int {
    let steps = double_steps(bits);
    let size = scaled(
        steps / 0x10_0000_0000_0000,
        steps % 0x10_0000_0000_0000,
        0x10_0000_0000_0000,
    );
    if bits < 0x8000_0000_0000_0000 {
        size
    } else {
        -size
    }
}

/// Order code of a double: its steps from zero, counted negative below it.
pub open spec fn code_of(bits: u64) -> int {
    if bits < 0x8000_0000_0000_0000 {
        double_steps(bits)
    } else {
        -double_steps(bits)
    }
}

/// The order code of the double with the given bit pattern; none for one
/// that is not a number.
pub fn order_code(bits: u64) -> (code: Option<i64>)
    ensures
        code is None <==> is_nan(bits),
        code matches Some(c) ==> c == code_of(bits),
{
    let positive: bool = bits < 0x8000_0000_0000_0000;
    let steps: u64 = if positive {
        bits
    } else {
        bits - 0x8000_0000_0000_0000
    };
    if steps > 0x7ff0_0000_0000_0000 {
        return None;
    }
    let size: i64 = steps as i64;
    Some(if positive { size } else { -size })
}

/// The bit pattern of the double with the given order code.
pub fn pattern_of(code: i64) -> (bits: u64)
    requires
        -0x7ff0_0000_0000_0000 <= code <= 0x7ff0_0000_0000_0000,
    ensures
        !is_nan(bits),
        code_of(bits) == code,
{
    if code < 0 {
        0x8000_0000_0000_0000 + (-code) as u64
    } else {
        code as u64
    }
}

/// Whether a double is a number greater than the one with order code `bound`.
pub open spec fn above(bits: u64, bound: i64) -> bool {
    !is_nan(bits) && code_of(bits) > bound
}

/// Whether a double is a number less than the one with order code `bound`.
pub open spec fn below(bits: u64, bound: i64) -> bool {
    !is_nan(bits) && code_of(bits) < bound
}

/// Whether a double is a number greater than the one with order code `bound`.
pub fn is_above(bits: u64, bound: i64) -> (b: bool)
    ensures
        b == above(bits, bound),
{
    match order_code(bits) {
        Some(c) => c > bound,
        None => false,
    }
}

/// Whether a double is a number less than the one with order code `bound`.
pub fn is_below(bits: u64, bound: i64) -> (b: bool)
    ensures
        b == below(bits, bound),
{
    match order_code(bits) {
        Some(c) => c < bound,
        None => false,
    }
}

/// Order codes are ordered as the numbers, and equal exactly for equal
/// numbers (the two zeros share one code).
pub proof fn codes_are_ordered(a: u64, b: u64)
    ensures
        code_of(a) < code_of(b) <==> double(a) < double(b),
        code_of(a) == code_of(b) <==> double(a) == double(b),
{
    double_size_increases(a, b);
    double_size_increases(b, a);
    double_size_increases(0, a);
    double_size_increases(0, b);
}

proof fn double_size_increases(a: u64, b: u64)
    ensures
        double_steps(a) < double_steps(b) ==> scaled(
            double_steps(a) / 0x10_0000_0000_0000,
            double_steps(a) % 0x10_0000_0000_0000,
            0x10_0000_0000_0000,
        ) < scaled(
            double_steps(b) / 0x10_0000_0000_0000,
            double_steps(b) % 0x10_0000_0000_0000,
            0x10_0000_0000_0000,
        ),
{
    if double_steps(a) < double_steps(b) {
        scaled_increases(
            double_steps(a) / 0x10_0000_0000_0000,
            double_steps(a) % 0x10_0000_0000_0000,
            double_steps(b) / 0x10_0000_0000_0000,
            double_steps(b) % 0x10_0000_0000_0000,
            0x10_0000_0000_0000,
        );
    }
}

/// The pattern of a whole number.
pub fn whole(n: u32) -> (bits: u32)
    requires
        n <= 0x100_0000,
    ensures
        single(bits) == n * single_unit(),
        bits < 0x7f80_0000,
{
    if n == 0 {
        proof {
            assert(0 * single_unit() == 0) by (nonlinear_arith);
        }
        return 0;
    }
    if n == 0x100_0000 {
        proof {
            assert(0x4b80_0000int / 0x80_0000 == 151);
            assert(0x4b80_0000int % 0x80_0000 == 0);
            power2::lemma_pow2_adds(1, 149);
            power2::lemma2_to64();
            assert(0x80_0000 * (2 * power2::pow2(149)) == 0x100_0000 * power2::pow2(149)) by (nonlinear_arith);
        }
        return 0x4b80_0000;
    }
    let mut m: u32 = n;
    let mut e: u32 = 150;
    proof {
        power2::lemma2_to64();
        assert(n * power2::pow2(0) == n);
    }
    while m < 0x80_0000
        invariant
            1 <= m < 0x100_0000,
            127 <= e <= 150,
            m == n * power2::pow2((150 - e) as nat),
            1 <= n < 0x100_0000,
        decreases e,
    {
        proof {
            power2::lemma_pow2_adds(1, (150 - e) as nat);
            power2::lemma2_to64();
            let p = power2::pow2((150 - e) as nat) as int;
            assert(2 * (n * p) == n * (2 * p)) by (nonlinear_arith);
            if e == 127 {
                power2::lemma2_to64();
                assert(n * p >= p) by (nonlinear_arith)
                    requires
                        n >= 1,
                        p >= 0,
                ;
            }
            assert(150 - (e - 1) == 1 + (150 - e));
        }
        m = 2 * m;
        e = e - 1;
    }
    let bits: u32 = e * 0x80_0000 + (m - 0x80_0000);
    proof {
        assert(bits as int / 0x80_0000 == e);
        assert(bits as int % 0x80_0000 == m - 0x80_0000);
        let p = power2::pow2((150 - e) as nat) as int;
        let q = power2::pow2((e - 1) as nat) as int;
        power2::lemma_pow2_adds((150 - e) as nat, (e - 1) as nat);
        assert((n * p) * q == n * (p * q)) by (nonlinear_arith);
    }
    bits
}

/// One half, in the units of [`double`].
pub open spec fn double_half() -> int {
    power2::pow2(1073) as int
}

/// The pattern of a whole number of halves, as a double.
pub fn halves(n: i32) -> (bits: u64)
    ensures
        double(bits) == n * double_half(),
        !is_nan(bits),
{
    let size: u64 = if n < 0 {
        (-(n as i64)) as u64
    } else {
        n as u64
    };
    let bits: u64 = halves_up(size);
    proof {
        let (a, h) = (size as int, double_half());
        assert((-a) * h == -(a * h)) by (nonlinear_arith);
    }
    if n < 0 {
        bits + 0x8000_0000_0000_0000
    } else {
        bits
    }
}

fn halves_up(n: u64) -> (bits: u64)
    requires
        n <= 0x8000_0000,
    ensures
        scaled(
            bits as int / 0x10_0000_0000_0000,
            bits as int % 0x10_0000_0000_0000,
            0x10_0000_0000_0000,
        ) == n * double_half(),
        bits <= 0x7ff0_0000_0000_0000,
{
    if n == 0 {
        proof {
            assert(0 * double_half() == 0) by (nonlinear_arith);
        }
        return 0;
    }
    let mut m: u64 = n;
    let mut e: u64 = 1074;
    proof {
        power2::lemma2_to64();
        assert(n * power2::pow2(0) == n);
    }
    while m < 0x10_0000_0000_0000
        invariant
            1 <= m < 0x20_0000_0000_0000,
            1022 <= e <= 1074,
            m == n * power2::pow2((1074 - e) as nat),
            1 <= n <= 0x8000_0000,
        decreases e,
    {
        proof {
            power2::lemma_pow2_adds(1, (1074 - e) as nat);
            power2::lemma2_to64();
            power2::lemma2_to64_rest();
            let p = power2::pow2((1074 - e) as nat) as int;
            assert(2 * (n * p) == n * (2 * p)) by (nonlinear_arith);
            if e == 1022 {
                assert(n * p >= p) by (nonlinear_arith)
                    requires
                        n >= 1,
                        p >= 0,
                ;
            }
            assert(1074 - (e - 1) == 1 + (1074 - e));
        }
        m = 2 * m;
        e = e - 1;
    }
    let bits: u64 = e * 0x10_0000_0000_0000 + (m - 0x10_0000_0000_0000);
    proof {
        assert(bits as int / 0x10_0000_0000_0000 == e);
        assert(bits as int % 0x10_0000_0000_0000 == m - 0x10_0000_0000_0000);
        let p = power2::pow2((1074 - e) as nat) as int;
        let q = power2::pow2((e - 1) as nat) as int;
        power2::lemma_pow2_adds((1074 - e) as nat, (e - 1) as nat);
        assert((n * p) * q == n * (p * q)) by (nonlinear_arith);
    }
    bits
}

/// Whether a double is a number no less than `n` halves.
pub open spec fn at_least_halves(bits: u64, n: int) -> bool {
    !is_nan(bits) && double(bits) >= n * double_half()
}

/// Whether a double is a number no greater than `n` halves.
pub open spec fn at_most_halves(bits: u64, n: int) -> bool {
    !is_nan(bits) && double(bits) <= n * double_half()
}

/// Whether a double is a number no less than `n` halves.
pub fn is_at_least_halves(bits: u64, n: i32) -> (b: bool)
    ensures
        b == at_least_halves(bits, n as int),
{
    let bound: u64 = halves(n);
    proof {
        codes_are_ordered(bits, bound);
    }
    match (order_code(bits), order_code(bound)) {
        (Some(a), Some(c)) => a >= c,
        _ => false,
    }
}

/// Whether a double is a number no greater than `n` halves.
pub fn is_at_most_halves(bits: u64, n: i32) -> (b: bool)
    ensures
        b == at_most_halves(bits, n as int),
{
    let bound: u64 = halves(n);
    proof {
        codes_are_ordered(bits, bound);
    }
    match (order_code(bits), order_code(bound)) {
        (Some(a), Some(c)) => a <= c,
        _ => false,
    }
}

} // verus!
