//! Bit-level classification of IEEE-754 binary64 numbers.
//!
//! A number is given as its 64-bit pattern: one sign bit, eleven exponent bits
//! and fifty-two fraction bits. Everything here is integer arithmetic on that
//! pattern.

use vstd::prelude::*;
use vstd::arithmetic::div_mod::{lemma_mul_mod_noop_left, lemma_small_mod, lemma_truncate_middle};
use vstd::arithmetic::power2::{
    lemma2_to64, lemma2_to64_rest, lemma_pow2_adds, lemma_pow2_pos, lemma_pow2_strictly_increases,
    lemma_pow2_unfold, pow2,
};

verus! {

/// The pattern with the sign bit set and every other bit clear.
pub const SIGN_BIT: u64 = 0x8000_0000_0000_0000;

/// The magnitude pattern of infinity: all exponent bits set, no fraction bit.
pub const INFINITY_BITS: u64 = 0x7ff0_0000_0000_0000;

/// The pattern without its sign bit.
pub open spec fn magnitude(bits: u64) -> u64 {
    if bits >= SIGN_BIT {
        (bits - SIGN_BIT) as u64
    } else {
        bits
    }
}

/// Whether the sign bit is set.
pub open spec fn is_negative(bits: u64) -> bool {
    bits >= SIGN_BIT
}

/// Whether the pattern is a NaN: all exponent bits set and some fraction bit.
pub open spec fn is_nan(bits: u64) -> bool {
    magnitude(bits) > INFINITY_BITS
}

/// Whether the pattern is neither a NaN nor an infinity.
pub open spec fn is_finite(bits: u64) -> bool {
    magnitude(bits) < INFINITY_BITS
}

/// Whether the pattern is positive or negative zero.
pub open spec fn is_zero(bits: u64) -> bool {
    magnitude(bits) == 0
}

/// An integer that orders the patterns as the numbers they stand for: for any
/// two patterns that are not NaN, the first number is below the second exactly
/// when its key is, and the two numbers are equal exactly when the keys are.
/// Both zeros have key 0.
pub open spec fn order_key(bits: u64) -> int {
    if is_negative(bits) {
        -(magnitude(bits) as int)
    } else {
        magnitude(bits) as int
    }
}

/// Equality of the two numbers: false when either is a NaN, and otherwise
/// true exactly when they are the same number (the two zeros are equal).
pub open spec fn numbers_equal(a: u64, b: u64) -> bool {
    !is_nan(a) && !is_nan(b) && order_key(a) == order_key(b)
}

pub fn magnitude_of(bits: u64) -> (m: u64)
    ensures
        m == magnitude(bits),
{
    if bits >= SIGN_BIT {
        bits - SIGN_BIT
    } else {
        bits
    }
}

pub fn check_nan(bits: u64) -> (r: bool)
    ensures
        r == is_nan(bits),
{
    magnitude_of(bits) > INFINITY_BITS
}

pub fn check_finite(bits: u64) -> (r: bool)
    ensures
        r == is_finite(bits),
{
    magnitude_of(bits) < INFINITY_BITS
}

pub fn check_zero(bits: u64) -> (r: bool)
    ensures
        r == is_zero(bits),
{
    magnitude_of(bits) == 0
}

/// The order key of a pattern, as a machine integer.
pub fn order_key_of(bits: u64) -> (k: i64)
    ensures
        k == order_key(bits),
{
    let m = magnitude_of(bits);
    if bits >= SIGN_BIT {
        -(m as i64)
    } else {
        m as i64
    }
}

pub fn check_numbers_equal(a: u64, b: u64) -> (r: bool)
    ensures
        r == numbers_equal(a, b),
{
    !check_nan(a) && !check_nan(b) && order_key_of(a) == order_key_of(b)
}


/// Two to the power 52: the weight of the lowest exponent bit.
pub const FRACTION_RANGE: u64 = 0x10_0000_0000_0000;

/// The exponent bits of the pattern, as a number from 0 to 2047.
pub open spec fn exponent_field(bits: u64) -> int {
    magnitude(bits) as int / FRACTION_RANGE as int
}

/// The fraction bits of the pattern, as a number below two to the power 52.
pub open spec fn fraction_field(bits: u64) -> int {
    magnitude(bits) as int % FRACTION_RANGE as int
}

/// The significand: the fraction bits, with the implicit leading one unless
/// the exponent bits are all zero.
pub open spec fn significand(bits: u64) -> int {
    if exponent_field(bits) == 0 {
        fraction_field(bits)
    } else {
        FRACTION_RANGE as int + fraction_field(bits)
    }
}

/// The power of two that the significand is multiplied by, counted from the
/// smallest one that any pattern uses (two to the power -1074).
pub open spec fn binary_scale(bits: u64) -> nat {
    if exponent_field(bits) == 0 {
        0
    } else {
        (exponent_field(bits) - 1) as nat
    }
}

/// The absolute value of the number that a pattern stands for, multiplied by
/// two to the power 1074, which makes it an integer. Infinity comes out above
/// every finite number.
pub open spec fn scaled_magnitude(bits: u64) -> int {
    significand(bits) * pow2(binary_scale(bits))
}

/// The number that a pattern stands for, multiplied by two to the power 1074.
pub open spec fn scaled_float(bits: u64) -> int {
    if is_negative(bits) {
        -scaled_magnitude(bits)
    } else {
        scaled_magnitude(bits)
    }
}

/// An integer multiplied by two to the power 1074.
pub open spec fn scaled_int(i: int) -> int {
    i * pow2(1074)
}

/// How one number stands to another.
#[derive(Clone, Copy, Debug, PartialEq, Eq, Structural)]
pub enum Comparison {
    Less,
    Equal,
    Greater,
}

/// How the integer `x` stands to the integer `y`.
pub open spec fn compare_ints(x: int, y: int) -> Comparison {
    if x < y {
        Comparison::Less
    } else if x == y {
        Comparison::Equal
    } else {
        Comparison::Greater
    }
}

pub proof fn lemma_scaling_keeps_order(x: int, y: int, p: int)
    by (nonlinear_arith)
    requires
        p > 0,
    ensures
        compare_ints(x * p, y * p) == compare_ints(x, y),
{
}

proof fn lemma_mul_assoc(x: int, y: int, z: int)
    by (nonlinear_arith)
    ensures
        (x * y) * z == x * (y * z),
{
}

proof fn lemma_split(sig: int, p: int)
    by (nonlinear_arith)
    requires
        p > 0,
        sig >= 0,
    ensures
        sig == (sig / p) * p + sig % p,
        0 <= sig % p < p,
        0 <= sig / p,
{
}

proof fn lemma_quotient_order(a: int, q: int, r: int, p: int)
    by (nonlinear_arith)
    requires
        p > 0,
        0 <= r < p,
    ensures
        a > q ==> a * p > q * p + r,
        a < q ==> a * p < q * p + r,
        a == q ==> a * p == q * p,
{
}

/// Among the patterns without the sign bit, a larger pattern stands for a
/// larger number.
pub proof fn lemma_magnitude_orders(a: u64, b: u64)
    requires
        a < SIGN_BIT,
        b < SIGN_BIT,
    ensures
        compare_ints(scaled_magnitude(a), scaled_magnitude(b)) == compare_ints(a as int, b as int),
{
    if a < b {
        lemma_magnitude_increases(a, b);
    } else if b < a {
        lemma_magnitude_increases(b, a);
    }
}

proof fn lemma_magnitude_increases(a: u64, b: u64)
    requires
        a < b < SIGN_BIT,
    ensures
        scaled_magnitude(a) < scaled_magnitude(b),
{
    let range = FRACTION_RANGE as int;
    let ea = exponent_field(a);
    let eb = exponent_field(b);
    let fa = fraction_field(a);
    let fb = fraction_field(b);
    lemma_split(a as int, range);
    lemma_split(b as int, range);
    assert(ea <= eb) by (nonlinear_arith)
        requires
            a < b,
            a == ea * range + fa,
            b == eb * range + fb,
            0 <= fa < range,
            0 <= fb < range,
            range > 0,
    ;
    let sa = binary_scale(a);
    let sb = binary_scale(b);
    lemma_pow2_pos(sa);
    lemma_pow2_pos(sb);
    if ea == eb {
        assert(fa < fb);
        lemma_scaling_keeps_order(significand(a), significand(b), pow2(sa) as int);
    } else if ea == 0 {
        assert(scaled_magnitude(a) == fa * pow2(0));
        lemma2_to64();
        assert(scaled_magnitude(b) >= range) by (nonlinear_arith)
            requires
                scaled_magnitude(b) == significand(b) * pow2(sb),
                significand(b) >= range,
                pow2(sb) >= 1,
                range > 0,
        ;
    } else {
        // (range + fa) * 2^sa < 2 * range * 2^sa == range * 2^(sa + 1) <= range * 2^sb
        lemma_pow2_unfold((sa + 1) as nat);
        if sa + 1 < sb {
            lemma_pow2_strictly_increases((sa + 1) as nat, sb);
        }
        assert(scaled_magnitude(a) < scaled_magnitude(b)) by (nonlinear_arith)
            requires
                scaled_magnitude(a) == (range + fa) * pow2(sa),
                scaled_magnitude(b) == (range + fb) * pow2(sb),
                0 <= fa < range,
                0 <= fb,
                pow2((sa + 1) as nat) == 2 * pow2(sa),
                pow2((sa + 1) as nat) <= pow2(sb),
                pow2(sa) > 0,
        ;
    }
}

proof fn lemma_zero_magnitude()
    ensures
        scaled_magnitude(0) == 0,
{
    assert(significand(0) == 0);
    assert(0 * pow2(binary_scale(0)) == 0) by (nonlinear_arith);
}

/// The order key orders the patterns that are not NaN as the numbers they
/// stand for.
pub proof fn lemma_order_key_orders(a: u64, b: u64)
    ensures
        compare_ints(scaled_float(a), scaled_float(b)) == compare_ints(order_key(a), order_key(b)),
{
    let ma = magnitude(a);
    let mb = magnitude(b);
    lemma_magnitude_orders(ma, mb);
    lemma_magnitude_orders(ma, 0);
    lemma_magnitude_orders(mb, 0);
    lemma_zero_magnitude();
    assert(scaled_magnitude(a) == scaled_magnitude(ma));
    assert(scaled_magnitude(b) == scaled_magnitude(mb));
}

/// Two to the power `n`, for `n` below 64.
pub(crate) fn power_of_two(n: u32) -> (p: u64)
    requires
        n < 64,
    ensures
        p == pow2(n as nat),
{
    let mut p: u64 = 1;
    let mut i: u32 = 0;
    proof {
        lemma2_to64();
    }
    while i < n
        invariant
            i <= n < 64,
            p == pow2(i as nat),
        decreases n - i,
    {
        proof {
            lemma_pow2_unfold((i + 1) as nat);
            lemma_pow2_strictly_increases((i + 1) as nat, 64);
            lemma2_to64_rest();
        }
        p = p * 2;
        i += 1;
    }
    p
}

/// How the integer `a` stands to the absolute value of the number with
/// magnitude pattern `m`.
pub(crate) fn compare_magnitudes(a: u64, m: u64) -> (c: Comparison)
    requires
        m <= INFINITY_BITS,
    ensures
        c == compare_ints(scaled_int(a as int), scaled_magnitude(m)),
{
    let e: u64 = m / FRACTION_RANGE;
    let f: u64 = m % FRACTION_RANGE;
    let sig: u64 = if e == 0 {
        f
    } else {
        FRACTION_RANGE + f
    };
    let k: u64 = if e == 0 {
        0
    } else {
        e - 1
    };
    assert(sig == significand(m));
    assert(k == binary_scale(m));
    assert(e <= 2047);
    proof {
        lemma_pow2_pos(k as nat);
        lemma_pow2_pos(1074);
    }
    if k >= 1074 {
        let d: u64 = k - 1074;
        proof {
            lemma_pow2_adds(d as nat, 1074);
            lemma_pow2_pos(d as nat);
            lemma_mul_assoc(sig as int, pow2(d as nat) as int, pow2(1074) as int);
            lemma_scaling_keeps_order(a as int, sig * pow2(d as nat), pow2(1074) as int);
            assert(scaled_magnitude(m) == (sig * pow2(d as nat)) * pow2(1074));
            assert(compare_ints(scaled_int(a as int), scaled_magnitude(m)) == compare_ints(
                a as int,
                sig * pow2(d as nat),
            ));
        }
        if d > 11 {
            proof {
                if d > 12 {
                    lemma_pow2_strictly_increases(12, d as nat);
                }
                lemma2_to64();
                assert(sig * pow2(d as nat) > a) by (nonlinear_arith)
                    requires
                        sig >= 0x10_0000_0000_0000,
                        pow2(d as nat) >= 0x1000,
                        a <= 0xffff_ffff_ffff_ffff,
                ;
            }
            Comparison::Less
        } else {
            let p: u64 = power_of_two(d as u32);
            proof {
                if d < 11 {
                    lemma_pow2_strictly_increases(d as nat, 11);
                }
                lemma2_to64();
                assert(sig * p <= 0x20_0000_0000_0000 * 0x800) by (nonlinear_arith)
                    requires
                        0 <= sig < 0x20_0000_0000_0000,
                        0 < p <= 0x800,
                ;
            }
            let shifted: u128 = (sig as u128) * (p as u128);
            let wide: u128 = a as u128;
            if wide < shifted {
                Comparison::Less
            } else if wide == shifted {
                Comparison::Equal
            } else {
                Comparison::Greater
            }
        }
    } else {
        let t: u64 = 1074 - k;
        proof {
            lemma_pow2_adds(t as nat, k as nat);
            lemma_pow2_pos(t as nat);
            lemma_mul_assoc(a as int, pow2(t as nat) as int, pow2(k as nat) as int);
            lemma_scaling_keeps_order(a * pow2(t as nat), sig as int, pow2(k as nat) as int);
            assert(scaled_int(a as int) == (a * pow2(t as nat)) * pow2(k as nat));
            assert(compare_ints(scaled_int(a as int), scaled_magnitude(m)) == compare_ints(
                a * pow2(t as nat),
                sig as int,
            ));
        }
        if t >= 53 {
            proof {
                if t > 53 {
                    lemma_pow2_strictly_increases(53, t as nat);
                }
                lemma2_to64_rest();
                assert(a >= 1 ==> a * pow2(t as nat) > sig) by (nonlinear_arith)
                    requires
                        pow2(t as nat) >= 0x20_0000_0000_0000,
                        sig < 0x20_0000_0000_0000,
                        a >= 0,
                ;
            }
            if a == 0 {
                if sig == 0 {
                    Comparison::Equal
                } else {
                    Comparison::Less
                }
            } else {
                Comparison::Greater
            }
        } else {
            let p: u64 = power_of_two(t as u32);
            let q: u64 = sig / p;
            let r: u64 = sig % p;
            proof {
                lemma_split(sig as int, p as int);
                lemma_quotient_order(a as int, q as int, r as int, p as int);
            }
            if a > q {
                Comparison::Greater
            } else if a < q {
                Comparison::Less
            } else if r == 0 {
                Comparison::Equal
            } else {
                Comparison::Less
            }
        }
    }
}


/// How the integer `i` stands to the number with pattern `bits`, which is
/// not a NaN.
pub(crate) fn compare_int_with_float(i: i64, bits: u64) -> (c: Comparison)
    requires
        !is_nan(bits),
    ensures
        c == compare_ints(scaled_int(i as int), scaled_float(bits)),
{
    let m = magnitude_of(bits);
    let negative = bits >= SIGN_BIT;
    proof {
        lemma_pow2_pos(1074);
        lemma_scaling_keeps_order(i as int, 0, pow2(1074) as int);
        lemma_magnitude_orders(m, 0);
        lemma_zero_magnitude();
        assert(scaled_magnitude(bits) == scaled_magnitude(m));
    }
    if i < 0 {
        if !negative || m == 0 {
            Comparison::Less
        } else {
            let a: u64 = ((-(i + 1)) as u64) + 1;
            proof {
                assert(scaled_int(a as int) == -scaled_int(i as int)) by (nonlinear_arith)
                    requires
                        a == -i,
                        scaled_int(a as int) == a * pow2(1074),
                        scaled_int(i as int) == i * pow2(1074),
                ;
            }
            match compare_magnitudes(a, m) {
                Comparison::Less => Comparison::Greater,
                Comparison::Equal => Comparison::Equal,
                Comparison::Greater => Comparison::Less,
            }
        }
    } else if negative {
        if i == 0 && m == 0 {
            Comparison::Equal
        } else {
            Comparison::Greater
        }
    } else {
        compare_magnitudes(i as u64, m)
    }
}

/// How the number with pattern `a` stands to the number with pattern `b`;
/// neither is a NaN.
pub(crate) fn compare_floats(a: u64, b: u64) -> (c: Comparison)
    requires
        !is_nan(a),
        !is_nan(b),
    ensures
        c == compare_ints(scaled_float(a), scaled_float(b)),
{
    proof {
        lemma_order_key_orders(a, b);
    }
    let x = order_key_of(a);
    let y = order_key_of(b);
    if x < y {
        Comparison::Less
    } else if x == y {
        Comparison::Equal
    } else {
        Comparison::Greater
    }
}

/// A number: an integer, or a float given by its bit pattern.
#[derive(Clone, Copy, Debug)]
pub enum Number {
    Integer(i64),
    Float(u64),
}

impl Number {
    /// Whether the number is a NaN.
    pub open spec fn is_nan(self) -> bool {
        match self {
            Number::Integer(_) => false,
            Number::Float(bits) => is_nan(bits),
        }
    }

    /// The number multiplied by two to the power 1074, which makes every
    /// number that is not a NaN an integer.
    pub open spec fn scaled(self) -> int {
        match self {
            Number::Integer(i) => scaled_int(i as int),
            Number::Float(bits) => scaled_float(bits),
        }
    }

    /// How this number stands to the other, as mathematical numbers and
    /// whatever their representation; `None` if either is a NaN.
    pub open spec fn compared_with(self, other: Number) -> Option<Comparison> {
        if self.is_nan() || other.is_nan() {
            None
        } else {
            Some(compare_ints(self.scaled(), other.scaled()))
        }
    }

    /// How this number stands to the other; `None` if either is a NaN.
    pub fn compare(&self, other: &Number) -> (c: Option<Comparison>)
        ensures
            c == self.compared_with(*other),
    {
        match (*self, *other) {
            (Number::Integer(x), Number::Integer(y)) => {
                proof {
                    lemma_pow2_pos(1074);
                    lemma_scaling_keeps_order(x as int, y as int, pow2(1074) as int);
                }
                if x < y {
                    Some(Comparison::Less)
                } else if x == y {
                    Some(Comparison::Equal)
                } else {
                    Some(Comparison::Greater)
                }
            },
            (Number::Integer(x), Number::Float(b)) => {
                if check_nan(b) {
                    None
                } else {
                    Some(compare_int_with_float(x, b))
                }
            },
            (Number::Float(a), Number::Integer(y)) => {
                if check_nan(a) {
                    None
                } else {
                    match compare_int_with_float(y, a) {
                        Comparison::Less => Some(Comparison::Greater),
                        Comparison::Equal => Some(Comparison::Equal),
                        Comparison::Greater => Some(Comparison::Less),
                    }
                }
            },
            (Number::Float(a), Number::Float(b)) => {
                if check_nan(a) || check_nan(b) {
                    None
                } else {
                    Some(compare_floats(a, b))
                }
            },
        }
    }

    /// Whether the two are the same number.
    pub fn eq(&self, other: &Number) -> (r: bool)
        ensures
            r == (self.compared_with(*other) == Some(Comparison::Equal)),
    {
        match self.compare(other) {
            Some(Comparison::Equal) => true,
            _ => false,
        }
    }

    /// Whether the two are comparable and not the same number, or not
    /// comparable at all.
    pub fn ne(&self, other: &Number) -> (r: bool)
        ensures
            r == (self.compared_with(*other) != Some(Comparison::Equal)),
    {
        !self.eq(other)
    }

    /// Whether this number is below the other.
    pub fn lt(&self, other: &Number) -> (r: bool)
        ensures
            r == (self.compared_with(*other) == Some(Comparison::Less)),
    {
        match self.compare(other) {
            Some(Comparison::Less) => true,
            _ => false,
        }
    }

    /// Whether this number is below the other or the same.
    pub fn lte(&self, other: &Number) -> (r: bool)
        ensures
            r == (self.compared_with(*other) == Some(Comparison::Less) || self.compared_with(*other)
                == Some(Comparison::Equal)),
    {
        match self.compare(other) {
            Some(Comparison::Less) => true,
            Some(Comparison::Equal) => true,
            _ => false,
        }
    }

    /// Whether this number is above the other.
    pub fn gt(&self, other: &Number) -> (r: bool)
        ensures
            r == (self.compared_with(*other) == Some(Comparison::Greater)),
    {
        match self.compare(other) {
            Some(Comparison::Greater) => true,
            _ => false,
        }
    }

    /// Whether this number is above the other or the same.
    pub fn gte(&self, other: &Number) -> (r: bool)
        ensures
            r == (self.compared_with(*other) == Some(Comparison::Greater) || self.compared_with(
                *other,
            ) == Some(Comparison::Equal)),
    {
        match self.compare(other) {
            Some(Comparison::Greater) => true,
            Some(Comparison::Equal) => true,
            _ => false,
        }
    }
}


/// The absolute value of an integer.
pub open spec fn absolute(i: int) -> int {
    if i < 0 {
        -i
    } else {
        i
    }
}

impl Number {
    /// Whether the number is neither a NaN nor an infinity.
    pub open spec fn is_finite(self) -> bool {
        match self {
            Number::Integer(_) => true,
            Number::Float(bits) => is_finite(bits),
        }
    }

    /// Whether this number is a whole multiple of `p`: it is finite, `p` is
    /// neither zero nor a NaN, and dividing this number by `p` leaves no
    /// remainder. This is when the remainder of the floating-point division
    /// is zero, and for two integers when the integer remainder is.
    pub open spec fn is_multiple_of(self, p: Number) -> bool {
        &&& self.is_finite()
        &&& !p.is_nan()
        &&& p.scaled() != 0
        &&& absolute(self.scaled()) % absolute(p.scaled()) == 0
    }

    /// The absolute value of the number as a significand and a power of two:
    /// the absolute value times two to the power 1074 is the significand times
    /// two to the power of the scale.
    fn parts(&self) -> (r: (u64, u64))
        requires
            !self.is_nan(),
        ensures
            absolute(self.scaled()) == r.0 * pow2(r.1 as nat),
            r.1 <= 2046,
    {
        match *self {
            Number::Integer(i) => {
                let a: u64 = if i < 0 {
                    ((-(i + 1)) as u64) + 1
                } else {
                    i as u64
                };
                proof {
                    lemma_pow2_pos(1074);
                    assert(absolute(i * pow2(1074)) == absolute(i as int) * pow2(1074))
                        by (nonlinear_arith)
                        requires
                            pow2(1074) > 0,
                    ;
                }
                (a, 1074)
            },
            Number::Float(bits) => {
                let m = magnitude_of(bits);
                let e: u64 = m / FRACTION_RANGE;
                let f: u64 = m % FRACTION_RANGE;
                proof {
                    lemma_pow2_pos(binary_scale(bits));
                    assert(scaled_magnitude(bits) >= 0) by (nonlinear_arith)
                        requires
                            scaled_magnitude(bits) == significand(bits) * pow2(binary_scale(bits)),
                            significand(bits) >= 0,
                            pow2(binary_scale(bits)) > 0,
                    ;
                }
                if e == 0 {
                    (f, 0)
                } else {
                    (FRACTION_RANGE + f, e - 1)
                }
            },
        }
    }

    /// Whether this number is a whole multiple of `p`.
    pub fn multiple_of(&self, p: &Number) -> (r: bool)
        ensures
            r == self.is_multiple_of(*p),
    {
        let finite = match *self {
            Number::Integer(_) => true,
            Number::Float(bits) => check_finite(bits),
        };
        let divisor_is_nan = match *p {
            Number::Integer(_) => false,
            Number::Float(bits) => check_nan(bits),
        };
        if !finite || divisor_is_nan {
            return false;
        }
        let (sx, kx) = self.parts();
        let (sp, kp) = p.parts();
        divides(sp, kp, sx, kx)
    }
}

proof fn lemma_zero_product(a: int, b: int)
    by (nonlinear_arith)
    requires
        a > 0,
        b >= 0,
    ensures
        (a * b == 0) == (b == 0),
        a * b >= 0,
{
}

proof fn lemma_regroup(s: int, a: int, b: int)
    by (nonlinear_arith)
    ensures
        s * (a * b) == b * (s * a),
        s * (a * b) == a * (s * b),
{
}

/// Whether `sx * 2^kx` is a whole multiple of `sp * 2^kp`, which is not zero.
fn divides(sp: u64, kp: u64, sx: u64, kx: u64) -> (r: bool)
    requires
        kp <= 2046,
        kx <= 2046,
    ensures
        r == (sp * pow2(kp as nat) != 0 && (sx * pow2(kx as nat)) % (sp * pow2(kp as nat)) == 0),
{
    proof {
        lemma_pow2_pos(kp as nat);
        lemma_pow2_pos(kx as nat);
        lemma_zero_product(pow2(kp as nat) as int, sp as int);
        assert(sp * pow2(kp as nat) == pow2(kp as nat) * sp) by (nonlinear_arith);
    }
    if sp == 0 {
        return false;
    }
    if kx >= kp {
        let d: u64 = kx - kp;
        proof {
            lemma_pow2_adds(d as nat, kp as nat);
            lemma_pow2_pos(d as nat);
            lemma_regroup(sx as int, pow2(d as nat) as int, pow2(kp as nat) as int);
            lemma_zero_product(pow2(d as nat) as int, sx as int);
            assert(sx * pow2(d as nat) == pow2(d as nat) * sx) by (nonlinear_arith);
            lemma_truncate_middle(sx * pow2(d as nat), pow2(kp as nat) as int, sp as int);
            lemma_zero_product(pow2(kp as nat) as int, (sx * pow2(d as nat)) % (sp as int));
            lemma2_to64();
            assert(sx * pow2(0) == sx) by (nonlinear_arith)
                requires
                    pow2(0) == 1,
            ;
        }
        let mut r: u64 = sx % sp;
        let mut j: u64 = 0;
        while j < d
            invariant
                j <= d,
                sp > 0,
                r < sp,
                r == (sx * pow2(j as nat)) % (sp as int),
            decreases d - j,
        {
            proof {
                lemma_pow2_unfold((j + 1) as nat);
                lemma_mul_mod_noop_left(sx * pow2(j as nat), 2, sp as int);
                assert(sx * pow2((j + 1) as nat) == (sx * pow2(j as nat)) * 2) by (nonlinear_arith)
                    requires
                        pow2((j + 1) as nat) == 2 * pow2(j as nat),
                ;
            }
            let doubled: u128 = (r as u128) * 2;
            r = (doubled % (sp as u128)) as u64;
            j += 1;
        }
        r == 0
    } else {
        let d: u64 = kp - kx;
        proof {
            lemma_pow2_adds(d as nat, kx as nat);
            lemma_pow2_pos(d as nat);
            lemma_regroup(sp as int, pow2(d as nat) as int, pow2(kx as nat) as int);
            lemma_zero_product(pow2(d as nat) as int, sp as int);
            assert(sp * pow2(d as nat) == pow2(d as nat) * sp) by (nonlinear_arith);
            assert(sx * pow2(kx as nat) == pow2(kx as nat) * sx) by (nonlinear_arith);
            lemma_truncate_middle(sx as int, pow2(kx as nat) as int, sp * pow2(d as nat));
            lemma_zero_product(pow2(kx as nat) as int, (sx as int) % (sp * pow2(d as nat)));
        }
        if d >= 64 {
            proof {
                if d > 64 {
                    lemma_pow2_strictly_increases(64, d as nat);
                }
                lemma2_to64();
                assert(sp * pow2(d as nat) > sx) by (nonlinear_arith)
                    requires
                        sp >= 1,
                        pow2(d as nat) >= 0x1_0000_0000_0000_0000,
                        sx < 0x1_0000_0000_0000_0000,
                ;
                lemma_small_mod(sx as nat, (sp * pow2(d as nat)) as nat);
            }
            sx == 0
        } else {
            let p: u64 = power_of_two(d as u32);
            proof {
                assert(sp * p < 0x1_0000_0000_0000_0000 * 0x1_0000_0000_0000_0000)
                    by (nonlinear_arith)
                    requires
                        0 <= sp < 0x1_0000_0000_0000_0000,
                        0 <= p < 0x1_0000_0000_0000_0000,
                ;
            }
            let m: u128 = (sp as u128) * (p as u128);
            (sx as u128) % m == 0
        }
    }
}


/// Two integers compare as integers do.
pub proof fn integers_compare_by_value(x: i64, y: i64)
    ensures
        Number::Integer(x).compared_with(Number::Integer(y)) == Some(
            compare_ints(x as int, y as int),
        ),
{
    lemma_pow2_pos(1074);
    lemma_scaling_keeps_order(x as int, y as int, pow2(1074) as int);
}

/// Two floats that are not NaN compare as their order keys do.
pub proof fn floats_compare_by_order_key(a: u64, b: u64)
    requires
        !is_nan(a),
        !is_nan(b),
    ensures
        Number::Float(a).compared_with(Number::Float(b)) == Some(
            compare_ints(order_key(a), order_key(b)),
        ),
{
    lemma_order_key_orders(a, b);
}

/// An integer is a whole multiple of another exactly when the other is not
/// zero and the remainder of the division is zero.
pub proof fn integers_divide_by_value(x: i64, y: i64)
    ensures
        Number::Integer(x).is_multiple_of(Number::Integer(y)) == (y != 0 && absolute(x as int)
            % absolute(y as int) == 0),
{
    lemma_pow2_pos(1074);
    let p = pow2(1074) as int;
    let a = absolute(x as int);
    let b = absolute(y as int);
    assert(absolute(x * p) == a * p && absolute(y * p) == b * p && ((y * p == 0) == (y == 0)))
        by (nonlinear_arith)
        requires
            p > 0,
            a == absolute(x as int),
            b == absolute(y as int),
    ;
    if y != 0 {
        assert(a * p == p * a && b * p == p * b) by (nonlinear_arith);
        lemma_truncate_middle(a, p, b);
        lemma_zero_product(p, a % b);
    }
}


/// The arithmetic operations on numbers.
#[derive(Clone, Copy, Debug, PartialEq, Eq, Structural)]
pub enum Operation {
    Add,
    Sub,
    Mul,
    Div,
    Mod,
}

/// What an arithmetic operation on two numbers comes to.
#[derive(Clone, Copy, Debug, PartialEq, Eq, Structural)]
pub enum Outcome {
    /// Both numbers are integers, and this is the result.
    Integer(i64),
    /// One of the numbers is a float: the result is that of the
    /// floating-point operation, after the promotion of an integer operand.
    Floating,
    /// There is no result: the divisor is zero, or the result of an integer
    /// operation is no 64-bit integer.
    NoResult,
}

/// The quotient of two integers, rounded towards zero.
pub open spec fn truncated_quotient(x: int, y: int) -> int {
    if (x < 0) == (y < 0) {
        absolute(x) / absolute(y)
    } else {
        -(absolute(x) / absolute(y))
    }
}

/// The remainder of the division of two integers that rounds towards zero:
/// it has the sign of the dividend.
pub open spec fn truncated_remainder(x: int, y: int) -> int {
    if x < 0 {
        -(absolute(x) % absolute(y))
    } else {
        absolute(x) % absolute(y)
    }
}

/// The result of an operation on two integers, as a mathematical integer;
/// nothing for a division by zero.
pub open spec fn integer_result(op: Operation, x: int, y: int) -> Option<int> {
    match op {
        Operation::Add => Some(x + y),
        Operation::Sub => Some(x - y),
        Operation::Mul => Some(x * y),
        Operation::Div => if y == 0 {
            None
        } else {
            Some(truncated_quotient(x, y))
        },
        Operation::Mod => if y == 0 {
            None
        } else {
            Some(truncated_remainder(x, y))
        },
    }
}

/// Whether a number is zero: the integer zero, or a float zero of either
/// sign.
pub open spec fn is_zero_number(n: Number) -> bool {
    match n {
        Number::Integer(i) => i == 0,
        Number::Float(bits) => is_zero(bits),
    }
}

/// What an operation on two numbers comes to. Two integers are computed with
/// as integers. As soon as one number is a float the operation is a
/// floating-point operation. A division by zero, and the remainder of one,
/// have no result, whatever the kinds of the numbers.
pub open spec fn outcome_of(op: Operation, a: Number, b: Number) -> Outcome {
    match (a, b) {
        (Number::Integer(x), Number::Integer(y)) => match integer_result(op, x as int, y as int) {
            Some(v) => if i64::MIN <= v <= i64::MAX {
                Outcome::Integer(v as i64)
            } else {
                Outcome::NoResult
            },
            None => Outcome::NoResult,
        },
        _ => if (op == Operation::Div || op == Operation::Mod) && is_zero_number(b) {
            Outcome::NoResult
        } else {
            Outcome::Floating
        },
    }
}

/// The integer in the 64-bit range, if it lies there.
fn in_range(v: i128) -> (r: Outcome)
    ensures
        r == if i64::MIN <= v <= i64::MAX {
            Outcome::Integer(v as i64)
        } else {
            Outcome::NoResult
        },
{
    if v < -0x8000_0000_0000_0000 || v > 0x7fff_ffff_ffff_ffff {
        Outcome::NoResult
    } else {
        Outcome::Integer(v as i64)
    }
}

/// The absolute value of an integer.
fn magnitude_of_integer(i: i64) -> (a: u64)
    ensures
        a == absolute(i as int),
{
    if i < 0 {
        ((-(i + 1)) as u64) + 1
    } else {
        i as u64
    }
}

impl Number {
    /// What the operation on this number and the other comes to.
    pub fn arithmetic(&self, op: Operation, other: &Number) -> (r: Outcome)
        ensures
            r == outcome_of(op, *self, *other),
    {
        match (*self, *other) {
            (Number::Integer(x), Number::Integer(y)) => {
                match op {
                    Operation::Add => in_range((x as i128) + (y as i128)),
                    Operation::Sub => in_range((x as i128) - (y as i128)),
                    Operation::Mul => {
                        assert(-0x4000_0000_0000_0000_0000_0000_0000_0000 <= x * y
                            <= 0x4000_0000_0000_0000_0000_0000_0000_0000) by (nonlinear_arith)
                            requires
                                -0x8000_0000_0000_0000 <= x <= 0x7fff_ffff_ffff_ffff,
                                -0x8000_0000_0000_0000 <= y <= 0x7fff_ffff_ffff_ffff,
                        ;
                        in_range((x as i128) * (y as i128))
                    },
                    Operation::Div => {
                        if y == 0 {
                            Outcome::NoResult
                        } else {
                            let q: u64 = magnitude_of_integer(x) / magnitude_of_integer(y);
                            if (x < 0) == (y < 0) {
                                in_range(q as i128)
                            } else {
                                in_range(-(q as i128))
                            }
                        }
                    },
                    Operation::Mod => {
                        if y == 0 {
                            Outcome::NoResult
                        } else {
                            let r: u64 = magnitude_of_integer(x) % magnitude_of_integer(y);
                            if x < 0 {
                                in_range(-(r as i128))
                            } else {
                                in_range(r as i128)
                            }
                        }
                    },
                }
            },
            (_, divisor) => {
                let by_zero = match divisor {
                    Number::Integer(y) => y == 0,
                    Number::Float(bits) => check_zero(bits),
                };
                match op {
                    Operation::Div => if by_zero {
                        Outcome::NoResult
                    } else {
                        Outcome::Floating
                    },
                    Operation::Mod => if by_zero {
                        Outcome::NoResult
                    } else {
                        Outcome::Floating
                    },
                    _ => Outcome::Floating,
                }
            },
        }
    }
}

} // verus!
