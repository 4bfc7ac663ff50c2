//! IEEE-754 double-precision numbers, carried by their bits.
//!
//! The magnitude of a non-negative number grows with its encoding, and every
//! finite magnitude is a whole multiple of the smallest one. So numbers are
//! modelled as integers here: [`Binary64::scaled`] is the number counted in units
//! of the smallest positive one.

use vstd::arithmetic::div_mod::lemma_fundamental_div_mod;
use vstd::arithmetic::mul::{
    lemma_mul_inequality, lemma_mul_is_commutative, lemma_mul_strict_inequality,
};
use vstd::arithmetic::power2::{
    lemma2_to64, lemma2_to64_rest, lemma_pow2_adds, lemma_pow2_pos,
    lemma_pow2_strictly_increases, lemma_pow2_unfold, pow2,
};
use vstd::prelude::*;

verus! {

/// The sign bit.
pub const SIGN: u64 = 0x8000_0000_0000_0000;

/// The encoding of positive infinity; larger magnitudes encode no number.
pub const INFINITY_BITS: u64 = 0x7ff0_0000_0000_0000;

/// The weight of the exponent field: `2^52`.
pub const IMPLICIT: u64 = 0x10_0000_0000_0000;

/// A double-precision number, held as its 64-bit encoding.
///
/// Equality is equality of encodings; the order of the numbers themselves is
/// [`Binary64::ge`].
#[derive(Clone, Copy, PartialEq, Eq, Debug, Structural)]
pub struct Binary64 {
    pub bits: u64,
}

/// The magnitude that the encoding `bits` (without a sign bit) stands for, in
/// units of the smallest positive number, `2^-1074`.
///
/// Infinity counts as the power of two that follows the largest finite number.
#[verifier::opaque]
pub open spec fn magnitude(bits: int) -> nat
    recommends
        0 <= bits <= INFINITY_BITS,
{
    let exponent = bits / (IMPLICIT as int);
    let fraction = bits % (IMPLICIT as int);
    if exponent <= 0 {
        fraction as nat
    } else {
        ((IMPLICIT + fraction) * pow2((exponent - 1) as nat)) as nat
    }
}

/// The two smallest magnitudes.
pub proof fn lemma_magnitude_small()
    ensures
        magnitude(0) == 0,
        magnitude(1) == 1,
{
    reveal(magnitude);
}

/// Adjacent encodings have increasing magnitudes.
proof fn lemma_magnitude_step(a: int)
    requires
        0 <= a,
    ensures
        magnitude(a) < magnitude(a + 1),
{
    reveal(magnitude);
    let one = IMPLICIT as int;
    let e = a / one;
    let f = a % one;
    lemma_pow2_pos((e - 1) as nat);
    if f + 1 < one {
        assert((a + 1) / one == e && (a + 1) % one == f + 1);
        if e > 0 {
            lemma_mul_strict_inequality(one + f, one + f + 1, pow2((e - 1) as nat) as int);
        }
    } else {
        assert((a + 1) / one == e + 1 && (a + 1) % one == 0);
        if e > 0 {
            lemma_pow2_unfold(e as nat);
            let p = pow2((e - 1) as nat) as int;
            assert(one * (2 * p) == (one + one) * p) by (nonlinear_arith);
            lemma_mul_strict_inequality(one + f, one + one, p);
        } else {
            lemma2_to64();
        }
    }
}

/// Encodings without a sign bit are ordered as their magnitudes.
pub proof fn lemma_magnitude_increases(a: int, b: int)
    requires
        0 <= a < b,
    ensures
        magnitude(a) < magnitude(b),
    decreases b - a,
{
    lemma_magnitude_step(b - 1);
    if a < b - 1 {
        lemma_magnitude_increases(a, b - 1);
    }
}

impl Binary64 {
    /// The encoding without its sign bit.
    pub open spec fn unsigned(self) -> int {
        self.bits as int % (SIGN as int)
    }

    /// Whether the sign bit is set.
    pub open spec fn negative(self) -> bool {
        self.bits >= SIGN
    }

    /// Whether the encoding stands for no number at all.
    pub open spec fn nan(self) -> bool {
        self.unsigned() > INFINITY_BITS
    }

    /// Whether the encoding stands for a number other than the two infinities.
    pub open spec fn finite(self) -> bool {
        self.unsigned() < INFINITY_BITS
    }

    /// The number in units of the smallest positive one.
    pub open spec fn scaled(self) -> int {
        if self.negative() {
            -magnitude(self.unsigned())
        } else {
            magnitude(self.unsigned()) as int
        }
    }

    /// Whether the number is at least `other`. No comparison with something that
    /// is not a number holds.
    pub open spec fn at_least(self, other: Binary64) -> bool {
        !self.nan() && !other.nan() && self.scaled() >= other.scaled()
    }

    /// The number with the encoding `bits`.
    pub fn from_bits(bits: u64) -> (r: Binary64)
        ensures
            r.bits == bits,
    {
        Binary64 { bits }
    }

    /// Positive zero.
    pub fn zero() -> (r: Binary64)
        ensures
            r.bits == 0,
            r.scaled() == 0,
    {
        proof {
            lemma_magnitude_small();
        }
        Binary64 { bits: 0 }
    }

    /// One.
    pub fn one() -> (r: Binary64)
        ensures
            r.bits == 0x3ff0_0000_0000_0000u64,
            r.finite(),
            r.scaled() == pow2(1074),
    {
        proof {
            reveal(magnitude);
            lemma2_to64_rest();
            lemma_pow2_adds(52, 1022);
        }
        Binary64 { bits: 0x3ff0_0000_0000_0000 }
    }

    /// Positive infinity.
    pub fn infinity() -> (r: Binary64)
        ensures
            r.bits == INFINITY_BITS,
    {
        Binary64 { bits: INFINITY_BITS }
    }

    /// Whether the number is neither infinite nor missing.
    pub fn is_finite(self) -> (b: bool)
        ensures
            b == self.finite(),
    {
        self.bits % SIGN < INFINITY_BITS
    }

    /// Whether the number is at least `other`, by IEEE-754 comparison.
    pub fn ge(self, other: Binary64) -> (b: bool)
        ensures
            b == self.at_least(other),
    {
        let a: u64 = self.bits % SIGN;
        let b: u64 = other.bits % SIGN;
        proof {
            lemma_magnitude_small();
            if a < b {
                lemma_magnitude_increases(a as int, b as int);
            }
            if b < a {
                lemma_magnitude_increases(b as int, a as int);
            }
            if 0 < a {
                lemma_magnitude_increases(0, a as int);
            }
            if 0 < b {
                lemma_magnitude_increases(0, b as int);
            }
        }
        if a > INFINITY_BITS || b > INFINITY_BITS {
            false
        } else if self.bits < SIGN {
            other.bits >= SIGN || a >= b
        } else if other.bits >= SIGN {
            a <= b
        } else {
            a == 0 && b == 0
        }
    }
}

/// Rounding to the nearest number, ties to the even encoding: `bits` encodes what
/// `num / den` (in units of the smallest positive number) is rounded to.
///
/// The quotient lies between the midpoints to both neighbours, and on one of them
/// only if `bits` is even. What lies beyond the last finite number is infinity.
pub open spec fn rounds_to(num: nat, den: nat, bits: int) -> bool {
    &&& 0 <= bits <= INFINITY_BITS
    &&& bits > 0 ==> {
        let twice_mid = den * (magnitude(bits - 1) + magnitude(bits));
        2 * num > twice_mid || (2 * num == twice_mid && bits % 2 == 0)
    }
    &&& bits < INFINITY_BITS ==> {
        let twice_mid = den * (magnitude(bits) + magnitude(bits + 1));
        2 * num < twice_mid || (2 * num == twice_mid && bits % 2 == 0)
    }
}

/// A quotient is rounded to one number only.
pub proof fn rounding_is_unique(num: nat, den: nat, a: int, b: int)
    requires
        den > 0,
        rounds_to(num, den, a),
        rounds_to(num, den, b),
    ensures
        a == b,
{
    lemma_rounding_ordered(num, den, a, b);
    lemma_rounding_ordered(num, den, b, a);
}

proof fn lemma_rounding_ordered(num: nat, den: nat, a: int, b: int)
    requires
        den > 0,
        rounds_to(num, den, a),
        rounds_to(num, den, b),
    ensures
        a >= b,
{
    let above_a = magnitude(a) + magnitude(a + 1);
    let below_b = magnitude(b - 1) + magnitude(b);
    if a + 1 < b {
        lemma_magnitude_increases(a, b - 1);
        lemma_magnitude_increases(a + 1, b);
        lemma_mul_strict_inequality(above_a as int, below_b as int, den as int);
        lemma_mul_is_commutative(above_a as int, den as int);
        lemma_mul_is_commutative(below_b as int, den as int);
    }
}

/// An offset that keeps the exponents below non-negative.
spec fn offset() -> int {
    4096
}

/// `num / den` lies in `[m, m + 1)` times `2^e`, and is `m` times `2^e` exactly
/// unless it is marked as sticking out.
spec fn bracketed(num: nat, den: nat, m: int, sticky: bool, e: int) -> bool {
    let unit = den * pow2((offset() + e) as nat);
    let value = num * pow2(offset() as nat);
    &&& m * unit <= value < (m + 1) * unit
    &&& sticky <==> value != m * unit
}

proof fn lemma_cancel_le(p: int, a: int, b: int)
    requires
        p > 0,
        p * a <= p * b,
    ensures
        a <= b,
{
    if a > b {
        lemma_mul_strict_inequality(b, a, p);
        lemma_mul_is_commutative(a, p);
        lemma_mul_is_commutative(b, p);
    }
}

proof fn lemma_cancel_lt(p: int, a: int, b: int)
    requires
        p > 0,
        p * a < p * b,
    ensures
        a < b,
{
    if a >= b {
        lemma_mul_inequality(b, a, p);
        lemma_mul_is_commutative(a, p);
        lemma_mul_is_commutative(b, p);
    }
}

/// Dropping `k` bits of a bracketed quotient: what is left and what is lost decide
/// where the quotient stands between two multiples of the larger unit.
#[verifier::rlimit(40)]
proof fn lemma_drop_bits(
    num: nat,
    den: nat,
    m: int,
    sticky: bool,
    e: int,
    k: nat,
    q: int,
    rem: int,
)
    requires
        bracketed(num, den, m, sticky, e),
        den > 0,
        -offset() <= e,
        k >= 1,
        e + k >= 0,
        m == q * pow2(k) + rem,
        0 <= rem < pow2(k),
        q >= 0,
    ensures
        ({
            let x = (den * pow2((e + k) as nat)) as int;
            let half = pow2((k - 1) as nat);
            &&& q * x <= num < (q + 1) * x
            &&& rem < half ==> 2 * num < (2 * q + 1) * x
            &&& rem == half && !sticky ==> 2 * num == (2 * q + 1) * x
            &&& rem > half || (rem == half && sticky) ==> 2 * num > (2 * q + 1) * x
        }),
{
    let unit = (den * pow2((offset() + e) as nat)) as int;
    let p = pow2(offset() as nat) as int;
    let x = (den * pow2((e + k) as nat)) as int;
    let half = pow2((k - 1) as nat) as int;
    let two_k = pow2(k) as int;
    lemma_pow2_pos(offset() as nat);
    lemma_pow2_pos((offset() + e) as nat);
    lemma_pow2_unfold(k);
    assert(two_k == 2 * half);
    // p * x == 2^k * unit
    lemma_pow2_adds(offset() as nat, (e + k) as nat);
    lemma_pow2_adds((offset() + e) as nat, k);
    assert(p * x == two_k * unit) by (nonlinear_arith)
        requires
            x == den * pow2((e + k) as nat),
            unit == den * pow2((offset() + e) as nat),
            p * pow2((e + k) as nat) == pow2((offset() + e) as nat) * two_k,
    ;
    assert(unit > 0) by (nonlinear_arith)
        requires
            unit == den * pow2((offset() + e) as nat),
            den > 0,
            pow2((offset() + e) as nat) > 0,
    ;
    let value = p * num;
    assert(value == num * p) by (nonlinear_arith)
        requires
            value == p * num,
    ;
    assert(p * (q * x) == q * two_k * unit) by (nonlinear_arith)
        requires
            p * x == two_k * unit,
    ;
    assert(p * ((q + 1) * x) == (q + 1) * two_k * unit) by (nonlinear_arith)
        requires
            p * x == two_k * unit,
    ;
    assert(p * ((2 * q + 1) * x) == 2 * ((2 * q + 1) * half * unit)) by (nonlinear_arith)
        requires
            p * x == two_k * unit,
            two_k == 2 * half,
    ;
    assert(p * (2 * num) == 2 * value) by (nonlinear_arith)
        requires
            value == p * num,
    ;
    // q * x <= num
    lemma_mul_inequality(q * two_k, m, unit);
    lemma_cancel_le(p, q * x, num as int);
    // num < (q + 1) * x
    assert((q + 1) * two_k == q * two_k + two_k) by (nonlinear_arith);
    lemma_mul_inequality(m + 1, (q + 1) * two_k, unit);
    lemma_cancel_lt(p, num as int, (q + 1) * x);
    // around the midpoint
    let mid = (2 * q + 1) * half;
    assert(mid == q * two_k + half) by (nonlinear_arith)
        requires
            mid == (2 * q + 1) * half,
            two_k == 2 * half,
    ;
    if rem < half {
        lemma_mul_inequality(m + 1, mid, unit);
        lemma_cancel_lt(p, 2 * num as int, (2 * q + 1) * x);
    } else if rem == half && !sticky {
        assert(p * (2 * num) == p * ((2 * q + 1) * x));
        lemma_cancel_le(p, 2 * num as int, (2 * q + 1) * x);
        lemma_cancel_le(p, (2 * q + 1) * x, 2 * num as int);
    } else if rem == half {
        lemma_cancel_lt(p, (2 * q + 1) * x, 2 * num as int);
    } else {
        lemma_mul_strict_inequality(mid, m, unit);
        lemma_cancel_lt(p, (2 * q + 1) * x, 2 * num as int);
    }
}

/// `2^k`.
fn power_of_two(k: u32) -> (p: u128)
    requires
        k <= 64,
    ensures
        p == pow2(k as nat),
        p > 0,
{
    let mut p: u128 = 1;
    let mut i: u32 = 0;
    proof {
        lemma2_to64();
        lemma2_to64_rest();
    }
    while i < k
        invariant
            i <= k <= 64,
            p == pow2(i as nat),
            p > 0,
            pow2(64) == 0x1_0000_0000_0000_0000,
        decreases k - i,
    {
        proof {
            lemma_pow2_unfold((i + 1) as nat);
            lemma_pow2_strictly_increases(i as nat, 64);
        }
        p = p * 2;
        i = i + 1;
    }
    p
}

/// The number shifted up until its highest bit is set, and how far.
fn normalise(n: u64) -> (r: (u64, u32))
    requires
        n > 0,
    ensures
        r.0 >= SIGN,
        r.0 == n * pow2(r.1 as nat),
        r.1 <= 63,
{
    let mut m: u64 = n;
    let mut s: u32 = 0;
    proof {
        lemma2_to64();
        lemma2_to64_rest();
        assert(n * 1 == n);
    }
    while m < SIGN
        invariant
            n > 0,
            m == n * pow2(s as nat),
            s <= 63,
            pow2(63) == SIGN,
        decreases 63 - s,
    {
        proof {
            lemma_mul_inequality(1, n as int, pow2(s as nat) as int);
            if s == 63 {
                assert(m >= pow2(63));
            }
            lemma_pow2_unfold((s + 1) as nat);
            let p = pow2(s as nat) as int;
            assert(n * (2 * p) == 2 * (n * p)) by (nonlinear_arith);
        }
        m = m * 2;
        s = s + 1;
    }
    (m, s)
}

/// The encoding below and above: `q` units of `2^u`, and one more.
proof fn lemma_encoded(q: int, u: int)
    requires
        0 <= u <= 2045,
        0 <= q < 2 * IMPLICIT,
        u > 0 ==> q >= IMPLICIT,
    ensures
        magnitude(u * IMPLICIT + q) == q * pow2(u as nat),
        magnitude(u * IMPLICIT + q + 1) == (q + 1) * pow2(u as nat),
        u * IMPLICIT + q < INFINITY_BITS,
{
    reveal(magnitude);
    let one = IMPLICIT as int;
    let bits = u * one + q;
    lemma2_to64();
    let w = pow2(u as nat) as int;
    if q < one {
        assert(u == 0 && w == 1);
        assert(q * w == q && (q + 1) * w == q + 1);
        assert(bits / one == 0 && bits % one == q);
        if q + 1 < one {
            assert((bits + 1) / one == 0 && (bits + 1) % one == q + 1);
        } else {
            assert((bits + 1) / one == 1 && (bits + 1) % one == 0);
        }
    } else {
        assert(bits / one == u + 1 && bits % one == q - one);
        assert(magnitude(bits) == (one + (q - one)) * w);
        if q + 1 < 2 * one {
            assert((bits + 1) / one == u + 1 && (bits + 1) % one == q + 1 - one);
            assert(magnitude(bits + 1) == (one + (q + 1 - one)) * w);
        } else {
            assert((bits + 1) / one == u + 2 && (bits + 1) % one == 0);
            lemma_pow2_unfold((u + 1) as nat);
            assert(magnitude(bits + 1) == (one + 0) * (2 * w));
            assert(one * (2 * w) == (2 * one) * w) by (nonlinear_arith);
        }
    }
}

/// Round what is bracketed by `m` and `m + 1` units of `2^e`.
#[verifier::rlimit(40)]
fn round(m: u64, sticky: bool, e: i32, Ghost(num): Ghost<nat>, Ghost(den): Ghost<nat>) -> (bits: u64)
    requires
        m >= SIGN,
        -4000 <= e <= 4000,
        den > 0,
        bracketed(num, den, m as int, sticky, e as int),
    ensures
        rounds_to(num, den, bits as int),
{
    if e < -64 {
        proof {
            lemma_tiny(num, den, m as int, sticky, e as int);
        }
        return 0;
    }
    let k: u32 = if e >= -11 {
        11
    } else {
        (-e) as u32
    };
    let u: i32 = e + k as i32;
    let p: u128 = power_of_two(k);
    let half: u128 = power_of_two(k - 1);
    let q: u64 = (m as u128 / p) as u64;
    let rem: u128 = m as u128 % p;
    proof {
        lemma2_to64();
        lemma2_to64_rest();
        lemma_fundamental_div_mod(m as int, p as int);
        assert(m == q * p + rem) by {
            lemma_mul_is_commutative(q as int, p as int);
        }
        if k == 11 {
            assert(p == 2048);
            assert(IMPLICIT <= q < 2 * IMPLICIT);
        } else {
            lemma_pow2_strictly_increases(11, k as nat);
            assert(q < IMPLICIT * 2) by {
                assert(q * 2048 <= q * p) by (nonlinear_arith)
                    requires
                        p >= 2048,
                        q >= 0,
                ;
            }
        }
        lemma_drop_bits(num, den, m as int, sticky, e as int, k as nat, q as int, rem as int);
    }
    if u >= 2046 {
        proof {
            lemma_huge(num, den, q as int, u as int);
        }
        return INFINITY_BITS;
    }
    proof {
        lemma_encoded(q as int, u as int);
        lemma_round_choice(num, den, q as int, u as int);
    }
    let floor: u64 = u as u64 * IMPLICIT + q;
    if rem > half || (rem == half && (sticky || q % 2 == 1)) {
        floor + 1
    } else {
        floor
    }
}

/// Which of the two numbers around a quotient it is rounded to.
proof fn lemma_round_choice(num: nat, den: nat, q: int, u: int)
    requires
        den > 0,
        0 <= u <= 2045,
        0 <= q < 2 * IMPLICIT,
        u > 0 ==> q >= IMPLICIT,
        q * (den * pow2(u as nat)) <= num < (q + 1) * (den * pow2(u as nat)),
    ensures
        ({
            let twice_mid = (2 * q + 1) * (den * pow2(u as nat));
            let floor = u * IMPLICIT + q;
            &&& 2 * num < twice_mid || (2 * num == twice_mid && q % 2 == 0) ==> rounds_to(
                num,
                den,
                floor,
            )
            &&& 2 * num > twice_mid || (2 * num == twice_mid && q % 2 == 1) ==> rounds_to(
                num,
                den,
                floor + 1,
            )
        }),
{
    let floor = u * IMPLICIT + q;
    lemma_encoded(q, u);
    let w = pow2(u as nat) as int;
    let x = den * w;
    assert(q * x == den * (q * w)) by (nonlinear_arith)
        requires
            x == den * w,
    ;
    assert((q + 1) * x == den * ((q + 1) * w)) by (nonlinear_arith)
        requires
            x == den * w,
    ;
    assert((2 * q + 1) * x == den * (q * w + (q + 1) * w)) by (nonlinear_arith)
        requires
            x == den * w,
    ;
    assert(floor % 2 == q % 2);
    lemma_neighbours(num, den, floor);
}

/// A quotient between two adjacent magnitudes is well away from the midpoints
/// beyond them.
proof fn lemma_neighbours(num: nat, den: nat, floor: int)
    requires
        den > 0,
        0 <= floor < INFINITY_BITS,
        den * magnitude(floor) <= num < den * magnitude(floor + 1),
    ensures
        floor > 0 ==> 2 * num > den * (magnitude(floor - 1) + magnitude(floor)),
        2 * num < den * (magnitude(floor + 1) + magnitude(floor + 2)),
{
    let a = magnitude(floor) as int;
    let b = magnitude(floor + 1) as int;
    let c = magnitude(floor + 2) as int;
    let d = den as int;
    lemma_magnitude_step(floor);
    lemma_magnitude_step(floor + 1);
    assert(d * (b + c) == d * b + d * c) by (nonlinear_arith);
    assert(d * b < d * c) by (nonlinear_arith)
        requires
            d > 0,
            b < c,
    ;
    if floor > 0 {
        let z = magnitude(floor - 1) as int;
        lemma_magnitude_step(floor - 1);
        assert(d * (z + a) == d * z + d * a) by (nonlinear_arith);
        assert(d * z < d * a) by (nonlinear_arith)
            requires
                d > 0,
                z < a,
        ;
    }
}

/// What is less than half the smallest positive number is rounded to zero.
proof fn lemma_tiny(num: nat, den: nat, m: int, sticky: bool, e: int)
    requires
        bracketed(num, den, m, sticky, e),
        den > 0,
        0 <= m <= u64::MAX,
        -4000 <= e < -64,
    ensures
        rounds_to(num, den, 0),
{
    reveal(magnitude);
    let unit = (den * pow2((offset() + e) as nat)) as int;
    let p = pow2(offset() as nat) as int;
    lemma2_to64_rest();
    lemma_pow2_pos((offset() + e) as nat);
    lemma_pow2_pos(offset() as nat);
    // 2 * (m + 1) * 2^e <= 2^65 * 2^e <= 1
    lemma_pow2_unfold(65);
    lemma_pow2_adds((offset() + e) as nat, 65);
    if e + 65 < 0 {
        lemma_pow2_strictly_increases((offset() + e + 65) as nat, offset() as nat);
    }
    let w = pow2((offset() + e) as nat) as int;
    assert(2 * (m + 1) * w <= p) by (nonlinear_arith)
        requires
            m + 1 <= 0x1_0000_0000_0000_0000,
            w > 0,
            w * 0x2_0000_0000_0000_0000 <= p,
    ;
    assert(2 * ((m + 1) * unit) <= den * p) by (nonlinear_arith)
        requires
            2 * (m + 1) * w <= p,
            unit == den * w,
            den > 0,
    ;
    assert(p * (2 * num) < p * den) by (nonlinear_arith)
        requires
            num * p < (m + 1) * unit,
            2 * ((m + 1) * unit) <= den * p,
    ;
    lemma_cancel_lt(p, 2 * num as int, den as int);
    assert(magnitude(0) == 0 && magnitude(1) == 1);
    assert(den * (magnitude(0) + magnitude(1)) == den) by (nonlinear_arith)
        requires
            magnitude(0) == 0,
            magnitude(1) == 1,
    ;
}

/// What is at least the power of two after the largest finite number is rounded to
/// infinity.
proof fn lemma_huge(num: nat, den: nat, q: int, u: int)
    requires
        den > 0,
        q >= IMPLICIT,
        u >= 2046,
        q * (den * pow2(u as nat)) <= num,
    ensures
        rounds_to(num, den, INFINITY_BITS as int),
{
    reveal(magnitude);
    let top = INFINITY_BITS as int;
    let d = den as int;
    assert(top / (IMPLICIT as int) == 2047 && top % (IMPLICIT as int) == 0);
    let w = pow2(2046) as int;
    assert(magnitude(top) == IMPLICIT * w);
    lemma_pow2_pos(2046);
    if u > 2046 {
        lemma_pow2_strictly_increases(2046, u as nat);
    }
    let x = pow2(u as nat) as int;
    assert(d * (IMPLICIT * w) <= q * (d * x)) by (nonlinear_arith)
        requires
            d > 0,
            q >= IMPLICIT,
            0 < w <= x,
    ;
    lemma_magnitude_step(top - 1);
    let below = magnitude(top - 1) as int;
    let at = magnitude(top) as int;
    assert(d * (below + at) < 2 * (d * at)) by (nonlinear_arith)
        requires
            d > 0,
            below < at,
    ;
}

/// Round `n` units of `2^x`.
fn round_exact(n: u64, x: i32) -> (bits: u64)
    requires
        0 <= x <= 2100,
    ensures
        rounds_to((n * pow2(x as nat)) as nat, 1, bits as int),
{
    if n == 0 {
        proof {
            assert(0 * pow2(x as nat) == 0) by (nonlinear_arith);
            lemma_magnitude_small();
        }
        return 0;
    }
    let (m, s): (u64, u32) = normalise(n);
    let e: i32 = x - s as i32;
    let ghost num = (n * pow2(x as nat)) as nat;
    proof {
        lemma_pow2_adds(s as nat, (offset() + e) as nat);
        lemma_pow2_adds(offset() as nat, x as nat);
        lemma_pow2_pos((offset() + e) as nat);
        let unit = pow2((offset() + e) as nat) as int;
        let a = pow2(s as nat) as int;
        let b = pow2(x as nat) as int;
        let p = pow2(offset() as nat) as int;
        assert(m * unit == num * p) by (nonlinear_arith)
            requires
                m == n * a,
                num == n * b,
                a * unit == p * b,
        ;
        assert((m + 1) * unit == m * unit + unit) by (nonlinear_arith);
        assert(1 * unit == unit);
        assert(bracketed(num, 1, m as int, false, e as int));
    }
    round(m, false, e, Ghost(num), Ghost(1))
}

/// The significand and the exponent of a finite number without its sign.
fn decompose(unsigned: u64) -> (r: (u64, i32))
    requires
        unsigned < INFINITY_BITS,
    ensures
        magnitude(unsigned as int) == r.0 * pow2(r.1 as nat),
        r.0 < 2 * IMPLICIT,
        0 <= r.1 <= 2045,
        unsigned > 0 ==> r.0 > 0,
{
    let exponent: u64 = unsigned / IMPLICIT;
    let fraction: u64 = unsigned % IMPLICIT;
    proof {
        reveal(magnitude);
    }
    if exponent == 0 {
        proof {
            lemma2_to64();
            assert(fraction * 1 == fraction);
        }
        (fraction, 0)
    } else {
        (IMPLICIT + fraction, exponent as i32 - 1)
    }
}

/// Round the quotient of two finite magnitudes, the second of which is not zero.
#[verifier::rlimit(40)]
fn round_quotient(a: u64, b: u64) -> (bits: u64)
    requires
        a < INFINITY_BITS,
        0 < b < INFINITY_BITS,
    ensures
        rounds_to(
            magnitude(a as int) * pow2(1074),
            magnitude(b as int),
            bits as int,
        ),
{
    let (sa, xa): (u64, i32) = decompose(a);
    let (sb, xb): (u64, i32) = decompose(b);
    let ghost num = magnitude(a as int) * pow2(1074);
    let ghost den = magnitude(b as int);
    proof {
        lemma_pow2_pos(xb as nat);
        assert(den > 0) by (nonlinear_arith)
            requires
                den == sb * pow2(xb as nat),
                sb > 0,
                pow2(xb as nat) > 0,
        ;
    }
    if sa == 0 {
        proof {
            assert(num == 0) by (nonlinear_arith)
                requires
                    num == magnitude(a as int) * pow2(1074),
                    magnitude(a as int) == sa * pow2(xa as nat),
                    sa == 0,
            ;
            lemma_magnitude_small();
            assert(den * (magnitude(0) + magnitude(1)) == den) by (nonlinear_arith)
                requires
                    magnitude(0) == 0,
                    magnitude(1) == 1,
            ;
        }
        return 0;
    }
    let (na, ra): (u64, u32) = normalise(sa);
    let (nb, rb): (u64, u32) = normalise(sb);
    let wide: u128 = na as u128 * 0x1_0000_0000_0000_0000;
    let quotient: u128 = wide / nb as u128;
    let rest: u128 = wide % nb as u128;
    let e: i32 = xa - ra as i32 - xb + rb as i32 + 1010;
    proof {
        lemma_fundamental_div_mod(wide as int, nb as int);
        lemma_quotient_bracketed(
            sa as int,
            xa as int,
            ra as int,
            sb as int,
            xb as int,
            rb as int,
            na as int,
            nb as int,
            quotient as int,
            rest as int,
        );
        assert(num == sa * pow2(xa as nat) * pow2(1074));
        assert(quotient >= SIGN) by (nonlinear_arith)
            requires
                wide == nb * quotient + rest,
                rest < nb,
                wide == na * 0x1_0000_0000_0000_0000,
                na >= SIGN,
                nb <= u64::MAX,
                SIGN == 0x8000_0000_0000_0000,
        ;
        assert(quotient < 0x2_0000_0000_0000_0000) by (nonlinear_arith)
            requires
                wide == nb * quotient + rest,
                rest >= 0,
                wide == na * 0x1_0000_0000_0000_0000,
                na <= u64::MAX,
                nb >= SIGN,
                SIGN == 0x8000_0000_0000_0000,
        ;
    }
    if quotient >= 0x1_0000_0000_0000_0000 {
        let m: u64 = (quotient / 2) as u64;
        let sticky = rest != 0 || quotient % 2 == 1;
        proof {
            lemma_bracketed_halved(num, den, quotient as int, rest != 0, e as int);
        }
        round(m, sticky, e + 1, Ghost(num), Ghost(den))
    } else {
        round(quotient as u64, rest != 0, e, Ghost(num), Ghost(den))
    }
}

/// Long division of the normalised significands brackets the quotient.
#[verifier::rlimit(40)]
proof fn lemma_quotient_bracketed(
    sa: int,
    xa: int,
    ra: int,
    sb: int,
    xb: int,
    rb: int,
    na: int,
    nb: int,
    quotient: int,
    rest: int,
)
    requires
        0 <= xa <= 2045,
        0 <= xb <= 2045,
        0 <= ra <= 63,
        0 <= rb <= 63,
        sa > 0,
        sb > 0,
        na == sa * pow2(ra as nat),
        nb == sb * pow2(rb as nat),
        nb > 0,
        na * 0x1_0000_0000_0000_0000 == nb * quotient + rest,
        0 <= rest < nb,
    ensures
        bracketed(
            (sa * pow2(xa as nat) * pow2(1074)) as nat,
            (sb * pow2(xb as nat)) as nat,
            quotient,
            rest != 0,
            xa - ra - xb + rb + 1010,
        ),
{
    let k = offset();
    let e = xa - ra - xb + rb + 1010;
    let t = pow2((k + xa - ra + 1010) as nat) as int;
    let p = pow2(k as nat) as int;
    let w = pow2((k + e) as nat) as int;
    let pxa = pow2(xa as nat) as int;
    let pxb = pow2(xb as nat) as int;
    let pra = pow2(ra as nat) as int;
    let prb = pow2(rb as nat) as int;
    let big = pow2(1074) as int;
    let c: int = 0x1_0000_0000_0000_0000;
    lemma2_to64_rest();
    assert(sa * pxa >= 0 && sb * pxb >= 0 && sa * pxa * big >= 0) by (nonlinear_arith)
        requires
            sa > 0,
            sb > 0,
            pxa >= 0,
            pxb >= 0,
            big >= 0,
    ;
    let num = sa * pxa * big;
    let den = sb * pxb;
    // den * 2^(k + e) == nb * t
    lemma_pow2_adds(xb as nat, (k + e) as nat);
    lemma_pow2_adds(rb as nat, (k + xa - ra + 1010) as nat);
    assert(pxb * w == prb * t);
    assert(den * w == nb * t) by (nonlinear_arith)
        requires
            den == sb * pxb,
            nb == sb * prb,
            pxb * w == prb * t,
    ;
    // num * 2^k == na * 2^64 * t
    lemma_pow2_adds(xa as nat, 1074);
    lemma_pow2_adds((xa + 1074) as nat, k as nat);
    lemma_pow2_adds(ra as nat, 64);
    lemma_pow2_adds((ra + 64) as nat, (k + xa - ra + 1010) as nat);
    assert(pxa * big * p == pra * c * t);
    assert(num * p == sa * (pxa * big * p)) by (nonlinear_arith)
        requires
            num == sa * pxa * big,
    ;
    assert((na * c) * t == sa * (pra * c * t)) by (nonlinear_arith)
        requires
            na == sa * pra,
    ;
    lemma_pow2_pos((k + xa - ra + 1010) as nat);
    let unit = nb * t;
    assert(unit > 0) by (nonlinear_arith)
        requires
            unit == nb * t,
            nb > 0,
            t > 0,
    ;
    assert((na * c) * t == quotient * unit + rest * t) by (nonlinear_arith)
        requires
            na * c == nb * quotient + rest,
            unit == nb * t,
    ;
    assert((quotient + 1) * unit == quotient * unit + unit) by (nonlinear_arith);
    assert(0 <= rest * t < unit) by (nonlinear_arith)
        requires
            0 <= rest < nb,
            t > 0,
            unit == nb * t,
    ;
    assert(rest * t == 0 <==> rest == 0) by (nonlinear_arith)
        requires
            t > 0,
            rest >= 0,
    ;
}

/// A bracket in units twice as large.
proof fn lemma_bracketed_halved(num: nat, den: nat, m: int, sticky: bool, e: int)
    requires
        bracketed(num, den, m, sticky, e),
        -4000 <= e,
        den > 0,
        m >= 0,
    ensures
        bracketed(num, den, m / 2, sticky || m % 2 == 1, e + 1),
{
    let w = pow2((offset() + e) as nat) as int;
    let unit = den * w;
    lemma_pow2_unfold((offset() + e + 1) as nat);
    lemma_pow2_pos((offset() + e) as nat);
    let h = m / 2;
    let r = m % 2;
    assert(unit > 0) by (nonlinear_arith)
        requires
            unit == den * w,
            den > 0,
            w > 0,
    ;
    assert(den * (2 * w) == 2 * unit) by (nonlinear_arith)
        requires
            unit == den * w,
    ;
    assert(m * unit == h * (2 * unit) + r * unit) by (nonlinear_arith)
        requires
            m == 2 * h + r,
    ;
    assert((m + 1) * unit == m * unit + unit) by (nonlinear_arith);
    assert((h + 1) * (2 * unit) == h * (2 * unit) + 2 * unit) by (nonlinear_arith);
    if r == 1 {
        assert(r * unit == unit);
    } else {
        assert(r * unit == 0);
    }
}

/// A larger quotient is not rounded to a smaller number.
pub proof fn rounding_is_monotone(small: nat, large: nat, den: nat, a: int, b: int)
    requires
        den > 0,
        small <= large,
        rounds_to(small, den, a),
        rounds_to(large, den, b),
    ensures
        a <= b,
{
    if b < a {
        let d = den as int;
        let above_b = (magnitude(b) + magnitude(b + 1)) as int;
        let below_a = (magnitude(a - 1) + magnitude(a)) as int;
        if b + 1 < a {
            lemma_magnitude_increases(b, a - 1);
            lemma_magnitude_increases(b + 1, a);
        }
        assert(d * above_b <= d * below_a) by (nonlinear_arith)
            requires
                d > 0,
                above_b <= below_a,
        ;
        assert(small == large);
        rounding_is_unique(small, den, a, b);
    }
}

/// What is a number already is rounded to itself.
pub proof fn exact_is_kept(den: nat, bits: int)
    requires
        den > 0,
        0 <= bits <= INFINITY_BITS,
    ensures
        rounds_to(den * magnitude(bits), den, bits),
{
    let d = den as int;
    let at = magnitude(bits) as int;
    if bits > 0 {
        lemma_magnitude_step(bits - 1);
        let below = magnitude(bits - 1) as int;
        assert(d * (below + at) < 2 * (d * at)) by (nonlinear_arith)
            requires
                d > 0,
                below < at,
        ;
    }
    lemma_magnitude_step(bits);
    let above = magnitude(bits + 1) as int;
    assert(2 * (d * at) < d * (at + above)) by (nonlinear_arith)
        requires
            d > 0,
            at < above,
    ;
}

/// Every quotient is rounded to some number.
pub proof fn rounding_exists(num: nat, den: nat) -> (bits: int)
    ensures
        rounds_to(num, den, bits),
{
    lemma_rounding_below(num, den, INFINITY_BITS as int)
}

/// A quotient that is not above the midpoint after `top` is rounded to `top` or
/// below.
proof fn lemma_rounding_below(num: nat, den: nat, top: int) -> (bits: int)
    requires
        0 <= top <= INFINITY_BITS,
        top < INFINITY_BITS ==> {
            let twice_mid = den * (magnitude(top) + magnitude(top + 1));
            2 * num < twice_mid || (2 * num == twice_mid && top % 2 == 0)
        },
    ensures
        rounds_to(num, den, bits),
    decreases top,
{
    if top == 0 {
        top
    } else {
        let twice_mid = den * (magnitude(top - 1) + magnitude(top));
        if 2 * num > twice_mid || (2 * num == twice_mid && top % 2 == 0) {
            top
        } else {
            lemma_rounding_below(num, den, top - 1)
        }
    }
}

/// The number nearest to a 64-bit count is finite.
pub proof fn nearest_is_finite(n: u64)
    ensures
        rounds_to(n as nat * pow2(1074), 1, nearest(n as nat).bits as int),
        nearest(n as nat).bits < INFINITY_BITS,
{
    let num = n as nat * pow2(1074);
    let bits = rounding_exists(num, 1);
    let witness = Binary64 { bits: bits as u64 };
    assert(rounds_to(num, 1, witness.bits as int));
    lemma_whole_is_finite(n as nat, 1074, nearest(n as nat).bits as int);
}

/// The number nearest to a whole number.
pub open spec fn nearest(n: nat) -> Binary64 {
    choose|r: Binary64| rounds_to(n * pow2(1074), 1, r.bits as int)
}

/// A whole number up to `2^71` is rounded to a finite number.
proof fn lemma_whole_is_finite(n: nat, x: nat, bits: int)
    requires
        n <= u64::MAX,
        x <= 1100,
        rounds_to((n * pow2(x)) as nat, 1, bits),
    ensures
        bits < INFINITY_BITS,
{
    reveal(magnitude);
    // 2^64 * 2^x is the magnitude of the exponent x + 13.
    let top = (x + 13) * (IMPLICIT as int);
    assert(top / (IMPLICIT as int) == x + 13 && top % (IMPLICIT as int) == 0);
    lemma2_to64_rest();
    lemma_pow2_adds(52, (x + 12) as nat);
    lemma_pow2_adds(64, x);
    let p = pow2(x) as int;
    assert(magnitude(top) == pow2((x + 64) as nat));
    assert(n * p <= 0x1_0000_0000_0000_0000 * p) by (nonlinear_arith)
        requires
            n <= 0x1_0000_0000_0000_0000,
            p >= 0,
    ;
    exact_is_kept(1, top);
    assert(1 * magnitude(top) == magnitude(top));
    rounding_is_monotone((n * p) as nat, magnitude(top), 1, bits, top);
}

impl Binary64 {
    /// Whether the encoding stands for one of the two infinities.
    pub open spec fn infinite(self) -> bool {
        self.unsigned() == INFINITY_BITS
    }

    /// Whether the encoding stands for one of the two zeros.
    pub open spec fn zeroed(self) -> bool {
        self.unsigned() == 0
    }
}

/// Whether `r` is the IEEE-754 quotient `a / b`.
pub open spec fn is_quotient(a: Binary64, b: Binary64, r: Binary64) -> bool {
    if a.nan() || b.nan() || (a.infinite() && b.infinite()) || (a.zeroed() && b.zeroed()) {
        r.nan()
    } else {
        &&& r.negative() == (a.negative() != b.negative())
        &&& if a.infinite() || b.zeroed() {
            r.infinite()
        } else if b.infinite() {
            r.zeroed()
        } else {
            rounds_to(
                magnitude(a.unsigned()) * pow2(1074),
                magnitude(b.unsigned()),
                r.unsigned(),
            )
        }
    }
}

impl Binary64 {
    /// The number nearest to a whole number.
    pub fn from_u64(n: u64) -> (r: Binary64)
        ensures
            r == nearest(n as nat),
            rounds_to(n as nat * pow2(1074), 1, r.bits as int),
            r.bits < INFINITY_BITS,
    {
        let r = Binary64 { bits: round_exact(n, 1074) };
        proof {
            let num = (n * pow2(1074)) as nat;
            lemma_whole_is_finite(n as nat, 1074, r.bits as int);
            assert(rounds_to(n as nat * pow2(1074), 1, r.bits as int));
            rounding_is_unique(num, 1, r.bits as int, nearest(n as nat).bits as int);
        }
        r
    }

    /// A hundred times a finite number that is not negative.
    pub fn times_hundred(self) -> (r: Binary64)
        requires
            self.bits < INFINITY_BITS,
        ensures
            rounds_to(100 * magnitude(self.bits as int), 1, r.bits as int),
    {
        let (s, x): (u64, i32) = decompose(self.bits);
        let n: u64 = 100 * s;
        proof {
            let p = pow2(x as nat) as int;
            assert(100 * (s * p) == n * p) by (nonlinear_arith)
                requires
                    n == 100 * s,
            ;
        }
        Binary64 { bits: round_exact(n, x) }
    }

    /// The IEEE-754 quotient, rounded to nearest with ties to even.
    #[verifier::rlimit(40)]
    pub fn div(self, other: Binary64) -> (r: Binary64)
        ensures
            is_quotient(self, other, r),
    {
        let a: u64 = self.bits % SIGN;
        let b: u64 = other.bits % SIGN;
        if a > INFINITY_BITS || b > INFINITY_BITS || (a == INFINITY_BITS && b == INFINITY_BITS) || (
        a == 0 && b == 0) {
            return Binary64 { bits: 0x7ff8_0000_0000_0000 };
        }
        let unsigned: u64 = if a == INFINITY_BITS || b == 0 {
            INFINITY_BITS
        } else if b == INFINITY_BITS {
            0
        } else {
            round_quotient(a, b)
        };
        Self::with_sign(unsigned, (self.bits >= SIGN) != (other.bits >= SIGN))
    }

    /// The number with the given encoding and sign.
    fn with_sign(unsigned: u64, negative: bool) -> (r: Binary64)
        requires
            unsigned <= INFINITY_BITS,
        ensures
            r.unsigned() == unsigned,
            r.negative() == negative,
    {
        if negative {
            Binary64 { bits: unsigned + SIGN }
        } else {
            Binary64 { bits: unsigned }
        }
    }
}

/// A quotient of positive numbers is at least one when its numerator is at least
/// its denominator.
pub proof fn quotient_at_least_one(a: Binary64, b: Binary64, r: Binary64, one: Binary64)
    requires
        is_quotient(a, b, r),
        0 < b.bits < INFINITY_BITS,
        b.bits <= a.bits < INFINITY_BITS,
        one.bits == 0x3ff0_0000_0000_0000u64,
    ensures
        one.bits <= r.bits <= INFINITY_BITS,
        r.at_least(one),
{
    reveal(magnitude);
    let den = magnitude(b.bits as int);
    let num = magnitude(a.bits as int) * pow2(1074);
    let bits = 0x3ff0_0000_0000_0000int;
    lemma_magnitude_increases(0, b.bits as int);
    if b.bits < a.bits {
        lemma_magnitude_increases(b.bits as int, a.bits as int);
    }
    lemma2_to64_rest();
    lemma_pow2_adds(52, 1022);
    assert(bits / (IMPLICIT as int) == 1023 && bits % (IMPLICIT as int) == 0);
    assert(magnitude(bits) == pow2(1074));
    let p = pow2(1074) as int;
    assert(den * p <= num) by (nonlinear_arith)
        requires
            den <= magnitude(a.bits as int),
            num == magnitude(a.bits as int) * p,
            p >= 0,
    ;
    exact_is_kept(den, bits);
    rounding_is_monotone(den * magnitude(bits), num, den, bits, r.unsigned());
    assert(r.unsigned() == r.bits);
    if bits < r.bits {
        lemma_magnitude_increases(bits, r.bits as int);
    }
}

/// `q` units of `2^u` have an encoding.
proof fn lemma_exact_bits(q: int, u: int) -> (bits: int)
    requires
        0 < q < 2 * IMPLICIT,
        0 <= u <= 2045,
    ensures
        0 <= bits < INFINITY_BITS,
        magnitude(bits) == q * pow2(u as nat),
    decreases u,
{
    if u == 0 || q >= IMPLICIT {
        lemma_encoded(q, u);
        u * IMPLICIT + q
    } else {
        lemma_pow2_unfold(u as nat);
        let p = pow2((u - 1) as nat) as int;
        assert(q * (2 * p) == (2 * q) * p) by (nonlinear_arith);
        lemma_exact_bits(2 * q, u - 1)
    }
}

/// Whole numbers up to `2^53` are numbers themselves: nothing is lost by rounding them.
pub proof fn whole_numbers_are_exact(n: nat)
    requires
        n <= 0x20_0000_0000_0000,
    ensures
        nearest(n).bits < INFINITY_BITS,
        magnitude(nearest(n).bits as int) == n * pow2(1074),
        nearest(n).scaled() == n * pow2(1074),
        !nearest(n).nan(),
{
    nearest_is_finite(n as u64);
    let p = pow2(1074) as int;
    let bits = if n == 0 {
        lemma_magnitude_small();
        assert(0 * p == 0);
        0
    } else if n == 0x20_0000_0000_0000 {
        lemma_pow2_unfold(1075);
        assert(0x10_0000_0000_0000 * (2 * p) == 0x20_0000_0000_0000 * p) by (nonlinear_arith);
        lemma_exact_bits(0x10_0000_0000_0000, 1075)
    } else {
        lemma_exact_bits(n as int, 1074)
    };
    exact_is_kept(1, bits);
    rounding_is_unique((n * pow2(1074)) as nat, 1, bits, nearest(n).bits as int);
}

/// Rounding goes by the value of a quotient, not by the terms that it is written in.
pub proof fn rounding_goes_by_the_value(num: nat, den: nat, k: nat, bits: int)
    requires
        k > 0,
        rounds_to(num * k, den * k, bits),
    ensures
        rounds_to(num, den, bits),
{
    let n = num as int;
    let d = den as int;
    let f = k as int;
    if bits > 0 {
        let m = (magnitude(bits - 1) + magnitude(bits)) as int;
        lemma_scaled_compare(n, d, f, m);
    }
    if bits < INFINITY_BITS {
        let m = (magnitude(bits) + magnitude(bits + 1)) as int;
        lemma_scaled_compare(n, d, f, m);
    }
}

proof fn lemma_scaled_compare(n: int, d: int, f: int, m: int)
    requires
        f > 0,
    ensures
        2 * (n * f) > (d * f) * m <==> 2 * n > d * m,
        2 * (n * f) == (d * f) * m <==> 2 * n == d * m,
        2 * (n * f) < (d * f) * m <==> 2 * n < d * m,
{
    let x = 2 * n - d * m;
    assert(2 * (n * f) - (d * f) * m == x * f) by (nonlinear_arith)
        requires
            x == 2 * n - d * m,
    ;
    assert(x > 0 ==> x * f > 0) by (nonlinear_arith)
        requires
            f > 0,
    ;
    assert(x < 0 ==> x * f < 0) by (nonlinear_arith)
        requires
            f > 0,
    ;
    assert(x == 0 ==> x * f == 0) by (nonlinear_arith);
}

/// A number at or above a quotient of whole numbers is at least what the quotient is rounded
/// to, and one at or below it is at most that: no number lies between a quotient and its
/// rounding.
pub proof fn no_number_lies_between_a_quotient_and_its_rounding(
    a: nat,
    b: nat,
    r: Binary64,
    v: Binary64,
)
    requires
        a <= 0x20_0000_0000_0000,
        0 < b <= 0x20_0000_0000_0000,
        is_quotient(nearest(a), nearest(b), r),
        v.bits <= INFINITY_BITS,
    ensures
        r.bits <= INFINITY_BITS,
        rounds_to(a * pow2(1074), b, r.bits as int),
        v.scaled() * b >= a * pow2(1074) ==> v.scaled() >= r.scaled(),
        v.scaled() * b <= a * pow2(1074) ==> v.scaled() <= r.scaled(),
{
    let p = pow2(1074);
    lemma_pow2_pos(1074);
    whole_numbers_are_exact(a);
    whole_numbers_are_exact(b);
    let x = nearest(a);
    let y = nearest(b);
    assert(y.bits > 0) by {
        if y.bits == 0 {
            lemma_magnitude_small();
            assert(b * p > 0) by (nonlinear_arith)
                requires
                    b > 0,
                    p > 0,
            ;
        }
    }
    assert(r.unsigned() == r.bits);
    rounding_goes_by_the_value(a * p, b, p, r.bits as int);
    let m = magnitude(v.bits as int);
    exact_is_kept(b, v.bits as int);
    assert(m * b == b * m) by (nonlinear_arith);
    if m * b >= a * p {
        rounding_is_monotone(a * p, b * m, b, r.bits as int, v.bits as int);
        if r.bits < v.bits {
            lemma_magnitude_increases(r.bits as int, v.bits as int);
        }
    }
    if m * b <= a * p {
        rounding_is_monotone(b * m, a * p, b, v.bits as int, r.bits as int);
        if v.bits < r.bits {
            lemma_magnitude_increases(v.bits as int, r.bits as int);
        }
    }
}

/// One is `2^1074` of the smallest positive number.
pub proof fn lemma_one()
    ensures
        magnitude(0x3ff0_0000_0000_0000) == pow2(1074),
{
    lemma2_to64_rest();
    lemma_pow2_adds(52, 1022);
    lemma_encoded(0x10_0000_0000_0000, 1022);
}

/// Comparing is by value: of two numbers the one that is at least the other is the larger
/// one, and nothing compares with what is not a number.
pub proof fn comparison_goes_by_value(a: Binary64, b: Binary64)
    ensures
        a.nan() || b.nan() ==> !a.at_least(b),
        !a.nan() && !b.nan() ==> (a.at_least(b) <==> a.scaled() >= b.scaled()),
        !a.nan() && !b.nan() ==> a.at_least(b) || b.at_least(a),
        (a.bits <= b.bits && b.bits <= INFINITY_BITS) ==> b.at_least(a),
        (a.bits < b.bits && b.bits <= INFINITY_BITS) ==> !a.at_least(b),
{
    if a.bits < b.bits && b.bits <= INFINITY_BITS {
        lemma_magnitude_increases(a.bits as int, b.bits as int);
    }
}

/// `number` can make this of the text.
pub open spec fn spelled<N: Fn(&str) -> Option<Binary64>>(
    number: N,
    text: Seq<char>,
    value: Option<Binary64>,
) -> bool {
    exists|s: &str| s@ == text && #[trigger] call_ensures(number, (s,), value)
}

/// `number` makes the same of the same text every time.
pub open spec fn consistent<N: Fn(&str) -> Option<Binary64>>(number: N) -> bool {
    forall|t: Seq<char>, x: Option<Binary64>, y: Option<Binary64>|
        #[trigger] spelled(number, t, x) && #[trigger] spelled(number, t, y) ==> x == y
}

/// What `number` makes of the text.
pub open spec fn reading<N: Fn(&str) -> Option<Binary64>>(number: N, t: Seq<char>) -> Option<
    Binary64,
> {
    choose|v: Option<Binary64>| #[trigger] spelled(number, t, v)
}

} // verus!
