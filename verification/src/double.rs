//! Double-precision numbers, held as their IEEE 754 bit patterns. Each result is the exact one,
//! rounded to the nearest number, or to the even one of two.
use vstd::arithmetic::power2::{
    lemma_pow2_adds, lemma_pow2_pos, lemma_pow2_strictly_increases, lemma_pow2_unfold, pow2,
};
use vstd::prelude::*;

use crate::arith;
use crate::big::{Big, Compared};
use crate::single;

verus! {

/// The bit pattern of infinity.
pub const INFINITE: u64 = 0x7FF0_0000_0000_0000;

/// The significand of a magnitude, with the bit that is not stored.
pub open spec fn significand(b: nat) -> nat {
    if b < 4503599627370496 {
        b
    } else {
        b % 4503599627370496 + 4503599627370496
    }
}

/// The exponent of a magnitude, counted from that of the smallest numbers.
pub open spec fn exponent(b: nat) -> nat {
    if b < 4503599627370496 {
        0
    } else {
        (b / 4503599627370496 - 1) as nat
    }
}

/// What a magnitude stands for, in units of the smallest number above zero (`2^-1074`). Infinity
/// stands for the number that would come next, `2^1024`.
pub open spec fn units(b: nat) -> nat {
    significand(b) * pow2(exponent(b))
}

/// Twice the middle between a magnitude and the next, in units.
pub open spec fn middle(b: nat) -> nat {
    (2 * significand(b) + 1) * pow2(exponent(b))
}

/// The middle lies halfway to the next magnitude.
pub proof fn middle_is_halfway(b: nat)
    ensures
        middle(b) == units(b) + units(b + 1),
        units(b) < units(b + 1),
{
    let s = significand(b);
    let e = exponent(b);
    lemma_pow2_pos(e);
    assert((2 * s + 1) * pow2(e) == s * pow2(e) + (s + 1) * pow2(e)) by (nonlinear_arith);
    assert(s * pow2(e) < (s + 1) * pow2(e)) by (nonlinear_arith)
        requires
            pow2(e) > 0,
    ;
    assert(units(b + 1) == (s + 1) * pow2(e)) by {
        if b + 1 < 4503599627370496 {
        } else if b < 4503599627370496 {
            assert(b + 1 == 4503599627370496);
            assert(significand(b + 1) == 4503599627370496);
        } else if b % 4503599627370496 == 4503599627370495 {
            assert((b + 1) / 4503599627370496 == b / 4503599627370496 + 1);
            assert((b + 1) % 4503599627370496 == 0);
            assert(s == 9007199254740991);
            lemma_pow2_unfold(e + 1);
            assert(4503599627370496 * (2 * pow2(e)) == 9007199254740992 * pow2(e)) by (nonlinear_arith);
        } else {
            assert((b + 1) / 4503599627370496 == b / 4503599627370496);
            assert((b + 1) % 4503599627370496 == b % 4503599627370496 + 1);
        }
    }
}

pub proof fn middles_grow(a: nat, b: nat)
    requires
        a < b,
    ensures
        middle(a) < middle(b),
    decreases b - a,
{
    middle_is_halfway(a);
    middle_is_halfway(a + 1);
    if a + 1 < b {
        middles_grow(a + 1, b);
    }
}

/// `num / den` rounds to the magnitude `b`: it is no farther from `b` than from its neighbours,
/// and nearer where `b` is odd.
pub open spec fn rounds_to(num: nat, den: nat, b: nat) -> bool {
    let twice = num * pow2(1075);
    &&& b <= INFINITE
    &&& b > 0 ==> middle((b - 1) as nat) * den <= twice
    &&& b > 0 && b % 2 == 1 ==> middle((b - 1) as nat) * den < twice
    &&& b < INFINITE ==> twice <= middle(b) * den
    &&& b < INFINITE && b % 2 == 1 ==> twice < middle(b) * den
}

/// A fraction rounds to one magnitude only.
pub proof fn rounding_is_unique(num: nat, den: nat, a: nat, b: nat)
    requires
        den > 0,
        rounds_to(num, den, a),
        rounds_to(num, den, b),
    ensures
        a == b,
{
    if a < b {
        no_rounding_above(num, den, a, b);
    } else if b < a {
        no_rounding_above(num, den, b, a);
    }
}

proof fn no_rounding_above(num: nat, den: nat, a: nat, b: nat)
    requires
        den > 0,
        a < b,
        rounds_to(num, den, a),
    ensures
        !rounds_to(num, den, b),
{
    let twice = num * pow2(1075);
    if a + 1 < b {
        middles_grow(a, (b - 1) as nat);
        assert(middle(a) * den < middle((b - 1) as nat) * den) by (nonlinear_arith)
            requires
                middle(a) < middle((b - 1) as nat),
                den > 0,
        ;
    }
}

/// The magnitude that a fraction rounds to: the nearest, or the even one of two.
pub open spec fn rounded(num: nat, den: nat) -> u64 {
    choose|b: u64| rounds_to(num, den, b as nat)
}

/// Twice the middle above a magnitude, times a number.
fn middle_times(b: u64, d: &Big) -> (r: Big)
    requires
        b < INFINITE,
    ensures
        r@ == middle(b as nat) * d@,
{
    let (s, e): (u64, u32) = if b < 4503599627370496 {
        (b, 0)
    } else {
        (b % 4503599627370496 + 4503599627370496, (b / 4503599627370496 - 1) as u32)
    };
    let r: Big = d.times(2 * s + 1).shifted(e);
    assert(d@ * ((2 * s + 1) as nat) * pow2(e as nat) == (((2 * s + 1) as nat) * pow2(e as nat))
        * d@) by (nonlinear_arith);
    r
}

/// The magnitude that a fraction rounds to.
pub fn round(num: &Big, den: &Big) -> (r: u64)
    requires
        den@ > 0,
    ensures
        rounds_to(num@, den@, r as nat),
        r == rounded(num@, den@),
{
    let twice: Big = num.shifted(1075);
    let mut low: u64 = 0;
    let mut high: u64 = INFINITE;
    while low < high
        invariant
            den@ > 0,
            low <= high <= INFINITE,
            twice@ == num@ * pow2(1075),
            low > 0 ==> middle((low - 1) as nat) * den@ < twice@,
            high < INFINITE ==> twice@ <= middle(high as nat) * den@,
        decreases high - low,
    {
        let mid: u64 = low + (high - low) / 2;
        match twice.compare(&middle_times(mid, den)) {
            Compared::Greater => {
                low = mid + 1;
            },
            _ => {
                high = mid;
            },
        }
    }
    let mut r: u64 = low;
    if low < INFINITE && low % 2 == 1 {
        match twice.compare(&middle_times(low, den)) {
            Compared::Equal => {
                r = low + 1;
                proof {
                    middles_grow(low as nat, (low + 1) as nat);
                    assert(middle(low as nat) * den@ < middle((low + 1) as nat) * den@)
                        by (nonlinear_arith)
                        requires
                            middle(low as nat) < middle((low + 1) as nat),
                            den@ > 0,
                    ;
                }
            },
            _ => {},
        }
    }
    proof {
        assert(rounds_to(num@, den@, r as nat));
        let c = rounded(num@, den@);
        rounding_is_unique(num@, den@, r as nat, c as nat);
    }
    r
}

/// The number without its sign.
pub open spec fn magnitude_of(bits: u64) -> nat {
    (bits % 0x8000_0000_0000_0000) as nat
}

/// The number is below zero, or is a zero or NaN with the sign set.
pub open spec fn has_sign(bits: u64) -> bool {
    bits >= 0x8000_0000_0000_0000
}

/// The bits stand for no number.
pub open spec fn is_nan(bits: u64) -> bool {
    magnitude_of(bits) > INFINITE
}

/// The number with the other sign.
pub open spec fn negated(bits: u64) -> u64 {
    if bits < 0x8000_0000_0000_0000 {
        (bits + 0x8000_0000_0000_0000) as u64
    } else {
        (bits - 0x8000_0000_0000_0000) as u64
    }
}

/// The number with the other sign.
pub fn negate(bits: u64) -> (r: u64)
    ensures
        r == negated(bits),
{
    if bits < 0x8000_0000_0000_0000 {
        bits + 0x8000_0000_0000_0000
    } else {
        bits - 0x8000_0000_0000_0000
    }
}

/// The units of a magnitude.
pub fn units_of(b: u64) -> (r: Big)
    requires
        b < INFINITE,
    ensures
        r@ == units(b as nat),
{
    let (s, e): (u64, u32) = if b < 4503599627370496 {
        (b, 0)
    } else {
        (b % 4503599627370496 + 4503599627370496, (b / 4503599627370496 - 1) as u32)
    };
    Big::small(1).times(s).shifted(e)
}

/// The bit pattern that stands for no number.
pub const NAN: u64 = 0x7FF8_0000_0000_0000;

/// A magnitude with a sign.
pub open spec fn with_sign(minus: bool, b: u64) -> u64 {
    if minus {
        (b + 0x8000_0000_0000_0000) as u64
    } else {
        b
    }
}

/// The magnitude is that of infinity.
pub open spec fn is_infinite(a: u64) -> bool {
    magnitude_of(a) == INFINITE
}

/// The number is a zero.
pub open spec fn is_zero(a: u64) -> bool {
    magnitude_of(a) == 0
}

/// What a finite number stands for, in units of the smallest number above zero.
pub open spec fn exact(a: u64) -> int {
    if has_sign(a) {
        -(units(magnitude_of(a)) as int)
    } else {
        units(magnitude_of(a)) as int
    }
}

/// The sum of two numbers.
#[verifier::opaque]
pub open spec fn sum(a: u64, b: u64) -> u64 {
    let total = exact(a) + exact(b);
    if is_nan(a) || is_nan(b) {
        NAN
    } else if is_infinite(a) {
        if is_infinite(b) && has_sign(a) != has_sign(b) {
            NAN
        } else {
            a
        }
    } else if is_infinite(b) {
        b
    } else if total > 0 {
        rounded(total as nat, pow2(1074))
    } else if total < 0 {
        with_sign(true, rounded((-total) as nat, pow2(1074)))
    } else {
        with_sign(has_sign(a) && has_sign(b), 0)
    }
}

/// The difference of two numbers.
pub open spec fn difference(a: u64, b: u64) -> u64 {
    sum(a, negated(b))
}

/// The product of two numbers.
#[verifier::opaque]
pub open spec fn product(a: u64, b: u64) -> u64 {
    let minus = has_sign(a) != has_sign(b);
    if is_nan(a) || is_nan(b) {
        NAN
    } else if is_infinite(a) || is_infinite(b) {
        if is_zero(a) || is_zero(b) {
            NAN
        } else {
            with_sign(minus, INFINITE)
        }
    } else {
        with_sign(minus, rounded(units(magnitude_of(a)) * units(magnitude_of(b)), pow2(2148)))
    }
}

/// The quotient of two numbers.
#[verifier::opaque]
pub open spec fn quotient(a: u64, b: u64) -> u64 {
    let minus = has_sign(a) != has_sign(b);
    if is_nan(a) || is_nan(b) {
        NAN
    } else if is_infinite(a) {
        if is_infinite(b) {
            NAN
        } else {
            with_sign(minus, INFINITE)
        }
    } else if is_infinite(b) {
        with_sign(minus, 0)
    } else if is_zero(b) {
        if is_zero(a) {
            NAN
        } else {
            with_sign(minus, INFINITE)
        }
    } else {
        with_sign(minus, rounded(units(magnitude_of(a)), units(magnitude_of(b))))
    }
}

/// The square root of `u` units rounds to the magnitude `b`.
pub open spec fn root_rounds_to(u: nat, b: nat) -> bool {
    let square = u * pow2(1076);
    &&& b < INFINITE
    &&& b > 0 ==> middle((b - 1) as nat) * middle((b - 1) as nat) <= square
    &&& b > 0 && b % 2 == 1 ==> middle((b - 1) as nat) * middle((b - 1) as nat) < square
    &&& square <= middle(b) * middle(b)
    &&& b % 2 == 1 ==> square < middle(b) * middle(b)
}

/// The magnitude that the square root of `u` units rounds to: the nearest, or the even one of
/// two.
pub open spec fn root_rounded(u: nat) -> u64 {
    choose|b: u64| root_rounds_to(u, b as nat)
}

/// The square root of a number.
#[verifier::opaque]
pub open spec fn root(a: u64) -> u64 {
    if is_nan(a) {
        NAN
    } else if is_zero(a) {
        a
    } else if has_sign(a) {
        NAN
    } else if is_infinite(a) {
        a
    } else {
        root_rounded(units(magnitude_of(a)))
    }
}

/// A magnitude with a sign.
fn signed(minus: bool, b: u64) -> (r: u64)
    requires
        b <= INFINITE,
    ensures
        r == with_sign(minus, b),
{
    if minus {
        b + 0x8000_0000_0000_0000
    } else {
        b
    }
}

/// `2^k`.
fn power(k: u32) -> (r: Big)
    ensures
        r@ == pow2(k as nat),
        r@ > 0,
{
    let r: Big = Big::small(1).shifted(k);
    proof {
        lemma_pow2_pos(k as nat);
        assert(1 * pow2(k as nat) == pow2(k as nat));
    }
    r
}

/// The sum of two numbers.
pub fn plus(a: u64, b: u64) -> (r: u64)
    ensures
        r == sum(a, b),
{
    proof {
        reveal(sum);
    }
    let am: u64 = a % 0x8000_0000_0000_0000;
    let bm: u64 = b % 0x8000_0000_0000_0000;
    let minus: bool = a >= 0x8000_0000_0000_0000;
    let other: bool = b >= 0x8000_0000_0000_0000;
    if am > INFINITE || bm > INFINITE {
        return NAN;
    }
    if am == INFINITE {
        return if bm == INFINITE && minus != other {
            NAN
        } else {
            a
        };
    }
    if bm == INFINITE {
        return b;
    }
    let ua: Big = units_of(am);
    let ub: Big = units_of(bm);
    let den: Big = power(1074);
    if minus == other {
        let total: Big = ua.plus(&ub);
        match total.compare(&Big::small(0)) {
            Compared::Greater => signed(minus, round(&total, &den)),
            _ => signed(minus, 0),
        }
    } else {
        match ua.compare(&ub) {
            Compared::Greater => signed(minus, round(&ua.less(&ub), &den)),
            Compared::Less => signed(other, round(&ub.less(&ua), &den)),
            Compared::Equal => 0,
        }
    }
}

/// The difference of two numbers.
pub fn minus(a: u64, b: u64) -> (r: u64)
    ensures
        r == difference(a, b),
{
    plus(a, negate(b))
}

/// The product of the units of two magnitudes.
fn units_product(a: u64, b: u64) -> (r: Big)
    requires
        a < INFINITE,
        b < INFINITE,
    ensures
        r@ == units(a as nat) * units(b as nat),
{
    let (s, e): (u64, u32) = if a < 4503599627370496 {
        (a, 0)
    } else {
        (a % 4503599627370496 + 4503599627370496, (a / 4503599627370496 - 1) as u32)
    };
    let u: Big = units_of(b);
    let r: Big = u.times(s).shifted(e);
    proof {
        let p = pow2(e as nat);
        assert(u@ * (s as nat) * p == ((s as nat) * p) * u@) by (nonlinear_arith);
    }
    r
}

/// The product of two numbers.
pub fn times(a: u64, b: u64) -> (r: u64)
    ensures
        r == product(a, b),
{
    proof {
        reveal(product);
    }
    let am: u64 = a % 0x8000_0000_0000_0000;
    let bm: u64 = b % 0x8000_0000_0000_0000;
    let minus: bool = (a >= 0x8000_0000_0000_0000) != (b >= 0x8000_0000_0000_0000);
    if am > INFINITE || bm > INFINITE {
        return NAN;
    }
    if am == INFINITE || bm == INFINITE {
        return if am == 0 || bm == 0 {
            NAN
        } else {
            signed(minus, INFINITE)
        };
    }
    signed(minus, round(&units_product(am, bm), &power(2148)))
}

/// A magnitude above zero stands for more than zero.
proof fn some_units(b: nat)
    requires
        b > 0,
    ensures
        units(b) > 0,
{
    lemma_pow2_pos(exponent(b));
    assert(significand(b) * pow2(exponent(b)) > 0) by (nonlinear_arith)
        requires
            significand(b) > 0,
            pow2(exponent(b)) > 0,
    ;
}

/// The quotient of two numbers.
pub fn over(a: u64, b: u64) -> (r: u64)
    ensures
        r == quotient(a, b),
{
    proof {
        reveal(quotient);
    }
    let am: u64 = a % 0x8000_0000_0000_0000;
    let bm: u64 = b % 0x8000_0000_0000_0000;
    let minus: bool = (a >= 0x8000_0000_0000_0000) != (b >= 0x8000_0000_0000_0000);
    if am > INFINITE || bm > INFINITE {
        return NAN;
    }
    if am == INFINITE {
        return if bm == INFINITE {
            NAN
        } else {
            signed(minus, INFINITE)
        };
    }
    if bm == INFINITE {
        return signed(minus, 0);
    }
    if bm == 0 {
        return if am == 0 {
            NAN
        } else {
            signed(minus, INFINITE)
        };
    }
    proof {
        some_units(bm as nat);
    }
    signed(minus, round(&units_of(am), &units_of(bm)))
}

/// The square of twice the middle above a magnitude.
fn middle_squared(b: u64) -> (r: Big)
    requires
        b < INFINITE,
    ensures
        r@ == middle(b as nat) * middle(b as nat),
{
    let (s, e): (u64, u32) = if b < 4503599627370496 {
        (b, 0)
    } else {
        (b % 4503599627370496 + 4503599627370496, (b / 4503599627370496 - 1) as u32)
    };
    let odd: u64 = 2 * s + 1;
    let r: Big = Big::small(1).times(odd).times(odd).shifted(2 * e);
    proof {
        let p = pow2(e as nat);
        let o = odd as nat;
        lemma_pow2_adds(e as nat, e as nat);
        assert(o * o * (p * p) == (o * p) * (o * p)) by (nonlinear_arith);
        assert(middle(b as nat) == o * p);
    }
    r
}

proof fn squares_grow(a: nat, b: nat)
    requires
        a < b,
    ensures
        middle(a) * middle(a) < middle(b) * middle(b),
{
    middles_grow(a, b);
    let x = middle(a);
    let y = middle(b);
    assert(x * x < y * y) by (nonlinear_arith)
        requires
            x < y,
    ;
}

proof fn no_root_above(u: nat, a: nat, b: nat)
    requires
        a < b,
        root_rounds_to(u, a),
    ensures
        !root_rounds_to(u, b),
{
    if a + 1 < b {
        squares_grow(a, (b - 1) as nat);
    }
}

/// The square root rounds to one magnitude only.
pub proof fn root_is_unique(u: nat, a: nat, b: nat)
    requires
        root_rounds_to(u, a),
        root_rounds_to(u, b),
    ensures
        a == b,
{
    if a < b {
        no_root_above(u, a, b);
    } else if b < a {
        no_root_above(u, b, a);
    }
}

/// The square root of a finite number lies well below infinity.
proof fn root_is_finite(b: nat)
    requires
        b < INFINITE,
    ensures
        units(b) * pow2(1076) < middle(0x7FEF_FFFF_FFFF_FFFE) * middle(0x7FEF_FFFF_FFFF_FFFE),
{
    let e = exponent(b);
    let s = significand(b);
    let top = pow2(2045);
    if e < 2045 {
        lemma_pow2_strictly_increases(e, 2045);
    }
    assert(exponent(0x7FEF_FFFF_FFFF_FFFE) == 2045);
    assert(significand(0x7FEF_FFFF_FFFF_FFFE) == 9007199254740990);
    let m = middle(0x7FEF_FFFF_FFFF_FFFE);
    assert(m == 18014398509481981 * top);
    assert(s * pow2(e) <= 9007199254740992 * top) by (nonlinear_arith)
        requires
            s <= 9007199254740992,
            pow2(e) <= top,
    ;
    lemma_pow2_strictly_increases(1076, 2045);
    lemma_pow2_pos(1076);
    let k = pow2(1076);
    let u = units(b);
    assert(u * k < m * m) by (nonlinear_arith)
        requires
            u <= 9007199254740992 * top,
            0 < k < top,
            m == 18014398509481981 * top,
    ;
}

/// The magnitude that the square root of a finite magnitude rounds to.
fn root_of(b: u64) -> (r: u64)
    requires
        b < INFINITE,
    ensures
        r == root_rounded(units(b as nat)),
        r < INFINITE,
{
    let square: Big = units_of(b).shifted(1076);
    let ghost u = units(b as nat);
    let mut low: u64 = 0;
    let mut high: u64 = 0x7FEF_FFFF_FFFF_FFFE;
    proof {
        root_is_finite(b as nat);
    }
    while low < high
        invariant
            low <= high <= 0x7FEF_FFFF_FFFF_FFFE,
            square@ == u * pow2(1076),
            low > 0 ==> middle((low - 1) as nat) * middle((low - 1) as nat) < square@,
            square@ <= middle(high as nat) * middle(high as nat),
        decreases high - low,
    {
        let mid: u64 = low + (high - low) / 2;
        match square.compare(&middle_squared(mid)) {
            Compared::Greater => {
                low = mid + 1;
            },
            _ => {
                high = mid;
            },
        }
    }
    let mut r: u64 = low;
    if low % 2 == 1 {
        match square.compare(&middle_squared(low)) {
            Compared::Equal => {
                r = low + 1;
                proof {
                    squares_grow(low as nat, (low + 1) as nat);
                }
            },
            _ => {},
        }
    }
    proof {
        assert(root_rounds_to(u, r as nat));
        let c = root_rounded(u);
        assert(root_rounds_to(u, c as nat));
        root_is_unique(u, r as nat, c as nat);
    }
    r
}

/// The square root of a number.
pub fn sqrt(a: u64) -> (r: u64)
    ensures
        r == root(a),
{
    proof {
        reveal(root);
    }
    let am: u64 = a % 0x8000_0000_0000_0000;
    if am > INFINITE {
        NAN
    } else if am == 0 {
        a
    } else if a >= 0x8000_0000_0000_0000 {
        NAN
    } else if am == INFINITE {
        a
    } else {
        root_of(am)
    }
}

/// A single-precision number in double precision.
#[verifier::opaque]
pub open spec fn widened(a: u32) -> u64 {
    let minus = single::has_sign(a);
    if single::is_nan(a) {
        NAN
    } else if single::magnitude_of(a) == single::INFINITE {
        with_sign(minus, INFINITE)
    } else {
        with_sign(minus, rounded(single::units(single::magnitude_of(a)), pow2(149)))
    }
}

/// A double-precision number in single precision.
#[verifier::opaque]
pub open spec fn narrowed(a: u64) -> u32 {
    let minus = has_sign(a);
    if is_nan(a) {
        arith::NAN
    } else if is_infinite(a) {
        arith::with_sign(minus, single::INFINITE)
    } else {
        arith::with_sign(minus, single::rounded(units(magnitude_of(a)), pow2(1074)))
    }
}

/// A single-precision number in double precision.
pub fn widen(a: u32) -> (r: u64)
    ensures
        r == widened(a),
{
    proof {
        reveal(widened);
    }
    let m: u32 = a % 0x8000_0000;
    let minus: bool = a >= 0x8000_0000;
    if m > single::INFINITE {
        NAN
    } else if m == single::INFINITE {
        signed(minus, INFINITE)
    } else {
        signed(minus, round(&single::units_of(m), &power(149)))
    }
}

/// A double-precision number in single precision.
pub fn narrow(a: u64) -> (r: u32)
    ensures
        r == narrowed(a),
{
    proof {
        reveal(narrowed);
    }
    let m: u64 = a % 0x8000_0000_0000_0000;
    let minus: bool = a >= 0x8000_0000_0000_0000;
    if m > INFINITE {
        arith::NAN
    } else if m == INFINITE {
        arith::signed(minus, single::INFINITE)
    } else {
        arith::signed(minus, single::round(&units_of(m), &power(1074)))
    }
}

/// The whole part of a magnitude.
pub open spec fn whole(b: nat) -> nat {
    units(b) / pow2(1074)
}

/// The whole part of a magnitude, as far as a byte holds it.
pub fn whole_byte(b: u64) -> (r: u8)
    requires
        b < INFINITE,
    ensures
        r == whole(b as nat) || r == 255 && whole(b as nat) >= 255,
{
    let u: Big = units_of(b);
    let ghost one = pow2(1074);
    proof {
        lemma_pow2_pos(1074);
    }
    let mut n: u8 = 0;
    assert(0 * one == 0);
    while n < 255
        invariant
            one == pow2(1074),
            one > 0,
            u@ == units(b as nat),
            n * one <= u@,
        decreases 255 - n,
    {
        let next: Big = Big::small(n as u32 + 1).shifted(1074);
        match u.compare(&next) {
            Compared::Less => {
                proof {
                    assert((n + 1) * one == n * one + one) by (nonlinear_arith);
                    assert(n * one == one * n) by (nonlinear_arith);
                    vstd::arithmetic::div_mod::lemma_fundamental_div_mod_converse(
                        u@ as int,
                        one as int,
                        n as int,
                        u@ - n * one,
                    );
                }
                return n;
            },
            _ => {},
        }
        n = n + 1;
    }
    proof {
        vstd::arithmetic::div_mod::lemma_div_is_ordered((255 * one) as int, u@ as int, one as int);
        vstd::arithmetic::div_mod::lemma_div_multiples_vanish(255, one as int);
        assert(255 * one == one * 255) by (nonlinear_arith);
    }
    255
}

} // verus!
