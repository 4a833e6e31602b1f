//! Arithmetic on single-precision numbers that are held as bit patterns. Each result is the
//! exact one, rounded to the nearest number, or to the even one of two.
use vstd::arithmetic::power2::{
    lemma2_to64, lemma_pow2_adds, lemma_pow2_pos, lemma_pow2_strictly_increases,
    lemma_pow2_unfold, pow2,
};
use vstd::prelude::*;

use crate::big::{Big, Compared};
use crate::single::{
    exponent, has_sign, is_nan, magnitude_of, middle, middles_grow, negate, negated, rank, rank_of, round,
    round_small, rounded, rounding_is_unique, rounds_to, significand, units, units_of, INFINITE,
};

verus! {

/// The bit pattern that stands for no number.
pub const NAN: u32 = 0x7FC0_0000;

/// A magnitude with a sign.
pub open spec fn with_sign(minus: bool, b: u32) -> u32 {
    if minus {
        (b + 0x8000_0000) as u32
    } else {
        b
    }
}

/// The magnitude is that of infinity.
pub open spec fn is_infinite(a: u32) -> bool {
    magnitude_of(a) == INFINITE
}

/// The number is a zero.
pub open spec fn is_zero(a: u32) -> bool {
    magnitude_of(a) == 0
}

/// What a finite number stands for, in units of the smallest number above zero.
pub open spec fn exact(a: u32) -> int {
    if has_sign(a) {
        -(units(magnitude_of(a)) as int)
    } else {
        units(magnitude_of(a)) as int
    }
}

/// The sum of two numbers.
#[verifier::opaque]
pub open spec fn sum(a: u32, b: u32) -> u32 {
    let total = exact(a) + exact(b);
    if is_nan(a) || is_nan(b) {
        NAN
    } else if is_infinite(a) {
        if is_infinite(b) && has_sign(a) != has_sign(b) {
            NAN
        } else {
            a
        }
    } else if is_infinite(b) {
        b
    } else if total > 0 {
        rounded(total as nat, pow2(149))
    } else if total < 0 {
        with_sign(true, rounded((-total) as nat, pow2(149)))
    } else {
        with_sign(has_sign(a) && has_sign(b), 0)
    }
}

/// The difference of two numbers.
pub open spec fn difference(a: u32, b: u32) -> u32 {
    sum(a, negated(b))
}

/// The product of two numbers.
#[verifier::opaque]
pub open spec fn product(a: u32, b: u32) -> u32 {
    let minus = has_sign(a) != has_sign(b);
    if is_nan(a) || is_nan(b) {
        NAN
    } else if is_infinite(a) || is_infinite(b) {
        if is_zero(a) || is_zero(b) {
            NAN
        } else {
            with_sign(minus, INFINITE)
        }
    } else {
        with_sign(minus, rounded(units(magnitude_of(a)) * units(magnitude_of(b)), pow2(298)))
    }
}

/// The quotient of two numbers.
#[verifier::opaque]
pub open spec fn quotient(a: u32, b: u32) -> u32 {
    let minus = has_sign(a) != has_sign(b);
    if is_nan(a) || is_nan(b) {
        NAN
    } else if is_infinite(a) {
        if is_infinite(b) {
            NAN
        } else {
            with_sign(minus, INFINITE)
        }
    } else if is_infinite(b) {
        with_sign(minus, 0)
    } else if is_zero(b) {
        if is_zero(a) {
            NAN
        } else {
            with_sign(minus, INFINITE)
        }
    } else {
        with_sign(minus, rounded(units(magnitude_of(a)), units(magnitude_of(b))))
    }
}

/// The number without its sign.
pub open spec fn absolute(a: u32) -> u32 {
    (a % 0x8000_0000) as u32
}

/// The first number is less than the second; NaN is not, on either side.
pub open spec fn below(a: u32, b: u32) -> bool {
    !is_nan(a) && !is_nan(b) && rank(a) < rank(b)
}

/// The square root of `u` units rounds to the magnitude `b`.
pub open spec fn root_rounds_to(u: nat, b: nat) -> bool {
    let square = u * pow2(151);
    &&& b < INFINITE
    &&& b > 0 ==> middle((b - 1) as nat) * middle((b - 1) as nat) <= square
    &&& b > 0 && b % 2 == 1 ==> middle((b - 1) as nat) * middle((b - 1) as nat) < square
    &&& square <= middle(b) * middle(b)
    &&& b % 2 == 1 ==> square < middle(b) * middle(b)
}

/// The magnitude that the square root of `u` units rounds to: the nearest, or the even one of
/// two.
pub open spec fn root_rounded(u: nat) -> u32 {
    choose|b: u32| root_rounds_to(u, b as nat)
}

/// The square root of a number.
#[verifier::opaque]
pub open spec fn root(a: u32) -> u32 {
    if is_nan(a) {
        NAN
    } else if is_zero(a) {
        a
    } else if has_sign(a) {
        NAN
    } else if is_infinite(a) {
        a
    } else {
        root_rounded(units(magnitude_of(a)))
    }
}

/// A magnitude with a sign.
pub fn signed(minus: bool, b: u32) -> (r: u32)
    requires
        b <= INFINITE,
    ensures
        r == with_sign(minus, b),
{
    if minus {
        b + 0x8000_0000
    } else {
        b
    }
}

/// `2^k`.
fn power(k: u32) -> (r: Big)
    ensures
        r@ == pow2(k as nat),
        r@ > 0,
{
    let r: Big = Big::small(1).shifted(k);
    proof {
        lemma_pow2_pos(k as nat);
        assert(1 * pow2(k as nat) == pow2(k as nat));
    }
    r
}

/// `s * 2^k`.
fn raised(s: u32, k: u32) -> (r: u64)
    requires
        s < 16777216,
        k <= 30,
    ensures
        r == s * pow2(k as nat),
        r <= 0x003F_FFFF_C000_0000,
{
    let mut r: u64 = s as u64;
    let mut w: u64 = 1;
    let mut i: u32 = 0;
    proof {
        lemma2_to64();
        assert(s * pow2(0) == s) by (nonlinear_arith)
            requires
                pow2(0) == 1,
        ;
    }
    while i < k
        invariant
            i <= k <= 30,
            s < 16777216,
            w == pow2(i as nat),
            i < 30 ==> w <= 0x2000_0000,
            w <= 0x4000_0000,
            r == s * w,
        decreases k - i,
    {
        proof {
            lemma_pow2_unfold((i + 1) as nat);
            lemma2_to64();
            if i + 1 < 29 {
                lemma_pow2_strictly_increases((i + 1) as nat, 29);
            }
            assert(s * w <= 16777215 * 0x2000_0000) by (nonlinear_arith)
                requires
                    s <= 16777215,
                    w <= 0x2000_0000,
            ;
            assert(s * (2 * w) == 2 * (s * w)) by (nonlinear_arith);
        }
        r = 2 * r;
        w = 2 * w;
        i = i + 1;
    }
    assert(s * w <= 16777215 * 0x4000_0000) by (nonlinear_arith)
        requires
            s <= 16777215,
            w <= 0x4000_0000,
    ;
    r
}

/// The magnitude to which `m * 2^e` units round, where it is quickly found.
fn units_rounded(m: u64, e: u32) -> (r: Option<u32>)
    requires
        0 < m < 0x0100_0000_0000_0000,
        e <= 253,
    ensures
        r matches Some(b) ==> b <= INFINITE && b == rounded(
            (m * pow2(e as nat)) as nat,
            pow2(149),
        ),
{
    let ghost den = pow2(149);
    let ghost p = pow2(e as nat) * den;
    proof {
        lemma_pow2_pos(149);
        lemma_pow2_pos(e as nat);
        assert(p > 0) by (nonlinear_arith)
            requires
                p == pow2(e as nat) * den,
                pow2(e as nat) > 0,
                den > 0,
        ;
        assert((m * pow2(e as nat)) * pow2(149) == m * p) by (nonlinear_arith)
            requires
                p == pow2(e as nat) * pow2(149),
        ;
    }
    round_small(m, e as i32, Ghost((m * pow2(e as nat)) as nat), Ghost(den), Ghost(p))
}

/// The sum or the difference of two magnitudes of which the first has the greater exponent, where it
/// is quickly found; whether it is below zero comes with it.
fn combine(a: u32, b: u32, apart: bool) -> (r: Option<(bool, u32)>)
    requires
        a < INFINITE,
        b < INFINITE,
        exponent(b as nat) <= exponent(a as nat),
    ensures
        r matches Some((below, m)) ==> m <= INFINITE && ({
            let x = units(a as nat) as int;
            let y = units(b as nat) as int;
            let v = if apart {
                x - y
            } else {
                x + y
            };
            &&& v != 0
            &&& below == (v < 0)
            &&& m == rounded(
                (if v < 0 {
                    -v
                } else {
                    v
                }) as nat,
                pow2(149),
            )
        }),
{
    let (s, d): (u32, u32) = parts(a);
    let (t, e): (u32, u32) = parts(b);
    if d - e > 30 {
        return None;
    }
    let h: u64 = raised(s, d - e);
    let l: u64 = t as u64;
    let ghost w = pow2(e as nat);
    proof {
        lemma_pow2_adds((d - e) as nat, e as nat);
        lemma_pow2_pos(e as nat);
        assert(units(a as nat) == h * w) by (nonlinear_arith)
            requires
                units(a as nat) == s * (pow2((d - e) as nat) * w),
                h == s * pow2((d - e) as nat),
        ;
        assert(units(b as nat) == l * w);
    }
    if apart {
        if h == l {
            return None;
        }
        let below: bool = h < l;
        let m: u64 = if below {
            l - h
        } else {
            h - l
        };
        proof {
            if below {
                assert(m * w == l * w - h * w) by (nonlinear_arith)
                    requires
                        m == l - h,
                ;
            } else {
                assert(m * w == h * w - l * w) by (nonlinear_arith)
                    requires
                        m == h - l,
                ;
            }
            assert(m * w > 0) by (nonlinear_arith)
                requires
                    m > 0,
                    w > 0,
            ;
        }
        match units_rounded(m, e) {
            Some(r) => Some((below, r)),
            None => None,
        }
    } else {
        let m: u64 = h + l;
        if m == 0 {
            return None;
        }
        proof {
            assert(m * w == h * w + l * w) by (nonlinear_arith)
                requires
                    m == h + l,
            ;
            assert(m * w > 0) by (nonlinear_arith)
                requires
                    m > 0,
                    w > 0,
            ;
        }
        match units_rounded(m, e) {
            Some(r) => Some((false, r)),
            None => None,
        }
    }
}

/// The sum of two numbers.
pub fn plus(a: u32, b: u32) -> (r: u32)
    ensures
        r == sum(a, b),
{
    proof {
        reveal(sum);
    }
    let am: u32 = a % 0x8000_0000;
    let bm: u32 = b % 0x8000_0000;
    let minus: bool = a >= 0x8000_0000;
    let other: bool = b >= 0x8000_0000;
    if am > INFINITE || bm > INFINITE {
        return NAN;
    }
    if am == INFINITE {
        return if bm == INFINITE && minus != other {
            NAN
        } else {
            a
        };
    }
    if bm == INFINITE {
        return b;
    }
    if parts(am).1 >= parts(bm).1 {
        if let Some((below, m)) = combine(am, bm, minus != other) {
            return signed(minus != below, m);
        }
    } else {
        if let Some((below, m)) = combine(bm, am, minus != other) {
            return signed(other != below, m);
        }
    }
    let ua: Big = units_of(am);
    let ub: Big = units_of(bm);
    let den: Big = power(149);
    if minus == other {
        let total: Big = ua.plus(&ub);
        match total.compare(&Big::small(0)) {
            Compared::Greater => signed(minus, round(&total, &den)),
            _ => signed(minus, 0),
        }
    } else {
        match ua.compare(&ub) {
            Compared::Greater => signed(minus, round(&ua.less(&ub), &den)),
            Compared::Less => signed(other, round(&ub.less(&ua), &den)),
            Compared::Equal => 0,
        }
    }
}

/// The difference of two numbers.
pub fn minus(a: u32, b: u32) -> (r: u32)
    ensures
        r == difference(a, b),
{
    plus(a, negate(b))
}

/// The product of the units of two magnitudes.
fn units_product(a: u32, b: u32) -> (r: Big)
    requires
        a < INFINITE,
        b < INFINITE,
    ensures
        r@ == units(a as nat) * units(b as nat),
{
    let (s, e): (u32, u32) = if a < 8388608 {
        (a, 0)
    } else {
        (a % 8388608 + 8388608, a / 8388608 - 1)
    };
    let u: Big = units_of(b);
    let r: Big = u.times_plus(s, 0).shifted(e);
    proof {
        let p = pow2(e as nat);
        assert(u@ * (s as nat) * p == ((s as nat) * p) * u@) by (nonlinear_arith);
    }
    r
}

/// The significand and the exponent of a magnitude.
fn parts(b: u32) -> (r: (u32, u32))
    requires
        b < INFINITE,
    ensures
        r.0 == significand(b as nat),
        r.1 == exponent(b as nat),
        r.0 < 16777216,
        r.1 <= 253,
        b > 0 ==> r.0 > 0,
{
    if b < 8388608 {
        (b, 0)
    } else {
        (b % 8388608 + 8388608, b / 8388608 - 1)
    }
}

/// The magnitude of a product.
fn product_magnitude(a: u32, b: u32) -> (r: u32)
    requires
        a < INFINITE,
        b < INFINITE,
    ensures
        r == rounded(units(a as nat) * units(b as nat), pow2(298)),
        r <= INFINITE,
{
    let (s, d): (u32, u32) = parts(a);
    let (t, e): (u32, u32) = parts(b);
    if s > 0 && t > 0 {
        let ghost num = units(a as nat) * units(b as nat);
        let ghost den = pow2(298);
        assert(0 < s as u64 * t as u64 <= 0xFFFF_FE00_0001) by (nonlinear_arith)
            requires
                0 < s < 16777216,
                0 < t < 16777216,
        ;
        let m: u64 = s as u64 * t as u64;
        let x: i32 = d as i32 + e as i32 - 149;
        let ghost p = pow2((x + 298) as nat);
        proof {
            let c = pow2(d as nat);
            let f = pow2(e as nat);
            lemma_pow2_pos(298);
            lemma_pow2_pos((x + 298) as nat);
            lemma_pow2_adds(d as nat, e as nat);
            lemma_pow2_adds((d + e) as nat, 149);
            assert(num * pow2(149) == m * p) by (nonlinear_arith)
                requires
                    num == (s * c) * (t * f),
                    m == s * t,
                    p == c * f * pow2(149),
            ;
            if x >= 0 {
                lemma_pow2_adds(x as nat, 298);
            } else {
                lemma_pow2_adds((x + 298) as nat, (-x) as nat);
            }
        }
        if let Some(r) = round_small(m, x, Ghost(num), Ghost(den), Ghost(p)) {
            return r;
        }
    }
    round(&units_product(a, b), &power(298))
}

/// The product of two numbers.
pub fn times(a: u32, b: u32) -> (r: u32)
    ensures
        r == product(a, b),
{
    proof {
        reveal(product);
    }
    let am: u32 = a % 0x8000_0000;
    let bm: u32 = b % 0x8000_0000;
    let minus: bool = (a >= 0x8000_0000) != (b >= 0x8000_0000);
    if am > INFINITE || bm > INFINITE {
        return NAN;
    }
    if am == INFINITE || bm == INFINITE {
        return if am == 0 || bm == 0 {
            NAN
        } else {
            signed(minus, INFINITE)
        };
    }
    signed(minus, product_magnitude(am, bm))
}

/// A magnitude above zero stands for more than zero.
proof fn some_units(b: nat)
    requires
        b > 0,
    ensures
        units(b) > 0,
{
    lemma_pow2_pos(exponent(b));
    assert(significand(b) * pow2(exponent(b)) > 0) by (nonlinear_arith)
        requires
            significand(b) > 0,
            pow2(exponent(b)) > 0,
    ;
}

/// The quotient of two numbers.
pub fn over(a: u32, b: u32) -> (r: u32)
    ensures
        r == quotient(a, b),
{
    proof {
        reveal(quotient);
    }
    let am: u32 = a % 0x8000_0000;
    let bm: u32 = b % 0x8000_0000;
    let minus: bool = (a >= 0x8000_0000) != (b >= 0x8000_0000);
    if am > INFINITE || bm > INFINITE {
        return NAN;
    }
    if am == INFINITE {
        return if bm == INFINITE {
            NAN
        } else {
            signed(minus, INFINITE)
        };
    }
    if bm == INFINITE {
        return signed(minus, 0);
    }
    if bm == 0 {
        return if am == 0 {
            NAN
        } else {
            signed(minus, INFINITE)
        };
    }
    proof {
        some_units(bm as nat);
    }
    signed(minus, round(&units_of(am), &units_of(bm)))
}

/// The number without its sign.
pub fn abs(a: u32) -> (r: u32)
    ensures
        r == absolute(a),
{
    a % 0x8000_0000
}

/// Tells whether the first number is less than the second.
pub fn less(a: u32, b: u32) -> (r: bool)
    ensures
        r == below(a, b),
{
    a % 0x8000_0000 <= INFINITE && b % 0x8000_0000 <= INFINITE && rank_of(a) < rank_of(b)
}

/// A whole number.
#[verifier::opaque]
pub open spec fn of_integer(n: i32) -> u32 {
    if n < 0 {
        with_sign(true, rounded((-n) as nat, 1))
    } else {
        rounded(n as nat, 1)
    }
}

/// A whole number.
pub fn from_integer(n: i32) -> (r: u32)
    ensures
        r == of_integer(n),
{
    proof {
        reveal(of_integer);
    }
    let m: u32 = if n < 0 {
        (-(n as i64)) as u32
    } else {
        n as u32
    };
    signed(n < 0, round(&Big::small(m), &Big::small(1)))
}

/// A count.
#[verifier::opaque]
pub open spec fn of_count(n: nat) -> u32 {
    rounded(n, 1)
}

/// A count.
pub fn from_count(n: usize) -> (r: u32)
    ensures
        r == of_count(n as nat),
{
    proof {
        reveal(of_count);
    }
    let m: Big = Big::small(1).times(n as u64);
    round(&m, &Big::small(1))
}

/// The radians in a degree.
pub const RADIAN: u32 = 0x3C8E_FA35;

/// An angle in degrees, in radians.
pub open spec fn radians(a: u32) -> u32 {
    product(a, RADIAN)
}

/// An angle in degrees, in radians.
pub fn to_radians(a: u32) -> (r: u32)
    ensures
        r == radians(a),
{
    times(a, RADIAN)
}

/// The first number is not greater than the second; NaN is not, on either side.
pub open spec fn at_most(a: u32, b: u32) -> bool {
    !is_nan(a) && !is_nan(b) && rank(a) <= rank(b)
}

/// Tells whether the first number is not greater than the second.
pub fn not_above(a: u32, b: u32) -> (r: bool)
    ensures
        r == at_most(a, b),
{
    a % 0x8000_0000 <= INFINITE && b % 0x8000_0000 <= INFINITE && rank_of(a) <= rank_of(b)
}

/// The square of twice the middle above a magnitude.
fn middle_squared(b: u32) -> (r: Big)
    requires
        b < INFINITE,
    ensures
        r@ == middle(b as nat) * middle(b as nat),
{
    let (s, e): (u32, u32) = if b < 8388608 {
        (b, 0)
    } else {
        (b % 8388608 + 8388608, b / 8388608 - 1)
    };
    let odd: u32 = 2 * s + 1;
    let r: Big = Big::small(odd).times_plus(odd, 0).shifted(2 * e);
    proof {
        let p = pow2(e as nat);
        let o = odd as nat;
        lemma_pow2_adds(e as nat, e as nat);
        assert(o * o * (p * p) == (o * p) * (o * p)) by (nonlinear_arith);
        assert(middle(b as nat) == o * p);
    }
    r
}

proof fn squares_grow(a: nat, b: nat)
    requires
        a < b,
    ensures
        middle(a) * middle(a) < middle(b) * middle(b),
{
    middles_grow(a, b);
    let x = middle(a);
    let y = middle(b);
    assert(x * x < y * y) by (nonlinear_arith)
        requires
            x < y,
    ;
}

proof fn no_root_above(u: nat, a: nat, b: nat)
    requires
        a < b,
        root_rounds_to(u, a),
    ensures
        !root_rounds_to(u, b),
{
    if a + 1 < b {
        squares_grow(a, (b - 1) as nat);
    }
}

/// The square root rounds to one magnitude only.
pub proof fn root_is_unique(u: nat, a: nat, b: nat)
    requires
        root_rounds_to(u, a),
        root_rounds_to(u, b),
    ensures
        a == b,
{
    if a < b {
        no_root_above(u, a, b);
    } else if b < a {
        no_root_above(u, b, a);
    }
}

/// The square root of a finite number lies well below infinity.
pub proof fn root_is_finite(b: nat)
    requires
        b < INFINITE,
    ensures
        units(b) * pow2(151) < middle(0x7F7F_FFFE) * middle(0x7F7F_FFFE),
{
    let e = exponent(b);
    let s = significand(b);
    let top = pow2(253);
    if e < 253 {
        lemma_pow2_strictly_increases(e, 253);
    }
    assert(exponent(0x7F7F_FFFE) == 253);
    assert(significand(0x7F7F_FFFE) == 16777214);
    let m = middle(0x7F7F_FFFE);
    assert(m == 33554429 * top);
    assert(s * pow2(e) <= 16777216 * top) by (nonlinear_arith)
        requires
            s <= 16777216,
            pow2(e) <= top,
    ;
    lemma_pow2_strictly_increases(151, 253);
    lemma_pow2_pos(151);
    let k = pow2(151);
    let u = units(b);
    assert(u * k < m * m) by (nonlinear_arith)
        requires
            u <= 16777216 * top,
            0 < k < top,
            m == 33554429 * top,
    ;
}

/// The magnitude that the square root of a finite magnitude rounds to.
fn root_of(b: u32) -> (r: u32)
    requires
        b < INFINITE,
    ensures
        r == root_rounded(units(b as nat)),
        r < INFINITE,
{
    let square: Big = units_of(b).shifted(151);
    let ghost u = units(b as nat);
    let mut low: u32 = 0;
    let mut high: u32 = 0x7F7F_FFFE;
    proof {
        root_is_finite(b as nat);
    }
    while low < high
        invariant
            low <= high <= 0x7F7F_FFFE,
            square@ == u * pow2(151),
            low > 0 ==> middle((low - 1) as nat) * middle((low - 1) as nat) < square@,
            square@ <= middle(high as nat) * middle(high as nat),
        decreases high - low,
    {
        let mid: u32 = low + (high - low) / 2;
        match square.compare(&middle_squared(mid)) {
            Compared::Greater => {
                low = mid + 1;
            },
            _ => {
                high = mid;
            },
        }
    }
    let mut r: u32 = low;
    if low % 2 == 1 {
        match square.compare(&middle_squared(low)) {
            Compared::Equal => {
                r = low + 1;
                proof {
                    squares_grow(low as nat, (low + 1) as nat);
                }
            },
            _ => {},
        }
    }
    proof {
        assert(root_rounds_to(u, r as nat));
        let c = root_rounded(u);
        assert(root_rounds_to(u, c as nat));
        root_is_unique(u, r as nat, c as nat);
    }
    r
}

/// The square root of a number.
pub fn sqrt(a: u32) -> (r: u32)
    ensures
        r == root(a),
{
    proof {
        reveal(root);
    }
    let am: u32 = a % 0x8000_0000;
    if am > INFINITE {
        NAN
    } else if am == 0 {
        a
    } else if a >= 0x8000_0000 {
        NAN
    } else if am == INFINITE {
        a
    } else {
        root_of(am)
    }
}

/// Nothing rounds to zero.
proof fn nothing_rounds_to_zero(den: nat)
    requires
        den > 0,
    ensures
        rounded(0, den) == 0,
{
    lemma_pow2_pos(0);
    assert(middle(0) >= 1) by {
        lemma_pow2_pos(exponent(0));
        assert(1 * pow2(0) == pow2(0));
    }
    assert(0 * pow2(150) == 0);
    assert(middle(0) * den >= 0) by (nonlinear_arith);
    assert(rounds_to(0, den, 0u32 as nat));
    let c = rounded(0, den);
    rounding_is_unique(0, den, c as nat, 0);
}

/// Zero times a finite number is zero.
pub proof fn zero_times_anything(a: u32, b: u32)
    requires
        is_zero(a) || is_zero(b),
        !is_nan(a) && !is_infinite(a),
        !is_nan(b) && !is_infinite(b),
    ensures
        is_zero(product(a, b)),
{
    reveal(product);
    lemma_pow2_pos(298);
    lemma_pow2_pos(0);
    nothing_rounds_to_zero(pow2(298));
    assert(units(0) == 0) by {
        assert(0 * pow2(0) == 0);
    }
    let x = units(magnitude_of(a));
    let y = units(magnitude_of(b));
    assert(x * y == 0) by (nonlinear_arith)
        requires
            x == 0 || y == 0,
    ;
}

/// The sum of two zeros is zero.
pub proof fn zero_plus_zero(a: u32, b: u32)
    requires
        is_zero(a),
        is_zero(b),
    ensures
        is_zero(sum(a, b)),
        a == 0 || b == 0 ==> sum(a, b) == 0,
{
    reveal(sum);
    assert(units(0) == 0) by {
        assert(0 * pow2(0) == 0);
    }
}

/// The order of the summands does not matter.
pub proof fn adding_commutes(a: u32, b: u32)
    ensures
        sum(a, b) == sum(b, a),
{
    reveal(sum);
}

/// The order of the factors does not matter.
pub proof fn multiplying_commutes(a: u32, b: u32)
    ensures
        product(a, b) == product(b, a),
{
    reveal(product);
    let x = units(magnitude_of(a));
    let y = units(magnitude_of(b));
    assert(x * y == y * x) by (nonlinear_arith);
}

} // verus!
