//! Natural numbers of any size, as far as reading decimal fractions needs them.
use vstd::arithmetic::power2::{lemma_pow2_adds, lemma_pow2_unfold, pow2};
use vstd::prelude::*;

verus! {

/// A natural number: limbs of 32 bits, lowest first.
pub struct Big {
    /// The limbs.
    pub limbs: Vec<u32>,
}

/// What a limb counts for at place `k`.
pub open spec fn place(k: nat) -> nat
    decreases k,
{
    if k == 0 {
        1
    } else {
        4294967296 * place((k - 1) as nat)
    }
}

/// The number that the first `n` limbs stand for.
pub open spec fn value(s: Seq<u32>, n: nat) -> nat
    decreases n,
{
    if n == 0 {
        0
    } else {
        value(s, (n - 1) as nat) + limb(s, n - 1) * place((n - 1) as nat)
    }
}

/// The limb at place `i`; 0 above the highest.
pub open spec fn limb(s: Seq<u32>, i: int) -> nat {
    if 0 <= i < s.len() {
        s[i] as nat
    } else {
        0
    }
}

impl View for Big {
    type V = nat;

    open spec fn view(&self) -> nat {
        value(self.limbs@, self.limbs@.len())
    }
}

proof fn place_positive(k: nat)
    ensures
        place(k) >= 1,
    decreases k,
{
    if k > 0 {
        place_positive((k - 1) as nat);
    }
}

proof fn value_below_place(s: Seq<u32>, n: nat)
    ensures
        value(s, n) < place(n),
    decreases n,
{
    if n > 0 {
        let m = (n - 1) as nat;
        value_below_place(s, m);
        place_positive(m);
        let l = limb(s, n - 1);
        assert(l * place(m) + place(m) <= 4294967296 * place(m)) by (nonlinear_arith)
            requires
                l <= 4294967295,
        ;
    }
}

proof fn value_by_limbs(s: Seq<u32>, t: Seq<u32>, n: nat)
    requires
        forall|i: int| 0 <= i < n ==> #[trigger] limb(s, i) == limb(t, i),
    ensures
        value(s, n) == value(t, n),
    decreases n,
{
    if n > 0 {
        value_by_limbs(s, t, (n - 1) as nat);
        assert(limb(s, n - 1) == limb(t, n - 1));
    }
}

proof fn value_of_padding(s: Seq<u32>, n: nat)
    requires
        n >= s.len(),
    ensures
        value(s, n) == value(s, s.len()),
    decreases n,
{
    if n > s.len() {
        value_of_padding(s, (n - 1) as nat);
        assert(limb(s, n - 1) * place((n - 1) as nat) == 0) by (nonlinear_arith)
            requires
                limb(s, n - 1) == 0,
        ;
    }
}

/// The highest limb that differs decides.
proof fn highest_difference_decides(s: Seq<u32>, t: Seq<u32>, i: nat, n: nat)
    requires
        i < n,
        limb(s, i as int) < limb(t, i as int),
        forall|j: int| i < j < n ==> #[trigger] limb(s, j) == limb(t, j),
    ensures
        value(s, n) < value(t, n),
    decreases n,
{
    let m = (n - 1) as nat;
    if i == m {
        value_below_place(s, m);
        let a = limb(s, m as int);
        let b = limb(t, m as int);
        assert(a * place(m) + place(m) <= b * place(m)) by (nonlinear_arith)
            requires
                a + 1 <= b,
        ;
    } else {
        highest_difference_decides(s, t, i, m);
        assert(limb(s, n - 1) == limb(t, n - 1));
    }
}

proof fn place_is_power(k: nat)
    ensures
        place(k) == pow2(32 * k),
    decreases k,
{
    vstd::arithmetic::power2::lemma2_to64();
    if k > 0 {
        place_is_power((k - 1) as nat);
        lemma_pow2_adds(32, (32 * (k - 1)) as nat);
    }
}

proof fn place_adds(a: nat, b: nat)
    ensures
        place(a + b) == place(a) * place(b),
{
    place_is_power(a);
    place_is_power(b);
    place_is_power(a + b);
    lemma_pow2_adds(32 * a, 32 * b);
}

/// Limbs of zero in front move the others up.
proof fn value_of_moved(s: Seq<u32>, zeros: Seq<u32>, n: nat)
    requires
        forall|i: int| 0 <= i < zeros.len() ==> #[trigger] zeros[i] == 0,
        n <= s.len(),
    ensures
        value(zeros + s, zeros.len() + n) == value(s, n) * place(zeros.len()),
    decreases n,
{
    let z = zeros.len();
    if n == 0 {
        value_of_zeros(zeros + s, z);
        assert(0 * place(z) == 0);
    } else {
        let m = (n - 1) as nat;
        value_of_moved(s, zeros, m);
        place_adds(m, z);
        assert(limb(zeros + s, (z + m) as int) == limb(s, m as int));
        let l = limb(s, m as int);
        assert((value(s, m) + l * place(m)) * place(z) == value(s, m) * place(z) + l * (place(m)
            * place(z))) by (nonlinear_arith);
    }
}

proof fn value_of_zeros(s: Seq<u32>, n: nat)
    requires
        n <= s.len(),
        forall|i: int| 0 <= i < n ==> #[trigger] s[i] == 0,
    ensures
        value(s, n) == 0,
    decreases n,
{
    if n > 0 {
        value_of_zeros(s, (n - 1) as nat);
        assert(0 * place((n - 1) as nat) == 0);
    }
}

/// How two numbers compare.
#[derive(Clone, Copy, PartialEq, Eq, Structural)]
pub enum Compared {
    /// The first is less.
    Less,
    /// They are equal.
    Equal,
    /// The first is greater.
    Greater,
}

impl Big {
    /// A small number.
    pub fn small(n: u32) -> (r: Big)
        ensures
            r@ == n,
    {
        let mut limbs: Vec<u32> = Vec::new();
        limbs.push(n);
        let r = Big { limbs };
        assert(r@ == n) by {
            reveal_with_fuel(value, 2);
            reveal_with_fuel(place, 1);
            assert(limb(r.limbs@, 0) == n);
            assert(limb(r.limbs@, 0) * place(0) == n) by (nonlinear_arith)
                requires
                    limb(r.limbs@, 0) == n,
                    place(0) == 1,
            ;
        }
        r
    }

    /// A copy.
    pub fn copy(&self) -> (r: Big)
        ensures
            r@ == self@,
    {
        self.times_plus(1, 0)
    }

    /// `self * m + a`.
    pub fn times_plus(&self, m: u32, a: u32) -> (r: Big)
        ensures
            r@ == self@ * m + a,
    {
        let mut out: Vec<u32> = Vec::new();
        let mut carry: u64 = a as u64;
        let mut i: usize = 0;
        let ghost s = self.limbs@;
        assert(carry * place(0) == a) by (nonlinear_arith)
            requires
                carry == a,
                place(0) == 1,
        ;
        assert(value(s, 0) * m == 0) by (nonlinear_arith)
            requires
                value(s, 0) == 0,
        ;
        while i < self.limbs.len()
            invariant
                s == self.limbs@,
                i <= s.len(),
                out@.len() == i,
                carry <= 4294967295,
                value(out@, i as nat) + carry * place(i as nat) == value(s, i as nat) * m + a,
            decreases s.len() - i,
        {
            let l: u32 = self.limbs[i];
            assert(l * m <= 4294967295 * 4294967295) by (nonlinear_arith)
                requires
                    l <= 4294967295,
                    m <= 4294967295,
            ;
            let t: u64 = l as u64 * m as u64 + carry;
            let ghost before = out@;
            let ghost old_carry = carry;
            out.push((t % 4294967296) as u32);
            carry = t / 4294967296;
            proof {
                value_by_limbs(before, out@, i as nat);
                let p = place(i as nat);
                let q = t % 4294967296;
                assert(limb(out@, i as int) == q);
                assert(limb(s, i as int) == l);
                assert(place((i + 1) as nat) == 4294967296 * p);
                assert(q * p + carry * (4294967296 * p) == l * m * p + old_carry * p) by (nonlinear_arith)
                    requires
                        q + 4294967296 * carry == l * m + old_carry,
                ;
                assert((value(s, i as nat) + l * p) * m == value(s, i as nat) * m + l * m * p)
                    by (nonlinear_arith);
            }
            i = i + 1;
        }
        let ghost before = out@;
        out.push(carry as u32);
        proof {
            value_by_limbs(before, out@, i as nat);
            assert(limb(out@, i as int) == carry);
        }
        Big { limbs: out }
    }

    /// `self + other`.
    pub fn plus(&self, other: &Big) -> (r: Big)
        ensures
            r@ == self@ + other@,
    {
        let ghost s = self.limbs@;
        let ghost t = other.limbs@;
        let n: usize = if self.limbs.len() >= other.limbs.len() {
            self.limbs.len()
        } else {
            other.limbs.len()
        };
        let mut out: Vec<u32> = Vec::new();
        let mut carry: u64 = 0;
        let mut i: usize = 0;
        assert(carry * place(0) == 0) by (nonlinear_arith)
            requires
                carry == 0,
        ;
        while i < n
            invariant
                s == self.limbs@,
                t == other.limbs@,
                i <= n,
                out@.len() == i,
                carry <= 1,
                value(out@, i as nat) + carry * place(i as nat) == value(s, i as nat) + value(
                    t,
                    i as nat,
                ),
            decreases n - i,
        {
            let a: u32 = if i < self.limbs.len() {
                self.limbs[i]
            } else {
                0
            };
            let b: u32 = if i < other.limbs.len() {
                other.limbs[i]
            } else {
                0
            };
            let x: u64 = a as u64 + b as u64 + carry;
            let ghost before = out@;
            let ghost old_carry = carry;
            out.push((x % 4294967296) as u32);
            carry = x / 4294967296;
            proof {
                value_by_limbs(before, out@, i as nat);
                let p = place(i as nat);
                let q = x % 4294967296;
                assert(limb(out@, i as int) == q);
                assert(limb(s, i as int) == a && limb(t, i as int) == b);
                assert(place((i + 1) as nat) == 4294967296 * p);
                assert(q * p + carry * (4294967296 * p) == a * p + b * p + old_carry * p)
                    by (nonlinear_arith)
                    requires
                        q + 4294967296 * carry == a + b + old_carry,
                ;
            }
            i = i + 1;
        }
        let ghost before = out@;
        out.push(carry as u32);
        proof {
            value_by_limbs(before, out@, i as nat);
            assert(limb(out@, i as int) == carry);
            value_of_padding(s, n as nat);
            value_of_padding(t, n as nat);
        }
        Big { limbs: out }
    }

    /// `self * m`.
    pub fn times(&self, m: u64) -> (r: Big)
        ensures
            r@ == self@ * m,
    {
        let low: u32 = (m % 4294967296) as u32;
        let high: u32 = (m / 4294967296) as u32;
        let r: Big = self.times_plus(high, 0).moved(1).plus(&self.times_plus(low, 0));
        proof {
            reveal_with_fuel(place, 2);
            let v = self@;
            assert(v * (high as nat) * 4294967296 + v * (low as nat) == v * (m as nat))
                by (nonlinear_arith)
                requires
                    m == high * 4294967296 + low,
            ;
        }
        r
    }

    /// `self * 2^(32 * n)`: `n` limbs of zero go in front.
    fn moved(&self, n: usize) -> (r: Big)
        ensures
            r@ == self@ * place(n as nat),
    {
        let ghost s = self.limbs@;
        let mut out: Vec<u32> = Vec::new();
        let mut i: usize = 0;
        while i < n
            invariant
                i <= n,
                out@ == Seq::new(i as nat, |j: int| 0u32),
            decreases n - i,
        {
            out.push(0);
            i = i + 1;
            assert(out@ =~= Seq::new(i as nat, |j: int| 0u32));
        }
        let zeros: Ghost<Seq<u32>> = Ghost(out@);
        let mut j: usize = 0;
        assert(out@ =~= zeros@ + s.take(0));
        while j < self.limbs.len()
            invariant
                s == self.limbs@,
                j <= s.len(),
                out@ == zeros@ + s.take(j as int),
            decreases s.len() - j,
        {
            out.push(self.limbs[j]);
            j = j + 1;
            assert(out@ =~= zeros@ + s.take(j as int));
        }
        proof {
            assert(out@ =~= zeros@ + s);
            value_of_moved(s, zeros@, s.len());
        }
        Big { limbs: out }
    }

    /// `self * 2^k`.
    pub fn shifted(&self, k: u32) -> (r: Big)
        ensures
            r@ == self@ * pow2(k as nat),
    {
        let n: usize = (k / 32) as usize;
        let rest: u32 = k % 32;
        let mut m: u32 = 1;
        let mut i: u32 = 0;
        proof {
            vstd::arithmetic::power2::lemma2_to64();
        }
        while i < rest
            invariant
                i <= rest < 32,
                m == pow2(i as nat),
            decreases rest - i,
        {
            proof {
                lemma_pow2_unfold((i + 1) as nat);
                vstd::arithmetic::power2::lemma2_to64();
                if i < 30 {
                    vstd::arithmetic::power2::lemma_pow2_strictly_increases(i as nat, 30);
                }
            }
            m = 2 * m;
            i = i + 1;
        }
        let r: Big = self.moved(n).times_plus(m, 0);
        proof {
            place_is_power(n as nat);
            lemma_pow2_adds((32 * n) as nat, rest as nat);
            assert(self@ * place(n as nat) * m == self@ * (place(n as nat) * m))
                by (nonlinear_arith);
        }
        r
    }

    /// How two numbers compare.
    pub fn compare(&self, other: &Big) -> (r: Compared)
        ensures
            r == (if self@ < other@ {
                Compared::Less
            } else if self@ == other@ {
                Compared::Equal
            } else {
                Compared::Greater
            }),
    {
        let ghost s = self.limbs@;
        let ghost t = other.limbs@;
        let n: usize = if self.limbs.len() >= other.limbs.len() {
            self.limbs.len()
        } else {
            other.limbs.len()
        };
        proof {
            value_of_padding(s, n as nat);
            value_of_padding(t, n as nat);
        }
        let mut i: usize = n;
        while i > 0
            invariant
                s == self.limbs@,
                t == other.limbs@,
                i <= n,
                value(s, n as nat) == self@,
                value(t, n as nat) == other@,
                forall|j: int| i <= j < n ==> #[trigger] limb(s, j) == limb(t, j),
            decreases i,
        {
            i = i - 1;
            let a: u32 = if i < self.limbs.len() {
                self.limbs[i]
            } else {
                0
            };
            let b: u32 = if i < other.limbs.len() {
                other.limbs[i]
            } else {
                0
            };
            assert(limb(s, i as int) == a && limb(t, i as int) == b);
            if a < b {
                proof {
                    highest_difference_decides(s, t, i as nat, n as nat);
                }
                return Compared::Less;
            }
            if a > b {
                proof {
                    assert forall|j: int| i < j < n implies #[trigger] limb(t, j) == limb(s, j) by {
                        assert(limb(s, j) == limb(t, j));
                    }
                    highest_difference_decides(t, s, i as nat, n as nat);
                }
                return Compared::Greater;
            }
        }
        proof {
            value_by_limbs(s, t, n as nat);
        }
        Compared::Equal
    }

    /// `self - other`.
    pub fn less(&self, other: &Big) -> (r: Big)
        requires
            other@ <= self@,
        ensures
            r@ == self@ - other@,
    {
        let ghost s = self.limbs@;
        let ghost t = other.limbs@;
        let n: usize = if self.limbs.len() >= other.limbs.len() {
            self.limbs.len()
        } else {
            other.limbs.len()
        };
        let mut out: Vec<u32> = Vec::new();
        let mut borrow: u64 = 0;
        let mut i: usize = 0;
        assert(borrow * place(0) == 0) by (nonlinear_arith)
            requires
                borrow == 0,
        ;
        while i < n
            invariant
                s == self.limbs@,
                t == other.limbs@,
                i <= n,
                out@.len() == i,
                borrow <= 1,
                value(out@, i as nat) + value(t, i as nat) == value(s, i as nat) + borrow * place(
                    i as nat,
                ),
            decreases n - i,
        {
            let a: u32 = if i < self.limbs.len() {
                self.limbs[i]
            } else {
                0
            };
            let b: u32 = if i < other.limbs.len() {
                other.limbs[i]
            } else {
                0
            };
            let x: u64 = 4294967296 + a as u64 - b as u64 - borrow;
            let ghost before = out@;
            let ghost old_borrow = borrow;
            out.push((x % 4294967296) as u32);
            borrow = 1 - x / 4294967296;
            proof {
                value_by_limbs(before, out@, i as nat);
                let p = place(i as nat);
                let q = x % 4294967296;
                assert(limb(out@, i as int) == q);
                assert(limb(s, i as int) == a && limb(t, i as int) == b);
                assert(place((i + 1) as nat) == 4294967296 * p);
                assert(q * p + b * p + old_borrow * p == a * p + borrow * (4294967296 * p))
                    by (nonlinear_arith)
                    requires
                        q + b + old_borrow == a + borrow * 4294967296,
                ;
            }
            i = i + 1;
        }
        proof {
            value_of_padding(s, n as nat);
            value_of_padding(t, n as nat);
            value_below_place(out@, n as nat);
            if borrow == 1 {
                assert(borrow * place(n as nat) == place(n as nat));
            }
        }
        Big { limbs: out }
    }

    /// The three highest limbs that are not all zero, and how many limbs are below them.
    pub fn top(&self) -> (r: (u128, usize))
        ensures
            r.0 < 0x1_0000_0000_0000_0000_0000_0000,
            r.1 <= self.limbs@.len(),
    {
        let mut n: usize = self.limbs.len();
        while n > 0 && self.limbs[n - 1] == 0
            invariant
                n <= self.limbs@.len(),
            decreases n,
        {
            n = n - 1;
        }
        let a: u128 = if n >= 1 {
            self.limbs[n - 1] as u128
        } else {
            0
        };
        let b: u128 = if n >= 2 {
            self.limbs[n - 2] as u128
        } else {
            0
        };
        let c: u128 = if n >= 3 {
            self.limbs[n - 3] as u128
        } else {
            0
        };
        let below: usize = if n >= 3 {
            n - 3
        } else {
            0
        };
        if n == 1 {
            (a, below)
        } else if n == 2 {
            (a * 0x1_0000_0000 + b, below)
        } else {
            ((a * 0x1_0000_0000 + b) * 0x1_0000_0000 + c, below)
        }
    }
}

} // verus!
