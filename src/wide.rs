//! A 256-bit unsigned integer made of two 128-bit halves.
use vstd::prelude::*;
use vstd::arithmetic::div_mod::{
    lemma_div_denominator, lemma_fundamental_div_mod, lemma_fundamental_div_mod_converse,
};
use vstd::arithmetic::power2::{lemma2_to64_rest, lemma_pow2_adds, lemma_pow2_unfold, pow2};
use vstd::bits::lemma_u128_shr_is_div;

verus! {

/// 2^128, the weight of the high half.
pub open spec fn base() -> nat {
    u128::MAX as nat + 1
}

/// 2^256, one past the largest value.
pub open spec fn modulus() -> nat {
    base() * base()
}

/// An unsigned integer below 2^256: `hi * 2^128 + lo`.
#[derive(Clone, Copy, Debug, PartialEq, Eq, Structural)]
pub struct U256 {
    pub hi: u128,
    pub lo: u128,
}

impl View for U256 {
    type V = nat;

    open spec fn view(&self) -> nat {
        self.hi as nat * base() + self.lo as nat
    }
}

pub proof fn lemma_view_bounds(x: U256)
    ensures
        x@ < modulus(),
        x.hi == 0 ==> x@ < base(),
        x.hi != 0 ==> x@ >= base(),
{
    assert(x.hi as nat * base() <= (base() - 1) * base()) by (nonlinear_arith)
        requires x.hi < base();
    assert((base() - 1) * base() + base() == modulus()) by (nonlinear_arith);
    assert(x.hi != 0 ==> x.hi as nat * base() >= base()) by (nonlinear_arith);
}

pub proof fn lemma_pow2_widths()
    ensures
        pow2(128) == base(),
        pow2(256) == modulus(),
{
    lemma2_to64_rest();
    lemma_pow2_adds(64, 64);
    lemma_pow2_adds(128, 128);
    assert(0x10000000000000000nat * 0x10000000000000000nat == base()) by (nonlinear_arith);
}

/// Taking one more bit off the top of `w`: the prefix doubles and gains that bit.
proof fn lemma_prefix_step(w: nat, j: nat)
    requires
        j > 0,
    ensures
        w / pow2((j - 1) as nat) == 2 * (w / pow2(j)) + (w / pow2((j - 1) as nat)) % 2,
{
    let p = pow2((j - 1) as nat);
    lemma_pow2_unfold(j);
    vstd::arithmetic::power2::lemma_pow2_pos((j - 1) as nat);
    lemma_div_denominator(w as int, p as int, 2);
    assert(p * 2 == pow2(j));
    lemma_fundamental_div_mod((w / p) as int, 2);
}

/// One step of long division: `(q, r)` become the quotient and remainder of
/// `2 * (q * d + r) + bit` by `d`.
fn div_step(q: &U256, r: &U256, d: &U256, bit: bool) -> (res: (U256, U256))
    requires
        r@ < d@,
        2 * q@ + 1 < modulus(),
    ensures
        res.0@ * d@ + res.1@ == 2 * (q@ * d@ + r@) + (if bit { 1nat } else { 0nat }),
        res.1@ < d@,
        res.0@ <= 2 * q@ + 1,
{
    let ghost b: nat = if bit { 1nat } else { 0nat };
    proof {
        lemma_view_bounds(*d);
    }
    let t = d.checked_sub(r).unwrap();
    let tb = if bit {
        t.checked_sub(&U256::from_u128(1)).unwrap()
    } else {
        t
    };
    let q2 = q.checked_add(q).unwrap();
    if tb.le(r) {
        let r2 = r.checked_sub(&tb).unwrap();
        let q3 = q2.checked_add(&U256::from_u128(1)).unwrap();
        assert(q3@ * d@ + r2@ == 2 * (q@ * d@ + r@) + b) by (nonlinear_arith)
            requires
                q3@ == 2 * q@ + 1,
                r2@ == r@ - (d@ - r@ - b),
        ;
        (q3, r2)
    } else {
        assert(2 * r@ + b < d@);
        let r2 = r.checked_add(r).unwrap();
        let r3 = if bit {
            r2.checked_add(&U256::from_u128(1)).unwrap()
        } else {
            r2
        };
        assert(q2@ * d@ + r3@ == 2 * (q@ * d@ + r@) + b) by (nonlinear_arith)
            requires
                q2@ == 2 * q@,
                r3@ == 2 * r@ + b,
        ;
        (q2, r3)
    }
}

const HALF_BASE: u128 = 0x1_0000_0000_0000_0000;

/// Full product of two 128-bit values.
fn mul_wide(a: u128, b: u128) -> (r: U256)
    ensures
        r@ == a as nat * b as nat,
{
    let t: u128 = HALF_BASE;
    let a1 = a / t;
    let a0 = a % t;
    let b1 = b / t;
    let b0 = b % t;
    assert(a1 < t && b1 < t) by {
        assert(a / t < t);
        assert(b / t < t);
    }
    proof {
        lemma_fundamental_div_mod(a as int, t as int);
        lemma_fundamental_div_mod(b as int, t as int);
    }
    assert(a0 * b0 < base()) by (nonlinear_arith) requires a0 < t, b0 < t, t * t == base();
    assert(a0 * b1 < base()) by (nonlinear_arith) requires a0 < t, b1 < t, t * t == base();
    assert(a1 * b0 < base()) by (nonlinear_arith) requires a1 < t, b0 < t, t * t == base();
    assert(a1 * b1 <= (t - 1) * (t - 1)) by (nonlinear_arith) requires a1 < t, b1 < t;
    let p00: u128 = a0 * b0;
    let p01: u128 = a0 * b1;
    let p10: u128 = a1 * b0;
    let p11: u128 = a1 * b1;
    let h1 = p01 / t;
    let l1 = p01 % t;
    let h2 = p10 / t;
    let l2 = p10 % t;
    proof {
        lemma_fundamental_div_mod(p01 as int, t as int);
        lemma_fundamental_div_mod(p10 as int, t as int);
    }
    assert(h1 < t && h2 < t);
    let hi: u128 = p11 + h1 + h2;
    let x = U256 { hi, lo: 0 };
    let y = U256 { hi: 0, lo: p00 };
    let z1 = U256 { hi: 0, lo: l1 * t };
    let z2 = U256 { hi: 0, lo: l2 * t };
    let ghost total: nat = a as nat * b as nat;
    assert(total == p11 * base() + (p01 + p10) * t + p00) by (nonlinear_arith)
        requires
            a == a1 * t + a0,
            b == b1 * t + b0,
            p00 == a0 * b0,
            p01 == a0 * b1,
            p10 == a1 * b0,
            p11 == a1 * b1,
            t * t == base(),
            total == a as nat * b as nat,
    ;
    assert(p01 * t == h1 * base() + l1 * t) by (nonlinear_arith)
        requires p01 == h1 * t + l1, t * t == base();
    assert(p10 * t == h2 * base() + l2 * t) by (nonlinear_arith)
        requires p10 == h2 * t + l2, t * t == base();
    assert(total == hi as nat * base() + p00 + l1 * t + l2 * t) by (nonlinear_arith)
        requires
            total == p11 * base() + (p01 + p10) * t + p00,
            p01 * t == h1 * base() + l1 * t,
            p10 * t == h2 * base() + l2 * t,
            hi == p11 + h1 + h2,
    ;
    assert(total < modulus()) by (nonlinear_arith)
        requires total == a as nat * b as nat, a < base(), b < base();
    let s1 = x.checked_add(&y).unwrap();
    let s2 = s1.checked_add(&z1).unwrap();
    s2.checked_add(&z2).unwrap()
}

impl U256 {
    pub fn zero() -> (r: U256)
        ensures
            r@ == 0,
    {
        U256 { hi: 0, lo: 0 }
    }

    pub fn from_u128(v: u128) -> (r: U256)
        ensures
            r@ == v,
    {
        U256 { hi: 0, lo: v }
    }

    /// The value as a `u128`, where it fits.
    pub fn to_u128(&self) -> (r: Option<u128>)
        ensures
            r is Some <==> self@ < base(),
            r is Some ==> r->0 == self@,
    {
        proof {
            lemma_view_bounds(*self);
        }
        if self.hi == 0 {
            Some(self.lo)
        } else {
            None
        }
    }

    pub fn is_zero(&self) -> (r: bool)
        ensures
            r == (self@ == 0),
    {
        proof {
            lemma_view_bounds(*self);
        }
        self.hi == 0 && self.lo == 0
    }

    pub fn lt(&self, o: &U256) -> (r: bool)
        ensures
            r == (self@ < o@),
    {
        if self.hi < o.hi {
            assert(self@ < o@) by (nonlinear_arith)
                requires
                    self.hi < o.hi,
                    self.lo < base(),
                    self@ == self.hi * base() + self.lo,
                    o@ == o.hi * base() + o.lo,
            ;
            true
        } else if self.hi > o.hi {
            assert(self@ > o@) by (nonlinear_arith)
                requires
                    self.hi > o.hi,
                    o.lo < base(),
                    self@ == self.hi * base() + self.lo,
                    o@ == o.hi * base() + o.lo,
            ;
            false
        } else {
            self.lo < o.lo
        }
    }

    pub fn le(&self, o: &U256) -> (r: bool)
        ensures
            r == (self@ <= o@),
    {
        !o.lt(self)
    }

    pub fn checked_add(&self, o: &U256) -> (r: Option<U256>)
        ensures
            r is Some <==> self@ + o@ < modulus(),
            r is Some ==> r->0@ == self@ + o@,
    {
        let (lo, carry) = if self.lo <= u128::MAX - o.lo {
            (self.lo + o.lo, 0u128)
        } else {
            (self.lo - (u128::MAX - o.lo) - 1, 1u128)
        };
        assert(self@ + o@ == (self.hi + o.hi + carry) * base() + lo) by (nonlinear_arith)
            requires
                self@ == self.hi * base() + self.lo,
                o@ == o.hi * base() + o.lo,
                self.lo + o.lo == carry * base() + lo,
        ;
        if self.hi as u128 <= u128::MAX - o.hi && self.hi + o.hi <= u128::MAX - carry {
            let hi = self.hi + o.hi + carry;
            proof {
                lemma_view_bounds(U256 { hi, lo });
            }
            Some(U256 { hi, lo })
        } else {
            assert((self.hi + o.hi + carry) * base() + lo >= modulus()) by (nonlinear_arith)
                requires self.hi + o.hi + carry >= base();
            None
        }
    }

    pub fn checked_sub(&self, o: &U256) -> (r: Option<U256>)
        ensures
            r is Some <==> self@ >= o@,
            r is Some ==> r->0@ == self@ - o@,
    {
        if self.lt(o) {
            None
        } else {
            let (lo, borrow) = if self.lo >= o.lo {
                (self.lo - o.lo, 0u128)
            } else {
                (u128::MAX - (o.lo - self.lo) + 1, 1u128)
            };
            assert(self@ - o@ == (self.hi - o.hi - borrow) * base() + lo) by (nonlinear_arith)
                requires
                    self@ == self.hi * base() + self.lo,
                    o@ == o.hi * base() + o.lo,
                    self.lo - o.lo == lo - borrow * base(),
            ;
            assert(self.hi - o.hi - borrow >= 0) by (nonlinear_arith)
                requires
                    self@ - o@ == (self.hi - o.hi - borrow) * base() + lo,
                    self@ >= o@,
                    lo < base(),
            ;
            Some(U256 { hi: self.hi - o.hi - borrow, lo })
        }
    }

    /// Halves the value, rounding down.
    pub fn half(&self) -> (r: U256)
        ensures
            r@ == self@ / 2,
    {
        let top: u128 = 0x8000_0000_0000_0000_0000_0000_0000_0000;
        let lo = self.lo / 2 + (self.hi % 2) * top;
        let r = U256 { hi: self.hi / 2, lo };
        assert(self@ == 2 * r@ + self.lo % 2) by (nonlinear_arith)
            requires
                self@ == self.hi * base() + self.lo,
                r@ == r.hi * base() + r.lo,
                self.hi == 2 * r.hi + self.hi % 2,
                self.lo == 2 * (self.lo / 2) + self.lo % 2,
                r.lo == self.lo / 2 + (self.hi % 2) * top,
                2 * top == base(),
        ;
        r
    }

    /// Quotient of long division, rounding down; `None` for a zero divisor.
    pub fn checked_div(&self, d: &U256) -> (r: Option<U256>)
        ensures
            r is Some <==> d@ != 0,
            r is Some ==> r->0@ == self@ / d@,
    {
        if d.is_zero() {
            return None;
        }
        proof {
            lemma_pow2_widths();
            vstd::arithmetic::power2::lemma2_to64();
        }
        let mut q = U256::zero();
        let mut r = U256::zero();
        let mut j: u32 = 128;
        let ghost steps: nat = 0;
        while j > 0
            invariant
                j <= 128,
                steps == 128 - j,
                d@ > 0,
                r@ < d@,
                q@ < pow2(steps),
                q@ * d@ + r@ == self.hi as nat / pow2(j as nat),
                pow2(256) == modulus(),
            decreases j,
        {
            j = j - 1;
            let sh: u128 = j as u128;
            let bit = (self.hi >> sh) % 2 == 1;
            proof {
                lemma_u128_shr_is_div(self.hi, j as u128);
                lemma_prefix_step(self.hi as nat, (j + 1) as nat);
                lemma_pow2_unfold(steps + 1);
                vstd::arithmetic::power2::lemma_pow2_strictly_increases(steps + 1, 256);
            }
            let res = div_step(&q, &r, d, bit);
            q = res.0;
            r = res.1;
            proof {
                steps = steps + 1;
            }
        }
        j = 128;
        assert(self.lo as nat / pow2(128) == 0);
        assert(pow2(0) == 1);
        assert(self.hi as nat / pow2(0) == self.hi);
        assert(q@ * d@ + r@ == self.hi as nat);
        assert(self.hi as nat * pow2((128 - j) as nat) == self.hi as nat);
        while j > 0
            invariant
                j <= 128,
                steps == 256 - j,
                d@ > 0,
                r@ < d@,
                q@ < pow2(steps),
                q@ * d@ + r@ == self.hi as nat * pow2((128 - j) as nat) + self.lo as nat / pow2(
                    j as nat,
                ),
                pow2(256) == modulus(),
                pow2(128) == base(),
            decreases j,
        {
            j = j - 1;
            let sh: u128 = j as u128;
            let bit = (self.lo >> sh) % 2 == 1;
            proof {
                lemma_u128_shr_is_div(self.lo, j as u128);
                lemma_prefix_step(self.lo as nat, (j + 1) as nat);
                lemma_pow2_unfold(steps + 1);
                lemma_pow2_unfold((128 - j) as nat);
                if steps + 1 < 256 {
                    vstd::arithmetic::power2::lemma_pow2_strictly_increases(steps + 1, 256);
                }
            }
            let ghost old_q = q@;
            let ghost old_r = r@;
            let res = div_step(&q, &r, d, bit);
            q = res.0;
            r = res.1;
            proof {
                let hp = pow2((128 - j - 1) as nat);
                assert(self.hi as nat * pow2((128 - j) as nat) == 2 * (self.hi as nat * hp))
                    by (nonlinear_arith)
                    requires pow2((128 - j) as nat) == 2 * hp;
                let lw = self.lo as nat / pow2((j + 1) as nat);
                assert(old_q * d@ + old_r == self.hi as nat * hp + lw);
                assert(self.lo as nat / pow2(j as nat) == 2 * lw + (if bit { 1nat } else { 0nat }));
                assert(q@ * d@ + r@ == 2 * (old_q * d@ + old_r) + (if bit { 1nat } else { 0nat }));
                let ghost bb: nat = if bit { 1nat } else { 0nat };
                let ghost lj = self.lo as nat / pow2(j as nat);
                let ghost hj = pow2((128 - j) as nat);
                assert(q@ * d@ + r@ == self.hi as nat * hj + lj) by (nonlinear_arith)
                    requires
                        q@ * d@ + r@ == 2 * (old_q * d@ + old_r) + bb,
                        old_q * d@ + old_r == self.hi as nat * hp + lw,
                        lj == 2 * lw + bb,
                        hj == 2 * hp,
                ;
                steps = steps + 1;
            }
        }
        proof {
            assert(self.lo as nat / pow2(0) == self.lo);
            assert(q@ * d@ + r@ == self@);
            lemma_fundamental_div_mod_converse(self@ as int, d@ as int, q@ as int, r@ as int);
        }
        Some(q)
    }

    /// Product with a value below 2^128.
    fn checked_mul_small(a: u128, o: &U256) -> (r: Option<U256>)
        ensures
            r is Some <==> a * o@ < modulus(),
            r is Some ==> r->0@ == a * o@,
    {
        let c = mul_wide(a, o.hi);
        proof {
            lemma_view_bounds(c);
        }
        if c.hi != 0 {
            assert(a * o@ >= modulus()) by (nonlinear_arith)
                requires
                    a * o.hi >= base(),
                    o@ == o.hi * base() + o.lo,
                    modulus() == base() * base(),
            ;
            None
        } else {
            let d = mul_wide(a, o.lo);
            let top = U256 { hi: c.lo, lo: 0 };
            assert(a * o@ == top@ + d@) by (nonlinear_arith)
                requires
                    o@ == o.hi * base() + o.lo,
                    c@ == a * o.hi,
                    c.hi == 0,
                    top@ == c.lo * base(),
                    c@ == c.hi * base() + c.lo,
                    d@ == a * o.lo,
            ;
            top.checked_add(&d)
        }
    }

    pub fn checked_mul(&self, o: &U256) -> (r: Option<U256>)
        ensures
            r is Some <==> self@ * o@ < modulus(),
            r is Some ==> r->0@ == self@ * o@,
    {
        proof {
            lemma_view_bounds(*self);
            lemma_view_bounds(*o);
        }
        if self.hi == 0 {
            Self::checked_mul_small(self.lo, o)
        } else if o.hi == 0 {
            assert(self@ * o@ == o.lo * self@) by (nonlinear_arith)
                requires o@ == o.lo;
            Self::checked_mul_small(o.lo, self)
        } else {
            assert(self@ * o@ >= modulus()) by (nonlinear_arith)
                requires self@ >= base(), o@ >= base(), modulus() == base() * base();
            None
        }
    }
}

} // verus!
