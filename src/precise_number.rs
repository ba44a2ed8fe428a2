//! Unsigned fixed-point decimals scaled by 10^18 on a 256-bit mantissa.
use vstd::prelude::*;
use vstd::arithmetic::power2::{lemma_pow2_strictly_increases, lemma_pow2_unfold, pow2};
use crate::signed_precise::SignedPreciseNumber;
use crate::wide::{base, lemma_pow2_widths, lemma_view_bounds, modulus, U256};

verus! {

/// The scale: the raw value of 1.0.
pub const ONE: u128 = 1_000_000_000_000_000_000;

/// ln(2) at the same scale.
pub const LN2: u128 = 693_147_180_559_945_309;

/// Largest exponent magnitude that `exp` accepts (88.0).
pub const MAX_EXP: u128 = 88_000_000_000_000_000_000;

/// `a * b / ONE`, rounded down, where the raw product fits 256 bits.
pub open spec fn spec_mul(a: nat, b: nat) -> Option<nat> {
    if a * b < modulus() {
        Some(a * b / (ONE as nat))
    } else {
        None
    }
}

/// `a * ONE / b`, rounded down, for a non-zero divisor and a scaled dividend that fits.
pub open spec fn spec_div(a: nat, b: nat) -> Option<nat> {
    if b != 0 && a * ONE < modulus() {
        Some((a * ONE) as nat / b)
    } else {
        None
    }
}

/// Halving `x` into `[0, 2 * ONE)`, counting the halvings in `k`.
pub open spec fn ln_reduce_down(x: nat, k: int) -> (nat, int)
    decreases x,
{
    if x >= 2 * ONE {
        ln_reduce_down(x / 2, k + 1)
    } else {
        (x, k)
    }
}

/// Doubling a positive `x` into `[ONE, ...)`, counting the doublings down in `k`.
pub open spec fn ln_reduce_up(x: nat, k: int) -> (nat, int)
    decreases 2 * ONE - x,
{
    if 0 < x < ONE {
        ln_reduce_up(2 * x, k - 1)
    } else {
        (x, k)
    }
}

/// The terms `i..=10` of the series `z - z^2/2 + z^3/3 - ...` for `ln(1 + z)`,
/// each power rounded down from the one before it.
pub open spec fn ln_series(z: nat, term: nat, i: nat, acc: int) -> int
    decreases 11 - i,
{
    if 2 <= i <= 10 {
        let t = term * z / (ONE as nat);
        let next = if i % 2 == 0 {
            acc - (t / i) as int
        } else {
            acc + (t / i) as int
        };
        ln_series(z, t, i + 1, next)
    } else {
        acc
    }
}

/// The natural logarithm computed by `log` for a positive raw value `x`:
/// `x` is brought into `[ONE, 2 * ONE)` by powers of two `k`, and the result is
/// the ten-term series for `ln(1 + z)` plus `k * LN2`.
pub open spec fn spec_ln(x: nat) -> int {
    let down = ln_reduce_down(x, 0);
    let up = ln_reduce_up(down.0, down.1);
    let z = (up.0 - ONE) as nat;
    ln_series(z, z, 2, z as int) + up.1 * LN2
}

/// The terms `i..=10` of the series `1 + r + r^2/2! + ...` for `e^r`.
pub open spec fn exp_series(r: nat, term: nat, i: nat, acc: nat) -> nat
    decreases 11 - i,
{
    if 1 <= i <= 10 {
        let t = term * r / (ONE as nat) / i;
        exp_series(r, t, i + 1, acc + t)
    } else {
        acc
    }
}

/// `e^m` for `0 <= m <= MAX_EXP`: `m = k * LN2 + r`, and the result is the
/// series for `e^r` doubled `k` times.
pub open spec fn exp_of_magnitude(m: nat) -> nat {
    exp_series(m % (LN2 as nat), ONE as nat, 1, ONE as nat) * pow2(m / (LN2 as nat))
}

/// What `exp` returns for a raw signed exponent `x`: `None` above `MAX_EXP`,
/// zero below `-MAX_EXP`, and `ONE * ONE / e^|x|` for other negative `x`.
pub open spec fn spec_exp(x: int) -> Option<nat> {
    if x >= 0 {
        if x > MAX_EXP {
            None
        } else {
            Some(exp_of_magnitude(x as nat))
        }
    } else if -x > MAX_EXP {
        Some(0)
    } else {
        Some((ONE * ONE) as nat / exp_of_magnitude((-x) as nat))
    }
}

/// Signed product: the magnitudes multiply as in `spec_mul`, the signs combine.
pub open spec fn spec_smul(a: int, b: int) -> Option<int> {
    match spec_mul(abs(a), abs(b)) {
        Some(m) => Some(if (a < 0) != (b < 0) { -m } else { m as int }),
        None => None,
    }
}

/// Signed quotient: the magnitudes divide as in `spec_div`, the signs combine.
pub open spec fn spec_sdiv(a: int, b: int) -> Option<int> {
    match spec_div(abs(a), abs(b)) {
        Some(m) => Some(if (a < 0) != (b < 0) { -m } else { m as int }),
        None => None,
    }
}

pub open spec fn abs(a: int) -> nat {
    if a < 0 {
        (-a) as nat
    } else {
        a as nat
    }
}

/// `b^e` as `exp(e * log(b))`.
pub open spec fn spec_pow(b: nat, e: nat) -> Option<nat> {
    if b == 0 {
        None
    } else {
        match spec_smul(spec_ln(b), e as int) {
            Some(p) => spec_exp(p),
            None => None,
        }
    }
}

/// A non-negative decimal: `value / 10^18`.
#[derive(Clone, Copy, Debug, PartialEq, Eq, Structural)]
pub struct PreciseNumber {
    pub value: U256,
}

impl View for PreciseNumber {
    type V = nat;

    open spec fn view(&self) -> nat {
        self.value@
    }
}

impl PreciseNumber {
    /// The whole number `v`, scaled; it always fits.
    pub fn new(v: u128) -> (r: Option<PreciseNumber>)
        ensures
            r is Some,
            r->0@ == v * ONE,
    {
        assert(v * ONE < modulus()) by (nonlinear_arith)
            requires v < base(), ONE < base(), modulus() == base() * base();
        let value = U256::from_u128(v).checked_mul(&U256::from_u128(ONE));
        match value {
            Some(value) => Some(PreciseNumber { value }),
            None => None,
        }
    }

    /// A raw value, taken as it is.
    pub fn from_raw(v: u128) -> (r: PreciseNumber)
        ensures
            r@ == v,
    {
        PreciseNumber { value: U256::from_u128(v) }
    }

    pub fn zero() -> (r: PreciseNumber)
        ensures
            r@ == 0,
    {
        PreciseNumber { value: U256::zero() }
    }

    pub fn one() -> (r: PreciseNumber)
        ensures
            r@ == ONE,
    {
        PreciseNumber { value: U256::from_u128(ONE) }
    }

    pub fn is_zero(&self) -> (r: bool)
        ensures
            r == (self@ == 0),
    {
        self.value.is_zero()
    }

    pub fn less_than(&self, o: &PreciseNumber) -> (r: bool)
        ensures
            r == (self@ < o@),
    {
        self.value.lt(&o.value)
    }

    pub fn less_than_or_equal(&self, o: &PreciseNumber) -> (r: bool)
        ensures
            r == (self@ <= o@),
    {
        self.value.le(&o.value)
    }

    pub fn checked_add(&self, o: &PreciseNumber) -> (r: Option<PreciseNumber>)
        ensures
            r is Some <==> self@ + o@ < modulus(),
            r is Some ==> r->0@ == self@ + o@,
    {
        match self.value.checked_add(&o.value) {
            Some(value) => Some(PreciseNumber { value }),
            None => None,
        }
    }

    pub fn checked_sub(&self, o: &PreciseNumber) -> (r: Option<PreciseNumber>)
        ensures
            r is Some <==> self@ >= o@,
            r is Some ==> r->0@ == self@ - o@,
    {
        match self.value.checked_sub(&o.value) {
            Some(value) => Some(PreciseNumber { value }),
            None => None,
        }
    }

    pub fn checked_mul(&self, o: &PreciseNumber) -> (r: Option<PreciseNumber>)
        ensures
            r is Some <==> spec_mul(self@, o@) is Some,
            r is Some ==> r->0@ == spec_mul(self@, o@)->0,
    {
        match self.value.checked_mul(&o.value) {
            Some(p) => {
                let q = p.checked_div(&U256::from_u128(ONE)).unwrap();
                Some(PreciseNumber { value: q })
            },
            None => None,
        }
    }

    pub fn checked_div(&self, o: &PreciseNumber) -> (r: Option<PreciseNumber>)
        ensures
            r is Some <==> spec_div(self@, o@) is Some,
            r is Some ==> r->0@ == spec_div(self@, o@)->0,
    {
        if o.value.is_zero() {
            return None;
        }
        match self.value.checked_mul(&U256::from_u128(ONE)) {
            Some(p) => {
                let q = p.checked_div(&o.value).unwrap();
                Some(PreciseNumber { value: q })
            },
            None => None,
        }
    }

    /// The natural logarithm; `None` for zero.
    pub fn log(&self) -> (r: Option<SignedPreciseNumber>)
        ensures
            r is Some <==> self@ > 0,
            r is Some ==> r->0@ == spec_ln(self@) && r->0.wf(),
    {
        if self.value.is_zero() {
            return None;
        }
        proof {
            lemma_pow2_widths();
            vstd::arithmetic::power2::lemma2_to64();
            lemma_view_bounds(self.value);
        }
        let two = U256::from_u128(2 * ONE);
        let mut x = self.value;
        let mut k: i128 = 0;
        assert(x@ * pow2(0) == self@);
        while two.le(&x)
            invariant
                two@ == 2 * ONE,
                x@ > 0,
                0 <= k < 256,
                x@ * pow2(k as nat) <= self@,
                self@ < pow2(256),
                ln_reduce_down(x@, k as int) == ln_reduce_down(self@, 0),
            decreases x@,
        {
            proof {
                lemma_pow2_unfold((k + 1) as nat);
                assert((x@ / 2) * pow2((k + 1) as nat) <= x@ * pow2(k as nat)) by (nonlinear_arith)
                    requires pow2((k + 1) as nat) == 2 * pow2(k as nat);
                assert(x@ / 2 >= 1);
                assert(pow2((k + 1) as nat) <= self@) by (nonlinear_arith)
                    requires
                        (x@ / 2) * pow2((k + 1) as nat) <= self@,
                        x@ / 2 >= 1,
                ;
                if k + 1 >= 256 {
                    if k + 1 > 256 {
                        lemma_pow2_strictly_increases(256, (k + 1) as nat);
                    }
                }
            }
            x = x.half();
            k = k + 1;
        }
        let mut y: u128 = x.to_u128().unwrap();
        while y < ONE
            invariant
                0 < y < 2 * ONE,
                -(y as int) <= k < 256,
                ln_reduce_up(y as nat, k as int) == ln_reduce_up(
                    ln_reduce_down(self@, 0).0,
                    ln_reduce_down(self@, 0).1,
                ),
            decreases 2 * ONE - y,
        {
            y = y * 2;
            k = k - 1;
        }
        let z: u128 = y - ONE;
        let mut term: u128 = z;
        let mut series: i128 = z as i128;
        let mut i: u32 = 2;
        while i <= 10
            invariant
                2 <= i <= 11,
                z < ONE,
                term <= z,
                -(i as int) * ONE <= series <= i as int * ONE,
                ln_series(z as nat, term as nat, i as nat, series as int) == ln_series(
                    z as nat,
                    z as nat,
                    2,
                    z as int,
                ),
            decreases 11 - i,
        {
            assert(term * z <= z * ONE) by (nonlinear_arith)
                requires term <= z, z < ONE;
            assert((term * z) as int / (ONE as int) <= z) by (nonlinear_arith)
                requires term * z <= z * ONE;
            term = term * z / ONE;
            let step = (term / (i as u128)) as i128;
            if i % 2 == 0 {
                series = series - step;
            } else {
                series = series + step;
            }
            i = i + 1;
        }
        let result = series + k * (LN2 as i128);
        Some(SignedPreciseNumber::from_i128(result))
    }

    /// `self^e`, as `exp(e * log(self))`; `None` for a zero base or on overflow.
    pub fn pow(&self, e: &PreciseNumber) -> (r: Option<PreciseNumber>)
        ensures
            r is Some <==> spec_pow(self@, e@) is Some,
            r is Some ==> r->0@ == spec_pow(self@, e@)->0,
    {
        let l = match self.log() {
            Some(l) => l,
            None => return None,
        };
        match l.checked_mul(&e.signed()) {
            Some(p) => p.exp(),
            None => None,
        }
    }

    /// The same value with a non-negative sign.
    pub fn signed(&self) -> (r: SignedPreciseNumber)
        ensures
            r@ == self@ as int,
            r.wf(),
            r.value == *self,
    {
        SignedPreciseNumber { value: *self, is_negative: false }
    }

    /// `x` whole units of a token with `decimals` decimals, at this scale:
    /// `x * 10^(18 - decimals)`.
    pub fn precise_supply_amt(x: u64, decimals: u8) -> (r: PreciseNumber)
        requires
            decimals <= 18,
        ensures
            r@ == x * pow10((18 - decimals) as nat),
    {
        let n: u8 = 18 - decimals;
        let mut acc: u128 = x as u128;
        let mut i: u8 = 0;
        proof {
            lemma_pow10_bounds(n as nat);
            assert(pow10(0) == 1);
        }
        while i < n
            invariant
                i <= n <= 18,
                acc == x * pow10(i as nat),
                pow10(n as nat) <= ONE,
            decreases n - i,
        {
            proof {
                lemma_pow10_monotonic((i + 1) as nat, n as nat);
                assert(pow10((i + 1) as nat) == 10 * pow10(i as nat));
                assert(x * pow10((i + 1) as nat) <= u64::MAX * ONE) by (nonlinear_arith)
                    requires x <= u64::MAX, pow10((i + 1) as nat) <= ONE;
                assert(acc * 10 == x * pow10((i + 1) as nat)) by (nonlinear_arith)
                    requires
                        acc == x * pow10(i as nat),
                        pow10((i + 1) as nat) == 10 * pow10(i as nat),
                ;
            }
            acc = acc * 10;
            i = i + 1;
        }
        PreciseNumber { value: U256::from_u128(acc) }
    }
}

/// `10^n`.
pub open spec fn pow10(n: nat) -> nat
    decreases n,
{
    if n == 0 {
        1
    } else {
        10 * pow10((n - 1) as nat)
    }
}

proof fn lemma_pow10_monotonic(a: nat, b: nat)
    requires
        a <= b,
    ensures
        1 <= pow10(a) <= pow10(b),
    decreases b,
{
    if b > a {
        lemma_pow10_monotonic(a, (b - 1) as nat);
    } else if a > 0 {
        lemma_pow10_monotonic((a - 1) as nat, (a - 1) as nat);
    }
}

proof fn lemma_pow10_bounds(n: nat)
    requires
        n <= 18,
    ensures
        pow10(n) <= ONE,
{
    lemma_pow10_monotonic(n, 18);
    reveal_with_fuel(pow10, 19);
}

} // verus!
