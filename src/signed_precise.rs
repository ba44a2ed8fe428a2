//! Signed fixed-point decimals: a `PreciseNumber` magnitude and a sign flag.
use vstd::prelude::*;
use vstd::arithmetic::power2::{lemma_pow2_pos, lemma_pow2_strictly_increases, lemma_pow2_unfold, pow2};
use crate::precise_number::{
    abs, exp_of_magnitude, exp_series, spec_exp, spec_sdiv, spec_smul, PreciseNumber, LN2,
    MAX_EXP, ONE,
};
use crate::wide::{lemma_pow2_widths, lemma_view_bounds, modulus, U256};

verus! {

/// `(-1)^is_negative * value`; zero carries no sign.
#[derive(Clone, Copy, Debug, PartialEq, Eq, Structural)]
pub struct SignedPreciseNumber {
    pub value: PreciseNumber,
    pub is_negative: bool,
}

impl View for SignedPreciseNumber {
    type V = int;

    open spec fn view(&self) -> int {
        if self.is_negative {
            -(self.value@ as int)
        } else {
            self.value@ as int
        }
    }
}

impl SignedPreciseNumber {
    /// Zero is never marked negative.
    pub open spec fn wf(&self) -> bool {
        self.value@ == 0 ==> !self.is_negative
    }

    /// A magnitude and a sign; the sign of a zero magnitude is dropped.
    pub fn from_parts(value: PreciseNumber, is_negative: bool) -> (r: SignedPreciseNumber)
        ensures
            r.wf(),
            r.value == value,
            r@ == (if is_negative { -(value@ as int) } else { value@ as int }),
    {
        let is_negative = is_negative && !value.is_zero();
        SignedPreciseNumber { value, is_negative }
    }

    /// A raw signed value.
    pub fn from_i128(v: i128) -> (r: SignedPreciseNumber)
        requires
            v > i128::MIN,
        ensures
            r.wf(),
            r@ == v,
    {
        if v < 0 {
            Self::from_parts(PreciseNumber::from_raw((-v) as u128), true)
        } else {
            Self::from_parts(PreciseNumber::from_raw(v as u128), false)
        }
    }

    pub fn negate(&self) -> (r: SignedPreciseNumber)
        ensures
            r.wf(),
            r@ == -self@,
    {
        Self::from_parts(self.value, !self.is_negative)
    }

    pub fn checked_add(&self, o: &SignedPreciseNumber) -> (r: Option<SignedPreciseNumber>)
        ensures
            r is Some <==> abs(self@ + o@) < modulus(),
            r is Some ==> r->0@ == self@ + o@ && r->0.wf(),
    {
        proof {
            lemma_view_bounds(self.value.value);
            lemma_view_bounds(o.value.value);
        }
        if self.is_negative == o.is_negative {
            match self.value.checked_add(&o.value) {
                Some(v) => Some(Self::from_parts(v, self.is_negative)),
                None => None,
            }
        } else if o.value.less_than_or_equal(&self.value) {
            let v = self.value.checked_sub(&o.value).unwrap();
            Some(Self::from_parts(v, self.is_negative))
        } else {
            let v = o.value.checked_sub(&self.value).unwrap();
            Some(Self::from_parts(v, o.is_negative))
        }
    }

    pub fn checked_sub(&self, o: &SignedPreciseNumber) -> (r: Option<SignedPreciseNumber>)
        ensures
            r is Some <==> abs(self@ - o@) < modulus(),
            r is Some ==> r->0@ == self@ - o@ && r->0.wf(),
    {
        self.checked_add(&o.negate())
    }

    pub fn checked_mul(&self, o: &SignedPreciseNumber) -> (r: Option<SignedPreciseNumber>)
        ensures
            r is Some <==> spec_smul(self@, o@) is Some,
            r is Some ==> r->0@ == spec_smul(self@, o@)->0 && r->0.wf(),
    {
        match self.value.checked_mul(&o.value) {
            Some(v) => Some(Self::from_parts(v, self.is_negative != o.is_negative)),
            None => None,
        }
    }

    pub fn checked_div(&self, o: &SignedPreciseNumber) -> (r: Option<SignedPreciseNumber>)
        ensures
            r is Some <==> spec_sdiv(self@, o@) is Some,
            r is Some ==> r->0@ == spec_sdiv(self@, o@)->0 && r->0.wf(),
    {
        match self.value.checked_div(&o.value) {
            Some(v) => Some(Self::from_parts(v, self.is_negative != o.is_negative)),
            None => None,
        }
    }

    /// `e^self`: `None` above `MAX_EXP`, zero below `-MAX_EXP`.
    pub fn exp(&self) -> (r: Option<PreciseNumber>)
        ensures
            r is Some <==> spec_exp(self@) is Some,
            r is Some ==> r->0@ == spec_exp(self@)->0,
    {
        let bound = U256::from_u128(MAX_EXP);
        if !self.value.value.le(&bound) {
            if self.is_negative {
                return Some(PreciseNumber::zero());
            } else {
                return None;
            }
        }
        let m = self.value.value.to_u128().unwrap();
        let pos = exp_magnitude(m);
        if self.is_negative && m != 0 {
            let unit = U256::from_u128(ONE * ONE);
            let q = unit.checked_div(&pos.value).unwrap();
            Some(PreciseNumber { value: q })
        } else {
            Some(pos)
        }
    }
}

/// `e^m` for a raw magnitude `m <= MAX_EXP`.
fn exp_magnitude(m: u128) -> (r: PreciseNumber)
    requires
        m <= MAX_EXP,
    ensures
        r@ == exp_of_magnitude(m as nat),
        r@ >= ONE,
{
    let k = m / LN2;
    let rest = m % LN2;
    let mut term: u128 = ONE;
    let mut sum: u128 = ONE;
    let mut i: u128 = 1;
    while i <= 10
        invariant
            1 <= i <= 11,
            rest < LN2,
            term <= ONE,
            ONE <= sum <= i * ONE,
            exp_series(rest as nat, term as nat, i as nat, sum as nat) == exp_series(
                rest as nat,
                ONE as nat,
                1,
                ONE as nat,
            ),
        decreases 11 - i,
    {
        assert(term * rest <= ONE * ONE) by (nonlinear_arith)
            requires term <= ONE, rest < LN2, LN2 < ONE;
        assert((term * rest) as int / (ONE as int) <= ONE) by (nonlinear_arith)
            requires term * rest <= ONE * ONE;
        term = term * rest / ONE / i;
        sum = sum + term;
        i = i + 1;
    }
    proof {
        lemma_pow2_widths();
        vstd::arithmetic::power2::lemma2_to64();
    }
    assert(k <= 127);
    let mut acc = U256::from_u128(sum);
    let mut j: u128 = 0;
    while j < k
        invariant
            j <= k <= 127,
            sum <= 11 * ONE,
            acc@ == sum * pow2(j as nat),
            pow2(256) == modulus(),
            pow2(0) == 1,
        decreases k - j,
    {
        proof {
            lemma_pow2_unfold((j + 1) as nat);
            lemma_pow2_strictly_increases((j + 1) as nat, 128);
            lemma_pow2_strictly_increases(192, 256);
            vstd::arithmetic::power2::lemma_pow2_adds(64, 128);
            vstd::arithmetic::power2::lemma2_to64_rest();
            assert(sum * pow2((j + 1) as nat) < modulus()) by (nonlinear_arith)
                requires
                    sum <= 11 * ONE,
                    pow2((j + 1) as nat) < pow2(128),
                    pow2(64) * pow2(128) == pow2(192),
                    pow2(192) < pow2(256),
                    pow2(64) == 0x10000000000000000,
                    pow2(256) == modulus(),
            ;
        }
        assert(acc@ + acc@ == sum * pow2((j + 1) as nat)) by (nonlinear_arith)
            requires
                acc@ == sum * pow2(j as nat),
                pow2((j + 1) as nat) == 2 * pow2(j as nat),
        ;
        acc = acc.checked_add(&acc).unwrap();
        j = j + 1;
    }
    proof {
        lemma_pow2_pos(k as nat);
        assert(sum * pow2(k as nat) >= ONE) by (nonlinear_arith)
            requires sum >= ONE, pow2(k as nat) >= 1;
    }
    PreciseNumber { value: acc }
}

} // verus!
