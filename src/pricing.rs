//! The stages of the closed-form VRGDA cost, each an exact function of its inputs.
use vstd::prelude::*;
use crate::error::{VRGDAError, VrgdaResult};
use crate::precise_number::{
    spec_div, spec_exp, spec_ln, spec_mul, spec_pow, spec_smul, PreciseNumber, ONE,
};
use crate::signed_precise::SignedPreciseNumber;
use crate::wide::{base, lemma_view_bounds, modulus};

verus! {

pub open spec fn precise_res(r: VrgdaResult<PreciseNumber>) -> Result<nat, VRGDAError> {
    match r {
        Ok(p) => Ok(p@),
        Err(e) => Err(e),
    }
}

pub open spec fn signed_res(r: VrgdaResult<SignedPreciseNumber>) -> Result<int, VRGDAError> {
    match r {
        Ok(p) => Ok(p@),
        Err(e) => Err(e),
    }
}

/// `ln(1 - k)` for `k = d / 100`; it must come out negative.
pub open spec fn spec_ln_one_minus_k(d: nat) -> Result<int, VRGDAError> {
    let k = (d * ONE) as int / 100;
    if k > ONE {
        Err(VRGDAError::OneMinusKError)
    } else if k == ONE {
        Err(VRGDAError::LogError)
    } else if spec_ln((ONE - k) as nat) >= 0 {
        Err(VRGDAError::LogError)
    } else {
        Ok(spec_ln((ONE - k) as nat))
    }
}

/// Price of the next unit: `p0 * exp(ln(1 - k) * deviation)`.
pub open spec fn spec_first_unit_price(p0: nat, ln1k: int, deviation: int) -> Result<
    nat,
    VRGDAError,
> {
    match spec_smul(ln1k, deviation) {
        None => Err(VRGDAError::ExponentError),
        Some(x) => match spec_exp(x) {
            None => Err(VRGDAError::ExponentTooLarge),
            Some(m) => match spec_mul(p0, m) {
                None => Err(VRGDAError::MathOverflow),
                Some(p) => Ok(p),
            },
        },
    }
}

/// Per-unit ratio `q = exp(-ln(1 - k) / r)`.
pub open spec fn spec_unit_ratio(ln1k: int, r: nat) -> Result<nat, VRGDAError> {
    match spec_smul(-ln1k, (ONE as int) / (r as int)) {
        None => Err(VRGDAError::ExponentError),
        Some(x) => match spec_exp(x) {
            None => Err(VRGDAError::ExponentTooLarge),
            Some(q) => Ok(q),
        },
    }
}

/// `p * (q^m - 1) / (q - 1)`, the sum of `m` terms from `p` with ratio `q`.
pub open spec fn spec_geometric_sum(p: nat, q: nat, m: nat) -> Result<nat, VRGDAError> {
    match spec_pow(q, (m * ONE) as nat) {
        None => Err(VRGDAError::ExponentTooLarge),
        Some(qm) => if qm < ONE || q < ONE {
            Err(VRGDAError::MathOverflow)
        } else {
            match spec_mul(p, (qm - ONE) as nat) {
                None => Err(VRGDAError::MathOverflow),
                Some(num) => match spec_div(num, (q - ONE) as nat) {
                    None => Err(VRGDAError::DivisionError),
                    Some(t) => Ok(t),
                },
            }
        },
    }
}

/// Deviation of `elapsed` (whole time units) from the target sale time `n / r`, scaled.
pub open spec fn spec_deviation(elapsed: nat, n: nat, r: nat) -> int {
    elapsed * ONE - (n * ONE) as int / (r as int)
}

/// Closed-form cost of `m` units when the next one is the `n`-th of the schedule,
/// `elapsed` units of time after the start.
pub open spec fn spec_closed_form(p0: nat, d: nat, r: nat, elapsed: nat, n: nat, m: nat) -> Result<
    nat,
    VRGDAError,
> {
    match spec_ln_one_minus_k(d) {
        Err(e) => Err(e),
        Ok(ln1k) => match spec_first_unit_price(p0, ln1k, spec_deviation(elapsed, n, r)) {
            Err(e) => Err(e),
            Ok(p) => match spec_unit_ratio(ln1k, r) {
                Err(e) => Err(e),
                Ok(q) => spec_geometric_sum(p, q, m),
            },
        },
    }
}

/// Target sale time `n / r` of the `n`-th unit, scaled.
pub fn target_sale_time(n: u128, r: u64) -> (t: PreciseNumber)
    requires
        r > 0,
        n <= u64::MAX + 1,
    ensures
        t@ == (n * ONE) as int / (r as int),
{
    assert(n * ONE < base()) by (nonlinear_arith)
        requires n <= u64::MAX + 1, base() == u128::MAX + 1;
    assert(base() <= modulus()) by (nonlinear_arith)
        requires modulus() == base() * base(), base() > 0;
    PreciseNumber::from_raw(n).checked_div(&PreciseNumber::from_raw(r as u128)).unwrap()
}

/// `elapsed` less the target sale time of token `n`, scaled.
pub fn deviation_from_schedule(elapsed: u64, n: u128, r: u64) -> (d: SignedPreciseNumber)
    requires
        r > 0,
        n <= u64::MAX + 1,
    ensures
        d@ == spec_deviation(elapsed as nat, n as nat, r as nat),
        d.wf(),
{
    let elapsed_wad = PreciseNumber::new(elapsed as u128).unwrap();
    let f_inv = target_sale_time(n, r);
    proof {
        lemma_view_bounds(elapsed_wad.value);
        lemma_view_bounds(f_inv.value);
    }
    elapsed_wad.signed().checked_sub(&f_inv.signed()).unwrap()
}

pub fn ln_one_minus_k(d: u64) -> (r: VrgdaResult<SignedPreciseNumber>)
    ensures
        signed_res(r) == spec_ln_one_minus_k(d as nat),
        r matches Ok(l) ==> l.wf(),
{
    let k: u128 = (d as u128) * ONE / 100;
    if k > ONE {
        return Err(VRGDAError::OneMinusKError);
    }
    let one_minus_k = PreciseNumber::from_raw(ONE - k);
    let ln1k = match one_minus_k.log() {
        Some(l) => l,
        None => return Err(VRGDAError::LogError),
    };
    if !ln1k.is_negative {
        return Err(VRGDAError::LogError);
    }
    Ok(ln1k)
}

pub fn first_unit_price(p0: &PreciseNumber, ln1k: &SignedPreciseNumber, deviation: &SignedPreciseNumber) -> (r: VrgdaResult<PreciseNumber>)
    ensures
        precise_res(r) == spec_first_unit_price(p0@, ln1k@, deviation@),
{
    let x = match ln1k.checked_mul(deviation) {
        Some(x) => x,
        None => return Err(VRGDAError::ExponentError),
    };
    let m = match x.exp() {
        Some(m) => m,
        None => return Err(VRGDAError::ExponentTooLarge),
    };
    match p0.checked_mul(&m) {
        Some(p) => Ok(p),
        None => Err(VRGDAError::MathOverflow),
    }
}

pub fn unit_ratio(ln1k: &SignedPreciseNumber, r: u64) -> (q: VrgdaResult<PreciseNumber>)
    requires
        r > 0,
    ensures
        precise_res(q) == spec_unit_ratio(ln1k@, r as nat),
{
    let inv_r = PreciseNumber::from_raw(ONE / (r as u128)).signed();
    let x = match ln1k.negate().checked_mul(&inv_r) {
        Some(x) => x,
        None => return Err(VRGDAError::ExponentError),
    };
    match x.exp() {
        Some(q) => Ok(q),
        None => Err(VRGDAError::ExponentTooLarge),
    }
}

pub fn geometric_sum(p: &PreciseNumber, q: &PreciseNumber, m: u64) -> (t: VrgdaResult<PreciseNumber>)
    ensures
        precise_res(t) == spec_geometric_sum(p@, q@, m as nat),
{
    let one = PreciseNumber::one();
    let count = PreciseNumber::new(m as u128).unwrap();
    let qm = match q.pow(&count) {
        Some(qm) => qm,
        None => return Err(VRGDAError::ExponentTooLarge),
    };
    let qm1 = match qm.checked_sub(&one) {
        Some(v) => v,
        None => return Err(VRGDAError::MathOverflow),
    };
    let q1 = match q.checked_sub(&one) {
        Some(v) => v,
        None => return Err(VRGDAError::MathOverflow),
    };
    let num = match p.checked_mul(&qm1) {
        Some(v) => v,
        None => return Err(VRGDAError::MathOverflow),
    };
    match num.checked_div(&q1) {
        Some(t) => Ok(t),
        None => Err(VRGDAError::DivisionError),
    }
}

/// The closed-form cost of `m` units, `n` being the ordinal whose target time is compared
/// with `elapsed`.
pub fn closed_form_cost(p0: u128, d: u64, r: u64, elapsed: u64, n: u128, m: u64) -> (t: VrgdaResult<PreciseNumber>)
    requires
        r > 0,
        n <= u64::MAX + 1,
    ensures
        precise_res(t) == spec_closed_form(p0 as nat, d as nat, r as nat, elapsed as nat, n as nat, m as nat),
{
    let deviation = deviation_from_schedule(elapsed, n, r);
    let ln1k = match ln_one_minus_k(d) {
        Ok(l) => l,
        Err(e) => return Err(e),
    };
    let p = match first_unit_price(&PreciseNumber::from_raw(p0), &ln1k, &deviation) {
        Ok(p) => p,
        Err(e) => return Err(e),
    };
    let q = match unit_ratio(&ln1k, r) {
        Ok(q) => q,
        Err(e) => return Err(e),
    };
    geometric_sum(&p, &q, m)
}

} // verus!
