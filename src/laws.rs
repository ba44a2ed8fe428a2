//! Properties of the pricing that hold for all inputs.
use vstd::prelude::*;
use vstd::arithmetic::div_mod::{lemma_div_is_ordered, lemma_div_is_ordered_by_denominator, lemma_fundamental_div_mod};
use vstd::arithmetic::mul::lemma_mul_inequality;
use vstd::arithmetic::power2::{lemma_pow2_pos, lemma_pow2_strictly_increases, lemma_pow2_unfold, pow2};
use crate::precise_number::{
    exp_of_magnitude, exp_series, ln_reduce_down, ln_reduce_up, ln_series, spec_div, spec_exp,
    spec_ln, spec_mul, spec_pow, spec_smul, LN2, MAX_EXP, ONE,
};
use crate::pricing::spec_geometric_sum;
use crate::state::{
    spec_chunked_sum, spec_next_ordinal, spec_vrgda_price, spec_price_for_amount, spec_price_for_amount_v1, VRGDA,
};

verus! {

proof fn lemma_reduce_down_stays_above_one(x: nat, k: int)
    requires
        x >= ONE,
    ensures
        ln_reduce_down(x, k).0 >= ONE,
        ln_reduce_down(x, k).1 >= k,
    decreases x,
{
    if x >= 2 * ONE {
        lemma_reduce_down_stays_above_one(x / 2, k + 1);
    }
}

/// The series for `ln(1 + z)` loses at most its previous term: pairing each
/// subtracted term with the larger term added before it.
proof fn lemma_ln_series_lower(z: nat, term: nat, i: nat, acc: int)
    requires
        z <= ONE,
        2 <= i <= 10,
        i % 2 == 0,
    ensures
        ln_series(z, term, i, acc) >= acc - (term / ((i - 1) as nat)) as int,
    decreases 11 - i,
{
    let t = term * z / (ONE as nat);
    assert(term * z <= term * ONE) by (nonlinear_arith)
        requires z <= ONE;
    lemma_div_is_ordered((term * z) as int, (term * ONE) as int, ONE as int);
    assert((term * ONE) as int / (ONE as int) == term) by (nonlinear_arith);
    assert(t <= term);
    lemma_div_is_ordered(t as int, term as int, i as int);
    lemma_div_is_ordered_by_denominator(term as int, (i - 1) as int, i as int);
    assert(t / i <= term / ((i - 1) as nat));
    let a1 = acc - (t / i) as int;
    if i == 10 {
        assert(ln_series(z, t, 11, a1) == a1);
    } else {
        let t2 = t * z / (ONE as nat);
        let a2 = a1 + (t2 / (i + 1)) as int;
        assert(ln_series(z, t, i + 1, a1) == ln_series(z, t2, i + 2, a2));
        lemma_ln_series_lower(z, t2, i + 2, a2);
    }
}

/// The logarithm of a value of at least one is not negative.
pub proof fn lemma_ln_nonnegative(x: nat)
    requires
        x >= ONE,
    ensures
        spec_ln(x) >= 0,
{
    lemma_reduce_down_stays_above_one(x, 0);
    let down = ln_reduce_down(x, 0);
    assert(ln_reduce_down(x, 0).0 < 2 * ONE) by {
        lemma_reduce_down_below_two(x, 0);
    }
    assert(ln_reduce_up(down.0, down.1) == down);
    let z = (down.0 - ONE) as nat;
    lemma_ln_series_lower(z, z, 2, z as int);
    assert(z / 1nat == z);
}

proof fn lemma_reduce_down_below_two(x: nat, k: int)
    ensures
        ln_reduce_down(x, k).0 < 2 * ONE,
    decreases x,
{
    if x >= 2 * ONE {
        lemma_reduce_down_below_two(x / 2, k + 1);
    }
}

proof fn lemma_exp_series_monotone(r1: nat, r2: nat, t1: nat, t2: nat, i: nat, a1: nat, a2: nat)
    requires
        r1 <= r2,
        t1 <= t2,
        a1 <= a2,
    ensures
        exp_series(r1, t1, i, a1) <= exp_series(r2, t2, i, a2),
        exp_series(r1, t1, i, a1) >= a1,
    decreases 11 - i,
{
    if 1 <= i <= 10 {
        lemma_mul_inequality(t1 as int, t2 as int, r1 as int);
        lemma_mul_inequality(r1 as int, r2 as int, t2 as int);
        assert(t1 * r1 <= t2 * r2) by (nonlinear_arith)
            requires t1 * r1 <= t2 * r1, r1 * t2 <= r2 * t2;
        lemma_div_is_ordered((t1 * r1) as int, (t2 * r2) as int, ONE as int);
        lemma_div_is_ordered(
            ((t1 * r1) as int / (ONE as int)),
            ((t2 * r2) as int / (ONE as int)),
            i as int,
        );
        let n1 = t1 * r1 / (ONE as nat) / i;
        let n2 = t2 * r2 / (ONE as nat) / i;
        lemma_exp_series_monotone(r1, r2, n1, n2, i + 1, a1 + n1, a2 + n2);
    }
}

/// The series for `e^r` stays below 2.0 below `ln(2)`.
proof fn lemma_exp_series_below_two(r: nat)
    requires
        r <= LN2,
    ensures
        exp_series(r, ONE as nat, 1, ONE as nat) <= 2 * ONE,
{
    lemma_exp_series_monotone(r, LN2 as nat, ONE as nat, ONE as nat, 1, ONE as nat, ONE as nat);
    let l = LN2 as nat;
    assert(exp_series(l, 1000000000000000000, 1, 1000000000000000000) == exp_series(l, 693147180559945309, 2, 1693147180559945309));
    assert(exp_series(l, 693147180559945309, 2, 1693147180559945309) == exp_series(l, 240226506959100712, 3, 1933373687519046021));
    assert(exp_series(l, 240226506959100712, 3, 1933373687519046021) == exp_series(l, 55504108664821579, 4, 1988877796183867600));
    assert(exp_series(l, 55504108664821579, 4, 1988877796183867600) == exp_series(l, 9618129107628476, 5, 1998495925291496076));
    assert(exp_series(l, 9618129107628476, 5, 1998495925291496076) == exp_series(l, 1333355814642844, 6, 1999829281106138920));
    assert(exp_series(l, 1333355814642844, 6, 1999829281106138920) == exp_series(l, 154035303933816, 7, 1999983316410072736));
    assert(exp_series(l, 154035303933816, 7, 1999983316410072736) == exp_series(l, 15252733804059, 8, 1999998569143876795));
    assert(exp_series(l, 15252733804059, 8, 1999998569143876795) == exp_series(l, 1321548679014, 9, 1999999890692555809));
    assert(exp_series(l, 1321548679014, 9, 1999999890692555809) == exp_series(l, 101780860092, 10, 1999999992473415901));
    assert(exp_series(l, 101780860092, 10, 1999999992473415901) == exp_series(l, 7054911620, 11, 1999999999528327521));
    assert(exp_series(l, 7054911620, 11, 1999999999528327521) == 1999999999528327521);
}

/// `exp` does not decrease on non-negative exponents.
pub proof fn lemma_exp_monotone(x1: nat, x2: nat)
    requires
        x1 <= x2,
    ensures
        exp_of_magnitude(x1) <= exp_of_magnitude(x2),
{
    let l = LN2 as nat;
    let k1 = x1 / l;
    let k2 = x2 / l;
    let r1 = x1 % l;
    let r2 = x2 % l;
    lemma_div_is_ordered(x1 as int, x2 as int, l as int);
    lemma_fundamental_div_mod(x1 as int, l as int);
    lemma_fundamental_div_mod(x2 as int, l as int);
    let s1 = exp_series(r1, ONE as nat, 1, ONE as nat);
    let s2 = exp_series(r2, ONE as nat, 1, ONE as nat);
    lemma_pow2_pos(k1);
    lemma_pow2_pos(k2);
    if k1 == k2 {
        assert(r1 <= r2);
        lemma_exp_series_monotone(r1, r2, ONE as nat, ONE as nat, 1, ONE as nat, ONE as nat);
        lemma_mul_inequality(s1 as int, s2 as int, pow2(k1) as int);
    } else {
        lemma_exp_series_below_two(r1);
        lemma_exp_series_monotone(0, r2, ONE as nat, ONE as nat, 1, ONE as nat, ONE as nat);
        lemma_pow2_unfold(k1 + 1);
        if k1 + 1 < k2 {
            lemma_pow2_strictly_increases(k1 + 1, k2);
        }
        assert(s1 * pow2(k1) <= s2 * pow2(k2)) by (nonlinear_arith)
            requires
                s1 <= 2 * ONE,
                s2 >= ONE,
                pow2(k1 + 1) == 2 * pow2(k1),
                pow2(k1 + 1) <= pow2(k2),
                pow2(k1) > 0,
        ;
    }
}

/// `q^e` does not decrease in `e` for a base of at least one.
pub proof fn lemma_pow_monotone(q: nat, e1: nat, e2: nat)
    requires
        q >= ONE,
        e1 <= e2,
        spec_pow(q, e1) is Some,
        spec_pow(q, e2) is Some,
    ensures
        spec_pow(q, e1)->0 <= spec_pow(q, e2)->0,
{
    let l = spec_ln(q);
    lemma_ln_nonnegative(q);
    lemma_mul_inequality(e1 as int, e2 as int, l);
    assert(l * e1 <= l * e2) by (nonlinear_arith)
        requires e1 * l <= e2 * l;
    lemma_div_is_ordered(l * e1, l * e2, ONE as int);
    let x1 = (l * e1) / (ONE as int);
    let x2 = (l * e2) / (ONE as int);
    assert(spec_smul(l, e1 as int) == Some(x1));
    assert(spec_smul(l, e2 as int) == Some(x2));
    assert(x1 >= 0) by (nonlinear_arith)
        requires l >= 0, x1 == (l * e1) / (ONE as int);
    lemma_exp_monotone(x1 as nat, x2 as nat);
}

/// `e^m` is at least one for a non-negative exponent.
proof fn lemma_exp_at_least_one(m: nat)
    ensures
        exp_of_magnitude(m) >= ONE,
{
    let l = LN2 as nat;
    lemma_exp_series_monotone(m % l, m % l, ONE as nat, ONE as nat, 1, ONE as nat, ONE as nat);
    lemma_pow2_pos(m / l);
    let s = exp_series(m % l, ONE as nat, 1, ONE as nat);
    assert(s * pow2(m / l) >= ONE) by (nonlinear_arith)
        requires s >= ONE, pow2(m / l) >= 1;
}

/// `exp` does not decrease, over the whole range where it returns a value.
pub proof fn lemma_signed_exp_monotone(x1: int, x2: int)
    requires
        x1 <= x2,
        spec_exp(x1) is Some,
        spec_exp(x2) is Some,
    ensures
        spec_exp(x1)->0 <= spec_exp(x2)->0,
{
    let u = (ONE * ONE) as nat;
    if x1 >= 0 {
        lemma_exp_monotone(x1 as nat, x2 as nat);
    } else if -x1 > MAX_EXP {
    } else if x2 < 0 {
        lemma_exp_monotone((-x2) as nat, (-x1) as nat);
        lemma_exp_at_least_one((-x2) as nat);
        lemma_div_is_ordered_by_denominator(
            u as int,
            exp_of_magnitude((-x2) as nat) as int,
            exp_of_magnitude((-x1) as nat) as int,
        );
    } else {
        lemma_exp_at_least_one((-x1) as nat);
        lemma_exp_at_least_one(x2 as nat);
        lemma_div_is_ordered_by_denominator(u as int, ONE as int, exp_of_magnitude((-x1) as nat) as int);
        assert(u as int / (ONE as int) == ONE);
    }
}

/// With a negative first factor, the signed product does not increase in the second.
proof fn lemma_smul_antitone(a: int, b1: int, b2: int)
    requires
        a < 0,
        b2 <= b1,
        spec_smul(a, b1) is Some,
        spec_smul(a, b2) is Some,
    ensures
        spec_smul(a, b1)->0 <= spec_smul(a, b2)->0,
{
    let m = (-a) as nat;
    if b2 >= 0 {
        lemma_mul_inequality(b2, b1, m as int);
        assert(m * b2 <= m * b1) by (nonlinear_arith)
            requires b2 * m <= b1 * m;
        lemma_div_is_ordered(m * b2, m * b1, ONE as int);
    } else if b1 < 0 {
        lemma_mul_inequality(-b1, -b2, m as int);
        assert(m * (-b1) <= m * (-b2)) by (nonlinear_arith)
            requires (-b1) * m <= (-b2) * m;
        lemma_div_is_ordered(m * (-b1), m * (-b2), ONE as int);
    } else {
        assert(m * b1 >= 0 && m * (-b2) >= 0) by (nonlinear_arith)
            requires b1 >= 0, b2 < 0;
    }
}

/// The price of the next unit does not decrease as the deviation from the schedule
/// shrinks.
pub proof fn lemma_first_unit_price_antitone(p0: nat, ln1k: int, dev1: int, dev2: int)
    requires
        ln1k < 0,
        dev2 <= dev1,
        crate::pricing::spec_first_unit_price(p0, ln1k, dev1) is Ok,
        crate::pricing::spec_first_unit_price(p0, ln1k, dev2) is Ok,
    ensures
        crate::pricing::spec_first_unit_price(p0, ln1k, dev1)->Ok_0
            <= crate::pricing::spec_first_unit_price(p0, ln1k, dev2)->Ok_0,
{
    lemma_smul_antitone(ln1k, dev1, dev2);
    let x1 = spec_smul(ln1k, dev1)->0;
    let x2 = spec_smul(ln1k, dev2)->0;
    lemma_signed_exp_monotone(x1, x2);
    let e1 = spec_exp(x1)->0;
    let e2 = spec_exp(x2)->0;
    lemma_mul_inequality(e1 as int, e2 as int, p0 as int);
    assert(p0 * e1 <= p0 * e2) by (nonlinear_arith)
        requires e1 * p0 <= e2 * p0;
    lemma_div_is_ordered((p0 * e1) as int, (p0 * e2) as int, ONE as int);
}

/// The closed-form sum of a geometric series does not decrease with its length or
/// with its first term.
pub proof fn lemma_geometric_sum_monotone(p1: nat, p2: nat, q: nat, m1: nat, m2: nat)
    requires
        p1 <= p2,
        m1 <= m2,
        spec_geometric_sum(p1, q, m1) is Ok,
        spec_geometric_sum(p2, q, m2) is Ok,
    ensures
        spec_geometric_sum(p1, q, m1)->Ok_0 <= spec_geometric_sum(p2, q, m2)->Ok_0,
{
    let e1 = m1 * ONE;
    let e2 = m2 * ONE;
    lemma_mul_inequality(m1 as int, m2 as int, ONE as int);
    lemma_pow_monotone(q, e1 as nat, e2 as nat);
    let qm1 = spec_pow(q, e1 as nat)->0;
    let qm2 = spec_pow(q, e2 as nat)->0;
    let d1 = (qm1 - ONE) as nat;
    let d2 = (qm2 - ONE) as nat;
    assert(p1 * d1 <= p2 * d2) by (nonlinear_arith)
        requires p1 <= p2, d1 <= d2;
    lemma_div_is_ordered((p1 * d1) as int, (p2 * d2) as int, ONE as int);
    let n1 = spec_mul(p1, d1)->0;
    let n2 = spec_mul(p2, d2)->0;
    lemma_mul_inequality(n1 as int, n2 as int, ONE as int);
    lemma_div_is_ordered((n1 * ONE) as int, (n2 * ONE) as int, (q - ONE) as int);
}

/// Buying more tokens never costs less: for the same record, time and tokens sold,
/// the cost does not decrease with the amount, wherever both costs can be computed.
pub proof fn lemma_price_monotone_in_amount(v: VRGDA, now: i64, sold: u64, a1: u64, a2: u64)
    requires
        a1 <= a2,
        spec_price_for_amount(v, now, sold, a1) is Ok,
        spec_price_for_amount(v, now, sold, a2) is Ok,
    ensures
        spec_price_for_amount(v, now, sold, a1)->Ok_0 <= spec_price_for_amount(
            v,
            now,
            sold,
            a2,
        )->Ok_0,
{
    let r = v.schedule.rate() as nat;
    let elapsed = (now - v.vrgda_start_timestamp) as nat;
    let m1 = a1 as nat;
    let m2 = a2 as nat;
    let n1 = spec_next_ordinal(elapsed, r, sold as nat, a1 as nat);
    let n2 = spec_next_ordinal(elapsed, r, sold as nat, a2 as nat);
    assert(n1 <= n2);
    lemma_mul_inequality(n1 as int, n2 as int, ONE as int);
    lemma_div_is_ordered((n1 * ONE) as int, (n2 * ONE) as int, r as int);
    let dev1 = crate::pricing::spec_deviation(elapsed, n1, r);
    let dev2 = crate::pricing::spec_deviation(elapsed, n2, r);
    assert(dev2 <= dev1);
    match crate::pricing::spec_ln_one_minus_k(v.decay_constant_percent as nat) {
        Ok(ln1k) => {
            let f1 = crate::pricing::spec_first_unit_price(v.target_price as nat, ln1k, dev1);
            let f2 = crate::pricing::spec_first_unit_price(v.target_price as nat, ln1k, dev2);
            if f1 is Ok && f2 is Ok {
                lemma_first_unit_price_antitone(v.target_price as nat, ln1k, dev1, dev2);
                match crate::pricing::spec_unit_ratio(ln1k, r) {
                    Ok(q) => {
                        lemma_geometric_sum_monotone(f1->Ok_0, f2->Ok_0, q, m1, m2);
                    },
                    Err(_) => {},
                }
            }
        },
        Err(_) => {},
    }
}

/// The batch-by-batch cost equals the closed form, exactly, on a purchase that fits
/// one batch (at most `r` tokens), wherever the batch-by-batch cost can be computed.
pub proof fn lemma_chunked_agrees_on_one_batch(v: VRGDA, now: i64, sold: u64, amount: u64)
    requires
        0 < amount <= v.schedule.rate(),
        spec_price_for_amount_v1(v, now, sold, amount) is Ok,
    ensures
        spec_price_for_amount_v1(v, now, sold, amount) == spec_price_for_amount(
            v,
            now,
            sold,
            amount,
        ),
{
    let r = v.schedule.rate() as nat;
    if now >= v.vrgda_start_timestamp && r != 0 {
        let elapsed = (now - v.vrgda_start_timestamp) as nat;
        let m = amount as nat;
        let n = spec_next_ordinal(elapsed, r, sold as nat, amount as nat);
        let closed = spec_price_for_amount(v, now, sold, amount);
        let chunked = spec_price_for_amount_v1(v, now, sold, amount);
        match crate::pricing::spec_ln_one_minus_k(v.decay_constant_percent as nat) {
            Ok(ln1k) => match crate::pricing::spec_first_unit_price(
                v.target_price as nat,
                ln1k,
                crate::pricing::spec_deviation(elapsed, n, r),
            ) {
                Ok(p) => match crate::pricing::spec_unit_ratio(ln1k, r) {
                    Ok(q) => {
                        assert(closed == spec_geometric_sum(p, q, m));
                        assert(chunked == spec_chunked_sum(q, p, amount as nat, r, 0));
                        let chunk = if (amount as nat) < r { amount as nat } else { r };
                        assert(chunk == m);
                        match spec_pow(q, (m * ONE) as nat) {
                            Some(qp) => if qp >= ONE && q >= ONE {
                                match spec_mul(p, (qp - ONE) as nat) {
                                    Some(num) => match spec_div(num, (q - ONE) as nat) {
                                        Some(batch) => match spec_mul(p, qp) {
                                            Some(next) => {
                                                assert(spec_chunked_sum(q, next, 0, r, batch)
                                                    == Ok::<nat, crate::error::VRGDAError>(batch));
                                                assert(closed == Ok::<nat, crate::error::VRGDAError>(batch));
                                            },
                                            None => {},
                                        },
                                        None => {},
                                    },
                                    None => {},
                                }
                            },
                            None => {},
                        }
                        assert(chunked == closed);
                    },
                    Err(e) => {
                        assert(chunked == Err::<nat, crate::error::VRGDAError>(e));
                    },
                },
                Err(e) => {
                    assert(chunked == Err::<nat, crate::error::VRGDAError>(e));
                },
            },
            Err(e) => {
                assert(chunked == Err::<nat, crate::error::VRGDAError>(e));
            },
        }
    }
}

/// The cost depends on the pricing parameters and the call's arguments alone: two
/// records that agree on target price, decay, schedule and start price every purchase
/// alike, whatever their supply, sales or last price.
pub proof fn lemma_price_has_no_hidden_state(v: VRGDA, w: VRGDA, now: i64, sold: u64, amount: u64)
    requires
        v.target_price == w.target_price,
        v.decay_constant_percent == w.decay_constant_percent,
        v.schedule == w.schedule,
        v.vrgda_start_timestamp == w.vrgda_start_timestamp,
    ensures
        spec_price_for_amount(v, now, sold, amount) == spec_price_for_amount(w, now, sold, amount),
{
}

/// A sale exactly on schedule is priced at the target price: when the time elapsed
/// is the target sale time `(sold + 1) / r` of the next token, `vrgda_price` returns
/// `target_price`, unless the decay constant itself is refused.
pub proof fn lemma_on_schedule_price_is_target(v: VRGDA, now: i64, sold: u64)
    requires
        v.schedule.rate() > 0,
        now >= v.vrgda_start_timestamp,
        (now - v.vrgda_start_timestamp) * v.schedule.rate() == sold + 1,
    ensures
        spec_vrgda_price(v, now, sold) == match crate::pricing::spec_ln_one_minus_k(
            v.decay_constant_percent as nat,
        ) {
            Ok(_) => Ok::<nat, crate::error::VRGDAError>(v.target_price as nat),
            Err(e) => Err(e),
        },
{
    let r = v.schedule.rate() as nat;
    let e = (now - v.vrgda_start_timestamp) as nat;
    assert(((sold + 1) * ONE) as int / (r as int) == e * ONE) by {
        assert((sold + 1) * ONE == (e * ONE) * r) by (nonlinear_arith)
            requires e * r == sold + 1;
        vstd::arithmetic::div_mod::lemma_div_by_multiple((e * ONE) as int, r as int);
    }
    assert(crate::pricing::spec_deviation(e, sold as nat + 1, r) == 0);
    reveal_with_fuel(exp_series, 11);
    assert(exp_series(0, ONE as nat, 1, ONE as nat) == ONE);
    vstd::arithmetic::power2::lemma2_to64();
    assert(0nat % (LN2 as nat) == 0 && 0nat / (LN2 as nat) == 0);
    assert(pow2(0) == 1);
    assert(exp_of_magnitude(0) == ONE);
    match crate::pricing::spec_ln_one_minus_k(v.decay_constant_percent as nat) {
        Ok(ln1k) => {
            let a = crate::precise_number::abs(ln1k);
            assert(a * 0 == 0);
            assert(crate::wide::modulus() > 0) by (nonlinear_arith)
                requires crate::wide::modulus() == crate::wide::base() * crate::wide::base(), crate::wide::base() > 0;
            assert(spec_mul(a, 0) == Some(0nat));
            assert(crate::precise_number::abs(0) == 0);
            assert(spec_smul(ln1k, 0) == Some(0int));
            assert(spec_exp(0) == Some(ONE as nat));
            assert(v.target_price * ONE < crate::wide::modulus()) by (nonlinear_arith)
                requires
                    v.target_price < crate::wide::base(),
                    ONE < crate::wide::base(),
                    crate::wide::modulus() == crate::wide::base() * crate::wide::base(),
            ;
            assert((v.target_price * ONE) as int / (ONE as int) == v.target_price) by (nonlinear_arith);
        },
        Err(_) => {},
    }
}

} // verus!
