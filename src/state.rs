//! The auction record and its pricing queries.
use vstd::prelude::*;
use crate::error::{VRGDAError, VrgdaResult};
use crate::precise_number::{
    spec_div, spec_mul, spec_pow, PreciseNumber, ONE,
};
use crate::pricing::{
    closed_form_cost, first_unit_price, ln_one_minus_k, precise_res, spec_closed_form,
    spec_deviation, spec_first_unit_price, spec_ln_one_minus_k, spec_unit_ratio,
    target_sale_time, unit_ratio, deviation_from_schedule,
};
use crate::wide::modulus;

verus! {

/// Seconds after a purchase during which the next one is priced from the schedule.
pub const BUY_WINDOW_TIME: i64 = 60;

/// A 32-byte account address; the auction only stores it.
#[derive(Clone, Copy, Debug)]
pub struct Pubkey {
    pub bytes: [u8; 32],
}

/// How many tokens should have sold by a given time.
#[derive(Clone, Copy, Debug, PartialEq, Eq, Structural)]
pub enum Schedule {
    /// `r` tokens per unit of time from the start.
    LinearSchedule { r: u64 },
}

impl Schedule {
    pub open spec fn rate(&self) -> u64 {
        match self {
            Schedule::LinearSchedule { r } => *r,
        }
    }

    pub fn get_r(&self) -> (r: u64)
        ensures
            r == self.rate(),
    {
        match self {
            Schedule::LinearSchedule { r } => *r,
        }
    }
}

/// The state of one auction.
#[derive(Clone, Copy, Debug)]
pub struct VRGDA {
    pub mint: Pubkey,
    /// Tokens left to sell.
    pub total_supply: u64,
    /// Receives the payments.
    pub authority: Pubkey,
    /// Target price of a token (wad).
    pub target_price: u128,
    /// Price decay per unit of time, in percent.
    pub decay_constant_percent: u64,
    pub tokens_sold: u64,
    pub created_at_timestamp: i64,
    pub vrgda_start_timestamp: i64,
    pub auction_ended: bool,
    pub schedule: Schedule,
    /// Price last charged, in whole units.
    pub current_price: u64,
    pub last_buy_timestamp: i64,
    pub buy_window_time: i64,
    pub bump: u8,
}

/// `ONE`-scaled value in whole units, where it fits a `u64`.
pub open spec fn spec_mint_amount(p: nat) -> Option<u64> {
    if p / (ONE as nat) <= u64::MAX {
        Some((p / (ONE as nat)) as u64)
    } else {
        None
    }
}

pub fn to_actual_mint_amount(p: &PreciseNumber) -> (r: Option<u64>)
    ensures
        r == spec_mint_amount(p@),
{
    let whole = p.value.checked_div(&crate::wide::U256::from_u128(ONE)).unwrap();
    match whole.to_u128() {
        Some(w) => if w <= u64::MAX as u128 {
            Some(w as u64)
        } else {
            None
        },
        None => None,
    }
}

/// Ordinal whose target time the closed form compares with the elapsed time: before
/// any sale, `min(amount, r * elapsed)` (the product saturating at `u64::MAX`); after,
/// `sold + 1`.
pub open spec fn spec_next_ordinal(elapsed: nat, r: nat, sold: nat, amount: nat) -> nat {
    let rt = if elapsed * r > u64::MAX { u64::MAX as nat } else { elapsed * r };
    if sold == 0 {
        if amount < rt { amount } else { rt }
    } else {
        sold + 1
    }
}

/// Total cost of `amount` tokens bought at `now`, `sold` having sold before.
pub open spec fn spec_price_for_amount(v: VRGDA, now: i64, sold: u64, amount: u64) -> Result<
    nat,
    VRGDAError,
> {
    let r = v.schedule.rate() as nat;
    if now < v.vrgda_start_timestamp {
        Err(VRGDAError::MathOverflow)
    } else if r == 0 {
        Err(VRGDAError::DivisionError)
    } else {
        let elapsed = (now - v.vrgda_start_timestamp) as nat;
        spec_closed_form(
            v.target_price as nat,
            v.decay_constant_percent as nat,
            r,
            elapsed,
            spec_next_ordinal(elapsed, r, sold as nat, amount as nat),
            amount as nat,
        )
    }
}

/// Sum, batch by batch of at most `r` tokens, of the geometric series that starts at
/// `price` with ratio `q`, over `remaining` tokens; `acc` is what has been
/// summed so far.
pub open spec fn spec_chunked_sum(q: nat, price: nat, remaining: nat, r: nat, acc: nat) -> Result<
    nat,
    VRGDAError,
>
    decreases remaining,
{
    if remaining == 0 || r == 0 {
        Ok(acc)
    } else {
        let chunk = if remaining < r { remaining } else { r };
        match spec_pow(q, (chunk * ONE) as nat) {
            None => Err(VRGDAError::ExponentTooLarge),
            Some(qp) => if qp < ONE || q < ONE {
                Err(VRGDAError::MathOverflow)
            } else {
                match spec_mul(price, (qp - ONE) as nat) {
                    None => Err(VRGDAError::MathOverflow),
                    Some(num) => match spec_div(num, (q - ONE) as nat) {
                        None => Err(VRGDAError::DivisionError),
                        Some(batch) => if acc + batch >= modulus() {
                            Err(VRGDAError::MathOverflow)
                        } else {
                            match spec_mul(price, qp) {
                                None => Err(VRGDAError::MathOverflow),
                                Some(next) => spec_chunked_sum(
                                    q,
                                    next,
                                    (remaining - chunk) as nat,
                                    r,
                                    acc + batch,
                                ),
                            }
                        },
                    },
                }
            },
        }
    }
}

/// The batch-by-batch cost: the next unit is priced as in the closed form, and
/// `amount` is summed in batches of `r`.
pub open spec fn spec_price_for_amount_v1(v: VRGDA, now: i64, sold: u64, amount: u64) -> Result<
    nat,
    VRGDAError,
> {
    let r = v.schedule.rate() as nat;
    if now < v.vrgda_start_timestamp {
        Err(VRGDAError::MathOverflow)
    } else if r == 0 {
        Err(VRGDAError::DivisionError)
    } else {
        let elapsed = (now - v.vrgda_start_timestamp) as nat;
        let n = spec_next_ordinal(elapsed, r, sold as nat, amount as nat);
        match spec_ln_one_minus_k(v.decay_constant_percent as nat) {
            Err(e) => Err(e),
            Ok(ln1k) => match spec_first_unit_price(
                v.target_price as nat,
                ln1k,
                spec_deviation(elapsed, n, r),
            ) {
                Err(e) => Err(e),
                Ok(p) => match spec_unit_ratio(ln1k, r) {
                    Err(e) => Err(e),
                    Ok(q) => spec_chunked_sum(q, p, amount as nat, r, 0),
                },
            },
        }
    }
}

/// Price of the next token at `now`, `sold` having sold: `p0 * exp(ln(1 - k) * t')`,
/// where `t'` is the time elapsed less the target sale time of token `sold + 1`.
pub open spec fn spec_vrgda_price(v: VRGDA, now: i64, sold: u64) -> Result<nat, VRGDAError> {
    let r = v.schedule.rate() as nat;
    if now < v.vrgda_start_timestamp {
        Err(VRGDAError::MathOverflow)
    } else if r == 0 {
        Err(VRGDAError::DivisionError)
    } else {
        let elapsed = (now - v.vrgda_start_timestamp) as nat;
        match spec_ln_one_minus_k(v.decay_constant_percent as nat) {
            Err(e) => Err(e),
            Ok(ln1k) => spec_first_unit_price(
                v.target_price as nat,
                ln1k,
                spec_deviation(elapsed, sold as nat + 1, r),
            ),
        }
    }
}

impl VRGDA {
    pub fn new(
        mint: Pubkey,
        authority: Pubkey,
        target_price: u128,
        decay_constant_percent: u64,
        schedule: Schedule,
        created_at_timestamp: i64,
        vrgda_start_timestamp: i64,
        bump: u8,
    ) -> (v: Self)
        ensures
            v.mint == mint,
            v.authority == authority,
            v.total_supply == 0,
            v.target_price == target_price,
            v.decay_constant_percent == decay_constant_percent,
            v.tokens_sold == 0,
            v.created_at_timestamp == created_at_timestamp,
            v.vrgda_start_timestamp == vrgda_start_timestamp,
            !v.auction_ended,
            v.schedule == schedule,
            v.current_price == 0,
            v.last_buy_timestamp == 0,
            v.buy_window_time == BUY_WINDOW_TIME,
            v.bump == bump,
    {
        VRGDA {
            mint,
            total_supply: 0,
            authority,
            target_price,
            decay_constant_percent,
            tokens_sold: 0,
            created_at_timestamp,
            vrgda_start_timestamp,
            auction_ended: false,
            schedule,
            current_price: 0,
            last_buy_timestamp: 0,
            buy_window_time: BUY_WINDOW_TIME,
            bump,
        }
    }

    /// Target sale time `n / r` of the `n`-th token, scaled.
    pub fn get_target_sale_time_precise(&self, n: u64) -> (t: PreciseNumber)
        requires
            self.schedule.rate() > 0,
        ensures
            t@ == (n * ONE) as int / (self.schedule.rate() as int),
    {
        target_sale_time(n as u128, self.schedule.get_r())
    }

    /// Price of the next token at `now`, `sold` having sold before.
    pub fn vrgda_price(&self, now: i64, sold: u64) -> (r: VrgdaResult<PreciseNumber>)
        ensures
            precise_res(r) == spec_vrgda_price(*self, now, sold),
    {
        if now < self.vrgda_start_timestamp {
            return Err(VRGDAError::MathOverflow);
        }
        let r = self.schedule.get_r();
        if r == 0 {
            return Err(VRGDAError::DivisionError);
        }
        let elapsed: u64 = ((now as i128) - (self.vrgda_start_timestamp as i128)) as u64;
        let deviation = deviation_from_schedule(elapsed, sold as u128 + 1, r);
        let ln1k = match ln_one_minus_k(self.decay_constant_percent) {
            Ok(l) => l,
            Err(e) => return Err(e),
        };
        first_unit_price(&PreciseNumber::from_raw(self.target_price), &ln1k, &deviation)
    }

    /// O(1) closed-form cost of buying `amount` tokens at `now`, `sold`
    /// having sold before.
    pub fn vrgda_price_for_amount(&self, now: i64, sold: u64, amount: u64) -> (r: VrgdaResult<
        PreciseNumber,
    >)
        ensures
            precise_res(r) == spec_price_for_amount(*self, now, sold, amount),
    {
        if now < self.vrgda_start_timestamp {
            return Err(VRGDAError::MathOverflow);
        }
        let r = self.schedule.get_r();
        if r == 0 {
            return Err(VRGDAError::DivisionError);
        }
        let elapsed: u64 = ((now as i128) - (self.vrgda_start_timestamp as i128)) as u64;
        let n = next_ordinal(elapsed, r, sold, amount);
        closed_form_cost(self.target_price, self.decay_constant_percent, r, elapsed, n, amount)
    }

    /// Cost of `amount` tokens summed batch by batch, `r` tokens to a batch, from the
    /// closed form's price of the next token and its ratio. It takes
    /// time in proportion to `amount / r` and serves to cross-check
    /// `vrgda_price_for_amount`.
    pub fn vrgda_price_for_amount_v1(&self, now: i64, sold: u64, amount: u64) -> (r: VrgdaResult<
        PreciseNumber,
    >)
        ensures
            precise_res(r) == spec_price_for_amount_v1(*self, now, sold, amount),
    {
        if now < self.vrgda_start_timestamp {
            return Err(VRGDAError::MathOverflow);
        }
        let r = self.schedule.get_r();
        if r == 0 {
            return Err(VRGDAError::DivisionError);
        }
        let elapsed: u64 = ((now as i128) - (self.vrgda_start_timestamp as i128)) as u64;
        let n = next_ordinal(elapsed, r, sold, amount);
        let deviation = deviation_from_schedule(elapsed, n, r);
        let ln1k = match ln_one_minus_k(self.decay_constant_percent) {
            Ok(l) => l,
            Err(e) => return Err(e),
        };
        let p_s1 = match first_unit_price(
            &PreciseNumber::from_raw(self.target_price),
            &ln1k,
            &deviation,
        ) {
            Ok(p) => p,
            Err(e) => return Err(e),
        };
        let q = match unit_ratio(&ln1k, r) {
            Ok(q) => q,
            Err(e) => return Err(e),
        };
        let one = PreciseNumber::one();
        let mut remaining = amount;
        let mut current_price = p_s1;
        let mut total_cost = PreciseNumber::zero();
        while remaining > 0
            invariant
                r > 0,
                one@ == ONE,
                spec_chunked_sum(q@, current_price@, remaining as nat, r as nat, total_cost@)
                    == spec_chunked_sum(q@, p_s1@, amount as nat, r as nat, 0),
                spec_price_for_amount_v1(*self, now, sold, amount) == spec_chunked_sum(
                    q@,
                    p_s1@,
                    amount as nat,
                    r as nat,
                    0,
                ),
            decreases remaining,
        {
            let chunk = if remaining < r {
                remaining
            } else {
                r
            };
            let chunk_precise = PreciseNumber::new(chunk as u128).unwrap();
            let q_pow = match q.pow(&chunk_precise) {
                Some(v) => v,
                None => return Err(VRGDAError::ExponentTooLarge),
            };
            let numerator = match q_pow.checked_sub(&one) {
                Some(v) => v,
                None => return Err(VRGDAError::MathOverflow),
            };
            let denominator = match q.checked_sub(&one) {
                Some(v) => v,
                None => return Err(VRGDAError::MathOverflow),
            };
            let scaled = match current_price.checked_mul(&numerator) {
                Some(v) => v,
                None => return Err(VRGDAError::MathOverflow),
            };
            let batch_cost = match scaled.checked_div(&denominator) {
                Some(v) => v,
                None => return Err(VRGDAError::DivisionError),
            };
            total_cost = match total_cost.checked_add(&batch_cost) {
                Some(v) => v,
                None => return Err(VRGDAError::MathOverflow),
            };
            current_price = match current_price.checked_mul(&q_pow) {
                Some(v) => v,
                None => return Err(VRGDAError::MathOverflow),
            };
            remaining = remaining - chunk;
        }
        Ok(total_cost)
    }
}

} // verus!

verus! {

/// Target sale time `n / r` of the `n`-th token, scaled.
pub fn get_target_sale_time_precise_for_test(n: u64, r: u64) -> (t: PreciseNumber)
    requires
        r > 0,
    ensures
        t@ == (n * ONE) as int / (r as int),
{
    target_sale_time(n as u128, r)
}

/// Closed-form cost with every parameter given, as `vrgda_price_for_amount` computes
/// it for a record with these parameters.
pub open spec fn spec_price_for_amount_for_tests(
    now: i64,
    sold: u64,
    amount: u64,
    start_ts: i64,
    r: u64,
    decay_constant_percent: u8,
    target_price: u64,
) -> Result<nat, VRGDAError> {
    let elapsed = (now - start_ts) as nat;
    spec_closed_form(
        target_price as nat,
        decay_constant_percent as nat,
        r as nat,
        elapsed,
        spec_next_ordinal(elapsed, r as nat, sold as nat, amount as nat),
        amount as nat,
    )
}

/// Closed-form cost of `amount` tokens with every parameter given; the inputs must be
/// ones on which the computation succeeds.
pub fn vrgda_price_for_amount_for_tests(
    now: i64,
    sold: u64,
    amount: u64,
    start_ts: i64,
    r: u64,
    decay_constant_percent: u8,
    target_price: u64,
) -> (p: PreciseNumber)
    requires
        now >= start_ts,
        r > 0,
        spec_price_for_amount_for_tests(
            now,
            sold,
            amount,
            start_ts,
            r,
            decay_constant_percent,
            target_price,
        ) is Ok,
    ensures
        Ok::<nat, VRGDAError>(p@) == spec_price_for_amount_for_tests(
            now,
            sold,
            amount,
            start_ts,
            r,
            decay_constant_percent,
            target_price,
        ),
{
    let elapsed: u64 = ((now as i128) - (start_ts as i128)) as u64;
    let n = next_ordinal(elapsed, r, sold, amount);
    let cost = closed_form_cost(
        target_price as u128,
        decay_constant_percent as u64,
        r,
        elapsed,
        n,
        amount,
    );
    match cost {
        Ok(p) => p,
        Err(_) => {
            proof {
                assert(false);
            }
            PreciseNumber::zero()
        },
    }
}

/// The ordinal of `spec_next_ordinal`.
fn next_ordinal(elapsed: u64, r: u64, sold: u64, amount: u64) -> (n: u128)
    ensures
        n == spec_next_ordinal(elapsed as nat, r as nat, sold as nat, amount as nat),
        n <= u64::MAX + 1,
{
    if sold == 0 {
        let rt: u64 = match elapsed.checked_mul(r) {
            Some(v) => v,
            None => u64::MAX,
        };
        if amount < rt {
            amount as u128
        } else {
            rt as u128
        }
    } else {
        sold as u128 + 1
    }
}

} // verus!
