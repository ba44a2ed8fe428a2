//! The auction's transitions: initialize, buy and close.
//!
//! Each one computes the whole new state before it writes anything, so a failed
//! call leaves the auction as it was.
use vstd::prelude::*;
use crate::error::{VRGDAError, VrgdaResult};
use crate::precise_number::ONE;
use crate::state::{
    spec_mint_amount, spec_price_for_amount, to_actual_mint_amount, Pubkey, Schedule, VRGDA,
    BUY_WINDOW_TIME,
};

verus! {

/// The record that `initialize_vrgda` creates, or why it refuses.
pub open spec fn spec_initialize(
    mint: Pubkey,
    authority: Pubkey,
    target_price: u128,
    decay_constant_percent: u64,
    vrgda_start_timestamp: i64,
    total_supply: u64,
    r: u64,
    now: i64,
    bump: u8,
) -> Result<VRGDA, VRGDAError> {
    if decay_constant_percent == 0 || decay_constant_percent >= 100 {
        Err(VRGDAError::InvalidDecayConstant)
    } else if target_price / ONE > u64::MAX {
        Err(VRGDAError::MathOverflow)
    } else {
        Ok(
            VRGDA {
                mint,
                total_supply,
                authority,
                target_price,
                decay_constant_percent,
                tokens_sold: 0,
                created_at_timestamp: now,
                vrgda_start_timestamp: if vrgda_start_timestamp < now {
                    now
                } else {
                    vrgda_start_timestamp
                },
                auction_ended: false,
                schedule: Schedule::LinearSchedule { r },
                current_price: (target_price / ONE) as u64,
                last_buy_timestamp: 0,
                buy_window_time: BUY_WINDOW_TIME,
                bump,
            },
        )
    }
}

/// Time since the previous purchase; zero before the first one, or where the
/// difference does not fit an `i64`.
pub open spec fn spec_time_since_last_buy(v: VRGDA, now: i64) -> int {
    if v.tokens_sold == 0 {
        0
    } else if i64::MIN <= now - v.last_buy_timestamp <= i64::MAX {
        now - v.last_buy_timestamp
    } else {
        0
    }
}

/// The state after buying `amount` tokens at `now`, and the amount charged; or the
/// failure.
pub open spec fn spec_buy(v: VRGDA, now: i64, amount: u64) -> Result<(VRGDA, u64), VRGDAError> {
    if amount == 0 {
        Err(VRGDAError::AmountCantBeZero)
    } else if amount >= v.total_supply {
        Err(VRGDAError::AmountExceedsTotalSupply)
    } else if v.auction_ended {
        Err(VRGDAError::AuctionEnded)
    } else {
        match spec_price_for_amount(v, now, v.tokens_sold, amount) {
            Err(e) => Err(e),
            Ok(cost) => if v.tokens_sold + amount > u64::MAX {
                Err(VRGDAError::MathOverflow)
            } else {
                match spec_mint_amount(cost) {
                    None => Err(VRGDAError::MathOverflow),
                    Some(fresh) => {
                        let price = if spec_time_since_last_buy(v, now) > v.buy_window_time {
                            v.current_price
                        } else {
                            fresh
                        };
                        Ok(
                            (
                                VRGDA {
                                    total_supply: (v.total_supply - amount) as u64,
                                    tokens_sold: (v.tokens_sold + amount) as u64,
                                    current_price: price,
                                    last_buy_timestamp: now,
                                    ..v
                                },
                                price,
                            ),
                        )
                    },
                }
            },
        }
    }
}

/// Opens an auction of `total_supply` tokens at `target_price` (wad), decaying by
/// `decay_constant_percent` per unit of time, with `r` tokens per unit of time as the
/// schedule. The start is moved up to `now` where it lies before it.
pub fn initialize_vrgda(
    mint: Pubkey,
    authority: Pubkey,
    target_price: u128,
    decay_constant_percent: u64,
    vrgda_start_timestamp: i64,
    total_supply: u64,
    r: u64,
    now: i64,
    bump: u8,
) -> (res: VrgdaResult<VRGDA>)
    ensures
        match spec_initialize(
            mint,
            authority,
            target_price,
            decay_constant_percent,
            vrgda_start_timestamp,
            total_supply,
            r,
            now,
            bump,
        ) {
            Ok(v) => res matches Ok(w) && w == v,
            Err(e) => res == Err::<VRGDA, VRGDAError>(e),
        },
{
    if decay_constant_percent == 0 || decay_constant_percent >= 100 {
        return Err(VRGDAError::InvalidDecayConstant);
    }
    let whole = target_price / ONE;
    if whole > u64::MAX as u128 {
        return Err(VRGDAError::MathOverflow);
    }
    let start = if vrgda_start_timestamp < now {
        now
    } else {
        vrgda_start_timestamp
    };
    let mut v = VRGDA::new(
        mint,
        authority,
        target_price,
        decay_constant_percent,
        Schedule::LinearSchedule { r },
        now,
        start,
        bump,
    );
    v.total_supply = total_supply;
    v.current_price = whole as u64;
    Ok(v)
}

/// Sells `amount` tokens at `now` and returns the amount to charge the buyer.
pub fn buy(vrgda: &mut VRGDA, now: i64, amount: u64) -> (res: VrgdaResult<u64>)
    ensures
        match spec_buy(*old(vrgda), now, amount) {
            Ok((v, charged)) => res == Ok::<u64, VRGDAError>(charged) && *final(vrgda) == v,
            Err(e) => res == Err::<u64, VRGDAError>(e) && *final(vrgda) == *old(vrgda),
        },
{
    if amount == 0 {
        return Err(VRGDAError::AmountCantBeZero);
    }
    if amount >= vrgda.total_supply {
        return Err(VRGDAError::AmountExceedsTotalSupply);
    }
    if vrgda.auction_ended {
        return Err(VRGDAError::AuctionEnded);
    }
    let sold = vrgda.tokens_sold;
    let time_since_last_buy: i64 = if sold == 0 {
        0
    } else {
        match now.checked_sub(vrgda.last_buy_timestamp) {
            Some(t) => t,
            None => 0,
        }
    };
    let cost = match vrgda.vrgda_price_for_amount(now, sold, amount) {
        Ok(c) => c,
        Err(e) => return Err(e),
    };
    let tokens_sold = match sold.checked_add(amount) {
        Some(t) => t,
        None => return Err(VRGDAError::MathOverflow),
    };
    let fresh = match to_actual_mint_amount(&cost) {
        Some(p) => p,
        None => return Err(VRGDAError::MathOverflow),
    };
    let price = if time_since_last_buy > vrgda.buy_window_time {
        vrgda.current_price
    } else {
        fresh
    };
    vrgda.total_supply = vrgda.total_supply - amount;
    vrgda.tokens_sold = tokens_sold;
    vrgda.current_price = price;
    vrgda.last_buy_timestamp = now;
    Ok(price)
}

/// Ends the auction; no purchase is accepted afterwards.
pub fn close_auction(vrgda: &mut VRGDA) -> (res: VrgdaResult<()>)
    ensures
        old(vrgda).auction_ended ==> res == Err::<(), VRGDAError>(VRGDAError::AuctionEnded)
            && *final(vrgda) == *old(vrgda),
        !old(vrgda).auction_ended ==> res is Ok && *final(vrgda) == (VRGDA {
            auction_ended: true,
            ..*old(vrgda)
        }),
{
    if vrgda.auction_ended {
        return Err(VRGDAError::AuctionEnded);
    }
    vrgda.auction_ended = true;
    Ok(())
}

} // verus!
