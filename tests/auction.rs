use vrgda_exp::auction::{buy, close_auction, initialize_vrgda};
use vrgda_exp::error::VRGDAError;
use vrgda_exp::precise_number::PreciseNumber;
use vrgda_exp::state::{vrgda_price_for_amount_for_tests, Pubkey, Schedule, VRGDA};

fn key(b: u8) -> Pubkey {
    Pubkey { bytes: [b; 32] }
}

fn scenario() -> VRGDA {
    initialize_vrgda(key(1), key(2), 4_000_000_000u128, 50, 0, 1_000_000_000, 1_000_000, 0, 7)
        .unwrap()
}

#[test]
fn test_init() {
    let v = scenario();
    assert_eq!(v.total_supply, 1_000_000_000);
    assert_eq!(v.target_price, 4_000_000_000);
    assert_eq!(v.decay_constant_percent, 50);
    assert_eq!(v.schedule, Schedule::LinearSchedule { r: 1_000_000 });
    assert_eq!(v.tokens_sold, 0);
    assert!(!v.auction_ended);
    assert_eq!(v.current_price, 0);
    assert_eq!(v.buy_window_time, 60);
    assert_eq!(v.bump, 7);
    assert_eq!(v.mint.bytes, [1u8; 32]);
    assert_eq!(v.authority.bytes, [2u8; 32]);
}

#[test]
fn test_buy() {
    let mut v = scenario();
    let charged = buy(&mut v, 0, 1_000_000).unwrap();
    assert_eq!(charged, 0);
    assert_eq!(v.tokens_sold, 1_000_000);
    assert_eq!(v.total_supply, 999_000_000);
    assert_eq!(v.current_price, 0);
    assert_eq!(v.last_buy_timestamp, 0);
}

#[test]
fn test_pricing_fn() {
    let target_price = 4u64;
    let sold = 0;
    let rate = 1_000_000u64;
    let now = 1_700_000_000i64;
    let start_ts = now;
    let amount = 1_000_000_000u64;
    let first = vrgda_price_for_amount_for_tests(now, sold, amount, start_ts, rate, 5, target_price);
    for _ in 0..100 {
        let price =
            vrgda_price_for_amount_for_tests(now, sold, amount, start_ts, rate, 5, target_price);
        assert_eq!(price, first);
    }
    let record = VRGDA::new(key(1), key(2), target_price as u128, 5, Schedule::LinearSchedule { r: rate }, now, start_ts, 0);
    assert_eq!(Ok(first), record.vrgda_price_for_amount(now, sold, amount));
    assert_eq!(first, PreciseNumber::from_raw(7_110_985_134_493_048_685_712_183_765_827_845_134));
}

#[test]
fn scenario_a_price_is_pinned() {
    let v = scenario();
    let p = v.vrgda_price_for_amount(0, 0, 1_000_000).unwrap();
    assert_eq!(p, PreciseNumber::from_raw(5_770_778_160_683_248));
}

#[test]
fn price_is_deterministic() {
    let v = scenario();
    let a = v.vrgda_price_for_amount(7, 3_000_000, 5_000_000);
    let b = v.vrgda_price_for_amount(7, 3_000_000, 5_000_000);
    assert_eq!(a, b);
    assert!(a.is_ok());
}

#[test]
fn chunked_oracle_agrees_on_scenario_a() {
    let v = scenario();
    let closed = v.vrgda_price_for_amount(0, 0, 1_000_000).unwrap();
    let chunked = v.vrgda_price_for_amount_v1(0, 0, 1_000_000).unwrap();
    assert_eq!(closed, chunked);
}

#[test]
fn chunked_oracle_agrees_for_other_rates() {
    for (rate, decay) in [(1_000_000u64, 50u64), (2_000_000, 20), (500_000, 90), (300_000, 50)] {
        let v = initialize_vrgda(key(1), key(2), 4_000_000_000, decay, 0, 1_000_000_000, rate, 0, 0)
            .unwrap();
        for (now, sold) in [(0i64, 0u64), (3, 2_000_000)] {
            let closed = v.vrgda_price_for_amount(now, sold, 1_000_000).unwrap();
            let chunked = v.vrgda_price_for_amount_v1(now, sold, 1_000_000).unwrap();
            let diff = if closed.value.lo > chunked.value.lo {
                closed.value.lo - chunked.value.lo
            } else {
                chunked.value.lo - closed.value.lo
            };
            assert!(diff <= closed.value.lo / 1_000_000, "rate {} decay {}", rate, decay);
            assert!(closed.value.lo > 0);
        }
    }
}

#[test]
fn price_grows_with_amount_after_a_sale() {
    let v = scenario();
    let two = v.vrgda_price_for_amount(1, 1_000_000, 2).unwrap();
    let three = v.vrgda_price_for_amount(1, 1_000_000, 3).unwrap();
    assert_eq!(two, PreciseNumber::from_raw(7_999_741_229));
    assert_eq!(three, PreciseNumber::from_raw(11_998_890_496));
    assert!(two.less_than(&three));
}

#[test]
fn buy_of_zero_fails() {
    let mut v = scenario();
    let before = v;
    assert_eq!(buy(&mut v, 0, 0), Err(VRGDAError::AmountCantBeZero));
    assert_eq!(v.total_supply, before.total_supply);
}

#[test]
fn buy_of_whole_supply_fails() {
    let mut v = scenario();
    assert_eq!(buy(&mut v, 0, 1_000_000_000), Err(VRGDAError::AmountExceedsTotalSupply));
    assert_eq!(buy(&mut v, 0, 2_000_000_000), Err(VRGDAError::AmountExceedsTotalSupply));
    assert_eq!(v.total_supply, 1_000_000_000);
    assert_eq!(v.tokens_sold, 0);
}

#[test]
fn buy_after_close_fails() {
    let mut v = scenario();
    assert_eq!(close_auction(&mut v), Ok(()));
    assert!(v.auction_ended);
    assert_eq!(buy(&mut v, 0, 1_000_000), Err(VRGDAError::AuctionEnded));
    assert_eq!(close_auction(&mut v), Err(VRGDAError::AuctionEnded));
}

#[test]
fn initialize_rejects_bad_decay() {
    for d in [0u64, 100, 101, 255] {
        let r = initialize_vrgda(key(1), key(2), 4_000_000_000, d, 0, 1_000, 10, 0, 0);
        assert_eq!(r.err(), Some(VRGDAError::InvalidDecayConstant));
    }
}

#[test]
fn initialize_moves_start_up_to_now() {
    let v = initialize_vrgda(key(1), key(2), 5_000_000_000_000_000_000, 50, 10, 1_000, 10, 100, 0)
        .unwrap();
    assert_eq!(v.vrgda_start_timestamp, 100);
    assert_eq!(v.created_at_timestamp, 100);
    assert_eq!(v.current_price, 5);
    let w = initialize_vrgda(key(1), key(2), 1, 50, 500, 1_000, 10, 100, 0).unwrap();
    assert_eq!(w.vrgda_start_timestamp, 500);
}

#[test]
fn buy_charges_fresh_price_within_window() {
    let mut v = initialize_vrgda(key(1), key(2), 5_000_000_000_000_000_000, 50, 0, 100_000_000, 1, 0, 0)
        .unwrap();
    let first = buy(&mut v, 0, 1).unwrap();
    assert_eq!(v.current_price, first);
    assert_eq!(v.last_buy_timestamp, 0);
    let expected = v.vrgda_price_for_amount(1, 1, 1).unwrap();
    let second = buy(&mut v, 1, 1).unwrap();
    assert_eq!(second as u128, expected.value.lo / 1_000_000_000_000_000_000);
    assert!(second > first);
    assert_eq!(v.current_price, second);
    assert_eq!(v.tokens_sold, 2);
    assert_eq!(v.total_supply, 99_999_998);
    assert_eq!(v.last_buy_timestamp, 1);
}

#[test]
fn buy_keeps_stale_price_after_window() {
    let mut v = initialize_vrgda(key(1), key(2), 5_000_000_000_000_000_000, 50, 0, 100_000_000, 1, 0, 0)
        .unwrap();
    let first = buy(&mut v, 0, 1).unwrap();
    let fresh = v.vrgda_price_for_amount(61, 1, 1).unwrap();
    assert_ne!(fresh.value.lo / 1_000_000_000_000_000_000, first as u128);
    let second = buy(&mut v, 61, 1).unwrap();
    assert_eq!(second, first);
    assert_eq!(v.current_price, first);
    assert_eq!(v.last_buy_timestamp, 61);
    assert_eq!(v.tokens_sold, 2);
}

#[test]
fn pricing_errors() {
    let v = VRGDA::new(key(1), key(2), 4_000_000_000, 0, Schedule::LinearSchedule { r: 10 }, 0, 0, 0);
    assert_eq!(v.vrgda_price_for_amount(5, 0, 1_000_000), Err(VRGDAError::LogError));
    let v = VRGDA::new(key(1), key(2), 4_000_000_000, 101, Schedule::LinearSchedule { r: 10 }, 0, 0, 0);
    assert_eq!(v.vrgda_price_for_amount(5, 0, 1_000_000), Err(VRGDAError::OneMinusKError));
    let v = VRGDA::new(key(1), key(2), 4_000_000_000, 100, Schedule::LinearSchedule { r: 10 }, 0, 0, 0);
    assert_eq!(v.vrgda_price_for_amount(5, 0, 1_000_000), Err(VRGDAError::LogError));
    let v = VRGDA::new(key(1), key(2), 4_000_000_000, 50, Schedule::LinearSchedule { r: 0 }, 0, 0, 0);
    assert_eq!(v.vrgda_price_for_amount(5, 0, 1_000_000), Err(VRGDAError::DivisionError));
    let v = VRGDA::new(key(1), key(2), 4_000_000_000, 50, Schedule::LinearSchedule { r: 10 }, 0, 50, 0);
    assert_eq!(v.vrgda_price_for_amount(5, 0, 1_000_000), Err(VRGDAError::MathOverflow));
    let v = VRGDA::new(key(1), key(2), 4_000_000_000, 50, Schedule::LinearSchedule { r: 1 }, 0, 0, 0);
    assert_eq!(
        v.vrgda_price_for_amount(0, 1_000_000_000_000, 1_000_000),
        Err(VRGDAError::ExponentTooLarge)
    );
}

#[test]
fn new_record_starts_empty() {
    let v = VRGDA::new(key(3), key(4), 9, 20, Schedule::LinearSchedule { r: 5 }, 11, 12, 13);
    assert_eq!(v.total_supply, 0);
    assert_eq!(v.tokens_sold, 0);
    assert_eq!(v.current_price, 0);
    assert_eq!(v.created_at_timestamp, 11);
    assert_eq!(v.vrgda_start_timestamp, 12);
    assert_eq!(v.schedule.get_r(), 5);
    assert!(!v.auction_ended);
}

#[test]
fn legacy_single_token_price() {
    let v = scenario();
    let p = v.vrgda_price(5, 1_000_000).unwrap();
    assert_eq!(p, PreciseNumber::from_raw(250_000_173));
    let on_schedule = VRGDA::new(key(1), key(2), 7_000_000_000, 50, Schedule::LinearSchedule { r: 1 }, 0, 0, 0);
    assert_eq!(on_schedule.vrgda_price(5, 4), Ok(PreciseNumber::from_raw(7_000_000_000)));
    let behind = on_schedule.vrgda_price(6, 4).unwrap();
    assert_eq!(behind, PreciseNumber::from_raw(3_500_000_000));
    assert_eq!(VRGDAError::AuctionEnded.message(), "Auction has ended");
}

#[test]
fn failed_buy_leaves_state_unchanged() {
    let mut v = VRGDA::new(key(1), key(2), 4_000_000_000, 50, Schedule::LinearSchedule { r: 10 }, 0, 50, 0);
    v.total_supply = 1_000_000_000;
    assert_eq!(buy(&mut v, 5, 1_000_000), Err(VRGDAError::MathOverflow));
    assert_eq!(v.total_supply, 1_000_000_000);
    assert_eq!(v.tokens_sold, 0);
    assert_eq!(v.last_buy_timestamp, 0);
    let mut w = VRGDA::new(key(1), key(2), 4_000_000_000, 0, Schedule::LinearSchedule { r: 10 }, 0, 0, 0);
    w.total_supply = 1_000_000_000;
    assert_eq!(buy(&mut w, 5, 1_000_000), Err(VRGDAError::LogError));
    assert_eq!(w.total_supply, 1_000_000_000);
}

#[test]
fn first_sale_cost_grows_with_amount() {
    let v = scenario();
    let one = v.vrgda_price_for_amount(10, 0, 1_000_000).unwrap();
    let five = v.vrgda_price_for_amount(10, 0, 5_000_000).unwrap();
    let five_and_a_half = v.vrgda_price_for_amount(10, 0, 5_500_000).unwrap();
    let next = v.vrgda_price_for_amount(10, 0, 5_500_001).unwrap();
    assert!(one.less_than(&five));
    assert!(five.less_than(&five_and_a_half));
    assert!(five_and_a_half.less_than(&next));
    let small = v.vrgda_price_for_amount(10, 0, 1).unwrap();
    assert!(!small.is_zero());
}
