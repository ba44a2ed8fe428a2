use vrgda_exp::error::VRGDAError;
use vrgda_exp::precise_number::{PreciseNumber, ONE};
use vrgda_exp::signed_precise::SignedPreciseNumber;
use vrgda_exp::state::{get_target_sale_time_precise_for_test, to_actual_mint_amount};
use vrgda_exp::wad::{
    checked_wad_mul, to_wad, unsafe_wad_mul, wad_exp_checked, wad_ln, wad_mul, LinearSchedule,
    VRGDACore, VrgdaSchedule, LN2_WAD, WAD,
};
use vrgda_exp::wide::U256;

#[test]
fn wide_arithmetic_is_exact() {
    let a = U256 { hi: 0, lo: u128::MAX };
    let b = U256::from_u128(2);
    let s = a.checked_add(&b).unwrap();
    assert_eq!(s, U256 { hi: 1, lo: 1 });
    assert_eq!(s.checked_sub(&b).unwrap(), a);
    assert_eq!(b.checked_sub(&a), None);
    let p = a.checked_mul(&a).unwrap();
    assert_eq!(p, U256 { hi: u128::MAX - 1, lo: 1 });
    assert_eq!(p.checked_div(&a).unwrap(), a);
    assert_eq!(p.checked_div(&U256::zero()), None);
    let big = U256 { hi: 1, lo: 0 };
    assert_eq!(big.checked_mul(&big), None);
    assert_eq!(U256 { hi: 3, lo: 1 }.half(), U256 { hi: 1, lo: 1u128 << 127 });
    assert_eq!(U256 { hi: u128::MAX, lo: 0 }.checked_add(&U256 { hi: 1, lo: 0 }), None);
    assert!(b.lt(&a));
    assert!(!a.lt(&b));
    assert!(a.le(&a));
    assert_eq!(s.to_u128(), None);
    assert_eq!(b.to_u128(), Some(2));
}

#[test]
fn precise_arithmetic() {
    let two = PreciseNumber::new(2).unwrap();
    let three = PreciseNumber::new(3).unwrap();
    assert_eq!(two.value.lo, 2 * ONE);
    assert_eq!(two.checked_mul(&three).unwrap(), PreciseNumber::new(6).unwrap());
    assert_eq!(three.checked_div(&two).unwrap(), PreciseNumber::from_raw(1_500_000_000_000_000_000));
    assert_eq!(two.checked_div(&PreciseNumber::zero()), None);
    assert_eq!(two.checked_sub(&three), None);
    assert_eq!(three.checked_sub(&two).unwrap(), PreciseNumber::one());
    assert_eq!(two.checked_add(&three).unwrap(), PreciseNumber::new(5).unwrap());
    assert_eq!(PreciseNumber::precise_supply_amt(7, 6), PreciseNumber::from_raw(7_000_000_000_000));
    assert_eq!(to_actual_mint_amount(&PreciseNumber::from_raw(7_900_000_000_000_000_000)), Some(7));
    let huge = PreciseNumber { value: U256 { hi: 1, lo: 0 } };
    assert_eq!(to_actual_mint_amount(&huge), None);
    assert_eq!(get_target_sale_time_precise_for_test(3, 2), PreciseNumber::from_raw(1_500_000_000_000_000_000));
}

#[test]
fn precise_log_exp_pow() {
    let two = PreciseNumber::new(2).unwrap();
    let ln2 = two.log().unwrap();
    assert_eq!(ln2, SignedPreciseNumber { value: PreciseNumber::from_raw(693_147_180_559_945_309), is_negative: false });
    let half = PreciseNumber::from_raw(ONE / 2).log().unwrap();
    assert!(half.is_negative);
    assert_eq!(half.value, ln2.value);
    assert_eq!(PreciseNumber::one().log().unwrap(), PreciseNumber::zero().signed());
    assert_eq!(PreciseNumber::zero().log(), None);
    let e = PreciseNumber::one().signed().exp().unwrap();
    assert_eq!(e, PreciseNumber::from_raw(2_718_281_828_458_928_456));
    let inv_e = PreciseNumber::one().signed().negate().exp().unwrap();
    assert_eq!(inv_e, PreciseNumber::from_raw(367_879_441_171_458_125));
    assert_eq!(PreciseNumber::zero().signed().exp().unwrap(), PreciseNumber::one());
    assert_eq!(PreciseNumber::new(89).unwrap().signed().exp(), None);
    assert_eq!(PreciseNumber::new(89).unwrap().signed().negate().exp(), Some(PreciseNumber::zero()));
    assert_eq!(two.pow(&PreciseNumber::new(3).unwrap()).unwrap(), PreciseNumber::new(8).unwrap());
    assert_eq!(PreciseNumber::zero().pow(&two), None);
}

#[test]
fn signed_arithmetic() {
    let two = PreciseNumber::new(2).unwrap().signed();
    let three = PreciseNumber::new(3).unwrap().signed();
    let d = two.checked_sub(&three).unwrap();
    assert!(d.is_negative);
    assert_eq!(d.value, PreciseNumber::one());
    let z = two.checked_sub(&two).unwrap();
    assert!(!z.is_negative);
    let m = d.checked_mul(&three).unwrap();
    assert!(m.is_negative);
    assert_eq!(m.value, PreciseNumber::new(3).unwrap());
    let q = m.checked_div(&d).unwrap();
    assert!(!q.is_negative);
    assert_eq!(q.value, PreciseNumber::new(3).unwrap());
    assert_eq!(d.checked_add(&three).unwrap(), two);
    assert_eq!(SignedPreciseNumber::from_i128(-5).value, PreciseNumber::from_raw(5));
    assert_eq!(SignedPreciseNumber::from_parts(PreciseNumber::zero(), true).is_negative, false);
}

#[test]
fn wad_primitives() {
    assert_eq!(to_wad(3), 3 * WAD);
    assert_eq!(wad_mul(3 * WAD, WAD / 2), Some(3 * WAD / 2));
    assert_eq!(wad_mul(-3 * WAD, WAD / 2), Some(-3 * WAD / 2));
    assert_eq!(wad_mul(i128::MAX, 2), None);
    assert_eq!(wad_mul(i128::MIN, 2), None);
    assert_eq!(unsafe_wad_mul(-7, WAD), -7);
    assert_eq!(checked_wad_mul(2 * WAD, 3 * WAD), Some(6 * WAD));
    assert_eq!(checked_wad_mul(i128::MAX, 1), None);
    assert_eq!(checked_wad_mul(1_000_000_000_000_000_000_000_000, 1_000_000_000_000_000_000_000_000), None);
}

#[test]
fn wad_log_and_exp() {
    assert_eq!(wad_ln(WAD), 0);
    assert_eq!(wad_ln(2 * WAD), LN2_WAD);
    assert!(wad_ln(WAD / 2) < 0);
    assert_eq!(wad_exp_checked(0), Some(WAD));
    assert_eq!(wad_exp_checked(WAD), Some(2_718_281_828_458_928_456));
    assert_eq!(wad_exp_checked(-WAD), Some(367_879_441_171_470_058));
    assert_eq!(wad_exp_checked(89 * WAD), Some(i128::MAX));
    assert_eq!(wad_exp_checked(-89 * WAD), Some(0));
    assert_eq!(wad_exp_checked(80 * WAD), Some(i128::MAX));
}

#[test]
fn linear_schedule_and_core() {
    let s = LinearSchedule { r: 4 * WAD };
    assert_eq!(s.get_target_sale_time(10 * WAD), 10 * WAD / 4);
    assert_eq!(s.get_target_sale_time(i128::MAX), i128::MAX / (4 * WAD));
    let core = VRGDACore::new(WAD / 10, WAD / 5).unwrap();
    assert_eq!(core.target_price, WAD / 10);
    assert_eq!(core.decay_constant, wad_ln(WAD - WAD / 5));
    assert!(core.decay_constant < 0);
    assert_eq!(VRGDACore::new(WAD, 0).err(), Some(VRGDAError::NonNegativeDecayConstant));
    assert_eq!(VRGDACore::new(WAD, WAD).err(), Some(VRGDAError::InvalidDecayConstant));
    assert_eq!(VRGDACore::new(WAD, -1).err(), Some(VRGDAError::InvalidDecayConstant));
}
