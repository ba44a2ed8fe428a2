//! Scalar fixed-point ("wad") arithmetic on `i128`, scaled by 10^18.
use vstd::prelude::*;
use vstd::arithmetic::power2::{lemma_pow2_strictly_increases, lemma_pow2_unfold, pow2};
use crate::precise_number::{ln_reduce_down, ln_reduce_up};
use crate::error::VRGDAError;
use crate::wide::lemma_pow2_widths;

verus! {

pub type Wad = i128;

/// 1.0.
pub const WAD: Wad = 1_000_000_000_000_000_000;

/// ln(2).
pub const LN2_WAD: i128 = 693_147_180_559_945_309;

/// 88.0: beyond this magnitude `wad_exp_checked` saturates.
pub const MAX_EXP_ABS_WAD: i128 = 88_000_000_000_000_000_000;

/// Half of the largest `i128`: operands of `checked_wad_mul` stay within it.
pub const HALF_MAX: i128 = 85_070_591_730_234_615_865_843_651_857_942_052_863;

/// Rust's division on integers: the quotient rounded toward zero.
pub open spec fn tdiv(a: int, d: int) -> int {
    if a >= 0 {
        a / d
    } else {
        -((-a) / d)
    }
}

/// `x` brought into `[i128::MIN, i128::MAX]`.
pub open spec fn saturate(x: int) -> int {
    if x > i128::MAX {
        i128::MAX as int
    } else if x < i128::MIN {
        i128::MIN as int
    } else {
        x
    }
}

fn is_too_large_positive(x: i128) -> (r: bool)
    ensures
        r == (x > MAX_EXP_ABS_WAD),
{
    x > MAX_EXP_ABS_WAD
}

fn is_too_large_negative(x: i128) -> (r: bool)
    ensures
        r == (x < -MAX_EXP_ABS_WAD),
{
    x < -MAX_EXP_ABS_WAD
}

/// `(a * b) / WAD`; `None` where the product leaves `i128`.
pub fn wad_mul(a: Wad, b: Wad) -> (r: Option<Wad>)
    ensures
        r is None <==> (a * b > i128::MAX || a * b < i128::MIN),
        r is Some ==> r->0 == tdiv(a * b, WAD as int),
{
    match a.checked_mul(b) {
        Some(p) => Some(p / WAD),
        None => None,
    }
}

/// `(a * b) / WAD` where the product fits an `i128`.
pub fn unsafe_wad_mul(a: Wad, b: Wad) -> (r: Wad)
    requires
        i128::MIN <= a * b <= i128::MAX,
    ensures
        r == tdiv(a * b, WAD as int),
{
    (a * b) / WAD
}

/// The whole number `x` as a wad.
pub fn to_wad(x: u64) -> (r: Wad)
    ensures
        r == x * WAD,
{
    assert(x * WAD <= u64::MAX * WAD) by (nonlinear_arith)
        requires x <= u64::MAX;
    (x as Wad) * WAD
}

/// The terms `i..=10` of the series for `ln(1 + z)`, each power of `-z` rounded
/// toward zero from the one before it.
pub open spec fn wad_ln_series(z: int, term: int, i: int, acc: int) -> int
    decreases 11 - i,
{
    if 2 <= i <= 10 {
        let t = tdiv(term * (-z), WAD as int);
        wad_ln_series(z, t, i + 1, acc + tdiv(t, i))
    } else {
        acc
    }
}

/// What `wad_ln` returns for a positive `x`: `x` is brought into `[WAD, 2 * WAD)`
/// by powers of two `k`, and the result is the ten-term series for `ln(1 + z)`
/// plus `k * ln(2)`.
pub open spec fn spec_wad_ln(x: nat) -> int {
    let down = ln_reduce_down(x, 0);
    let up = ln_reduce_up(down.0, down.1);
    let z = up.0 - WAD;
    wad_ln_series(z, z, 2, z) + up.1 * LN2_WAD
}

/// Natural logarithm of a positive wad.
pub fn wad_ln(x: Wad) -> (r: Wad)
    requires
        x > 0,
    ensures
        r == spec_wad_ln(x as nat),
{
    let mut x = x;
    let ghost x0 = x as nat;
    let mut k: i128 = 0;
    proof {
        lemma_pow2_widths();
        vstd::arithmetic::power2::lemma2_to64();
        assert(pow2(128) > i128::MAX);
        assert(x * pow2(0) == x0);
    }
    while x >= 2 * WAD
        invariant
            x > 0,
            0 <= k,
            k <= 128,
            x * pow2(k as nat) <= x0,
            x0 <= i128::MAX,
            pow2(128) > i128::MAX,
            ln_reduce_down(x as nat, k as int) == ln_reduce_down(x0, 0),
        decreases x,
    {
        proof {
            lemma_pow2_unfold((k + 1) as nat);
            assert((x / 2) * pow2((k + 1) as nat) <= x * pow2(k as nat)) by (nonlinear_arith)
                requires pow2((k + 1) as nat) == 2 * pow2(k as nat), x >= 0;
            assert(pow2((k + 1) as nat) <= x0) by (nonlinear_arith)
                requires (x / 2) * pow2((k + 1) as nat) <= x0, x / 2 >= 1;
            if k + 1 > 128 {
                lemma_pow2_strictly_increases(128, (k + 1) as nat);
            }
        }
        x = x / 2;
        k = k + 1;
    }
    while x < WAD
        invariant
            0 < x < 2 * WAD,
            -(x as int) <= k <= 200,
            ln_reduce_up(x as nat, k as int) == ln_reduce_up(
                ln_reduce_down(x0, 0).0,
                ln_reduce_down(x0, 0).1,
            ),
        decreases 2 * WAD - x,
    {
        x = x * 2;
        k = k - 1;
    }
    let z = x - WAD;
    let mut term: i128 = z;
    let mut series: Wad = term;
    let mut i: i128 = 2;
    while i <= 10
        invariant
            2 <= i <= 11,
            0 <= z < WAD,
            -z <= term <= z,
            -(i as int) * WAD <= series <= i as int * WAD,
            wad_ln_series(z as int, term as int, i as int, series as int) == wad_ln_series(
                z as int,
                z as int,
                2,
                z as int,
            ),
        decreases 11 - i,
    {
        assert(-(z * z) <= term * (-z) <= z * z) by (nonlinear_arith)
            requires -z <= term <= z, z >= 0;
        assert(z * z <= z * WAD) by (nonlinear_arith)
            requires 0 <= z < WAD;
        assert(tdiv(term * (-z), WAD as int) <= z && tdiv(term * (-z), WAD as int) >= -z)
            by (nonlinear_arith)
            requires
                -(z * z) <= term * (-z) <= z * z,
                z * z <= z * WAD,
                z >= 0,
        ;
        term = unsafe_wad_mul(term, -z);
        series = series + term / i;
        i = i + 1;
    }
    series + k * LN2_WAD
}

/// `(a * b) / WAD`; `None` where either operand exceeds `HALF_MAX` in magnitude or
/// the product leaves `i128`.
pub fn checked_wad_mul(a: i128, b: i128) -> (r: Option<i128>)
    ensures
        r == (if a > HALF_MAX || a < -HALF_MAX || b > HALF_MAX || b < -HALF_MAX || a * b
            > i128::MAX || a * b < i128::MIN {
            None::<i128>
        } else {
            Some(tdiv(a * b, WAD as int) as i128)
        }),
{
    if a > HALF_MAX || a < -HALF_MAX || b > HALF_MAX || b < -HALF_MAX {
        None
    } else {
        match a.checked_mul(b) {
            Some(p) => Some(p / WAD),
            None => None,
        }
    }
}

/// Subtracting `ln(2)` from `x` until it is at most `ln(2)`, counting up in `k`.
pub open spec fn exp_reduce_down(x: int, k: int) -> (int, int)
    decreases x,
{
    if x > LN2_WAD {
        exp_reduce_down(x - LN2_WAD, k + 1)
    } else {
        (x, k)
    }
}

/// Adding `ln(2)` to `x` until it is at least `-ln(2)`, counting down in `k`.
pub open spec fn exp_reduce_up(x: int, k: int) -> (int, int)
    decreases -x,
{
    if x < -LN2_WAD {
        exp_reduce_up(x + LN2_WAD, k - 1)
    } else {
        (x, k)
    }
}

/// The terms `i..=10` of the series for `e^x`, each rounded toward zero.
pub open spec fn wad_exp_series(x: int, term: int, i: int, sum: int) -> int
    decreases 11 - i,
{
    if 1 <= i <= 10 {
        let t = tdiv(tdiv(term * x, WAD as int), i);
        wad_exp_series(x, t, i + 1, sum + t)
    } else {
        sum
    }
}

/// `v` doubled `n` times, or `i128::MAX` once a doubling leaves `i128`.
pub open spec fn double_saturating(v: int, n: nat) -> int
    decreases n,
{
    if n == 0 {
        v
    } else if 2 * v > i128::MAX || 2 * v < i128::MIN {
        i128::MAX as int
    } else {
        double_saturating(2 * v, (n - 1) as nat)
    }
}

/// `v` halved `n` times, each time rounded toward zero.
pub open spec fn halve(v: int, n: nat) -> int
    decreases n,
{
    if n == 0 {
        v
    } else {
        halve(tdiv(v, 2), (n - 1) as nat)
    }
}

/// What `wad_exp_checked` returns: saturation beyond `MAX_EXP_ABS_WAD`; otherwise
/// `x = k * ln(2) + y` with `|y| <= ln(2)`, the ten-term series for `e^y`, and `k`
/// doublings or halvings (at most 127).
pub open spec fn spec_wad_exp(x: int) -> int {
    if x > MAX_EXP_ABS_WAD {
        i128::MAX as int
    } else if x < -MAX_EXP_ABS_WAD {
        0
    } else if x == 0 {
        WAD as int
    } else {
        let a = exp_reduce_down(x, 0);
        let b = exp_reduce_up(a.0, a.1);
        let s = wad_exp_series(b.0, WAD as int, 1, WAD as int);
        if b.1 > 127 {
            i128::MAX as int
        } else if b.1 > 0 {
            double_saturating(s, b.1 as nat)
        } else if b.1 < -127 {
            0
        } else if b.1 < 0 {
            halve(s, (-b.1) as nat)
        } else {
            s
        }
    }
}

/// `e^x` for a wad `x`, without floating point.
pub fn wad_exp_checked(x: i128) -> (r: Option<i128>)
    ensures
        r matches Some(v) && v == spec_wad_exp(x as int),
{
    if is_too_large_positive(x) {
        return Some(i128::MAX);
    }
    if is_too_large_negative(x) {
        return Some(0);
    }
    if x == 0 {
        return Some(WAD);
    }
    let ghost x0 = x as int;
    let mut y = x;
    let mut k: i64 = 0;
    while y > LN2_WAD
        invariant
            y + k * LN2_WAD == x0,
            0 <= k <= 200,
            k > 0 ==> y > 0,
            -MAX_EXP_ABS_WAD <= x0 <= MAX_EXP_ABS_WAD,
            exp_reduce_down(y as int, k as int) == exp_reduce_down(x0, 0),
        decreases y,
    {
        y = y - LN2_WAD;
        k = k + 1;
    }
    let ghost a = exp_reduce_down(x0, 0);
    while y < -LN2_WAD
        invariant
            y + k * LN2_WAD == x0,
            y <= LN2_WAD,
            -MAX_EXP_ABS_WAD <= x0 <= MAX_EXP_ABS_WAD,
            k <= 0 || y > -LN2_WAD,
            k <= 200,
            exp_reduce_up(y as int, k as int) == exp_reduce_up(a.0, a.1),
        decreases -y,
    {
        y = y + LN2_WAD;
        k = k - 1;
    }
    let ghost b = exp_reduce_up(a.0, a.1);
    assert(b == (y as int, k as int));
    let mut sum: i128 = WAD;
    let mut term: i128 = WAD;
    let mut i: i128 = 1;
    while i <= 10
        invariant
            1 <= i <= 11,
            -LN2_WAD <= y <= LN2_WAD,
            -WAD <= term <= WAD,
            -(i as int) * WAD <= sum <= (i as int) * WAD,
            wad_exp_series(y as int, term as int, i as int, sum as int) == wad_exp_series(
                y as int,
                WAD as int,
                1,
                WAD as int,
            ),
        decreases 11 - i,
    {
        assert(-(WAD * LN2_WAD) <= term * y <= WAD * LN2_WAD) by (nonlinear_arith)
            requires -WAD <= term <= WAD, -LN2_WAD <= y <= LN2_WAD;
        assert(-WAD <= tdiv(term * y, WAD as int) <= WAD) by (nonlinear_arith)
            requires -(WAD * LN2_WAD) <= term * y <= WAD * LN2_WAD;
        let t = checked_wad_mul(term, y).unwrap();
        assert(-WAD <= tdiv(t as int, i as int) <= WAD) by (nonlinear_arith)
            requires -WAD <= t <= WAD, i >= 1;
        term = t / i;
        sum = sum + term;
        i = i + 1;
    }
    let ghost s0 = wad_exp_series(y as int, WAD as int, 1, WAD as int);
    assert(s0 == sum);
    assert(x0 != 0 && -MAX_EXP_ABS_WAD <= x0 <= MAX_EXP_ABS_WAD);
    let mut result: i128 = sum;
    if k > 0 {
        if k > 127 {
            return Some(i128::MAX);
        }
        let mut j: i64 = 0;
        while j < k
            invariant
                0 <= j <= k <= 127,
                double_saturating(result as int, (k - j) as nat) == double_saturating(
                    sum as int,
                    k as nat,
                ),
                spec_wad_exp(x0) == double_saturating(sum as int, k as nat),
                x0 == x,
            decreases k - j,
        {
            match result.checked_mul(2) {
                Some(v) => result = v,
                None => {
                    assert(2 * result > i128::MAX || 2 * result < i128::MIN);
                    assert(double_saturating(result as int, (k - j) as nat) == i128::MAX);
                    return Some(i128::MAX);
                },
            }
            j = j + 1;
        }
    } else if k < 0 {
        let n = -k;
        if n > 127 {
            return Some(0);
        }
        let mut j: i64 = 0;
        while j < n
            invariant
                0 <= j <= n <= 127,
                halve(result as int, (n - j) as nat) == halve(sum as int, n as nat),
                spec_wad_exp(x0) == halve(sum as int, n as nat),
            decreases n - j,
        {
            result = result / 2;
            j = j + 1;
        }
    }
    Some(result)
}

/// How many tokens should have sold by a given time.
pub trait VrgdaSchedule {
    /// The parameters admit the computation.
    spec fn well_formed(&self) -> bool;

    /// Target sale time (wad) of token number `sold` (wad).
    spec fn target_sale_time(&self, sold: int) -> int;

    fn get_target_sale_time(&self, sold: Wad) -> (t: Wad)
        requires
            self.well_formed(),
        ensures
            t == self.target_sale_time(sold as int),
    ;
}

/// `r` tokens (wad) per unit of time: token `n` is due at `n / r`.
pub struct LinearSchedule {
    pub r: Wad,
}

impl VrgdaSchedule for LinearSchedule {
    open spec fn well_formed(&self) -> bool {
        self.r > 0
    }

    open spec fn target_sale_time(&self, sold: int) -> int {
        tdiv(saturate(sold * WAD), self.r as int)
    }

    fn get_target_sale_time(&self, sold: Wad) -> (t: Wad) {
        let p: i128 = match sold.checked_mul(WAD) {
            Some(p) => p,
            None => if sold < 0 {
                i128::MIN
            } else {
                i128::MAX
            },
        };
        p / self.r
    }
}

/// Fixed parameters of an auction priced with wads.
pub struct VRGDACore {
    /// Target price (wad).
    pub target_price: Wad,
    /// `ln(1 - price_decay_percent)` (wad), negative.
    pub decay_constant: Wad,
}

impl VRGDACore {
    /// Parameters for a target price and a decay fraction (wad, e.g. 0.2e18 for 20%).
    /// A fraction outside `[0, WAD)` is refused, and so is one whose `ln(1 - fraction)`
    /// does not come out negative.
    pub fn new(_target_price: Wad, _price_decay_percent: Wad) -> (c: Result<Self, VRGDAError>)
        ensures
            !(0 <= _price_decay_percent < WAD) ==> c matches Err(
                VRGDAError::InvalidDecayConstant,
            ),
            0 <= _price_decay_percent < WAD && spec_wad_ln((WAD - _price_decay_percent) as nat)
                >= 0 ==> c matches Err(VRGDAError::NonNegativeDecayConstant),
            0 <= _price_decay_percent < WAD && spec_wad_ln((WAD - _price_decay_percent) as nat)
                < 0 ==> (c matches Ok(core) && core.target_price == _target_price
                && core.decay_constant == spec_wad_ln((WAD - _price_decay_percent) as nat)),
    {
        if _price_decay_percent < 0 || _price_decay_percent >= WAD {
            return Err(VRGDAError::InvalidDecayConstant);
        }
        let decay_constant = wad_ln(WAD - _price_decay_percent);
        if decay_constant >= 0 {
            return Err(VRGDAError::NonNegativeDecayConstant);
        }
        Ok(VRGDACore { target_price: _target_price, decay_constant })
    }
}

} // verus!
