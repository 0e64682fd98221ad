use vstd::prelude::*;

verus! {

/// Total basis points (100.00%).
pub const BPS_LIMIT: u32 = 10_000;

/// `x` is representable as an `i128`.
pub open spec fn fits_i128(x: int) -> bool {
    i128::MIN <= x <= i128::MAX
}

/// Integer division rounding toward zero, as Rust's `/` on signed integers.
pub open spec fn div_trunc(a: int, b: int) -> int {
    if a == 0 {
        0
    } else if a > 0 && b > 0 {
        a / b
    } else if a < 0 && b < 0 {
        (-a) / (-b)
    } else if a < 0 {
        -((-a) / b)
    } else {
        -(a / (-b))
    }
}

/// A quotient rounded toward zero is no larger in magnitude than the
/// dividend, and strictly smaller when the divisor is not a unit.
pub proof fn lemma_div_trunc_bounds(a: int, b: int)
    requires
        b != 0,
    ensures
        a >= 0 && b > 0 ==> 0 <= div_trunc(a, b) <= a,
        a >= 0 && b < 0 ==> -a <= div_trunc(a, b) <= 0,
        a < 0 && b > 0 ==> a <= div_trunc(a, b) <= 0,
        a < 0 && b < 0 ==> 0 <= div_trunc(a, b) <= -a,
        a < 0 && b < -1 ==> 0 <= div_trunc(a, b) <= (-a) / 2,
{
    if a > 0 && b > 0 {
        assert(0 <= a / b <= a) by (nonlinear_arith)
            requires a > 0, b > 0;
    } else if a < 0 && b < 0 {
        assert(0 <= (-a) / (-b) <= -a) by (nonlinear_arith)
            requires a < 0, b < 0;
        if b < -1 {
            assert((-a) / (-b) <= (-a) / 2) by (nonlinear_arith)
                requires a < 0, b < -1;
        }
    } else if a < 0 {
        assert(0 <= (-a) / b <= -a) by (nonlinear_arith)
            requires a < 0, b > 0;
    } else if a > 0 {
        assert(0 <= a / (-b) <= a) by (nonlinear_arith)
            requires a > 0, b < 0;
    }
}

/// The fee on a positive amount at a rate of at most 100% lies between 0 and
/// the amount.
pub proof fn lemma_fee_bounds(amount: int, fee_bps: int)
    requires
        amount > 0,
        0 <= fee_bps <= BPS_LIMIT,
    ensures
        0 <= fee_of(amount, fee_bps) <= amount,
{
    if fee_bps > 0 {
        assert(0 < amount * fee_bps <= amount * 10000) by (nonlinear_arith)
            requires amount > 0, 0 < fee_bps <= 10000;
        assert((amount * fee_bps) / 10000 <= amount) by (nonlinear_arith)
            requires amount > 0, 0 < amount * fee_bps <= amount * 10000;
        assert((amount * fee_bps) / 10000 >= 0) by (nonlinear_arith)
            requires amount * fee_bps > 0;
    } else {
        assert(amount * fee_bps == 0) by (nonlinear_arith)
            requires fee_bps == 0;
    }
}

/// A quotient of `i128` values is an `i128` unless it is `i128::MIN / -1`.
pub proof fn lemma_div_trunc_fits(a: int, b: int)
    requires
        fits_i128(a),
        quotient_defined(a, b),
    ensures
        fits_i128(div_trunc(a, b)),
{
    lemma_div_trunc_bounds(a, b);
}

/// The quotient `a / b` of two `i128` values exists and is an `i128`.
pub open spec fn quotient_defined(a: int, b: int) -> bool {
    b != 0 && !(a == i128::MIN && b == -1)
}

/// Shares minted for a deposit of net value `deposit_value` into a vault that
/// has issued `total_shares` shares and holds `total_vault_value`: the deposit
/// value itself while the vault is empty, otherwise its proportional part.
pub open spec fn shares_to_mint(deposit_value: int, total_shares: int, total_vault_value: int) -> int {
    if total_shares == 0 || total_vault_value == 0 {
        deposit_value
    } else {
        div_trunc(deposit_value * total_shares, total_vault_value)
    }
}

/// The computation of `shares_to_mint` stays inside `i128`.
pub open spec fn shares_to_mint_defined(deposit_value: int, total_shares: int, total_vault_value: int) -> bool {
    total_shares == 0 || total_vault_value == 0 || (fits_i128(deposit_value * total_shares)
        && quotient_defined(deposit_value * total_shares, total_vault_value))
}

/// The part of `asset_balance` that `user_shares` of `total_shares` shares
/// stand for; nothing when no share exists.
pub open spec fn proportional_amount(user_shares: int, total_shares: int, asset_balance: int) -> int {
    if total_shares == 0 {
        0
    } else {
        div_trunc(user_shares * asset_balance, total_shares)
    }
}

/// The computation of `proportional_amount` stays inside `i128`.
pub open spec fn proportional_amount_defined(user_shares: int, total_shares: int, asset_balance: int) -> bool {
    total_shares == 0 || (fits_i128(user_shares * asset_balance) && quotient_defined(
        user_shares * asset_balance,
        total_shares,
    ))
}

/// The fee of `fee_bps` basis points on `amount`, rounded toward zero.
pub open spec fn fee_of(amount: int, fee_bps: int) -> int {
    div_trunc(amount * fee_bps, BPS_LIMIT as int)
}

/// Calculates the number of shares to mint for a given deposit value.
pub fn calculate_shares_to_mint(deposit_value: i128, total_shares: i128, total_vault_value: i128) -> (shares: i128)
    requires
        shares_to_mint_defined(deposit_value as int, total_shares as int, total_vault_value as int),
    ensures
        shares == shares_to_mint(deposit_value as int, total_shares as int, total_vault_value as int),
{
    if total_shares == 0 || total_vault_value == 0 {
        return deposit_value;
    }
    proof {
        lemma_div_trunc_fits(deposit_value * total_shares, total_vault_value as int);
    }
    (deposit_value * total_shares).checked_div(total_vault_value).unwrap()
}

/// Calculates the proportional amount of an asset to withdraw based on shares burned.
pub fn calculate_proportional_amount(user_shares: i128, total_shares: i128, asset_balance: i128) -> (amount: i128)
    requires
        proportional_amount_defined(user_shares as int, total_shares as int, asset_balance as int),
    ensures
        amount == proportional_amount(user_shares as int, total_shares as int, asset_balance as int),
{
    if total_shares == 0 {
        return 0;
    }
    proof {
        lemma_div_trunc_fits(user_shares * asset_balance, total_shares as int);
    }
    (user_shares * asset_balance).checked_div(total_shares).unwrap()
}

/// Calculates the fee amount based on basis points.
pub fn calculate_fee(amount: i128, fee_bps: u32) -> (fee: i128)
    requires
        fits_i128(amount * fee_bps),
    ensures
        fee == fee_of(amount as int, fee_bps as int),
{
    (amount * (fee_bps as i128)) / (BPS_LIMIT as i128)
}

} // verus!
