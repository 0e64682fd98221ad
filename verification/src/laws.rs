use vstd::prelude::*;

use crate::errors::ContractError;
use crate::digest::basket_hash;
use crate::math::{fee_of, lemma_fee_bounds, proportional_amount, shares_to_mint, BPS_LIMIT};
use crate::model::{
    allocation_check, basket_value, bps_sum, claim_result, create_error, created, deposit_fee, deposit_in_range,
    deposit_result, deposit_shares, deposited, distinct_assets, fee_claims, fees_claimed, holds_asset,
    lemma_deposit_shares_nonneg, lemma_proportional_amount_bounds, manager_error, payouts, rebalance_record,
    rebalance_result, rebalanced, status_set, vault_sound, withdraw_in_range, withdraw_result, withdrawal_amounts,
    withdrawn, VaultView, MAX_BASKET_ASSETS, MAX_MANAGEMENT_FEE_BPS,
};
use crate::types::{Address, AssetAllocation, Bytes32, RebalanceRecord, VaultConfig, VaultStatus};

verus! {

/// A basket passes validation exactly when it lists at most
/// `MAX_BASKET_ASSETS` allocations, no asset twice, and weights whose sum is
/// 10,000 basis points; one that lists distinct assets within the limit but
/// whose weights add up to anything else, even past `u32::MAX`, is refused as
/// a mismatch.
pub proof fn law_allocation_check_ok_iff(allocations: Seq<AssetAllocation>)
    ensures
        allocation_check(allocations) == Ok::<(), ContractError>(()) <==> (allocations.len() <= MAX_BASKET_ASSETS
            && distinct_assets(allocations) && bps_sum(allocations) == BPS_LIMIT),
        allocations.len() <= MAX_BASKET_ASSETS && distinct_assets(allocations) && bps_sum(allocations)
            != BPS_LIMIT ==> allocation_check(allocations) == Err::<(), ContractError>(
            ContractError::AllocationTotalMismatch,
        ),
{
}

/// The first deposit into a vault without shares mints as many shares as the
/// deposit's net value.
pub proof fn law_first_deposit_mints_net_value(net_value: int, total_vault_value: int)
    ensures
        shares_to_mint(net_value, 0, total_vault_value) == net_value,
{
}

/// The management fee on a positive deposit lies between 0 and the amount,
/// and under the fee cap it is at most a twentieth of the amount.
pub proof fn law_fee_within_amount(amount: int, fee_bps: int)
    requires
        amount > 0,
        0 <= fee_bps <= MAX_MANAGEMENT_FEE_BPS,
    ensures
        0 <= fee_of(amount, fee_bps) <= amount,
        20 * fee_of(amount, fee_bps) <= amount,
{
    lemma_fee_bounds(amount, fee_bps);
    if fee_bps > 0 {
        assert(amount * fee_bps > 0) by (nonlinear_arith)
            requires amount > 0, fee_bps > 0;
        assert(20 * ((amount * fee_bps) / 10000) <= amount) by (nonlinear_arith)
            requires amount > 0, 0 < fee_bps <= 500;
    } else {
        assert(amount * fee_bps == 0) by (nonlinear_arith)
            requires fee_bps == 0;
    }
}

/// A deposit splits its amount between the asset's balance and its accrued
/// fees, and credits the minted shares to the depositor and to the total.
pub proof fn law_deposit_accounts_for_amount(v: VaultView, user: Address, asset: Address, amount: int)
    requires
        amount > 0,
        v.config.management_fee_bps <= BPS_LIMIT,
        deposit_in_range(v, user, asset, amount),
    ensures
        ({
            let after = deposited(v, user, asset, amount);
            &&& after.asset_balances[asset] - v.asset_balances[asset] + after.accrued_fees[asset]
                - v.accrued_fees[asset] == amount
            &&& after.user_shares[user] - v.user_shares[user] == deposit_shares(v, amount)
            &&& after.total_shares - v.total_shares == deposit_shares(v, amount)
            &&& forall|k: Address| k != user ==> after.user_shares[k] == v.user_shares[k]
            &&& forall|k: Address| k != asset ==> after.asset_balances[k] == v.asset_balances[k]
        }),
{
    if v.config.management_fee_bps > 0 {
        lemma_fee_bounds(amount, v.config.management_fee_bps as int);
    }
}

proof fn lemma_payouts_within(
    allocations: Seq<AssetAllocation>,
    balances: Map<Address, i128>,
    shares_to_burn: int,
    total_shares: int,
)
    requires
        forall|k: Address| #[trigger] balances[k] >= 0,
        0 < shares_to_burn <= total_shares,
        payouts(allocations, balances, shares_to_burn, total_shares) is Some,
    ensures
        ({
            let state = payouts(allocations, balances, shares_to_burn, total_shares)->Some_0;
            &&& forall|k: Address| 0 <= #[trigger] state.0[k] <= balances[k]
            &&& forall|i: int|
                0 <= i < state.1.len() ==> 0 <= #[trigger] state.1[i].1 <= balances[state.1[i].0]
        }),
    decreases allocations.len(),
{
    if allocations.len() > 0 {
        lemma_payouts_within(allocations.drop_last(), balances, shares_to_burn, total_shares);
        let state = payouts(allocations.drop_last(), balances, shares_to_burn, total_shares)->Some_0;
        let asset = allocations.last().asset;
        lemma_proportional_amount_bounds(shares_to_burn, total_shares, state.0[asset] as int);
    }
}

/// A withdrawal of at most all issued shares from a vault with no negative
/// holding or balance pays out no negative amount and none above the asset's
/// balance before, never overdraws or adds to a balance, and leaves no
/// negative holding or share total. In a sound vault every holding is at
/// most the share total, so any withdrawal that passes the share check meets
/// these premises.
pub proof fn law_withdrawal_within_balances(v: VaultView, user: Address, shares_to_burn: int)
    requires
        forall|k: Address| #[trigger] v.user_shares[k] >= 0,
        forall|k: Address| #[trigger] v.asset_balances[k] >= 0,
        0 < shares_to_burn <= v.user_shares[user],
        shares_to_burn <= v.total_shares,
        withdraw_in_range(v, shares_to_burn),
    ensures
        ({
            let paid = withdrawal_amounts(v, shares_to_burn);
            let after = withdrawn(v, user, shares_to_burn);
            &&& forall|i: int| 0 <= i < paid.len() ==> 0 <= #[trigger] paid[i].1 <= v.asset_balances[paid[i].0]
            &&& forall|k: Address| 0 <= #[trigger] after.asset_balances[k] <= v.asset_balances[k]
            &&& forall|k: Address| #[trigger] after.user_shares[k] >= 0
            &&& after.total_shares >= 0
        }),
{
    lemma_payouts_within(v.allocations, v.asset_balances, shares_to_burn, v.total_shares as int);
    let after = withdrawn(v, user, shares_to_burn);
    assert forall|k: Address| #[trigger] after.user_shares[k] >= 0 by {
        if k != user {
            assert(v.user_shares[k] >= 0);
        }
    }
}

/// Paying out a basket whose assets are distinct leaves every asset that is
/// not in it untouched, and takes from each asset in it its proportional
/// part of its balance before, once.
proof fn lemma_payouts_distinct(
    allocations: Seq<AssetAllocation>,
    balances: Map<Address, i128>,
    shares_to_burn: int,
    total_shares: int,
    k: Address,
)
    requires
        distinct_assets(allocations),
        payouts(allocations, balances, shares_to_burn, total_shares) is Some,
    ensures
        payouts(allocations, balances, shares_to_burn, total_shares)->Some_0.0[k] == if holds_asset(
            allocations,
            k,
        ) && proportional_amount(shares_to_burn, total_shares, balances[k] as int) > 0 {
            balances[k] - proportional_amount(shares_to_burn, total_shares, balances[k] as int)
        } else {
            balances[k] as int
        },
    decreases allocations.len(),
{
    if allocations.len() > 0 {
        let q = allocations.drop_last();
        assert forall|i: int, j: int| 0 <= i < q.len() && 0 <= j < q.len() && i != j implies q[i].asset
            != q[j].asset by {
            assert(q[i] == allocations[i] && q[j] == allocations[j]);
        }
        lemma_payouts_distinct(q, balances, shares_to_burn, total_shares, k);
        let last = allocations.last().asset;
        if last == k {
            if holds_asset(q, k) {
                let j = choose|j: int| 0 <= j < q.len() && q[j].asset == k;
                assert(allocations[j] == q[j]);
                assert(allocations[allocations.len() - 1].asset == k);
            }
            assert(holds_asset(allocations, k)) by {
                assert(allocations[allocations.len() - 1].asset == k);
            }
        } else {
            assert(holds_asset(allocations, k) == holds_asset(q, k)) by {
                if holds_asset(allocations, k) {
                    let j = choose|j: int| 0 <= j < allocations.len() && allocations[j].asset == k;
                    assert(j < allocations.len() - 1);
                    assert(q[j] == allocations[j]);
                }
                if holds_asset(q, k) {
                    let j = choose|j: int| 0 <= j < q.len() && q[j].asset == k;
                    assert(allocations[j] == q[j]);
                }
            }
        }
    }
}

/// Withdrawals round the paid amount down: when some shares remain, the
/// remaining shareholders' claim per share on any basket asset does not
/// fall, provided the basket lists each asset once.
pub proof fn law_withdrawal_rounding_protects_holders(
    v: VaultView,
    user: Address,
    shares_to_burn: int,
    asset: Address,
)
    requires
        distinct_assets(v.allocations),
        holds_asset(v.allocations, asset),
        0 < shares_to_burn < v.total_shares,
        v.asset_balances[asset] >= 0,
        withdraw_in_range(v, shares_to_burn),
    ensures
        withdrawn(v, user, shares_to_burn).asset_balances[asset] * v.total_shares >= v.asset_balances[asset] * (
        v.total_shares - shares_to_burn),
{
    let t = v.total_shares as int;
    let b = v.asset_balances[asset] as int;
    lemma_payouts_distinct(v.allocations, v.asset_balances, shares_to_burn, t, asset);
    assert(shares_to_burn * b >= 0) by (nonlinear_arith)
        requires shares_to_burn > 0, b >= 0;
    let amount = proportional_amount(shares_to_burn, t, b);
    assert(amount * t <= shares_to_burn * b) by {
        if shares_to_burn * b > 0 {
            assert(((shares_to_burn * b) / t) * t <= shares_to_burn * b) by (nonlinear_arith)
                requires shares_to_burn * b > 0, t > 0;
        }
    }
    assert((b - amount) * t >= b * (t - shares_to_burn)) by (nonlinear_arith)
        requires amount * t <= shares_to_burn * b;
    assert(b * t >= b * (t - shares_to_burn)) by (nonlinear_arith)
        requires b >= 0, shares_to_burn > 0;
}

/// A deposit into a vault that has shares and value, with a fee of at most
/// 100%, does not dilute existing shareholders: the value per share after it
/// is at least the value per share before.
pub proof fn law_deposit_does_not_dilute(v: VaultView, user: Address, asset: Address, amount: int)
    requires
        amount > 0,
        v.config.management_fee_bps <= BPS_LIMIT,
        v.total_shares > 0,
        basket_value(v.asset_balances, v.allocations) > 0,
    ensures
        ({
            let shares = deposit_shares(v, amount);
            let value = basket_value(v.asset_balances, v.allocations);
            let net = amount - deposit_fee(v, amount);
            let t = v.total_shares as int;
            &&& shares >= 0
            &&& shares * value <= net * t
            &&& (t + shares) * value <= t * (value + net)
        }),
{
    let value = basket_value(v.asset_balances, v.allocations);
    let net = amount - deposit_fee(v, amount);
    let t = v.total_shares as int;
    if v.config.management_fee_bps > 0 {
        lemma_fee_bounds(amount, v.config.management_fee_bps as int);
    }
    assert(net >= 0);
    assert(net * t >= 0) by (nonlinear_arith)
        requires net >= 0, t > 0;
    let shares = deposit_shares(v, amount);
    if net * t > 0 {
        assert(shares == (net * t) / value);
        assert(((net * t) / value) * value <= net * t && (net * t) / value >= 0) by (nonlinear_arith)
            requires net * t > 0, value > 0;
    } else {
        assert(shares == 0);
    }
    assert(shares * value <= net * t);
    assert((t + shares) * value <= t * (value + net)) by (nonlinear_arith)
        requires shares * value <= net * t;
}

/// A rebalance records the hashes of the basket before and after it, so
/// rebalancing to the same basket records equal hashes.
pub proof fn law_rebalance_hashes_follow_baskets(
    timestamp: u64,
    previous: Seq<AssetAllocation>,
    next: Seq<AssetAllocation>,
)
    ensures
        rebalance_record(timestamp, previous, next).old_allocation_hash == basket_hash(previous),
        rebalance_record(timestamp, previous, next).new_allocation_hash == basket_hash(next),
        previous == next ==> rebalance_record(timestamp, previous, next).old_allocation_hash
            == rebalance_record(timestamp, previous, next).new_allocation_hash,
{
}

proof fn lemma_fee_claims_clear(allocations: Seq<AssetAllocation>, fees: Map<Address, i128>, i: int)
    requires
        forall|k: Address| #[trigger] fees[k] >= 0,
        0 <= i < allocations.len(),
    ensures
        fee_claims(allocations, fees).0[allocations[i].asset] == 0,
    decreases allocations.len(),
{
    let state = fee_claims(allocations.drop_last(), fees);
    let asset = allocations.last().asset;
    if i < allocations.len() - 1 {
        lemma_fee_claims_clear(allocations.drop_last(), fees, i);
        assert(allocations.drop_last()[i] == allocations[i]);
    } else {
        crate::model::lemma_fee_claims_nonneg(allocations.drop_last(), fees);
        assert(state.0[asset] >= 0);
    }
}

/// After the manager claims the fees of a sound vault, no basket asset has
/// an accrued fee left.
pub proof fn law_claim_clears_fees(v: VaultView)
    requires
        vault_sound(v),
    ensures
        forall|i: int|
            0 <= i < v.allocations.len() ==> #[trigger] fees_claimed(v).accrued_fees[v.allocations[i].asset]
                == 0,
{
    assert forall|i: int| 0 <= i < v.allocations.len() implies #[trigger] fees_claimed(v).accrued_fees[
        v.allocations[i].asset] == 0 by {
        lemma_fee_claims_clear(v.allocations, v.accrued_fees, i);
    }
}

/// What redeeming a first deposit pays for the `i`-th allocation: the net
/// value at the first listing of the deposited asset, nothing elsewhere.
pub open spec fn round_trip_payout(allocations: Seq<AssetAllocation>, asset: Address, net: int, i: int) -> i128 {
    if allocations[i].asset == asset && !holds_asset(allocations.take(i), asset) {
        net as i128
    } else {
        0
    }
}

proof fn lemma_full_payout_prefix(
    allocations: Seq<AssetAllocation>,
    balances: Map<Address, i128>,
    asset: Address,
    net: int,
    n: int,
)
    requires
        0 <= n <= allocations.len(),
        net > 0,
        crate::math::fits_i128(net * net),
        balances[asset] == net,
        forall|i: int|
            0 <= i < allocations.len() && allocations[i].asset != asset ==> #[trigger] balances[allocations[i].asset]
                == 0,
    ensures
        payouts(allocations.take(n), balances, net, net) == Some(
            (
                if holds_asset(allocations.take(n), asset) {
                    balances.insert(asset, 0i128)
                } else {
                    balances
                },
                Seq::new(n as nat, |i: int| (allocations[i].asset, round_trip_payout(allocations, asset, net, i))),
            ),
        ),
    decreases n,
{
    let list = Seq::new(n as nat, |i: int| (allocations[i].asset, round_trip_payout(allocations, asset, net, i)));
    if n == 0 {
        assert(allocations.take(0) =~= Seq::<AssetAllocation>::empty());
        assert(list =~= Seq::<(Address, i128)>::empty());
    } else {
        lemma_full_payout_prefix(allocations, balances, asset, net, n - 1);
        let p = allocations.take(n);
        let q = allocations.take(n - 1);
        let prev = Seq::new(
            (n - 1) as nat,
            |i: int| (allocations[i].asset, round_trip_payout(allocations, asset, net, i)),
        );
        assert(p.drop_last() =~= q);
        assert(p.last() == allocations[n - 1]);
        assert(list =~= prev.push((allocations[n - 1].asset, round_trip_payout(allocations, asset, net, n - 1))));
        let b = allocations[n - 1].asset;
        assert(net * 0 == 0) by (nonlinear_arith);
        assert((net * net) / net == net) by (nonlinear_arith)
            requires net > 0;
        if b == asset {
            assert(holds_asset(p, asset)) by {
                assert(p[n - 1].asset == asset);
            }
            if !holds_asset(q, asset) {
                assert(balances.insert(asset, 0i128) =~= balances.insert(asset, (net - net) as i128));
            }
        } else {
            assert(balances[b] == 0);
            assert(holds_asset(p, asset) == holds_asset(q, asset)) by {
                if holds_asset(p, asset) {
                    let j = choose|j: int| 0 <= j < p.len() && p[j].asset == asset;
                    assert(j < n - 1);
                    assert(q[j] == p[j]);
                }
                if holds_asset(q, asset) {
                    let j = choose|j: int| 0 <= j < q.len() && q[j].asset == asset;
                    assert(p[j] == q[j]);
                }
            }
        }
    }
}

/// In a vault that has issued no share and holds nothing of its basket
/// assets, redeeming all the shares that a deposit minted pays back exactly
/// the deposit's net value in the deposited asset and nothing of any other,
/// lists every basket asset with what it pays, leaves no share issued, gives
/// the holder back the shares it had before (none, in a sound vault), and
/// returns every balance to its value before the deposit; the only condition
/// is that the square of the net value fits in an `i128`.
pub proof fn law_full_withdrawal_returns_deposit(v: VaultView, user: Address, asset: Address, amount: int)
    requires
        v.total_shares == 0,
        forall|i: int| 0 <= i < v.allocations.len() ==> #[trigger] v.asset_balances[v.allocations[i].asset] == 0,
        amount > 0,
        holds_asset(v.allocations, asset),
        deposit_in_range(v, user, asset, amount),
        deposit_shares(v, amount) > 0,
        crate::math::fits_i128((amount - deposit_fee(v, amount)) * (amount - deposit_fee(v, amount))),
    ensures
        ({
            let net = amount - deposit_fee(v, amount);
            let after = deposited(v, user, asset, amount);
            let paid = withdrawal_amounts(after, net);
            &&& deposit_shares(v, amount) == net
            &&& withdraw_in_range(after, net)
            &&& paid.len() == v.allocations.len()
            &&& forall|i: int|
                0 <= i < paid.len() ==> #[trigger] paid[i] == (
                    v.allocations[i].asset,
                    round_trip_payout(v.allocations, asset, net, i),
                )
            &&& withdrawn(after, user, net).total_shares == 0
            &&& withdrawn(after, user, net).user_shares[user] == v.user_shares[user]
            &&& vault_sound(v) ==> withdrawn(after, user, net).user_shares[user] == 0
            &&& forall|k: Address| #[trigger] withdrawn(after, user, net).asset_balances[k] == v.asset_balances[k]
        }),
{
    let net = amount - deposit_fee(v, amount);
    let after = deposited(v, user, asset, amount);
    assert(deposit_shares(v, amount) == net);
    let j = choose|j: int| 0 <= j < v.allocations.len() && v.allocations[j].asset == asset;
    assert(v.asset_balances[v.allocations[j].asset] == 0);
    let n = v.allocations.len() as int;
    assert(v.allocations.take(n) =~= v.allocations);
    assert forall|i: int|
        0 <= i < v.allocations.len() && v.allocations[i].asset != asset implies #[trigger] after.asset_balances[
        v.allocations[i].asset] == 0 by {
        assert(v.asset_balances[v.allocations[i].asset] == 0);
    }
    lemma_full_payout_prefix(v.allocations, after.asset_balances, asset, net, n);
    assert forall|k: Address| #[trigger] withdrawn(after, user, net).asset_balances[k] == v.asset_balances[k] by {
        if k == asset {
            assert(v.asset_balances[asset] == 0);
        }
    }
    if vault_sound(v) {
        assert(0 <= v.user_shares[user] <= v.total_shares);
    }
}

proof fn lemma_payouts_list(
    allocations: Seq<AssetAllocation>,
    balances: Map<Address, i128>,
    shares_to_burn: int,
    total_shares: int,
)
    requires
        payouts(allocations, balances, shares_to_burn, total_shares) is Some,
    ensures
        ({
            let paid = payouts(allocations, balances, shares_to_burn, total_shares)->Some_0.1;
            &&& paid.len() == allocations.len()
            &&& forall|i: int| 0 <= i < paid.len() ==> #[trigger] paid[i].0 == allocations[i].asset
            &&& distinct_assets(allocations) ==> forall|i: int|
                0 <= i < paid.len() ==> #[trigger] paid[i].1 == if proportional_amount(
                    shares_to_burn,
                    total_shares,
                    balances[allocations[i].asset] as int,
                ) > 0 {
                    proportional_amount(shares_to_burn, total_shares, balances[allocations[i].asset] as int)
                } else {
                    0
                }
        }),
    decreases allocations.len(),
{
    if allocations.len() > 0 {
        let q = allocations.drop_last();
        let n = allocations.len() - 1;
        lemma_payouts_list(q, balances, shares_to_burn, total_shares);
        if distinct_assets(allocations) {
            assert forall|i: int, j: int| 0 <= i < q.len() && 0 <= j < q.len() && i != j implies q[i].asset
                != q[j].asset by {
                assert(q[i] == allocations[i] && q[j] == allocations[j]);
            }
            lemma_payouts_distinct(q, balances, shares_to_burn, total_shares, allocations[n].asset);
            if holds_asset(q, allocations[n].asset) {
                let j = choose|j: int| 0 <= j < q.len() && q[j].asset == allocations[n].asset;
                assert(q[j] == allocations[j]);
            }
        }
        let state = payouts(q, balances, shares_to_burn, total_shares)->Some_0;
        let prev = state.1;
        let paid = payouts(allocations, balances, shares_to_burn, total_shares)->Some_0.1;
        let asset = allocations[n].asset;
        assert(allocations.last() == allocations[n]);
        let balance = state.0[asset] as int;
        if total_shares != 0 {
            crate::math::lemma_div_trunc_fits(shares_to_burn * balance, total_shares);
        }
        let amount = proportional_amount(shares_to_burn, total_shares, balance);
        assert(paid == prev.push((asset, if amount > 0 { amount as i128 } else { 0i128 })));
        assert forall|i: int| 0 <= i < n implies paid[i] == prev[i] && allocations[i] == q[i] by {}
    }
}

/// A withdrawal lists one pair per basket allocation, in basket order. In a
/// basket that lists each asset once, the pair of each asset carries its
/// proportional part of its balance before the withdrawal (0 when that part
/// is not positive).
pub proof fn law_withdrawal_lists_every_asset(v: VaultView, shares_to_burn: int)
    requires
        withdraw_in_range(v, shares_to_burn),
    ensures
        ({
            let paid = withdrawal_amounts(v, shares_to_burn);
            let t = v.total_shares as int;
            &&& paid.len() == v.allocations.len()
            &&& forall|i: int| 0 <= i < paid.len() ==> #[trigger] paid[i].0 == v.allocations[i].asset
            &&& distinct_assets(v.allocations) ==> forall|i: int|
                0 <= i < paid.len() ==> #[trigger] paid[i].1 == if proportional_amount(
                    shares_to_burn,
                    t,
                    v.asset_balances[v.allocations[i].asset] as int,
                ) > 0 {
                    proportional_amount(shares_to_burn, t, v.asset_balances[v.allocations[i].asset] as int)
                } else {
                    0
                }
        }),
{
    lemma_payouts_list(v.allocations, v.asset_balances, shares_to_burn, v.total_shares as int);
}

proof fn lemma_fee_claims_untouched(allocations: Seq<AssetAllocation>, fees: Map<Address, i128>, k: Address)
    requires
        !holds_asset(allocations, k),
    ensures
        fee_claims(allocations, fees).0[k] == fees[k],
    decreases allocations.len(),
{
    if allocations.len() > 0 {
        let q = allocations.drop_last();
        if holds_asset(q, k) {
            let j = choose|j: int| 0 <= j < q.len() && q[j].asset == k;
            assert(allocations[j] == q[j]);
        }
        assert(allocations[allocations.len() - 1].asset != k);
        lemma_fee_claims_untouched(q, fees, k);
    }
}

proof fn lemma_fee_claims_list(allocations: Seq<AssetAllocation>, fees: Map<Address, i128>)
    ensures
        ({
            let claimed = fee_claims(allocations, fees).1;
            &&& claimed.len() == allocations.len()
            &&& forall|i: int| 0 <= i < claimed.len() ==> #[trigger] claimed[i].0 == allocations[i].asset
            &&& distinct_assets(allocations) ==> forall|i: int|
                0 <= i < claimed.len() ==> #[trigger] claimed[i].1 == if fees[allocations[i].asset] > 0 {
                    fees[allocations[i].asset]
                } else {
                    0
                }
        }),
    decreases allocations.len(),
{
    if allocations.len() > 0 {
        let q = allocations.drop_last();
        let n = allocations.len() - 1;
        lemma_fee_claims_list(q, fees);
        if distinct_assets(allocations) {
            assert forall|i: int, j: int| 0 <= i < q.len() && 0 <= j < q.len() && i != j implies q[i].asset
                != q[j].asset by {
                assert(q[i] == allocations[i] && q[j] == allocations[j]);
            }
            if holds_asset(q, allocations[n].asset) {
                let j = choose|j: int| 0 <= j < q.len() && q[j].asset == allocations[n].asset;
                assert(q[j] == allocations[j]);
            }
            lemma_fee_claims_untouched(q, fees, allocations[n].asset);
        }
        let prev = fee_claims(q, fees).1;
        let claimed = fee_claims(allocations, fees).1;
        assert forall|i: int| 0 <= i < n implies claimed[i] == prev[i] && allocations[i] == q[i] by {}
    }
}

/// A fee claim lists one pair per basket allocation, in basket order. In a
/// basket that lists each asset once, the pair of each asset carries its
/// accrued fee before the claim (0 when that fee is not positive).
pub proof fn law_claim_lists_every_asset(v: VaultView)
    ensures
        ({
            let claimed = fee_claims(v.allocations, v.accrued_fees).1;
            &&& claimed.len() == v.allocations.len()
            &&& forall|i: int| 0 <= i < claimed.len() ==> #[trigger] claimed[i].0 == v.allocations[i].asset
            &&& distinct_assets(v.allocations) ==> forall|i: int|
                0 <= i < claimed.len() ==> #[trigger] claimed[i].1 == if v.accrued_fees[v.allocations[i].asset] > 0 {
                    v.accrued_fees[v.allocations[i].asset]
                } else {
                    0
                }
        }),
{
    lemma_fee_claims_list(v.allocations, v.accrued_fees);
}

/// Every sound vault meets the premises of the withdrawal, rounding and
/// dilution laws: its basket lists each asset once and at most
/// `MAX_BASKET_ASSETS` of them, its fee is at most 100%, and no holding is
/// negative or above the share total, so a burn that passes the share check
/// is at most the total.
pub proof fn law_sound_vault_premises(v: VaultView, user: Address, shares_to_burn: int)
    requires
        vault_sound(v),
    ensures
        distinct_assets(v.allocations),
        v.allocations.len() <= MAX_BASKET_ASSETS,
        v.config.management_fee_bps <= BPS_LIMIT,
        forall|k: Address| 0 <= #[trigger] v.user_shares[k] <= v.total_shares,
        shares_to_burn <= v.user_shares[user] ==> shares_to_burn <= v.total_shares,
{
    law_allocation_check_ok_iff(v.allocations);
}

// ---------------------------------------------------------------- operations

/// The manager of a registered vault may set its statuses, and nobody else
/// may: a missing vault is not found, a missing signature is unauthorised.
/// The two statuses are set independently: afterwards the deposit status is
/// the one asked for and the withdrawal status is the one asked for, whatever
/// the pair, and nothing else of the vault changes.
pub proof fn law_set_status_sets_both_statuses(
    vaults: Map<Bytes32, VaultView>,
    vault_id: Bytes32,
    signers: Seq<Address>,
    v: VaultView,
    deposit_status: VaultStatus,
    withdrawal_status: VaultStatus,
)
    ensures
        manager_error(vaults, vault_id, signers) is None <==> (vaults.dom().contains(vault_id) && signers.contains(
            vaults[vault_id].config.manager,
        )),
        !vaults.dom().contains(vault_id) ==> manager_error(vaults, vault_id, signers) == Some(
            ContractError::VaultNotFound,
        ),
        vaults.dom().contains(vault_id) && !signers.contains(vaults[vault_id].config.manager) ==> manager_error(
            vaults,
            vault_id,
            signers,
        ) == Some(ContractError::Unauthorised),
        ({
            let after = status_set(v, deposit_status, withdrawal_status);
            &&& after.config.deposit_status == deposit_status
            &&& after.config.withdrawal_status == withdrawal_status
            &&& after.config.name == v.config.name
            &&& after.config.metadata_hash == v.config.metadata_hash
            &&& after.config.manager == v.config.manager
            &&& after.config.base_asset == v.config.base_asset
            &&& after.config.rebalance_authority == v.config.rebalance_authority
            &&& after.config.management_fee_bps == v.config.management_fee_bps
            &&& after.allocations == v.allocations
            &&& after.total_shares == v.total_shares
            &&& after.user_shares == v.user_shares
            &&& after.user_shares_total == v.user_shares_total
            &&& after.asset_balances == v.asset_balances
            &&& after.accrued_fees == v.accrued_fees
            &&& after.history == v.history
        }),
{
}

/// A withdrawal is refused as paused exactly when the vault's withdrawal
/// status is paused (once the holder has signed, the burn is positive and the
/// vault exists). It succeeds exactly when the holder has signed a positive
/// burn of at most its shares from a registered vault whose withdrawals are
/// active and the arithmetic stays in range. The deposit status plays no
/// part: changing it alone leaves the result of every withdrawal unchanged.
pub proof fn law_withdrawal_pauses_only_on_withdrawal_status(
    vaults: Map<Bytes32, VaultView>,
    vault_id: Bytes32,
    user: Address,
    shares_to_burn: int,
    signers: Seq<Address>,
    deposit_status: VaultStatus,
)
    ensures
        signers.contains(user) && shares_to_burn > 0 && vaults.dom().contains(vault_id) ==> (withdraw_result(
            vaults,
            vault_id,
            user,
            shares_to_burn,
            signers,
        ) == Err::<Seq<(Address, i128)>, ContractError>(ContractError::WithdrawalsPaused)
            <==> vaults[vault_id].config.withdrawal_status == VaultStatus::Paused),
        withdraw_result(vaults, vault_id, user, shares_to_burn, signers) is Ok <==> (signers.contains(user)
            && shares_to_burn > 0 && vaults.dom().contains(vault_id) && vaults[vault_id].config.withdrawal_status
            == VaultStatus::Active && shares_to_burn <= vaults[vault_id].user_shares[user] && withdraw_in_range(
            vaults[vault_id],
            shares_to_burn,
        )),
        vaults.dom().contains(vault_id) ==> withdraw_result(
            vaults.insert(
                vault_id,
                status_set(vaults[vault_id], deposit_status, vaults[vault_id].config.withdrawal_status),
            ),
            vault_id,
            user,
            shares_to_burn,
            signers,
        ) == withdraw_result(vaults, vault_id, user, shares_to_burn, signers),
{
}

/// The rebalance authority of a registered vault may always replace a basket
/// that is within the size limit by any valid basket, whatever the vault's
/// shares, balances or statuses: the update succeeds exactly when the vault
/// exists, the authority has signed, the new basket lists at most
/// `MAX_BASKET_ASSETS` distinct assets whose weights add up to 10,000 basis
/// points, and the stored basket is within the size limit. It then returns
/// the timestamp with the hashes of the stored and the new basket, stores
/// the new basket, appends that record to the history and changes nothing
/// else.
pub proof fn law_rebalance_accepts_every_valid_basket(
    vaults: Map<Bytes32, VaultView>,
    vault_id: Bytes32,
    allocations: Seq<AssetAllocation>,
    signers: Seq<Address>,
    timestamp: u64,
)
    ensures
        rebalance_result(vaults, vault_id, allocations, signers, timestamp) is Ok <==> (vaults.dom().contains(
            vault_id,
        ) && signers.contains(vaults[vault_id].config.rebalance_authority) && allocations.len()
            <= MAX_BASKET_ASSETS && distinct_assets(allocations) && bps_sum(allocations) == BPS_LIMIT
            && vaults[vault_id].allocations.len() <= MAX_BASKET_ASSETS),
        rebalance_result(vaults, vault_id, allocations, signers, timestamp) is Ok ==> rebalance_result(
            vaults,
            vault_id,
            allocations,
            signers,
            timestamp,
        ) == Ok::<RebalanceRecord, ContractError>(
            RebalanceRecord {
                timestamp,
                old_allocation_hash: basket_hash(vaults[vault_id].allocations),
                new_allocation_hash: basket_hash(allocations),
            },
        ),
        ({
            let v = vaults[vault_id];
            let after = rebalanced(v, allocations, timestamp);
            &&& after.allocations == allocations
            &&& after.history.len() == v.history.len() + 1
            &&& after.history.drop_last() == v.history
            &&& after.history.last() == (RebalanceRecord {
                timestamp,
                old_allocation_hash: basket_hash(v.allocations),
                new_allocation_hash: basket_hash(allocations),
            })
            &&& after.config == v.config
            &&& after.total_shares == v.total_shares
            &&& after.user_shares == v.user_shares
            &&& after.user_shares_total == v.user_shares_total
            &&& after.asset_balances == v.asset_balances
            &&& after.accrued_fees == v.accrued_fees
        }),
{
    law_allocation_check_ok_iff(allocations);
    let v = vaults[vault_id];
    assert(rebalanced(v, allocations, timestamp).history.drop_last() =~= v.history);
}

/// Claiming fees never depends on the vault's statuses: the manager of a
/// registered vault may always claim, and nobody else may. The claim lists
/// every basket allocation in order; in a basket that lists each asset once,
/// each carries the asset's accrued fee when it is positive and 0 otherwise.
/// Afterwards every basket asset with a positive accrued fee has none left,
/// and every other accrued fee is as it was.
pub proof fn law_claim_needs_only_the_manager(
    vaults: Map<Bytes32, VaultView>,
    vault_id: Bytes32,
    signers: Seq<Address>,
    deposit_status: VaultStatus,
    withdrawal_status: VaultStatus,
    k: Address,
)
    ensures
        claim_result(vaults, vault_id, signers) is Ok <==> (vaults.dom().contains(vault_id) && signers.contains(
            vaults[vault_id].config.manager,
        )),
        !vaults.dom().contains(vault_id) ==> claim_result(vaults, vault_id, signers) == Err::<
            Seq<(Address, i128)>,
            ContractError,
        >(ContractError::VaultNotFound),
        vaults.dom().contains(vault_id) && !signers.contains(vaults[vault_id].config.manager) ==> claim_result(
            vaults,
            vault_id,
            signers,
        ) == Err::<Seq<(Address, i128)>, ContractError>(ContractError::Unauthorised),
        vaults.dom().contains(vault_id) ==> claim_result(
            vaults.insert(vault_id, status_set(vaults[vault_id], deposit_status, withdrawal_status)),
            vault_id,
            signers,
        ) == claim_result(vaults, vault_id, signers),
        ({
            let v = vaults[vault_id];
            claim_result(vaults, vault_id, signers) matches Ok(claimed) ==> {
                &&& claimed.len() == v.allocations.len()
                &&& forall|i: int| 0 <= i < claimed.len() ==> #[trigger] claimed[i].0 == v.allocations[i].asset
                &&& distinct_assets(v.allocations) ==> forall|i: int|
                    0 <= i < claimed.len() ==> #[trigger] claimed[i].1 == if v.accrued_fees[v.allocations[i].asset]
                        > 0 {
                        v.accrued_fees[v.allocations[i].asset]
                    } else {
                        0
                    }
            }
        }),
        ({
            let v = vaults[vault_id];
            fees_claimed(v).accrued_fees[k] == if holds_asset(v.allocations, k) && v.accrued_fees[k] > 0 {
                0
            } else {
                v.accrued_fees[k] as int
            }
        }),
{
    let v = vaults[vault_id];
    lemma_fee_claims_list(v.allocations, v.accrued_fees);
    lemma_fee_claims_state(v.allocations, v.accrued_fees, k);
    if vaults.dom().contains(vault_id) {
        let changed = vaults.insert(vault_id, status_set(v, deposit_status, withdrawal_status));
        assert(changed[vault_id].allocations == v.allocations);
        assert(changed[vault_id].accrued_fees == v.accrued_fees);
        assert(changed[vault_id].config.manager == v.config.manager);
    }
}

proof fn lemma_fee_claims_state(allocations: Seq<AssetAllocation>, fees: Map<Address, i128>, k: Address)
    ensures
        fee_claims(allocations, fees).0[k] == if holds_asset(allocations, k) && fees[k] > 0 {
            0
        } else {
            fees[k] as int
        },
    decreases allocations.len(),
{
    if allocations.len() > 0 {
        let q = allocations.drop_last();
        lemma_fee_claims_state(q, fees, k);
        let n = allocations.len() - 1;
        assert(allocations.last() == allocations[n]);
        if holds_asset(q, k) {
            let j = choose|j: int| 0 <= j < q.len() && q[j].asset == k;
            assert(allocations[j] == q[j]);
        }
        if allocations[n].asset == k {
            assert(holds_asset(allocations, k));
        } else if holds_asset(allocations, k) {
            let j = choose|j: int| 0 <= j < allocations.len() && allocations[j].asset == k;
            assert(j < n);
            assert(q[j] == allocations[j]);
        }
    }
}

/// A deposit is refused as paused exactly when the vault's deposit status is
/// paused (once the user has signed, the amount is positive and the vault
/// exists). It succeeds exactly when the user has signed a positive amount of
/// a basket asset into a registered vault whose deposits are active and the
/// arithmetic stays in range; the receipt then splits the amount into its
/// net value and its fee. The withdrawal status plays no part: changing it
/// alone leaves the result of every deposit unchanged.
pub proof fn law_deposit_pauses_only_on_deposit_status(
    vaults: Map<Bytes32, VaultView>,
    vault_id: Bytes32,
    user: Address,
    asset: Address,
    amount: int,
    signers: Seq<Address>,
    withdrawal_status: VaultStatus,
)
    ensures
        signers.contains(user) && amount > 0 && vaults.dom().contains(vault_id) ==> (deposit_result(
            vaults,
            vault_id,
            user,
            asset,
            amount,
            signers,
        ) == Err::<crate::types::DepositReceipt, ContractError>(ContractError::DepositsPaused)
            <==> vaults[vault_id].config.deposit_status == VaultStatus::Paused),
        deposit_result(vaults, vault_id, user, asset, amount, signers) is Ok <==> (signers.contains(user) && amount
            > 0 && vaults.dom().contains(vault_id) && vaults[vault_id].config.deposit_status == VaultStatus::Active
            && holds_asset(vaults[vault_id].allocations, asset) && deposit_in_range(
            vaults[vault_id],
            user,
            asset,
            amount,
        )),
        crate::math::fits_i128(amount) && vault_sound(vaults[vault_id]) ==> (deposit_result(
            vaults,
            vault_id,
            user,
            asset,
            amount,
            signers,
        ) matches Ok(receipt) ==> {
            &&& receipt.net_amount + receipt.fee == amount
            &&& receipt.fee == (amount * vaults[vault_id].config.management_fee_bps) / 10000
            &&& receipt.shares == shares_to_mint(
                receipt.net_amount as int,
                vaults[vault_id].total_shares as int,
                basket_value(vaults[vault_id].asset_balances, vaults[vault_id].allocations),
            )
        }),
        vaults.dom().contains(vault_id) ==> deposit_result(
            vaults.insert(
                vault_id,
                status_set(vaults[vault_id], vaults[vault_id].config.deposit_status, withdrawal_status),
            ),
            vault_id,
            user,
            asset,
            amount,
            signers,
        ) == deposit_result(vaults, vault_id, user, asset, amount, signers),
{
    let v = vaults[vault_id];
    if deposit_result(vaults, vault_id, user, asset, amount, signers) is Ok && vault_sound(v) {
        let bps = v.config.management_fee_bps as int;
        lemma_deposit_shares_nonneg(v, amount);
        lemma_fee_bounds(amount, bps);
        assert(amount * bps >= 0) by (nonlinear_arith)
            requires amount > 0, bps >= 0;
        if bps == 0 {
            assert(amount * bps == 0) by (nonlinear_arith)
                requires bps == 0;
        }
    }
}

/// Creating a vault succeeds exactly when no vault has the id, the fee is at
/// most `MAX_MANAGEMENT_FEE_BPS` and the basket is valid. The new vault
/// carries the configuration and basket it was created with, no shares, no
/// balances, no accrued fees and no history.
pub proof fn law_create_vault_starts_empty(
    vaults: Map<Bytes32, VaultView>,
    vault_id: Bytes32,
    config: VaultConfig,
    allocations: Seq<AssetAllocation>,
    k: Address,
)
    ensures
        create_error(vaults, vault_id, config.management_fee_bps, allocations) is None <==> (!vaults.dom().contains(
            vault_id,
        ) && config.management_fee_bps <= MAX_MANAGEMENT_FEE_BPS && allocations.len() <= MAX_BASKET_ASSETS
            && distinct_assets(allocations) && bps_sum(allocations) == BPS_LIMIT),
        vaults.dom().contains(vault_id) ==> create_error(vaults, vault_id, config.management_fee_bps, allocations)
            == Some(ContractError::DuplicateVault),
        ({
            let v = created(config, allocations);
            &&& v.config == config
            &&& v.allocations == allocations
            &&& v.total_shares == 0
            &&& v.user_shares_total == 0
            &&& v.user_shares[k] == 0
            &&& v.asset_balances[k] == 0
            &&& v.accrued_fees[k] == 0
            &&& v.history.len() == 0
        }),
{
    law_allocation_check_ok_iff(allocations);
}

} // verus!
