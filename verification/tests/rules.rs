use spectra_vault::errors::ContractError;
use spectra_vault::ledger::Ledger;
use spectra_vault::math::{calculate_fee, calculate_proportional_amount, calculate_shares_to_mint, BPS_LIMIT};
use spectra_vault::types::{Address, AssetAllocation, Bytes32, VaultConfig, VaultStatus};
use spectra_vault::vault::{SpectralVault, VaultRecord};

fn id(n: u128) -> Bytes32 {
    Bytes32 { hi: 0, lo: n }
}

fn account(n: u128) -> Address {
    Address { is_contract: false, key: Bytes32 { hi: 0, lo: n } }
}

fn token(n: u128) -> Address {
    Address { is_contract: true, key: Bytes32 { hi: 7, lo: n } }
}

const MANAGER: u128 = 1;
const AUTHORITY: u128 = 3;

fn basket() -> Vec<AssetAllocation> {
    vec![
        AssetAllocation { asset: token(10), target_bps: 6000 },
        AssetAllocation { asset: token(11), target_bps: 4000 },
    ]
}

fn vault_with(fee_bps: u32) -> SpectralVault {
    let mut vault = SpectralVault::new();
    vault
        .create_vault(id(1), "Basket".to_string(), id(99), account(MANAGER), token(10), account(AUTHORITY), fee_bps, basket())
        .unwrap();
    vault
}

#[test]
fn math_shares_to_mint() {
    assert_eq!(calculate_shares_to_mint(100, 0, 0), 100);
    assert_eq!(calculate_shares_to_mint(100, 0, 500), 100);
    assert_eq!(calculate_shares_to_mint(100, 500, 0), 100);
    assert_eq!(calculate_shares_to_mint(100, 1000, 2000), 50);
    assert_eq!(calculate_shares_to_mint(7, 1, 2), 3);
    assert_eq!(calculate_shares_to_mint(-7, 1, 2), -3);
    assert_eq!(calculate_shares_to_mint(7, 1, -2), -3);
}

#[test]
fn math_proportional_amount() {
    assert_eq!(calculate_proportional_amount(5, 0, 1000), 0);
    assert_eq!(calculate_proportional_amount(300, 1500, 1000), 200);
    assert_eq!(calculate_proportional_amount(1, 3, 1000), 333);
    assert_eq!(calculate_proportional_amount(3, 3, 1000), 1000);
}

#[test]
fn math_fee() {
    assert_eq!(BPS_LIMIT, 10_000);
    assert_eq!(calculate_fee(1000, 100), 10);
    assert_eq!(calculate_fee(999, 100), 9);
    assert_eq!(calculate_fee(1000, 0), 0);
    assert_eq!(calculate_fee(1000, 500), 50);
    assert_eq!(calculate_fee(-1000, 100), -10);
}

#[test]
fn ledger_defaults_and_sets() {
    let mut l = Ledger::new();
    assert_eq!(l.get(&account(5)), 0);
    l.set(account(5), 40);
    l.set(account(6), 2);
    l.set(account(5), 7);
    assert_eq!(l.get(&account(5)), 7);
    assert_eq!(l.get(&account(6)), 2);
    assert_eq!(l.get(&account(8)), 0);
    let copy = l.snapshot();
    assert_eq!(copy.get(&account(5)), 7);
}

#[test]
fn create_rejects_duplicate_vault() {
    let mut vault = vault_with(0);
    let r = vault.create_vault(id(1), "Again".to_string(), id(0), account(MANAGER), token(10), account(AUTHORITY), 0, basket());
    assert_eq!(r, Err(ContractError::DuplicateVault));
    assert_eq!(vault.get_config(&id(1)).unwrap().name, "Basket");
}

#[test]
fn create_rejects_fee_above_cap() {
    let mut vault = SpectralVault::new();
    let r = vault.create_vault(id(1), "V".to_string(), id(0), account(MANAGER), token(10), account(AUTHORITY), 501, basket());
    assert_eq!(r, Err(ContractError::FeeTooHigh));
    let r = vault.create_vault(id(1), "V".to_string(), id(0), account(MANAGER), token(10), account(AUTHORITY), 500, basket());
    assert_eq!(r, Ok(()));
}

#[test]
fn create_rejects_duplicate_asset() {
    let mut vault = SpectralVault::new();
    let allocations = vec![
        AssetAllocation { asset: token(10), target_bps: 5000 },
        AssetAllocation { asset: token(10), target_bps: 5000 },
    ];
    let r = vault.create_vault(id(1), "V".to_string(), id(0), account(MANAGER), token(10), account(AUTHORITY), 0, allocations);
    assert_eq!(r, Err(ContractError::DuplicateAsset));
}

#[test]
fn create_treats_weights_past_u32_as_mismatch() {
    let mut vault = SpectralVault::new();
    let allocations = vec![
        AssetAllocation { asset: token(10), target_bps: u32::MAX },
        AssetAllocation { asset: token(11), target_bps: 10001 },
    ];
    let r = vault.create_vault(id(1), "V".to_string(), id(0), account(MANAGER), token(10), account(AUTHORITY), 0, allocations);
    assert_eq!(r, Err(ContractError::AllocationTotalMismatch));
}

#[test]
fn create_rejects_oversized_basket() {
    let mut vault = SpectralVault::new();
    let mut allocations: Vec<AssetAllocation> =
        (0..10_000u128).map(|n| AssetAllocation { asset: token(100 + n), target_bps: 1 }).collect();
    let r = vault.create_vault(id(1), "V".to_string(), id(0), account(MANAGER), token(10), account(AUTHORITY), 0, allocations.clone());
    assert_eq!(r, Ok(()));
    allocations.push(AssetAllocation { asset: token(5), target_bps: 0 });
    let r = vault.create_vault(id(2), "V".to_string(), id(0), account(MANAGER), token(10), account(AUTHORITY), 0, allocations.clone());
    assert_eq!(r, Err(ContractError::InvalidAllocation));
    let r = vault.update_allocations(id(1), allocations, &vec![account(AUTHORITY)], 1);
    assert_eq!(r, Err(ContractError::InvalidAllocation));
}

#[test]
fn create_starts_active_and_empty() {
    let vault = vault_with(100);
    let config = vault.get_config(&id(1)).unwrap();
    assert_eq!(config.deposit_status, VaultStatus::Active);
    assert_eq!(config.withdrawal_status, VaultStatus::Active);
    assert_eq!(config.management_fee_bps, 100);
    assert_eq!(config.rebalance_authority, account(AUTHORITY));
    assert_eq!(vault.get_allocations(&id(1)).unwrap(), &basket());
    assert_eq!(vault.get_total_shares(&id(1)), 0);
    assert_eq!(vault.get_total_shares(&id(2)), 0);
    assert_eq!(vault.get_config(&id(2)).err(), Some(ContractError::VaultNotFound));
    assert_eq!(vault.get_allocations(&id(2)).err(), Some(ContractError::VaultNotFound));
}

#[test]
fn deposit_errors_in_order() {
    let mut vault = vault_with(0);
    let user = account(2);
    assert_eq!(vault.deposit(id(1), user, token(10), 100, &vec![]), Err(ContractError::Unauthorised));
    assert_eq!(vault.deposit(id(1), user, token(10), 0, &vec![user]), Err(ContractError::ZeroAmount));
    assert_eq!(vault.deposit(id(1), user, token(10), -5, &vec![user]), Err(ContractError::ZeroAmount));
    assert_eq!(vault.deposit(id(2), user, token(10), 100, &vec![user]), Err(ContractError::VaultNotFound));
    assert_eq!(vault.deposit(id(1), user, token(12), 100, &vec![user]), Err(ContractError::InvalidAsset));
    vault.set_status(id(1), VaultStatus::Paused, VaultStatus::Active, &vec![account(MANAGER)]).unwrap();
    assert_eq!(vault.deposit(id(1), user, token(12), 100, &vec![user]), Err(ContractError::DepositsPaused));
    assert_eq!(vault.get_total_shares(&id(1)), 0);
}

#[test]
fn deposit_overflow_is_reported() {
    let mut vault = vault_with(100);
    let user = account(2);
    assert_eq!(vault.deposit(id(1), user, token(10), i128::MAX, &vec![user]), Err(ContractError::MathOverflow));
    assert_eq!(vault.get_asset_balance(&id(1), &token(10)), 0);
}

#[test]
fn later_deposits_are_priced_against_the_basket() {
    let mut vault = vault_with(0);
    let (alice, bob) = (account(2), account(4));
    assert_eq!(vault.deposit(id(1), alice, token(10), 1000, &vec![alice]).unwrap().shares, 1000);
    let receipt = vault.deposit(id(1), bob, token(11), 500, &vec![bob]).unwrap();
    assert_eq!(receipt.shares, 500);
    assert_eq!(vault.get_total_shares(&id(1)), 1500);
    let receipt = vault.deposit(id(1), bob, token(10), 300, &vec![bob]).unwrap();
    assert_eq!(receipt.shares, 300);
    assert_eq!(vault.get_user_shares(&id(1), &bob), 800);
    assert_eq!(vault.get_user_shares(&id(1), &alice), 1000);
    assert_eq!(vault.get_total_shares(&id(1)), 1800);
}

#[test]
fn withdraw_pays_each_asset_proportionally() {
    let mut vault = vault_with(0);
    let (alice, bob) = (account(2), account(4));
    vault.deposit(id(1), alice, token(10), 1000, &vec![alice]).unwrap();
    vault.deposit(id(1), bob, token(11), 500, &vec![bob]).unwrap();
    let paid = vault.withdraw(id(1), alice, 750, &vec![alice]).unwrap();
    assert_eq!(paid, vec![(token(10), 500), (token(11), 250)]);
    assert_eq!(vault.get_asset_balance(&id(1), &token(10)), 500);
    assert_eq!(vault.get_asset_balance(&id(1), &token(11)), 250);
    assert_eq!(vault.get_user_shares(&id(1), &alice), 250);
    assert_eq!(vault.get_total_shares(&id(1)), 750);
}

#[test]
fn withdraw_lists_assets_with_nothing_to_pay() {
    let mut vault = vault_with(0);
    let alice = account(2);
    vault.deposit(id(1), alice, token(11), 3, &vec![alice]).unwrap();
    let paid = vault.withdraw(id(1), alice, 1, &vec![alice]).unwrap();
    assert_eq!(paid, vec![(token(10), 0), (token(11), 1)]);
}

#[test]
fn withdraw_errors_in_order() {
    let mut vault = vault_with(0);
    let user = account(2);
    vault.deposit(id(1), user, token(10), 100, &vec![user]).unwrap();
    assert_eq!(vault.withdraw(id(1), user, 10, &vec![account(9)]), Err(ContractError::Unauthorised));
    assert_eq!(vault.withdraw(id(1), user, 0, &vec![user]), Err(ContractError::ZeroAmount));
    assert_eq!(vault.withdraw(id(2), user, 10, &vec![user]), Err(ContractError::VaultNotFound));
    assert_eq!(vault.withdraw(id(1), user, 101, &vec![user]), Err(ContractError::InsufficientShares));
    vault.set_status(id(1), VaultStatus::Active, VaultStatus::Paused, &vec![account(MANAGER)]).unwrap();
    assert_eq!(vault.withdraw(id(1), user, 10, &vec![user]), Err(ContractError::WithdrawalsPaused));
    assert_eq!(vault.get_user_shares(&id(1), &user), 100);
}

#[test]
fn set_status_needs_the_manager() {
    let mut vault = vault_with(0);
    assert_eq!(
        vault.set_status(id(1), VaultStatus::Paused, VaultStatus::Paused, &vec![account(AUTHORITY)]),
        Err(ContractError::Unauthorised)
    );
    assert_eq!(
        vault.set_status(id(2), VaultStatus::Paused, VaultStatus::Paused, &vec![account(MANAGER)]),
        Err(ContractError::VaultNotFound)
    );
    vault.set_status(id(1), VaultStatus::Paused, VaultStatus::Paused, &vec![account(MANAGER)]).unwrap();
    let config = vault.get_config(&id(1)).unwrap();
    assert_eq!(config.deposit_status, VaultStatus::Paused);
    assert_eq!(config.withdrawal_status, VaultStatus::Paused);
}

#[test]
fn claim_fees_pays_and_clears() {
    let mut vault = vault_with(100);
    let user = account(2);
    vault.deposit(id(1), user, token(10), 1000, &vec![user]).unwrap();
    vault.deposit(id(1), user, token(11), 2000, &vec![user]).unwrap();
    assert_eq!(vault.claim_fees(id(1), &vec![user]), Err(ContractError::Unauthorised));
    assert_eq!(vault.claim_fees(id(2), &vec![account(MANAGER)]), Err(ContractError::VaultNotFound));
    let claimed = vault.claim_fees(id(1), &vec![account(MANAGER)]).unwrap();
    assert_eq!(claimed, vec![(token(10), 10), (token(11), 20)]);
    assert_eq!(vault.get_accrued_fees(&id(1), &token(10)), 0);
    assert_eq!(vault.get_accrued_fees(&id(1), &token(11)), 0);
    assert_eq!(vault.claim_fees(id(1), &vec![account(MANAGER)]).unwrap(), vec![(token(10), 0), (token(11), 0)]);
    assert_eq!(vault.get_asset_balance(&id(1), &token(10)), 990);
}

#[test]
fn update_allocations_records_the_rebalance() {
    let mut vault = vault_with(0);
    let new_basket = vec![
        AssetAllocation { asset: token(11), target_bps: 2500 },
        AssetAllocation { asset: token(12), target_bps: 7500 },
    ];
    assert_eq!(
        vault.update_allocations(id(1), new_basket.clone(), &vec![account(MANAGER)], 77),
        Err(ContractError::Unauthorised)
    );
    assert_eq!(
        vault.update_allocations(id(2), new_basket.clone(), &vec![account(AUTHORITY)], 77),
        Err(ContractError::VaultNotFound)
    );
    let bad = vec![AssetAllocation { asset: token(11), target_bps: 2500 }];
    assert_eq!(
        vault.update_allocations(id(1), bad, &vec![account(AUTHORITY)], 77),
        Err(ContractError::AllocationTotalMismatch)
    );
    let record = vault.update_allocations(id(1), new_basket.clone(), &vec![account(AUTHORITY)], 77).unwrap();
    assert_eq!(record.timestamp, 77);
    assert_eq!(record.old_allocation_hash, spectra_vault::digest::hash_basket(&basket()));
    assert_eq!(record.new_allocation_hash, spectra_vault::digest::hash_basket(&new_basket));
    assert_eq!(vault.get_allocations(&id(1)).unwrap(), &new_basket);
    let history = &vault.vault(&id(1)).unwrap().history;
    assert_eq!(history.len(), 1);
    assert_eq!(history[0], record);
}

#[test]
fn full_withdrawal_returns_the_net_deposit() {
    let mut vault = vault_with(500);
    let user = account(2);
    let receipt = vault.deposit(id(1), user, token(11), 1000, &vec![user]).unwrap();
    assert_eq!(receipt.fee, 50);
    assert_eq!(receipt.shares, 950);
    let paid = vault.withdraw(id(1), user, 950, &vec![user]).unwrap();
    assert_eq!(paid, vec![(token(10), 0), (token(11), 950)]);
    assert_eq!(vault.get_asset_balance(&id(1), &token(11)), 0);
    assert_eq!(vault.get_total_shares(&id(1)), 0);
}

#[test]
fn total_shares_equal_the_holders_shares() {
    let mut vault = vault_with(100);
    let holders = [account(2), account(4), account(6)];
    let mut amount = 1000i128;
    for h in holders.iter() {
        vault.deposit(id(1), *h, token(10), amount, &vec![*h]).unwrap();
        amount += 333;
    }
    vault.withdraw(id(1), holders[1], 100, &vec![holders[1]]).unwrap();
    let sum: i128 = holders.iter().map(|h| vault.get_user_shares(&id(1), h)).sum();
    assert_eq!(sum, vault.get_total_shares(&id(1)));
}

#[test]
fn with_vault_holds_one_record() {
    let mut balances = Ledger::new();
    balances.set(token(10), 400);
    let mut holders = Ledger::new();
    holders.set(account(2), 400);
    let record = VaultRecord {
        id: id(5),
        config: VaultConfig {
            name: "Loaded".to_string(),
            metadata_hash: id(0),
            manager: account(MANAGER),
            base_asset: token(10),
            rebalance_authority: account(AUTHORITY),
            management_fee_bps: 0,
            deposit_status: VaultStatus::Active,
            withdrawal_status: VaultStatus::Active,
        },
        allocations: basket(),
        total_shares: 400,
        user_shares: holders,
        asset_balances: balances,
        accrued_fees: Ledger::new(),
        history: vec![],
    };
    let mut vault = SpectralVault::with_vault(record);
    assert!(vault.vault(&id(5)).is_some());
    assert!(vault.vault(&id(1)).is_none());
    assert_eq!(vault.get_asset_balance(&id(5), &token(10)), 400);
    let paid = vault.withdraw(id(5), account(2), 100, &vec![account(2)]).unwrap();
    assert_eq!(paid, vec![(token(10), 100), (token(11), 0)]);
    assert_eq!(vault.vault(&id(5)).unwrap().total_shares, 300);
}

#[test]
fn deposit_does_not_dilute_holders() {
    let mut vault = vault_with(100);
    let (alice, bob) = (account(2), account(4));
    vault.deposit(id(1), alice, token(10), 1000, &vec![alice]).unwrap();
    vault.deposit(id(1), alice, token(11), 333, &vec![alice]).unwrap();
    let total = vault.get_total_shares(&id(1));
    let value = vault.get_asset_balance(&id(1), &token(10)) + vault.get_asset_balance(&id(1), &token(11));
    let receipt = vault.deposit(id(1), bob, token(11), 777, &vec![bob]).unwrap();
    assert!(receipt.shares * value <= receipt.net_amount * total);
    assert!((total + receipt.shares) * value <= total * (value + receipt.net_amount));
}

#[test]
fn withdrawal_rounding_protects_remaining_holders() {
    let mut vault = vault_with(0);
    let (alice, bob) = (account(2), account(4));
    vault.deposit(id(1), alice, token(10), 1000, &vec![alice]).unwrap();
    vault.deposit(id(1), bob, token(11), 7, &vec![bob]).unwrap();
    let total = vault.get_total_shares(&id(1));
    let before = vault.get_asset_balance(&id(1), &token(11));
    vault.withdraw(id(1), alice, 333, &vec![alice]).unwrap();
    let after = vault.get_asset_balance(&id(1), &token(11));
    assert_eq!(after, 5);
    assert!(after * total >= before * (total - 333));
}

#[test]
fn rebalance_refuses_a_stored_basket_too_large_to_hash() {
    let allocations: Vec<AssetAllocation> =
        (0..10_001u128).map(|n| AssetAllocation { asset: token(100 + n), target_bps: 0 }).collect();
    let record = VaultRecord {
        id: id(5),
        config: VaultConfig {
            name: "Loaded".to_string(),
            metadata_hash: id(0),
            manager: account(MANAGER),
            base_asset: token(10),
            rebalance_authority: account(AUTHORITY),
            management_fee_bps: 0,
            deposit_status: VaultStatus::Active,
            withdrawal_status: VaultStatus::Active,
        },
        allocations,
        total_shares: 0,
        user_shares: Ledger::new(),
        asset_balances: Ledger::new(),
        accrued_fees: Ledger::new(),
        history: vec![],
    };
    let mut vault = SpectralVault::with_vault(record);
    let r = vault.update_allocations(id(5), basket(), &vec![account(AUTHORITY)], 9);
    assert_eq!(r, Err(ContractError::InvalidVaultState));
    assert_eq!(vault.vault(&id(5)).unwrap().allocations.len(), 10_001);
}
