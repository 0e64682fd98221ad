use spectra_vault::errors::ContractError;
use spectra_vault::types::{Address, AssetAllocation, Bytes32, VaultStatus};
use spectra_vault::vault::SpectralVault;

fn bytes(b: u8) -> Bytes32 {
    let half = u128::from_be_bytes([b; 16]);
    Bytes32 { hi: half, lo: half }
}

fn account(n: u128) -> Address {
    Address { is_contract: false, key: Bytes32 { hi: 0, lo: n } }
}

fn token(n: u128) -> Address {
    Address { is_contract: true, key: Bytes32 { hi: 7, lo: n } }
}

struct Parties {
    manager: Address,
    user: Address,
    rebalance_auth: Address,
    asset_a: Address,
    asset_b: Address,
}

fn parties() -> Parties {
    Parties { manager: account(1), user: account(2), rebalance_auth: account(3), asset_a: token(10), asset_b: token(11) }
}

fn half_half(p: &Parties) -> Vec<AssetAllocation> {
    vec![
        AssetAllocation { asset: p.asset_a, target_bps: 5000 },
        AssetAllocation { asset: p.asset_b, target_bps: 5000 },
    ]
}

fn create(vault: &mut SpectralVault, id: Bytes32, p: &Parties, fee_bps: u32, allocations: Vec<AssetAllocation>) -> Result<(), ContractError> {
    vault.create_vault(id, "Vault".to_string(), bytes(0), p.manager, p.asset_a, p.rebalance_auth, fee_bps, allocations)
}

#[test]
fn test_create_vault() {
    let p = parties();
    let mut vault = SpectralVault::new();
    let vault_id = bytes(0);
    let allocations = half_half(&p);
    vault
        .create_vault(vault_id, "Test Vault".to_string(), bytes(0), p.manager, p.asset_a, p.rebalance_auth, 100, allocations)
        .unwrap();
    let config = vault.get_config(&vault_id).unwrap();
    assert_eq!(config.name, "Test Vault");
    assert_eq!(config.manager, p.manager);
}

#[test]
fn test_create_vault_invalid_allocation() {
    let p = parties();
    let mut vault = SpectralVault::new();
    let vault_id = bytes(0);
    let allocations = vec![AssetAllocation { asset: p.asset_a, target_bps: 9000 }];
    let r = vault.create_vault(
        vault_id,
        "Invalid Vault".to_string(),
        bytes(0),
        p.manager,
        p.asset_a,
        p.rebalance_auth,
        100,
        allocations,
    );
    assert_eq!(r, Err(ContractError::AllocationTotalMismatch));
    assert!(vault.get_config(&vault_id).is_err());
}

#[test]
fn test_deposit() {
    let p = parties();
    let mut vault = SpectralVault::new();
    let vault_id = bytes(0);
    vault
        .create_vault(vault_id, "Test Vault".to_string(), bytes(0), p.manager, p.asset_a, p.rebalance_auth, 0, half_half(&p))
        .unwrap();
    let deposit_amount = 1000i128;
    let receipt = vault.deposit(vault_id, p.user, p.asset_a, deposit_amount, &vec![p.user]).unwrap();
    let shares = receipt.shares;
    assert_eq!(shares, deposit_amount);
    assert_eq!(vault.get_user_shares(&vault_id, &p.user), shares);
    assert_eq!(vault.get_asset_balance(&vault_id, &p.asset_a), deposit_amount);
    assert_eq!(vault.get_accrued_fees(&vault_id, &p.asset_a), 0);
    assert_eq!(
        vault.get_asset_balance(&vault_id, &p.asset_a) + vault.get_accrued_fees(&vault_id, &p.asset_a),
        deposit_amount
    );
}

#[test]
fn test_deposit_with_fee() {
    let p = parties();
    let mut vault = SpectralVault::new();
    let vault_id = bytes(1);
    vault
        .create_vault(vault_id, "Fee Vault".to_string(), bytes(0), p.manager, p.asset_a, p.rebalance_auth, 100, half_half(&p))
        .unwrap();
    let deposit_amount = 1000i128;
    let fee_amount = 10i128;
    let net_amount = deposit_amount - fee_amount;
    let receipt = vault.deposit(vault_id, p.user, p.asset_a, deposit_amount, &vec![p.user]).unwrap();
    assert_eq!(receipt.shares, net_amount);
    assert_eq!(receipt.net_amount, net_amount);
    assert_eq!(receipt.fee, fee_amount);
    assert_eq!(vault.get_user_shares(&vault_id, &p.user), net_amount);
    assert_eq!(vault.get_asset_balance(&vault_id, &p.asset_a), net_amount);
    assert_eq!(vault.get_accrued_fees(&vault_id, &p.asset_a), fee_amount);
    assert_eq!(
        vault.get_asset_balance(&vault_id, &p.asset_a) + vault.get_accrued_fees(&vault_id, &p.asset_a),
        deposit_amount
    );
}

#[test]
fn test_withdraw_full() {
    let p = parties();
    let mut vault = SpectralVault::new();
    let vault_id = bytes(0);
    create(&mut vault, vault_id, &p, 0, half_half(&p)).unwrap();
    let deposit_amount = 1000i128;
    vault.deposit(vault_id, p.user, p.asset_a, deposit_amount, &vec![p.user]).unwrap();
    let shares_to_burn = vault.get_user_shares(&vault_id, &p.user);
    let paid = vault.withdraw(vault_id, p.user, shares_to_burn, &vec![p.user]).unwrap();
    assert_eq!(vault.get_user_shares(&vault_id, &p.user), 0);
    assert_eq!(vault.get_total_shares(&vault_id), 0);
    assert_eq!(paid, vec![(p.asset_a, deposit_amount), (p.asset_b, 0)]);
}

#[test]
fn test_paused_deposit() {
    let p = parties();
    let mut vault = SpectralVault::new();
    let vault_id = bytes(0);
    let allocations = vec![AssetAllocation { asset: p.asset_a, target_bps: 10000 }];
    create(&mut vault, vault_id, &p, 0, allocations).unwrap();
    vault.set_status(vault_id, VaultStatus::Paused, VaultStatus::Active, &vec![p.manager]).unwrap();
    let result = vault.deposit(vault_id, p.user, p.asset_a, 1000, &vec![p.user]);
    assert!(result.is_err());
    assert_eq!(result, Err(ContractError::DepositsPaused));
}
