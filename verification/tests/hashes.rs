use soroban_sdk::{Bytes, Env};
use spectra_vault::digest::hash_basket;
use spectra_vault::types::{Address, AssetAllocation, Bytes32, VaultStatus};
use spectra_vault::vault::SpectralVault;

fn account(n: u128) -> Address {
    Address { is_contract: false, key: Bytes32 { hi: 0, lo: n } }
}

fn token(n: u128) -> Address {
    Address { is_contract: true, key: Bytes32 { hi: 7, lo: n } }
}

fn expected_hash(allocations: &[AssetAllocation]) -> Bytes32 {
    let mut encoded: Vec<u8> = Vec::new();
    for a in allocations {
        encoded.push(if a.asset.is_contract { 1 } else { 0 });
        encoded.extend_from_slice(&a.asset.key.hi.to_be_bytes());
        encoded.extend_from_slice(&a.asset.key.lo.to_be_bytes());
        encoded.extend_from_slice(&a.target_bps.to_be_bytes());
    }
    let env = Env::default();
    let digest = env.crypto().sha256(&Bytes::from_slice(&env, &encoded)).to_array();
    let mut hi = [0u8; 16];
    let mut lo = [0u8; 16];
    hi.copy_from_slice(&digest[..16]);
    lo.copy_from_slice(&digest[16..]);
    Bytes32 { hi: u128::from_be_bytes(hi), lo: u128::from_be_bytes(lo) }
}

fn basket(a: u32) -> Vec<AssetAllocation> {
    vec![
        AssetAllocation { asset: token(10), target_bps: a },
        AssetAllocation { asset: token(11), target_bps: 10000 - a },
    ]
}

#[test]
fn hash_of_a_basket_is_sha256_of_its_encoding() {
    let b = basket(6000);
    assert_eq!(hash_basket(&b), expected_hash(&b));
    assert_eq!(hash_basket(&vec![]), expected_hash(&[]));
    assert_ne!(hash_basket(&basket(6000)), hash_basket(&basket(5000)));
}

#[test]
fn rebalance_records_hashes_of_both_baskets() {
    let authority = account(3);
    let mut vault = SpectralVault::new();
    let id = Bytes32 { hi: 0, lo: 1 };
    vault
        .create_vault(id, "Basket".to_string(), id, account(1), token(10), authority, 0, basket(6000))
        .unwrap();
    let record = vault.update_allocations(id, basket(2500), &vec![authority], 42).unwrap();
    assert_eq!(record.timestamp, 42);
    assert_eq!(record.old_allocation_hash, expected_hash(&basket(6000)));
    assert_eq!(record.new_allocation_hash, expected_hash(&basket(2500)));
    let same = vault.update_allocations(id, basket(2500), &vec![authority], 43).unwrap();
    assert_eq!(same.old_allocation_hash, same.new_allocation_hash);
    assert_eq!(vault.vault(&id).unwrap().history, vec![record, same]);
    assert_eq!(vault.get_config(&id).unwrap().deposit_status, VaultStatus::Active);
}
