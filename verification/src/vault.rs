use vstd::prelude::*;

use crate::assoc::{assoc_map, distinct_keys, lemma_assoc_dom, lemma_assoc_index, lemma_assoc_update, lemma_distinct_push};
use crate::digest::hash_basket;
use crate::errors::ContractError;
use crate::ledger::Ledger;
use crate::math::{
    calculate_fee, calculate_proportional_amount, calculate_shares_to_mint, fits_i128, lemma_div_trunc_bounds, BPS_LIMIT,
};
use crate::model::{
    allocation_check, basket_value, bps_sum, distinct_assets, basket_value_fits, claim_result, create_error, created,
    deposit_in_range, deposit_result, deposited, fee_claims, fees_claimed, holds_asset, lemma_deposit_shares_nonneg,
    lemma_fee_claims_nonneg, lemma_payouts_none_persists, lemma_payouts_nonneg,
    lemma_sound_insert, manager_error, payouts, rebalance_result, rebalanced, registry_sound, status_set, vault_sound,
    withdraw_error, withdraw_in_range, withdraw_result, withdrawn, VaultView, MAX_BASKET_ASSETS,
    MAX_MANAGEMENT_FEE_BPS,
};
use crate::types::{Address, AssetAllocation, Bytes32, DepositReceipt, RebalanceRecord, VaultConfig, VaultStatus};

verus! {

/// The stored state of one vault.
pub struct VaultRecord {
    /// The vault's id.
    pub id: Bytes32,
    /// The vault's configuration.
    pub config: VaultConfig,
    /// The basket: assets and target weights.
    pub allocations: Vec<AssetAllocation>,
    /// Shares issued in all.
    pub total_shares: i128,
    /// Shares per holder.
    pub user_shares: Ledger,
    /// Balance per asset held for the shareholders.
    pub asset_balances: Ledger,
    /// Unclaimed management fees per asset.
    pub accrued_fees: Ledger,
    /// Past rebalances, oldest first.
    pub history: Vec<RebalanceRecord>,
}

impl View for VaultRecord {
    type V = VaultView;

    open spec fn view(&self) -> VaultView {
        VaultView {
            config: self.config,
            allocations: self.allocations@,
            total_shares: self.total_shares,
            user_shares: self.user_shares@,
            user_shares_total: self.user_shares.total(),
            asset_balances: self.asset_balances@,
            accrued_fees: self.accrued_fees@,
            history: self.history@,
        }
    }
}

/// The id and abstract state of each record.
pub open spec fn record_pairs(records: Seq<VaultRecord>) -> Seq<(Bytes32, VaultView)> {
    records.map_values(|r: VaultRecord| (r.id, r@))
}

/// `a` is among the addresses that authorized the call.
fn is_signed(signers: &Vec<Address>, a: &Address) -> (b: bool)
    ensures
        b == signers@.contains(*a),
{
    let n = signers.len();
    for i in 0..n
        invariant
            n == signers@.len(),
            forall|j: int| 0 <= j < i ==> signers@[j] != *a,
    {
        if signers[i] == *a {
            assert(signers@[i as int] == *a);
            return true;
        }
    }
    false
}

/// `asset` occurs among the first `end` allocations.
fn asset_among(allocations: &Vec<AssetAllocation>, end: usize, asset: &Address) -> (b: bool)
    requires
        end <= allocations@.len(),
    ensures
        b == holds_asset(allocations@.take(end as int), *asset),
{
    for i in 0..end
        invariant
            end <= allocations@.len(),
            forall|j: int| 0 <= j < i ==> allocations@[j].asset != *asset,
    {
        if allocations[i].asset == *asset {
            assert(allocations@.take(end as int)[i as int].asset == *asset);
            return true;
        }
    }
    false
}

/// The contract's vaults, by id.
pub struct SpectralVault {
    vaults: Vec<VaultRecord>,
}

impl View for SpectralVault {
    type V = Map<Bytes32, VaultView>;

    /// The abstract state of every registered vault, by id.
    closed spec fn view(&self) -> Map<Bytes32, VaultView> {
        assoc_map(record_pairs(self.vaults@))
    }
}

impl SpectralVault {
    #[verifier::type_invariant]
    spec fn ids_distinct(self) -> bool {
        distinct_keys(record_pairs(self.vaults@))
    }

    /// Checks a basket: at most `MAX_BASKET_ASSETS` allocations, no asset
    /// twice, and weights that add up to 10,000 basis points.
    fn validate_allocations(allocations: &Vec<AssetAllocation>) -> (r: Result<(), ContractError>)
        ensures
            r == allocation_check(allocations@),
    {
        let n = allocations.len();
        if n > MAX_BASKET_ASSETS {
            return Err(ContractError::InvalidAllocation);
        }
        let mut total_bps: u64 = 0;
        assert(allocations@.take(0) =~= Seq::<AssetAllocation>::empty());
        for i in 0..n
            invariant
                n == allocations@.len(),
                n <= MAX_BASKET_ASSETS,
                distinct_assets(allocations@.take(i as int)),
                total_bps == bps_sum(allocations@.take(i as int)),
                total_bps <= i * 0xffff_ffff,
        {
            let alloc = allocations[i];
            if asset_among(allocations, i, &alloc.asset) {
                proof {
                    let j = choose|j: int| 0 <= j < i && allocations@.take(i as int)[j].asset == alloc.asset;
                    assert(allocations@[j].asset == allocations@[i as int].asset);
                }
                return Err(ContractError::DuplicateAsset);
            }
            total_bps = total_bps + alloc.target_bps as u64;
            proof {
                let p = allocations@.take(i + 1);
                let q = allocations@.take(i as int);
                assert(p.drop_last() =~= q);
                assert(p.last() == alloc);
                assert forall|a: int, b: int| 0 <= a < p.len() && 0 <= b < p.len() && a != b implies p[a].asset
                    != p[b].asset by {
                    if a < i && b < i {
                        assert(p[a] == q[a] && p[b] == q[b]);
                    } else if a < i {
                        assert(p[a] == q[a]);
                        assert(!(q[a].asset == alloc.asset));
                    } else if b < i {
                        assert(p[b] == q[b]);
                        assert(!(q[b].asset == alloc.asset));
                    }
                }
            }
        }
        assert(allocations@.take(n as int) =~= allocations@);
        if total_bps != BPS_LIMIT as u64 {
            return Err(ContractError::AllocationTotalMismatch);
        }
        Ok(())
    }

    /// The total value of a vault: the sum of the balances of its basket's
    /// assets.
    fn calculate_total_vault_value(balances: &Ledger, allocations: &Vec<AssetAllocation>) -> (r: Result<
        i128,
        ContractError,
    >)
        ensures
            r == if basket_value_fits(balances@, allocations@) {
                Ok::<i128, ContractError>(basket_value(balances@, allocations@) as i128)
            } else {
                Err(ContractError::MathOverflow)
            },
    {
        let mut total_value: i128 = 0;
        let n = allocations.len();
        assert(allocations@.take(0) =~= Seq::<AssetAllocation>::empty());
        for i in 0..n
            invariant
                n == allocations@.len(),
                total_value == basket_value(balances@, allocations@.take(i as int)),
                forall|m: int| 0 <= m <= i ==> fits_i128(#[trigger] basket_value(balances@, allocations@.take(m))),
        {
            let balance = balances.get(&allocations[i].asset);
            assert(allocations@.take(i + 1).drop_last() =~= allocations@.take(i as int));
            match total_value.checked_add(balance) {
                Some(t) => {
                    total_value = t;
                },
                None => {
                    assert(allocations@.take(i + 1).last() == allocations@[i as int]);
                    assert(!fits_i128(basket_value(balances@, allocations@.take(i + 1))));
                    return Err(ContractError::MathOverflow);
                },
            }
            assert(allocations@.take(i + 1).last() == allocations@[i as int]);
        }
        assert(allocations@.take(n as int) =~= allocations@);
        Ok(total_value)
    }

    /// A contract without vaults.
    pub fn new() -> (contract: SpectralVault)
        ensures
            contract@ == Map::<Bytes32, VaultView>::empty(),
            registry_sound(contract@),
    {
        let contract = SpectralVault { vaults: Vec::new() };
        assert(record_pairs(contract.vaults@) =~= Seq::<(Bytes32, VaultView)>::empty());
        assert(contract@ =~= Map::<Bytes32, VaultView>::empty());
        contract
    }

    /// A contract that holds one vault: the form in which a host that stores
    /// each vault on its own hands one to the library. A record whose ledgers
    /// hold only some holders or assets gives exact per-call results, but its
    /// holder total need not match its issued shares, so `registry_sound`
    /// and the laws that need it apply only when the record is sound.
    pub fn with_vault(record: VaultRecord) -> (contract: SpectralVault)
        ensures
            contract@ == Map::<Bytes32, VaultView>::empty().insert(record.id, record@),
            vault_sound(record@) ==> registry_sound(contract@),
    {
        let ghost id = record.id;
        let ghost view = record@;
        let mut vaults: Vec<VaultRecord> = Vec::new();
        vaults.push(record);
        let contract = SpectralVault { vaults };
        assert(record_pairs(contract.vaults@) =~= seq![(id, view)]);
        assert(seq![(id, view)].drop_last() =~= Seq::<(Bytes32, VaultView)>::empty());
        assert(assoc_map(seq![(id, view)]) == assoc_map(Seq::<(Bytes32, VaultView)>::empty()).insert(id, view));
        assert(contract@ =~= Map::<Bytes32, VaultView>::empty().insert(id, view));
        proof {
            if vault_sound(view) {
                assert forall|k: Bytes32| #[trigger] contract@.dom().contains(k) implies vault_sound(contract@[k]) by {
                    assert(k == id);
                }
            }
        }
        contract
    }

    /// The stored state of the vault `vault_id`, if it is registered.
    pub fn vault(&self, vault_id: &Bytes32) -> (record: Option<&VaultRecord>)
        ensures
            match record {
                Some(r) => self@.dom().contains(*vault_id) && r.id == *vault_id && r@ == self@[*vault_id],
                None => !self@.dom().contains(*vault_id),
            },
    {
        match self.find(vault_id) {
            Some(i) => Some(&self.vaults[i]),
            None => None,
        }
    }

    /// The position of the vault `vault_id`.
    fn find(&self, vault_id: &Bytes32) -> (r: Option<usize>)
        ensures
            match r {
                Some(i) => {
                    &&& i < self.vaults@.len()
                    &&& self.vaults@[i as int].id == *vault_id
                    &&& self@.dom().contains(*vault_id)
                    &&& self@[*vault_id] == self.vaults@[i as int]@
                },
                None => !self@.dom().contains(*vault_id),
            },
    {
        proof {
            use_type_invariant(self);
        }
        let ghost pairs = record_pairs(self.vaults@);
        let n = self.vaults.len();
        for i in 0..n
            invariant
                n == self.vaults@.len(),
                pairs == record_pairs(self.vaults@),
                distinct_keys(pairs),
                forall|j: int| 0 <= j < i ==> self.vaults@[j].id != *vault_id,
        {
            if self.vaults[i].id == *vault_id {
                proof {
                    lemma_assoc_index(pairs, i as int);
                }
                return Some(i);
            }
        }
        proof {
            lemma_assoc_dom(pairs, *vault_id);
            if exists|j: int| 0 <= j < pairs.len() && pairs[j].0 == *vault_id {
                let j = choose|j: int| 0 <= j < pairs.len() && pairs[j].0 == *vault_id;
                assert(self.vaults@[j].id == *vault_id);
            }
        }
        None
    }

    /// Takes the record at `i` out of the registry.
    fn checkout(&mut self, i: usize) -> (record: VaultRecord)
        requires
            i < old(self).vaults@.len(),
        ensures
            record == old(self).vaults@[i as int],
            final(self).vaults@ == old(self).vaults@.remove(i as int),
    {
        proof {
            use_type_invariant(&*self);
        }
        let mut vaults: Vec<VaultRecord> = Vec::new();
        std::mem::swap(&mut vaults, &mut self.vaults);
        let record = vaults.remove(i);
        proof {
            let p = record_pairs(old(self).vaults@);
            let q = record_pairs(vaults@);
            assert(q =~= p.remove(i as int));
            assert forall|a: int, b: int| 0 <= a < q.len() && 0 <= b < q.len() && a != b implies q[a].0
                != q[b].0 by {
                let a2 = if a < i { a } else { a + 1 };
                let b2 = if b < i { b } else { b + 1 };
                assert(q[a] == p[a2] && q[b] == p[b2]);
            }
        }
        self.vaults = vaults;
        record
    }

    /// Puts `record` back at position `i`, where `checkout` took it from.
    fn checkin(&mut self, i: usize, record: VaultRecord, Ghost(before): Ghost<Seq<VaultRecord>>)
        requires
            distinct_keys(record_pairs(before)),
            i < before.len(),
            before[i as int].id == record.id,
            old(self).vaults@ == before.remove(i as int),
        ensures
            final(self).vaults@ == before.update(i as int, record),
            final(self)@ == assoc_map(record_pairs(before)).insert(record.id, record@),
    {
        let ghost id = record.id;
        let ghost view = record@;
        let mut vaults: Vec<VaultRecord> = Vec::new();
        std::mem::swap(&mut vaults, &mut self.vaults);
        vaults.insert(i, record);
        proof {
            assert(vaults@ =~= before.update(i as int, vaults@[i as int]));
            let p = record_pairs(before);
            assert(record_pairs(vaults@) =~= p.update(i as int, (p[i as int].0, view)));
            lemma_assoc_update(p, i as int, view);
        }
        self.vaults = vaults;
    }

    /// Creates a new vault with both operations active and no shares.
    pub fn create_vault(
        &mut self,
        vault_id: Bytes32,
        name: String,
        metadata_hash: Bytes32,
        manager: Address,
        base_asset: Address,
        rebalance_authority: Address,
        management_fee_bps: u32,
        allocations: Vec<AssetAllocation>,
    ) -> (r: Result<(), ContractError>)
        ensures
            r == (match create_error(old(self)@, vault_id, management_fee_bps, allocations@) {
                Some(e) => Err(e),
                None => Ok(()),
            }),
            r is Err ==> final(self)@ == old(self)@,
            r is Ok ==> final(self)@ == old(self)@.insert(
                vault_id,
                created(
                    VaultConfig {
                        name,
                        metadata_hash,
                        manager,
                        base_asset,
                        rebalance_authority,
                        management_fee_bps,
                        deposit_status: VaultStatus::Active,
                        withdrawal_status: VaultStatus::Active,
                    },
                    allocations@,
                ),
            ),
            registry_sound(old(self)@) ==> registry_sound(final(self)@),
    {
        proof {
            use_type_invariant(&*self);
        }
        if self.find(&vault_id).is_some() {
            return Err(ContractError::DuplicateVault);
        }
        if management_fee_bps > MAX_MANAGEMENT_FEE_BPS {
            return Err(ContractError::FeeTooHigh);
        }
        match Self::validate_allocations(&allocations) {
            Err(e) => {
                return Err(e);
            },
            Ok(()) => {},
        }
        let config = VaultConfig {
            name,
            metadata_hash,
            manager,
            base_asset,
            rebalance_authority,
            management_fee_bps,
            deposit_status: VaultStatus::Active,
            withdrawal_status: VaultStatus::Active,
        };
        let record = VaultRecord {
            id: vault_id,
            config,
            allocations,
            total_shares: 0,
            user_shares: Ledger::new(),
            asset_balances: Ledger::new(),
            accrued_fees: Ledger::new(),
            history: Vec::new(),
        };
        let ghost view = record@;
        assert(view == created(record.config, record.allocations@));
        let mut vaults: Vec<VaultRecord> = Vec::new();
        std::mem::swap(&mut vaults, &mut self.vaults);
        let ghost before = vaults@;
        vaults.push(record);
        proof {
            let p = record_pairs(before);
            lemma_assoc_dom(p, vault_id);
            assert(record_pairs(vaults@) =~= p.push((vault_id, view)));
            lemma_distinct_push(p, (vault_id, view));
            assert(p.push((vault_id, view)).drop_last() =~= p);
            if registry_sound(old(self)@) {
                lemma_sound_insert(old(self)@, vault_id, view);
            }
        }
        self.vaults = vaults;
        Ok(())
    }

    /// Sets the deposit and withdrawal statuses of a vault; needs the
    /// manager's authorization.
    pub fn set_status(
        &mut self,
        vault_id: Bytes32,
        deposit_status: VaultStatus,
        withdrawal_status: VaultStatus,
        signers: &Vec<Address>,
    ) -> (r: Result<(), ContractError>)
        ensures
            r == (match manager_error(old(self)@, vault_id, signers@) {
                Some(e) => Err(e),
                None => Ok(()),
            }),
            r is Err ==> final(self)@ == old(self)@,
            r is Ok ==> final(self)@ == old(self)@.insert(
                vault_id,
                status_set(old(self)@[vault_id], deposit_status, withdrawal_status),
            ),
            r is Ok ==> final(self)@[vault_id].config.deposit_status == deposit_status
                && final(self)@[vault_id].config.withdrawal_status == withdrawal_status,
            registry_sound(old(self)@) ==> registry_sound(final(self)@),
    {
        proof {
            use_type_invariant(&*self);
        }
        let i = match self.find(&vault_id) {
            Some(i) => i,
            None => {
                return Err(ContractError::VaultNotFound);
            },
        };
        if !is_signed(signers, &self.vaults[i].config.manager) {
            return Err(ContractError::Unauthorised);
        }
        let ghost before = self.vaults@;
        let mut record = self.checkout(i);
        record.config.deposit_status = deposit_status;
        record.config.withdrawal_status = withdrawal_status;
        proof {
            assert(record@ == status_set(before[i as int]@, deposit_status, withdrawal_status));
            if registry_sound(old(self)@) {
                assert(old(self)@.dom().contains(vault_id));
                lemma_sound_insert(old(self)@, vault_id, record@);
            }
        }
        self.checkin(i, record, Ghost(before));
        Ok(())
    }

    /// The configuration of a vault.
    pub fn get_config(&self, vault_id: &Bytes32) -> (r: Result<&VaultConfig, ContractError>)
        ensures
            match r {
                Ok(config) => self@.dom().contains(*vault_id) && *config == self@[*vault_id].config,
                Err(e) => !self@.dom().contains(*vault_id) && e == ContractError::VaultNotFound,
            },
    {
        match self.find(vault_id) {
            Some(i) => Ok(&self.vaults[i].config),
            None => Err(ContractError::VaultNotFound),
        }
    }

    /// The basket of a vault.
    pub fn get_allocations(&self, vault_id: &Bytes32) -> (r: Result<&Vec<AssetAllocation>, ContractError>)
        ensures
            match r {
                Ok(allocations) => self@.dom().contains(*vault_id) && allocations@ == self@[*vault_id].allocations,
                Err(e) => !self@.dom().contains(*vault_id) && e == ContractError::VaultNotFound,
            },
    {
        match self.find(vault_id) {
            Some(i) => Ok(&self.vaults[i].allocations),
            None => Err(ContractError::VaultNotFound),
        }
    }

    /// Shares issued by a vault in all; 0 for an unknown vault.
    pub fn get_total_shares(&self, vault_id: &Bytes32) -> (shares: i128)
        ensures
            shares == if self@.dom().contains(*vault_id) {
                self@[*vault_id].total_shares
            } else {
                0
            },
    {
        match self.find(vault_id) {
            Some(i) => self.vaults[i].total_shares,
            None => 0,
        }
    }

    /// Shares of `user` in a vault; 0 for an unknown vault.
    pub fn get_user_shares(&self, vault_id: &Bytes32, user: &Address) -> (shares: i128)
        ensures
            shares == if self@.dom().contains(*vault_id) {
                self@[*vault_id].user_shares[*user]
            } else {
                0
            },
    {
        match self.find(vault_id) {
            Some(i) => self.vaults[i].user_shares.get(user),
            None => 0,
        }
    }

    /// Balance of `asset` held by a vault; 0 for an unknown vault.
    pub fn get_asset_balance(&self, vault_id: &Bytes32, asset: &Address) -> (balance: i128)
        ensures
            balance == if self@.dom().contains(*vault_id) {
                self@[*vault_id].asset_balances[*asset]
            } else {
                0
            },
    {
        match self.find(vault_id) {
            Some(i) => self.vaults[i].asset_balances.get(asset),
            None => 0,
        }
    }

    /// Unclaimed management fees of `asset` in a vault; 0 for an unknown vault.
    pub fn get_accrued_fees(&self, vault_id: &Bytes32, asset: &Address) -> (fees: i128)
        ensures
            fees == if self@.dom().contains(*vault_id) {
                self@[*vault_id].accrued_fees[*asset]
            } else {
                0
            },
    {
        match self.find(vault_id) {
            Some(i) => self.vaults[i].accrued_fees.get(asset),
            None => 0,
        }
    }

    /// Deposits `amount` of a basket asset for `user` and mints shares for
    /// the deposit's value net of the management fee; needs the user's
    /// authorization. The host moves `amount` from the user to the contract.
    pub fn deposit(
        &mut self,
        vault_id: Bytes32,
        user: Address,
        asset: Address,
        amount: i128,
        signers: &Vec<Address>,
    ) -> (r: Result<DepositReceipt, ContractError>)
        ensures
            r == deposit_result(old(self)@, vault_id, user, asset, amount as int, signers@),
            r is Err ==> final(self)@ == old(self)@,
            r is Ok ==> final(self)@ == old(self)@.insert(
                vault_id,
                deposited(old(self)@[vault_id], user, asset, amount as int),
            ),
            registry_sound(old(self)@) ==> registry_sound(final(self)@),
    {
        proof {
            use_type_invariant(&*self);
        }
        if !is_signed(signers, &user) {
            return Err(ContractError::Unauthorised);
        }
        if amount <= 0 {
            return Err(ContractError::ZeroAmount);
        }
        let i = match self.find(&vault_id) {
            Some(i) => i,
            None => {
                return Err(ContractError::VaultNotFound);
            },
        };
        let record = &self.vaults[i];
        let ghost v = record@;
        if record.config.deposit_status == VaultStatus::Paused {
            return Err(ContractError::DepositsPaused);
        }
        let n = record.allocations.len();
        assert(record.allocations@.take(n as int) =~= record.allocations@);
        if !asset_among(&record.allocations, n, &asset) {
            return Err(ContractError::InvalidAsset);
        }
        let fee_bps = record.config.management_fee_bps;
        let fee: i128 = if fee_bps > 0 {
            if amount.checked_mul(fee_bps as i128).is_none() {
                return Err(ContractError::MathOverflow);
            }
            calculate_fee(amount, fee_bps)
        } else {
            0
        };
        proof {
            if fee_bps > 0 {
                lemma_div_trunc_bounds(amount * fee_bps, BPS_LIMIT as int);
            }
        }
        let net_amount = amount - fee;
        let total_shares = record.total_shares;
        let total_value = match Self::calculate_total_vault_value(&record.asset_balances, &record.allocations) {
            Ok(value) => value,
            Err(e) => {
                return Err(e);
            },
        };
        if total_shares != 0 && total_value != 0 {
            match net_amount.checked_mul(total_shares) {
                None => {
                    return Err(ContractError::MathOverflow);
                },
                Some(product) => {
                    if product == i128::MIN && total_value == -1 {
                        return Err(ContractError::MathOverflow);
                    }
                },
            }
        }
        let shares = calculate_shares_to_mint(net_amount, total_shares, total_value);
        let new_total_shares = match total_shares.checked_add(shares) {
            Some(t) => t,
            None => {
                return Err(ContractError::MathOverflow);
            },
        };
        let new_user_shares = match record.user_shares.get(&user).checked_add(shares) {
            Some(t) => t,
            None => {
                return Err(ContractError::MathOverflow);
            },
        };
        let new_balance = match record.asset_balances.get(&asset).checked_add(net_amount) {
            Some(t) => t,
            None => {
                return Err(ContractError::MathOverflow);
            },
        };
        let mut new_fees: i128 = 0;
        if fee > 0 {
            new_fees = match record.accrued_fees.get(&asset).checked_add(fee) {
                Some(t) => t,
                None => {
                    return Err(ContractError::MathOverflow);
                },
            };
        }
        proof {
            use_type_invariant(&record.user_shares);
            if registry_sound(old(self)@) {
                assert(old(self)@.dom().contains(vault_id));
                record.user_shares.lemma_total_bounds(user, user);
            }
            assert(deposit_in_range(v, user, asset, amount as int));
        }
        let ghost before = self.vaults@;
        let mut record = self.checkout(i);
        record.total_shares = new_total_shares;
        record.user_shares.set(user, new_user_shares);
        record.asset_balances.set(asset, new_balance);
        if fee > 0 {
            record.accrued_fees.set(asset, new_fees);
        }
        proof {
            assert(record@ == deposited(v, user, asset, amount as int));
            if registry_sound(old(self)@) {
                assert(old(self)@.dom().contains(vault_id));
                assert(vault_sound(v));
                lemma_deposit_shares_nonneg(v, amount as int);
                assert(vault_sound(record@));
                lemma_sound_insert(old(self)@, vault_id, record@);
            }
        }
        self.checkin(i, record, Ghost(before));
        Ok(DepositReceipt { shares, net_amount, fee })
    }

    /// Redeems `shares_to_burn` of `user`'s shares for the proportional part
    /// of every basket asset; needs the user's authorization. Returns one
    /// pair per basket asset, in basket order, with the amount that the host
    /// pays out to the user (0 where there is nothing to pay).
    pub fn withdraw(
        &mut self,
        vault_id: Bytes32,
        user: Address,
        shares_to_burn: i128,
        signers: &Vec<Address>,
    ) -> (r: Result<Vec<(Address, i128)>, ContractError>)
        ensures
            match r {
                Ok(paid) => withdraw_result(old(self)@, vault_id, user, shares_to_burn as int, signers@)
                    == Ok::<Seq<(Address, i128)>, ContractError>(paid@),
                Err(e) => withdraw_result(old(self)@, vault_id, user, shares_to_burn as int, signers@)
                    == Err::<Seq<(Address, i128)>, ContractError>(e),
            },
            r is Err ==> final(self)@ == old(self)@,
            r is Ok ==> final(self)@ == old(self)@.insert(
                vault_id,
                withdrawn(old(self)@[vault_id], user, shares_to_burn as int),
            ),
            registry_sound(old(self)@) ==> registry_sound(final(self)@),
    {
        proof {
            use_type_invariant(&*self);
        }
        if !is_signed(signers, &user) {
            return Err(ContractError::Unauthorised);
        }
        if shares_to_burn <= 0 {
            return Err(ContractError::ZeroAmount);
        }
        let i = match self.find(&vault_id) {
            Some(i) => i,
            None => {
                return Err(ContractError::VaultNotFound);
            },
        };
        let record = &self.vaults[i];
        let ghost v = record@;
        if record.config.withdrawal_status == VaultStatus::Paused {
            return Err(ContractError::WithdrawalsPaused);
        }
        let user_shares = record.user_shares.get(&user);
        if user_shares < shares_to_burn {
            return Err(ContractError::InsufficientShares);
        }
        let total_shares = record.total_shares;
        assert(withdraw_error(old(self)@, vault_id, user, shares_to_burn as int, signers@) is None);
        let mut balances = record.asset_balances.snapshot();
        let mut paid: Vec<(Address, i128)> = Vec::new();
        let n = record.allocations.len();
        assert(record.allocations@.take(0) =~= Seq::<AssetAllocation>::empty());
        for j in 0..n
            invariant
                n == record.allocations@.len(),
                v == record@,
                v == old(self)@[vault_id],
                withdraw_error(old(self)@, vault_id, user, shares_to_burn as int, signers@) is None,
                total_shares == v.total_shares,
                payouts(record.allocations@.take(j as int), v.asset_balances, shares_to_burn as int, total_shares as int)
                    == Some((balances@, paid@)),
        {
            let asset = record.allocations[j].asset;
            let balance = balances.get(&asset);
            let ghost prefix = record.allocations@.take(j + 1);
            assert(prefix.drop_last() =~= record.allocations@.take(j as int));
            assert(prefix.last() == record.allocations@[j as int]);
            if total_shares != 0 {
                match shares_to_burn.checked_mul(balance) {
                    None => {
                        proof {
                            lemma_payouts_none_persists(record.allocations@, v.asset_balances, shares_to_burn as int,
                                total_shares as int, j + 1, n as int);
                            assert(record.allocations@.take(n as int) =~= record.allocations@);
                            assert(!withdraw_in_range(v, shares_to_burn as int));
                        }
                        return Err(ContractError::MathOverflow);
                    },
                    Some(product) => {
                        if product == i128::MIN && total_shares == -1 {
                            proof {
                                lemma_payouts_none_persists(record.allocations@, v.asset_balances, shares_to_burn as int,
                                    total_shares as int, j + 1, n as int);
                                assert(record.allocations@.take(n as int) =~= record.allocations@);
                                assert(!withdraw_in_range(v, shares_to_burn as int));
                            }
                            return Err(ContractError::MathOverflow);
                        }
                    },
                }
            }
            let amount = calculate_proportional_amount(shares_to_burn, total_shares, balance);
            if amount <= 0 {
                paid.push((asset, 0));
            } else {
                match balance.checked_sub(amount) {
                    None => {
                        proof {
                            lemma_payouts_none_persists(record.allocations@, v.asset_balances, shares_to_burn as int,
                                total_shares as int, j + 1, n as int);
                            assert(record.allocations@.take(n as int) =~= record.allocations@);
                            assert(!withdraw_in_range(v, shares_to_burn as int));
                        }
                        return Err(ContractError::MathOverflow);
                    },
                    Some(rest) => {
                        balances.set(asset, rest);
                        paid.push((asset, amount));
                    },
                }
            }
        }
        assert(record.allocations@.take(n as int) =~= record.allocations@);
        let new_total_shares = match total_shares.checked_sub(shares_to_burn) {
            Some(t) => t,
            None => {
                return Err(ContractError::MathOverflow);
            },
        };
        let new_user_shares = user_shares - shares_to_burn;
        proof {
            use_type_invariant(&record.user_shares);
            if registry_sound(old(self)@) {
                assert(old(self)@.dom().contains(vault_id));
                record.user_shares.lemma_total_bounds(user, user);
                assert(vault_sound(v));
                lemma_payouts_nonneg(v.allocations, v.asset_balances, shares_to_burn as int, total_shares as int);
                assert forall|k: Address| k != user implies #[trigger] v.user_shares[k] <= v.total_shares
                    - shares_to_burn by {
                    record.user_shares.lemma_total_bounds(k, user);
                }
            }
        }
        let ghost before = self.vaults@;
        let mut record = self.checkout(i);
        record.total_shares = new_total_shares;
        record.user_shares.set(user, new_user_shares);
        record.asset_balances = balances;
        proof {
            assert(record@ == withdrawn(v, user, shares_to_burn as int));
            if registry_sound(old(self)@) {
                assert(vault_sound(record@));
                lemma_sound_insert(old(self)@, vault_id, record@);
            }
        }
        self.checkin(i, record, Ghost(before));
        Ok(paid)
    }

    /// Resets every positive accrued fee of the basket to 0; needs the
    /// manager's authorization. Returns one pair per basket asset, in basket
    /// order, with the amount that the host pays out to the manager (0 where
    /// nothing accrued).
    pub fn claim_fees(&mut self, vault_id: Bytes32, signers: &Vec<Address>) -> (r: Result<
        Vec<(Address, i128)>,
        ContractError,
    >)
        ensures
            match r {
                Ok(claimed) => claim_result(old(self)@, vault_id, signers@) == Ok::<
                    Seq<(Address, i128)>,
                    ContractError,
                >(claimed@),
                Err(e) => claim_result(old(self)@, vault_id, signers@) == Err::<Seq<(Address, i128)>, ContractError>(e),
            },
            r is Err ==> final(self)@ == old(self)@,
            r is Ok ==> final(self)@ == old(self)@.insert(vault_id, fees_claimed(old(self)@[vault_id])),
            registry_sound(old(self)@) ==> registry_sound(final(self)@),
    {
        proof {
            use_type_invariant(&*self);
        }
        let i = match self.find(&vault_id) {
            Some(i) => i,
            None => {
                return Err(ContractError::VaultNotFound);
            },
        };
        if !is_signed(signers, &self.vaults[i].config.manager) {
            return Err(ContractError::Unauthorised);
        }
        let ghost before = self.vaults@;
        let ghost v = before[i as int]@;
        let mut record = self.checkout(i);
        let mut fees = record.accrued_fees.snapshot();
        let mut claimed: Vec<(Address, i128)> = Vec::new();
        let n = record.allocations.len();
        assert(record.allocations@.take(0) =~= Seq::<AssetAllocation>::empty());
        for j in 0..n
            invariant
                n == record.allocations@.len(),
                record.allocations@ == v.allocations,
                fee_claims(record.allocations@.take(j as int), v.accrued_fees) == (fees@, claimed@),
        {
            let asset = record.allocations[j].asset;
            let accrued = fees.get(&asset);
            assert(record.allocations@.take(j + 1).drop_last() =~= record.allocations@.take(j as int));
            assert(record.allocations@.take(j + 1).last() == record.allocations@[j as int]);
            if accrued > 0 {
                fees.set(asset, 0);
                claimed.push((asset, accrued));
            } else {
                claimed.push((asset, 0));
            }
        }
        assert(record.allocations@.take(n as int) =~= record.allocations@);
        record.accrued_fees = fees;
        proof {
            assert(record@ == fees_claimed(v));
            if registry_sound(old(self)@) {
                assert(old(self)@.dom().contains(vault_id));
                lemma_fee_claims_nonneg(v.allocations, v.accrued_fees);
                lemma_sound_insert(old(self)@, vault_id, record@);
            }
        }
        self.checkin(i, record, Ghost(before));
        Ok(claimed)
    }

    /// Replaces the basket of a vault and records the rebalance: its
    /// `timestamp` and the hashes of the basket before and after it. Needs
    /// the rebalance authority's authorization. Returns the record.
    pub fn update_allocations(
        &mut self,
        vault_id: Bytes32,
        new_allocations: Vec<AssetAllocation>,
        signers: &Vec<Address>,
        timestamp: u64,
    ) -> (r: Result<RebalanceRecord, ContractError>)
        ensures
            r == rebalance_result(old(self)@, vault_id, new_allocations@, signers@, timestamp),
            r is Err ==> final(self)@ == old(self)@,
            r is Ok ==> final(self)@ == old(self)@.insert(
                vault_id,
                rebalanced(old(self)@[vault_id], new_allocations@, timestamp),
            ),
            registry_sound(old(self)@) ==> registry_sound(final(self)@),
    {
        proof {
            use_type_invariant(&*self);
        }
        let i = match self.find(&vault_id) {
            Some(i) => i,
            None => {
                return Err(ContractError::VaultNotFound);
            },
        };
        if !is_signed(signers, &self.vaults[i].config.rebalance_authority) {
            return Err(ContractError::Unauthorised);
        }
        match Self::validate_allocations(&new_allocations) {
            Err(e) => {
                return Err(e);
            },
            Ok(()) => {},
        }
        if self.vaults[i].allocations.len() > MAX_BASKET_ASSETS {
            return Err(ContractError::InvalidVaultState);
        }
        let entry = RebalanceRecord {
            timestamp,
            old_allocation_hash: hash_basket(&self.vaults[i].allocations),
            new_allocation_hash: hash_basket(&new_allocations),
        };
        let ghost before = self.vaults@;
        let ghost v = before[i as int]@;
        let mut record = self.checkout(i);
        record.history.push(entry);
        record.allocations = new_allocations;
        proof {
            assert(record@ == rebalanced(v, record.allocations@, timestamp));
            if registry_sound(old(self)@) {
                assert(old(self)@.dom().contains(vault_id));
                lemma_sound_insert(old(self)@, vault_id, record@);
            }
        }
        self.checkin(i, record, Ghost(before));
        Ok(entry)
    }
}

} // verus!
