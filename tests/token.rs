use fungible_token::account::Account;
use fungible_token::token::{FungibleToken, Proof, TokenError};
use near_sdk::{MockedBlockchain, RuntimeFeesConfig, VMConfig, VMContext};

fn alice() -> String {
    "alice.near".to_string()
}
fn bob() -> String {
    "bob.near".to_string()
}
fn carol() -> String {
    "carol.near".to_string()
}
fn prover() -> String {
    "prover.near".to_string()
}

fn get_context(predecessor_account_id: String) -> VMContext {
    VMContext {
        current_account_id: alice(),
        signer_account_id: bob(),
        signer_account_pk: vec![0, 1, 2],
        predecessor_account_id,
        input: vec![],
        block_index: 0,
        block_timestamp: 0,
        account_balance: 0,
        account_locked_balance: 0,
        storage_usage: 10u64.pow(6),
        attached_deposit: 0,
        prepaid_gas: 10u64.pow(18),
        random_seed: vec![0, 1, 2],
        is_view: false,
        output_data_receivers: vec![],
        epoch_height: 0,
    }
}

/// Installs a mocked host, which computes the hashes of account identifiers.
fn setup(predecessor_account_id: String) {
    near_sdk::env::set_blockchain_interface(Box::new(MockedBlockchain::new(
        get_context(predecessor_account_id),
        VMConfig::free(),
        RuntimeFeesConfig::free(),
        vec![],
        Default::default(),
        Default::default(),
    )));
}

fn init(owner: String, total_supply: u128) -> FungibleToken {
    FungibleToken::new(owner, total_supply, prover(), true, false).unwrap()
}

fn sample_proof() -> Proof {
    Proof {
        log_index: 3,
        log_entry_data: vec![1, 2, 3],
        receipt_index: 7,
        receipt_data: vec![4, 5],
        header_data: vec![6],
        proof: vec![vec![8, 9], vec![10]],
    }
}

#[test]
fn test_new() {
    setup(carol());
    let total_supply = 1_000_000_000_000_000u128;
    let contract = init(bob(), total_supply);
    assert_eq!(contract.get_total_supply(), total_supply);
    assert_eq!(contract.get_balance(bob()).unwrap(), total_supply);
}

#[test]
fn test_new_twice_fails() {
    setup(carol());
    let total_supply = 1_000_000_000_000_000u128;
    let _contract = init(bob(), total_supply);
    let second = FungibleToken::new(bob(), total_supply, prover(), true, true);
    assert!(matches!(second, Err(TokenError::AlreadyInitialized)));
}

#[test]
fn test_transfer() {
    setup(carol());
    let total_supply = 1_000_000_000_000_000u128;
    let mut contract = init(carol(), total_supply);
    let transfer_amount = total_supply / 3;
    contract.transfer(bob(), transfer_amount, carol()).unwrap();
    assert_eq!(contract.get_balance(carol()).unwrap(), (total_supply - transfer_amount));
    assert_eq!(contract.get_balance(bob()).unwrap(), transfer_amount);
    assert_eq!(contract.get_total_supply(), total_supply);
}

#[test]
fn test_self_allowance_fail() {
    setup(carol());
    let total_supply = 1_000_000_000_000_000u128;
    let mut contract = init(carol(), total_supply);
    let r = contract.set_allowance(carol(), total_supply / 2, carol());
    assert_eq!(r, Err(TokenError::SelfAllowance));
}

#[test]
fn test_carol_escrows_to_bob_transfers_to_alice() {
    setup(carol());
    let total_supply = 1_000_000_000_000_000u128;
    let mut contract = init(carol(), total_supply);
    assert_eq!(contract.get_total_supply(), total_supply);
    let allowance = total_supply / 3;
    let transfer_amount = allowance / 3;
    contract.set_allowance(bob(), allowance, carol()).unwrap();
    assert_eq!(contract.get_allowance(carol(), bob()), Ok(allowance));
    // Acting as bob now
    contract.transfer_from(carol(), alice(), transfer_amount, bob()).unwrap();
    assert_eq!(contract.get_balance(carol()).unwrap(), total_supply - transfer_amount);
    assert_eq!(contract.get_balance(alice()).unwrap(), transfer_amount);
    assert_eq!(contract.get_allowance(carol(), bob()), Ok(allowance - transfer_amount));
}

#[test]
fn test_carol_escrows_to_bob_locks_and_transfers_to_alice() {
    setup(carol());
    let total_supply = 1_000_000_000_000_000u128;
    let mut contract = init(carol(), total_supply);
    assert_eq!(contract.get_total_supply(), total_supply);
    let allowance = total_supply / 3;
    let transfer_amount = allowance / 3;
    contract.set_allowance(bob(), allowance, carol()).unwrap();
    assert_eq!(contract.get_allowance(carol(), bob()), Ok(allowance));
    // Acting as bob now
    assert_eq!(contract.get_balance(carol()).unwrap(), total_supply);
    contract.transfer_from(carol(), alice(), transfer_amount, bob()).unwrap();
    assert_eq!(contract.get_balance(carol()).unwrap(), (total_supply - transfer_amount));
    assert_eq!(contract.get_balance(alice()).unwrap(), transfer_amount);
    assert_eq!(contract.get_allowance(carol(), bob()), Ok(allowance - transfer_amount));
}

#[test]
fn new_rejects_invalid_owner() {
    setup(carol());
    let r = FungibleToken::new("Bob".to_string(), 10, prover(), true, false);
    assert!(matches!(r, Err(TokenError::InvalidOwnerId)));
}

#[test]
fn accounts_are_stored_under_digests() {
    setup(carol());
    let contract = init(carol(), 10);
    assert_eq!(contract.accounts.len(), 1);
    assert_eq!(contract.accounts[0].0.len(), 32);
    assert_ne!(contract.accounts[0].0, carol().into_bytes());
}

#[test]
fn transfer_more_than_balance_fails_unchanged() {
    setup(carol());
    let mut contract = init(carol(), 100);
    contract.transfer(bob(), 40, carol()).unwrap();
    let r = contract.transfer_from(bob(), alice(), 41, bob());
    assert_eq!(r, Err(TokenError::NotEnoughBalance));
    assert_eq!(contract.get_balance(bob()).unwrap(), 40);
    assert_eq!(contract.get_balance(alice()).unwrap(), 0);
    assert_eq!(contract.get_balance(carol()).unwrap(), 60);
}

#[test]
fn transfer_zero_fails() {
    setup(carol());
    let mut contract = init(carol(), 100);
    assert_eq!(contract.transfer(bob(), 0, carol()), Err(TokenError::ZeroAmount));
    assert_eq!(contract.get_balance(carol()).unwrap(), 100);
}

#[test]
fn transfer_rejects_invalid_ids() {
    setup(carol());
    let mut contract = init(carol(), 100);
    assert_eq!(
        contract.transfer_from("x".to_string(), bob(), 1, carol()),
        Err(TokenError::InvalidOwnerId)
    );
    assert_eq!(
        contract.transfer_from(carol(), "bad..id".to_string(), 1, carol()),
        Err(TokenError::InvalidNewOwnerId)
    );
    assert_eq!(contract.get_balance(carol()).unwrap(), 100);
}

#[test]
fn transfer_to_self_keeps_balance() {
    setup(carol());
    let mut contract = init(carol(), 100);
    contract.transfer(carol(), 30, carol()).unwrap();
    assert_eq!(contract.get_balance(carol()).unwrap(), 100);
}

#[test]
fn delegated_transfer_over_allowance_fails_unchanged() {
    setup(carol());
    let mut contract = init(carol(), 1000);
    contract.set_allowance(bob(), 50, carol()).unwrap();
    let r = contract.transfer_from(carol(), alice(), 51, bob());
    assert_eq!(r, Err(TokenError::NotEnoughAllowance));
    assert_eq!(contract.get_balance(carol()).unwrap(), 1000);
    assert_eq!(contract.get_balance(alice()).unwrap(), 0);
    assert_eq!(contract.get_allowance(carol(), bob()), Ok(50));
}

#[test]
fn repeated_delegated_transfer_fails_once_exhausted() {
    setup(carol());
    let mut contract = init(carol(), 1000);
    contract.set_allowance(bob(), 50, carol()).unwrap();
    contract.transfer_from(carol(), alice(), 30, bob()).unwrap();
    assert_eq!(contract.get_allowance(carol(), bob()), Ok(20));
    let r = contract.transfer_from(carol(), alice(), 30, bob());
    assert_eq!(r, Err(TokenError::NotEnoughAllowance));
    assert_eq!(contract.get_balance(carol()).unwrap(), 970);
    assert_eq!(contract.get_balance(alice()).unwrap(), 30);
}

#[test]
fn spent_allowance_leaves_no_entry() {
    setup(carol());
    let mut contract = init(carol(), 1000);
    contract.set_allowance(bob(), 25, carol()).unwrap();
    contract.transfer_from(carol(), alice(), 25, bob()).unwrap();
    assert_eq!(contract.get_allowance(carol(), bob()), Ok(0));
    let (_, carol_account) = contract.accounts.iter().find(|(_, a)| a.balance == 975).unwrap();
    assert!(carol_account.allowances.is_empty());
}

#[test]
fn zero_allowance_removes_entry() {
    setup(carol());
    let mut contract = init(carol(), 1000);
    contract.set_allowance(bob(), 25, carol()).unwrap();
    contract.set_allowance(bob(), 0, carol()).unwrap();
    assert_eq!(contract.get_allowance(carol(), bob()), Ok(0));
    assert!(contract.accounts[0].1.allowances.is_empty());
}

#[test]
fn account_allowance_table() {
    setup(carol());
    let mut account = Account::new();
    account.set_allowance(&bob(), 7).unwrap();
    account.set_allowance(&alice(), 9).unwrap();
    assert_eq!(account.get_allowance(&bob()), Ok(7));
    assert_eq!(account.get_allowance(&alice()), Ok(9));
    assert_eq!(account.get_allowance(&carol()), Ok(0));
    account.set_allowance(&bob(), 0).unwrap();
    assert_eq!(account.get_allowance(&bob()), Ok(0));
    assert_eq!(account.allowances.len(), 1);
}

#[test]
fn set_allowance_rejects_invalid_escrow() {
    setup(carol());
    let mut contract = init(carol(), 1000);
    assert_eq!(
        contract.set_allowance("A".to_string(), 5, carol()),
        Err(TokenError::InvalidEscrowId)
    );
    assert_eq!(
        contract.get_allowance(carol(), "-bob".to_string()),
        Err(TokenError::InvalidEscrowId)
    );
    assert_eq!(
        contract.get_allowance("Carol".to_string(), bob()),
        Err(TokenError::InvalidOwnerId)
    );
}

#[test]
fn transfers_conserve_total_supply() {
    setup(carol());
    let total_supply = 1_000_000_000_000_000u128;
    let mut contract = init(carol(), total_supply);
    contract.transfer(bob(), total_supply / 3, carol()).unwrap();
    contract.set_allowance(alice(), total_supply / 9, bob()).unwrap();
    contract.transfer_from(bob(), carol(), total_supply / 27, alice()).unwrap();
    contract.transfer(alice(), 5, carol()).unwrap();
    let sum: u128 = [alice(), bob(), carol()].iter().map(|id| contract.get_balance(id.clone()).unwrap()).sum();
    assert_eq!(sum, total_supply);
    assert_eq!(contract.get_total_supply(), total_supply);
}

#[test]
fn mint_builds_request_without_change() {
    setup(carol());
    let contract = FungibleToken::new(carol(), 100, prover(), false, false).unwrap();
    let request = contract.mint(bob(), 40, sample_proof(), alice(), 900);
    assert_eq!(request.prover_account, prover());
    assert!(request.skip_bridge_call);
    assert_eq!(request.verify_gas, 300);
    assert_eq!(request.callback_gas, 300);
    assert_eq!(request.verify_deposit, 0);
    assert_eq!(request.callback_deposit, 0);
    assert_eq!(request.callback_account, alice());
    assert_eq!(request.new_owner_id, bob());
    assert_eq!(request.amount, 40);
    assert_eq!(request.proof.log_index, 3);
    assert_eq!(request.proof.proof, vec![vec![8, 9], vec![10]]);
    assert_eq!(contract.get_total_supply(), 100);
    assert_eq!(contract.get_balance(bob()).unwrap(), 0);
}

#[test]
fn finish_mint_credits_after_verification() {
    setup(carol());
    let mut contract = init(carol(), 100);
    contract.finish_mint(true, bob(), 40, alice(), alice()).unwrap();
    assert_eq!(contract.get_total_supply(), 140);
    assert_eq!(contract.get_balance(bob()).unwrap(), 40);
    assert_eq!(contract.get_balance(carol()).unwrap(), 100);
}

#[test]
fn finish_mint_failed_verification_changes_nothing() {
    setup(carol());
    let mut contract = init(carol(), 100);
    let r = contract.finish_mint(false, bob(), 40, alice(), alice());
    assert_eq!(r, Err(TokenError::VerificationFailed));
    assert_eq!(contract.get_total_supply(), 100);
    assert_eq!(contract.get_balance(bob()).unwrap(), 0);
}

#[test]
fn finish_mint_from_other_caller_fails() {
    setup(carol());
    let mut contract = init(carol(), 100);
    for success in [true, false] {
        let r = contract.finish_mint(success, bob(), 40, bob(), alice());
        assert_eq!(r, Err(TokenError::NotSelfCall));
    }
    assert_eq!(contract.get_total_supply(), 100);
    assert_eq!(contract.get_balance(bob()).unwrap(), 0);
}

#[test]
fn finish_mint_overflow_fails() {
    setup(carol());
    let mut contract = init(carol(), u128::MAX - 1);
    let r = contract.finish_mint(true, bob(), 2, alice(), alice());
    assert_eq!(r, Err(TokenError::Overflow));
    contract.finish_mint(true, bob(), 1, alice(), alice()).unwrap();
    assert_eq!(contract.get_total_supply(), u128::MAX);
    assert_eq!(contract.get_balance(bob()).unwrap(), 1);
}

#[test]
fn without_host_hashing_fails() {
    let r = FungibleToken::new(carol(), 10, prover(), true, false);
    assert!(matches!(r, Err(TokenError::HostUnavailable)));
    let mut account = Account::new();
    assert_eq!(account.set_allowance(&bob(), 3), Err(TokenError::HostUnavailable));
    assert_eq!(account.get_allowance(&bob()), Err(TokenError::HostUnavailable));
}

#[test]
fn host_unavailable_leaves_ledger_unchanged() {
    setup(carol());
    let mut contract = init(carol(), 100);
    near_sdk::env::take_blockchain_interface();
    assert_eq!(contract.transfer(bob(), 10, carol()), Err(TokenError::HostUnavailable));
    assert_eq!(contract.get_balance(carol()), Err(TokenError::HostUnavailable));
    setup(carol());
    assert_eq!(contract.get_balance(carol()), Ok(100));
    assert_eq!(contract.get_balance(bob()), Ok(0));
}

#[test]
fn well_formedness_checks() {
    setup(carol());
    let mut contract = init(carol(), 100);
    contract.transfer(bob(), 10, carol()).unwrap();
    contract.set_allowance(alice(), 5, carol()).unwrap();
    assert!(contract.is_well_formed());
    contract.total_supply = 99;
    assert!(!contract.is_well_formed());
    contract.total_supply = 100;
    contract.accounts[0].1.allowances.push((vec![1], 0));
    assert!(!contract.accounts[0].1.is_well_formed());
    assert!(!contract.is_well_formed());
    contract.accounts[0].1.allowances.pop();
    let duplicate = contract.accounts[0].0.clone();
    contract.accounts.push((duplicate, Account::new()));
    assert!(!contract.is_well_formed());
}

#[test]
fn key_level_operations() {
    let owner = vec![1u8, 2, 3];
    let other = vec![4u8, 5];
    let escrow = vec![9u8];
    let mut t = FungibleToken::with_owner_key(owner.clone(), 100, prover(), true);
    assert!(t.is_well_formed());
    assert_eq!(t.balance_by_key(&owner), 100);
    assert_eq!(t.balance_by_key(&other), 0);
    assert_eq!(
        t.transfer_by_keys(owner.clone(), other.clone(), escrow.clone(), 101, false),
        Err(TokenError::NotEnoughBalance)
    );
    assert_eq!(
        t.transfer_by_keys(owner.clone(), other.clone(), escrow.clone(), 10, true),
        Err(TokenError::NotEnoughAllowance)
    );
    t.set_allowance_by_keys(owner.clone(), escrow.clone(), 30);
    assert_eq!(t.allowance_by_key(&owner, &escrow), 30);
    t.transfer_by_keys(owner.clone(), other.clone(), escrow.clone(), 30, true).unwrap();
    assert_eq!(t.balance_by_key(&owner), 70);
    assert_eq!(t.balance_by_key(&other), 30);
    assert_eq!(t.allowance_by_key(&owner, &escrow), 0);
    t.set_allowance_by_keys(owner.clone(), escrow.clone(), 5);
    t.set_allowance_by_keys(owner.clone(), escrow.clone(), 0);
    assert!(t.accounts.iter().all(|(_, a)| a.allowances.is_empty()));
    t.credit_by_key(escrow.clone(), 7);
    assert_eq!(t.get_total_supply(), 107);
    assert_eq!(t.balance_by_key(&escrow), 7);
    assert!(t.is_well_formed());
}
