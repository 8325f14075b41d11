use push_token::contract::{
    pending_valid, Contract, PendingTransfer, ReceiverKind, StorageBalance, StorageBalanceBounds,
    StorageDeposit, TransferCall,
};
use push_token::pools::{RafflePool, TappingPool};
use push_token::error::TokenError;
use push_token::ledger::{used_from_unused, Ledger, Resolution};

const OWNER: u64 = 100;
const A: u64 = 1;
const B: u64 = 2;
const C: u64 = 3;
const COST: u128 = 1_250_000;

fn started(owner: u64, supply: u128) -> Contract {
    let mut c = Contract::new(owner, supply, COST, false).unwrap();
    for acc in [A, B, C] {
        if acc != owner {
            c.storage_deposit(acc, COST, true).unwrap();
        }
    }
    c
}

fn pending_id(t: TransferCall) -> u64 {
    match t {
        TransferCall::Pending { id } => id,
        TransferCall::Settled { .. } => panic!("expected a pending transfer"),
    }
}

#[test]
fn register_deposit_transfer_round_trip() {
    let mut c = Contract::new(OWNER, 0, COST, false).unwrap();
    c.storage_deposit(B, COST, true).unwrap();
    c.storage_deposit(A, COST, true).unwrap();
    c.mint(OWNER, A, 100).unwrap();
    c.ft_transfer(A, B, 40).unwrap();
    assert_eq!(c.ft_balance_of(A), 60);
    assert_eq!(c.ft_balance_of(B), 40);
    assert_eq!(c.ft_total_supply(), 100);
}

#[test]
fn partial_refund_returns_unused_to_sender() {
    let mut c = started(A, 1000);
    let id = pending_id(c.ft_transfer_call(A, B, 100, ReceiverKind::Program).unwrap());
    assert_eq!(c.ft_balance_of(A), 900);
    assert_eq!(c.ft_balance_of(B), 100);
    let r = c.ft_resolve_transfer(id, Some(30));
    assert_eq!(r, Some(Resolution { used: 30, burned: 0 }));
    assert_eq!(c.ft_balance_of(A), 970);
    assert_eq!(c.ft_balance_of(B), 30);
    assert_eq!(c.ft_total_supply(), 1000);
}

#[test]
fn refund_limited_to_what_receiver_still_holds() {
    let mut c = started(A, 1000);
    let id = pending_id(c.ft_transfer_call(A, B, 100, ReceiverKind::Program).unwrap());
    c.ft_transfer(B, C, 90).unwrap();
    assert_eq!(c.ft_balance_of(B), 10);
    let r = c.ft_resolve_transfer(id, Some(30));
    assert_eq!(r, Some(Resolution { used: 90, burned: 0 }));
    assert_eq!(c.ft_balance_of(A), 910);
    assert_eq!(c.ft_balance_of(B), 0);
    assert_eq!(c.ft_balance_of(C), 90);
    assert_eq!(c.ft_total_supply(), 1000);
}

#[test]
fn refund_to_closed_sender_is_burned() {
    let mut c = started(OWNER, 1000);
    c.ft_transfer(OWNER, A, 200).unwrap();
    let id = pending_id(c.ft_transfer_call(A, B, 100, ReceiverKind::Program).unwrap());
    assert_eq!(c.storage_unregister(A, true), Ok(Some(100)));
    assert_eq!(c.ft_total_supply(), 900);
    let r = c.ft_resolve_transfer(id, Some(40));
    assert_eq!(r, Some(Resolution { used: 100, burned: 60 }));
    assert_eq!(c.ft_balance_of(B), 40);
    assert_eq!(c.ft_balance_of(A), 0);
    assert_eq!(c.ft_total_supply(), 840);
}

#[test]
fn second_resolution_changes_nothing() {
    let mut c = started(A, 1000);
    let id = pending_id(c.ft_transfer_call(A, B, 100, ReceiverKind::Program).unwrap());
    assert_eq!(c.ft_resolve_transfer(id, Some(30)), Some(Resolution { used: 30, burned: 0 }));
    assert_eq!(c.ft_resolve_transfer(id, Some(0)), None);
    assert_eq!(c.ft_resolve_transfer(id, None), None);
    assert_eq!(c.ft_balance_of(A), 970);
    assert_eq!(c.ft_balance_of(B), 30);
    assert_eq!(c.ft_total_supply(), 1000);
}

#[test]
fn missing_report_refunds_everything() {
    let mut c = started(A, 1000);
    let id = pending_id(c.ft_transfer_call(A, B, 100, ReceiverKind::Program).unwrap());
    assert_eq!(c.ft_resolve_transfer(id, None), Some(Resolution { used: 0, burned: 0 }));
    assert_eq!(c.ft_balance_of(A), 1000);
    assert_eq!(c.ft_balance_of(B), 0);
}

#[test]
fn overreported_use_counts_as_full_use() {
    let mut c = started(A, 1000);
    let id = pending_id(c.ft_transfer_call(A, B, 100, ReceiverKind::Program).unwrap());
    assert_eq!(c.ft_resolve_transfer(id, Some(500)), Some(Resolution { used: 100, burned: 0 }));
    assert_eq!(c.ft_balance_of(A), 900);
    assert_eq!(c.ft_balance_of(B), 100);
}

#[test]
fn plain_receiver_settles_at_once() {
    let mut c = started(A, 1000);
    let t = c.ft_transfer_call(A, B, 100, ReceiverKind::Plain).unwrap();
    assert_eq!(t, TransferCall::Settled { used: 100 });
    assert_eq!(c.ft_balance_of(A), 900);
    assert_eq!(c.ft_balance_of(B), 100);
    assert_eq!(c.ft_resolve_transfer(0, Some(0)), None);
}

#[test]
fn transfer_ids_are_distinct() {
    let mut c = started(A, 1000);
    let first = pending_id(c.ft_transfer_call(A, B, 10, ReceiverKind::Program).unwrap());
    let second = pending_id(c.ft_transfer_call(A, C, 10, ReceiverKind::Program).unwrap());
    assert_ne!(first, second);
    assert_eq!(c.ft_resolve_transfer(second, None), Some(Resolution { used: 0, burned: 0 }));
    assert_eq!(c.ft_resolve_transfer(first, Some(10)), Some(Resolution { used: 10, burned: 0 }));
    assert_eq!(c.ft_balance_of(A), 990);
    assert_eq!(c.ft_balance_of(B), 10);
    assert_eq!(c.ft_balance_of(C), 0);
}

#[test]
fn transfer_errors() {
    let mut c = started(A, 1000);
    assert_eq!(c.ft_transfer(A, A, 1), Err(TokenError::SelfTransfer));
    assert_eq!(c.ft_transfer(A, B, 0), Err(TokenError::ZeroAmount));
    assert_eq!(c.ft_transfer(7, B, 1), Err(TokenError::InsufficientBalance));
    assert_eq!(
        c.ft_transfer_call(7, B, 1, ReceiverKind::Program),
        Err(TokenError::InsufficientBalance)
    );
    assert_eq!(c.ft_transfer(A, B, 1001), Err(TokenError::InsufficientBalance));
    assert_eq!(c.ft_transfer(A, 7, 1), Err(TokenError::ReceiverNotRegistered));
    assert_eq!(
        c.ft_transfer_call(A, 7, 1, ReceiverKind::Program),
        Err(TokenError::ReceiverNotRegistered)
    );
    assert_eq!(c.ft_balance_of(A), 1000);
    assert_eq!(c.ft_balance_of(B), 0);
    assert_eq!(c.ft_total_supply(), 1000);
}

#[test]
fn sender_keeps_exact_balance_when_spending_all() {
    let mut c = started(A, 50);
    c.ft_transfer(A, B, 50).unwrap();
    assert_eq!(c.ft_balance_of(A), 0);
    assert_eq!(c.ft_transfer(A, B, 1), Err(TokenError::InsufficientBalance));
}

#[test]
fn unregistered_balance_reads_zero() {
    let c = started(A, 1000);
    assert_eq!(c.ft_balance_of(42), 0);
    assert_eq!(c.storage_balance_of(42), None);
}

#[test]
fn mint_errors() {
    let mut c = started(A, u128::MAX - 5);
    assert_eq!(c.mint(A, 42, 1), Err(TokenError::NotRegistered));
    assert_eq!(c.mint(A, B, 6), Err(TokenError::Overflow));
    assert_eq!(c.mint(B, B, 5), Err(TokenError::Unauthorized));
    assert_eq!(c.ft_balance_of(B), 0);
    assert_eq!(c.mint(A, B, 5), Ok(()));
    assert_eq!(c.ft_total_supply(), u128::MAX);
    assert_eq!(c.ft_balance_of(B), 5);
}

#[test]
fn initialising_twice_fails() {
    assert!(matches!(Contract::new(A, 10, COST, true), Err(TokenError::AlreadyInitialized)));
    assert!(matches!(
        Contract::new_default_meta(A, 10, COST, true),
        Err(TokenError::AlreadyInitialized)
    ));
    let c = Contract::new_default_meta(A, 10, COST, false).unwrap();
    assert_eq!(c.ft_balance_of(A), 10);
    assert_eq!(c.ft_total_supply(), 10);
}

#[test]
fn storage_deposit_below_minimum_fails() {
    let mut c = started(A, 1000);
    assert_eq!(c.storage_deposit(42, COST - 1, false), Err(TokenError::InsufficientDeposit));
    assert_eq!(c.storage_balance_of(42), None);
    assert_eq!(c.ft_transfer(A, 42, 1), Err(TokenError::ReceiverNotRegistered));
    assert_eq!(c.ft_total_supply(), 1000);
}

#[test]
fn storage_deposit_refunds_excess() {
    let mut c = started(A, 1000);
    let d = c.storage_deposit(42, COST + 7, false).unwrap();
    let balance = StorageBalance { total: COST, available: 0 };
    assert_eq!(d, StorageDeposit { balance, refund: 7 });
    assert_eq!(c.storage_balance_of(42), Some(balance));
    let again = c.storage_deposit(42, 30, true).unwrap();
    assert_eq!(again, StorageDeposit { balance, refund: 30 });
}

#[test]
fn storage_bounds_are_the_registration_cost() {
    let c = started(A, 1000);
    assert_eq!(c.storage_balance_bounds(), StorageBalanceBounds { min: COST, max: Some(COST) });
}

#[test]
fn storage_withdraw_cases() {
    let c = started(A, 1000);
    let balance = StorageBalance { total: COST, available: 0 };
    assert_eq!(c.storage_withdraw(42, None), Err(TokenError::NotRegistered));
    assert_eq!(c.storage_withdraw(A, Some(1)), Err(TokenError::InsufficientStorageBalance));
    assert_eq!(c.storage_withdraw(A, Some(0)), Ok(balance));
    assert_eq!(c.storage_withdraw(A, None), Ok(balance));
}

#[test]
fn unregister_with_balance_needs_force() {
    let mut c = started(A, 1000);
    assert_eq!(c.storage_unregister(A, false), Err(TokenError::PositiveBalanceNotForced));
    assert_eq!(c.ft_balance_of(A), 1000);
    assert_eq!(c.ft_total_supply(), 1000);
    assert!(c.storage_balance_of(A).is_some());
    assert_eq!(c.storage_unregister(B, false), Ok(Some(0)));
    assert_eq!(c.storage_balance_of(B), None);
    assert_eq!(c.storage_unregister(B, false), Ok(None));
    assert_eq!(c.storage_unregister(A, true), Ok(Some(1000)));
    assert_eq!(c.ft_total_supply(), 0);
}

#[test]
fn ledger_operations() {
    let mut l = Ledger::new();
    assert_eq!(l.register(A), Ok(()));
    assert_eq!(l.register(A), Err(TokenError::AlreadyRegistered));
    assert_eq!(l.deposit(B, 1), Err(TokenError::NotRegistered));
    assert_eq!(l.deposit(A, 100), Ok(()));
    assert_eq!(l.withdraw(A, 101), Err(TokenError::InsufficientBalance));
    assert_eq!(l.withdraw(B, 1), Err(TokenError::InsufficientBalance));
    assert_eq!(l.withdraw(B, 0), Ok(()));
    assert_eq!(l.balance_of(B), 0);
    assert_eq!(l.withdraw(A, 30), Ok(()));
    assert_eq!(l.balance_of(A), 70);
    assert_eq!(l.total_supply(), 70);
    assert_eq!(l.close(A), Some(70));
    assert_eq!(l.close(A), None);
    assert_eq!(l.total_supply(), 0);
}

#[test]
fn ledger_settle_refunds_and_burns() {
    let mut l = Ledger::new();
    l.register(A).unwrap();
    l.register(B).unwrap();
    l.deposit(B, 50).unwrap();
    assert_eq!(l.settle(A, B, 50, Some(20)), Resolution { used: 20, burned: 0 });
    assert_eq!(l.balance_of(A), 30);
    assert_eq!(l.balance_of(B), 20);
    assert_eq!(l.settle(C, B, 50, None), Resolution { used: 50, burned: 20 });
    assert_eq!(l.balance_of(B), 0);
    assert_eq!(l.total_supply(), 30);
}

#[test]
fn contract_rebuilds_from_its_parts() {
    let mut c = started(A, 1000);
    let id = pending_id(c.ft_transfer_call(A, B, 100, ReceiverKind::Program).unwrap());
    let mut back = Contract::from_parts(
        &c.entries(),
        c.pending_transfers(),
        c.next_transfer_id(),
        c.registration_cost(),
        c.owner(),
        c.raffle_pools().clone(),
        c.tapping_pools().clone(),
    )
    .unwrap();
    assert_eq!(back.ft_total_supply(), 1000);
    assert_eq!(back.ft_balance_of(A), 900);
    assert_eq!(back.ft_resolve_transfer(id, Some(30)), Some(Resolution { used: 30, burned: 0 }));
    assert_eq!(back.ft_balance_of(A), 970);
    assert_eq!(c.ft_resolve_transfer(id, None), Some(Resolution { used: 0, burned: 0 }));
}

#[test]
fn contract_rebuild_rejects_bad_parts() {
    let dup = vec![(A, 1u128), (A, 2u128)];
    assert!(Contract::from_parts(&dup, vec![], 0, COST, A, vec![], vec![]).is_none());
    let too_much = vec![(A, u128::MAX), (B, 1u128)];
    assert!(Contract::from_parts(&too_much, vec![], 0, COST, A, vec![], vec![]).is_none());
    let ok = vec![(A, u128::MAX - 1), (B, 1u128)];
    let p = PendingTransfer { id: 3, sender: A, receiver: B, amount: 1 };
    assert!(Contract::from_parts(&ok, vec![p], 3, COST, A, vec![], vec![]).is_none());
    let q = PendingTransfer { id: 2, sender: A, receiver: B, amount: 1 };
    assert!(Contract::from_parts(&ok, vec![p, q], 4, COST, A, vec![], vec![]).is_none());
    let own = PendingTransfer { id: 0, sender: A, receiver: A, amount: 1 };
    assert!(Contract::from_parts(&ok, vec![own], 4, COST, A, vec![], vec![]).is_none());
    let c = Contract::from_parts(&ok, vec![q, p], 4, COST, A, vec![], vec![]).unwrap();
    assert_eq!(c.ft_total_supply(), u128::MAX);
    assert_eq!(c.pending_transfers(), vec![q, p]);
}

#[test]
fn pending_list_checks() {
    let p = PendingTransfer { id: 1, sender: A, receiver: B, amount: 5 };
    let q = PendingTransfer { id: 4, sender: B, receiver: C, amount: 5 };
    assert!(pending_valid(&vec![], 0));
    assert!(pending_valid(&vec![p, q], 5));
    assert!(!pending_valid(&vec![p, q], 4));
    assert!(!pending_valid(&vec![q, p], 5));
}

#[test]
fn default_start_sets_up_pools() {
    let c = Contract::new_default_meta(A, 10, COST, false).unwrap();
    assert_eq!(
        c.raffle_pools().clone(),
        vec![RafflePool { pool_id: 1, amount: 5_000_000_000_000, total_amount: 0 }]
    );
    assert_eq!(
        c.tapping_pools().clone(),
        vec![TappingPool { pool_id: 2, amount: 100_000_000_000_000 }]
    );
    let plain = Contract::new(A, 10, COST, false).unwrap();
    assert!(plain.raffle_pools().is_empty());
    assert!(plain.tapping_pools().is_empty());
}

#[test]
fn unused_reports_become_used_reports() {
    assert_eq!(used_from_unused(100, Some(70)), Some(30));
    assert_eq!(used_from_unused(100, Some(0)), Some(100));
    assert_eq!(used_from_unused(100, Some(250)), Some(0));
    assert_eq!(used_from_unused(100, None), None);
}

#[test]
fn transfer_ids_exhausted_fails_without_moving_tokens() {
    let entries = vec![(A, 1000u128), (B, 0u128)];
    let mut c = Contract::from_parts(&entries, vec![], u64::MAX, COST, A, vec![], vec![]).unwrap();
    assert_eq!(c.ft_transfer_call(A, B, 10, ReceiverKind::Program), Err(TokenError::Overflow));
    assert_eq!(c.ft_transfer_call(A, B, 0, ReceiverKind::Program), Err(TokenError::ZeroAmount));
    assert_eq!(c.ft_balance_of(A), 1000);
    assert_eq!(
        c.ft_transfer_call(A, B, 10, ReceiverKind::Plain),
        Ok(TransferCall::Settled { used: 10 })
    );
    assert_eq!(c.ft_balance_of(B), 10);
}

#[test]
fn fresh_start_gives_owner_the_supply() {
    let c = Contract::new(A, 500, COST, false).unwrap();
    assert_eq!(c.owner(), A);
    assert_eq!(c.ft_balance_of(A), 500);
    assert_eq!(c.ft_balance_of(B), 0);
    assert_eq!(c.ft_total_supply(), 500);
    assert!(c.storage_balance_of(A).is_some());
    assert_eq!(c.storage_balance_of(B), None);
    let d = Contract::new_default_meta(B, 7, COST, false).unwrap();
    assert_eq!(d.owner(), B);
    assert_eq!(d.ft_balance_of(B), 7);
    assert_eq!(d.ft_total_supply(), 7);
}

#[test]
fn only_owner_mints() {
    let mut c = started(A, 10);
    assert_eq!(c.mint(C, C, 1), Err(TokenError::Unauthorized));
    assert_eq!(c.ft_total_supply(), 10);
    assert_eq!(c.mint(A, C, 1), Ok(()));
    assert_eq!(c.ft_balance_of(C), 1);
    assert_eq!(c.ft_total_supply(), 11);
}
