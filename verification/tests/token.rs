use oct_token::resolver::NotificationOutcome;
use oct_token::token::{Event, OCTToken};
use oct_token::{TokenError, MIN_TRANSFER_CALL_BUDGET, STORAGE_BALANCE_MIN};

const DECIMALS_BASE: u128 = 1_000_000_000_000_000_000_000_000;
const TOTAL_SUPPLY: u128 = 100 * 1_000_000 * DECIMALS_BASE;

fn new_token() -> OCTToken {
    OCTToken::new("alice".to_string(), TOTAL_SUPPLY)
}

#[test]
fn test_new() {
    let token_contract = new_token();
    assert_eq!(token_contract.ft_total_supply(), TOTAL_SUPPLY);
    assert_eq!(token_contract.ft_balance_of(&"alice".to_string()), TOTAL_SUPPLY);
}

#[test]
fn test_transfer() {
    let mut token_contract = new_token();
    let bounds = token_contract.storage_balance_bounds();
    token_contract
        .storage_deposit("bob".to_string(), bounds.min)
        .unwrap();
    let transfer_amount = TOTAL_SUPPLY / 5;
    token_contract
        .ft_transfer(&"alice".to_string(), &"bob".to_string(), transfer_amount, None, 1)
        .unwrap();
    assert_eq!(
        token_contract.ft_balance_of(&"alice".to_string()),
        TOTAL_SUPPLY - transfer_amount
    );
    assert_eq!(token_contract.ft_balance_of(&"bob".to_string()), transfer_amount);
}

/// A million-unit ledger held entirely by x, with y unregistered.
fn million_token() -> OCTToken {
    OCTToken::new("x".to_string(), 1_000_000)
}

/// Same, but with y registered through a minimum storage deposit.
fn million_token_with_y() -> OCTToken {
    let mut t = million_token();
    t.storage_deposit("y".to_string(), STORAGE_BALANCE_MIN).unwrap();
    t
}

#[test]
fn transfer_to_unregistered_fails() {
    let mut t = million_token();
    let r = t.ft_transfer(&"x".to_string(), &"y".to_string(), 100, None, 1);
    assert_eq!(r, Err(TokenError::NotRegistered));
    assert_eq!(t.ft_balance_of(&"x".to_string()), 1_000_000);
    assert_eq!(t.ft_balance_of(&"y".to_string()), 0);
}

#[test]
fn transfer_after_registration_succeeds() {
    let mut t = million_token_with_y();
    let r = t.ft_transfer(&"x".to_string(), &"y".to_string(), 100, None, 1);
    assert_eq!(r, Ok(()));
    assert_eq!(t.ft_balance_of(&"x".to_string()), 999_900);
    assert_eq!(t.ft_balance_of(&"y".to_string()), 100);
    assert_eq!(t.ft_total_supply(), 1_000_000);
}

#[test]
fn transfer_exceeding_balance_fails() {
    let mut t = million_token_with_y();
    t.ft_transfer(&"x".to_string(), &"y".to_string(), 100, None, 1).unwrap();
    let r = t.ft_transfer(&"y".to_string(), &"x".to_string(), 101, None, 1);
    assert_eq!(r, Err(TokenError::InsufficientBalance));
    assert_eq!(t.ft_balance_of(&"x".to_string()), 999_900);
    assert_eq!(t.ft_balance_of(&"y".to_string()), 100);
}

#[test]
fn transfer_call_fully_consumed_refunds_nothing() {
    let mut t = million_token_with_y();
    t.ft_transfer(&"x".to_string(), &"y".to_string(), 100, None, 1).unwrap();
    let req = t
        .ft_transfer_call(
            &"x".to_string(),
            &"y".to_string(),
            500,
            None,
            "payload".to_string(),
            1,
            MIN_TRANSFER_CALL_BUDGET,
        )
        .unwrap();
    assert_eq!(req.amount, 500);
    assert_eq!(req.sender_id, "x".to_string());
    assert_eq!(req.receiver_id, "y".to_string());
    assert_eq!(req.payload, "payload".to_string());
    let kept = t
        .ft_resolve_transfer(req.call_id, NotificationOutcome::Succeeded { unused: 0 })
        .unwrap();
    assert_eq!(kept, 500);
    assert_eq!(t.ft_balance_of(&"x".to_string()), 999_400);
    assert_eq!(t.ft_balance_of(&"y".to_string()), 600);
    assert_eq!(t.ft_total_supply(), 1_000_000);
}

#[test]
fn transfer_call_partly_unused_refunds_declared_amount() {
    let mut t = million_token_with_y();
    t.ft_transfer(&"x".to_string(), &"y".to_string(), 100, None, 1).unwrap();
    let req = t
        .ft_transfer_call(
            &"x".to_string(),
            &"y".to_string(),
            500,
            None,
            "payload".to_string(),
            1,
            MIN_TRANSFER_CALL_BUDGET,
        )
        .unwrap();
    let kept = t
        .ft_resolve_transfer(req.call_id, NotificationOutcome::Succeeded { unused: 300 })
        .unwrap();
    assert_eq!(kept, 200);
    assert_eq!(t.ft_balance_of(&"x".to_string()), 999_700);
    assert_eq!(t.ft_balance_of(&"y".to_string()), 300);
    assert_eq!(t.ft_total_supply(), 1_000_000);
}

#[test]
fn failed_call_refund_is_bounded_by_present_balance() {
    let mut t = million_token_with_y();
    t.ft_transfer(&"x".to_string(), &"y".to_string(), 100, None, 1).unwrap();
    let req = t
        .ft_transfer_call(
            &"x".to_string(),
            &"y".to_string(),
            500,
            None,
            "payload".to_string(),
            1,
            MIN_TRANSFER_CALL_BUDGET,
        )
        .unwrap();
    // Before resolution runs, y spends most of the optimistic credit.
    t.ft_transfer(&"y".to_string(), &"x".to_string(), 500, None, 1).unwrap();
    assert_eq!(t.ft_balance_of(&"y".to_string()), 100);
    let kept = t.ft_resolve_transfer(req.call_id, NotificationOutcome::Failed).unwrap();
    // The refund is min(500, 100) = 100, not the full 500.
    assert_eq!(kept, 400);
    assert_eq!(t.ft_balance_of(&"y".to_string()), 0);
    assert_eq!(t.ft_balance_of(&"x".to_string()), 1_000_000);
    assert_eq!(t.ft_total_supply(), 1_000_000);
}

#[test]
fn deposit_past_supply_maximum_fails_and_changes_nothing() {
    let mut t = OCTToken::new("x".to_string(), u128::MAX);
    let r = t.ledger.internal_deposit(&"x".to_string(), 1);
    assert_eq!(r, Err(TokenError::Overflow));
    assert_eq!(t.ft_balance_of(&"x".to_string()), u128::MAX);
    assert_eq!(t.ft_total_supply(), u128::MAX);
}

#[test]
fn resolve_twice_is_rejected() {
    let mut t = million_token_with_y();
    let req = t
        .ft_transfer_call(
            &"x".to_string(),
            &"y".to_string(),
            500,
            None,
            "payload".to_string(),
            1,
            MIN_TRANSFER_CALL_BUDGET,
        )
        .unwrap();
    t.ft_resolve_transfer(req.call_id, NotificationOutcome::Succeeded { unused: 0 }).unwrap();
    let r = t.ft_resolve_transfer(req.call_id, NotificationOutcome::Succeeded { unused: 0 });
    assert_eq!(r, Err(TokenError::UnknownCallId));
}

#[test]
fn resolve_unknown_call_id_is_rejected() {
    let mut t = million_token_with_y();
    let r = t.ft_resolve_transfer(7, NotificationOutcome::Failed);
    assert_eq!(r, Err(TokenError::UnknownCallId));
}

#[test]
fn declared_unused_is_clamped_to_the_transfer() {
    let mut t = million_token_with_y();
    t.ft_transfer(&"x".to_string(), &"y".to_string(), 100, None, 1).unwrap();
    let req = t
        .ft_transfer_call(
            &"x".to_string(),
            &"y".to_string(),
            500,
            None,
            "payload".to_string(),
            1,
            MIN_TRANSFER_CALL_BUDGET,
        )
        .unwrap();
    // y claims to return more than it was given; only 500 comes back.
    let kept = t
        .ft_resolve_transfer(req.call_id, NotificationOutcome::Succeeded { unused: 9_999 })
        .unwrap();
    assert_eq!(kept, 0);
    assert_eq!(t.ft_balance_of(&"x".to_string()), 999_900);
    assert_eq!(t.ft_balance_of(&"y".to_string()), 100);
}

#[test]
fn transfer_to_self_is_rejected() {
    let mut t = million_token();
    let r = t.ft_transfer(&"x".to_string(), &"x".to_string(), 100, None, 1);
    assert_eq!(r, Err(TokenError::SameAccount));
}

#[test]
fn zero_amount_transfer_is_rejected() {
    let mut t = million_token_with_y();
    let r = t.ft_transfer(&"x".to_string(), &"y".to_string(), 0, None, 1);
    assert_eq!(r, Err(TokenError::ZeroAmount));
}

#[test]
fn wrong_authorization_deposit_is_rejected() {
    let mut t = million_token_with_y();
    let r = t.ft_transfer(&"x".to_string(), &"y".to_string(), 100, None, 0);
    assert_eq!(r, Err(TokenError::AuthorizationTokenInvalid));
    let r2 = t.ft_transfer(&"x".to_string(), &"y".to_string(), 100, None, 2);
    assert_eq!(r2, Err(TokenError::AuthorizationTokenInvalid));
}

#[test]
fn insufficient_budget_is_rejected() {
    let mut t = million_token_with_y();
    let r = t.ft_transfer_call(
        &"x".to_string(),
        &"y".to_string(),
        500,
        None,
        "payload".to_string(),
        1,
        MIN_TRANSFER_CALL_BUDGET - 1,
    );
    assert!(matches!(r, Err(TokenError::InsufficientResourceBudget)));
    assert_eq!(t.ft_balance_of(&"y".to_string()), 0);
}

#[test]
fn deposit_below_minimum_does_not_register() {
    let mut t = million_token();
    let sb = t.storage_deposit("y".to_string(), STORAGE_BALANCE_MIN - 1).unwrap();
    assert_eq!(sb.total, STORAGE_BALANCE_MIN - 1);
    assert_eq!(sb.available, STORAGE_BALANCE_MIN - 1);
    let r = t.ft_transfer(&"x".to_string(), &"y".to_string(), 100, None, 1);
    assert_eq!(r, Err(TokenError::NotRegistered));
    // Topping the deposit up to the bound registers the account.
    let sb2 = t.storage_deposit("y".to_string(), 1).unwrap();
    assert_eq!(sb2.total, STORAGE_BALANCE_MIN);
    assert_eq!(sb2.available, 0);
    let r2 = t.ft_transfer(&"x".to_string(), &"y".to_string(), 100, None, 1);
    assert_eq!(r2, Ok(()));
}

#[test]
fn storage_balance_bounds_reports_fixed_minimum() {
    let t = million_token();
    let bounds = t.storage_balance_bounds();
    assert_eq!(bounds.min, STORAGE_BALANCE_MIN);
    assert_eq!(bounds.min, 1_250_000_000_000_000_000_000);
    assert_eq!(bounds.max, None);
}

#[test]
fn storage_balance_of_reports_deposit_and_available() {
    let mut t = million_token();
    assert!(t.storage_balance_of(&"y".to_string()).is_none());
    t.storage_deposit("y".to_string(), STORAGE_BALANCE_MIN + 7).unwrap();
    let sb = t.storage_balance_of(&"y".to_string()).unwrap();
    assert_eq!(sb.total, STORAGE_BALANCE_MIN + 7);
    assert_eq!(sb.available, 7);
}

#[test]
fn storage_withdraw_cannot_strand_a_positive_balance() {
    let mut t = million_token_with_y();
    t.ft_transfer(&"x".to_string(), &"y".to_string(), 100, None, 1).unwrap();
    let r = t.storage_withdraw(&"y".to_string(), 1);
    assert!(matches!(r, Err(TokenError::StorageBalanceTooLow)));
    // After returning the tokens the deposit becomes withdrawable.
    t.ft_transfer(&"y".to_string(), &"x".to_string(), 100, None, 1).unwrap();
    let sb = t.storage_withdraw(&"y".to_string(), 1).unwrap();
    assert_eq!(sb.total, STORAGE_BALANCE_MIN - 1);
}

#[test]
fn storage_withdraw_more_than_deposit_is_rejected() {
    let mut t = million_token_with_y();
    let r = t.storage_withdraw(&"y".to_string(), STORAGE_BALANCE_MIN + 1);
    assert!(matches!(r, Err(TokenError::StorageBalanceTooLow)));
    let r2 = t.storage_withdraw(&"z".to_string(), 1);
    assert!(matches!(r2, Err(TokenError::NotRegistered)));
}

#[test]
fn unregister_with_balance_needs_force() {
    let mut t = million_token_with_y();
    t.ft_transfer(&"x".to_string(), &"y".to_string(), 100, None, 1).unwrap();
    let r = t.storage_unregister(&"y".to_string(), false);
    assert_eq!(r, Err(TokenError::NonZeroBalanceUnregister));
    assert_eq!(t.ft_balance_of(&"y".to_string()), 100);
}

#[test]
fn forced_unregister_forfeits_balance_and_adjusts_supply() {
    let mut t = million_token_with_y();
    t.ft_transfer(&"x".to_string(), &"y".to_string(), 100, None, 1).unwrap();
    let r = t.storage_unregister(&"y".to_string(), true);
    assert_eq!(r, Ok(true));
    assert_eq!(t.ft_balance_of(&"y".to_string()), 0);
    assert_eq!(t.ft_balance_of(&"x".to_string()), 999_900);
    // The forfeited balance left the total supply, and the exception is
    // recorded as an explicit supply adjustment.
    assert_eq!(t.ft_total_supply(), 999_900);
    let last = t.events.last().unwrap();
    assert!(matches!(
        last,
        Event::SupplyAdjustment { amount: 100, .. }
    ));
    // A second unregister finds nothing to remove.
    assert_eq!(t.storage_unregister(&"y".to_string(), true), Ok(false));
}

#[test]
fn unregister_with_zero_balance_needs_no_force() {
    let mut t = million_token_with_y();
    let r = t.storage_unregister(&"y".to_string(), false);
    assert_eq!(r, Ok(true));
    assert_eq!(t.ft_total_supply(), 1_000_000);
    assert!(t.storage_balance_of(&"y".to_string()).is_none());
}

#[test]
fn every_transfer_is_audited() {
    let mut t = million_token_with_y();
    t.ft_transfer(&"x".to_string(), &"y".to_string(), 100, Some("rent".to_string()), 1)
        .unwrap();
    let last = t.events.last().unwrap();
    match last {
        Event::Transfer { sender_id, receiver_id, amount, memo } => {
            assert_eq!(sender_id, &"x".to_string());
            assert_eq!(receiver_id, &"y".to_string());
            assert_eq!(*amount, 100);
            assert_eq!(memo, &Some("rent".to_string()));
        }
        _ => panic!("expected a transfer record"),
    }
}
