//! Accounting core of a fungible-token ledger.
//!
//! Balances are held per account and the sum of all balances always equals
//! the recorded total supply. Registration is gated by a storage deposit,
//! and a two-phase transfer-and-notify protocol moves value optimistically
//! and later reconciles the receiver's reported consumption with a refund
//! bounded by the receiver's present balance.

use vstd::prelude::*;

pub mod ledger;
pub mod registry;
pub mod engine;
pub mod laws;
pub mod resolver;
pub mod token;

verus! {

/// Price of one byte of on-chain storage, in minimal currency units.
pub const STORAGE_PRICE_PER_BYTE: u128 = 10_000_000_000_000_000_000;

/// Fixed storage footprint of one account's ledger entry, in bytes.
pub const ACCOUNT_STORAGE_BYTES: u128 = 125;

/// Minimum storage deposit required before an account may hold a balance.
pub const STORAGE_BALANCE_MIN: u128 = ACCOUNT_STORAGE_BYTES * STORAGE_PRICE_PER_BYTE;

/// Authorization convention: a mutating transfer must attach exactly this
/// amount (one minimal currency unit) to prove the call was deliberate.
pub const AUTH_DEPOSIT: u128 = 1;

/// Resource budget that must be reserved for running the resolution phase.
pub const RESOLVE_BUDGET: u64 = 5_000_000_000_000;

/// Minimum resource budget a caller must supply to start a
/// transfer-and-notify, covering both the notification and its resolution.
pub const MIN_TRANSFER_CALL_BUDGET: u64 = 30_000_000_000_000;

/// Every way a top-level operation can abort. A failed call leaves the
/// ledger unchanged; the error is surfaced to the caller.
#[derive(Clone, Copy, Debug, PartialEq, Eq, Structural)]
pub enum TokenError {
    /// A withdrawal or transfer asked for more than the account holds.
    InsufficientBalance,
    /// The account has no ledger entry.
    NotRegistered,
    /// Sender and receiver are the same account.
    SameAccount,
    /// The amount of a transfer, deposit or withdrawal was zero.
    ZeroAmount,
    /// The attached deposit was not exactly [`AUTH_DEPOSIT`].
    AuthorizationTokenInvalid,
    /// The supplied resource budget is below [`MIN_TRANSFER_CALL_BUDGET`].
    InsufficientResourceBudget,
    /// A storage withdrawal would leave a registered account unable to pay
    /// for its ledger entry, or asked for more than is deposited.
    StorageBalanceTooLow,
    /// Unregistering an account that still holds a balance, without force.
    NonZeroBalanceUnregister,
    /// The operation would push a balance or the total supply past the
    /// integer maximum.
    Overflow,
    /// Resolution was invoked for an unknown or already-resolved call.
    UnknownCallId,
}

} // verus!
