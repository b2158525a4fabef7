//! The public transfer operations: the immediate transfer, and the
//! optimistic transfer-and-notify that opens the two-phase protocol the
//! resolver closes.

use vstd::prelude::*;

use crate::ledger::spec_transfer_error;
use crate::token::{Event, OCTToken, PendingTransferCall};
use crate::{TokenError, AUTH_DEPOSIT, MIN_TRANSFER_CALL_BUDGET};

verus! {

/// The action a transfer-and-notify hands back to the host: deliver the
/// notification `(sender, amount, payload)` to the receiver, then feed
/// the outcome to the resolver under `call_id`.
pub struct NotificationRequest {
    pub call_id: u64,
    pub sender_id: String,
    pub receiver_id: String,
    pub amount: u128,
    pub payload: String,
}

/// The error an immediate transfer reports, if any: the attached
/// deposit must be exactly the one-unit authorization token, and the
/// ledger transfer itself must be valid.
pub open spec fn spec_ft_transfer_error(
    t: OCTToken,
    sender: Seq<char>,
    receiver: Seq<char>,
    amount: u128,
    attached_deposit: u128,
) -> Option<TokenError> {
    if attached_deposit != AUTH_DEPOSIT {
        Some(TokenError::AuthorizationTokenInvalid)
    } else {
        spec_transfer_error(t.ledger, sender, receiver, amount)
    }
}

/// The error a transfer-and-notify reports, if any: besides the
/// authorization token, the caller must reserve enough resource budget
/// up front to run both the notification and its resolution.
pub open spec fn spec_ft_transfer_call_error(
    t: OCTToken,
    sender: Seq<char>,
    receiver: Seq<char>,
    amount: u128,
    attached_deposit: u128,
    prepaid_budget: u64,
) -> Option<TokenError> {
    if attached_deposit != AUTH_DEPOSIT {
        Some(TokenError::AuthorizationTokenInvalid)
    } else if prepaid_budget < MIN_TRANSFER_CALL_BUDGET {
        Some(TokenError::InsufficientResourceBudget)
    } else {
        spec_transfer_error(t.ledger, sender, receiver, amount)
    }
}

impl OCTToken {
    /// Moves `amount` from sender to receiver at once, emitting an audit
    /// record. Fails, with the state untouched, unless the one-unit
    /// authorization deposit is attached, both accounts are registered,
    /// the accounts differ, the amount is positive and the sender can
    /// cover it.
    pub fn ft_transfer(
        &mut self,
        sender_id: &String,
        receiver_id: &String,
        amount: u128,
        memo: Option<String>,
        attached_deposit: u128,
    ) -> (r: Result<(), TokenError>)
        requires
            old(self).wf(),
        ensures
            final(self).wf(),
            final(self).pending@ == old(self).pending@,
            final(self).next_call_id == old(self).next_call_id,
            final(self).registry == old(self).registry,
            match spec_ft_transfer_error(
                *old(self),
                sender_id@,
                receiver_id@,
                amount,
                attached_deposit,
            ) {
                Some(e) => r == Err::<(), TokenError>(e) && *final(self) == *old(self),
                None => {
                    &&& r == Ok::<(), TokenError>(())
                    &&& final(self).ledger.total_supply == old(self).ledger.total_supply
                    &&& final(self).balances() == old(self).balances().insert(
                        sender_id@,
                        (old(self).ledger.balance_of_spec(sender_id@) - amount) as u128,
                    ).insert(
                        receiver_id@,
                        (old(self).ledger.balance_of_spec(receiver_id@) + amount) as u128,
                    )
                    &&& final(self).events@ == old(self).events@.push(
                        Event::Transfer {
                            sender_id: *sender_id,
                            receiver_id: *receiver_id,
                            amount,
                            memo,
                        },
                    )
                },
            },
    {
        if attached_deposit != AUTH_DEPOSIT {
            return Err(TokenError::AuthorizationTokenInvalid);
        }
        match self.ledger.internal_transfer(sender_id, receiver_id, amount) {
            Err(e) => Err(e),
            Ok(()) => {
                self.events.push(
                    Event::Transfer {
                        sender_id: sender_id.clone(),
                        receiver_id: receiver_id.clone(),
                        amount,
                        memo,
                    },
                );
                Ok(())
            },
        }
    }

    /// Moves `amount` to the receiver immediately and optimistically,
    /// records the in-flight call, and hands back the notification the
    /// host must deliver. The credit is durable before the receiver has
    /// acknowledged anything; the resolver later reconciles it against
    /// the receiver's reported consumption.
    pub fn ft_transfer_call(
        &mut self,
        sender_id: &String,
        receiver_id: &String,
        amount: u128,
        memo: Option<String>,
        payload: String,
        attached_deposit: u128,
        prepaid_budget: u64,
    ) -> (r: Result<NotificationRequest, TokenError>)
        requires
            old(self).wf(),
            old(self).next_call_id < u64::MAX,
        ensures
            final(self).wf(),
            final(self).registry == old(self).registry,
            match spec_ft_transfer_call_error(
                *old(self),
                sender_id@,
                receiver_id@,
                amount,
                attached_deposit,
                prepaid_budget,
            ) {
                Some(e) => r == Err::<NotificationRequest, TokenError>(e) && *final(self) == *old(
                    self,
                ),
                None => {
                    &&& r == Ok::<NotificationRequest, TokenError>(
                        NotificationRequest {
                            call_id: old(self).next_call_id,
                            sender_id: *sender_id,
                            receiver_id: *receiver_id,
                            amount,
                            payload,
                        },
                    )
                    &&& final(self).ledger.total_supply == old(self).ledger.total_supply
                    &&& final(self).balances() == old(self).balances().insert(
                        sender_id@,
                        (old(self).ledger.balance_of_spec(sender_id@) - amount) as u128,
                    ).insert(
                        receiver_id@,
                        (old(self).ledger.balance_of_spec(receiver_id@) + amount) as u128,
                    )
                    &&& final(self).pending@ == old(self).pending@.push(
                        PendingTransferCall {
                            call_id: old(self).next_call_id,
                            sender_id: *sender_id,
                            receiver_id: *receiver_id,
                            amount,
                        },
                    )
                    &&& final(self).next_call_id == old(self).next_call_id + 1
                    &&& final(self).events@ == old(self).events@.push(
                        Event::Transfer {
                            sender_id: *sender_id,
                            receiver_id: *receiver_id,
                            amount,
                            memo,
                        },
                    )
                },
            },
    {
        if attached_deposit != AUTH_DEPOSIT {
            return Err(TokenError::AuthorizationTokenInvalid);
        }
        if prepaid_budget < MIN_TRANSFER_CALL_BUDGET {
            return Err(TokenError::InsufficientResourceBudget);
        }
        match self.ledger.internal_transfer(sender_id, receiver_id, amount) {
            Err(e) => Err(e),
            Ok(()) => {
                let call_id = self.next_call_id;
                self.pending.push(
                    PendingTransferCall {
                        call_id,
                        sender_id: sender_id.clone(),
                        receiver_id: receiver_id.clone(),
                        amount,
                    },
                );
                self.next_call_id = call_id + 1;
                self.events.push(
                    Event::Transfer {
                        sender_id: sender_id.clone(),
                        receiver_id: receiver_id.clone(),
                        amount,
                        memo,
                    },
                );
                Ok(
                    NotificationRequest {
                        call_id,
                        sender_id: sender_id.clone(),
                        receiver_id: receiver_id.clone(),
                        amount,
                        payload,
                    },
                )
            },
        }
    }
}

} // verus!
