//! The second phase of transfer-and-notify: consume the notification's
//! outcome, compute the compensating refund, and close the in-flight
//! record. The refund is bounded by what the receiver holds *now* —
//! unrelated operations may have spent the optimistic credit in the
//! meantime — so resolution always completes, never claws back more
//! than present reality allows, and never touches the total supply.

use vstd::prelude::*;

use crate::token::{lemma_pending_remove, Event, OCTToken, PendingTransferCall};
use crate::TokenError;

verus! {

/// What the host reports about the notification call.
#[derive(Clone, Copy, Debug)]
pub enum NotificationOutcome {
    /// The call failed outright (panic, trap, resource exhaustion):
    /// the receiver is treated as having consumed nothing.
    Failed,
    /// The receiver's handler returned, declaring this much of the
    /// transferred amount unused.
    Succeeded { unused: u128 },
}

/// The unused amount a resolution works from: the full transfer when
/// the call failed, else the declared amount clamped to the transfer —
/// a receiver must never claim to return more than it was given.
pub open spec fn spec_unused(outcome: NotificationOutcome, amount: u128) -> u128 {
    match outcome {
        NotificationOutcome::Failed => amount,
        NotificationOutcome::Succeeded { unused } => if unused <= amount {
            unused
        } else {
            amount
        },
    }
}

/// The refund a resolution executes: the unused amount, bounded by the
/// receiver's present balance. If either party has been unregistered in
/// the interim, the step is skipped entirely and the unused amount
/// stays where the accounting last put it.
pub open spec fn spec_refund(
    t: OCTToken,
    sender: Seq<char>,
    receiver: Seq<char>,
    unused: u128,
) -> u128 {
    if t.ledger.is_registered(receiver) && t.ledger.is_registered(sender) {
        if unused <= t.ledger.balance_of_spec(receiver) {
            unused
        } else {
            t.ledger.balance_of_spec(receiver)
        }
    } else {
        0
    }
}

/// The position of the in-flight record carrying `call_id`.
pub open spec fn pending_index_of(s: Seq<PendingTransferCall>, call_id: u64) -> int {
    choose|i: int| 0 <= i < s.len() && s[i].call_id == call_id
}

/// With distinct call ids, the record's position is unique.
pub proof fn lemma_pending_index_unique(s: Seq<PendingTransferCall>, i: int)
    requires
        forall|a: int, b: int| 0 <= a < b < s.len() ==> s[a].call_id != s[b].call_id,
        0 <= i < s.len(),
    ensures
        pending_index_of(s, s[i].call_id) == i,
{
    let j = pending_index_of(s, s[i].call_id);
    assert(0 <= j < s.len() && s[j].call_id == s[i].call_id);
    if j < i {
        assert(s[j].call_id != s[i].call_id);
    } else if i < j {
        assert(s[i].call_id != s[j].call_id);
    }
}

impl OCTToken {
    /// Position of the in-flight record carrying `call_id`, if any.
    fn find_pending(&self, call_id: u64) -> (r: Option<usize>)
        ensures
            match r {
                Some(i) => i < self.pending@.len() && self.pending@[i as int].call_id == call_id,
                None => !self.has_pending(call_id),
            },
    {
        let n = self.pending.len();
        let mut k: usize = 0;
        while k < n
            invariant
                k <= n,
                n == self.pending@.len(),
                forall|j: int| 0 <= j < k ==> self.pending@[j].call_id != call_id,
            decreases n - k,
        {
            if self.pending[k].call_id == call_id {
                return Some(k);
            }
            k = k + 1;
        }
        None
    }

    /// Closes the in-flight transfer `call_id` against the
    /// notification's outcome: refunds the unused amount — bounded by
    /// the receiver's present balance — back to the sender, removes the
    /// record so a second resolution is rejected, and reports how much
    /// the receiver actually kept. Infallible once the record is found,
    /// and never changes the total supply.
    pub fn ft_resolve_transfer(&mut self, call_id: u64, outcome: NotificationOutcome) -> (r:
        Result<u128, TokenError>)
        requires
            old(self).wf(),
        ensures
            final(self).wf(),
            final(self).registry == old(self).registry,
            final(self).next_call_id == old(self).next_call_id,
            !old(self).has_pending(call_id) ==> r == Err::<u128, TokenError>(
                TokenError::UnknownCallId,
            ) && *final(self) == *old(self),
            old(self).has_pending(call_id) ==> ({
                let i = pending_index_of(old(self).pending@, call_id);
                let p = old(self).pending@[i];
                let unused = spec_unused(outcome, p.amount);
                let refund = spec_refund(*old(self), p.sender_id@, p.receiver_id@, unused);
                &&& r == Ok::<u128, TokenError>((p.amount - refund) as u128)
                &&& refund <= unused <= p.amount
                &&& refund <= old(self).ledger.balance_of_spec(p.receiver_id@)
                &&& final(self).pending@ == old(self).pending@.remove(i)
                &&& final(self).ledger.total_supply == old(self).ledger.total_supply
                &&& final(self).balances() == if refund == 0 {
                    old(self).balances()
                } else {
                    old(self).balances().insert(
                        p.receiver_id@,
                        (old(self).ledger.balance_of_spec(p.receiver_id@) - refund) as u128,
                    ).insert(
                        p.sender_id@,
                        (old(self).ledger.balance_of_spec(p.sender_id@) + refund) as u128,
                    )
                }
                &&& final(self).events@ == old(self).events@.push(
                    Event::Resolve {
                        sender_id: p.sender_id,
                        receiver_id: p.receiver_id,
                        refund,
                        kept: (p.amount - refund) as u128,
                    },
                )
            }),
    {
        let i = match self.find_pending(call_id) {
            None => {
                return Err(TokenError::UnknownCallId);
            },
            Some(i) => i,
        };
        proof {
            lemma_pending_index_unique(self.pending@, i as int);
            lemma_pending_remove(self.pending@, i as int, self.next_call_id);
        }
        let p = self.pending.remove(i);
        let unused = match outcome {
            NotificationOutcome::Failed => p.amount,
            NotificationOutcome::Succeeded { unused } => if unused <= p.amount {
                unused
            } else {
                p.amount
            },
        };
        let receiver_registered = self.ledger.contains_account(&p.receiver_id);
        let sender_registered = self.ledger.contains_account(&p.sender_id);
        let receiver_balance = self.ledger.balance_of(&p.receiver_id);
        let refund = if receiver_registered && sender_registered {
            if unused <= receiver_balance {
                unused
            } else {
                receiver_balance
            }
        } else {
            0
        };
        if refund > 0 {
            let tr = self.ledger.internal_transfer(&p.receiver_id, &p.sender_id, refund);
            proof {
                assert(tr == Ok::<(), TokenError>(()));
            }
        }
        let kept = p.amount - refund;
        self.events.push(
            Event::Resolve {
                sender_id: p.sender_id,
                receiver_id: p.receiver_id,
                refund,
                kept,
            },
        );
        Ok(kept)
    }
}

} // verus!
