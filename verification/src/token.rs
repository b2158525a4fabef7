//! The token state object: the ledger, the storage registry, the
//! in-flight transfer-and-notify records, and the append-only audit log.
//! Every top-level operation is a method here or in the transfer engine
//! and resolver modules.

use vstd::prelude::*;

use crate::ledger::Ledger;
use crate::registry::AccountRegistry;
use crate::{TokenError, STORAGE_BALANCE_MIN};

verus! {

/// An in-flight transfer-and-notify: the value has already moved to the
/// receiver, and this record is what the resolver will consume exactly
/// once to compute the compensating refund.
pub struct PendingTransferCall {
    pub call_id: u64,
    pub sender_id: String,
    pub receiver_id: String,
    pub amount: u128,
}

/// One append-only audit record. Every mutating operation pushes one
/// (a forced unregister that forfeits a balance pushes a supply
/// adjustment besides).
pub enum Event {
    /// Value moved between two accounts.
    Transfer { sender_id: String, receiver_id: String, amount: u128, memo: Option<String> },
    /// An escrowed storage deposit grew.
    StorageDeposit { account_id: String, amount: u128 },
    /// An escrowed storage deposit shrank.
    StorageWithdraw { account_id: String, amount: u128 },
    /// An account was unregistered; its storage deposit was refunded.
    Unregister { account_id: String, refund: u128 },
    /// A forced unregister forfeited a balance: the one supply-reducing
    /// exception to conservation, recorded explicitly.
    SupplyAdjustment { account_id: String, amount: u128 },
    /// A transfer-and-notify was reconciled: `refund` went back to the
    /// sender, the receiver kept `kept`.
    Resolve { sender_id: String, receiver_id: String, refund: u128, kept: u128 },
}

/// An account's storage balance as reported to callers.
pub struct StorageBalance {
    pub total: u128,
    pub available: u128,
}

/// The deposit bounds for registering one account; the maximum is
/// absent because the footprint does not grow after registration.
pub struct StorageBalanceBounds {
    pub min: u128,
    pub max: Option<u128>,
}

/// The whole contract state, threaded explicitly through every
/// operation.
pub struct OCTToken {
    pub ledger: Ledger,
    pub registry: AccountRegistry,
    pub pending: Vec<PendingTransferCall>,
    pub next_call_id: u64,
    pub events: Vec<Event>,
}

/// In-flight records carry fresh, distinct call ids and only transfers
/// that were valid when initiated: positive amounts between two
/// different accounts.
pub open spec fn pending_wf(s: Seq<PendingTransferCall>, next: u64) -> bool {
    &&& forall|i: int| 0 <= i < s.len() ==> (#[trigger] s[i].call_id) < next
    &&& forall|i: int, j: int|
        0 <= i < j < s.len() ==> s[i].call_id != s[j].call_id
    &&& forall|i: int| 0 <= i < s.len() ==> (#[trigger] s[i].amount) > 0
    &&& forall|i: int| 0 <= i < s.len() ==> (#[trigger] s[i].sender_id@) != s[i].receiver_id@
}

/// Dropping an in-flight record keeps the rest well-formed.
pub proof fn lemma_pending_remove(s: Seq<PendingTransferCall>, i: int, next: u64)
    requires
        pending_wf(s, next),
        0 <= i < s.len(),
    ensures
        pending_wf(s.remove(i), next),
{
    let t = s.remove(i);
    assert forall|a: int| 0 <= a < t.len() implies (#[trigger] t[a].call_id) < next by {
        let a0 = if a < i {
            a
        } else {
            a + 1
        };
        assert(t[a] == s[a0]);
    }
    assert forall|a: int| 0 <= a < t.len() implies (#[trigger] t[a].amount) > 0 by {
        let a0 = if a < i {
            a
        } else {
            a + 1
        };
        assert(t[a] == s[a0]);
    }
    assert forall|a: int| 0 <= a < t.len() implies (#[trigger] t[a].sender_id@)
        != t[a].receiver_id@ by {
        let a0 = if a < i {
            a
        } else {
            a + 1
        };
        assert(t[a] == s[a0]);
    }
    assert forall|a: int, b: int| 0 <= a < b < t.len() implies t[a].call_id != t[b].call_id by {
        let a0 = if a < i {
            a
        } else {
            a + 1
        };
        let b0 = if b < i {
            b
        } else {
            b + 1
        };
        assert(t[a] == s[a0]);
        assert(t[b] == s[b0]);
        assert(s[a0].call_id != s[b0].call_id);
    }
}

/// The withdrawable part of a storage deposit: whatever is not needed
/// to keep a registered account's ledger entry paid for.
pub open spec fn spec_available(registered: bool, total: u128) -> u128 {
    if registered {
        if total >= STORAGE_BALANCE_MIN {
            (total - STORAGE_BALANCE_MIN) as u128
        } else {
            0
        }
    } else {
        total
    }
}

/// The error a storage withdrawal reports, if any: the account must
/// have a record, must hold enough deposit, and while it still holds a
/// positive token balance it may not dip below the registration
/// minimum.
pub open spec fn spec_storage_withdraw_error(t: OCTToken, id: Seq<char>, amount: u128) -> Option<
    TokenError,
> {
    if !t.registry.has_record(id) {
        Some(TokenError::NotRegistered)
    } else if amount > t.registry.total_of(id) {
        Some(TokenError::StorageBalanceTooLow)
    } else if t.ledger.balance_of_spec(id) > 0 && t.registry.total_of(id) - amount
        < STORAGE_BALANCE_MIN {
        Some(TokenError::StorageBalanceTooLow)
    } else {
        None
    }
}

impl OCTToken {
    /// Well-formedness of the whole state; every operation preserves it.
    pub open spec fn wf(self) -> bool {
        &&& self.ledger.wf()
        &&& self.registry.wf()
        &&& pending_wf(self.pending@, self.next_call_id)
    }

    /// The balance map of the ledger.
    pub open spec fn balances(self) -> Map<Seq<char>, u128> {
        self.ledger.balances()
    }

    /// Whether an in-flight record carries this call id.
    pub open spec fn has_pending(self, call_id: u64) -> bool {
        exists|i: int| 0 <= i < self.pending@.len() && self.pending@[i].call_id == call_id
    }

    /// Creates the token with the whole fixed supply held by the owner,
    /// whose storage deposit is covered at bootstrap.
    pub fn new(owner_id: String, total_supply: u128) -> (t: OCTToken)
        ensures
            t.wf(),
            t.ledger.total_supply == total_supply,
            t.balances() == Map::<Seq<char>, u128>::empty().insert(owner_id@, total_supply),
            t.registry.totals() == Map::<Seq<char>, u128>::empty().insert(
                owner_id@,
                STORAGE_BALANCE_MIN,
            ),
            t.pending@ == Seq::<PendingTransferCall>::empty(),
            t.events@ == Seq::<Event>::empty(),
            t.next_call_id == 0,
    {
        let mut ledger = Ledger::new();
        ledger.internal_register_account(owner_id.clone());
        if total_supply > 0 {
            let r = ledger.internal_deposit(&owner_id, total_supply);
            proof {
                assert(r == Ok::<(), TokenError>(()));
            }
        }
        proof {
            assert(Map::<Seq<char>, u128>::empty().insert(owner_id@, 0u128).insert(
                owner_id@,
                total_supply,
            ) =~= Map::<Seq<char>, u128>::empty().insert(owner_id@, total_supply));
        }
        let mut registry = AccountRegistry::new();
        let cr = registry.credit(owner_id, STORAGE_BALANCE_MIN);
        proof {
            assert(cr == Ok::<u128, TokenError>(STORAGE_BALANCE_MIN));
        }
        OCTToken {
            ledger,
            registry,
            pending: Vec::new(),
            next_call_id: 0,
            events: Vec::new(),
        }
    }

    /// The fixed total supply.
    pub fn ft_total_supply(&self) -> (r: u128)
        ensures
            r == self.ledger.total_supply,
    {
        self.ledger.total_supply
    }

    /// The balance an account holds; zero for an unregistered account.
    pub fn ft_balance_of(&self, account_id: &String) -> (r: u128)
        requires
            self.wf(),
        ensures
            r == self.ledger.balance_of_spec(account_id@),
    {
        self.ledger.balance_of(account_id)
    }

    /// The deposit bounds for registering one account.
    pub fn storage_balance_bounds(&self) -> (r: StorageBalanceBounds)
        ensures
            r.min == STORAGE_BALANCE_MIN,
            r.max == None::<u128>,
    {
        StorageBalanceBounds { min: STORAGE_BALANCE_MIN, max: None }
    }

    /// The account's storage balance, or `None` if it never deposited.
    pub fn storage_balance_of(&self, account_id: &String) -> (r: Option<StorageBalance>)
        requires
            self.wf(),
        ensures
            match r {
                Some(sb) => {
                    &&& self.registry.has_record(account_id@)
                    &&& sb.total == self.registry.total_of(account_id@)
                    &&& sb.available == spec_available(
                        self.ledger.is_registered(account_id@),
                        sb.total,
                    )
                },
                None => !self.registry.has_record(account_id@),
            },
    {
        match self.registry.total_deposit(account_id) {
            None => None,
            Some(total) => {
                let registered = self.ledger.contains_account(account_id);
                let available = if registered {
                    if total >= STORAGE_BALANCE_MIN {
                        total - STORAGE_BALANCE_MIN
                    } else {
                        0
                    }
                } else {
                    total
                };
                Some(StorageBalance { total, available })
            },
        }
    }

    /// Adds to the account's escrowed storage deposit; once the deposit
    /// meets the minimum bound, the account is registered in the ledger
    /// with a zero balance. A deposit below the bound is held, but the
    /// account stays unregistered.
    pub fn storage_deposit(&mut self, account_id: String, amount: u128) -> (r: Result<
        StorageBalance,
        TokenError,
    >)
        requires
            old(self).wf(),
        ensures
            final(self).wf(),
            final(self).ledger.total_supply == old(self).ledger.total_supply,
            final(self).pending@ == old(self).pending@,
            final(self).next_call_id == old(self).next_call_id,
            if old(self).registry.total_of(account_id@) + amount > u128::MAX {
                &&& r == Err::<StorageBalance, TokenError>(TokenError::Overflow)
                &&& *final(self) == *old(self)
            } else {
                let new_total = (old(self).registry.total_of(account_id@) + amount) as u128;
                let registers = !old(self).ledger.is_registered(account_id@) && new_total
                    >= STORAGE_BALANCE_MIN;
                &&& final(self).registry.totals() == old(self).registry.totals().insert(
                    account_id@,
                    new_total,
                )
                &&& final(self).balances() == if registers {
                    old(self).balances().insert(account_id@, 0u128)
                } else {
                    old(self).balances()
                }
                &&& final(self).ledger.is_registered(account_id@) == (old(
                    self,
                ).ledger.is_registered(account_id@) || new_total >= STORAGE_BALANCE_MIN)
                &&& r == Ok::<StorageBalance, TokenError>(
                    StorageBalance {
                        total: new_total,
                        available: spec_available(
                            final(self).ledger.is_registered(account_id@),
                            new_total,
                        ),
                    },
                )
                &&& final(self).events@ == old(self).events@.push(
                    Event::StorageDeposit { account_id, amount },
                )
            },
    {
        let cr = self.registry.credit(account_id.clone(), amount);
        let new_total = match cr {
            Err(e) => {
                return Err(e);
            },
            Ok(t) => t,
        };
        let was_registered = self.ledger.contains_account(&account_id);
        if !was_registered && new_total >= STORAGE_BALANCE_MIN {
            self.ledger.internal_register_account(account_id.clone());
        }
        let registered_now = was_registered || new_total >= STORAGE_BALANCE_MIN;
        let available = if registered_now {
            if new_total >= STORAGE_BALANCE_MIN {
                new_total - STORAGE_BALANCE_MIN
            } else {
                0
            }
        } else {
            new_total
        };
        self.events.push(Event::StorageDeposit { account_id, amount });
        Ok(StorageBalance { total: new_total, available })
    }

    /// Withdraws part of the escrowed deposit. While the account still
    /// holds a positive token balance, the remainder may not drop below
    /// the registration minimum.
    pub fn storage_withdraw(&mut self, account_id: &String, amount: u128) -> (r: Result<
        StorageBalance,
        TokenError,
    >)
        requires
            old(self).wf(),
        ensures
            final(self).wf(),
            final(self).ledger == old(self).ledger,
            final(self).pending@ == old(self).pending@,
            final(self).next_call_id == old(self).next_call_id,
            match spec_storage_withdraw_error(*old(self), account_id@, amount) {
                Some(e) => r == Err::<StorageBalance, TokenError>(e) && *final(self) == *old(
                    self,
                ),
                None => {
                    let new_total = (old(self).registry.total_of(account_id@) - amount) as u128;
                    &&& final(self).registry.totals() == old(self).registry.totals().insert(
                        account_id@,
                        new_total,
                    )
                    &&& r == Ok::<StorageBalance, TokenError>(
                        StorageBalance {
                            total: new_total,
                            available: spec_available(
                                old(self).ledger.is_registered(account_id@),
                                new_total,
                            ),
                        },
                    )
                    &&& final(self).events@ == old(self).events@.push(
                        Event::StorageWithdraw { account_id: *account_id, amount },
                    )
                },
            },
    {
        let total = match self.registry.total_deposit(account_id) {
            None => {
                return Err(TokenError::NotRegistered);
            },
            Some(t) => t,
        };
        if amount > total {
            return Err(TokenError::StorageBalanceTooLow);
        }
        let new_total = total - amount;
        let balance = self.ledger.balance_of(account_id);
        if balance > 0 && new_total < STORAGE_BALANCE_MIN {
            return Err(TokenError::StorageBalanceTooLow);
        }
        self.registry.debit_to(account_id, new_total);
        let registered = self.ledger.contains_account(account_id);
        let available = if registered {
            if new_total >= STORAGE_BALANCE_MIN {
                new_total - STORAGE_BALANCE_MIN
            } else {
                0
            }
        } else {
            new_total
        };
        self.events.push(Event::StorageWithdraw { account_id: account_id.clone(), amount });
        Ok(StorageBalance { total: new_total, available })
    }

    /// Removes the account: its storage deposit is refunded to the
    /// caller. Without `force` the account must hold no balance; with
    /// `force` a remaining balance is forfeited — the total supply is
    /// reduced by it, and a supply-adjustment record makes the exception
    /// auditable.
    pub fn storage_unregister(&mut self, account_id: &String, force: bool) -> (r: Result<
        bool,
        TokenError,
    >)
        requires
            old(self).wf(),
        ensures
            final(self).wf(),
            final(self).pending@ == old(self).pending@,
            final(self).next_call_id == old(self).next_call_id,
            if !old(self).registry.has_record(account_id@) && !old(self).ledger.is_registered(
                account_id@,
            ) {
                r == Ok::<bool, TokenError>(false) && *final(self) == *old(self)
            } else if old(self).ledger.balance_of_spec(account_id@) > 0 && !force {
                r == Err::<bool, TokenError>(TokenError::NonZeroBalanceUnregister) && *final(self)
                    == *old(self)
            } else {
                let forfeited = old(self).ledger.balance_of_spec(account_id@);
                let refund = old(self).registry.total_of(account_id@);
                &&& r == Ok::<bool, TokenError>(true)
                &&& final(self).balances() == old(self).balances().remove(account_id@)
                &&& final(self).ledger.total_supply == old(self).ledger.total_supply - forfeited
                &&& final(self).registry.totals() == old(self).registry.totals().remove(
                    account_id@,
                )
                &&& final(self).events@ == if forfeited > 0 {
                    old(self).events@.push(
                        Event::Unregister { account_id: *account_id, refund },
                    ).push(Event::SupplyAdjustment { account_id: *account_id, amount: forfeited })
                } else {
                    old(self).events@.push(Event::Unregister { account_id: *account_id, refund })
                }
            },
    {
        let has_record = match self.registry.total_deposit(account_id) {
            Some(_) => true,
            None => false,
        };
        let registered = self.ledger.contains_account(account_id);
        if !has_record && !registered {
            return Ok(false);
        }
        let balance = self.ledger.balance_of(account_id);
        if balance > 0 && !force {
            return Err(TokenError::NonZeroBalanceUnregister);
        }
        let forfeited = match self.ledger.internal_remove_account(account_id) {
            Some(bal) => bal,
            None => {
                proof {
                    let m = old(self).balances();
                    assert(m.remove(account_id@) =~= m);
                }
                0
            },
        };
        let refund = match self.registry.remove(account_id) {
            Some(t) => t,
            None => {
                proof {
                    let m = old(self).registry.totals();
                    assert(m.remove(account_id@) =~= m);
                }
                0
            },
        };
        self.events.push(Event::Unregister { account_id: account_id.clone(), refund });
        if forfeited > 0 {
            self.events.push(
                Event::SupplyAdjustment { account_id: account_id.clone(), amount: forfeited },
            );
        }
        Ok(true)
    }
}

} // verus!
