//! The balance table: pure bookkeeping primitives over per-account
//! balances, with the conservation invariant that the entries always sum
//! to the recorded total supply.

use vstd::prelude::*;

use crate::TokenError;

verus! {

/// One account's row in the balance table.
pub struct BalanceEntry {
    pub id: String,
    pub amount: u128,
}

/// Per-account balances and the total supply they must sum to.
pub struct Ledger {
    pub entries: Vec<BalanceEntry>,
    pub total_supply: u128,
}

/// The balance map an entry sequence denotes. A later entry would shadow
/// an earlier one with the same id, but a well-formed ledger keeps its
/// ids distinct, so each account has exactly one row.
pub open spec fn map_of(s: Seq<BalanceEntry>) -> Map<Seq<char>, u128>
    decreases s.len(),
{
    if s.len() == 0 {
        Map::empty()
    } else {
        map_of(s.drop_last()).insert(s.last().id@, s.last().amount)
    }
}

/// Sum of all balances in the table.
pub open spec fn sum_of(s: Seq<BalanceEntry>) -> int
    decreases s.len(),
{
    if s.len() == 0 {
        0
    } else {
        sum_of(s.drop_last()) + s.last().amount
    }
}

/// No two rows name the same account.
pub open spec fn distinct_ids(s: Seq<BalanceEntry>) -> bool {
    forall|i: int, j: int| 0 <= i < j < s.len() ==> s[i].id@ != s[j].id@
}

pub proof fn lemma_distinct_drop_last(s: Seq<BalanceEntry>)
    requires
        distinct_ids(s),
        s.len() > 0,
    ensures
        distinct_ids(s.drop_last()),
{
    assert forall|i: int, j: int| 0 <= i < j < s.drop_last().len() implies s.drop_last()[i].id@
        != s.drop_last()[j].id@ by {
        assert(s[i].id@ != s[j].id@);
    }
}

/// An account is in the balance map exactly when some row carries its id.
pub proof fn lemma_map_of_contains(s: Seq<BalanceEntry>, id: Seq<char>)
    ensures
        map_of(s).dom().contains(id) <==> exists|i: int| 0 <= i < s.len() && s[i].id@ == id,
    decreases s.len(),
{
    if s.len() > 0 {
        lemma_map_of_contains(s.drop_last(), id);
        if s.last().id@ == id {
            assert(s[s.len() - 1].id@ == id);
        } else {
            if map_of(s).dom().contains(id) {
                let i = choose|i: int| 0 <= i < s.drop_last().len() && s.drop_last()[i].id@ == id;
                assert(s[i].id@ == id);
            }
            if exists|i: int| 0 <= i < s.len() && s[i].id@ == id {
                let i = choose|i: int| 0 <= i < s.len() && s[i].id@ == id;
                assert(s.drop_last()[i].id@ == id);
            }
        }
    }
}

/// In a table with distinct ids, the map carries each row's balance.
pub proof fn lemma_map_of_index(s: Seq<BalanceEntry>, i: int)
    requires
        distinct_ids(s),
        0 <= i < s.len(),
    ensures
        map_of(s).dom().contains(s[i].id@),
        map_of(s)[s[i].id@] == s[i].amount,
    decreases s.len(),
{
    if i < s.len() - 1 {
        lemma_distinct_drop_last(s);
        lemma_map_of_index(s.drop_last(), i);
        assert(s.drop_last()[i] == s[i]);
        assert(s[i].id@ != s.last().id@);
    }
}

/// Replacing row `i` by an entry with the same id updates exactly that
/// account's balance and moves the sum by the difference.
pub proof fn lemma_map_of_update(s: Seq<BalanceEntry>, i: int, e: BalanceEntry)
    requires
        distinct_ids(s),
        0 <= i < s.len(),
        e.id@ == s[i].id@,
    ensures
        distinct_ids(s.update(i, e)),
        map_of(s.update(i, e)) == map_of(s).insert(e.id@, e.amount),
        sum_of(s.update(i, e)) == sum_of(s) - s[i].amount + e.amount,
    decreases s.len(),
{
    let t = s.update(i, e);
    assert forall|a: int, b: int| 0 <= a < b < t.len() implies t[a].id@ != t[b].id@ by {
        assert(s[a].id@ != s[b].id@);
    }
    if i == s.len() - 1 {
        assert(t.drop_last() =~= s.drop_last());
        assert(map_of(s.drop_last()).insert(s.last().id@, s.last().amount).insert(
            e.id@,
            e.amount,
        ) =~= map_of(s.drop_last()).insert(e.id@, e.amount));
    } else {
        lemma_distinct_drop_last(s);
        lemma_map_of_update(s.drop_last(), i, e);
        assert(t.drop_last() =~= s.drop_last().update(i, e));
        assert(t.last() == s.last());
        assert(e.id@ != s.last().id@);
        assert(map_of(s.drop_last()).insert(e.id@, e.amount).insert(
            s.last().id@,
            s.last().amount,
        ) =~= map_of(s.drop_last()).insert(s.last().id@, s.last().amount).insert(e.id@, e.amount));
    }
}

/// Appending a row for a fresh account extends the map and the sum.
pub proof fn lemma_map_of_push(s: Seq<BalanceEntry>, e: BalanceEntry)
    requires
        distinct_ids(s),
        forall|i: int| 0 <= i < s.len() ==> s[i].id@ != e.id@,
    ensures
        distinct_ids(s.push(e)),
        map_of(s.push(e)) == map_of(s).insert(e.id@, e.amount),
        sum_of(s.push(e)) == sum_of(s) + e.amount,
{
    assert(s.push(e).drop_last() =~= s);
    assert(s.push(e).last() == e);
    assert forall|a: int, b: int| 0 <= a < b < s.push(e).len() implies s.push(e)[a].id@ != s.push(
        e,
    )[b].id@ by {
        if b < s.len() {
            assert(s[a].id@ != s[b].id@);
        } else {
            assert(s[a].id@ != e.id@);
        }
    }
}

/// Removing row `i` removes exactly that account from the map and takes
/// its balance out of the sum.
pub proof fn lemma_map_of_remove(s: Seq<BalanceEntry>, i: int)
    requires
        distinct_ids(s),
        0 <= i < s.len(),
    ensures
        distinct_ids(s.remove(i)),
        map_of(s.remove(i)) == map_of(s).remove(s[i].id@),
        sum_of(s.remove(i)) == sum_of(s) - s[i].amount,
    decreases s.len(),
{
    let t = s.remove(i);
    assert forall|a: int, b: int| 0 <= a < b < t.len() implies t[a].id@ != t[b].id@ by {
        let a0 = if a < i { a } else { a + 1 };
        let b0 = if b < i { b } else { b + 1 };
        assert(t[a] == s[a0]);
        assert(t[b] == s[b0]);
        assert(s[a0].id@ != s[b0].id@);
    }
    if i == s.len() - 1 {
        assert(t =~= s.drop_last());
        lemma_map_of_contains(s.drop_last(), s[i].id@);
        if map_of(s.drop_last()).dom().contains(s[i].id@) {
            let j = choose|j: int| 0 <= j < s.drop_last().len() && s.drop_last()[j].id@ == s[i].id@;
            assert(s[j].id@ != s[i].id@);
        }
        assert(map_of(s.drop_last()).insert(s[i].id@, s[i].amount).remove(s[i].id@) =~= map_of(
            s.drop_last(),
        ));
    } else {
        lemma_distinct_drop_last(s);
        lemma_map_of_remove(s.drop_last(), i);
        assert(t.drop_last() =~= s.drop_last().remove(i));
        assert(t.last() == s.last());
        assert(s[i].id@ != s.last().id@);
        assert(map_of(s.drop_last()).remove(s[i].id@).insert(s.last().id@, s.last().amount)
            =~= map_of(s.drop_last()).insert(s.last().id@, s.last().amount).remove(s[i].id@));
    }
}

pub proof fn lemma_sum_nonneg(s: Seq<BalanceEntry>)
    ensures
        sum_of(s) >= 0,
    decreases s.len(),
{
    if s.len() > 0 {
        lemma_sum_nonneg(s.drop_last());
    }
}

/// Every single balance is bounded by the sum of all balances.
pub proof fn lemma_sum_le(s: Seq<BalanceEntry>, i: int)
    requires
        0 <= i < s.len(),
    ensures
        s[i].amount <= sum_of(s),
    decreases s.len(),
{
    if i == s.len() - 1 {
        lemma_sum_nonneg(s.drop_last());
    } else {
        lemma_sum_le(s.drop_last(), i);
        assert(s.drop_last()[i] == s[i]);
    }
}

/// Two distinct rows together are bounded by the sum of all balances.
pub proof fn lemma_sum_le_two(s: Seq<BalanceEntry>, i: int, j: int)
    requires
        0 <= i < s.len(),
        0 <= j < s.len(),
        i != j,
    ensures
        s[i].amount + s[j].amount <= sum_of(s),
    decreases s.len(),
{
    if i == s.len() - 1 {
        lemma_sum_le(s.drop_last(), j);
    } else if j == s.len() - 1 {
        lemma_sum_le(s.drop_last(), i);
    } else {
        lemma_sum_le_two(s.drop_last(), i, j);
    }
}

/// The error a deposit reports, if any: deposits must name a registered
/// account, move a positive amount, and keep the supply representable.
pub open spec fn spec_deposit_error(l: Ledger, id: Seq<char>, amount: u128) -> Option<TokenError> {
    if amount == 0 {
        Some(TokenError::ZeroAmount)
    } else if !l.is_registered(id) {
        Some(TokenError::NotRegistered)
    } else if l.total_supply + amount > u128::MAX {
        Some(TokenError::Overflow)
    } else {
        None
    }
}

/// The error a withdrawal reports, if any.
pub open spec fn spec_withdraw_error(l: Ledger, id: Seq<char>, amount: u128) -> Option<
    TokenError,
> {
    if amount == 0 {
        Some(TokenError::ZeroAmount)
    } else if !l.is_registered(id) {
        Some(TokenError::NotRegistered)
    } else if l.balance_of_spec(id) < amount {
        Some(TokenError::InsufficientBalance)
    } else {
        None
    }
}

/// The error a transfer reports, if any. A transfer needs a positive
/// amount, two different accounts, both registered, and enough balance
/// on the sending side.
pub open spec fn spec_transfer_error(
    l: Ledger,
    from: Seq<char>,
    to: Seq<char>,
    amount: u128,
) -> Option<TokenError> {
    if amount == 0 {
        Some(TokenError::ZeroAmount)
    } else if from == to {
        Some(TokenError::SameAccount)
    } else if !l.is_registered(from) || !l.is_registered(to) {
        Some(TokenError::NotRegistered)
    } else if l.balance_of_spec(from) < amount {
        Some(TokenError::InsufficientBalance)
    } else {
        None
    }
}

impl Ledger {
    /// The balance map this ledger denotes.
    pub open spec fn balances(self) -> Map<Seq<char>, u128> {
        map_of(self.entries@)
    }

    /// Well-formedness: one row per account, and conservation — the rows
    /// sum exactly to the recorded total supply.
    pub open spec fn wf(self) -> bool {
        &&& distinct_ids(self.entries@)
        &&& sum_of(self.entries@) == self.total_supply
    }

    pub open spec fn is_registered(self, id: Seq<char>) -> bool {
        self.balances().dom().contains(id)
    }

    /// The balance an account holds; zero for an unregistered account.
    pub open spec fn balance_of_spec(self, id: Seq<char>) -> u128 {
        if self.balances().dom().contains(id) {
            self.balances()[id]
        } else {
            0
        }
    }

    /// An empty ledger: no accounts, zero supply.
    pub fn new() -> (l: Ledger)
        ensures
            l.wf(),
            l.balances() == Map::<Seq<char>, u128>::empty(),
            l.total_supply == 0,
    {
        Ledger { entries: Vec::new(), total_supply: 0 }
    }

    /// Index of the row holding `account_id`, if any.
    fn find_index(&self, account_id: &String) -> (r: Option<usize>)
        ensures
            match r {
                Some(i) => i < self.entries@.len() && self.entries@[i as int].id@ == account_id@,
                None => !self.balances().dom().contains(account_id@),
            },
    {
        let n = self.entries.len();
        let mut k: usize = 0;
        while k < n
            invariant
                k <= n,
                n == self.entries@.len(),
                forall|j: int| 0 <= j < k ==> self.entries@[j].id@ != account_id@,
            decreases n - k,
        {
            if self.entries[k].id == *account_id {
                return Some(k);
            }
            k = k + 1;
        }
        proof {
            lemma_map_of_contains(self.entries@, account_id@);
        }
        None
    }

    /// Whether the account has a row in the balance table.
    pub fn contains_account(&self, account_id: &String) -> (b: bool)
        ensures
            b == self.is_registered(account_id@),
    {
        proof {
            lemma_map_of_contains(self.entries@, account_id@);
        }
        match self.find_index(account_id) {
            Some(i) => {
                proof {
                    assert(self.entries@[i as int].id@ == account_id@);
                }
                true
            },
            None => false,
        }
    }

    /// The balance an account holds; zero for an unregistered account.
    pub fn balance_of(&self, account_id: &String) -> (amount: u128)
        requires
            self.wf(),
        ensures
            amount == self.balance_of_spec(account_id@),
    {
        match self.find_index(account_id) {
            Some(i) => {
                proof {
                    lemma_map_of_index(self.entries@, i as int);
                }
                self.entries[i].amount
            },
            None => 0,
        }
    }

    /// Creates a zero-balance row for the account if it has none; a
    /// no-op if the account is already registered.
    pub fn internal_register_account(&mut self, account_id: String)
        requires
            old(self).wf(),
        ensures
            final(self).wf(),
            final(self).total_supply == old(self).total_supply,
            final(self).is_registered(account_id@),
            final(self).balances() == if old(self).is_registered(account_id@) {
                old(self).balances()
            } else {
                old(self).balances().insert(account_id@, 0u128)
            },
    {
        match self.find_index(&account_id) {
            Some(i) => {
                proof {
                    lemma_map_of_contains(self.entries@, account_id@);
                    assert(self.entries@[i as int].id@ == account_id@);
                }
            },
            None => {
                proof {
                    lemma_map_of_contains(self.entries@, account_id@);
                }
                let ghost s0 = self.entries@;
                self.entries.push(BalanceEntry { id: account_id, amount: 0 });
                proof {
                    lemma_map_of_push(s0, self.entries@.last());
                }
            },
        }
    }

    /// Credits a registered account, growing the total supply by the same
    /// amount; fails rather than let either overflow.
    pub fn internal_deposit(&mut self, account_id: &String, amount: u128) -> (r: Result<
        (),
        TokenError,
    >)
        requires
            old(self).wf(),
        ensures
            final(self).wf(),
            match spec_deposit_error(*old(self), account_id@, amount) {
                Some(e) => r == Err::<(), TokenError>(e) && *final(self) == *old(self),
                None => {
                    &&& r == Ok::<(), TokenError>(())
                    &&& final(self).total_supply == old(self).total_supply + amount
                    &&& final(self).balances() == old(self).balances().insert(
                        account_id@,
                        (old(self).balance_of_spec(account_id@) + amount) as u128,
                    )
                },
            },
    {
        if amount == 0 {
            return Err(TokenError::ZeroAmount);
        }
        match self.find_index(account_id) {
            None => Err(TokenError::NotRegistered),
            Some(i) => {
                proof {
                    lemma_map_of_contains(self.entries@, account_id@);
                    lemma_map_of_index(self.entries@, i as int);
                    lemma_sum_le(self.entries@, i as int);
                }
                if amount > u128::MAX - self.total_supply {
                    return Err(TokenError::Overflow);
                }
                let ghost s0 = self.entries@;
                let old_amount = self.entries[i].amount;
                self.entries[i].amount = old_amount + amount;
                self.total_supply = self.total_supply + amount;
                proof {
                    lemma_map_of_update(s0, i as int, self.entries@[i as int]);
                }
                Ok(())
            },
        }
    }

    /// Debits a registered account, shrinking the total supply by the
    /// same amount; fails rather than let the balance go negative.
    pub fn internal_withdraw(&mut self, account_id: &String, amount: u128) -> (r: Result<
        (),
        TokenError,
    >)
        requires
            old(self).wf(),
        ensures
            final(self).wf(),
            match spec_withdraw_error(*old(self), account_id@, amount) {
                Some(e) => r == Err::<(), TokenError>(e) && *final(self) == *old(self),
                None => {
                    &&& r == Ok::<(), TokenError>(())
                    &&& final(self).total_supply == old(self).total_supply - amount
                    &&& final(self).balances() == old(self).balances().insert(
                        account_id@,
                        (old(self).balance_of_spec(account_id@) - amount) as u128,
                    )
                },
            },
    {
        if amount == 0 {
            return Err(TokenError::ZeroAmount);
        }
        match self.find_index(account_id) {
            None => Err(TokenError::NotRegistered),
            Some(i) => {
                proof {
                    lemma_map_of_contains(self.entries@, account_id@);
                    lemma_map_of_index(self.entries@, i as int);
                    lemma_sum_le(self.entries@, i as int);
                }
                let old_amount = self.entries[i].amount;
                if old_amount < amount {
                    return Err(TokenError::InsufficientBalance);
                }
                let ghost s0 = self.entries@;
                self.entries[i].amount = old_amount - amount;
                self.total_supply = self.total_supply - amount;
                proof {
                    lemma_map_of_update(s0, i as int, self.entries@[i as int]);
                }
                Ok(())
            },
        }
    }

    /// Moves `amount` between two different registered accounts: the
    /// withdrawal and the deposit happen together or not at all, and the
    /// total supply is unchanged.
    pub fn internal_transfer(
        &mut self,
        sender_id: &String,
        receiver_id: &String,
        amount: u128,
    ) -> (r: Result<(), TokenError>)
        requires
            old(self).wf(),
        ensures
            final(self).wf(),
            match spec_transfer_error(*old(self), sender_id@, receiver_id@, amount) {
                Some(e) => r == Err::<(), TokenError>(e) && *final(self) == *old(self),
                None => {
                    &&& r == Ok::<(), TokenError>(())
                    &&& final(self).total_supply == old(self).total_supply
                    &&& final(self).balances() == old(self).balances().insert(
                        sender_id@,
                        (old(self).balance_of_spec(sender_id@) - amount) as u128,
                    ).insert(
                        receiver_id@,
                        (old(self).balance_of_spec(receiver_id@) + amount) as u128,
                    )
                },
            },
    {
        if amount == 0 {
            return Err(TokenError::ZeroAmount);
        }
        if *sender_id == *receiver_id {
            return Err(TokenError::SameAccount);
        }
        if !self.contains_account(sender_id) {
            return Err(TokenError::NotRegistered);
        }
        if !self.contains_account(receiver_id) {
            return Err(TokenError::NotRegistered);
        }
        let sender_balance = self.balance_of(sender_id);
        if sender_balance < amount {
            return Err(TokenError::InsufficientBalance);
        }
        proof {
            lemma_map_of_contains(self.entries@, sender_id@);
            lemma_map_of_contains(self.entries@, receiver_id@);
            let i = choose|i: int|
                0 <= i < self.entries@.len() && self.entries@[i].id@ == sender_id@;
            let j = choose|j: int|
                0 <= j < self.entries@.len() && self.entries@[j].id@ == receiver_id@;
            lemma_map_of_index(self.entries@, i);
            lemma_map_of_index(self.entries@, j);
            lemma_sum_le_two(self.entries@, i, j);
        }
        let r1 = self.internal_withdraw(sender_id, amount);
        proof {
            assert(r1 == Ok::<(), TokenError>(()));
        }
        let r2 = self.internal_deposit(receiver_id, amount);
        proof {
            assert(r2 == Ok::<(), TokenError>(()));
        }
        Ok(())
    }

    /// Removes an account's row entirely, taking its remaining balance
    /// out of the total supply; the only supply-reducing path besides a
    /// plain withdrawal.
    pub fn internal_remove_account(&mut self, account_id: &String) -> (r: Option<u128>)
        requires
            old(self).wf(),
        ensures
            final(self).wf(),
            match r {
                Some(bal) => {
                    &&& old(self).is_registered(account_id@)
                    &&& bal == old(self).balance_of_spec(account_id@)
                    &&& final(self).balances() == old(self).balances().remove(account_id@)
                    &&& final(self).total_supply == old(self).total_supply - bal
                },
                None => !old(self).is_registered(account_id@) && *final(self) == *old(self),
            },
    {
        match self.find_index(account_id) {
            None => None,
            Some(i) => {
                proof {
                    lemma_map_of_contains(self.entries@, account_id@);
                    lemma_map_of_index(self.entries@, i as int);
                    lemma_sum_le(self.entries@, i as int);
                    lemma_map_of_remove(self.entries@, i as int);
                }
                let entry = self.entries.remove(i);
                self.total_supply = self.total_supply - entry.amount;
                Some(entry.amount)
            },
        }
    }
}

} // verus!
