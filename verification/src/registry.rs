//! Storage-cost accounting: the escrowed deposit each account holds to
//! pay for the on-chain footprint of its ledger entry. Registration in
//! the ledger is gated on this deposit meeting the minimum bound.

use vstd::prelude::*;

use crate::TokenError;

verus! {

/// One account's escrowed storage deposit.
pub struct StorageRecord {
    pub id: String,
    pub total: u128,
}

/// The storage-deposit table.
pub struct AccountRegistry {
    pub records: Vec<StorageRecord>,
}

/// The deposit map a record sequence denotes.
pub open spec fn totals_of(s: Seq<StorageRecord>) -> Map<Seq<char>, u128>
    decreases s.len(),
{
    if s.len() == 0 {
        Map::empty()
    } else {
        totals_of(s.drop_last()).insert(s.last().id@, s.last().total)
    }
}

/// No two records name the same account.
pub open spec fn distinct_record_ids(s: Seq<StorageRecord>) -> bool {
    forall|i: int, j: int| 0 <= i < j < s.len() ==> s[i].id@ != s[j].id@
}

pub proof fn lemma_distinct_records_drop_last(s: Seq<StorageRecord>)
    requires
        distinct_record_ids(s),
        s.len() > 0,
    ensures
        distinct_record_ids(s.drop_last()),
{
    assert forall|i: int, j: int| 0 <= i < j < s.drop_last().len() implies s.drop_last()[i].id@
        != s.drop_last()[j].id@ by {
        assert(s[i].id@ != s[j].id@);
    }
}

/// An account is in the deposit map exactly when some record carries
/// its id.
pub proof fn lemma_totals_contains(s: Seq<StorageRecord>, id: Seq<char>)
    ensures
        totals_of(s).dom().contains(id) <==> exists|i: int| 0 <= i < s.len() && s[i].id@ == id,
    decreases s.len(),
{
    if s.len() > 0 {
        lemma_totals_contains(s.drop_last(), id);
        if s.last().id@ == id {
            assert(s[s.len() - 1].id@ == id);
        } else {
            if totals_of(s).dom().contains(id) {
                let i = choose|i: int| 0 <= i < s.drop_last().len() && s.drop_last()[i].id@ == id;
                assert(s[i].id@ == id);
            }
            if exists|i: int| 0 <= i < s.len() && s[i].id@ == id {
                let i = choose|i: int| 0 <= i < s.len() && s[i].id@ == id;
                assert(s.drop_last()[i].id@ == id);
            }
        }
    }
}

/// With distinct ids, the map carries each record's deposit.
pub proof fn lemma_totals_index(s: Seq<StorageRecord>, i: int)
    requires
        distinct_record_ids(s),
        0 <= i < s.len(),
    ensures
        totals_of(s).dom().contains(s[i].id@),
        totals_of(s)[s[i].id@] == s[i].total,
    decreases s.len(),
{
    if i < s.len() - 1 {
        lemma_distinct_records_drop_last(s);
        lemma_totals_index(s.drop_last(), i);
        assert(s.drop_last()[i] == s[i]);
        assert(s[i].id@ != s.last().id@);
    }
}

/// Replacing record `i` by one with the same id updates exactly that
/// account's deposit.
pub proof fn lemma_totals_update(s: Seq<StorageRecord>, i: int, e: StorageRecord)
    requires
        distinct_record_ids(s),
        0 <= i < s.len(),
        e.id@ == s[i].id@,
    ensures
        distinct_record_ids(s.update(i, e)),
        totals_of(s.update(i, e)) == totals_of(s).insert(e.id@, e.total),
    decreases s.len(),
{
    let t = s.update(i, e);
    assert forall|a: int, b: int| 0 <= a < b < t.len() implies t[a].id@ != t[b].id@ by {
        assert(s[a].id@ != s[b].id@);
    }
    if i == s.len() - 1 {
        assert(t.drop_last() =~= s.drop_last());
        assert(totals_of(s.drop_last()).insert(s.last().id@, s.last().total).insert(
            e.id@,
            e.total,
        ) =~= totals_of(s.drop_last()).insert(e.id@, e.total));
    } else {
        lemma_distinct_records_drop_last(s);
        lemma_totals_update(s.drop_last(), i, e);
        assert(t.drop_last() =~= s.drop_last().update(i, e));
        assert(t.last() == s.last());
        assert(e.id@ != s.last().id@);
        assert(totals_of(s.drop_last()).insert(e.id@, e.total).insert(
            s.last().id@,
            s.last().total,
        ) =~= totals_of(s.drop_last()).insert(s.last().id@, s.last().total).insert(e.id@, e.total));
    }
}

/// Appending a record for a fresh account extends the map.
pub proof fn lemma_totals_push(s: Seq<StorageRecord>, e: StorageRecord)
    requires
        distinct_record_ids(s),
        forall|i: int| 0 <= i < s.len() ==> s[i].id@ != e.id@,
    ensures
        distinct_record_ids(s.push(e)),
        totals_of(s.push(e)) == totals_of(s).insert(e.id@, e.total),
{
    assert(s.push(e).drop_last() =~= s);
    assert(s.push(e).last() == e);
    assert forall|a: int, b: int| 0 <= a < b < s.push(e).len() implies s.push(e)[a].id@ != s.push(
        e,
    )[b].id@ by {
        if b < s.len() {
            assert(s[a].id@ != s[b].id@);
        } else {
            assert(s[a].id@ != e.id@);
        }
    }
}

/// Removing record `i` removes exactly that account from the map.
pub proof fn lemma_totals_remove(s: Seq<StorageRecord>, i: int)
    requires
        distinct_record_ids(s),
        0 <= i < s.len(),
    ensures
        distinct_record_ids(s.remove(i)),
        totals_of(s.remove(i)) == totals_of(s).remove(s[i].id@),
    decreases s.len(),
{
    let t = s.remove(i);
    assert forall|a: int, b: int| 0 <= a < b < t.len() implies t[a].id@ != t[b].id@ by {
        let a0 = if a < i {
            a
        } else {
            a + 1
        };
        let b0 = if b < i {
            b
        } else {
            b + 1
        };
        assert(t[a] == s[a0]);
        assert(t[b] == s[b0]);
        assert(s[a0].id@ != s[b0].id@);
    }
    if i == s.len() - 1 {
        assert(t =~= s.drop_last());
        lemma_totals_contains(s.drop_last(), s[i].id@);
        if totals_of(s.drop_last()).dom().contains(s[i].id@) {
            let j = choose|j: int| 0 <= j < s.drop_last().len() && s.drop_last()[j].id@ == s[i].id@;
            assert(s[j].id@ != s[i].id@);
        }
        assert(totals_of(s.drop_last()).insert(s[i].id@, s[i].total).remove(s[i].id@) =~= totals_of(
            s.drop_last(),
        ));
    } else {
        lemma_distinct_records_drop_last(s);
        lemma_totals_remove(s.drop_last(), i);
        assert(t.drop_last() =~= s.drop_last().remove(i));
        assert(t.last() == s.last());
        assert(s[i].id@ != s.last().id@);
        assert(totals_of(s.drop_last()).remove(s[i].id@).insert(s.last().id@, s.last().total)
            =~= totals_of(s.drop_last()).insert(s.last().id@, s.last().total).remove(s[i].id@));
    }
}

impl AccountRegistry {
    /// The deposit map this registry denotes.
    pub open spec fn totals(self) -> Map<Seq<char>, u128> {
        totals_of(self.records@)
    }

    /// Well-formedness: one record per account.
    pub open spec fn wf(self) -> bool {
        distinct_record_ids(self.records@)
    }

    pub open spec fn has_record(self, id: Seq<char>) -> bool {
        self.totals().dom().contains(id)
    }

    /// The deposit an account holds in escrow; zero if it has no record.
    pub open spec fn total_of(self, id: Seq<char>) -> u128 {
        if self.totals().dom().contains(id) {
            self.totals()[id]
        } else {
            0
        }
    }

    /// An empty registry.
    pub fn new() -> (r: AccountRegistry)
        ensures
            r.wf(),
            r.totals() == Map::<Seq<char>, u128>::empty(),
    {
        AccountRegistry { records: Vec::new() }
    }

    /// Index of the record for `account_id`, if any.
    fn find_index(&self, account_id: &String) -> (r: Option<usize>)
        ensures
            match r {
                Some(i) => i < self.records@.len() && self.records@[i as int].id@ == account_id@,
                None => !self.totals().dom().contains(account_id@),
            },
    {
        let n = self.records.len();
        let mut k: usize = 0;
        while k < n
            invariant
                k <= n,
                n == self.records@.len(),
                forall|j: int| 0 <= j < k ==> self.records@[j].id@ != account_id@,
            decreases n - k,
        {
            if self.records[k].id == *account_id {
                return Some(k);
            }
            k = k + 1;
        }
        proof {
            lemma_totals_contains(self.records@, account_id@);
        }
        None
    }

    /// The deposit an account holds, or `None` if it has no record.
    pub fn total_deposit(&self, account_id: &String) -> (r: Option<u128>)
        requires
            self.wf(),
        ensures
            match r {
                Some(t) => self.has_record(account_id@) && t == self.total_of(account_id@),
                None => !self.has_record(account_id@),
            },
    {
        match self.find_index(account_id) {
            Some(i) => {
                proof {
                    lemma_totals_index(self.records@, i as int);
                }
                Some(self.records[i].total)
            },
            None => None,
        }
    }

    /// Adds `amount` to the account's escrowed deposit, creating the
    /// record if the account had none; fails rather than overflow.
    pub fn credit(&mut self, account_id: String, amount: u128) -> (r: Result<u128, TokenError>)
        requires
            old(self).wf(),
        ensures
            final(self).wf(),
            if old(self).total_of(account_id@) + amount > u128::MAX {
                r == Err::<u128, TokenError>(TokenError::Overflow) && *final(self) == *old(self)
            } else {
                &&& r == Ok::<u128, TokenError>(
                    (old(self).total_of(account_id@) + amount) as u128,
                )
                &&& final(self).totals() == old(self).totals().insert(
                    account_id@,
                    (old(self).total_of(account_id@) + amount) as u128,
                )
            },
    {
        match self.find_index(&account_id) {
            Some(i) => {
                proof {
                    lemma_totals_index(self.records@, i as int);
                }
                let old_total = self.records[i].total;
                if amount > u128::MAX - old_total {
                    return Err(TokenError::Overflow);
                }
                let ghost s0 = self.records@;
                self.records[i].total = old_total + amount;
                proof {
                    lemma_totals_update(s0, i as int, self.records@[i as int]);
                }
                Ok(old_total + amount)
            },
            None => {
                proof {
                    lemma_totals_contains(self.records@, account_id@);
                }
                let ghost s0 = self.records@;
                self.records.push(StorageRecord { id: account_id, total: amount });
                proof {
                    lemma_totals_push(s0, self.records@.last());
                }
                Ok(amount)
            },
        }
    }

    /// Lowers the account's escrowed deposit to `new_total`; the caller
    /// receives the difference.
    pub fn debit_to(&mut self, account_id: &String, new_total: u128)
        requires
            old(self).wf(),
            old(self).has_record(account_id@),
            new_total <= old(self).total_of(account_id@),
        ensures
            final(self).wf(),
            final(self).totals() == old(self).totals().insert(account_id@, new_total),
    {
        match self.find_index(account_id) {
            Some(i) => {
                proof {
                    lemma_totals_index(self.records@, i as int);
                }
                let ghost s0 = self.records@;
                self.records[i].total = new_total;
                proof {
                    lemma_totals_update(s0, i as int, self.records@[i as int]);
                }
            },
            None => {
                proof {
                    assert(false);
                }
            },
        }
    }

    /// Removes the account's record, handing back the escrowed deposit
    /// it held, or `None` if it had no record.
    pub fn remove(&mut self, account_id: &String) -> (r: Option<u128>)
        requires
            old(self).wf(),
        ensures
            final(self).wf(),
            match r {
                Some(t) => {
                    &&& old(self).has_record(account_id@)
                    &&& t == old(self).total_of(account_id@)
                    &&& final(self).totals() == old(self).totals().remove(account_id@)
                },
                None => !old(self).has_record(account_id@) && *final(self) == *old(self),
            },
    {
        match self.find_index(account_id) {
            None => None,
            Some(i) => {
                proof {
                    lemma_totals_contains(self.records@, account_id@);
                    lemma_totals_index(self.records@, i as int);
                    lemma_totals_remove(self.records@, i as int);
                }
                let record = self.records.remove(i);
                Some(record.total)
            },
        }
    }
}

} // verus!
