//! The ledger's global laws, stated once and proved from the
//! well-formedness predicate every operation requires and
//! re-establishes.

use vstd::prelude::*;

use crate::ledger::{
    lemma_map_of_contains, lemma_map_of_index, lemma_sum_le, spec_transfer_error, sum_of, Ledger,
};
use crate::resolver::{pending_index_of, spec_refund};
use crate::token::OCTToken;

verus! {

/// Conservation: in every well-formed state the per-account balances
/// sum exactly to the recorded total supply. Every operation requires
/// and re-establishes `wf`, so this holds at every observable
/// boundary; the one supply-reducing path — a forced unregister that
/// forfeits a balance — lowers the recorded supply by exactly the
/// forfeited amount and records an explicit supply adjustment.
pub proof fn law_supply_conservation(t: OCTToken)
    requires
        t.wf(),
    ensures
        sum_of(t.ledger.entries@) == t.ledger.total_supply,
{
}

/// No balance is ever negative, and no single account can hold more
/// than the total supply.
pub proof fn law_balance_bounded_by_supply(t: OCTToken, id: Seq<char>)
    requires
        t.wf(),
    ensures
        t.ledger.balance_of_spec(id) >= 0,
        t.ledger.balance_of_spec(id) <= t.ledger.total_supply,
{
    if t.ledger.is_registered(id) {
        lemma_map_of_contains(t.ledger.entries@, id);
        let i = choose|i: int|
            0 <= i < t.ledger.entries@.len() && t.ledger.entries@[i].id@ == id;
        lemma_map_of_index(t.ledger.entries@, i);
        lemma_sum_le(t.ledger.entries@, i);
    }
}

/// No transfer succeeds without both of its accounts being registered:
/// a valid transfer names two different registered accounts, moves a
/// positive amount, and is covered by the sender's balance.
pub proof fn law_transfer_requires_registration(
    l: Ledger,
    from: Seq<char>,
    to: Seq<char>,
    amount: u128,
)
    requires
        spec_transfer_error(l, from, to, amount) is None,
    ensures
        l.is_registered(from),
        l.is_registered(to),
        amount > 0,
        from != to,
        l.balance_of_spec(from) >= amount,
{
}

/// Bounded refund: a resolution never claws back more than the
/// receiver presently holds, nor more than the unused amount — whatever
/// the original transfer moved and whatever happened in between.
pub proof fn law_refund_bounded(t: OCTToken, sender: Seq<char>, receiver: Seq<char>, unused: u128)
    ensures
        spec_refund(t, sender, receiver, unused) <= unused,
        spec_refund(t, sender, receiver, unused) <= t.ledger.balance_of_spec(receiver),
{
}

/// Resolution is final: once the in-flight record for a call id is
/// consumed, no remaining record carries that id, so a second
/// resolution attempt is rejected rather than refunding twice.
pub proof fn law_resolution_is_final(t: OCTToken, call_id: u64)
    requires
        t.wf(),
        t.has_pending(call_id),
    ensures
        ({
            let rest = t.pending@.remove(pending_index_of(t.pending@, call_id));
            forall|j: int| 0 <= j < rest.len() ==> (#[trigger] rest[j].call_id) != call_id
        }),
{
    let s = t.pending@;
    let i = pending_index_of(s, call_id);
    assert(0 <= i < s.len() && s[i].call_id == call_id);
    let rest = s.remove(i);
    assert forall|j: int| 0 <= j < rest.len() implies (#[trigger] rest[j].call_id)
        != call_id by {
        let j0 = if j < i {
            j
        } else {
            j + 1
        };
        assert(rest[j] == s[j0]);
        if j0 < i {
            assert(s[j0].call_id != s[i].call_id);
        } else {
            assert(s[i].call_id != s[j0].call_id);
        }
    }
}

} // verus!
