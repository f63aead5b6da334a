//! The mathematical model of the record store.
//!
//! The ledger's contracts are stated over two sequences: the payment
//! records in order of registration, and the per-recipient statistics
//! entries.  This module defines lookup by natural key, the per-recipient
//! aggregates that the statistics must equal, and the lemmas that carry
//! those notions across `push` and `update`.

use crate::types::{AccountId, Payment, PaymentStatus, UserStats};
use vstd::prelude::*;

verus! {

/// One statistics record together with the recipient identity that keys it.
#[derive(Clone, Copy, PartialEq, Eq, Structural, Debug)]
pub struct StatsEntry {
    pub recipient: AccountId,
    pub stats: UserStats,
}

// ---------------------------------------------------------------------------
// Lookup by natural key
// ---------------------------------------------------------------------------

/// Some payment record carries the identifier `id`.
pub open spec fn has_payment(s: Seq<Payment>, id: Seq<char>) -> bool {
    exists|i: int| 0 <= i < s.len() && (#[trigger] s[i]).payment_id@ == id
}

/// The index of a payment record carrying `id` (meaningful under
/// [`payment_ids_unique`], where it is the only one).
pub open spec fn payment_index(s: Seq<Payment>, id: Seq<char>) -> int {
    choose|i: int| 0 <= i < s.len() && (#[trigger] s[i]).payment_id@ == id
}

/// The payment record stored under `id`, if any.
pub open spec fn payment_of(s: Seq<Payment>, id: Seq<char>) -> Option<Payment> {
    if has_payment(s, id) {
        Some(s[payment_index(s, id)])
    } else {
        None
    }
}

/// No two payment records share an identifier.
pub open spec fn payment_ids_unique(s: Seq<Payment>) -> bool {
    forall|i: int, j: int|
        0 <= i < j < s.len() ==> (#[trigger] s[i]).payment_id@ != (#[trigger] s[j]).payment_id@
}

/// Some statistics entry is keyed by `r`.
pub open spec fn has_stats(s: Seq<StatsEntry>, r: AccountId) -> bool {
    exists|j: int| 0 <= j < s.len() && (#[trigger] s[j]).recipient == r
}

/// The index of the statistics entry keyed by `r` (meaningful under
/// [`stats_recipients_unique`]).
pub open spec fn stats_index(s: Seq<StatsEntry>, r: AccountId) -> int {
    choose|j: int| 0 <= j < s.len() && (#[trigger] s[j]).recipient == r
}

/// The statistics stored for `r`, if any.
pub open spec fn stats_of(s: Seq<StatsEntry>, r: AccountId) -> Option<UserStats> {
    if has_stats(s, r) {
        Some(s[stats_index(s, r)].stats)
    } else {
        None
    }
}

/// No two statistics entries share a recipient.
pub open spec fn stats_recipients_unique(s: Seq<StatsEntry>) -> bool {
    forall|i: int, j: int|
        0 <= i < j < s.len() ==> (#[trigger] s[i]).recipient != (#[trigger] s[j]).recipient
}

// ---------------------------------------------------------------------------
// Per-recipient aggregates
// ---------------------------------------------------------------------------

/// What one record contributes to its recipient's count of registered
/// intents.
pub open spec fn reg_contrib(p: Payment, r: AccountId) -> int {
    if p.recipient == r {
        1
    } else {
        0
    }
}

/// What one record contributes to its recipient's registered volume.
pub open spec fn vol_contrib(p: Payment, r: AccountId) -> int {
    if p.recipient == r {
        p.amount as int
    } else {
        0
    }
}

/// What one record contributes to its recipient's count of completed
/// intents.
pub open spec fn comp_contrib(p: Payment, r: AccountId) -> int {
    if p.recipient == r && p.status is Completed {
        1
    } else {
        0
    }
}

/// How many intents are registered for `r`.
pub open spec fn registered_count(s: Seq<Payment>, r: AccountId) -> int
    decreases s.len(),
{
    if s.len() == 0 {
        0
    } else {
        registered_count(s.drop_last(), r) + reg_contrib(s.last(), r)
    }
}

/// The sum of the amounts registered for `r`.
pub open spec fn registered_volume(s: Seq<Payment>, r: AccountId) -> int
    decreases s.len(),
{
    if s.len() == 0 {
        0
    } else {
        registered_volume(s.drop_last(), r) + vol_contrib(s.last(), r)
    }
}

/// How many intents registered for `r` have been completed.
pub open spec fn completed_count(s: Seq<Payment>, r: AccountId) -> int
    decreases s.len(),
{
    if s.len() == 0 {
        0
    } else {
        completed_count(s.drop_last(), r) + comp_contrib(s.last(), r)
    }
}

/// The record `p` as a successful fulfillment rewrites it: the status is
/// `Completed`, every other field is kept.
pub open spec fn with_completed_status(p: Payment) -> Payment {
    Payment {
        amount: p.amount,
        recipient: p.recipient,
        mint: p.mint,
        status: PaymentStatus::Completed,
        payment_id: p.payment_id,
        created_at: p.created_at,
        expires_at: p.expires_at,
    }
}

/// A statistics entry agrees with the payment records: each of its three
/// counters equals the corresponding aggregate over `ps`, and the entry
/// exists only because at least one intent was registered for its
/// recipient.
pub open spec fn stats_entry_consistent(ps: Seq<Payment>, e: StatsEntry) -> bool {
    &&& e.stats.total_payments == registered_count(ps, e.recipient)
    &&& e.stats.total_volume == registered_volume(ps, e.recipient)
    &&& e.stats.completed_payments == completed_count(ps, e.recipient)
    &&& registered_count(ps, e.recipient) >= 1
}

// ---------------------------------------------------------------------------
// Lemmas about lookup
// ---------------------------------------------------------------------------

/// Under unique identifiers, looking up the identifier of the record at
/// index `i` finds exactly that record.
pub proof fn lemma_payment_of_at(s: Seq<Payment>, i: int)
    requires
        payment_ids_unique(s),
        0 <= i < s.len(),
    ensures
        payment_of(s, s[i].payment_id@) == Some(s[i]),
        payment_index(s, s[i].payment_id@) == i,
{
    assert(has_payment(s, s[i].payment_id@));
    let j = payment_index(s, s[i].payment_id@);
    assert(0 <= j < s.len() && s[j].payment_id@ == s[i].payment_id@);
    if i < j {
        assert(s[i].payment_id@ != s[j].payment_id@);
    } else if j < i {
        assert(s[j].payment_id@ != s[i].payment_id@);
    }
}

/// Appending a record with a fresh identifier keeps identifiers unique,
/// stores the record under its identifier, and leaves every other lookup
/// unchanged.
pub proof fn lemma_payment_of_push(s: Seq<Payment>, p: Payment)
    requires
        payment_ids_unique(s),
        !has_payment(s, p.payment_id@),
    ensures
        payment_ids_unique(s.push(p)),
        payment_of(s.push(p), p.payment_id@) == Some(p),
        forall|id: Seq<char>|
            id != p.payment_id@ ==> #[trigger] payment_of(s.push(p), id) == payment_of(s, id),
{
    let s2 = s.push(p);
    assert forall|i: int, j: int| 0 <= i < j < s2.len() implies (#[trigger] s2[i]).payment_id@
        != (#[trigger] s2[j]).payment_id@ by {
        if j < s.len() {
            assert(s2[i] == s[i] && s2[j] == s[j]);
        } else {
            assert(s2[j] == p && s2[i] == s[i]);
            assert(has_payment(s, s[i].payment_id@));
        }
    }
    assert(s2[s.len() as int] == p);
    lemma_payment_of_at(s2, s.len() as int);
    assert forall|id: Seq<char>| id != p.payment_id@ implies #[trigger] payment_of(s2, id)
        == payment_of(s, id) by {
        if has_payment(s, id) {
            let i = payment_index(s, id);
            assert(0 <= i < s.len() && s[i].payment_id@ == id);
            lemma_payment_of_at(s, i);
            assert(s2[i] == s[i]);
            lemma_payment_of_at(s2, i);
        } else {
            assert forall|i: int| 0 <= i < s2.len() implies (#[trigger] s2[i]).payment_id@ != id by {
                if i < s.len() {
                    assert(s2[i] == s[i]);
                    assert(has_payment(s, s2[i].payment_id@) || s2[i].payment_id@ != id);
                } else {
                    assert(s2[i] == p);
                }
            }
        }
    }
}

/// Overwriting the record at index `i` with one that keeps its identifier
/// keeps identifiers unique, stores the new record under that identifier,
/// and leaves every other lookup unchanged.
pub proof fn lemma_payment_of_update(s: Seq<Payment>, i: int, p: Payment)
    requires
        payment_ids_unique(s),
        0 <= i < s.len(),
        p.payment_id@ == s[i].payment_id@,
    ensures
        payment_ids_unique(s.update(i, p)),
        payment_of(s.update(i, p), p.payment_id@) == Some(p),
        forall|id: Seq<char>|
            id != p.payment_id@ ==> #[trigger] payment_of(s.update(i, p), id) == payment_of(s, id),
{
    let s2 = s.update(i, p);
    assert forall|k: int, j: int| 0 <= k < j < s2.len() implies (#[trigger] s2[k]).payment_id@
        != (#[trigger] s2[j]).payment_id@ by {
        assert(s[k].payment_id@ != s[j].payment_id@);
    }
    lemma_payment_of_at(s2, i);
    assert forall|id: Seq<char>| id != p.payment_id@ implies #[trigger] payment_of(s2, id)
        == payment_of(s, id) by {
        if has_payment(s, id) {
            let k = payment_index(s, id);
            assert(0 <= k < s.len() && s[k].payment_id@ == id);
            lemma_payment_of_at(s, k);
            assert(k != i);
            assert(s2[k] == s[k]);
            lemma_payment_of_at(s2, k);
        } else {
            assert forall|k: int| 0 <= k < s2.len() implies (#[trigger] s2[k]).payment_id@ != id by {
                if k != i {
                    assert(s2[k] == s[k]);
                    assert(has_payment(s, s2[k].payment_id@) || s2[k].payment_id@ != id);
                } else {
                    assert(s2[k] == p);
                }
            }
        }
    }
}

/// Under unique recipients, looking up the recipient of the entry at index
/// `j` finds exactly that entry.
pub proof fn lemma_stats_of_at(s: Seq<StatsEntry>, j: int)
    requires
        stats_recipients_unique(s),
        0 <= j < s.len(),
    ensures
        stats_of(s, s[j].recipient) == Some(s[j].stats),
        stats_index(s, s[j].recipient) == j,
{
    assert(has_stats(s, s[j].recipient));
    let k = stats_index(s, s[j].recipient);
    assert(0 <= k < s.len() && s[k].recipient == s[j].recipient);
    if j < k {
        assert(s[j].recipient != s[k].recipient);
    } else if k < j {
        assert(s[k].recipient != s[j].recipient);
    }
}

// ---------------------------------------------------------------------------
// Lemmas about aggregates
// ---------------------------------------------------------------------------

/// Every aggregate is non-negative.
pub proof fn lemma_aggregates_nonneg(s: Seq<Payment>, r: AccountId)
    ensures
        0 <= registered_count(s, r),
        0 <= registered_volume(s, r),
        0 <= completed_count(s, r),
    decreases s.len(),
{
    if s.len() > 0 {
        lemma_aggregates_nonneg(s.drop_last(), r);
    }
}

/// Appending a record adds exactly its own contribution to every
/// recipient's aggregates.
pub proof fn lemma_aggregates_push(s: Seq<Payment>, p: Payment)
    ensures
        forall|r: AccountId| #[trigger] registered_count(s.push(p), r)
            == registered_count(s, r) + reg_contrib(p, r),
        forall|r: AccountId| #[trigger] registered_volume(s.push(p), r)
            == registered_volume(s, r) + vol_contrib(p, r),
        forall|r: AccountId| #[trigger] completed_count(s.push(p), r)
            == completed_count(s, r) + comp_contrib(p, r),
{
    assert(s.push(p).drop_last() =~= s);
    assert(s.push(p).last() == p);
}

/// Overwriting the record at index `i` with one of the same recipient and
/// amount leaves counts and volume unchanged, and moves every recipient's
/// completed count by the difference of the two records' contributions.
pub proof fn lemma_aggregates_update(s: Seq<Payment>, i: int, p: Payment, r: AccountId)
    requires
        0 <= i < s.len(),
        p.recipient == s[i].recipient,
        p.amount == s[i].amount,
    ensures
        registered_count(s.update(i, p), r) == registered_count(s, r),
        registered_volume(s.update(i, p), r) == registered_volume(s, r),
        completed_count(s.update(i, p), r) == completed_count(s, r) - comp_contrib(s[i], r)
            + comp_contrib(p, r),
    decreases s.len(),
{
    let s2 = s.update(i, p);
    if i == s.len() - 1 {
        assert(s2.drop_last() =~= s.drop_last());
        assert(s2.last() == p);
        assert(s.last() == s[i]);
    } else {
        assert(s2.drop_last() =~= s.drop_last().update(i, p));
        assert(s.drop_last()[i] == s[i]);
        lemma_aggregates_update(s.drop_last(), i, p, r);
        assert(s2.last() == s.last());
    }
}

/// A recipient no record names has zero aggregates.
pub proof fn lemma_aggregates_absent(s: Seq<Payment>, r: AccountId)
    requires
        forall|i: int| 0 <= i < s.len() ==> (#[trigger] s[i]).recipient != r,
    ensures
        registered_count(s, r) == 0,
        registered_volume(s, r) == 0,
        completed_count(s, r) == 0,
    decreases s.len(),
{
    if s.len() > 0 {
        assert(s.last() == s[s.len() - 1]);
        lemma_aggregates_absent(s.drop_last(), r);
    }
}

/// A recipient's completed count never exceeds their registered count.
pub proof fn lemma_completed_le_registered(s: Seq<Payment>, r: AccountId)
    ensures
        completed_count(s, r) <= registered_count(s, r),
    decreases s.len(),
{
    if s.len() > 0 {
        lemma_completed_le_registered(s.drop_last(), r);
    }
}

/// While some intent registered for `r` is still uncompleted, the
/// completed count is strictly below the registered count.
pub proof fn lemma_completed_lt_of_uncompleted(s: Seq<Payment>, r: AccountId, i: int)
    requires
        0 <= i < s.len(),
        s[i].recipient == r,
        !(s[i].status is Completed),
    ensures
        completed_count(s, r) + 1 <= registered_count(s, r),
    decreases s.len(),
{
    if i == s.len() - 1 {
        lemma_completed_le_registered(s.drop_last(), r);
        assert(s.last() == s[i]);
    } else {
        lemma_completed_lt_of_uncompleted(s.drop_last(), r, i);
        assert(s.drop_last()[i] == s[i]);
    }
}

} // verus!
