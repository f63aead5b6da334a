//! The laws of the payment lifecycle, stated and proved once over the
//! decision functions that the operations' contracts are phrased in.
//!
//! Together with the operations' own postconditions — an erring operation
//! leaves the ledger untouched, a successful fulfillment rewrites exactly
//! the addressed record's status — these pin down the state machine:
//! `Pending` is the only state a fulfillment accepts, and
//! `Pending -> Completed` the only transition any operation takes.

use crate::addressing::payment_address;
use crate::ledger::{fulfill_checks, fulfill_outcome, register_outcome};
use crate::model::{
    completed_count, has_payment, has_stats, payment_of, registered_count, registered_volume,
    stats_of,
};
use crate::types::{AccountId, ErrorCode, Payment, TransferOutcome, UserStats};
use crate::Ledger;
use vstd::prelude::*;

verus! {

/// Registering an identifier that is already taken fails with
/// `DuplicatePaymentId` — and, by `create_payment`'s postcondition, leaves
/// the original record unmodified.
pub proof fn lemma_duplicate_registration_fails(ps: Seq<Payment>, id: Seq<char>)
    requires
        has_payment(ps, id),
    ensures
        register_outcome(ps, id) == Err::<(), ErrorCode>(ErrorCode::DuplicatePaymentId),
{
}

/// Uniqueness: in a well-formed ledger any two payment records carry
/// distinct identifiers, so they live at distinct derived addresses.
pub proof fn lemma_records_at_distinct_addresses(l: Ledger, i: int, j: int)
    requires
        l.inv(),
        0 <= i < l.payments@.len(),
        0 <= j < l.payments@.len(),
        i != j,
    ensures
        payment_address(l.payments@[i].payment_id@) != payment_address(l.payments@[j].payment_id@),
{
}

/// Amount integrity: a fulfillment whose amount differs from the
/// registered amount fails with `AmountMismatch`, whatever the time, the
/// identities and the transfer verdict — so no transfer is ordered and,
/// by `process_payment`'s postcondition, nothing changes.
pub proof fn lemma_amount_mismatch_fails(
    ps: Seq<Payment>,
    id: Seq<char>,
    amount: u64,
    recipient: AccountId,
    mint: AccountId,
    now: i64,
    outcome: TransferOutcome,
)
    requires
        payment_of(ps, id) matches Some(p) && p.status is Pending && p.amount != amount,
    ensures
        fulfill_outcome(ps, id, amount, recipient, mint, now, outcome) == Err::<(), ErrorCode>(
            ErrorCode::AmountMismatch,
        ),
{
}

/// Single transition: a record that is already `Completed` refuses every
/// further fulfillment with `InvalidPaymentStatus`.  Since a successful
/// fulfillment leaves the record `Completed`, a fulfillment succeeds at
/// most once per record.
pub proof fn lemma_completed_refuses_fulfillment(
    ps: Seq<Payment>,
    id: Seq<char>,
    amount: u64,
    recipient: AccountId,
    mint: AccountId,
    now: i64,
    outcome: TransferOutcome,
)
    requires
        payment_of(ps, id) matches Some(p) && p.status is Completed,
    ensures
        fulfill_outcome(ps, id, amount, recipient, mint, now, outcome) == Err::<(), ErrorCode>(
            ErrorCode::InvalidPaymentStatus,
        ),
{
}

/// Expiry: at or after `expires_at`, a fulfillment of a pending record
/// with the right amount fails with `PaymentExpired`, whatever identities
/// are supplied and whatever the transfer service would have said.
pub proof fn lemma_expired_refuses_fulfillment(
    ps: Seq<Payment>,
    id: Seq<char>,
    amount: u64,
    recipient: AccountId,
    mint: AccountId,
    now: i64,
    outcome: TransferOutcome,
)
    requires
        payment_of(ps, id) matches Some(p) && p.status is Pending && p.amount == amount && now
            >= p.expires_at,
    ensures
        fulfill_outcome(ps, id, amount, recipient, mint, now, outcome) == Err::<(), ErrorCode>(
            ErrorCode::PaymentExpired,
        ),
{
}

/// Atomicity of failure: even with every precondition satisfied, a
/// declined transfer turns the whole fulfillment into `TransferFailed` —
/// on which `process_payment`'s postcondition keeps the status `Pending`
/// and the recipient's completed count unchanged.
pub proof fn lemma_declined_transfer_aborts(
    ps: Seq<Payment>,
    id: Seq<char>,
    amount: u64,
    recipient: AccountId,
    mint: AccountId,
    now: i64,
)
    requires
        fulfill_checks(ps, id, amount, recipient, mint, now) is Ok,
    ensures
        fulfill_outcome(ps, id, amount, recipient, mint, now, TransferOutcome::Declined)
            == Err::<(), ErrorCode>(ErrorCode::TransferFailed),
{
}

/// Statistics accumulation: in any well-formed ledger, a recipient's entry
/// counts exactly the intents registered for them, the sum of those
/// intents' amounts, and the intents completed — so N successful
/// registrations of amounts a1..aN leave `total_payments == N` and
/// `total_volume == a1 + .. + aN`.
pub proof fn lemma_stats_match_registrations(l: Ledger, r: AccountId)
    requires
        l.inv(),
        has_stats(l.stats@, r),
    ensures
        stats_of(l.stats@, r) == Some(
            UserStats {
                total_payments: registered_count(l.payments@, r) as u64,
                completed_payments: completed_count(l.payments@, r) as u64,
                total_volume: registered_volume(l.payments@, r) as u64,
            },
        ),
{
    let k = choose|k: int| 0 <= k < l.stats@.len() && (#[trigger] l.stats@[k]).recipient == r;
    crate::model::lemma_stats_of_at(l.stats@, k);
}

} // verus!
