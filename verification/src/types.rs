//! The record types of the ledger and the values its operations exchange.

use vstd::prelude::*;

verus! {

/// Identity of an on-ledger party or of a fungible-asset class.
#[derive(Clone, Copy, PartialEq, Eq, Structural, Debug)]
pub struct AccountId(pub u64);

/// Lifecycle state of a payment intent.
///
/// A record starts `Pending` and the only implemented transition is
/// `Pending -> Completed`, taken by a successful fulfillment.  `Cancelled`
/// is declared in the data model but no operation reaches it.
#[derive(Clone, Copy, PartialEq, Eq, Structural, Debug)]
pub enum PaymentStatus {
    Pending,
    Completed,
    Cancelled,
}

/// Why an operation was refused.  Every error aborts the whole operation
/// with no effect on the ledger.
#[derive(Clone, Copy, PartialEq, Eq, Structural, Debug)]
pub enum ErrorCode {
    /// The vault registry already exists.
    AlreadyInitialized,
    /// A payment record with the same identifier already exists.
    DuplicatePaymentId,
    /// The addressed payment record is missing or is not `Pending`.
    InvalidPaymentStatus,
    /// The supplied amount differs from the registered amount.
    AmountMismatch,
    /// The current time is at or past the record's expiry.
    PaymentExpired,
    /// The supplied recipient or asset identity differs from the record's.
    IdentityMismatch,
    /// The asset-transfer service declined the transfer.
    TransferFailed,
}

/// What the external asset-transfer service reported for one transfer.
#[derive(Clone, Copy, PartialEq, Eq, Structural, Debug)]
pub enum TransferOutcome {
    Succeeded,
    Declined,
}

/// The singleton vault registry: the system's administrative authority and
/// the disambiguation byte its address was derived with.  Created once,
/// never mutated afterwards.
#[derive(Clone, Copy, PartialEq, Eq, Structural, Debug)]
pub struct VaultState {
    pub bump: u8,
    pub authority: AccountId,
}

/// One payment intent.  `amount`, `recipient`, `mint`, `payment_id`,
/// `created_at` and `expires_at` are immutable after creation; only
/// `status` is ever rewritten, exactly once, by a successful fulfillment.
#[derive(Clone, Debug)]
pub struct Payment {
    pub amount: u64,
    pub recipient: AccountId,
    pub mint: AccountId,
    pub status: PaymentStatus,
    pub payment_id: String,
    pub created_at: i64,
    pub expires_at: i64,
}

/// Running totals for one recipient: intents registered for them, intents
/// fulfilled, and the sum of the registered amounts.
#[derive(Clone, Copy, PartialEq, Eq, Structural, Debug)]
pub struct UserStats {
    pub total_payments: u64,
    pub completed_payments: u64,
    pub total_volume: u64,
}

/// The transfer the fulfillment operation asks the external asset-transfer
/// service to perform: move `amount` of `mint` from `from` to `to`, under
/// `from`'s authorization.
#[derive(Clone, Copy, PartialEq, Eq, Structural, Debug)]
pub struct TransferOrder {
    pub from: AccountId,
    pub to: AccountId,
    pub mint: AccountId,
    pub amount: u64,
}

/// The parties of a vault initialization: the caller, who becomes the
/// system's authority.
#[derive(Clone, Copy, PartialEq, Eq, Structural, Debug)]
pub struct InitializeVault {
    pub authority: AccountId,
}

/// The parties of an intent registration: the fee payer of the record
/// creation (not necessarily the eventual fulfiller), the recipient, and
/// the asset class.
#[derive(Clone, Copy, PartialEq, Eq, Structural, Debug)]
pub struct CreatePayment {
    pub payer: AccountId,
    pub recipient: AccountId,
    pub mint: AccountId,
}

/// The addressing key and parties of a fulfillment: the payment identifier,
/// the payer whose balance funds the transfer, and the recipient and asset
/// identities the record is expected to carry.
#[derive(Clone, Debug)]
pub struct ProcessPayment {
    pub payment_id: String,
    pub payer: AccountId,
    pub recipient: AccountId,
    pub mint: AccountId,
}

} // verus!
