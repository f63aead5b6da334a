//! A minimal escrow / payment-intent ledger.
//!
//! An operator registers payment intents (amount, recipient, asset class,
//! expiry); a payer later fulfills one, which atomically couples an external
//! asset transfer with the intent's status transition and an update of the
//! recipient's statistics.  Every operation is all-or-nothing: a failed
//! precondition or a declined transfer leaves the ledger exactly as it was.

pub mod addressing;
pub mod laws;
pub mod ledger;
pub mod model;
pub mod types;

pub use ledger::Ledger;

pub use addressing::{address_eq, derive_address, Address, Namespace, NaturalKey, CANONICAL_BUMP};
pub use types::{
    AccountId, CreatePayment, ErrorCode, InitializeVault, Payment, PaymentStatus, ProcessPayment,
    TransferOrder, TransferOutcome, UserStats, VaultState,
};
