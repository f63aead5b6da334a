//! The address derivation scheme.
//!
//! Every record of the system lives at a storage address derived from a
//! namespace tag and the record's natural key: the vault registry has no
//! key, a payment record is keyed by its payment identifier, and a
//! statistics record by the recipient's identity.  The derivation is a pure
//! function and is exactly injective: an address *is* the namespace/key
//! pair, so equal inputs always give equal addresses and distinct inputs
//! can never collide.  Under this scheme every address is valid, so the
//! derivation is total and the disambiguation byte is always the canonical
//! first candidate.

use crate::types::AccountId;
use vstd::prelude::*;

verus! {

/// The disambiguation byte search starts here; with every address valid it
/// is also where it ends.
pub const CANONICAL_BUMP: u8 = 255;

/// Which kind of record an address belongs to.
#[derive(Clone, Copy, PartialEq, Eq, Structural, Debug)]
pub enum Namespace {
    Vault,
    PaymentRecord,
    RecipientStats,
}

/// The natural key of a record: nothing for the vault registry, the
/// caller-chosen payment identifier for a payment record, the recipient's
/// identity for a statistics record.
#[derive(Clone, Debug)]
pub enum NaturalKey {
    NoKey,
    IdKey(String),
    AccountKey(AccountId),
}

/// Mathematical value of a [`NaturalKey`].
pub enum KeyModel {
    NoKeyModel,
    IdKeyModel(Seq<char>),
    AccountKeyModel(AccountId),
}

impl View for NaturalKey {
    type V = KeyModel;

    open spec fn view(&self) -> KeyModel {
        match self {
            NaturalKey::NoKey => KeyModel::NoKeyModel,
            NaturalKey::IdKey(id) => KeyModel::IdKeyModel(id@),
            NaturalKey::AccountKey(a) => KeyModel::AccountKeyModel(*a),
        }
    }
}

/// A storage address: the namespace/key pair itself.
#[derive(Clone, Debug)]
pub struct Address {
    pub namespace: Namespace,
    pub key: NaturalKey,
}

/// Mathematical value of an [`Address`].
pub struct AddressModel {
    pub namespace: Namespace,
    pub key: KeyModel,
}

impl View for Address {
    type V = AddressModel;

    open spec fn view(&self) -> AddressModel {
        AddressModel { namespace: self.namespace, key: self.key@ }
    }
}

/// The address a payment record with identifier `id` is stored at.
pub open spec fn payment_address(id: Seq<char>) -> AddressModel {
    AddressModel { namespace: Namespace::PaymentRecord, key: KeyModel::IdKeyModel(id) }
}

/// The address the statistics record of `recipient` is stored at.
pub open spec fn stats_address(recipient: AccountId) -> AddressModel {
    AddressModel { namespace: Namespace::RecipientStats, key: KeyModel::AccountKeyModel(recipient) }
}

/// Derive the storage address of the record with the given namespace and
/// natural key, together with the disambiguation byte that made it valid.
/// The derivation is deterministic and total.
pub fn derive_address(namespace: Namespace, key: NaturalKey) -> (r: (Address, u8))
    ensures
        r.0@ == (AddressModel { namespace, key: key@ }),
        r.1 == CANONICAL_BUMP,
{
    (Address { namespace, key }, CANONICAL_BUMP)
}

/// Decide whether two addresses denote the same storage slot.
pub fn address_eq(a: &Address, b: &Address) -> (r: bool)
    ensures
        r == (a@ == b@),
{
    if a.namespace != b.namespace {
        return false;
    }
    match (&a.key, &b.key) {
        (NaturalKey::NoKey, NaturalKey::NoKey) => true,
        (NaturalKey::IdKey(x), NaturalKey::IdKey(y)) => *x == *y,
        (NaturalKey::AccountKey(x), NaturalKey::AccountKey(y)) => *x == *y,
        _ => false,
    }
}

/// Address derivation never collides: two distinct namespace/key pairs
/// always derive distinct addresses.
pub proof fn lemma_address_injective(n1: Namespace, k1: KeyModel, n2: Namespace, k2: KeyModel)
    requires
        n1 != n2 || k1 != k2,
    ensures
        (AddressModel { namespace: n1, key: k1 }) != (AddressModel { namespace: n2, key: k2 }),
{
}

/// Payment records registered under distinct identifiers live at distinct
/// addresses.
pub proof fn lemma_distinct_ids_distinct_addresses(id1: Seq<char>, id2: Seq<char>)
    requires
        id1 != id2,
    ensures
        payment_address(id1) != payment_address(id2),
{
}

} // verus!
