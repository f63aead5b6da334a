use payclip::{address_eq, derive_address, AccountId, Namespace, NaturalKey, CANONICAL_BUMP};

#[test]
fn derivation_is_deterministic() {
    let (a1, b1) = derive_address(Namespace::PaymentRecord, NaturalKey::IdKey("p1".to_owned()));
    let (a2, b2) = derive_address(Namespace::PaymentRecord, NaturalKey::IdKey("p1".to_owned()));
    assert!(address_eq(&a1, &a2));
    assert_eq!(b1, b2);
    assert_eq!(b1, CANONICAL_BUMP);
}

#[test]
fn distinct_ids_distinct_addresses() {
    let (a1, _) = derive_address(Namespace::PaymentRecord, NaturalKey::IdKey("p1".to_owned()));
    let (a2, _) = derive_address(Namespace::PaymentRecord, NaturalKey::IdKey("p2".to_owned()));
    assert!(!address_eq(&a1, &a2));
}

#[test]
fn distinct_namespaces_distinct_addresses() {
    let (vault, _) = derive_address(Namespace::Vault, NaturalKey::NoKey);
    let (payment, _) = derive_address(Namespace::PaymentRecord, NaturalKey::IdKey("v".to_owned()));
    let (stats, _) = derive_address(Namespace::RecipientStats, NaturalKey::AccountKey(AccountId(2)));
    assert!(!address_eq(&vault, &payment));
    assert!(!address_eq(&vault, &stats));
    assert!(!address_eq(&payment, &stats));
}

#[test]
fn distinct_recipients_distinct_addresses() {
    let (a1, _) = derive_address(Namespace::RecipientStats, NaturalKey::AccountKey(AccountId(2)));
    let (a2, _) = derive_address(Namespace::RecipientStats, NaturalKey::AccountKey(AccountId(3)));
    assert!(!address_eq(&a1, &a2));
}
