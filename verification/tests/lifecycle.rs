use payclip::{
    AccountId, CreatePayment, ErrorCode, InitializeVault, PaymentStatus, ProcessPayment,
    TransferOutcome,
};
use payclip::Ledger;

fn create_accounts() -> CreatePayment {
    CreatePayment { payer: AccountId(1), recipient: AccountId(2), mint: AccountId(3) }
}

fn process_accounts(payment_id: &str) -> ProcessPayment {
    ProcessPayment {
        payment_id: payment_id.to_owned(),
        payer: AccountId(9),
        recipient: AccountId(2),
        mint: AccountId(3),
    }
}

#[test]
fn vault_initializes_once() {
    let mut l = Ledger::new();
    assert!(l.vault_state().is_none());
    let r = l.initialize_vault(&InitializeVault { authority: AccountId(7) }, 254);
    assert_eq!(r, Ok(()));
    let v = l.vault_state().unwrap();
    assert_eq!(v.authority, AccountId(7));
    assert_eq!(v.bump, 254);
    let r2 = l.initialize_vault(&InitializeVault { authority: AccountId(8) }, 253);
    assert_eq!(r2, Err(ErrorCode::AlreadyInitialized));
    // the original registration stands
    assert_eq!(l.vault_state().unwrap().authority, AccountId(7));
}

#[test]
fn full_lifecycle() {
    let now: i64 = 1_000;
    let mut l = Ledger::new();
    let r = l.create_payment(&create_accounts(), 500, "p1".to_owned(), now + 3600, now);
    assert_eq!(r, Ok(()));

    let p = l.get_payment(&"p1".to_owned()).unwrap();
    assert_eq!(p.status, PaymentStatus::Pending);
    assert_eq!(p.amount, 500);
    assert_eq!(p.created_at, now);
    assert_eq!(p.expires_at, now + 3600);
    assert_eq!(p.recipient, AccountId(2));
    assert_eq!(p.mint, AccountId(3));

    let st = l.get_stats(AccountId(2)).unwrap();
    assert_eq!(st.total_payments, 1);
    assert_eq!(st.completed_payments, 0);
    assert_eq!(st.total_volume, 500);

    let r2 = l.process_payment(&process_accounts("p1"), 500, now + 10, TransferOutcome::Succeeded);
    assert_eq!(r2, Ok(()));
    assert_eq!(l.get_payment(&"p1".to_owned()).unwrap().status, PaymentStatus::Completed);
    assert_eq!(l.get_stats(AccountId(2)).unwrap().completed_payments, 1);

    // a second fulfillment of the same record is refused
    let r3 = l.process_payment(&process_accounts("p1"), 500, now + 20, TransferOutcome::Succeeded);
    assert_eq!(r3, Err(ErrorCode::InvalidPaymentStatus));
    assert_eq!(l.get_stats(AccountId(2)).unwrap().completed_payments, 1);
}

#[test]
fn expired_intent_is_refused() {
    let now: i64 = 1_000;
    let mut l = Ledger::new();
    let r = l.create_payment(&create_accounts(), 100, "p2".to_owned(), now - 1, now);
    assert_eq!(r, Ok(()));
    let r2 = l.process_payment(&process_accounts("p2"), 100, now, TransferOutcome::Succeeded);
    assert_eq!(r2, Err(ErrorCode::PaymentExpired));
    assert_eq!(l.get_payment(&"p2".to_owned()).unwrap().status, PaymentStatus::Pending);
    let st = l.get_stats(AccountId(2)).unwrap();
    assert_eq!(st.total_payments, 1);
    assert_eq!(st.completed_payments, 0);
    assert_eq!(st.total_volume, 100);
}

#[test]
fn expiry_boundary_is_inclusive() {
    // fulfillment must come strictly before expires_at
    let mut l = Ledger::new();
    l.create_payment(&create_accounts(), 100, "pb".to_owned(), 2_000, 1_000).unwrap();
    let r = l.process_payment(&process_accounts("pb"), 100, 2_000, TransferOutcome::Succeeded);
    assert_eq!(r, Err(ErrorCode::PaymentExpired));
    let r2 = l.process_payment(&process_accounts("pb"), 100, 1_999, TransferOutcome::Succeeded);
    assert_eq!(r2, Ok(()));
}

#[test]
fn duplicate_payment_id_is_refused() {
    let mut l = Ledger::new();
    let r = l.create_payment(&create_accounts(), 500, "dup".to_owned(), 5_000, 1_000);
    assert_eq!(r, Ok(()));
    let other = CreatePayment { payer: AccountId(4), recipient: AccountId(5), mint: AccountId(6) };
    let r2 = l.create_payment(&other, 999, "dup".to_owned(), 9_000, 2_000);
    assert_eq!(r2, Err(ErrorCode::DuplicatePaymentId));
    // the original record is unmodified
    let p = l.get_payment(&"dup".to_owned()).unwrap();
    assert_eq!(p.amount, 500);
    assert_eq!(p.recipient, AccountId(2));
    assert_eq!(p.expires_at, 5_000);
    // and the second registration touched no statistics
    assert!(l.get_stats(AccountId(5)).is_none());
    assert_eq!(l.get_stats(AccountId(2)).unwrap().total_payments, 1);
}

#[test]
fn amount_mismatch_is_refused() {
    let mut l = Ledger::new();
    l.create_payment(&create_accounts(), 500, "pa".to_owned(), 5_000, 1_000).unwrap();
    let r = l.process_payment(&process_accounts("pa"), 499, 1_500, TransferOutcome::Succeeded);
    assert_eq!(r, Err(ErrorCode::AmountMismatch));
    let r2 = l.process_payment(&process_accounts("pa"), 501, 1_500, TransferOutcome::Succeeded);
    assert_eq!(r2, Err(ErrorCode::AmountMismatch));
    assert_eq!(l.get_payment(&"pa".to_owned()).unwrap().status, PaymentStatus::Pending);
    assert_eq!(l.get_stats(AccountId(2)).unwrap().completed_payments, 0);
    // the exact registered amount still goes through
    let r3 = l.process_payment(&process_accounts("pa"), 500, 1_500, TransferOutcome::Succeeded);
    assert_eq!(r3, Ok(()));
}

#[test]
fn identity_mismatch_is_refused() {
    let mut l = Ledger::new();
    l.create_payment(&create_accounts(), 500, "pi".to_owned(), 5_000, 1_000).unwrap();
    let wrong_recipient = ProcessPayment {
        payment_id: "pi".to_owned(),
        payer: AccountId(9),
        recipient: AccountId(22),
        mint: AccountId(3),
    };
    let r = l.process_payment(&wrong_recipient, 500, 1_500, TransferOutcome::Succeeded);
    assert_eq!(r, Err(ErrorCode::IdentityMismatch));
    let wrong_mint = ProcessPayment {
        payment_id: "pi".to_owned(),
        payer: AccountId(9),
        recipient: AccountId(2),
        mint: AccountId(33),
    };
    let r2 = l.process_payment(&wrong_mint, 500, 1_500, TransferOutcome::Succeeded);
    assert_eq!(r2, Err(ErrorCode::IdentityMismatch));
    assert_eq!(l.get_payment(&"pi".to_owned()).unwrap().status, PaymentStatus::Pending);
}

#[test]
fn missing_record_is_refused() {
    let mut l = Ledger::new();
    let r = l.process_payment(&process_accounts("nowhere"), 1, 1_000, TransferOutcome::Succeeded);
    assert_eq!(r, Err(ErrorCode::InvalidPaymentStatus));
}

#[test]
fn declined_transfer_changes_nothing() {
    let mut l = Ledger::new();
    l.create_payment(&create_accounts(), 500, "pd".to_owned(), 5_000, 1_000).unwrap();
    let r = l.process_payment(&process_accounts("pd"), 500, 1_500, TransferOutcome::Declined);
    assert_eq!(r, Err(ErrorCode::TransferFailed));
    assert_eq!(l.get_payment(&"pd".to_owned()).unwrap().status, PaymentStatus::Pending);
    let st = l.get_stats(AccountId(2)).unwrap();
    assert_eq!(st.completed_payments, 0);
    assert_eq!(st.total_payments, 1);
    // once the service accepts, the same fulfillment goes through
    let r2 = l.process_payment(&process_accounts("pd"), 500, 1_500, TransferOutcome::Succeeded);
    assert_eq!(r2, Ok(()));
    assert_eq!(l.get_stats(AccountId(2)).unwrap().completed_payments, 1);
}

#[test]
fn stats_accumulate_per_recipient() {
    let mut l = Ledger::new();
    let a = create_accounts();
    l.create_payment(&a, 10, "s1".to_owned(), 5_000, 1_000).unwrap();
    l.create_payment(&a, 20, "s2".to_owned(), 5_000, 1_100).unwrap();
    l.create_payment(&a, 30, "s3".to_owned(), 5_000, 1_200).unwrap();
    let other = CreatePayment { payer: AccountId(1), recipient: AccountId(8), mint: AccountId(3) };
    l.create_payment(&other, 1_000, "s4".to_owned(), 5_000, 1_300).unwrap();

    let st = l.get_stats(AccountId(2)).unwrap();
    assert_eq!(st.total_payments, 3);
    assert_eq!(st.total_volume, 60);
    assert_eq!(st.completed_payments, 0);

    let st8 = l.get_stats(AccountId(8)).unwrap();
    assert_eq!(st8.total_payments, 1);
    assert_eq!(st8.total_volume, 1_000);

    let r = l.process_payment(&process_accounts("s2"), 20, 1_500, TransferOutcome::Succeeded);
    assert_eq!(r, Ok(()));
    let st2 = l.get_stats(AccountId(2)).unwrap();
    assert_eq!(st2.total_payments, 3);
    assert_eq!(st2.total_volume, 60);
    assert_eq!(st2.completed_payments, 1);
    // the other recipient's entry is untouched
    assert_eq!(l.get_stats(AccountId(8)).unwrap().completed_payments, 0);
}

#[test]
fn maximal_amount_registers() {
    let mut l = Ledger::new();
    let r = l.create_payment(&create_accounts(), u64::MAX, "big".to_owned(), 5_000, 1_000);
    assert_eq!(r, Ok(()));
    let st = l.get_stats(AccountId(2)).unwrap();
    assert_eq!(st.total_volume, u64::MAX);
    assert_eq!(st.total_payments, 1);
}

#[test]
fn empty_identifier_is_still_a_key() {
    let mut l = Ledger::new();
    let r = l.create_payment(&create_accounts(), 5, "".to_owned(), 5_000, 1_000);
    assert_eq!(r, Ok(()));
    assert_eq!(l.get_payment(&"".to_owned()).unwrap().amount, 5);
    let r2 = l.create_payment(&create_accounts(), 6, "".to_owned(), 5_000, 1_000);
    assert_eq!(r2, Err(ErrorCode::DuplicatePaymentId));
}

#[test]
fn unknown_lookups_are_none() {
    let l = Ledger::new();
    assert!(l.get_payment(&"p1".to_owned()).is_none());
    assert!(l.get_stats(AccountId(2)).is_none());
    assert!(l.vault_state().is_none());
}
