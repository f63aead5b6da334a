//! The record store and the payment processing engine.
//!
//! A [`Ledger`] owns the three record kinds: the singleton vault registry,
//! one payment record per registered intent, and one statistics record per
//! recipient.  Each operation is one atomic unit: it either commits all of
//! its effects or returns an error and leaves the ledger exactly as it
//! was.  The external collaborators stay outside: the caller reads the
//! clock and passes `now`, and the asset-transfer service's verdict enters
//! [`Ledger::process_payment`] as a [`TransferOutcome`].

use crate::model::{
    completed_count, comp_contrib, has_payment, has_stats, lemma_aggregates_absent,
    lemma_aggregates_push, lemma_aggregates_update, lemma_completed_lt_of_uncompleted,
    lemma_payment_of_at, lemma_payment_of_push, lemma_payment_of_update, lemma_stats_of_at,
    payment_ids_unique, payment_index, payment_of, registered_count, registered_volume,
    reg_contrib, stats_entry_consistent, stats_of, stats_recipients_unique, with_completed_status,
    StatsEntry,
};
use crate::types::{
    AccountId, CreatePayment, ErrorCode, InitializeVault, Payment, PaymentStatus, ProcessPayment,
    TransferOrder, TransferOutcome, UserStats, VaultState,
};
use vstd::prelude::*;

verus! {

/// What an intent registration decides, given the records that exist:
/// the identifier must be free.
pub open spec fn register_outcome(ps: Seq<Payment>, id: Seq<char>) -> Result<(), ErrorCode> {
    if has_payment(ps, id) {
        Err(ErrorCode::DuplicatePaymentId)
    } else {
        Ok(())
    }
}

/// The fulfillment preconditions, checked in order: the record exists and
/// is `Pending`; the supplied amount equals the registered amount; the
/// current time is strictly before the expiry; the supplied recipient and
/// asset identities match the record's.  The first failing check decides
/// the error.
pub open spec fn fulfill_checks(
    ps: Seq<Payment>,
    id: Seq<char>,
    amount: u64,
    recipient: AccountId,
    mint: AccountId,
    now: i64,
) -> Result<(), ErrorCode> {
    match payment_of(ps, id) {
        Option::None => Err(ErrorCode::InvalidPaymentStatus),
        Option::Some(p) => if !(p.status is Pending) {
            Err(ErrorCode::InvalidPaymentStatus)
        } else if p.amount != amount {
            Err(ErrorCode::AmountMismatch)
        } else if now >= p.expires_at {
            Err(ErrorCode::PaymentExpired)
        } else if p.recipient != recipient || p.mint != mint {
            Err(ErrorCode::IdentityMismatch)
        } else {
            Ok(())
        },
    }
}

/// What a fulfillment decides: the preconditions in order, and then the
/// transfer service's verdict.  A declined transfer aborts the operation.
pub open spec fn fulfill_outcome(
    ps: Seq<Payment>,
    id: Seq<char>,
    amount: u64,
    recipient: AccountId,
    mint: AccountId,
    now: i64,
    outcome: TransferOutcome,
) -> Result<(), ErrorCode> {
    match fulfill_checks(ps, id, amount, recipient, mint, now) {
        Err(e) => Err(e),
        Ok(u) => if outcome is Succeeded {
            Ok(())
        } else {
            Err(ErrorCode::TransferFailed)
        },
    }
}

/// The transfer order a fulfillment issues when its preconditions hold,
/// and the error it refuses with otherwise.
pub open spec fn checks_to_order(
    c: Result<(), ErrorCode>,
    payer: AccountId,
    recipient: AccountId,
    mint: AccountId,
    amount: u64,
) -> Result<TransferOrder, ErrorCode> {
    match c {
        Ok(u) => Ok(TransferOrder { from: payer, to: recipient, mint, amount }),
        Err(e) => Err(e),
    }
}

/// The record store: the vault registry, the payment records in order of
/// registration, and one statistics entry per recipient.
///
/// The fields are exposed for inspection; mutate the ledger only through
/// its operations, which maintain [`Ledger::inv`].
pub struct Ledger {
    pub vault: Option<VaultState>,
    pub payments: Vec<Payment>,
    pub stats: Vec<StatsEntry>,
}

impl Ledger {
    /// Well-formedness: payment identifiers are unique (each record is
    /// alone at its derived address), statistics entries are keyed by
    /// distinct recipients, every registered recipient has an entry, and
    /// every entry agrees with the payment records.
    pub open spec fn inv(self) -> bool {
        &&& payment_ids_unique(self.payments@)
        &&& stats_recipients_unique(self.stats@)
        &&& forall|i: int|
            0 <= i < self.payments@.len() ==> has_stats(
                self.stats@,
                (#[trigger] self.payments@[i]).recipient,
            )
        &&& forall|j: int|
            0 <= j < self.stats@.len() ==> stats_entry_consistent(
                self.payments@,
                #[trigger] self.stats@[j],
            )
    }

    /// An empty ledger: no vault, no records.
    pub fn new() -> (r: Ledger)
        ensures
            r.inv(),
            r.vault is None,
            r.payments@ == Seq::<Payment>::empty(),
            r.stats@ == Seq::<StatsEntry>::empty(),
    {
        Ledger { vault: None, payments: Vec::new(), stats: Vec::new() }
    }

    /// One-time setup of the vault registry: the caller becomes the
    /// system's authority and the disambiguation byte is recorded.  Fails
    /// with `AlreadyInitialized`, and changes nothing, if the registry
    /// already exists.
    pub fn initialize_vault(&mut self, accounts: &InitializeVault, bump: u8) -> (r: Result<
        (),
        ErrorCode,
    >)
        ensures
            old(self).vault is Some ==> r == Err::<(), ErrorCode>(ErrorCode::AlreadyInitialized),
            old(self).vault is None ==> r == Ok::<(), ErrorCode>(()),
            r is Err ==> *final(self) == *old(self),
            r is Ok ==> final(self).vault == Some(
                VaultState { bump, authority: accounts.authority },
            ),
            final(self).payments@ == old(self).payments@,
            final(self).stats@ == old(self).stats@,
            old(self).inv() ==> final(self).inv(),
    {
        if self.vault.is_some() {
            return Err(ErrorCode::AlreadyInitialized);
        }
        self.vault = Some(VaultState { bump, authority: accounts.authority });
        Ok(())
    }

    /// The index of the payment record carrying `payment_id`, if any.
    fn find_payment(&self, payment_id: &String) -> (r: Option<usize>)
        ensures
            match r {
                Option::Some(i) => i < self.payments@.len() && self.payments@[i as int].payment_id@
                    == payment_id@,
                Option::None => !has_payment(self.payments@, payment_id@),
            },
    {
        let n = self.payments.len();
        let mut i: usize = 0;
        while i < n
            invariant
                n == self.payments@.len(),
                i <= n,
                forall|k: int| 0 <= k < i ==> (#[trigger] self.payments@[k]).payment_id@
                    != payment_id@,
            decreases n - i,
        {
            if self.payments[i].payment_id == *payment_id {
                return Some(i);
            }
            i += 1;
        }
        None
    }

    /// Register a payment intent, atomically: create the payment record
    /// with status `Pending` at the address derived from `payment_id`, and
    /// create-or-touch the recipient's statistics entry, adding one to
    /// their registered count and `amount` to their registered volume.
    /// (A first registration creates the entry; a later one finds and
    /// increments it.)  Fails with `DuplicatePaymentId`, and changes
    /// nothing, if a record already carries `payment_id`.
    ///
    /// The two bounds in the precondition are machine limits: the
    /// recipient's counters live in 64-bit fields.
    pub fn create_payment(
        &mut self,
        accounts: &CreatePayment,
        amount: u64,
        payment_id: String,
        expiry: i64,
        now: i64,
    ) -> (r: Result<(), ErrorCode>)
        requires
            old(self).inv(),
            registered_count(old(self).payments@, accounts.recipient) + 1 <= u64::MAX,
            registered_volume(old(self).payments@, accounts.recipient) + amount <= u64::MAX,
        ensures
            final(self).inv(),
            r == register_outcome(old(self).payments@, payment_id@),
            r is Err ==> *final(self) == *old(self),
            r is Ok ==> final(self).payments@ == old(self).payments@.push(
                Payment {
                    amount,
                    recipient: accounts.recipient,
                    mint: accounts.mint,
                    status: PaymentStatus::Pending,
                    payment_id,
                    created_at: now,
                    expires_at: expiry,
                },
            ),
            r is Ok ==> payment_of(final(self).payments@, payment_id@) == Some(
                Payment {
                    amount,
                    recipient: accounts.recipient,
                    mint: accounts.mint,
                    status: PaymentStatus::Pending,
                    payment_id,
                    created_at: now,
                    expires_at: expiry,
                },
            ),
            forall|id2: Seq<char>| id2 != payment_id@ ==> #[trigger] payment_of(
                final(self).payments@,
                id2,
            ) == payment_of(old(self).payments@, id2),
            r is Ok ==> stats_of(final(self).stats@, accounts.recipient) == Some(
                UserStats {
                    total_payments: (registered_count(old(self).payments@, accounts.recipient)
                        + 1) as u64,
                    completed_payments: completed_count(
                        old(self).payments@,
                        accounts.recipient,
                    ) as u64,
                    total_volume: (registered_volume(old(self).payments@, accounts.recipient)
                        + amount) as u64,
                },
            ),
            forall|r2: AccountId| r2 != accounts.recipient ==> #[trigger] stats_of(
                final(self).stats@,
                r2,
            ) == stats_of(old(self).stats@, r2),
            final(self).vault == old(self).vault,
    {
        if self.find_payment(&payment_id).is_some() {
            return Err(ErrorCode::DuplicatePaymentId);
        }
        let p = Payment {
            amount,
            recipient: accounts.recipient,
            mint: accounts.mint,
            status: PaymentStatus::Pending,
            payment_id,
            created_at: now,
            expires_at: expiry,
        };
        let ghost gp = p;
        let ghost old_ps = self.payments@;
        let ghost old_ss = self.stats@;
        proof {
            lemma_payment_of_push(old_ps, gp);
            lemma_aggregates_push(old_ps, gp);
        }
        self.payments.push(p);
        let ghost new_ps = self.payments@;
        match self.find_stats(accounts.recipient) {
            Option::Some(j) => {
                let e = self.stats[j];
                proof {
                    lemma_stats_of_at(old_ss, j as int);
                }
                self.stats[j] = StatsEntry {
                    recipient: e.recipient,
                    stats: UserStats {
                        total_payments: e.stats.total_payments + 1,
                        completed_payments: e.stats.completed_payments,
                        total_volume: e.stats.total_volume + amount,
                    },
                };
                proof {
                    let new_ss = self.stats@;
                    assert forall|k: int| 0 <= k < new_ss.len() implies (#[trigger] new_ss[k]).recipient
                        == old_ss[k].recipient by {}
                    assert forall|i: int, k: int| 0 <= i < k < new_ss.len() implies
                        (#[trigger] new_ss[i]).recipient != (#[trigger] new_ss[k]).recipient by {
                        assert(old_ss[i].recipient != old_ss[k].recipient);
                    }
                    assert forall|i: int| 0 <= i < new_ps.len() implies has_stats(
                        new_ss,
                        (#[trigger] new_ps[i]).recipient,
                    ) by {
                        if i < old_ps.len() {
                            assert(new_ps[i] == old_ps[i]);
                            assert(has_stats(old_ss, old_ps[i].recipient));
                            let k = choose|k: int| 0 <= k < old_ss.len()
                                && (#[trigger] old_ss[k]).recipient == old_ps[i].recipient;
                            assert(new_ss[k].recipient == old_ps[i].recipient);
                        } else {
                            assert(new_ps[i] == gp);
                            assert(new_ss[j as int].recipient == gp.recipient);
                        }
                    }
                    assert forall|k: int| 0 <= k < new_ss.len() implies stats_entry_consistent(
                        new_ps,
                        #[trigger] new_ss[k],
                    ) by {
                        if k == j as int {
                            assert(stats_entry_consistent(old_ps, old_ss[k]));
                        } else {
                            assert(new_ss[k] == old_ss[k]);
                            assert(stats_entry_consistent(old_ps, old_ss[k]));
                            assert(old_ss[k].recipient != old_ss[j as int].recipient);
                            assert(reg_contrib(gp, old_ss[k].recipient) == 0);
                        }
                    }
                    lemma_stats_of_at(self.stats@, j as int);
                    assert forall|r2: AccountId| r2 != accounts.recipient implies #[trigger] stats_of(
                        self.stats@,
                        r2,
                    ) == stats_of(old_ss, r2) by {
                        if has_stats(old_ss, r2) {
                            let k = choose|k: int| 0 <= k < old_ss.len()
                                && (#[trigger] old_ss[k]).recipient == r2;
                            lemma_stats_of_at(old_ss, k);
                            assert(k != j as int);
                            assert(self.stats@[k] == old_ss[k]);
                            lemma_stats_of_at(self.stats@, k);
                        } else {
                            assert forall|k: int| 0 <= k < self.stats@.len() implies
                                (#[trigger] self.stats@[k]).recipient != r2 by {
                                assert(old_ss[k].recipient == self.stats@[k].recipient);
                                assert(has_stats(old_ss, old_ss[k].recipient));
                            }
                        }
                    }
                }
                Ok(())
            },
            Option::None => {
                proof {
                    assert forall|i: int| 0 <= i < old_ps.len() implies (#[trigger] old_ps[i]).recipient
                        != accounts.recipient by {
                        assert(has_stats(old_ss, old_ps[i].recipient));
                    }
                    lemma_aggregates_absent(old_ps, accounts.recipient);
                }
                self.stats.push(
                    StatsEntry {
                        recipient: accounts.recipient,
                        stats: UserStats {
                            total_payments: 1,
                            completed_payments: 0,
                            total_volume: amount,
                        },
                    },
                );
                proof {
                    let new_ss = self.stats@;
                    let ghost ne = StatsEntry {
                        recipient: accounts.recipient,
                        stats: UserStats {
                            total_payments: 1,
                            completed_payments: 0,
                            total_volume: amount,
                        },
                    };
                    assert(new_ss == old_ss.push(ne));
                    assert forall|i: int, k: int| 0 <= i < k < new_ss.len() implies
                        (#[trigger] new_ss[i]).recipient != (#[trigger] new_ss[k]).recipient by {
                        if k < old_ss.len() {
                            assert(new_ss[i] == old_ss[i] && new_ss[k] == old_ss[k]);
                        } else {
                            assert(new_ss[k] == ne && new_ss[i] == old_ss[i]);
                            assert(has_stats(old_ss, old_ss[i].recipient));
                        }
                    }
                    assert forall|i: int| 0 <= i < new_ps.len() implies has_stats(
                        new_ss,
                        (#[trigger] new_ps[i]).recipient,
                    ) by {
                        if i < old_ps.len() {
                            assert(new_ps[i] == old_ps[i]);
                            assert(has_stats(old_ss, old_ps[i].recipient));
                            let k = choose|k: int| 0 <= k < old_ss.len()
                                && (#[trigger] old_ss[k]).recipient == old_ps[i].recipient;
                            assert(new_ss[k].recipient == old_ps[i].recipient);
                        } else {
                            assert(new_ps[i] == gp);
                            assert(new_ss[old_ss.len() as int].recipient == gp.recipient);
                        }
                    }
                    assert forall|k: int| 0 <= k < new_ss.len() implies stats_entry_consistent(
                        new_ps,
                        #[trigger] new_ss[k],
                    ) by {
                        if k < old_ss.len() {
                            assert(new_ss[k] == old_ss[k]);
                            assert(stats_entry_consistent(old_ps, old_ss[k]));
                            assert(has_stats(old_ss, old_ss[k].recipient));
                            assert(old_ss[k].recipient != accounts.recipient);
                            assert(reg_contrib(gp, old_ss[k].recipient) == 0);
                        } else {
                            assert(new_ss[k] == ne);
                        }
                    }
                    lemma_stats_of_at(new_ss, old_ss.len() as int);
                    assert forall|r2: AccountId| r2 != accounts.recipient implies #[trigger] stats_of(
                        new_ss,
                        r2,
                    ) == stats_of(old_ss, r2) by {
                        if has_stats(old_ss, r2) {
                            let k = choose|k: int| 0 <= k < old_ss.len()
                                && (#[trigger] old_ss[k]).recipient == r2;
                            lemma_stats_of_at(old_ss, k);
                            assert(new_ss[k] == old_ss[k]);
                            lemma_stats_of_at(new_ss, k);
                        } else {
                            assert forall|k: int| 0 <= k < new_ss.len() implies
                                (#[trigger] new_ss[k]).recipient != r2 by {
                                if k < old_ss.len() {
                                    assert(new_ss[k] == old_ss[k]);
                                    assert(has_stats(old_ss, old_ss[k].recipient));
                                } else {
                                    assert(new_ss[k] == ne);
                                }
                            }
                        }
                    }
                }
                Ok(())
            },
        }
    }

    /// Check the fulfillment preconditions and, when they all hold, issue
    /// the transfer order the caller must put to the asset-transfer
    /// service: move `amount` of the record's asset from the payer to the
    /// recipient, under the payer's authorization.  Nothing is mutated;
    /// the caller reports the service's verdict to
    /// [`Ledger::process_payment`].
    pub fn prepare_transfer(&self, accounts: &ProcessPayment, amount: u64, now: i64) -> (r: Result<
        TransferOrder,
        ErrorCode,
    >)
        requires
            self.inv(),
        ensures
            r == checks_to_order(
                fulfill_checks(
                    self.payments@,
                    accounts.payment_id@,
                    amount,
                    accounts.recipient,
                    accounts.mint,
                    now,
                ),
                accounts.payer,
                accounts.recipient,
                accounts.mint,
                amount,
            ),
    {
        let i = match self.find_payment(&accounts.payment_id) {
            Option::Some(i) => i,
            Option::None => {
                return Err(ErrorCode::InvalidPaymentStatus);
            },
        };
        proof {
            lemma_payment_of_at(self.payments@, i as int);
        }
        let status_pending = match self.payments[i].status {
            PaymentStatus::Pending => true,
            _ => false,
        };
        if !status_pending {
            return Err(ErrorCode::InvalidPaymentStatus);
        }
        if self.payments[i].amount != amount {
            return Err(ErrorCode::AmountMismatch);
        }
        if now >= self.payments[i].expires_at {
            return Err(ErrorCode::PaymentExpired);
        }
        if self.payments[i].recipient != accounts.recipient || self.payments[i].mint
            != accounts.mint {
            return Err(ErrorCode::IdentityMismatch);
        }
        Ok(
            TransferOrder {
                from: accounts.payer,
                to: accounts.recipient,
                mint: accounts.mint,
                amount,
            },
        )
    }

    /// Fulfill a payment intent, atomically with its precondition checks:
    /// when the record is `Pending`, the amount matches, the expiry has
    /// not been reached, the identities match, and the asset-transfer
    /// service reported success, set the record's status to `Completed`
    /// and add one to the recipient's completed count.  Any failed check,
    /// and a declined transfer, aborts the whole operation: no status
    /// change, no statistics change.
    pub fn process_payment(
        &mut self,
        accounts: &ProcessPayment,
        amount: u64,
        now: i64,
        outcome: TransferOutcome,
    ) -> (r: Result<(), ErrorCode>)
        requires
            old(self).inv(),
        ensures
            final(self).inv(),
            r == fulfill_outcome(
                old(self).payments@,
                accounts.payment_id@,
                amount,
                accounts.recipient,
                accounts.mint,
                now,
                outcome,
            ),
            r is Err ==> *final(self) == *old(self),
            r is Ok ==> final(self).payments@ == old(self).payments@.update(
                payment_index(old(self).payments@, accounts.payment_id@),
                with_completed_status(
                    payment_of(old(self).payments@, accounts.payment_id@).unwrap(),
                ),
            ),
            r is Ok ==> payment_of(final(self).payments@, accounts.payment_id@) == Some(
                with_completed_status(
                    payment_of(old(self).payments@, accounts.payment_id@).unwrap(),
                ),
            ),
            forall|id2: Seq<char>| id2 != accounts.payment_id@ ==> #[trigger] payment_of(
                final(self).payments@,
                id2,
            ) == payment_of(old(self).payments@, id2),
            r is Ok ==> stats_of(final(self).stats@, accounts.recipient) == Some(
                UserStats {
                    total_payments: stats_of(
                        old(self).stats@,
                        accounts.recipient,
                    ).unwrap().total_payments,
                    completed_payments: (stats_of(
                        old(self).stats@,
                        accounts.recipient,
                    ).unwrap().completed_payments + 1) as u64,
                    total_volume: stats_of(
                        old(self).stats@,
                        accounts.recipient,
                    ).unwrap().total_volume,
                },
            ),
            forall|r2: AccountId| r2 != accounts.recipient ==> #[trigger] stats_of(
                final(self).stats@,
                r2,
            ) == stats_of(old(self).stats@, r2),
            final(self).vault == old(self).vault,
    {
        let i = match self.find_payment(&accounts.payment_id) {
            Option::Some(i) => i,
            Option::None => {
                return Err(ErrorCode::InvalidPaymentStatus);
            },
        };
        proof {
            lemma_payment_of_at(self.payments@, i as int);
        }
        let status_pending = match self.payments[i].status {
            PaymentStatus::Pending => true,
            _ => false,
        };
        if !status_pending {
            return Err(ErrorCode::InvalidPaymentStatus);
        }
        if self.payments[i].amount != amount {
            return Err(ErrorCode::AmountMismatch);
        }
        if now >= self.payments[i].expires_at {
            return Err(ErrorCode::PaymentExpired);
        }
        if self.payments[i].recipient != accounts.recipient || self.payments[i].mint
            != accounts.mint {
            return Err(ErrorCode::IdentityMismatch);
        }
        let transfer_ok = match outcome {
            TransferOutcome::Succeeded => true,
            TransferOutcome::Declined => false,
        };
        if !transfer_ok {
            return Err(ErrorCode::TransferFailed);
        }
        let ghost old_ps = self.payments@;
        let ghost old_ss = self.stats@;
        proof {
            // the record's recipient has a statistics entry, by the invariant
            assert(0 <= (i as int) < old_ps.len() && old_ps[i as int].recipient
                == accounts.recipient);
            assert(has_stats(old_ss, accounts.recipient));
        }
        let j = match self.find_stats(accounts.recipient) {
            Option::Some(j) => j,
            Option::None => unreached(),
        };
        let ghost cp = with_completed_status(old_ps[i as int]);
        let pmt = &mut self.payments[i];
        pmt.status = PaymentStatus::Completed;
        proof {
            assert(self.payments@ == old_ps.update(i as int, cp));
            lemma_payment_of_update(old_ps, i as int, cp);
        }
        let e = self.stats[j];
        proof {
            lemma_stats_of_at(old_ss, j as int);
            lemma_completed_lt_of_uncompleted(old_ps, accounts.recipient, i as int);
        }
        self.stats[j] = StatsEntry {
            recipient: e.recipient,
            stats: UserStats {
                total_payments: e.stats.total_payments,
                completed_payments: e.stats.completed_payments + 1,
                total_volume: e.stats.total_volume,
            },
        };
        proof {
            let new_ps = self.payments@;
            let new_ss = self.stats@;
            assert forall|a: int, b: int| 0 <= a < b < new_ss.len() implies
                (#[trigger] new_ss[a]).recipient != (#[trigger] new_ss[b]).recipient by {
                assert(old_ss[a].recipient != old_ss[b].recipient);
            }
            assert forall|k: int| 0 <= k < new_ps.len() implies has_stats(
                new_ss,
                (#[trigger] new_ps[k]).recipient,
            ) by {
                assert(new_ps[k].recipient == old_ps[k].recipient);
                assert(has_stats(old_ss, old_ps[k].recipient));
                let m = choose|m: int| 0 <= m < old_ss.len() && (#[trigger] old_ss[m]).recipient
                    == old_ps[k].recipient;
                assert(new_ss[m].recipient == old_ps[k].recipient);
            }
            assert forall|k: int| 0 <= k < new_ss.len() implies stats_entry_consistent(
                new_ps,
                #[trigger] new_ss[k],
            ) by {
                lemma_aggregates_update(old_ps, i as int, cp, old_ss[k].recipient);
                assert(stats_entry_consistent(old_ps, old_ss[k]));
                if k == j as int {
                    assert(comp_contrib(old_ps[i as int], accounts.recipient) == 0);
                    assert(comp_contrib(cp, accounts.recipient) == 1);
                } else {
                    assert(new_ss[k] == old_ss[k]);
                    assert(old_ss[k].recipient != old_ss[j as int].recipient);
                    assert(comp_contrib(old_ps[i as int], old_ss[k].recipient) == 0);
                    assert(comp_contrib(cp, old_ss[k].recipient) == 0);
                }
            }
            lemma_stats_of_at(new_ss, j as int);
            assert forall|r2: AccountId| r2 != accounts.recipient implies #[trigger] stats_of(
                new_ss,
                r2,
            ) == stats_of(old_ss, r2) by {
                if has_stats(old_ss, r2) {
                    let k = choose|k: int| 0 <= k < old_ss.len() && (#[trigger] old_ss[k]).recipient
                        == r2;
                    lemma_stats_of_at(old_ss, k);
                    assert(k != j as int);
                    assert(new_ss[k] == old_ss[k]);
                    lemma_stats_of_at(new_ss, k);
                } else {
                    assert forall|k: int| 0 <= k < new_ss.len() implies
                        (#[trigger] new_ss[k]).recipient != r2 by {
                        assert(new_ss[k].recipient == old_ss[k].recipient);
                        assert(has_stats(old_ss, old_ss[k].recipient));
                    }
                }
            }
        }
        Ok(())
    }

    /// The payment record stored under `payment_id`, if any.
    pub fn get_payment(&self, payment_id: &String) -> (r: Option<&Payment>)
        requires
            self.inv(),
        ensures
            match r {
                Option::Some(p) => payment_of(self.payments@, payment_id@) == Some(*p),
                Option::None => payment_of(self.payments@, payment_id@) is None,
            },
    {
        match self.find_payment(payment_id) {
            Option::Some(i) => {
                proof {
                    lemma_payment_of_at(self.payments@, i as int);
                }
                Some(&self.payments[i])
            },
            Option::None => None,
        }
    }

    /// The statistics stored for `recipient`, if any.
    pub fn get_stats(&self, recipient: AccountId) -> (r: Option<&UserStats>)
        requires
            self.inv(),
        ensures
            match r {
                Option::Some(st) => stats_of(self.stats@, recipient) == Some(*st),
                Option::None => stats_of(self.stats@, recipient) is None,
            },
    {
        match self.find_stats(recipient) {
            Option::Some(j) => {
                proof {
                    lemma_stats_of_at(self.stats@, j as int);
                }
                Some(&self.stats[j].stats)
            },
            Option::None => None,
        }
    }

    /// The vault registry, if it has been initialized.
    pub fn vault_state(&self) -> (r: Option<&VaultState>)
        ensures
            match r {
                Option::Some(v) => self.vault == Some(*v),
                Option::None => self.vault is None,
            },
    {
        match &self.vault {
            Option::Some(v) => Some(v),
            Option::None => None,
        }
    }

    /// The index of the statistics entry keyed by `recipient`, if any.
    fn find_stats(&self, recipient: AccountId) -> (r: Option<usize>)
        ensures
            match r {
                Option::Some(j) => j < self.stats@.len() && self.stats@[j as int].recipient
                    == recipient,
                Option::None => !has_stats(self.stats@, recipient),
            },
    {
        let n = self.stats.len();
        let mut j: usize = 0;
        while j < n
            invariant
                n == self.stats@.len(),
                j <= n,
                forall|k: int| 0 <= k < j ==> (#[trigger] self.stats@[k]).recipient != recipient,
            decreases n - j,
        {
            if self.stats[j].recipient == recipient {
                return Some(j);
            }
            j += 1;
        }
        None
    }
}

} // verus!
