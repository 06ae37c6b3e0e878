use vstd::prelude::*;
use crate::error::Error;
use crate::ledger::Balance;
use crate::model::{PendingInvoice, Transaction, TransactionType};
use crate::referral::Referral;
use crate::store::Db;
use crate::text::{decimal, decimal_text, push_str};

verus! {

broadcast use vstd::std_specs::hash::group_hash_axioms;

/// Seconds that an invoice stays payable.
pub const INVOICE_TTL_SECS: i64 = 3600;

/// The state of an invoice at the payment provider.
#[derive(Debug, Clone, Copy, PartialEq, Eq, Structural)]
pub enum InvoiceStatus {
    Active,
    Paid,
    Expired,
}

/// An invoice as the payment provider reports it.
#[derive(Debug)]
pub struct Invoice {
    pub invoice_id: i64,
    pub hash: String,
    pub currency_type: String,
    pub asset: Option<String>,
    pub fiat: Option<String>,
    pub amount: String,
    pub paid_asset: Option<String>,
    pub paid_amount: Option<String>,
    pub paid_fiat_rate: Option<String>,
    pub accepted_assets: Option<Vec<String>>,
    pub fee_asset: Option<String>,
    pub fee_amount: Option<String>,
    pub fee: Option<String>,
    pub pay_url: String,
    pub bot_invoice_url: String,
    pub mini_app_invoice_url: Option<String>,
    pub web_app_invoice_url: Option<String>,
    pub description: Option<String>,
    pub status: InvoiceStatus,
    pub created_at: String,
    pub paid_usd_rate: Option<String>,
    pub usd_rate: Option<String>,
    pub allow_comments: bool,
    pub allow_anonymous: bool,
    pub expiration_date: Option<String>,
    pub paid_at: Option<String>,
    pub paid_anonymously: Option<bool>,
    pub comment: Option<String>,
    pub hidden_message: Option<String>,
    pub payload: Option<String>,
    pub paid_btn_name: Option<String>,
    pub paid_btn_url: Option<String>,
}

/// A deposit that a paid invoice produced.
#[derive(Debug, Clone, Copy, PartialEq, Eq, Structural)]
pub struct PaymentResult {
    pub invoice_id: i64,
    pub amount_nano: i64,
    pub user_id: i64,
    pub referrer_id: Option<i64>,
}

/// The status of the first invoice in `invs` with id `id`.
pub open spec fn status_of(invs: Seq<Invoice>, id: i64) -> Option<InvoiceStatus>
    decreases invs.len(),
{
    if invs.len() == 0 {
        None
    } else if invs[0].invoice_id == id {
        Some(invs[0].status)
    } else {
        status_of(invs.drop_first(), id)
    }
}

/// Whether some pending invoice has the id `id`.
pub open spec fn has_pending(ps: Seq<PendingInvoice>, id: i64) -> bool {
    exists|k: int| 0 <= k < ps.len() && (#[trigger] ps[k]).invoice_id == id
}

/// The pending invoices of `user` that are still payable at `now`, among the
/// last `n` counted from the end, newest first.
pub open spec fn open_for(ps: Seq<PendingInvoice>, user: i64, now: i64, n: int) -> Seq<PendingInvoice>
    decreases n,
{
    if n <= 0 || n > ps.len() {
        Seq::empty()
    } else {
        let rest = open_for(ps, user, now, n - 1);
        let p = ps[ps.len() - n];
        if p.user_id == user && p.expires_at > now {
            rest.push(p)
        } else {
            rest
        }
    }
}

/// `ps` without the invoices with id `id`.
pub open spec fn without(ps: Seq<PendingInvoice>, id: i64) -> Seq<PendingInvoice> {
    ps.filter(|p: PendingInvoice| p.invoice_id != id)
}

/// `ps` without the invoices that expired before `now`.
pub open spec fn unexpired(ps: Seq<PendingInvoice>, now: i64) -> Seq<PendingInvoice> {
    ps.filter(|p: PendingInvoice| p.expires_at >= now)
}

fn find_status(invs: &Vec<Invoice>, id: i64) -> (r: Option<InvoiceStatus>)
    ensures
        r == status_of(invs@, id),
{
    let mut i: usize = 0;
    proof {
        assert(invs@.subrange(0, invs@.len() as int) =~= invs@);
    }
    while i < invs.len()
        invariant
            i <= invs@.len(),
            status_of(invs@, id) == status_of(invs@.subrange(i as int, invs@.len() as int), id),
        decreases invs@.len() - i,
    {
        let ghost rest = invs@.subrange(i as int, invs@.len() as int);
        if invs[i].invoice_id == id {
            return Some(invs[i].status);
        }
        proof {
            assert(rest.drop_first() =~= invs@.subrange(i + 1, invs@.len() as int));
        }
        i = i + 1;
    }
    None
}

/// Pending invoices and what settles them: a paid invoice becomes one deposit
/// (and, if it names a referrer, a best-effort commission); an expired one is
/// dropped.
pub struct Payment;

impl Payment {
    pub fn new() -> (r: Payment) {
        Payment
    }

    /// Records an invoice of `amount_nano` that `user_id` may pay within the hour.
    pub fn save_pending(
        &self,
        db: &mut Db,
        invoice_id: i64,
        user_id: i64,
        amount_nano: i64,
        referrer_id: Option<i64>,
        now: i64,
    ) -> (r: Result<(), Error>)
        requires
            old(db).wf(),
        ensures
            final(db).wf(),
            r is Err ==> *final(db) == *old(db),
            has_pending(old(db).pending(), invoice_id) ==> (r matches Err(Error::InvalidArgs(_))),
            !has_pending(old(db).pending(), invoice_id) && amount_nano <= 0 ==> (r matches Err(Error::InvalidArgs(_))),
            !has_pending(old(db).pending(), invoice_id) && amount_nano > 0 && now > i64::MAX - INVOICE_TTL_SECS ==> r == Err::<(), Error>(Error::Overflow),
            !has_pending(old(db).pending(), invoice_id) && amount_nano > 0 && now <= i64::MAX - INVOICE_TTL_SECS ==> r is Ok
                && final(db).pending() == old(db).pending().push(
                PendingInvoice {
                    invoice_id,
                    user_id,
                    amount_nano,
                    referrer_id,
                    created_at: now,
                    expires_at: (now + INVOICE_TTL_SECS) as i64,
                },
            ) && final(db).users() == old(db).users() && final(db).txs() == old(db).txs(),
    {
        let mut i: usize = 0;
        while i < db.pending.len()
            invariant
                *db == *old(db),
                db.wf(),
                i <= db.pending().len(),
                forall|k: int| 0 <= k < i ==> (#[trigger] db.pending()[k]).invoice_id != invoice_id,
            decreases db.pending().len() - i,
        {
            if db.pending[i].invoice_id == invoice_id {
                return Err(Error::InvalidArgs("Invoice is already pending".to_owned()));
            }
            i = i + 1;
        }
        if amount_nano <= 0 {
            return Err(Error::InvalidArgs("Invoice amount must be positive".to_owned()));
        }
        if now > i64::MAX - INVOICE_TTL_SECS {
            return Err(Error::Overflow);
        }
        db.pending.push(
            PendingInvoice {
                invoice_id,
                user_id,
                amount_nano,
                referrer_id,
                created_at: now,
                expires_at: now + INVOICE_TTL_SECS,
            },
        );
        Ok(())
    }

    /// The invoices of `user_id` still payable at `now`, newest first.
    pub fn pending_by_user(&self, db: &Db, user_id: i64, now: i64) -> (r: Vec<PendingInvoice>)
        ensures
            r@ == open_for(db.pending(), user_id, now, db.pending().len() as int),
    {
        let mut r: Vec<PendingInvoice> = Vec::new();
        let mut i: usize = db.pending.len();
        while i > 0
            invariant
                i <= db.pending().len(),
                r@ == open_for(db.pending(), user_id, now, db.pending().len() - i),
            decreases i,
        {
            i = i - 1;
            let p = db.pending[i];
            if p.user_id == user_id && p.expires_at > now {
                r.push(p);
            }
        }
        r
    }

    /// Forgets the invoice `invoice_id`.
    pub fn delete_pending(&self, db: &mut Db, invoice_id: i64)
        requires
            old(db).wf(),
        ensures
            final(db).wf(),
            final(db).pending() == without(old(db).pending(), invoice_id),
            final(db).users() == old(db).users(),
            final(db).txs() == old(db).txs(),
            final(db).licenses() == old(db).licenses(),
    {
        let ghost ps = db.pending();
        let mut kept: Vec<PendingInvoice> = Vec::new();
        let mut i: usize = 0;
        while i < db.pending.len()
            invariant
                db.pending() == ps,
                i <= ps.len(),
                kept@ == without(ps.take(i as int), invoice_id),
            decreases ps.len() - i,
        {
            let p = db.pending[i];
            proof {
                assert(ps.take(i + 1).drop_last() =~= ps.take(i as int));
                ps.take(i as int).lemma_filter_push(p, |q: PendingInvoice| q.invoice_id != invoice_id);
                assert(ps.take(i as int).push(p) =~= ps.take(i + 1));
            }
            if p.invoice_id != invoice_id {
                kept.push(p);
            }
            i = i + 1;
        }
        proof {
            assert(ps.take(ps.len() as int) =~= ps);
        }
        db.pending = kept;
    }

    /// Drops the invoices that expired before `now`; returns how many.
    pub fn cleanup_expired(&self, db: &mut Db, now: i64) -> (r: u64)
        requires
            old(db).wf(),
        ensures
            final(db).wf(),
            final(db).pending() == unexpired(old(db).pending(), now),
            r == old(db).pending().len() - final(db).pending().len(),
            final(db).users() == old(db).users(),
            final(db).txs() == old(db).txs(),
    {
        let ghost ps = db.pending();
        let mut kept: Vec<PendingInvoice> = Vec::new();
        let mut i: usize = 0;
        while i < db.pending.len()
            invariant
                db.pending() == ps,
                i <= ps.len(),
                kept@ == unexpired(ps.take(i as int), now),
                kept@.len() <= i,
            decreases ps.len() - i,
        {
            let p = db.pending[i];
            proof {
                ps.take(i as int).lemma_filter_push(p, |q: PendingInvoice| q.expires_at >= now);
                assert(ps.take(i as int).push(p) =~= ps.take(i + 1));
            }
            if p.expires_at >= now {
                kept.push(p);
            }
            i = i + 1;
        }
        proof {
            assert(ps.take(ps.len() as int) =~= ps);
        }
        let removed = (db.pending.len() - kept.len()) as u64;
        db.pending = kept;
        removed
    }

    /// Settles one paid invoice: deposits its amount with a note naming it,
    /// credits its referrer on a best-effort basis, and forgets it.
    fn settle_paid(&self, db: &mut Db, p: PendingInvoice, now: i64) -> (r: Result<PaymentResult, Error>)
        requires
            old(db).wf(),
        ensures
            final(db).wf(),
            final(db).has_user(p.user_id) == old(db).has_user(p.user_id),
            extends(old(db).txs(), final(db).txs()),
            r == Err::<PaymentResult, Error>(Error::UserNotFound) ==> !old(db).has_user(p.user_id),
            (r matches Err(Error::InvalidArgs(_))) ==> p.amount_nano <= 0,
            r == Err::<PaymentResult, Error>(Error::Overflow) ==> final(db).has_user(p.user_id) && final(db).balance_of(
                p.user_id,
            ) + p.amount_nano > i64::MAX,
            r is Err ==> r == Err::<PaymentResult, Error>(Error::UserNotFound) || r == Err::<PaymentResult, Error>(
                Error::Overflow,
            ) || (r matches Err(Error::InvalidArgs(_))),
            r matches Ok(res) ==> {
                &&& res == (PaymentResult {
                    invoice_id: p.invoice_id,
                    amount_nano: p.amount_nano,
                    user_id: p.user_id,
                    referrer_id: p.referrer_id,
                })
                &&& final(db).txs().len() > old(db).txs().len()
                &&& deposit_row(final(db).txs()[old(db).txs().len() as int], p.user_id, p.amount_nano, p.invoice_id)
                &&& forall|j: int| old(db).txs().len() < j < final(db).txs().len() ==> (#[trigger] final(db).txs()[j]).tx_type
                    != TransactionType::Deposit
                &&& final(db).pending() == without(old(db).pending(), p.invoice_id)
            },
    {
        let ghost t0 = db.txs();
        let mut note = "CryptoBot deposit #".to_owned();
        push_str(&mut note, decimal_text(p.invoice_id).as_str());
        match Balance::new().deposit(db, p.user_id, p.amount_nano, Some(note), now) {
            Ok(_) => {},
            Err(e) => {
                proof { lemma_extends_step(t0, db.txs()); }
                return Err(e);
            },
        }
        let ghost t1 = db.txs();
        proof {
            lemma_extends_step(t0, t1);
        }
        match p.referrer_id {
            Some(referrer_id) => {
                let _ = Referral::new().record_sale(db, referrer_id, p.amount_nano, now);
            },
            None => {},
        }
        let ghost t2 = db.txs();
        proof {
            assert(t2 == t1 || (t2.drop_last() == t1 && t2.len() == t1.len() + 1 && t2.last().tx_type
                == TransactionType::ReferralBonus));
            lemma_extends_step(t1, t2);
            lemma_extends_trans(t0, t1, t2);
            assert(t2[t0.len() as int] == t1[t0.len() as int]);
            assert forall|j: int| t0.len() < j < t2.len() implies (#[trigger] t2[j]).tx_type != TransactionType::Deposit by {
                assert(j == t2.len() - 1);
            }
        }
        self.delete_pending(db, p.invoice_id);
        Ok(PaymentResult {
            invoice_id: p.invoice_id,
            amount_nano: p.amount_nano,
            user_id: p.user_id,
            referrer_id: p.referrer_id,
        })
    }

    /// Settles the invoices of `user_id` that are payable at `now` against
    /// `invoices`, the provider's report: each paid one is deposited once,
    /// with a note naming it, and forgotten, and its referrer credited on a
    /// best-effort basis; each expired one is forgotten; the rest wait. A failed
    /// deposit stops the run.
    pub fn check_and_process(&self, db: &mut Db, user_id: i64, invoices: &Vec<Invoice>, now: i64) -> (r:
        Result<Vec<PaymentResult>, Error>)
        requires
            old(db).wf(),
        ensures
            final(db).wf(),
            ({
                let open = open_for(old(db).pending(), user_id, now, old(db).pending().len() as int);
                &&& open.len() == 0 ==> (r matches Ok(res) && res@.len() == 0) && *final(db) == *old(db)
                &&& extends(old(db).txs(), final(db).txs())
                &&& r == Err::<Vec<PaymentResult>, Error>(Error::UserNotFound) ==> !old(db).has_user(user_id)
                &&& (r matches Err(Error::InvalidArgs(_))) ==> exists|k: int|
                    0 <= k < open.len() && (#[trigger] open[k]).amount_nano <= 0
                &&& r is Err ==> exists|k: int| 0 <= k < open.len() && status_of(invoices@, (#[trigger] open[k]).invoice_id)
                    == Some(InvoiceStatus::Paid)
                &&& r == Err::<Vec<PaymentResult>, Error>(Error::Overflow) ==> exists|k: int|
                    0 <= k < open.len() && status_of(invoices@, (#[trigger] open[k]).invoice_id) == Some(InvoiceStatus::Paid)
                        && final(db).has_user(user_id) && final(db).balance_of(user_id) + open[k].amount_nano > i64::MAX
                &&& r is Err ==> r == Err::<Vec<PaymentResult>, Error>(Error::UserNotFound) || r == Err::<
                    Vec<PaymentResult>,
                    Error,
                >(Error::Overflow) || (r matches Err(Error::InvalidArgs(_)))
                &&& r matches Ok(res) ==> {
                    &&& rows_cover(old(db).txs().len() as int, final(db).txs(), res@, user_id)
                    &&& rows_only(old(db).txs().len() as int, final(db).txs(), res@, user_id)
                    &&& results_sound(res@, open, invoices@, final(db).pending(), user_id)
                    &&& settled_upto(open, open.len() as int, invoices@, final(db).pending())
                    &&& paid_listed(open, open.len() as int, invoices@, res@)
                    &&& active_kept(open, invoices@, final(db).pending())
                }
            }),
    {
        let pend = self.pending_by_user(db, user_id, now);
        let mut results: Vec<PaymentResult> = Vec::new();
        let ghost t_old = db.txs();
        let ghost open = pend@;
        proof {
            lemma_loop_start(old(db).pending(), user_id, now, t_old, invoices@, open);
        }
        if pend.len() == 0 {
            proof {
                reveal(settled_upto);
                reveal(paid_listed);
            }
            return Ok(results);
        }
        let mut i: usize = 0;
        while i < pend.len()
            invariant
                db.wf(),
                open == pend@,
                open == open_for(old(db).pending(), user_id, now, old(db).pending().len() as int),
                i <= open.len(),
                t_old == old(db).txs(),
                db.has_user(user_id) == old(db).has_user(user_id),
                extends(t_old, db.txs()),
                rows_cover(t_old.len() as int, db.txs(), results@, user_id),
                rows_only(t_old.len() as int, db.txs(), results@, user_id),
                results_sound(results@, open, invoices@, db.pending(), user_id),
                settled_upto(open, i as int, invoices@, db.pending()),
                paid_listed(open, i as int, invoices@, results@),
                active_kept(open, invoices@, db.pending()),
            decreases open.len() - i,
        {
            let p = pend[i];
            proof {
                lemma_open_for_user(old(db).pending(), user_id, now, old(db).pending().len() as int, i as int);
            }
            let status = find_status(invoices, p.invoice_id);
            let ghost t0 = db.txs();
            let ghost r0 = results@;
            let ghost ps0 = db.pending();
            if status == Some(InvoiceStatus::Paid) {
                let res = match self.settle_paid(db, p, now) {
                    Ok(x) => x,
                    Err(e) => {
                        proof {
                            lemma_extends_trans(t_old, t0, db.txs());
                            assert(open[i as int] == p);
                        }
                        return Err(e);
                    },
                };
                results.push(res);
                proof {
                    lemma_extends_trans(t_old, t0, db.txs());
                    lemma_rows_step(t_old.len() as int, t0, db.txs(), r0, res, user_id);
                    lemma_sound_step(open, i as int, invoices@, user_id, r0, res, ps0, db.pending());
                    lemma_marks_step(open, i as int, invoices@, r0, res, ps0, db.pending());
                    assert(results@ == r0.push(res));
                }
            } else if status == Some(InvoiceStatus::Expired) {
                self.delete_pending(db, p.invoice_id);
                proof {
                    lemma_dropped_step(open, i as int, invoices@, results@, ps0, db.pending());
                }
            } else {
                proof {
                    lemma_waiting_step(open, i as int, invoices@, results@, db.pending());
                }
            }
            i = i + 1;
        }
        Ok(results)
    }
}

/// The note of the deposit that settles invoice `id`.
pub open spec fn deposit_note(id: i64) -> Seq<char> {
    "CryptoBot deposit #"@ + decimal(id as int)
}

/// `t` is the deposit of `amount` to `user` that settles invoice `id`.
pub open spec fn deposit_row(t: Transaction, user: i64, amount: i64, id: i64) -> bool {
    &&& t.tx_type == TransactionType::Deposit
    &&& t.user_id == user
    &&& t.amount == amount
    &&& (t.description matches Some(d) && d@ == deposit_note(id))
}

/// `new` extends `old`: rows are only appended.
pub open spec fn extends(old: Seq<Transaction>, new: Seq<Transaction>) -> bool {
    &&& new.len() >= old.len()
    &&& forall|j: int| 0 <= j < old.len() ==> #[trigger] new[j] == old[j]
}

/// Each result has its deposit among the rows of `t` from `from` on.
#[verifier::opaque]
pub open spec fn rows_cover(from: int, t: Seq<Transaction>, res: Seq<PaymentResult>, user: i64) -> bool {
    forall|k: int| #![trigger res[k]] 0 <= k < res.len() ==> exists|j: int|
        from <= j < t.len() && deposit_row(#[trigger] t[j], user, res[k].amount_nano, res[k].invoice_id)
}

/// Each Deposit row of `t` from `from` on settles one of the results.
#[verifier::opaque]
pub open spec fn rows_only(from: int, t: Seq<Transaction>, res: Seq<PaymentResult>, user: i64) -> bool {
    forall|j: int| from <= j < t.len() && (#[trigger] t[j]).tx_type == TransactionType::Deposit
        ==> exists|k: int| 0 <= k < res.len() && deposit_row(t[j], user, #[trigger] res[k].amount_nano, res[k].invoice_id)
}

/// Each result is a paid invoice of `open` for `user` that no longer waits.
#[verifier::opaque]
pub open spec fn results_sound(
    res: Seq<PaymentResult>,
    open: Seq<PendingInvoice>,
    invs: Seq<Invoice>,
    ps: Seq<PendingInvoice>,
    user: i64,
) -> bool {
    forall|k: int| 0 <= k < res.len() ==> {
        let p = #[trigger] res[k];
        &&& exists|j: int| 0 <= j < open.len() && #[trigger] open[j] == (PendingInvoice {
            invoice_id: p.invoice_id,
            user_id: p.user_id,
            amount_nano: p.amount_nano,
            referrer_id: p.referrer_id,
            created_at: open[j].created_at,
            expires_at: open[j].expires_at,
        })
        &&& status_of(invs, p.invoice_id) == Some(InvoiceStatus::Paid)
        &&& p.user_id == user
        &&& !has_pending(ps, p.invoice_id)
    }
}

/// Of the first `n` invoices of `open`, those paid or expired no longer wait.
#[verifier::opaque]
pub open spec fn settled_upto(open: Seq<PendingInvoice>, n: int, invs: Seq<Invoice>, ps: Seq<PendingInvoice>) -> bool {
    forall|k: int| 0 <= k < n ==> (status_of(invs, (#[trigger] open[k]).invoice_id) matches Some(s) && s
        != InvoiceStatus::Active ==> !has_pending(ps, open[k].invoice_id))
}

/// Of the first `n` invoices of `open`, each paid one is among the results.
#[verifier::opaque]
pub open spec fn paid_listed(open: Seq<PendingInvoice>, n: int, invs: Seq<Invoice>, res: Seq<PaymentResult>) -> bool {
    forall|k: int| 0 <= k < n && status_of(invs, (#[trigger] open[k]).invoice_id) == Some(InvoiceStatus::Paid)
        ==> exists|j: int| 0 <= j < res.len() && (#[trigger] res[j]).invoice_id == open[k].invoice_id
}

/// Each invoice of `open` that is neither paid nor expired still waits.
#[verifier::opaque]
pub open spec fn active_kept(open: Seq<PendingInvoice>, invs: Seq<Invoice>, ps: Seq<PendingInvoice>) -> bool {
    forall|k: int| 0 <= k < open.len() && status_of(invs, (#[trigger] open[k]).invoice_id) != Some(
        InvoiceStatus::Paid,
    ) && status_of(invs, open[k].invoice_id) != Some(InvoiceStatus::Expired) ==> has_pending(ps, open[k].invoice_id)
}

proof fn lemma_extends_step(a: Seq<Transaction>, b: Seq<Transaction>)
    requires
        b == a || b.drop_last() == a && b.len() == a.len() + 1,
    ensures
        extends(a, b),
{
    if b != a {
        assert forall|j: int| 0 <= j < a.len() implies #[trigger] b[j] == a[j] by {
            assert(b.drop_last()[j] == b[j]);
        }
    }
}

proof fn lemma_extends_trans(a: Seq<Transaction>, b: Seq<Transaction>, c: Seq<Transaction>)
    requires
        extends(a, b),
        extends(b, c),
    ensures
        extends(a, c),
{
    assert forall|j: int| 0 <= j < a.len() implies #[trigger] c[j] == a[j] by {
        assert(c[j] == b[j]);
    }
}

proof fn lemma_open_for_member(ps: Seq<PendingInvoice>, user: i64, now: i64, n: int, k: int)
    requires
        0 <= k < open_for(ps, user, now, n).len(),
    ensures
        has_pending(ps, open_for(ps, user, now, n)[k].invoice_id),
    decreases n,
{
    if n > 0 && n <= ps.len() {
        let rest = open_for(ps, user, now, n - 1);
        if k < rest.len() {
            lemma_open_for_member(ps, user, now, n - 1, k);
        } else {
            assert(ps[ps.len() - n] == open_for(ps, user, now, n)[k]);
        }
    }
}

proof fn lemma_loop_start(
    ps: Seq<PendingInvoice>,
    user: i64,
    now: i64,
    t: Seq<Transaction>,
    invs: Seq<Invoice>,
    open: Seq<PendingInvoice>,
)
    requires
        open == open_for(ps, user, now, ps.len() as int),
    ensures
        extends(t, t),
        rows_cover(t.len() as int, t, Seq::<PaymentResult>::empty(), user),
        rows_only(t.len() as int, t, Seq::<PaymentResult>::empty(), user),
        results_sound(Seq::<PaymentResult>::empty(), open, invs, ps, user),
        settled_upto(open, 0, invs, ps),
        paid_listed(open, 0, invs, Seq::<PaymentResult>::empty()),
        active_kept(open, invs, ps),
{
    reveal(rows_cover);
    reveal(rows_only);
    reveal(results_sound);
    reveal(settled_upto);
    reveal(paid_listed);
    reveal(active_kept);
    assert forall|k: int| 0 <= k < open.len() implies has_pending(ps, #[trigger] open[k].invoice_id) by {
        lemma_open_for_member(ps, user, now, ps.len() as int, k);
    }
}

/// Forgetting invoice `id` keeps every other invoice waiting.
proof fn lemma_others_stay(ps: Seq<PendingInvoice>, id: i64, x: i64)
    requires
        has_pending(ps, x),
        x != id,
    ensures
        has_pending(without(ps, id), x),
{
    let f = |p: PendingInvoice| p.invoice_id != id;
    let k = choose|k: int| 0 <= k < ps.len() && (#[trigger] ps[k]).invoice_id == x;
    ps.lemma_filter_contains(f, k);
    let w = without(ps, id);
    let j = choose|j: int| 0 <= j < w.len() && w[j] == ps[k];
    assert(w[j].invoice_id == x);
}

proof fn lemma_rows_step(
    from: int,
    t0: Seq<Transaction>,
    t1: Seq<Transaction>,
    r0: Seq<PaymentResult>,
    res: PaymentResult,
    user: i64,
)
    requires
        0 <= from <= t0.len(),
        extends(t0, t1),
        t1.len() > t0.len(),
        deposit_row(t1[t0.len() as int], user, res.amount_nano, res.invoice_id),
        forall|j: int| t0.len() < j < t1.len() ==> (#[trigger] t1[j]).tx_type != TransactionType::Deposit,
        rows_cover(from, t0, r0, user),
        rows_only(from, t0, r0, user),
    ensures
        rows_cover(from, t1, r0.push(res), user),
        rows_only(from, t1, r0.push(res), user),
{
    reveal(rows_cover);
    reveal(rows_only);
    let r = r0.push(res);
    assert forall|k: int| #![trigger r[k]] 0 <= k < r.len() implies exists|j: int|
        from <= j < t1.len() && deposit_row(#[trigger] t1[j], user, r[k].amount_nano, r[k].invoice_id) by {
        if k < r0.len() {
            assert(r[k] == r0[k]);
            let j = choose|j: int| from <= j < t0.len() && deposit_row(#[trigger] t0[j], user, r0[k].amount_nano, r0[k].invoice_id);
            assert(t1[j] == t0[j]);
        } else {
            assert(r[k] == res);
            assert(deposit_row(t1[t0.len() as int], user, r[k].amount_nano, r[k].invoice_id));
        }
    }
    assert forall|j: int| from <= j < t1.len() && (#[trigger] t1[j]).tx_type == TransactionType::Deposit
        implies exists|k: int| 0 <= k < r.len() && deposit_row(t1[j], user, #[trigger] r[k].amount_nano, r[k].invoice_id) by {
        if j < t0.len() {
            assert(t1[j] == t0[j]);
            let k = choose|k: int| 0 <= k < r0.len() && deposit_row(t0[j], user, #[trigger] r0[k].amount_nano, r0[k].invoice_id);
            assert(r[k] == r0[k]);
        } else {
            assert(j == t0.len());
            assert(r[r0.len() as int] == res);
        }
    }
}

proof fn lemma_sound_step(
    open: Seq<PendingInvoice>,
    i: int,
    invs: Seq<Invoice>,
    user: i64,
    r0: Seq<PaymentResult>,
    res: PaymentResult,
    ps0: Seq<PendingInvoice>,
    ps1: Seq<PendingInvoice>,
)
    requires
        0 <= i < open.len(),
        open[i].user_id == user,
        status_of(invs, open[i].invoice_id) == Some(InvoiceStatus::Paid),
        res == (PaymentResult {
            invoice_id: open[i].invoice_id,
            amount_nano: open[i].amount_nano,
            user_id: open[i].user_id,
            referrer_id: open[i].referrer_id,
        }),
        ps1 == without(ps0, open[i].invoice_id),
        results_sound(r0, open, invs, ps0, user),
    ensures
        results_sound(r0.push(res), open, invs, ps1, user),
{
    reveal(results_sound);
    let r = r0.push(res);
    lemma_removed_stays_removed(ps0, open[i].invoice_id);
    assert forall|k: int| 0 <= k < r.len() implies {
        let p = #[trigger] r[k];
        &&& exists|j: int| 0 <= j < open.len() && #[trigger] open[j] == (PendingInvoice {
            invoice_id: p.invoice_id,
            user_id: p.user_id,
            amount_nano: p.amount_nano,
            referrer_id: p.referrer_id,
            created_at: open[j].created_at,
            expires_at: open[j].expires_at,
        })
        &&& status_of(invs, p.invoice_id) == Some(InvoiceStatus::Paid)
        &&& p.user_id == user
        &&& !has_pending(ps1, p.invoice_id)
    } by {
        if k < r0.len() {
            assert(r[k] == r0[k]);
        } else {
            assert(r[k] == res);
            assert(open[i] == (PendingInvoice {
                invoice_id: res.invoice_id,
                user_id: res.user_id,
                amount_nano: res.amount_nano,
                referrer_id: res.referrer_id,
                created_at: open[i].created_at,
                expires_at: open[i].expires_at,
            }));
        }
    }
}

proof fn lemma_marks_step(
    open: Seq<PendingInvoice>,
    i: int,
    invs: Seq<Invoice>,
    r0: Seq<PaymentResult>,
    res: PaymentResult,
    ps0: Seq<PendingInvoice>,
    ps1: Seq<PendingInvoice>,
)
    requires
        0 <= i < open.len(),
        status_of(invs, open[i].invoice_id) == Some(InvoiceStatus::Paid),
        res.invoice_id == open[i].invoice_id,
        ps1 == without(ps0, open[i].invoice_id),
        settled_upto(open, i, invs, ps0),
        paid_listed(open, i, invs, r0),
        active_kept(open, invs, ps0),
    ensures
        settled_upto(open, i + 1, invs, ps1),
        paid_listed(open, i + 1, invs, r0.push(res)),
        active_kept(open, invs, ps1),
{
    reveal(settled_upto);
    reveal(paid_listed);
    reveal(active_kept);
    let r = r0.push(res);
    let id = open[i].invoice_id;
    lemma_removed_stays_removed(ps0, id);
    assert forall|k: int| 0 <= k < i + 1 implies (status_of(invs, (#[trigger] open[k]).invoice_id) matches Some(s) && s
        != InvoiceStatus::Active ==> !has_pending(ps1, open[k].invoice_id)) by {}
    assert forall|k: int| 0 <= k < i + 1 && status_of(invs, (#[trigger] open[k]).invoice_id) == Some(InvoiceStatus::Paid)
        implies exists|j: int| 0 <= j < r.len() && (#[trigger] r[j]).invoice_id == open[k].invoice_id by {
        if k < i {
            let j = choose|j: int| 0 <= j < r0.len() && (#[trigger] r0[j]).invoice_id == open[k].invoice_id;
            assert(r[j] == r0[j]);
        } else {
            assert(r[r0.len() as int].invoice_id == open[k].invoice_id);
        }
    }
    assert forall|k: int| 0 <= k < open.len() && status_of(invs, (#[trigger] open[k]).invoice_id) != Some(
        InvoiceStatus::Paid,
    ) && status_of(invs, open[k].invoice_id) != Some(InvoiceStatus::Expired) implies has_pending(ps1, open[k].invoice_id) by {
        lemma_others_stay(ps0, id, open[k].invoice_id);
    }
}

proof fn lemma_dropped_step(
    open: Seq<PendingInvoice>,
    i: int,
    invs: Seq<Invoice>,
    res: Seq<PaymentResult>,
    ps0: Seq<PendingInvoice>,
    ps1: Seq<PendingInvoice>,
)
    requires
        0 <= i < open.len(),
        status_of(invs, open[i].invoice_id) == Some(InvoiceStatus::Expired),
        ps1 == without(ps0, open[i].invoice_id),
        settled_upto(open, i, invs, ps0),
        paid_listed(open, i, invs, res),
        active_kept(open, invs, ps0),
    ensures
        forall|user: i64| results_sound(res, open, invs, ps0, user) ==> #[trigger] results_sound(res, open, invs, ps1, user),
        settled_upto(open, i + 1, invs, ps1),
        paid_listed(open, i + 1, invs, res),
        active_kept(open, invs, ps1),
{
    reveal(results_sound);
    reveal(settled_upto);
    reveal(paid_listed);
    reveal(active_kept);
    let id = open[i].invoice_id;
    lemma_removed_stays_removed(ps0, id);
    assert forall|k: int| 0 <= k < i + 1 implies (status_of(invs, (#[trigger] open[k]).invoice_id) matches Some(s) && s
        != InvoiceStatus::Active ==> !has_pending(ps1, open[k].invoice_id)) by {}
    assert forall|k: int| 0 <= k < open.len() && status_of(invs, (#[trigger] open[k]).invoice_id) != Some(
        InvoiceStatus::Paid,
    ) && status_of(invs, open[k].invoice_id) != Some(InvoiceStatus::Expired) implies has_pending(ps1, open[k].invoice_id) by {
        lemma_others_stay(ps0, id, open[k].invoice_id);
    }
}

proof fn lemma_waiting_step(
    open: Seq<PendingInvoice>,
    i: int,
    invs: Seq<Invoice>,
    res: Seq<PaymentResult>,
    ps: Seq<PendingInvoice>,
)
    requires
        0 <= i < open.len(),
        status_of(invs, open[i].invoice_id) != Some(InvoiceStatus::Paid),
        status_of(invs, open[i].invoice_id) != Some(InvoiceStatus::Expired),
        settled_upto(open, i, invs, ps),
        paid_listed(open, i, invs, res),
    ensures
        settled_upto(open, i + 1, invs, ps),
        paid_listed(open, i + 1, invs, res),
{
    reveal(settled_upto);
    reveal(paid_listed);
}

proof fn lemma_open_for_user(ps: Seq<PendingInvoice>, user: i64, now: i64, n: int, k: int)
    requires
        0 <= k < open_for(ps, user, now, n).len(),
    ensures
        open_for(ps, user, now, n)[k].user_id == user,
    decreases n,
{
    if n > 0 && n <= ps.len() {
        let rest = open_for(ps, user, now, n - 1);
        if k < rest.len() {
            lemma_open_for_user(ps, user, now, n - 1, k);
        }
    }
}

/// After forgetting `id`, no invoice with id `id` waits; and whatever was not
/// waiting still is not.
proof fn lemma_removed_stays_removed(ps: Seq<PendingInvoice>, id: i64)
    ensures
        !has_pending(without(ps, id), id),
        forall|x: i64| !has_pending(ps, x) ==> !has_pending(#[trigger] without(ps, id), x),
{
    let f = |p: PendingInvoice| p.invoice_id != id;
    let w = without(ps, id);
    if has_pending(w, id) {
        let k = choose|k: int| 0 <= k < w.len() && (#[trigger] w[k]).invoice_id == id;
        ps.lemma_filter_contains_rev(f, w[k]);
    }
    assert forall|x: i64| !has_pending(ps, x) implies !has_pending(#[trigger] without(ps, id), x) by {
        if has_pending(w, x) {
            let k = choose|k: int| 0 <= k < w.len() && (#[trigger] w[k]).invoice_id == x;
            ps.lemma_filter_contains_rev(f, w[k]);
            let j = choose|j: int| 0 <= j < ps.len() && ps[j] == w[k];
            assert(ps[j].invoice_id == x);
        }
    }
}

} // verus!
