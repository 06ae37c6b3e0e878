use vstd::prelude::*;
use crate::error::Error;
use crate::model::{Transaction, TransactionType};
use crate::store::{posted, Db};
use crate::text::push_str;

verus! {

broadcast use vstd::std_specs::hash::group_hash_axioms;

/// The rows of `txs[from..]` that belong to `uid`, newest first.
pub open spec fn newest_from(txs: Seq<Transaction>, uid: i64, from: int) -> Seq<Transaction>
    decreases txs.len() - from,
{
    if from >= txs.len() || from < 0 {
        Seq::empty()
    } else if txs[from].user_id == uid {
        newest_from(txs, uid, from + 1).push(txs[from])
    } else {
        newest_from(txs, uid, from + 1)
    }
}

/// The ledger rows of `uid`, newest first.
pub open spec fn history(txs: Seq<Transaction>, uid: i64) -> Seq<Transaction> {
    newest_from(txs, uid, 0)
}

proof fn lemma_newest_prefix(txs: Seq<Transaction>, uid: i64, j: int, i: int)
    requires
        0 <= j <= i <= txs.len(),
    ensures
        newest_from(txs, uid, i).len() <= newest_from(txs, uid, j).len(),
        newest_from(txs, uid, j).take(newest_from(txs, uid, i).len() as int) == newest_from(
            txs,
            uid,
            i,
        ),
    decreases i - j,
{
    if j < i {
        lemma_newest_prefix(txs, uid, j + 1, i);
        let a = newest_from(txs, uid, i);
        let b = newest_from(txs, uid, j + 1);
        let c = newest_from(txs, uid, j);
        if txs[j].user_id == uid {
            assert(c == b.push(txs[j]));
            assert(c.take(a.len() as int) =~= b.take(a.len() as int));
        }
    } else {
        assert(newest_from(txs, uid, j).take(newest_from(txs, uid, j).len() as int) =~= newest_from(txs, uid, j));
    }
}

/// The balance ledger: every change of a balance is logged by exactly one row,
/// and a balance never goes negative.
pub struct Balance;

impl Balance {
    pub fn new() -> (r: Balance) {
        Balance
    }

    /// The current balance of `user_id`.
    pub fn get(&self, db: &Db, user_id: i64) -> (r: Result<i64, Error>)
        requires
            db.wf(),
        ensures
            db.has_user(user_id) ==> r == Ok::<i64, Error>(db.users()[user_id].balance),
            !db.has_user(user_id) ==> r == Err::<i64, Error>(Error::UserNotFound),
    {
        match db.users.get(&user_id) {
            Some(u) => Ok(u.balance),
            None => Err(Error::UserNotFound),
        }
    }

    /// Credits a positive amount of the given kind.
    fn credit(
        &self,
        db: &mut Db,
        user_id: i64,
        amount: i64,
        kind: TransactionType,
        description: Option<String>,
        referral_code: Option<String>,
        now: i64,
    ) -> (r: Result<i64, Error>)
        requires
            old(db).wf(),
            amount > 0,
        ensures
            final(db).wf(),
            !old(db).has_user(user_id) ==> r == Err::<i64, Error>(Error::UserNotFound) && *final(db)
                == *old(db),
            old(db).has_user(user_id) && old(db).balance_of(user_id) + amount > i64::MAX ==> r
                == Err::<i64, Error>(Error::Overflow) && *final(db) == *old(db),
            old(db).has_user(user_id) && old(db).balance_of(user_id) + amount <= i64::MAX ==> {
                &&& r == Ok::<i64, Error>((old(db).balance_of(user_id) + amount) as i64)
                &&& posted(*old(db), *final(db), user_id, amount as int, kind, now)
                &&& final(db).txs().last().description == description
                &&& final(db).txs().last().referral_code == referral_code
            },
    {
        let balance = match db.users.get(&user_id) {
            Some(u) => u.balance,
            None => {
                return Err(Error::UserNotFound);
            },
        };
        if balance > i64::MAX - amount {
            return Err(Error::Overflow);
        }
        Ok(db.post(user_id, amount, kind, description, referral_code, now))
    }

    /// Debits a positive amount of the given kind.
    fn debit(
        &self,
        db: &mut Db,
        user_id: i64,
        amount: i64,
        kind: TransactionType,
        description: Option<String>,
        referral_code: Option<String>,
        now: i64,
    ) -> (r: Result<i64, Error>)
        requires
            old(db).wf(),
            old(db).has_user(user_id),
            amount > 0,
        ensures
            final(db).wf(),
            amount > old(db).balance_of(user_id) ==> r == Err::<i64, Error>(Error::InsufficientBalance)
                && *final(db) == *old(db),
            amount <= old(db).balance_of(user_id) ==> {
                &&& r == Ok::<i64, Error>((old(db).balance_of(user_id) - amount) as i64)
                &&& posted(*old(db), *final(db), user_id, -amount, kind, now)
                &&& final(db).txs().last().description == description
                &&& final(db).txs().last().referral_code == referral_code
            },
    {
        let balance = match db.users.get(&user_id) {
            Some(u) => u.balance,
            None => {
                return Err(Error::UserNotFound);
            },
        };
        if balance < amount {
            return Err(Error::InsufficientBalance);
        }
        Ok(db.post(user_id, 0 - amount, kind, description, referral_code, now))
    }

    /// Adds funds. Fails on a non-positive amount, an unknown user, or a
    /// balance that would leave the range of `i64`.
    pub fn deposit(
        &self,
        db: &mut Db,
        user_id: i64,
        amount: i64,
        description: Option<String>,
        now: i64,
    ) -> (r: Result<i64, Error>)
        requires
            old(db).wf(),
        ensures
            final(db).wf(),
            amount <= 0 ==> (r matches Err(Error::InvalidArgs(_))) && *final(db) == *old(db),
            amount > 0 && !old(db).has_user(user_id) ==> r == Err::<i64, Error>(Error::UserNotFound)
                && *final(db) == *old(db),
            amount > 0 && old(db).has_user(user_id) && old(db).balance_of(user_id) + amount
                > i64::MAX ==> r == Err::<i64, Error>(Error::Overflow) && *final(db) == *old(db),
            amount > 0 && old(db).has_user(user_id) && old(db).balance_of(user_id) + amount
                <= i64::MAX ==> {
                &&& r == Ok::<i64, Error>((old(db).balance_of(user_id) + amount) as i64)
                &&& posted(*old(db), *final(db), user_id, amount as int, TransactionType::Deposit, now)
                &&& final(db).txs().last().description == description
                &&& final(db).txs().last().referral_code == None::<String>
            },
    {
        if amount <= 0 {
            return Err(Error::InvalidArgs("Deposit amount must be positive".to_owned()));
        }
        self.credit(db, user_id, amount, TransactionType::Deposit, description, None, now)
    }

    /// Pays for a purchase. Fails with `InsufficientBalance` exactly when the
    /// amount exceeds the balance, and then changes nothing.
    pub fn spend(
        &self,
        db: &mut Db,
        user_id: i64,
        amount: i64,
        description: Option<String>,
        referral_code: Option<String>,
        now: i64,
    ) -> (r: Result<i64, Error>)
        requires
            old(db).wf(),
        ensures
            final(db).wf(),
            r is Err ==> *final(db) == *old(db),
            amount <= 0 ==> r matches Err(Error::InvalidArgs(_)),
            amount > 0 && !old(db).has_user(user_id) ==> r == Err::<i64, Error>(Error::UserNotFound),
            amount > 0 && old(db).has_user(user_id) ==> (r == Err::<i64, Error>(
                Error::InsufficientBalance,
            ) <==> amount > old(db).balance_of(user_id)),
            amount > 0 && old(db).has_user(user_id) && amount <= old(db).balance_of(user_id) ==> {
                &&& r == Ok::<i64, Error>((old(db).balance_of(user_id) - amount) as i64)
                &&& posted(*old(db), *final(db), user_id, -amount, TransactionType::Purchase, now)
                &&& final(db).txs().last().description == description
                &&& final(db).txs().last().referral_code == referral_code
            },
    {
        if amount <= 0 {
            return Err(Error::InvalidArgs("Spend amount must be positive".to_owned()));
        }
        if !db.users.contains_key(&user_id) {
            return Err(Error::UserNotFound);
        }
        self.debit(db, user_id, amount, TransactionType::Purchase, description, referral_code, now)
    }

    /// Credits a referral commission; the row names the referral source.
    pub fn add_referral_bonus(
        &self,
        db: &mut Db,
        user_id: i64,
        amount: i64,
        referral_code: &str,
        now: i64,
    ) -> (r: Result<i64, Error>)
        requires
            old(db).wf(),
        ensures
            final(db).wf(),
            amount <= 0 ==> (r matches Err(Error::InvalidArgs(_))) && *final(db) == *old(db),
            amount > 0 && !old(db).has_user(user_id) ==> r == Err::<i64, Error>(Error::UserNotFound)
                && *final(db) == *old(db),
            amount > 0 && old(db).has_user(user_id) && old(db).balance_of(user_id) + amount
                > i64::MAX ==> r == Err::<i64, Error>(Error::Overflow) && *final(db) == *old(db),
            amount > 0 && old(db).has_user(user_id) && old(db).balance_of(user_id) + amount
                <= i64::MAX ==> {
                &&& r == Ok::<i64, Error>((old(db).balance_of(user_id) + amount) as i64)
                &&& posted(
                    *old(db),
                    *final(db),
                    user_id,
                    amount as int,
                    TransactionType::ReferralBonus,
                    now,
                )
                &&& (final(db).txs().last().description matches Some(d) && d@
                    == "Referral bonus from code "@ + referral_code@)
                &&& (final(db).txs().last().referral_code matches Some(c) && c@ == referral_code@)
            },
    {
        if amount <= 0 {
            return Err(Error::InvalidArgs("Bonus amount must be positive".to_owned()));
        }
        let mut description = "Referral bonus from code ".to_owned();
        push_str(&mut description, referral_code);
        let code = referral_code.to_owned();
        self.credit(
            db,
            user_id,
            amount,
            TransactionType::ReferralBonus,
            Some(description),
            Some(code),
            now,
        )
    }

    /// Credits cashback.
    pub fn add_cashback(
        &self,
        db: &mut Db,
        user_id: i64,
        amount: i64,
        description: Option<String>,
        now: i64,
    ) -> (r: Result<i64, Error>)
        requires
            old(db).wf(),
        ensures
            final(db).wf(),
            amount <= 0 ==> (r matches Err(Error::InvalidArgs(_))) && *final(db) == *old(db),
            amount > 0 && !old(db).has_user(user_id) ==> r == Err::<i64, Error>(Error::UserNotFound)
                && *final(db) == *old(db),
            amount > 0 && old(db).has_user(user_id) && old(db).balance_of(user_id) + amount
                > i64::MAX ==> r == Err::<i64, Error>(Error::Overflow) && *final(db) == *old(db),
            amount > 0 && old(db).has_user(user_id) && old(db).balance_of(user_id) + amount
                <= i64::MAX ==> {
                &&& r == Ok::<i64, Error>((old(db).balance_of(user_id) + amount) as i64)
                &&& posted(*old(db), *final(db), user_id, amount as int, TransactionType::Cashback, now)
                &&& final(db).txs().last().description == description
                &&& final(db).txs().last().referral_code == None::<String>
            },
    {
        if amount <= 0 {
            return Err(Error::InvalidArgs("Cashback amount must be positive".to_owned()));
        }
        self.credit(db, user_id, amount, TransactionType::Cashback, description, None, now)
    }

    /// Pays out earnings; only creators and admins may.
    pub fn withdraw(&self, db: &mut Db, user_id: i64, amount: i64, now: i64) -> (r: Result<
        i64,
        Error,
    >)
        requires
            old(db).wf(),
        ensures
            final(db).wf(),
            r is Err ==> *final(db) == *old(db),
            amount <= 0 ==> r matches Err(Error::InvalidArgs(_)),
            amount > 0 && !old(db).has_user(user_id) ==> r == Err::<i64, Error>(Error::UserNotFound),
            amount > 0 && old(db).has_user(user_id) && !old(db).users()[user_id].role.is_creator()
                ==> r == Err::<i64, Error>(Error::WithdrawalNotAllowed),
            amount > 0 && old(db).has_user(user_id) && old(db).users()[user_id].role.is_creator()
                ==> (r == Err::<i64, Error>(Error::InsufficientBalance) <==> amount > old(
                db,
            ).balance_of(user_id)),
            amount > 0 && old(db).has_user(user_id) && old(db).users()[user_id].role.is_creator()
                && amount <= old(db).balance_of(user_id) ==> {
                &&& r == Ok::<i64, Error>((old(db).balance_of(user_id) - amount) as i64)
                &&& posted(*old(db), *final(db), user_id, -amount, TransactionType::Withdrawal, now)
                &&& (final(db).txs().last().description matches Some(d) && d@ == "Crypto withdrawal"@)
            },
    {
        if amount <= 0 {
            return Err(Error::InvalidArgs("Withdrawal amount must be positive".to_owned()));
        }
        let allowed = match db.users.get(&user_id) {
            Some(u) => u.role.can_withdraw(),
            None => {
                return Err(Error::UserNotFound);
            },
        };
        if !allowed {
            return Err(Error::WithdrawalNotAllowed);
        }
        self.debit(
            db,
            user_id,
            amount,
            TransactionType::Withdrawal,
            Some("Crypto withdrawal".to_owned()),
            None,
            now,
        )
    }

    /// Up to `limit` ledger rows of `user_id`, newest first.
    pub fn transactions(&self, db: &Db, user_id: i64, limit: usize) -> (r: Vec<Transaction>)
        requires
            db.wf(),
        ensures
            r@ == history(db.txs(), user_id).take(
                vstd::math::min(limit as int, history(db.txs(), user_id).len() as int),
            ),
    {
        let mut r: Vec<Transaction> = Vec::new();
        let mut i: usize = db.transactions.len();
        while i > 0 && r.len() < limit
            invariant
                i <= db.txs().len(),
                r@ == newest_from(db.txs(), user_id, i as int),
                r.len() <= limit,
            decreases i,
        {
            i = i - 1;
            let t = &db.transactions[i];
            if t.user_id == user_id {
                r.push(t.duplicate());
            }
        }
        proof {
            let h = history(db.txs(), user_id);
            lemma_newest_prefix(db.txs(), user_id, 0, i as int);
            if i == 0 {
                assert(h.take(h.len() as int) =~= h);
            }
        }
        r
    }
}

} // verus!
