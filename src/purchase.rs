use vstd::prelude::*;
use crate::clock::DAY_SECS;
use crate::error::Error;
use crate::ledger::Balance;
use crate::license::{expiry_fits, issued, with_expiry, License, DEFAULT_MAX_SESSIONS};
use crate::model::{LicenseRecord, LicenseType, Transaction, TransactionType, UserRecord};
use crate::referral::{commission, discount_for, discounted, sale_fits, with_sale, Referral};
use crate::store::{appended, with_balance, Db};

verus! {

broadcast use vstd::std_specs::hash::group_hash_axioms;

/// What a completed purchase reports.
#[derive(Debug)]
pub struct PurchaseResult {
    /// The buyer's balance after paying.
    pub new_balance: i64,
    /// The license bought or extended.
    pub license: LicenseRecord,
    /// What the buyer paid, after the referral discount.
    pub price: i64,
    /// The referrer's commission, when a referrer was credited.
    pub commission: Option<i64>,
}

/// The accounts after the buyer paid `charged`.
pub open spec fn after_payment(db: Db, user_id: i64, charged: int) -> Map<i64, UserRecord> {
    db.users().insert(user_id, with_balance(db.users()[user_id], (db.balance_of(user_id) - charged) as i64))
}

/// The ledger rows of a paid purchase: one Purchase row of `-charged` for the
/// buyer, then, when the referrer earned a positive commission `credit`, one
/// ReferralBonus row for the referrer.
pub open spec fn purchase_rows(
    old: Seq<Transaction>,
    new: Seq<Transaction>,
    user_id: i64,
    charged: int,
    referrer: Option<i64>,
    credit: Option<int>,
    now: i64,
) -> bool {
    let mid = new.take(old.len() + 1int);
    &&& new.len() >= old.len() + 1
    &&& appended(old, mid, user_id, -charged, TransactionType::Purchase, now)
    &&& match credit {
        Some(c) => if c > 0 {
            appended(mid, new, referrer->0, c, TransactionType::ReferralBonus, now)
        } else {
            new == mid
        },
        None => new == mid,
    }
}

/// The ledger rows of a purchase whose license step failed: the Purchase row
/// of `-charged`, then its refund, a Deposit row of `charged` with note `note`.
pub open spec fn refunded_rows(
    old: Seq<Transaction>,
    new: Seq<Transaction>,
    user_id: i64,
    charged: int,
    note: Seq<char>,
    now: i64,
) -> bool {
    let mid = new.take(old.len() + 1int);
    &&& new.len() == old.len() + 2
    &&& appended(old, mid, user_id, -charged, TransactionType::Purchase, now)
    &&& appended(mid, new, user_id, charged, TransactionType::Deposit, now)
    &&& (new.last().description matches Some(d) && d@ == note)
}

proof fn lemma_take_appended(old: Seq<Transaction>, mid: Seq<Transaction>, new: Seq<Transaction>)
    requires
        mid.len() == old.len() + 1,
        new == mid || new.drop_last() == mid,
        new.len() >= mid.len(),
    ensures
        new.take(old.len() + 1int) == mid,
{
    if new == mid {
        assert(new.take(old.len() + 1int) =~= mid);
    } else {
        assert(new.take(old.len() + 1int) =~= new.drop_last());
    }
}

/// The commission that the referrer earns on a paid sale, if it can be credited.
pub open spec fn referral_credit(users: Map<i64, UserRecord>, referrer: Option<i64>, charged: int) -> Option<int> {
    match referrer {
        Some(r) => if users.contains_key(r) && sale_fits(users[r], charged) {
            Some(commission(charged, users[r].commission_rate as int))
        } else {
            None
        },
        None => None,
    }
}

/// The accounts after the referral credit, if any.
pub open spec fn after_credit(users: Map<i64, UserRecord>, referrer: Option<i64>, charged: int) -> Map<i64, UserRecord> {
    match referral_credit(users, referrer, charged) {
        Some(c) => users.insert(referrer->0, with_sale(users[referrer->0], c)),
        None => users,
    }
}

/// The price and duration of a named plan: "month" or "quarter".
pub fn plan(name: &str) -> (r: Option<(i64, u64)>)
    ensures
        name@ == "month"@ ==> r == Some((crate::referral::MONTH_PRICE, 30u64)),
        name@ == "quarter"@ ==> r == Some((crate::referral::QUARTER_PRICE, 90u64)),
        name@ != "month"@ && name@ != "quarter"@ ==> r is None,
{
    proof {
        reveal_strlit("month");
        reveal_strlit("quarter");
        assert("month"@.len() != "quarter"@.len());
        assert("month"@ != "quarter"@);
    }
    let s = name.to_owned();
    let month = "month".to_owned();
    let quarter = "quarter".to_owned();
    if s == month {
        Some((crate::referral::MONTH_PRICE, 30))
    } else if s == quarter {
        Some((crate::referral::QUARTER_PRICE, 90))
    } else {
        None
    }
}

/// Whether a purchase names its own buyer as referrer.
fn is_self_referral(user_id: i64, referrer: Option<i64>) -> (r: bool)
    ensures
        r == (referrer == Some(user_id)),
{
    match referrer {
        Some(x) => x == user_id,
        None => false,
    }
}

/// The referrer id as the ledger row records it.
fn referrer_text(referrer: Option<i64>) -> (r: Option<String>)
    ensures
        r is Some <==> referrer is Some,
        referrer matches Some(id) ==> (r matches Some(t) && t@ == crate::text::decimal(id as int)),
{
    match referrer {
        Some(id) => Some(crate::text::decimal_text(id)),
        None => None,
    }
}

/// The price after the discount that `referrer` grants.
pub fn discounted_price(db: &Db, price: i64, referrer: Option<i64>) -> (r: i64)
    requires
        db.wf(),
    ensures
        r == discounted(price as int, discount_for(*db, referrer)),
{
    let d = Referral::new().discount_percent(db, referrer);
    if d > 0 && price > 0 {
        proof {
            assert(0 <= (price as int) * ((100 - d) as int) <= (price as int) * 100) by (nonlinear_arith)
                requires
                    price > 0,
                    0 <= 100 - d <= 100;
            lemma_discount_in_range(price as int, d as int);
        }
        let wide: i128 = (price as i128) * ((100 - d) as i128);
        (wide / 100) as i64
    } else {
        price
    }
}

proof fn lemma_discount_in_range(price: int, d: int)
    requires
        0 < d <= 100,
        i64::MIN <= price <= i64::MAX,
    ensures
        i64::MIN <= price * (100 - d) / 100 <= i64::MAX,
{
    let w = price * (100 - d);
    if price >= 0 {
        assert(0 <= w <= price * 100) by (nonlinear_arith)
            requires w == price * (100 - d), 0 <= 100 - d <= 100, price >= 0;
        assert(w / 100 <= price) by (nonlinear_arith)
            requires 0 <= w <= price * 100;
        assert(w / 100 >= 0) by (nonlinear_arith)
            requires 0 <= w;
    } else {
        assert(price * 100 <= w <= 0) by (nonlinear_arith)
            requires w == price * (100 - d), 0 <= 100 - d <= 100, price < 0;
        assert(w / 100 >= price) by (nonlinear_arith)
            requires price * 100 <= w;
        assert(w / 100 <= 0) by (nonlinear_arith)
            requires w <= 0;
    }
}

/// Buying and extending licenses as one operation across the ledger and the
/// license store. A failed license step is compensated by a refund; the
/// referral credit is best-effort and never undoes a purchase.
pub struct Purchase;

impl Purchase {
    pub fn new() -> (r: Purchase) {
        Purchase
    }

    /// Credits the referrer of a paid sale, if any; a failure leaves the store as it was.
    fn credit_referrer(db: &mut Db, referrer: Option<i64>, charged: i64, now: i64) -> (r: Option<i64>)
        requires
            old(db).wf(),
            charged > 0,
        ensures
            final(db).wf(),
            r == match referral_credit(old(db).users(), referrer, charged as int) {
                Some(c) => Some(c as i64),
                None => None::<i64>,
            },
            final(db).users() == after_credit(old(db).users(), referrer, charged as int),
            final(db).licenses() == old(db).licenses(),
            match referral_credit(old(db).users(), referrer, charged as int) {
                Some(c) => if c > 0 {
                    appended(old(db).txs(), final(db).txs(), referrer->0, c, TransactionType::ReferralBonus, now)
                } else {
                    final(db).txs() == old(db).txs()
                },
                None => final(db).txs() == old(db).txs(),
            },
    {
        match referrer {
            Some(referrer_id) => match Referral::new().record_sale(db, referrer_id, charged, now) {
                Ok(c) => Some(c),
                Err(_) => None,
            },
            None => None,
        }
    }

    /// Buys a license of `days` days under `key` for `price` (before the
    /// discount of `referrer`): pays, issues the license, then credits the
    /// referrer. Where the license cannot be issued the payment is refunded.
    pub fn buy_with_key(
        &self,
        db: &mut Db,
        user_id: i64,
        days: u64,
        price: i64,
        referrer: Option<i64>,
        key: String,
        now: i64,
    ) -> (r: Result<PurchaseResult, Error>)
        requires
            old(db).wf(),
        ensures
            final(db).wf(),
            ({
                let charged = discounted(price as int, discount_for(*old(db), referrer));
                let paid = after_payment(*old(db), user_id, charged);
                if referrer == Some(user_id) {
                    (r matches Err(Error::InvalidArgs(_))) && *final(db) == *old(db)
                } else if charged <= 0 {
                    (r matches Err(Error::InvalidArgs(_))) && *final(db) == *old(db)
                } else if !old(db).has_user(user_id) {
                    r == Err::<PurchaseResult, Error>(Error::UserNotFound) && *final(db) == *old(db)
                } else if charged > old(db).balance_of(user_id) {
                    r == Err::<PurchaseResult, Error>(Error::InsufficientBalance) && *final(db) == *old(db)
                } else if old(db).license(key@) is Some || !expiry_fits(days, now) {
                    &&& (r == Err::<PurchaseResult, Error>(Error::LicenseKeyTaken) <==> old(db).license(key@) is Some)
                    &&& (old(db).license(key@) is None ==> r == Err::<PurchaseResult, Error>(Error::Overflow))
                    &&& final(db).users() == old(db).users()
                    &&& final(db).licenses() == old(db).licenses()
                    &&& refunded_rows(old(db).txs(), final(db).txs(), user_id, charged, "Refund: license creation failed"@, now)
                } else {
                    &&& r matches Ok(res)
                    &&& res.price == charged
                    &&& res.new_balance == old(db).balance_of(user_id) - charged
                    &&& res.license == issued(key, user_id, LicenseType::Pro, days, now, DEFAULT_MAX_SESSIONS)
                    &&& res.commission == match referral_credit(paid, referrer, charged) {
                        Some(c) => Some(c as i64),
                        None => None::<i64>,
                    }
                    &&& final(db).licenses() == old(db).licenses().push(res.license)
                    &&& final(db).license(key@) == Some(res.license)
                    &&& final(db).users() == after_credit(paid, referrer, charged)
                    &&& purchase_rows(old(db).txs(), final(db).txs(), user_id, charged, referrer, referral_credit(paid, referrer, charged), now)
                }
            }),
    {
        if is_self_referral(user_id, referrer) {
            return Err(Error::InvalidArgs("Nobody can refer their own purchase".to_owned()));
        }
        let charged = discounted_price(db, price, referrer);
        let ghost d0 = *db;
        let new_balance = match Balance::new().spend(
            db,
            user_id,
            charged,
            Some("License purchase".to_owned()),
            referrer_text(referrer),
            now,
        ) {
            Ok(b) => b,
            Err(e) => {
                return Err(e);
            },
        };
        let license = match License::new().issue(db, key, user_id, LicenseType::Pro, days, now, DEFAULT_MAX_SESSIONS) {
            Ok(l) => l,
            Err(e) => {
                let refund = Balance::new().deposit(
                    db,
                    user_id,
                    charged,
                    Some("Refund: license creation failed".to_owned()),
                    now,
                );
                proof {
                    reveal_strlit("Refund: license creation failed");
                    assert(refund is Ok);
                    assert(db.users() =~= d0.users());
                    assert(db.txs().take(d0.txs().len() + 1int) =~= db.txs().drop_last());
                }
                return Err(e);
            },
        };
        let ghost t1 = db.txs();
        let commission = Self::credit_referrer(db, referrer, charged, now);
        proof {
            lemma_take_appended(d0.txs(), t1, db.txs());
        }
        Ok(PurchaseResult { new_balance, license, price: charged, commission })
    }

    /// Buys a license with a fresh random key.
    pub fn buy(&self, db: &mut Db, user_id: i64, days: u64, price: i64, referrer: Option<i64>, now: i64) -> (r:
        Result<PurchaseResult, Error>)
        requires
            old(db).wf(),
        ensures
            final(db).wf(),
            ({
                let charged = discounted(price as int, discount_for(*old(db), referrer));
                let fair = referrer != Some(user_id);
                &&& !fair ==> (r matches Err(Error::InvalidArgs(_))) && *final(db) == *old(db)
                &&& charged <= 0 ==> (r matches Err(Error::InvalidArgs(_))) && *final(db) == *old(db)
                &&& fair && charged > 0 && !old(db).has_user(user_id) ==> r == Err::<PurchaseResult, Error>(Error::UserNotFound) && *final(db) == *old(db)
                &&& fair && charged > 0 && old(db).has_user(user_id) && charged > old(db).balance_of(user_id) ==> r
                    == Err::<PurchaseResult, Error>(Error::InsufficientBalance) && *final(db) == *old(db)
                &&& r is Err && fair && charged > 0 && old(db).has_user(user_id) && charged <= old(db).balance_of(user_id)
                    && expiry_fits(days, now) ==> r == Err::<PurchaseResult, Error>(Error::LicenseKeyTaken)
                    && old(db).licenses().len() > 0
                &&& r is Err ==> final(db).users() == old(db).users() && final(db).licenses() == old(db).licenses()
                &&& r matches Ok(res) ==> {
                    let paid = after_payment(*old(db), user_id, charged);
                    &&& res.price == charged
                    &&& res.new_balance == old(db).balance_of(user_id) - charged
                    &&& old(db).license(res.license.key@) is None
                    &&& res.license == issued(res.license.key, user_id, LicenseType::Pro, days, now, DEFAULT_MAX_SESSIONS)
                    &&& final(db).licenses() == old(db).licenses().push(res.license)
                    &&& final(db).license(res.license.key@) == Some(res.license)
                    &&& final(db).users() == after_credit(paid, referrer, charged)
                    &&& purchase_rows(old(db).txs(), final(db).txs(), user_id, charged, referrer, referral_credit(paid, referrer, charged), now)
                }
            }),
    {
        self.buy_with_key(db, user_id, days, price, referrer, crate::license::random_key(), now)
    }

    /// Extends the license under `key`, which `user_id` must own, by `days`
    /// days from `now` for `price` (before the discount of `referrer`).
    /// Where the extension fails after paying, the payment is refunded.
    pub fn extend(
        &self,
        db: &mut Db,
        user_id: i64,
        key: &str,
        days: u64,
        price: i64,
        referrer: Option<i64>,
        now: i64,
    ) -> (r: Result<PurchaseResult, Error>)
        requires
            old(db).wf(),
        ensures
            final(db).wf(),
            ({
                let charged = discounted(price as int, discount_for(*old(db), referrer));
                let paid = after_payment(*old(db), user_id, charged);
                let span = days * DAY_SECS;
                if referrer == Some(user_id) {
                    (r matches Err(Error::InvalidArgs(_))) && *final(db) == *old(db)
                } else if !(old(db).license(key@) matches Some(l) && l.tg_user_id == user_id) {
                    r == Err::<PurchaseResult, Error>(Error::LicenseNotFound) && *final(db) == *old(db)
                } else if span > i64::MAX {
                    r == Err::<PurchaseResult, Error>(Error::Overflow) && *final(db) == *old(db)
                } else if charged <= 0 {
                    (r matches Err(Error::InvalidArgs(_))) && *final(db) == *old(db)
                } else if !old(db).has_user(user_id) {
                    r == Err::<PurchaseResult, Error>(Error::UserNotFound) && *final(db) == *old(db)
                } else if charged > old(db).balance_of(user_id) {
                    r == Err::<PurchaseResult, Error>(Error::InsufficientBalance) && *final(db) == *old(db)
                } else if now + span > i64::MAX {
                    &&& r == Err::<PurchaseResult, Error>(Error::Overflow)
                    &&& final(db).users() == old(db).users()
                    &&& final(db).licenses() == old(db).licenses()
                    &&& refunded_rows(old(db).txs(), final(db).txs(), user_id, charged, "Refund: license extension failed"@, now)
                } else {
                    &&& r matches Ok(res)
                    &&& res.price == charged
                    &&& res.new_balance == old(db).balance_of(user_id) - charged
                    &&& res.license == with_expiry(old(db).license(key@)->0, (now + span) as i64)
                    &&& res.commission == match referral_credit(paid, referrer, charged) {
                        Some(c) => Some(c as i64),
                        None => None::<i64>,
                    }
                    &&& final(db).license(key@) == Some(res.license)
                    &&& forall|k: Seq<char>| k != key@ ==> final(db).license(k) == old(db).license(k)
                    &&& final(db).users() == after_credit(paid, referrer, charged)
                    &&& purchase_rows(old(db).txs(), final(db).txs(), user_id, charged, referrer, referral_credit(paid, referrer, charged), now)
                }
            }),
    {
        if is_self_referral(user_id, referrer) {
            return Err(Error::InvalidArgs("Nobody can refer their own purchase".to_owned()));
        }
        let ghost d0 = *db;
        match License::new().by_key(db, key) {
            Some(l) => {
                if l.tg_user_id != user_id {
                    return Err(Error::LicenseNotFound);
                }
            },
            None => {
                return Err(Error::LicenseNotFound);
            },
        }
        if days > (i64::MAX / DAY_SECS) as u64 {
            return Err(Error::Overflow);
        }
        let span = (days as i64) * DAY_SECS;
        let charged = discounted_price(db, price, referrer);
        let new_balance = match Balance::new().spend(
            db,
            user_id,
            charged,
            Some("License extension".to_owned()),
            referrer_text(referrer),
            now,
        ) {
            Ok(b) => b,
            Err(e) => {
                return Err(e);
            },
        };
        let ghost d1 = *db;
        proof {
            assert(d1.license(key@) == d0.license(key@));
        }
        let new_exp = match License::new().expires(db, key, span, now) {
            Ok(x) => x,
            Err(e) => {
                let refund = Balance::new().deposit(
                    db,
                    user_id,
                    charged,
                    Some("Refund: license extension failed".to_owned()),
                    now,
                );
                proof {
                    reveal_strlit("Refund: license extension failed");
                    assert(refund is Ok);
                    assert(db.users() =~= d0.users());
                    assert(db.txs().take(d0.txs().len() + 1int) =~= db.txs().drop_last());
                }
                return Err(e);
            },
        };
        let license = match License::new().by_key(db, key) {
            Some(l) => l,
            None => {
                return Err(Error::LicenseNotFound);
            },
        };
        let ghost d2 = *db;
        let ghost t1 = db.txs();
        let commission = Self::credit_referrer(db, referrer, charged, now);
        proof {
            lemma_take_appended(d0.txs(), t1, db.txs());
            assert forall|k: Seq<char>| k != key@ implies db.license(k) == d0.license(k) by {
                assert(d2.license(k) == d1.license(k));
                assert(d1.licenses() == d0.licenses());
            }
        }
        Ok(PurchaseResult { new_balance, license, price: charged, commission })
    }
}

} // verus!
