use vstd::prelude::*;
use crate::error::Error;
use crate::model::{TransactionType, UserRecord};
use crate::store::{appended, code_owner, fits, is_percent, Db};
use crate::text::{decimal, decimal_text, int_text, parse_i64};

verus! {

broadcast use vstd::std_specs::hash::group_hash_axioms;

/// One currency unit in its smallest units (six decimal places).
pub const NANO_USDT: i64 = 1_000_000;

/// Price of one month, in smallest units.
pub const MONTH_PRICE: i64 = 10 * NANO_USDT;

/// Price of three months, in smallest units.
pub const QUARTER_PRICE: i64 = 25 * NANO_USDT;

/// What a referrer sees of their own referral terms.
#[derive(Debug)]
pub struct ReferralStats {
    pub commission_rate: i32,
    pub discount_percent: i32,
    pub total_sales: i32,
    pub total_earnings: i64,
    pub can_withdraw: bool,
}

/// The referrer's share of a sale: `sale * rate / 100`, truncated.
pub open spec fn commission(sale: int, rate: int) -> int {
    sale * rate / 100
}

/// A positive price after a discount of `percent`: `price * (100 - percent) / 100`,
/// truncated; no discount leaves the price as it is.
pub open spec fn discounted(price: int, percent: int) -> int {
    if percent > 0 && price > 0 {
        price * (100 - percent) / 100
    } else {
        price
    }
}

/// The discount that a purchase referred by `referrer` earns: the referrer's
/// discount when they hold referral-capable status, else none.
pub open spec fn discount_for(db: Db, referrer: Option<i64>) -> int {
    match referrer {
        Some(r) => if db.has_user(r) && db.users()[r].role.is_creator() {
            db.users()[r].discount_percent as int
        } else {
            0
        },
        None => 0,
    }
}

/// `u` after one more referred sale that earned `c`, credited to its balance.
pub open spec fn with_sale(u: UserRecord, c: int) -> UserRecord {
    UserRecord {
        balance: (u.balance + c) as i64,
        referral_sales: (u.referral_sales + 1) as i32,
        referral_earnings: (u.referral_earnings + c) as i64,
        ..u
    }
}

/// Whether recording a sale of `sale` for `u` stays within machine range.
pub open spec fn sale_fits(u: UserRecord, sale: int) -> bool {
    let c = commission(sale, u.commission_rate as int);
    &&& u.referral_sales < i32::MAX
    &&& u.referral_earnings + c <= i64::MAX
    &&& u.balance + c <= i64::MAX
}

/// The account that `code` resolves to: a user id that has an account, or else
/// the vanity code of a creator or admin.
pub open spec fn resolves_to(db: Db, code: Seq<char>, uid: i64) -> bool {
    match int_text(code) {
        Some(v) => v == uid && db.has_user(uid),
        None => code_owner(db, uid, code) && db.users()[uid].role.is_creator(),
    }
}

/// The text under which a referrer is shown to the people they refer.
pub open spec fn display_text(u: UserRecord) -> Seq<char> {
    if u.role.is_creator() {
        match u.referral_code {
            Some(c) => c@,
            None => "creator referral"@,
        }
    } else {
        decimal(u.tg_user_id as int)
    }
}

pub open spec fn with_rate(u: UserRecord, rate: i32) -> UserRecord {
    UserRecord { commission_rate: rate, ..u }
}

pub open spec fn with_discount(u: UserRecord, discount: i32) -> UserRecord {
    UserRecord { discount_percent: discount, ..u }
}

/// The creators and admins among the accounts listed by the first `n` ids.
pub open spec fn creators(db: Db, n: int) -> Seq<UserRecord>
    decreases n,
{
    if n <= 0 {
        Seq::empty()
    } else {
        let rest = creators(db, n - 1);
        let u = db.users()[db.user_ids()[n - 1]];
        if u.role.is_creator() {
            rest.push(u)
        } else {
            rest
        }
    }
}

/// Referrals: resolving who referred a sale, the discount it earns, and the
/// commission it pays.
pub struct Referral;

impl Referral {
    pub fn new() -> (r: Referral) {
        Referral
    }

    /// The account of `referrer_id`; any user may refer.
    pub fn validate_referrer(&self, db: &Db, referrer_id: i64) -> (r: Result<UserRecord, Error>)
        requires
            db.wf(),
        ensures
            db.has_user(referrer_id) ==> r == Ok::<UserRecord, Error>(db.users()[referrer_id]),
            !db.has_user(referrer_id) ==> r == Err::<UserRecord, Error>(Error::ReferralNotFound),
    {
        match db.users.get(&referrer_id) {
            Some(u) => Ok(u.duplicate()),
            None => Err(Error::ReferralNotFound),
        }
    }

    /// The creator or admin that holds the vanity code `code`.
    pub fn find_by_code(&self, db: &Db, code: &str) -> (r: Result<UserRecord, Error>)
        requires
            db.wf(),
        ensures
            r matches Ok(u) ==> code_owner(*db, u.tg_user_id, code@) && u.role.is_creator() && u
                == db.users()[u.tg_user_id],
            r is Err ==> r == Err::<UserRecord, Error>(Error::ReferralNotFound) && forall|uid: i64|
                code_owner(*db, uid, code@) ==> !db.users()[uid].role.is_creator(),
    {
        let text = code.to_owned();
        match db.find_code_owner(&text) {
            Some(uid) => {
                let u = db.users.get(&uid).unwrap();
                if u.role.can_withdraw() {
                    Ok(u.duplicate())
                } else {
                    proof {
                        assert forall|v: i64| code_owner(*db, v, code@) implies !db.users()[v].role.is_creator() by {
                            if v != uid {
                                assert(db.users()[v].referral_code->0@ == db.users()[uid].referral_code->0@);
                            }
                        }
                    }
                    Err(Error::ReferralNotFound)
                }
            },
            None => Err(Error::ReferralNotFound),
        }
    }

    /// Resolves a referral identifier: a numeric user id first, else a vanity code.
    pub fn resolve_code(&self, db: &Db, code: &str) -> (r: Result<i64, Error>)
        requires
            db.wf(),
        ensures
            r matches Ok(uid) ==> resolves_to(*db, code@, uid),
            r is Err ==> r == Err::<i64, Error>(Error::ReferralNotFound) && forall|uid: i64|
                !resolves_to(*db, code@, uid),
    {
        match parse_i64(code) {
            Some(uid) => {
                match self.validate_referrer(db, uid) {
                    Ok(_) => Ok(uid),
                    Err(e) => Err(e),
                }
            },
            None => {
                match self.find_by_code(db, code) {
                    Ok(u) => Ok(u.tg_user_id),
                    Err(e) => Err(e),
                }
            },
        }
    }

    /// Credits the commission of a sale to its referrer and counts the sale,
    /// in one step: the counters and the balance change together or not at all.
    pub fn record_sale(&self, db: &mut Db, referrer_id: i64, sale_amount: i64, now: i64) -> (r:
        Result<i64, Error>)
        requires
            old(db).wf(),
        ensures
            final(db).wf(),
            r is Err ==> *final(db) == *old(db),
            sale_amount < 0 ==> (r matches Err(Error::InvalidArgs(_))),
            sale_amount >= 0 && !old(db).has_user(referrer_id) ==> r == Err::<i64, Error>(
                Error::ReferralNotFound,
            ),
            sale_amount >= 0 && old(db).has_user(referrer_id) && !sale_fits(
                old(db).users()[referrer_id],
                sale_amount as int,
            ) ==> r == Err::<i64, Error>(Error::Overflow),
            sale_amount >= 0 && old(db).has_user(referrer_id) && sale_fits(
                old(db).users()[referrer_id],
                sale_amount as int,
            ) ==> {
                let c = commission(
                    sale_amount as int,
                    old(db).users()[referrer_id].commission_rate as int,
                );
                &&& r == Ok::<i64, Error>(c as i64)
                &&& final(db).users() == old(db).users().insert(
                    referrer_id,
                    with_sale(old(db).users()[referrer_id], c),
                )
                &&& c > 0 ==> appended(
                    old(db).txs(),
                    final(db).txs(),
                    referrer_id,
                    c,
                    TransactionType::ReferralBonus,
                    now,
                )
                &&& c == 0 ==> final(db).txs() == old(db).txs()
                &&& final(db).licenses() == old(db).licenses()
                &&& final(db).pending() == old(db).pending()
            },
    {
        if sale_amount < 0 {
            return Err(Error::InvalidArgs("Sale amount must not be negative".to_owned()));
        }
        let mut u = match db.users.get(&referrer_id) {
            Some(u) => u.duplicate(),
            None => {
                return Err(Error::ReferralNotFound);
            },
        };
        let ghost u0 = u;
        proof {
            assert(0 <= u.commission_rate <= 100);
            assert(0 <= (sale_amount as int) * (u.commission_rate as int) <= (sale_amount as int) * 100)
                by (nonlinear_arith)
                requires
                    sale_amount >= 0,
                    0 <= u.commission_rate <= 100;
        }
        let wide: i128 = (sale_amount as i128) * (u.commission_rate as i128);
        proof {
            assert(0 <= wide <= (sale_amount as int) * 100) by (nonlinear_arith)
                requires
                    wide == (sale_amount as int) * (u.commission_rate as int),
                    sale_amount >= 0,
                    0 <= u.commission_rate <= 100;
        }
        let c = (wide / 100) as i64;
        if u.referral_sales == i32::MAX || u.referral_earnings > i64::MAX - c || u.balance > i64::MAX
            - c {
            return Err(Error::Overflow);
        }
        u.referral_sales = u.referral_sales + 1;
        u.referral_earnings = u.referral_earnings + c;
        proof { lemma_same_code_fits(*db, u); }
        db.replace_user(u);
        if c > 0 {
            let code = decimal_text(referrer_id);
            let mut description = "Referral bonus from code ".to_owned();
            crate::text::push_str(&mut description, code.as_str());
            db.post(
                referrer_id,
                c,
                TransactionType::ReferralBonus,
                Some(description),
                Some(code),
                now,
            );
        }
        proof {
            assert(db.users() =~= old(db).users().insert(referrer_id, with_sale(u0, c as int)));
        }
        Ok(c)
    }

    /// The referral terms and totals of `user_id`.
    pub fn stats(&self, db: &Db, user_id: i64) -> (r: Result<ReferralStats, Error>)
        requires
            db.wf(),
        ensures
            !db.has_user(user_id) ==> r == Err::<ReferralStats, Error>(Error::UserNotFound),
            db.has_user(user_id) ==> (r matches Ok(s) && {
                let u = db.users()[user_id];
                &&& s.commission_rate == u.commission_rate
                &&& s.discount_percent == u.discount_percent
                &&& s.total_sales == u.referral_sales
                &&& s.total_earnings == u.referral_earnings
                &&& s.can_withdraw == u.role.is_creator()
            }),
    {
        match db.users.get(&user_id) {
            Some(u) => Ok(
                ReferralStats {
                    commission_rate: u.commission_rate,
                    discount_percent: u.discount_percent,
                    total_sales: u.referral_sales,
                    total_earnings: u.referral_earnings,
                    can_withdraw: u.role.can_withdraw(),
                },
            ),
            None => Err(Error::UserNotFound),
        }
    }

    /// The discount that a purchase referred by `ref_id` earns.
    pub fn discount_percent(&self, db: &Db, ref_id: Option<i64>) -> (r: i32)
        requires
            db.wf(),
        ensures
            r == discount_for(*db, ref_id),
            0 <= r <= 100,
    {
        match ref_id {
            Some(id) => match db.users.get(&id) {
                Some(u) => if u.role.can_withdraw() {
                    u.discount_percent
                } else {
                    0
                },
                None => 0,
            },
            None => 0,
        }
    }

    /// Sets the commission rate of `user_id`, a percentage.
    pub fn set_commission_rate(&self, db: &mut Db, user_id: i64, rate: i32) -> (r: Result<(), Error>)
        requires
            old(db).wf(),
        ensures
            final(db).wf(),
            r is Err ==> *final(db) == *old(db),
            !old(db).has_user(user_id) ==> r == Err::<(), Error>(Error::UserNotFound),
            old(db).has_user(user_id) && !is_percent(rate) ==> (r matches Err(Error::InvalidArgs(_))),
            old(db).has_user(user_id) && is_percent(rate) ==> r is Ok && final(db).users()
                == old(db).users().insert(user_id, with_rate(old(db).users()[user_id], rate))
                && final(db).txs() == old(db).txs(),
    {
        let mut u = match db.users.get(&user_id) {
            Some(u) => u.duplicate(),
            None => {
                return Err(Error::UserNotFound);
            },
        };
        if rate < 0 || rate > 100 {
            return Err(Error::InvalidArgs("Commission rate must be between 0 and 100".to_owned()));
        }
        u.commission_rate = rate;
        proof { lemma_same_code_fits(*db, u); }
        db.replace_user(u);
        Ok(())
    }

    /// Sets the discount that `user_id` grants to the people they refer.
    pub fn set_discount_percent(&self, db: &mut Db, user_id: i64, discount: i32) -> (r: Result<
        (),
        Error,
    >)
        requires
            old(db).wf(),
        ensures
            final(db).wf(),
            r is Err ==> *final(db) == *old(db),
            !old(db).has_user(user_id) ==> r == Err::<(), Error>(Error::UserNotFound),
            old(db).has_user(user_id) && !is_percent(discount) ==> (r matches Err(Error::InvalidArgs(_))),
            old(db).has_user(user_id) && is_percent(discount) ==> r is Ok && final(db).users()
                == old(db).users().insert(user_id, with_discount(old(db).users()[user_id], discount))
                && final(db).txs() == old(db).txs(),
    {
        let mut u = match db.users.get(&user_id) {
            Some(u) => u.duplicate(),
            None => {
                return Err(Error::UserNotFound);
            },
        };
        if discount < 0 || discount > 100 {
            return Err(Error::InvalidArgs("Discount must be between 0 and 100".to_owned()));
        }
        u.discount_percent = discount;
        proof { lemma_same_code_fits(*db, u); }
        db.replace_user(u);
        Ok(())
    }

    /// The creators and admins, in order of registration.
    pub fn all_creators(&self, db: &Db) -> (r: Vec<UserRecord>)
        requires
            db.wf(),
        ensures
            r@ == creators(*db, db.user_ids().len() as int),
    {
        let mut r: Vec<UserRecord> = Vec::new();
        let mut i: usize = 0;
        while i < db.user_ids.len()
            invariant
                db.wf(),
                i <= db.user_ids().len(),
                r@ == creators(*db, i as int),
            decreases db.user_ids().len() - i,
        {
            let u = db.users.get(&db.user_ids[i]).unwrap();
            if u.role.can_withdraw() {
                r.push(u.duplicate());
            }
            i = i + 1;
        }
        r
    }

    /// How a referrer is shown: a creator by their vanity code (or a neutral
    /// label, to keep their id private), anyone else by their id.
    pub fn display_code(&self, db: &Db, referrer_id: i64) -> (r: Option<String>)
        requires
            db.wf(),
        ensures
            !db.has_user(referrer_id) ==> r is None,
            db.has_user(referrer_id) ==> (r matches Some(s) && s@ == display_text(
                db.users()[referrer_id],
            )),
    {
        let u = match db.users.get(&referrer_id) {
            Some(u) => u,
            None => {
                return None;
            },
        };
        if u.role.can_withdraw() {
            match &u.referral_code {
                Some(c) => Some(c.clone()),
                None => Some("creator referral".to_owned()),
            }
        } else {
            Some(decimal_text(referrer_id))
        }
    }
}

/// An account whose vanity code is unchanged still fits beside the others.
proof fn lemma_same_code_fits(db: Db, u: UserRecord)
    requires
        db.wf(),
        db.has_user(u.tg_user_id),
        u.referral_code == db.users()[u.tg_user_id].referral_code,
        is_percent(u.commission_rate),
        is_percent(u.discount_percent),
        u.referral_sales >= 0,
        u.referral_earnings >= 0,
    ensures
        fits(db, u),
{
    let id = u.tg_user_id;
    assert forall|v: i64| #[trigger] db.users().contains_key(v) && v != id implies crate::store::codes_differ(
        u.referral_code,
        db.users()[v].referral_code,
    ) by {
        assert(crate::store::codes_differ(db.users()[id].referral_code, db.users()[v].referral_code));
    }
}

} // verus!
