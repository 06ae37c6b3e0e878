use vstd::prelude::*;
use vstd::string::StrSliceExecFns;
use crate::error::Error;
use crate::license::{owned, License};
use crate::model::{LicenseRecord, UserRecord, UserRole};
use crate::store::{code_owner, codes_differ, Db};

verus! {

broadcast use vstd::std_specs::hash::group_hash_axioms;

/// Whether `c` is alphanumeric in the Unicode sense.
pub uninterp spec fn is_alnum(c: char) -> bool;

/// Relies on `char::is_alphanumeric`: the Unicode alphabetic or numeric
/// property of `c`, a function of `c` alone; as documented, ASCII letters and
/// digits have it.
#[verifier::external_body]
fn alphanumeric(c: char) -> (r: bool)
    ensures
        r == is_alnum(c),
        ('a' <= c <= 'z' || 'A' <= c <= 'Z' || '0' <= c <= '9') ==> r,
{
    c.is_alphanumeric()
}

pub open spec fn is_ascii_digit(c: char) -> bool {
    '0' <= c <= '9'
}

/// Bytes that UTF-8 takes for `c`.
pub open spec fn utf8_width(c: char) -> int {
    if (c as u32) < 0x80 {
        1
    } else if (c as u32) < 0x800 {
        2
    } else if (c as u32) < 0x10000 {
        3
    } else {
        4
    }
}

/// Length in UTF-8 bytes.
pub open spec fn byte_len(s: Seq<char>) -> int
    decreases s.len(),
{
    if s.len() == 0 {
        0
    } else {
        byte_len(s.drop_last()) + utf8_width(s.last())
    }
}

/// A character a vanity code may hold: a letter or digit (ASCII ones
/// included), '_' or '-'.
pub open spec fn is_code_char(c: char) -> bool {
    'a' <= c <= 'z' || 'A' <= c <= 'Z' || '0' <= c <= '9' || is_alnum(c) || c == '_' || c == '-'
}

pub open spec fn all_code_chars(s: Seq<char>) -> bool {
    forall|i: int| 0 <= i < s.len() ==> is_code_char(#[trigger] s[i])
}

pub open spec fn all_digits(s: Seq<char>) -> bool {
    forall|i: int| 0 <= i < s.len() ==> is_ascii_digit(#[trigger] s[i])
}

/// A vanity code is 3 to 20 bytes of letters, digits, '_' and '-', and is not
/// purely numeric, so that it never reads as a user id.
pub open spec fn is_valid_code(s: Seq<char>) -> bool {
    3 <= byte_len(s) <= 20 && all_code_chars(s) && !all_digits(s)
}

pub open spec fn with_role(u: UserRecord, role: UserRole) -> UserRecord {
    UserRecord { role, ..u }
}

pub open spec fn with_referrer(u: UserRecord, referred_by: Option<i64>) -> UserRecord {
    UserRecord { referred_by, ..u }
}

pub open spec fn with_code(u: UserRecord, code: Option<String>) -> UserRecord {
    UserRecord { referral_code: code, ..u }
}

fn width_of(c: char) -> (w: usize)
    ensures
        w == utf8_width(c),
{
    let n = c as u32;
    if n < 0x80 {
        1
    } else if n < 0x800 {
        2
    } else if n < 0x10000 {
        3
    } else {
        4
    }
}

proof fn lemma_byte_len_grows(s: Seq<char>, i: int)
    requires
        0 <= i < s.len(),
    ensures
        byte_len(s.take(i + 1)) == byte_len(s.take(i)) + utf8_width(s[i]),
        byte_len(s.take(i)) >= i,
{
    assert(s.take(i + 1).drop_last() =~= s.take(i));
    lemma_byte_len_at_least(s.take(i));
}

proof fn lemma_byte_len_at_least(s: Seq<char>)
    ensures
        byte_len(s) >= s.len(),
    decreases s.len(),
{
    if s.len() > 0 {
        lemma_byte_len_at_least(s.drop_last());
    }
}

/// The message of each rejection of a vanity code.
pub const CODE_LENGTH_MSG: &'static str = "Referral code must be 3-20 characters";
pub const CODE_CHARS_MSG: &'static str = "Referral code can only contain letters, numbers, underscores, and hyphens";
pub const CODE_NUMERIC_MSG: &'static str = "Referral code cannot be purely numeric (would conflict with user IDs)";

/// Checks the shape of a vanity code, naming the first rule it breaks.
fn check_code(code: &String) -> (r: Result<(), Error>)
    ensures
        r is Ok <==> is_valid_code(code@),
        !(3 <= byte_len(code@) <= 20) ==> (r matches Err(Error::InvalidArgs(m)) && m@ == CODE_LENGTH_MSG@),
        3 <= byte_len(code@) <= 20 && !all_code_chars(code@) ==> (r matches Err(Error::InvalidArgs(m))
            && m@ == CODE_CHARS_MSG@),
        3 <= byte_len(code@) <= 20 && all_code_chars(code@) && all_digits(code@) ==> (r matches Err(
            Error::InvalidArgs(m),
        ) && m@ == CODE_NUMERIC_MSG@),
{
    let s = code.as_str();
    let n = s.unicode_len();
    let mut bytes: usize = 0;
    let mut i: usize = 0;
    while i < n && bytes <= 20
        invariant
            n == code@.len(),
            s@ == code@,
            i <= n,
            bytes == byte_len(code@.take(i as int)),
            bytes <= 24,
        decreases n - i,
    {
        let c = s.get_char(i);
        proof { lemma_byte_len_grows(code@, i as int); }
        bytes = bytes + width_of(c);
        i = i + 1;
    }
    proof {
        if i == n {
            assert(code@.take(n as int) =~= code@);
        } else {
            lemma_byte_len_prefix(code@, i as int);
        }
    }
    if bytes < 3 || bytes > 20 {
        return Err(Error::InvalidArgs(CODE_LENGTH_MSG.to_owned()));
    }
    let mut j: usize = 0;
    while j < n
        invariant
            n == code@.len(),
            s@ == code@,
            j <= n,
            3 <= byte_len(code@) <= 20,
            forall|k: int| 0 <= k < j ==> is_code_char(#[trigger] code@[k]),
        decreases n - j,
    {
        let c = s.get_char(j);
        if !(alphanumeric(c) || c == '_' || c == '-') {
            return Err(Error::InvalidArgs(CODE_CHARS_MSG.to_owned()));
        }
        j = j + 1;
    }
    let mut k: usize = 0;
    while k < n
        invariant
            n == code@.len(),
            s@ == code@,
            k <= n,
            3 <= byte_len(code@) <= 20,
            all_code_chars(code@),
            forall|m: int| 0 <= m < k ==> is_ascii_digit(#[trigger] code@[m]),
        decreases n - k,
    {
        let c = s.get_char(k);
        if !('0' <= c && c <= '9') {
            proof {
                assert(!is_ascii_digit(code@[k as int]));
            }
            return Ok(());
        }
        k = k + 1;
    }
    Err(Error::InvalidArgs(CODE_NUMERIC_MSG.to_owned()))
}

proof fn lemma_byte_len_prefix(s: Seq<char>, i: int)
    requires
        0 <= i <= s.len(),
    ensures
        byte_len(s) >= byte_len(s.take(i)),
    decreases s.len() - i,
{
    if i < s.len() {
        lemma_byte_len_grows(s, i);
        lemma_byte_len_prefix(s, i + 1);
    } else {
        assert(s.take(i) =~= s);
    }
}

/// Accounts: creation on first sight, roles, referrers and vanity codes.
pub struct User;

impl User {
    pub fn new() -> (r: User) {
        User
    }

    /// The account of `tg_user_id`, created with the default terms if missing.
    pub fn get_or_create(&self, db: &mut Db, tg_user_id: i64, now: i64) -> (r: UserRecord)
        requires
            old(db).wf(),
        ensures
            final(db).wf(),
            old(db).has_user(tg_user_id) ==> *final(db) == *old(db) && r == old(db).users()[tg_user_id],
            !old(db).has_user(tg_user_id) ==> {
                &&& r == UserRecord::fresh(tg_user_id, now)
                &&& final(db).users() == old(db).users().insert(tg_user_id, r)
                &&& final(db).txs() == old(db).txs()
                &&& final(db).licenses() == old(db).licenses()
                &&& final(db).promos() == old(db).promos()
            },
    {
        match db.users.get(&tg_user_id) {
            Some(u) => {
                return u.duplicate();
            },
            None => {},
        }
        let u = UserRecord::new_default(tg_user_id, now);
        db.add_user(u.duplicate());
        u
    }

    pub fn by_id(&self, db: &Db, tg_user_id: i64) -> (r: Option<UserRecord>)
        requires
            db.wf(),
        ensures
            db.has_user(tg_user_id) ==> r == Some(db.users()[tg_user_id]),
            !db.has_user(tg_user_id) ==> r is None,
    {
        match db.users.get(&tg_user_id) {
            Some(u) => Some(u.duplicate()),
            None => None,
        }
    }

    pub fn set_role(&self, db: &mut Db, tg_user_id: i64, role: UserRole) -> (r: Result<(), Error>)
        requires
            old(db).wf(),
        ensures
            final(db).wf(),
            !old(db).has_user(tg_user_id) ==> r == Err::<(), Error>(Error::UserNotFound) && *final(db)
                == *old(db),
            old(db).has_user(tg_user_id) ==> {
                &&& r is Ok
                &&& final(db).users() == old(db).users().insert(
                    tg_user_id,
                    with_role(old(db).users()[tg_user_id], role),
                )
                &&& final(db).txs() == old(db).txs()
                &&& final(db).licenses() == old(db).licenses()
            },
    {
        let mut u = match db.users.get(&tg_user_id) {
            Some(u) => u.duplicate(),
            None => {
                return Err(Error::UserNotFound);
            },
        };
        u.role = role;
        db.replace_user(u);
        Ok(())
    }

    /// Sets or clears who referred `tg_user_id`. Nobody refers themselves, and
    /// a referrer must have an account.
    pub fn set_referred_by(&self, db: &mut Db, tg_user_id: i64, referrer_id: Option<i64>) -> (r:
        Result<(), Error>)
        requires
            old(db).wf(),
        ensures
            final(db).wf(),
            r is Err ==> *final(db) == *old(db),
            !old(db).has_user(tg_user_id) ==> r == Err::<(), Error>(Error::UserNotFound),
            old(db).has_user(tg_user_id) && referrer_id == Some(tg_user_id) ==> (r matches Err(
                Error::InvalidArgs(_),
            )),
            old(db).has_user(tg_user_id) && (referrer_id matches Some(x) && x != tg_user_id
                && !old(db).has_user(x)) ==> r == Err::<(), Error>(Error::ReferralNotFound),
            old(db).has_user(tg_user_id) && (referrer_id matches Some(x) ==> x != tg_user_id
                && old(db).has_user(x)) ==> {
                &&& r is Ok
                &&& final(db).users() == old(db).users().insert(
                    tg_user_id,
                    with_referrer(old(db).users()[tg_user_id], referrer_id),
                )
                &&& final(db).txs() == old(db).txs()
                &&& final(db).licenses() == old(db).licenses()
            },
    {
        let mut u = match db.users.get(&tg_user_id) {
            Some(u) => u.duplicate(),
            None => {
                return Err(Error::UserNotFound);
            },
        };
        match referrer_id {
            Some(ref_id) => {
                if ref_id == tg_user_id {
                    return Err(Error::InvalidArgs("Cannot refer yourself".to_owned()));
                }
                if !db.users.contains_key(&ref_id) {
                    return Err(Error::ReferralNotFound);
                }
            },
            None => {},
        }
        u.referred_by = referrer_id;
        db.replace_user(u);
        Ok(())
    }

    /// Every account, in order of registration.
    pub fn all(&self, db: &Db) -> (r: Vec<UserRecord>)
        requires
            db.wf(),
        ensures
            r@.len() == db.user_ids().len(),
            forall|i: int| 0 <= i < r@.len() ==> #[trigger] r@[i] == db.users()[db.user_ids()[i]],
    {
        let mut r: Vec<UserRecord> = Vec::new();
        let mut i: usize = 0;
        while i < db.user_ids.len()
            invariant
                db.wf(),
                i <= db.user_ids().len(),
                r@.len() == i,
                forall|k: int| 0 <= k < i ==> #[trigger] r@[k] == db.users()[db.user_ids()[k]],
            decreases db.user_ids().len() - i,
        {
            let u = db.users.get(&db.user_ids[i]).unwrap();
            r.push(u.duplicate());
            i = i + 1;
        }
        r
    }

    /// Every account with its licenses, blocked ones included, in order of
    /// registration.
    pub fn all_with_licenses(&self, db: &Db) -> (r: Vec<(UserRecord, Vec<LicenseRecord>)>)
        requires
            db.wf(),
        ensures
            r@.len() == db.user_ids().len(),
            forall|i: int| 0 <= i < r@.len() ==> {
                &&& (#[trigger] r@[i]).0 == db.users()[db.user_ids()[i]]
                &&& r@[i].1@ == owned(db.licenses(), db.user_ids()[i], true, db.licenses().len() as int)
            },
    {
        let mut r: Vec<(UserRecord, Vec<LicenseRecord>)> = Vec::new();
        let mut i: usize = 0;
        while i < db.user_ids.len()
            invariant
                db.wf(),
                i <= db.user_ids().len(),
                r@.len() == i,
                forall|k: int| 0 <= k < i ==> {
                    &&& (#[trigger] r@[k]).0 == db.users()[db.user_ids()[k]]
                    &&& r@[k].1@ == owned(db.licenses(), db.user_ids()[k], true, db.licenses().len() as int)
                },
            decreases db.user_ids().len() - i,
        {
            let id = db.user_ids[i];
            let u = db.users.get(&id).unwrap();
            let lics = License::new().by_user(db, id, true);
            r.push((u.duplicate(), lics));
            i = i + 1;
        }
        r
    }

    /// Number of accounts.
    pub fn count(&self, db: &Db) -> (r: usize)
        requires
            db.wf(),
        ensures
            r == db.users().dom().len(),
    {
        proof { lemma_ids_cover(*db); }
        db.user_ids.len()
    }

    /// The account that holds the vanity code `code`.
    pub fn by_referral_code(&self, db: &Db, code: &str) -> (r: Option<UserRecord>)
        requires
            db.wf(),
        ensures
            r matches Some(u) ==> code_owner(*db, u.tg_user_id, code@) && u == db.users()[u.tg_user_id],
            r is None ==> forall|uid: i64| !code_owner(*db, uid, code@),
    {
        let code = code.to_owned();
        match db.find_code_owner(&code) {
            Some(uid) => Some(db.users.get(&uid).unwrap().duplicate()),
            None => None,
        }
    }

    /// Sets or clears the vanity code of a creator or admin.
    pub fn set_referral_code(&self, db: &mut Db, tg_user_id: i64, code: Option<String>) -> (r:
        Result<(), Error>)
        requires
            old(db).wf(),
        ensures
            final(db).wf(),
            r is Err ==> *final(db) == *old(db),
            !old(db).has_user(tg_user_id) ==> r == Err::<(), Error>(Error::UserNotFound),
            old(db).has_user(tg_user_id) && !old(db).users()[tg_user_id].role.is_creator() ==> (r matches Err(
                Error::InvalidArgs(_),
            )),
            old(db).has_user(tg_user_id) && old(db).users()[tg_user_id].role.is_creator() && (code matches Some(
                c,
            ) && !is_valid_code(c@)) ==> (r matches Err(Error::InvalidArgs(_))),
            old(db).has_user(tg_user_id) && old(db).users()[tg_user_id].role.is_creator() && (code matches Some(
                c,
            ) && 3 <= byte_len(c@) <= 20 && all_code_chars(c@) && all_digits(c@)) ==> (r matches Err(
                Error::InvalidArgs(m),
            ) && m@ == CODE_NUMERIC_MSG@),
            old(db).has_user(tg_user_id) && old(db).users()[tg_user_id].role.is_creator() && (code matches Some(
                c,
            ) && is_valid_code(c@) && exists|v: i64| v != tg_user_id && code_owner(*old(db), v, c@))
                ==> (r matches Err(Error::InvalidArgs(_))),
            old(db).has_user(tg_user_id) && old(db).users()[tg_user_id].role.is_creator() && (code matches Some(
                c,
            ) ==> is_valid_code(c@) && forall|v: i64| v != tg_user_id ==> !code_owner(*old(db), v, c@))
                ==> {
                &&& r is Ok
                &&& final(db).users() == old(db).users().insert(
                    tg_user_id,
                    with_code(old(db).users()[tg_user_id], code),
                )
                &&& final(db).txs() == old(db).txs()
                &&& final(db).licenses() == old(db).licenses()
            },
    {
        let mut u = match db.users.get(&tg_user_id) {
            Some(u) => u.duplicate(),
            None => {
                return Err(Error::UserNotFound);
            },
        };
        if !u.role.can_withdraw() {
            return Err(Error::InvalidArgs("Only creators can set custom referral codes".to_owned()));
        }
        match &code {
            Some(c) => {
                match check_code(c) {
                    Ok(()) => {},
                    Err(e) => {
                        return Err(e);
                    },
                }
                match db.find_code_owner(c) {
                    Some(owner) => {
                        if owner != tg_user_id {
                            return Err(Error::InvalidArgs("Referral code already taken".to_owned()));
                        }
                        proof {
                            assert forall|v: i64| v != tg_user_id implies !code_owner(*db, v, c@) by {
                                if code_owner(*db, v, c@) {
                                    assert(!codes_differ(db.users()[v].referral_code, db.users()[tg_user_id].referral_code));
                                }
                            }
                        }
                    },
                    None => {},
                }
            },
            None => {},
        }
        let ghost target = with_code(db.users()[tg_user_id], code);
        u.referral_code = code;
        proof {
            assert(u == target);
            assert forall|v: i64| #[trigger] db.users().contains_key(v) && v != tg_user_id implies codes_differ(u.referral_code, db.users()[v].referral_code) by {
                if u.referral_code is Some && db.users()[v].referral_code is Some {
                    let c = u.referral_code->0;
                    if db.users()[v].referral_code->0@ == c@ {
                        assert(code_owner(*db, v, c@));
                    }
                }
            }
        }
        db.replace_user(u);
        Ok(())
    }
}

/// `u` with its vanity code checked against the store and its terms in range.
pub open spec fn admissible(db: Db, u: UserRecord) -> bool {
    &&& !db.has_user(u.tg_user_id)
    &&& u.balance >= 0
    &&& crate::store::is_percent(u.commission_rate)
    &&& crate::store::is_percent(u.discount_percent)
    &&& u.referral_sales >= 0
    &&& u.referral_earnings >= 0
    &&& (u.referral_code matches Some(c) ==> forall|v: i64| !code_owner(db, v, c@))
}

impl Db {
    /// Adds an account as it stands, for instance one carried over from
    /// elsewhere. A starting balance is logged as one opening deposit, so that
    /// the balance stays the sum of the account's ledger rows.
    pub fn insert_user(&mut self, u: UserRecord) -> (r: Result<(), Error>)
        requires
            old(self).wf(),
        ensures
            final(self).wf(),
            !admissible(*old(self), u) ==> (r matches Err(Error::InvalidArgs(_))) && *final(self) == *old(self),
            admissible(*old(self), u) ==> {
                &&& r is Ok
                &&& final(self).users() == old(self).users().insert(u.tg_user_id, u)
                &&& final(self).licenses() == old(self).licenses()
                &&& u.balance > 0 ==> crate::store::appended(
                    old(self).txs(),
                    final(self).txs(),
                    u.tg_user_id,
                    u.balance as int,
                    crate::model::TransactionType::Deposit,
                    u.reg_date,
                )
                &&& u.balance == 0 ==> final(self).txs() == old(self).txs()
            },
    {
        if self.users.contains_key(&u.tg_user_id) {
            return Err(Error::InvalidArgs("User already exists".to_owned()));
        }
        if u.balance < 0 || u.commission_rate < 0 || u.commission_rate > 100 || u.discount_percent < 0
            || u.discount_percent > 100 || u.referral_sales < 0 || u.referral_earnings < 0 {
            return Err(Error::InvalidArgs("Account terms out of range".to_owned()));
        }
        match &u.referral_code {
            Some(c) => {
                if self.find_code_owner(c).is_some() {
                    return Err(Error::InvalidArgs("Referral code already taken".to_owned()));
                }
            },
            None => {},
        }
        let ghost u0 = u;
        let id = u.tg_user_id;
        let balance = u.balance;
        let reg_date = u.reg_date;
        let mut fresh = u;
        fresh.balance = 0;
        proof {
            assert forall|v: i64| #[trigger] self.users().contains_key(v) && v != id implies codes_differ(
                fresh.referral_code,
                self.users()[v].referral_code,
            ) by {
                if fresh.referral_code is Some && self.users()[v].referral_code is Some {
                    let c = fresh.referral_code->0;
                    if self.users()[v].referral_code->0@ == c@ {
                        assert(code_owner(*self, v, c@));
                    }
                }
            }
        }
        self.add_user(fresh);
        if balance > 0 {
            self.post(id, balance, crate::model::TransactionType::Deposit, Some("Opening balance".to_owned()), None, reg_date);
        }
        proof {
            assert(self.users() =~= old(self).users().insert(id, u0));
        }
        Ok(())
    }
}

/// The id list and the account map hold the same ids.
pub proof fn lemma_ids_cover(db: Db)
    requires
        db.wf(),
    ensures
        db.user_ids().len() == db.users().dom().len(),
{
    let ids = db.user_ids();
    ids.unique_seq_to_set();
    assert(ids.to_set() =~= db.users().dom());
}

} // verus!
