use vstd::prelude::*;
use crate::clock::{in_promo_window, promo_active_at, promo_active_now, DAY_SECS};
use crate::error::{Error, Promo};
use crate::model::{LicenseRecord, LicenseType, UNLINKED};
use crate::store::{find_license, Db};
use crate::users::User;

verus! {

broadcast use vstd::std_specs::hash::group_hash_axioms;

/// Sessions a license admits unless it was issued with another quota.
pub const DEFAULT_MAX_SESSIONS: i32 = 1;

/// Days of the trial that a promotion grants.
pub const PROMO_TRIAL_DAYS: u64 = 7;

/// Relies on `uuid::Uuid::new_v4` and its `Display`: a random key in the
/// hyphenated form, 36 characters.
#[verifier::external_body]
pub(crate) fn random_key() -> (r: String)
    ensures
        r@.len() == 36,
{
    uuid::Uuid::new_v4().to_string()
}

/// The record that issuing a license makes.
pub open spec fn issued(
    key: String,
    owner: i64,
    ty: LicenseType,
    days: u64,
    now: i64,
    max_sessions: i32,
) -> LicenseRecord {
    LicenseRecord {
        key,
        tg_user_id: owner,
        license_type: ty,
        expires_at: (now + days * DAY_SECS) as i64,
        is_blocked: false,
        created_at: now,
        max_sessions,
    }
}

/// Whether a license issued for `days` at `now` expires within the range of `i64`.
pub open spec fn expiry_fits(days: u64, now: i64) -> bool {
    now + days * DAY_SECS <= i64::MAX
}

/// Whether `v` lies in the range of `i64`.
pub open spec fn in_i64(v: int) -> bool {
    i64::MIN <= v <= i64::MAX
}

/// The expiry of a gift after its first link at `now`: the granted span,
/// counted from `now`.
pub open spec fn activated_expiry(l: LicenseRecord, now: i64) -> int {
    now + (l.expires_at - l.created_at)
}

pub open spec fn with_owner(l: LicenseRecord, owner: i64, expires_at: i64) -> LicenseRecord {
    LicenseRecord { tg_user_id: owner, expires_at, ..l }
}

pub open spec fn with_blocked(l: LicenseRecord, blocked: bool) -> LicenseRecord {
    LicenseRecord { is_blocked: blocked, ..l }
}

pub open spec fn with_expiry(l: LicenseRecord, expires_at: i64) -> LicenseRecord {
    LicenseRecord { expires_at, is_blocked: false, ..l }
}

/// The licenses of `owner` among the first `n`, in order; blocked ones only
/// when `blocked` is set.
pub open spec fn owned(lics: Seq<LicenseRecord>, owner: i64, blocked: bool, n: int) -> Seq<LicenseRecord>
    decreases n,
{
    if n <= 0 {
        Seq::empty()
    } else {
        let rest = owned(lics, owner, blocked, n - 1);
        let l = lics[n - 1];
        if l.tg_user_id == owner && (blocked || !l.is_blocked) {
            rest.push(l)
        } else {
            rest
        }
    }
}

/// Number of licenses among the first `n` that are unblocked and expire after `now`.
pub open spec fn active_count(lics: Seq<LicenseRecord>, now: i64, n: int) -> int
    decreases n,
{
    if n <= 0 {
        0
    } else {
        active_count(lics, now, n - 1) + if !lics[n - 1].is_blocked && lics[n - 1].expires_at > now {
            1int
        } else {
            0
        }
    }
}

pub proof fn lemma_find_unique(lics: Seq<LicenseRecord>, i: int)
    requires
        0 <= i < lics.len(),
        forall|a: int, b: int|
            0 <= a < b < lics.len() ==> (#[trigger] lics[a]).key@ != (#[trigger] lics[b]).key@,
    ensures
        find_license(lics, lics[i].key@) == Some(lics[i]),
    decreases lics.len(),
{
    if i < lics.len() - 1 {
        assert(lics.last().key@ != lics[i].key@);
        let d = lics.drop_last();
        assert(d[i] == lics[i]);
        lemma_find_unique(d, i);
    }
}

/// A license found by key has a quota of at least one session.
pub proof fn lemma_found_quota(db: Db, key: Seq<char>)
    requires
        db.wf(),
        db.license(key) is Some,
    ensures
        db.license(key)->0.max_sessions >= 1,
{
    lemma_find_member(db.licenses(), key);
}

proof fn lemma_find_member(lics: Seq<LicenseRecord>, key: Seq<char>)
    requires
        find_license(lics, key) is Some,
    ensures
        exists|i: int| 0 <= i < lics.len() && lics[i] == find_license(lics, key)->0,
    decreases lics.len(),
{
    if lics.last().key@ == key {
        assert(lics[lics.len() - 1] == lics.last());
    } else {
        let d = lics.drop_last();
        lemma_find_member(d, key);
        let i = choose|i: int| 0 <= i < d.len() && d[i] == find_license(d, key)->0;
        assert(lics[i] == d[i]);
    }
}

pub proof fn lemma_find_absent(lics: Seq<LicenseRecord>, key: Seq<char>)
    requires
        forall|i: int| 0 <= i < lics.len() ==> (#[trigger] lics[i]).key@ != key,
    ensures
        find_license(lics, key) is None,
    decreases lics.len(),
{
    if lics.len() > 0 {
        let d = lics.drop_last();
        assert forall|i: int| 0 <= i < d.len() implies (#[trigger] d[i]).key@ != key by {
            assert(d[i] == lics[i]);
        }
        lemma_find_absent(d, key);
    }
}

impl Db {
    /// Position of the license with key `key`.
    pub(crate) fn license_index(&self, key: &str) -> (r: Option<usize>)
        requires
            self.wf(),
        ensures
            r matches Some(i) ==> i < self.licenses().len() && self.license(key@) == Some(
                self.licenses()[i as int],
            ) && self.licenses()[i as int].key@ == key@,
            r is None ==> self.license(key@) is None,
    {
        let target = key.to_owned();
        let mut i: usize = 0;
        while i < self.licenses.len()
            invariant
                self.wf(),
                target@ == key@,
                i <= self.licenses().len(),
                forall|k: int| 0 <= k < i ==> (#[trigger] self.licenses()[k]).key@ != key@,
            decreases self.licenses().len() - i,
        {
            if self.licenses[i].key == target {
                proof { lemma_find_unique(self.licenses(), i as int); }
                return Some(i);
            }
            i = i + 1;
        }
        proof { lemma_find_absent(self.licenses(), key@); }
        None
    }

    /// Replaces the license at `i` with one of the same key.
    pub(crate) fn replace_license(&mut self, i: usize, l: LicenseRecord)
        requires
            old(self).wf(),
            i < old(self).licenses().len(),
            l.key@ == old(self).licenses()[i as int].key@,
            l.max_sessions == old(self).licenses()[i as int].max_sessions,
        ensures
            final(self).wf(),
            final(self).licenses() == old(self).licenses().update(i as int, l),
            final(self).license(l.key@) == Some(l),
            forall|k: Seq<char>| k != l.key@ ==> final(self).license(k) == old(self).license(k),
            final(self).users() == old(self).users(),
            final(self).txs() == old(self).txs(),
            final(self).user_ids() == old(self).user_ids(),
            final(self).promos() == old(self).promos(),
    {
        let ghost old_lics = self.licenses();
        self.licenses.set(i, l);
        proof {
            let lics = self.licenses();
            assert forall|a: int, b: int| 0 <= a < b < lics.len() implies (#[trigger] lics[a]).key@ != (#[trigger] lics[b]).key@ by {
                assert(old_lics[a].key@ != old_lics[b].key@);
            }
            lemma_find_unique(lics, i as int);
            assert forall|k: Seq<char>| k != l.key@ implies find_license(lics, k) == find_license(old_lics, k) by {
                lemma_find_same(old_lics, lics, i as int, k);
            }
        }
    }

    /// Appends a license whose key is new.
    pub(crate) fn add_license(&mut self, l: LicenseRecord)
        requires
            old(self).wf(),
            old(self).license(l.key@) is None,
            l.max_sessions >= 1,
        ensures
            final(self).wf(),
            final(self).licenses() == old(self).licenses().push(l),
            final(self).license(l.key@) == Some(l),
            final(self).users() == old(self).users(),
            final(self).txs() == old(self).txs(),
            final(self).user_ids() == old(self).user_ids(),
            final(self).promos() == old(self).promos(),
    {
        let ghost old_lics = self.licenses();
        proof {
            assert forall|a: int| 0 <= a < old_lics.len() implies (#[trigger] old_lics[a]).key@ != l.key@ by {
                if old_lics[a].key@ == l.key@ {
                    lemma_find_unique(old_lics, a);
                }
            }
        }
        self.licenses.push(l);
        proof {
            let lics = self.licenses();
            assert(lics.drop_last() =~= old_lics);
            assert forall|a: int, b: int| 0 <= a < b < lics.len() implies (#[trigger] lics[a]).key@ != (#[trigger] lics[b]).key@ by {
                if b == lics.len() - 1 {
                    assert(lics[a] == old_lics[a]);
                } else {
                    assert(old_lics[a].key@ != old_lics[b].key@);
                }
            }
        }
    }
}

proof fn lemma_find_same(a: Seq<LicenseRecord>, b: Seq<LicenseRecord>, i: int, k: Seq<char>)
    requires
        0 <= i < a.len(),
        b == a.update(i, b[i]),
        a[i].key@ != k,
        b[i].key@ != k,
    ensures
        find_license(b, k) == find_license(a, k),
    decreases a.len(),
{
    if a.len() > 0 {
        if i < a.len() - 1 {
            let da = a.drop_last();
            let db = b.drop_last();
            assert(db =~= da.update(i, db[i]));
            lemma_find_same(da, db, i, k);
        } else {
            assert(b.drop_last() =~= a.drop_last());
        }
    }
}

/// The license lifecycle: issue, gift, link, extend, block and validate.
pub struct License;

impl License {
    pub fn new() -> (r: License) {
        License
    }

    /// Issues a license under `key`: unlinked when `owner` is [`UNLINKED`],
    /// else active; it runs `days` days from `now`.
    pub fn issue(
        &self,
        db: &mut Db,
        key: String,
        owner: i64,
        ty: LicenseType,
        days: u64,
        now: i64,
        max_sessions: i32,
    ) -> (r: Result<LicenseRecord, Error>)
        requires
            old(db).wf(),
        ensures
            final(db).wf(),
            r is Err ==> *final(db) == *old(db),
            old(db).license(key@) is Some ==> r == Err::<LicenseRecord, Error>(Error::LicenseKeyTaken),
            old(db).license(key@) is None && !expiry_fits(days, now) ==> r == Err::<
                LicenseRecord,
                Error,
            >(Error::Overflow),
            old(db).license(key@) is None && expiry_fits(days, now) && max_sessions < 1 ==> (r matches Err(
                Error::InvalidArgs(_),
            )),
            old(db).license(key@) is None && expiry_fits(days, now) && max_sessions >= 1 ==> {
                &&& r == Ok::<LicenseRecord, Error>(issued(key, owner, ty, days, now, max_sessions))
                &&& final(db).licenses() == old(db).licenses().push(
                    issued(key, owner, ty, days, now, max_sessions),
                )
                &&& final(db).license(key@) == Some(issued(key, owner, ty, days, now, max_sessions))
                &&& final(db).users() == old(db).users()
                &&& final(db).txs() == old(db).txs()
                &&& final(db).promos() == old(db).promos()
            },
    {
        match db.license_index(key.as_str()) {
            Some(_) => {
                return Err(Error::LicenseKeyTaken);
            },
            None => {},
        }
        let expires_at: i128 = now as i128 + (days as i128) * (DAY_SECS as i128);
        if expires_at > i64::MAX as i128 {
            return Err(Error::Overflow);
        }
        if max_sessions < 1 {
            return Err(Error::InvalidArgs("A license admits at least one session".to_owned()));
        }
        let l = LicenseRecord {
            key,
            tg_user_id: owner,
            license_type: ty,
            expires_at: expires_at as i64,
            is_blocked: false,
            created_at: now,
            max_sessions,
        };
        let r = l.duplicate();
        db.add_license(l);
        Ok(r)
    }

    /// Issues a license with a fresh random key to `tg_user_id`, whose account is
    /// created if missing.
    pub fn create(&self, db: &mut Db, tg_user_id: i64, ty: LicenseType, days: u64, now: i64) -> (r:
        Result<LicenseRecord, Error>)
        requires
            old(db).wf(),
        ensures
            final(db).wf(),
            final(db).has_user(tg_user_id),
            r is Err ==> r == Err::<LicenseRecord, Error>(Error::LicenseKeyTaken) || r == Err::<
                LicenseRecord,
                Error,
            >(Error::Overflow),
            expiry_fits(days, now) ==> r is Ok || r == Err::<LicenseRecord, Error>(Error::LicenseKeyTaken),
            r == Err::<LicenseRecord, Error>(Error::LicenseKeyTaken) ==> old(db).licenses().len() > 0,
            !expiry_fits(days, now) ==> r is Err,
            r matches Ok(l) ==> {
                &&& l.tg_user_id == tg_user_id
                &&& l.license_type == ty
                &&& !l.is_blocked
                &&& l.created_at == now
                &&& l.expires_at == now + days * DAY_SECS
                &&& l.max_sessions == DEFAULT_MAX_SESSIONS
                &&& old(db).license(l.key@) is None
                &&& final(db).licenses() == old(db).licenses().push(l)
                &&& final(db).license(l.key@) == Some(l)
            },
    {
        User::new().get_or_create(db, tg_user_id, now);
        self.issue(db, random_key(), tg_user_id, ty, days, now, DEFAULT_MAX_SESSIONS)
    }

    /// Issues an unlinked gift license; its clock starts when it is first linked.
    pub fn create_gift(&self, db: &mut Db, ty: LicenseType, days: u64, now: i64) -> (r: Result<
        LicenseRecord,
        Error,
    >)
        requires
            old(db).wf(),
        ensures
            final(db).wf(),
            r is Err ==> r == Err::<LicenseRecord, Error>(Error::LicenseKeyTaken) || r == Err::<
                LicenseRecord,
                Error,
            >(Error::Overflow),
            expiry_fits(days, now) ==> r is Ok || r == Err::<LicenseRecord, Error>(Error::LicenseKeyTaken),
            r == Err::<LicenseRecord, Error>(Error::LicenseKeyTaken) ==> old(db).licenses().len() > 0,
            !expiry_fits(days, now) ==> r is Err,
            r matches Ok(l) ==> {
                &&& l.is_unlinked()
                &&& l.license_type == ty
                &&& !l.is_blocked
                &&& l.created_at == now
                &&& l.expires_at == now + days * DAY_SECS
                &&& l.max_sessions == DEFAULT_MAX_SESSIONS
                &&& old(db).license(l.key@) is None
                &&& final(db).licenses() == old(db).licenses().push(l)
                &&& final(db).license(l.key@) == Some(l)
            },
    {
        User::new().get_or_create(db, UNLINKED, now);
        self.issue(db, random_key(), UNLINKED, ty, days, now, DEFAULT_MAX_SESSIONS)
    }

    pub fn by_key(&self, db: &Db, key: &str) -> (r: Option<LicenseRecord>)
        requires
            db.wf(),
        ensures
            r == db.license(key@),
    {
        match db.license_index(key) {
            Some(i) => Some(db.licenses[i].duplicate()),
            None => None,
        }
    }

    /// The licenses of `tg_user_id` in issue order; blocked ones only when
    /// `blocked` is set.
    pub fn by_user(&self, db: &Db, tg_user_id: i64, blocked: bool) -> (r: Vec<LicenseRecord>)
        requires
            db.wf(),
        ensures
            r@ == owned(db.licenses(), tg_user_id, blocked, db.licenses().len() as int),
    {
        let mut r: Vec<LicenseRecord> = Vec::new();
        let mut i: usize = 0;
        while i < db.licenses.len()
            invariant
                i <= db.licenses().len(),
                r@ == owned(db.licenses(), tg_user_id, blocked, i as int),
            decreases db.licenses().len() - i,
        {
            let l = &db.licenses[i];
            if l.tg_user_id == tg_user_id && (blocked || !l.is_blocked) {
                r.push(l.duplicate());
            }
            i = i + 1;
        }
        r
    }

    /// The license under `key` if it is usable at `now`: unblocked and not
    /// past its expiry. Never changes the store.
    pub fn validate(&self, db: &Db, key: &str, now: i64) -> (r: Result<LicenseRecord, Error>)
        requires
            db.wf(),
        ensures
            match db.license(key@) {
                None => r == Err::<LicenseRecord, Error>(Error::LicenseNotFound),
                Some(l) => if l.is_valid_at(now as int) {
                    r == Ok::<LicenseRecord, Error>(l)
                } else {
                    r == Err::<LicenseRecord, Error>(Error::LicenseInvalid)
                },
            },
    {
        match db.license_index(key) {
            Some(i) => {
                let l = &db.licenses[i];
                if l.is_blocked || l.expires_at < now {
                    Err(Error::LicenseInvalid)
                } else {
                    Ok(l.duplicate())
                }
            },
            None => Err(Error::LicenseNotFound),
        }
    }

    /// Extends the license under `key` to `now + duration` seconds and unblocks
    /// it, whatever its state was.
    pub fn expires(&self, db: &mut Db, key: &str, duration: i64, now: i64) -> (r: Result<i64, Error>)
        requires
            old(db).wf(),
        ensures
            final(db).wf(),
            r is Err ==> *final(db) == *old(db),
            match old(db).license(key@) {
                None => r == Err::<i64, Error>(Error::LicenseNotFound),
                Some(l) => if duration < 0 {
                    r matches Err(Error::InvalidArgs(_))
                } else if now + duration > i64::MAX {
                    r == Err::<i64, Error>(Error::Overflow)
                } else {
                    &&& r == Ok::<i64, Error>((now + duration) as i64)
                    &&& final(db).license(key@) == Some(with_expiry(l, (now + duration) as i64))
                    &&& forall|k: Seq<char>| k != key@ ==> final(db).license(k) == old(db).license(k)
                    &&& final(db).users() == old(db).users()
                    &&& final(db).txs() == old(db).txs()
                },
            },
    {
        let i = match db.license_index(key) {
            Some(i) => i,
            None => {
                return Err(Error::LicenseNotFound);
            },
        };
        if duration < 0 {
            return Err(Error::InvalidArgs("Duration must not be negative".to_owned()));
        }
        if now > i64::MAX - duration {
            return Err(Error::Overflow);
        }
        let new_exp = now + duration;
        let mut l = db.licenses[i].duplicate();
        l.expires_at = new_exp;
        l.is_blocked = false;
        db.replace_license(i, l);
        Ok(new_exp)
    }

    pub fn set_blocked(&self, db: &mut Db, key: &str, blocked: bool) -> (r: Result<(), Error>)
        requires
            old(db).wf(),
        ensures
            final(db).wf(),
            old(db).license(key@) is None ==> r == Err::<(), Error>(Error::LicenseNotFound) && *final(db)
                == *old(db),
            old(db).license(key@) matches Some(l) ==> {
                &&& r is Ok
                &&& final(db).license(key@) == Some(with_blocked(l, blocked))
                &&& forall|k: Seq<char>| k != key@ ==> final(db).license(k) == old(db).license(k)
                &&& final(db).users() == old(db).users()
                &&& final(db).txs() == old(db).txs()
            },
    {
        let i = match db.license_index(key) {
            Some(i) => i,
            None => {
                return Err(Error::LicenseNotFound);
            },
        };
        let mut l = db.licenses[i].duplicate();
        l.is_blocked = blocked;
        db.replace_license(i, l);
        Ok(())
    }

    /// Whether the promotional window contains the current time.
    pub fn is_promo_active(&self) -> (r: bool) {
        promo_active_now()
    }

    pub fn count(&self, db: &Db) -> (r: usize)
        ensures
            r == db.licenses().len(),
    {
        db.licenses.len()
    }

    /// Number of licenses that are unblocked and expire after `now`.
    pub fn count_active(&self, db: &Db, now: i64) -> (r: usize)
        ensures
            r == active_count(db.licenses(), now, db.licenses().len() as int),
    {
        let mut n: usize = 0;
        let mut i: usize = 0;
        while i < db.licenses.len()
            invariant
                i <= db.licenses().len(),
                n == active_count(db.licenses(), now, i as int),
                n <= i,
            decreases db.licenses().len() - i,
        {
            let l = &db.licenses[i];
            if !l.is_blocked && l.expires_at > now {
                n = n + 1;
            }
            i = i + 1;
        }
        n
    }

    /// Links the license under `key` to `tg_user_id`. The first link of a gift
    /// restarts its clock: it then runs its granted span from `now`. Linking
    /// again to the same owner changes nothing; to another owner, it fails.
    pub fn link_to_user(&self, db: &mut Db, key: &str, tg_user_id: i64, now: i64) -> (r: Result<
        LicenseRecord,
        Error,
    >)
        requires
            old(db).wf(),
        ensures
            final(db).wf(),
            final(db).has_user(tg_user_id),
            final(db).txs() == old(db).txs(),
            match old(db).license(key@) {
                None => r == Err::<LicenseRecord, Error>(Error::LicenseNotFound),
                Some(l) => if !l.is_unlinked() && l.tg_user_id != tg_user_id {
                    r == Err::<LicenseRecord, Error>(Error::LicenseAlreadyLinked)
                } else if !l.is_unlinked() {
                    r == Ok::<LicenseRecord, Error>(l) && final(db).license(key@) == Some(l)
                } else if !in_i64(activated_expiry(l, now)) {
                    r == Err::<LicenseRecord, Error>(Error::Overflow)
                } else {
                    &&& r == Ok::<LicenseRecord, Error>(
                        with_owner(l, tg_user_id, activated_expiry(l, now) as i64),
                    )
                    &&& final(db).license(key@) == Some(
                        with_owner(l, tg_user_id, activated_expiry(l, now) as i64),
                    )
                },
            },
            forall|k: Seq<char>| k != key@ ==> final(db).license(k) == old(db).license(k),
            r is Err ==> final(db).license(key@) == old(db).license(key@) && final(db).licenses() == old(db).licenses(),
    {
        User::new().get_or_create(db, tg_user_id, now);
        let i = match db.license_index(key) {
            Some(i) => i,
            None => {
                return Err(Error::LicenseNotFound);
            },
        };
        let owner = db.licenses[i].tg_user_id;
        if owner != UNLINKED && owner != tg_user_id {
            return Err(Error::LicenseAlreadyLinked);
        }
        let mut l = db.licenses[i].duplicate();
        if owner == UNLINKED {
            let span: i128 = l.expires_at as i128 - l.created_at as i128;
            let exp: i128 = now as i128 + span;
            if exp > i64::MAX as i128 || exp < i64::MIN as i128 {
                return Err(Error::Overflow);
            }
            l.expires_at = exp as i64;
        }
        l.tg_user_id = tg_user_id;
        let r = l.duplicate();
        db.replace_license(i, l);
        Ok(r)
    }

    /// Grants a trial under `key` to `tg_user_id` once per promotion, while the
    /// promotional window contains `now`.
    pub fn claim_promo_with_key(
        &self,
        db: &mut Db,
        tg_user_id: i64,
        promo_name: &str,
        key: String,
        now: i64,
    ) -> (r: Result<LicenseRecord, Error>)
        requires
            old(db).wf(),
        ensures
            final(db).wf(),
            !in_promo_window(now as int) ==> r == Err::<LicenseRecord, Error>(Error::Promo(Promo::Inactive))
                && *final(db) == *old(db),
            in_promo_window(now as int) && old(db).promos().contains((tg_user_id, promo_name@)) ==> r
                == Err::<LicenseRecord, Error>(Error::Promo(Promo::Claimed)),
            in_promo_window(now as int) && !old(db).promos().contains((tg_user_id, promo_name@))
                && old(db).license(key@) is None ==> {
                &&& r == Ok::<LicenseRecord, Error>(
                    issued(key, tg_user_id, LicenseType::Trial, PROMO_TRIAL_DAYS, now, DEFAULT_MAX_SESSIONS),
                )
                &&& final(db).promos() == old(db).promos().push((tg_user_id, promo_name@))
                &&& final(db).license(key@) == Some(
                    issued(key, tg_user_id, LicenseType::Trial, PROMO_TRIAL_DAYS, now, DEFAULT_MAX_SESSIONS),
                )
            },
            in_promo_window(now as int) && !old(db).promos().contains((tg_user_id, promo_name@))
                && old(db).license(key@) is Some ==> r == Err::<LicenseRecord, Error>(Error::LicenseKeyTaken),
    {
        if !promo_active_at(now) {
            return Err(Error::Promo(Promo::Inactive));
        }
        User::new().get_or_create(db, tg_user_id, now);
        let name = promo_name.to_owned();
        let mut i: usize = 0;
        while i < db.promos.len()
            invariant
                db.wf(),
                in_promo_window(now as int),
                db.promos() == old(db).promos(),
                db.licenses() == old(db).licenses(),
                i <= db.promos@.len(),
                name@ == promo_name@,
                forall|k: int| 0 <= k < i ==> db.promos()[k] != (tg_user_id, promo_name@),
            decreases db.promos@.len() - i,
        {
            if db.promos[i].0 == tg_user_id && db.promos[i].1 == name {
                proof { assert(db.promos()[i as int] == (tg_user_id, promo_name@)); }
                return Err(Error::Promo(Promo::Claimed));
            }
            i = i + 1;
        }
        proof {
            assert(!db.promos().contains((tg_user_id, promo_name@)));
        }
        let l = match self.issue(db, key, tg_user_id, LicenseType::Trial, PROMO_TRIAL_DAYS, now, DEFAULT_MAX_SESSIONS) {
            Ok(l) => l,
            Err(e) => {
                return Err(e);
            },
        };
        let ghost before = db.promos();
        db.promos.push((tg_user_id, name));
        proof {
            assert(db.promos() =~= before.push((tg_user_id, promo_name@)));
        }
        Ok(l)
    }

    /// Grants a promotional trial with a fresh random key, if the promotional
    /// window contains `now` and `tg_user_id` has not claimed `promo_name`.
    pub fn claim_promo(&self, db: &mut Db, tg_user_id: i64, promo_name: &str, now: i64) -> (r: Result<
        LicenseRecord,
        Error,
    >)
        requires
            old(db).wf(),
        ensures
            final(db).wf(),
            !in_promo_window(now as int) ==> r == Err::<LicenseRecord, Error>(Error::Promo(Promo::Inactive)),
            in_promo_window(now as int) && old(db).promos().contains((tg_user_id, promo_name@)) ==> r
                == Err::<LicenseRecord, Error>(Error::Promo(Promo::Claimed)),
            in_promo_window(now as int) && !old(db).promos().contains((tg_user_id, promo_name@)) ==> (
            r is Ok || r == Err::<LicenseRecord, Error>(Error::LicenseKeyTaken)),
            r == Err::<LicenseRecord, Error>(Error::LicenseKeyTaken) ==> old(db).licenses().len() > 0,
            r matches Ok(l) ==> {
                &&& l.tg_user_id == tg_user_id
                &&& l.license_type == LicenseType::Trial
                &&& l.expires_at == now + PROMO_TRIAL_DAYS * DAY_SECS
                &&& final(db).promos() == old(db).promos().push((tg_user_id, promo_name@))
                &&& final(db).license(l.key@) == Some(l)
            },
    {
        self.claim_promo_with_key(db, tg_user_id, promo_name, random_key(), now)
    }
}

} // verus!
