use std::collections::HashMap;
use vstd::prelude::*;
use crate::model::{
    LicenseRecord, PendingInvoice, Transaction, TransactionType, UserRecord,
};

verus! {

broadcast use vstd::std_specs::hash::group_hash_axioms;

/// Sum of the amounts of the rows of `txs` that belong to `uid`.
pub open spec fn tx_sum(txs: Seq<Transaction>, uid: i64) -> int
    decreases txs.len(),
{
    if txs.len() == 0 {
        0
    } else {
        tx_sum(txs.drop_last(), uid) + if txs.last().user_id == uid {
            txs.last().amount as int
        } else {
            0
        }
    }
}

/// `new` is `old` with one row appended: the next id, the given owner,
/// amount, kind and time.
pub open spec fn appended(
    old: Seq<Transaction>,
    new: Seq<Transaction>,
    uid: i64,
    amount: int,
    kind: TransactionType,
    now: i64,
) -> bool {
    &&& new.len() == old.len() + 1
    &&& new.drop_last() == old
    &&& new.last().id == old.len()
    &&& new.last().user_id == uid
    &&& new.last().amount == amount
    &&& new.last().tx_type == kind
    &&& new.last().created_at == now
}

/// The license whose key is `key`, if any (the last such, where keys are unique
/// the only one).
pub open spec fn find_license(lics: Seq<LicenseRecord>, key: Seq<char>) -> Option<LicenseRecord>
    decreases lics.len(),
{
    if lics.len() == 0 {
        None
    } else if lics.last().key@ == key {
        Some(lics.last())
    } else {
        find_license(lics.drop_last(), key)
    }
}

/// Two vanity codes that cannot be confused: one is absent, or their texts differ.
pub open spec fn codes_differ(a: Option<String>, b: Option<String>) -> bool {
    a matches Some(x) ==> (b matches Some(y) ==> x@ != y@)
}

/// Percentages lie in 0..=100.
pub open spec fn is_percent(p: i32) -> bool {
    0 <= p <= 100
}

/// The persistent state of the authority: accounts, the ledger, licenses,
/// claimed promotions and pending invoices.
pub struct Db {
    pub(crate) users: HashMap<i64, UserRecord>,
    pub(crate) user_ids: Vec<i64>,
    pub(crate) transactions: Vec<Transaction>,
    pub(crate) licenses: Vec<LicenseRecord>,
    pub(crate) promos: Vec<(i64, String)>,
    pub(crate) pending: Vec<PendingInvoice>,
}

impl Db {
    pub open(crate) spec fn users(&self) -> Map<i64, UserRecord> {
        self.users@
    }

    pub open(crate) spec fn user_ids(&self) -> Seq<i64> {
        self.user_ids@
    }

    pub open(crate) spec fn txs(&self) -> Seq<Transaction> {
        self.transactions@
    }

    pub open(crate) spec fn licenses(&self) -> Seq<LicenseRecord> {
        self.licenses@
    }

    pub open(crate) spec fn promos(&self) -> Seq<(i64, Seq<char>)> {
        self.promos@.map_values(|p: (i64, String)| (p.0, p.1@))
    }

    pub open(crate) spec fn pending(&self) -> Seq<PendingInvoice> {
        self.pending@
    }

    pub open spec fn has_user(&self, uid: i64) -> bool {
        self.users().contains_key(uid)
    }

    pub open spec fn balance_of(&self, uid: i64) -> int {
        self.users()[uid].balance as int
    }

    pub open spec fn license(&self, key: Seq<char>) -> Option<LicenseRecord> {
        find_license(self.licenses(), key)
    }

    /// The invariants of the store.
    pub open spec fn wf(&self) -> bool {
        &&& forall|uid: i64| #[trigger]
            self.users().contains_key(uid) ==> self.users()[uid].tg_user_id == uid
        &&& forall|uid: i64| #[trigger]
            self.users().contains_key(uid) ==> {
                let u = self.users()[uid];
                &&& u.balance >= 0
                &&& u.balance == tx_sum(self.txs(), uid)
                &&& is_percent(u.commission_rate)
                &&& is_percent(u.discount_percent)
                &&& u.referral_sales >= 0
                &&& u.referral_earnings >= 0
            }
        &&& self.user_ids().no_duplicates()
        &&& forall|i: int|
            0 <= i < self.user_ids().len() ==> self.users().contains_key(#[trigger] self.user_ids()[i])
        &&& forall|uid: i64| #[trigger]
            self.users().contains_key(uid) ==> self.user_ids().contains(uid)
        &&& forall|i: int|
            0 <= i < self.txs().len() ==> {
                &&& (#[trigger] self.txs()[i]).id == i
                &&& self.users().contains_key(self.txs()[i].user_id)
            }
        &&& forall|a: i64, b: i64|
            #![trigger self.users()[a].referral_code, self.users()[b].referral_code]
            self.users().contains_key(a) && self.users().contains_key(b) && a != b ==> codes_differ(
                self.users()[a].referral_code,
                self.users()[b].referral_code,
            )
        &&& forall|i: int| 0 <= i < self.licenses().len() ==> (#[trigger] self.licenses()[i]).max_sessions >= 1
        &&& forall|i: int, j: int|
            0 <= i < j < self.licenses().len() ==> (#[trigger] self.licenses()[i]).key@
                != (#[trigger] self.licenses()[j]).key@
    }

    /// An empty store.
    pub fn new() -> (r: Db)
        ensures
            r.wf(),
            r.users() == Map::<i64, UserRecord>::empty(),
            r.txs() == Seq::<Transaction>::empty(),
            r.licenses() == Seq::<LicenseRecord>::empty(),
            r.promos() == Seq::<(i64, Seq<char>)>::empty(),
            r.pending() == Seq::<PendingInvoice>::empty(),
    {
        let r = Db {
            users: HashMap::new(),
            user_ids: Vec::new(),
            transactions: Vec::new(),
            licenses: Vec::new(),
            promos: Vec::new(),
            pending: Vec::new(),
        };
        assert(r.promos() =~= Seq::<(i64, Seq<char>)>::empty());
        r
    }
}

/// `u` with its balance replaced.
pub open spec fn with_balance(u: UserRecord, balance: i64) -> UserRecord {
    UserRecord {
        tg_user_id: u.tg_user_id,
        reg_date: u.reg_date,
        balance,
        role: u.role,
        referred_by: u.referred_by,
        commission_rate: u.commission_rate,
        discount_percent: u.discount_percent,
        referral_sales: u.referral_sales,
        referral_earnings: u.referral_earnings,
        referral_code: u.referral_code,
    }
}

/// `new` is `old` after `amount` was applied to the balance of `uid` together
/// with one ledger row of the given kind; nothing else changed.
pub open spec fn posted(old: Db, new: Db, uid: i64, amount: int, kind: TransactionType, now: i64) -> bool {
    &&& new.users() == old.users().insert(
        uid,
        with_balance(old.users()[uid], (old.balance_of(uid) + amount) as i64),
    )
    &&& appended(old.txs(), new.txs(), uid, amount, kind, now)
    &&& new.user_ids() == old.user_ids()
    &&& new.licenses() == old.licenses()
    &&& new.promos() == old.promos()
    &&& new.pending() == old.pending()
}

impl Db {
    /// Applies a signed `amount` to the balance of `uid` and logs it, in one step.
    pub(crate) fn post(
        &mut self,
        uid: i64,
        amount: i64,
        kind: TransactionType,
        description: Option<String>,
        referral_code: Option<String>,
        now: i64,
    ) -> (new_balance: i64)
        requires
            old(self).wf(),
            old(self).has_user(uid),
            0 <= old(self).balance_of(uid) + amount <= i64::MAX,
        ensures
            final(self).wf(),
            new_balance == old(self).balance_of(uid) + amount,
            final(self).users() == old(self).users().insert(
                uid,
                with_balance(old(self).users()[uid], new_balance),
            ),
            appended(old(self).txs(), final(self).txs(), uid, amount as int, kind, now),
            final(self).txs().last().description == description,
            final(self).txs().last().referral_code == referral_code,
            final(self).user_ids() == old(self).user_ids(),
            final(self).licenses() == old(self).licenses(),
            final(self).promos() == old(self).promos(),
            final(self).pending() == old(self).pending(),
    {
        let ghost old_txs = self.txs();
        let ghost old_users = self.users();
        let mut u = self.users.remove(&uid).unwrap();
        let new_balance = u.balance + amount;
        u.balance = new_balance;
        proof {
            assert(u == with_balance(old_users[uid], new_balance));
        }
        self.users.insert(uid, u);
        let t = Transaction {
            id: self.transactions.len(),
            user_id: uid,
            amount,
            tx_type: kind,
            description,
            referral_code,
            created_at: now,
        };
        self.transactions.push(t);
        proof {
            assert(self.users() =~= old_users.insert(uid, with_balance(old_users[uid], new_balance)));
            assert(self.txs().drop_last() =~= old_txs);
            assert forall|v: i64| #[trigger] self.users().contains_key(v) implies tx_sum(self.txs(), v)
                == tx_sum(old_txs, v) + if v == uid { amount as int } else { 0 } by {
                lemma_tx_sum_push(old_txs, t, v);
            }
            assert forall|v: i64| #[trigger] self.users().contains_key(v) implies self.user_ids().contains(v) by {
                assert(old_users.contains_key(v));
            }
        }
        new_balance
    }
}

/// `u` may stand in the store beside the other accounts: its terms are in
/// range and its vanity code, if any, belongs to no other account.
pub open spec fn fits(db: Db, u: UserRecord) -> bool {
    &&& is_percent(u.commission_rate)
    &&& is_percent(u.discount_percent)
    &&& u.referral_sales >= 0
    &&& u.referral_earnings >= 0
    &&& forall|v: i64| #[trigger]
        db.users().contains_key(v) && v != u.tg_user_id ==> codes_differ(
            u.referral_code,
            db.users()[v].referral_code,
        )
}

/// The account that holds the vanity code `code`.
pub open spec fn code_owner(db: Db, uid: i64, code: Seq<char>) -> bool {
    db.users().contains_key(uid) && (db.users()[uid].referral_code matches Some(c) && c@ == code)
}

impl Db {
    /// Replaces the account of `u.tg_user_id`, keeping its balance.
    pub(crate) fn replace_user(&mut self, u: UserRecord)
        requires
            old(self).wf(),
            old(self).has_user(u.tg_user_id),
            u.balance == old(self).users()[u.tg_user_id].balance,
            fits(*old(self), u),
        ensures
            final(self).wf(),
            final(self).users() == old(self).users().insert(u.tg_user_id, u),
            final(self).txs() == old(self).txs(),
            final(self).user_ids() == old(self).user_ids(),
            final(self).licenses() == old(self).licenses(),
            final(self).promos() == old(self).promos(),
            final(self).pending() == old(self).pending(),
    {
        let ghost old_users = self.users();
        self.users.insert(u.tg_user_id, u);
        proof {
            assert forall|v: i64| #[trigger] self.users().contains_key(v) implies self.user_ids().contains(v) by {
                assert(old_users.contains_key(v));
            }
        }
    }

    /// Adds an account with no ledger rows.
    pub(crate) fn add_user(&mut self, u: UserRecord)
        requires
            old(self).wf(),
            !old(self).has_user(u.tg_user_id),
            u.balance == 0,
            fits(*old(self), u),
        ensures
            final(self).wf(),
            final(self).users() == old(self).users().insert(u.tg_user_id, u),
            final(self).txs() == old(self).txs(),
            final(self).licenses() == old(self).licenses(),
            final(self).promos() == old(self).promos(),
            final(self).pending() == old(self).pending(),
    {
        let ghost old_users = self.users();
        let ghost old_ids = self.user_ids();
        let id = u.tg_user_id;
        proof {
            assert forall|i: int| 0 <= i < self.txs().len() implies (#[trigger] self.txs()[i]).user_id != id by {}
            lemma_tx_sum_absent(self.txs(), id);
        }
        self.users.insert(id, u);
        self.user_ids.push(id);
        proof {
            assert(self.user_ids().drop_last() == old_ids);
            assert forall|v: i64| #[trigger] self.users().contains_key(v) implies self.user_ids().contains(v) by {
                if v != id {
                    assert(old_users.contains_key(v));
                    let k = choose|k: int| 0 <= k < old_ids.len() && old_ids[k] == v;
                    assert(self.user_ids()[k] == v);
                } else {
                    assert(self.user_ids()[old_ids.len() as int] == v);
                }
            }
            assert forall|i: int| 0 <= i < self.user_ids().len() implies self.users().contains_key(#[trigger] self.user_ids()[i]) by {
                if i < old_ids.len() {
                    assert(self.user_ids()[i] == old_ids[i]);
                }
            }
            assert forall|i: int, j: int| 0 <= i < self.user_ids().len() && 0 <= j < self.user_ids().len() && i != j
                implies self.user_ids()[i] != self.user_ids()[j] by {
                if i < old_ids.len() && j < old_ids.len() {
                    assert(self.user_ids()[i] == old_ids[i]);
                    assert(self.user_ids()[j] == old_ids[j]);
                } else if i < old_ids.len() {
                    assert(old_users.contains_key(old_ids[i]));
                } else if j < old_ids.len() {
                    assert(old_users.contains_key(old_ids[j]));
                }
            }
        }
    }

    /// The account that holds the vanity code `code`, if any.
    pub(crate) fn find_code_owner(&self, code: &String) -> (r: Option<i64>)
        requires
            self.wf(),
        ensures
            r matches Some(uid) ==> code_owner(*self, uid, code@),
            r is None ==> forall|uid: i64| !code_owner(*self, uid, code@),
    {
        let mut i: usize = 0;
        while i < self.user_ids.len()
            invariant
                self.wf(),
                i <= self.user_ids().len(),
                forall|k: int| 0 <= k < i ==> !code_owner(*self, #[trigger] self.user_ids()[k], code@),
            decreases self.user_ids().len() - i,
        {
            let uid = self.user_ids[i];
            let u = self.users.get(&uid).unwrap();
            match &u.referral_code {
                Some(c) => {
                    if *c == *code {
                        return Some(uid);
                    }
                },
                None => {},
            }
            i = i + 1;
        }
        proof {
            assert forall|uid: i64| !code_owner(*self, uid, code@) by {
                if self.users().contains_key(uid) {
                    let k = choose|k: int| 0 <= k < self.user_ids().len() && self.user_ids()[k] == uid;
                }
            }
        }
        None
    }
}

pub proof fn lemma_tx_sum_push(txs: Seq<Transaction>, t: Transaction, uid: i64)
    ensures
        tx_sum(txs.push(t), uid) == tx_sum(txs, uid) + if t.user_id == uid {
            t.amount as int
        } else {
            0
        },
{
    assert(txs.push(t).drop_last() =~= txs);
}

pub proof fn lemma_tx_sum_absent(txs: Seq<Transaction>, uid: i64)
    requires
        forall|i: int| 0 <= i < txs.len() ==> (#[trigger] txs[i]).user_id != uid,
    ensures
        tx_sum(txs, uid) == 0,
    decreases txs.len(),
{
    if txs.len() > 0 {
        lemma_tx_sum_absent(txs.drop_last(), uid);
    }
}

} // verus!
