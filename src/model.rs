use vstd::prelude::*;

verus! {

/// What a user may do with referral earnings.
#[derive(Debug, Clone, Copy, PartialEq, Eq, Structural)]
pub enum UserRole {
    User,
    Creator,
    Admin,
}

impl UserRole {
    /// Creators and admins hold referral-capable status.
    pub open spec fn is_creator(self) -> bool {
        self is Creator || self is Admin
    }

    pub fn can_withdraw(&self) -> (r: bool)
        ensures
            r == self.is_creator(),
    {
        match self {
            UserRole::User => false,
            _ => true,
        }
    }
}

#[derive(Debug, Clone, Copy, PartialEq, Eq, Structural)]
pub enum LicenseType {
    Trial,
    Pro,
}

/// The kind of a ledger row.
#[derive(Debug, Clone, Copy, PartialEq, Eq, Structural)]
pub enum TransactionType {
    Deposit,
    Purchase,
    ReferralBonus,
    Cashback,
    Withdrawal,
}

/// One account. `balance` is in the smallest currency unit.
#[derive(Debug)]
pub struct UserRecord {
    pub tg_user_id: i64,
    pub reg_date: i64,
    pub balance: i64,
    pub role: UserRole,
    pub referred_by: Option<i64>,
    pub commission_rate: i32,
    pub discount_percent: i32,
    pub referral_sales: i32,
    pub referral_earnings: i64,
    pub referral_code: Option<String>,
}

/// One append-only ledger row.
#[derive(Debug)]
pub struct Transaction {
    pub id: usize,
    pub user_id: i64,
    pub amount: i64,
    pub tx_type: TransactionType,
    pub description: Option<String>,
    pub referral_code: Option<String>,
    pub created_at: i64,
}

/// One license. An owner of [`UNLINKED`] marks a gift that nobody has activated.
#[derive(Debug)]
pub struct LicenseRecord {
    pub key: String,
    pub tg_user_id: i64,
    pub license_type: LicenseType,
    pub expires_at: i64,
    pub is_blocked: bool,
    pub created_at: i64,
    pub max_sessions: i32,
}

/// An invoice of the payment provider that waits to be paid.
#[derive(Debug, Clone, Copy, PartialEq, Eq, Structural)]
pub struct PendingInvoice {
    pub invoice_id: i64,
    pub user_id: i64,
    pub amount_nano: i64,
    pub referrer_id: Option<i64>,
    pub created_at: i64,
    pub expires_at: i64,
}

/// The owner id of a license that is not linked to anybody yet.
pub const UNLINKED: i64 = 0;

pub fn copy_text(s: &Option<String>) -> (r: Option<String>)
    ensures
        r == *s,
{
    match s {
        Some(t) => Some(t.clone()),
        None => None,
    }
}

impl UserRecord {
    /// A fresh account with the default referral terms.
    pub open spec fn fresh(id: i64, now: i64) -> UserRecord {
        UserRecord {
            tg_user_id: id,
            reg_date: now,
            balance: 0,
            role: UserRole::User,
            referred_by: None,
            commission_rate: 10,
            discount_percent: 3,
            referral_sales: 0,
            referral_earnings: 0,
            referral_code: None,
        }
    }

    pub fn new_default(id: i64, now: i64) -> (r: UserRecord)
        ensures
            r == UserRecord::fresh(id, now),
    {
        UserRecord {
            tg_user_id: id,
            reg_date: now,
            balance: 0,
            role: UserRole::User,
            referred_by: None,
            commission_rate: 10,
            discount_percent: 3,
            referral_sales: 0,
            referral_earnings: 0,
            referral_code: None,
        }
    }

    pub fn duplicate(&self) -> (r: UserRecord)
        ensures
            r == *self,
    {
        UserRecord {
            tg_user_id: self.tg_user_id,
            reg_date: self.reg_date,
            balance: self.balance,
            role: self.role,
            referred_by: self.referred_by,
            commission_rate: self.commission_rate,
            discount_percent: self.discount_percent,
            referral_sales: self.referral_sales,
            referral_earnings: self.referral_earnings,
            referral_code: copy_text(&self.referral_code),
        }
    }
}

impl Transaction {
    pub fn duplicate(&self) -> (r: Transaction)
        ensures
            r == *self,
    {
        Transaction {
            id: self.id,
            user_id: self.user_id,
            amount: self.amount,
            tx_type: self.tx_type,
            description: copy_text(&self.description),
            referral_code: copy_text(&self.referral_code),
            created_at: self.created_at,
        }
    }
}

impl LicenseRecord {
    /// Usable now: not blocked and not past its expiry.
    pub open spec fn is_valid_at(self, now: int) -> bool {
        !self.is_blocked && now <= self.expires_at
    }

    pub open spec fn is_unlinked(self) -> bool {
        self.tg_user_id == UNLINKED
    }

    pub fn duplicate(&self) -> (r: LicenseRecord)
        ensures
            r == *self,
    {
        LicenseRecord {
            key: self.key.clone(),
            tg_user_id: self.tg_user_id,
            license_type: self.license_type,
            expires_at: self.expires_at,
            is_blocked: self.is_blocked,
            created_at: self.created_at,
            max_sessions: self.max_sessions,
        }
    }
}

} // verus!
