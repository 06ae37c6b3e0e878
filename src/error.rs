use vstd::prelude::*;

verus! {

/// Why a promotional claim was refused.
#[derive(Debug, Clone, Copy, PartialEq, Eq, Structural)]
pub enum Promo {
    Inactive,
    Claimed,
}

/// Business outcomes that the core reports to its callers.
#[derive(Debug, Clone, PartialEq, Eq)]
pub enum Error {
    UserNotFound,
    LicenseNotFound,
    LicenseInvalid,
    LicenseAlreadyLinked,
    LicenseKeyTaken,
    InsufficientBalance,
    WithdrawalNotAllowed,
    ReferralNotFound,
    Overflow,
    InvalidArgs(String),
    Promo(Promo),
}

impl Error {
    /// A human-readable description of the error.
    pub fn message(&self) -> (r: String)
        ensures
            self matches Error::InvalidArgs(m) ==> r@ == m@,
    {
        match self {
            Error::UserNotFound => "User not found".to_owned(),
            Error::LicenseNotFound => "License not found".to_owned(),
            Error::LicenseInvalid => "License is expired or blocked".to_owned(),
            Error::LicenseAlreadyLinked => "License is already linked to another user".to_owned(),
            Error::LicenseKeyTaken => "License key is already in use".to_owned(),
            Error::InsufficientBalance => "Insufficient balance".to_owned(),
            Error::WithdrawalNotAllowed => "Withdrawal is only allowed for creators".to_owned(),
            Error::ReferralNotFound => "Referral not found".to_owned(),
            Error::Overflow => "Amount out of range".to_owned(),
            Error::InvalidArgs(msg) => msg.clone(),
            Error::Promo(Promo::Inactive) => "Promo is not active".to_owned(),
            Error::Promo(Promo::Claimed) => "Promo already claimed".to_owned(),
        }
    }
}

} // verus!
