//! Licensing and session authority: a per-device session registry under a
//! per-license quota, the license lifecycle, and an auditable balance ledger
//! with referral commissions, each stated and proved against a mathematical
//! model.

pub mod clock;
pub mod error;
pub mod laws;
pub mod ledger;
pub mod license;
pub mod model;
pub mod payment;
pub mod purchase;
pub mod referral;
pub mod sessions;
pub mod store;
pub mod text;
pub mod users;
