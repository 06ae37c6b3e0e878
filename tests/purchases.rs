use license_authority::clock::DAY_SECS;
use license_authority::error::Error;
use license_authority::ledger::Balance;
use license_authority::license::License;
use license_authority::model::{LicenseType, TransactionType, UserRecord, UserRole};
use license_authority::purchase::{discounted_price, plan, Purchase};
use license_authority::referral::{MONTH_PRICE, NANO_USDT, QUARTER_PRICE};
use license_authority::store::Db;
use license_authority::users::User;

const NOW: i64 = 1_700_000_000;

fn account(id: i64, balance: i64, role: UserRole, rate: i32, discount: i32) -> UserRecord {
    UserRecord {
        tg_user_id: id,
        reg_date: NOW,
        balance,
        role,
        referred_by: None,
        commission_rate: rate,
        discount_percent: discount,
        referral_sales: 0,
        referral_earnings: 0,
        referral_code: None,
    }
}

#[test]
fn referred_purchase_charges_discount_and_pays_commission() {
    let mut db = Db::new();
    db.insert_user(account(1, 20 * NANO_USDT, UserRole::User, 10, 3)).unwrap();
    db.insert_user(account(2, 0, UserRole::Creator, 20, 10)).unwrap();
    let res = Purchase::new().buy(&mut db, 1, 30, 10 * NANO_USDT, Some(2), NOW).unwrap();
    assert_eq!(res.price, 9 * NANO_USDT);
    assert_eq!(res.new_balance, 11 * NANO_USDT);
    assert_eq!(res.commission, Some(1_800_000));
    let referrer = User::new().by_id(&db, 2).unwrap();
    assert_eq!(referrer.balance, 1_800_000);
    assert_eq!(referrer.referral_sales, 1);
    assert_eq!(referrer.referral_earnings, 1_800_000);
    assert_eq!(res.license.tg_user_id, 1);
    assert_eq!(res.license.license_type, LicenseType::Pro);
    assert_eq!(res.license.expires_at, NOW + 30 * DAY_SECS);
    assert!(License::new().validate(&db, &res.license.key, NOW).is_ok());
}

#[test]
fn purchase_without_referrer_pays_full_price() {
    let mut db = Db::new();
    db.insert_user(account(1, MONTH_PRICE, UserRole::User, 10, 3)).unwrap();
    let res = Purchase::new().buy(&mut db, 1, 30, MONTH_PRICE, None, NOW).unwrap();
    assert_eq!(res.price, MONTH_PRICE);
    assert_eq!(res.new_balance, 0);
    assert_eq!(res.commission, None);
}

#[test]
fn purchase_fails_cleanly_without_funds() {
    let mut db = Db::new();
    db.insert_user(account(1, 100, UserRole::User, 10, 3)).unwrap();
    let r = Purchase::new().buy(&mut db, 1, 30, MONTH_PRICE, None, NOW);
    assert!(matches!(r, Err(Error::InsufficientBalance)));
    assert_eq!(Balance::new().get(&db, 1).unwrap(), 100);
    assert_eq!(License::new().count(&db), 0);
    assert!(matches!(Purchase::new().buy(&mut db, 9, 30, MONTH_PRICE, None, NOW), Err(Error::UserNotFound)));
    assert!(matches!(Purchase::new().buy(&mut db, 1, 30, 0, None, NOW), Err(Error::InvalidArgs(_))));
}

#[test]
fn failed_issue_is_refunded() {
    let mut db = Db::new();
    db.insert_user(account(1, 1000, UserRole::User, 10, 3)).unwrap();
    License::new().issue(&mut db, "taken".to_string(), 5, LicenseType::Pro, 1, NOW, 1).unwrap();
    let r = Purchase::new().buy_with_key(&mut db, 1, 30, 400, None, "taken".to_string(), NOW);
    assert!(matches!(r, Err(Error::LicenseKeyTaken)));
    assert_eq!(Balance::new().get(&db, 1).unwrap(), 1000);
    let rows = Balance::new().transactions(&db, 1, 2);
    assert_eq!(rows[0].amount, 400);
    assert_eq!(rows[0].tx_type, TransactionType::Deposit);
    assert_eq!(rows[0].description.as_deref(), Some("Refund: license creation failed"));
    assert_eq!(rows[1].amount, -400);
}

#[test]
fn extension_restarts_the_clock_and_checks_ownership() {
    let mut db = Db::new();
    db.insert_user(account(1, QUARTER_PRICE, UserRole::User, 10, 3)).unwrap();
    License::new().issue(&mut db, "mine".to_string(), 1, LicenseType::Pro, 1, NOW, 1).unwrap();
    License::new().issue(&mut db, "theirs".to_string(), 2, LicenseType::Pro, 1, NOW, 1).unwrap();
    assert!(matches!(
        Purchase::new().extend(&mut db, 1, "theirs", 90, QUARTER_PRICE, None, NOW),
        Err(Error::LicenseNotFound)
    ));
    License::new().set_blocked(&mut db, "mine", true).unwrap();
    let later = NOW + 5 * DAY_SECS;
    let res = Purchase::new().extend(&mut db, 1, "mine", 90, QUARTER_PRICE, None, later).unwrap();
    assert_eq!(res.license.expires_at, later + 90 * DAY_SECS);
    assert!(!res.license.is_blocked);
    assert_eq!(res.new_balance, 0);
}

#[test]
fn plans_and_discounted_prices() {
    assert_eq!(plan("month"), Some((10_000_000, 30)));
    assert_eq!(plan("quarter"), Some((25_000_000, 90)));
    assert_eq!(plan("year"), None);
    let mut db = Db::new();
    db.insert_user(account(2, 0, UserRole::Creator, 20, 3)).unwrap();
    assert_eq!(discounted_price(&db, QUARTER_PRICE, Some(2)), 24_250_000);
    assert_eq!(discounted_price(&db, 999, Some(2)), 969);
    assert_eq!(discounted_price(&db, 999, None), 999);
}

#[test]
fn self_referral_is_refused() {
    let mut db = Db::new();
    db.insert_user(account(1, MONTH_PRICE, UserRole::Creator, 20, 10)).unwrap();
    let r = Purchase::new().buy(&mut db, 1, 30, MONTH_PRICE, Some(1), NOW);
    assert!(matches!(r, Err(Error::InvalidArgs(_))));
    assert_eq!(Balance::new().get(&db, 1).unwrap(), MONTH_PRICE);
    License::new().issue(&mut db, "k".to_string(), 1, LicenseType::Pro, 1, NOW, 1).unwrap();
    let e = Purchase::new().extend(&mut db, 1, "k", 30, MONTH_PRICE, Some(1), NOW);
    assert!(matches!(e, Err(Error::InvalidArgs(_))));
}
