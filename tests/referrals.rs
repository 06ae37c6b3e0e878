use license_authority::error::Error;
use license_authority::ledger::Balance;
use license_authority::model::{UserRecord, UserRole};
use license_authority::referral::{Referral, MONTH_PRICE};
use license_authority::store::Db;
use license_authority::users::User;

const NOW: i64 = 1_700_000_000;

fn account(id: i64, role: UserRole, rate: i32, discount: i32, code: Option<&str>) -> UserRecord {
    UserRecord {
        tg_user_id: id,
        reg_date: NOW,
        balance: 0,
        role,
        referred_by: None,
        commission_rate: rate,
        discount_percent: discount,
        referral_sales: 0,
        referral_earnings: 0,
        referral_code: code.map(|c| c.to_string()),
    }
}

#[test]
fn test_validate_referrer_creator() {
    let mut db = Db::new();
    db.insert_user(account(12345, UserRole::Creator, 25, 3, None)).unwrap();
    let referrer = Referral::new().validate_referrer(&db, 12345).unwrap();
    assert_eq!(referrer.tg_user_id, 12345);
    assert_eq!(referrer.commission_rate, 25);
}

#[test]
fn test_regular_user_earns_commission() {
    let mut db = Db::new();
    db.insert_user(account(12345, UserRole::User, 25, 3, None)).unwrap();
    let result = Referral::new().validate_referrer(&db, 12345);
    assert!(result.is_ok());
    let commission = Referral::new().record_sale(&mut db, 12345, MONTH_PRICE, NOW).unwrap();
    assert_eq!(commission, 2_500_000);
    let user = User::new().by_id(&db, 12345).unwrap();
    assert_eq!(user.referral_sales, 1);
    assert_eq!(user.referral_earnings, 2_500_000);
    assert_eq!(user.balance, 2_500_000);
}

#[test]
fn test_record_sale() {
    let mut db = Db::new();
    db.insert_user(account(12345, UserRole::Creator, 25, 3, None)).unwrap();
    let commission = Referral::new().record_sale(&mut db, 12345, MONTH_PRICE, NOW).unwrap();
    assert_eq!(commission, 2_500_000);
    let user = User::new().by_id(&db, 12345).unwrap();
    assert_eq!(user.referral_sales, 1);
    assert_eq!(user.referral_earnings, 2_500_000);
    assert_eq!(user.balance, 2_500_000);
}

#[test]
fn test_custom_referral_code() {
    let mut db = Db::new();
    db.insert_user(account(12345, UserRole::Creator, 25, 3, Some("CREATOR123"))).unwrap();
    let referrer = Referral::new().find_by_code(&db, "CREATOR123").unwrap();
    assert_eq!(referrer.tg_user_id, 12345);
    let user_id = Referral::new().resolve_code(&db, "CREATOR123").unwrap();
    assert_eq!(user_id, 12345);
    let user_id = Referral::new().resolve_code(&db, "12345").unwrap();
    assert_eq!(user_id, 12345);
}

#[test]
fn test_custom_code_only_for_creators() {
    let mut db = Db::new();
    db.insert_user(account(12345, UserRole::User, 25, 3, Some("USER123"))).unwrap();
    let result = Referral::new().find_by_code(&db, "USER123");
    assert!(result.is_err());
    let user_id = Referral::new().resolve_code(&db, "12345").unwrap();
    assert_eq!(user_id, 12345);
}

#[test]
fn test_display_code() {
    let mut db = Db::new();
    db.insert_user(account(11111, UserRole::Creator, 25, 3, Some("CREATOR_CODE"))).unwrap();
    db.insert_user(account(22222, UserRole::Creator, 25, 3, None)).unwrap();
    db.insert_user(account(33333, UserRole::User, 10, 0, None)).unwrap();
    let referral = Referral::new();
    let display = referral.display_code(&db, 11111).unwrap();
    assert_eq!(display, "CREATOR_CODE");
    let display = referral.display_code(&db, 22222).unwrap();
    assert_eq!(display, "creator referral");
    let display = referral.display_code(&db, 33333).unwrap();
    assert_eq!(display, "33333");
    let display = referral.display_code(&db, 99999);
    assert!(display.is_none());
}

#[test]
fn commission_truncates_and_zero_commission_logs_nothing() {
    let mut db = Db::new();
    db.insert_user(account(1, UserRole::User, 33, 0, None)).unwrap();
    db.insert_user(account(2, UserRole::User, 0, 0, None)).unwrap();
    let r = Referral::new();
    assert_eq!(r.record_sale(&mut db, 1, 10, NOW).unwrap(), 3);
    assert_eq!(r.record_sale(&mut db, 2, 1000, NOW).unwrap(), 0);
    assert_eq!(Balance::new().transactions(&db, 2, 10).len(), 0);
    assert_eq!(User::new().by_id(&db, 2).unwrap().referral_sales, 1);
    assert!(matches!(r.record_sale(&mut db, 3, 10, NOW), Err(Error::ReferralNotFound)));
    assert!(matches!(r.record_sale(&mut db, 1, -1, NOW), Err(Error::InvalidArgs(_))));
}

#[test]
fn discount_only_from_creators() {
    let mut db = Db::new();
    db.insert_user(account(1, UserRole::Creator, 20, 10, None)).unwrap();
    db.insert_user(account(2, UserRole::User, 20, 10, None)).unwrap();
    let r = Referral::new();
    assert_eq!(r.discount_percent(&db, Some(1)), 10);
    assert_eq!(r.discount_percent(&db, Some(2)), 0);
    assert_eq!(r.discount_percent(&db, Some(3)), 0);
    assert_eq!(r.discount_percent(&db, None), 0);
}

#[test]
fn resolve_code_edge_cases() {
    let mut db = Db::new();
    db.insert_user(account(-5, UserRole::User, 10, 0, None)).unwrap();
    db.insert_user(account(7, UserRole::Admin, 10, 0, Some("vip-7"))).unwrap();
    let r = Referral::new();
    assert_eq!(r.resolve_code(&db, "-5").unwrap(), -5);
    assert_eq!(r.resolve_code(&db, "+7").unwrap(), 7);
    assert_eq!(r.resolve_code(&db, "vip-7").unwrap(), 7);
    assert!(matches!(r.resolve_code(&db, "8"), Err(Error::ReferralNotFound)));
    assert!(matches!(r.resolve_code(&db, "99999999999999999999"), Err(Error::ReferralNotFound)));
    assert!(matches!(r.resolve_code(&db, ""), Err(Error::ReferralNotFound)));
    assert!(matches!(r.resolve_code(&db, "nobody"), Err(Error::ReferralNotFound)));
}

#[test]
fn stats_setters_and_creators() {
    let mut db = Db::new();
    db.insert_user(account(1, UserRole::Creator, 20, 10, None)).unwrap();
    db.insert_user(account(2, UserRole::User, 20, 10, None)).unwrap();
    db.insert_user(account(3, UserRole::Admin, 20, 10, None)).unwrap();
    let r = Referral::new();
    r.set_commission_rate(&mut db, 2, 40).unwrap();
    r.set_discount_percent(&mut db, 2, 5).unwrap();
    assert!(matches!(r.set_commission_rate(&mut db, 2, 101), Err(Error::InvalidArgs(_))));
    assert!(matches!(r.set_discount_percent(&mut db, 2, -1), Err(Error::InvalidArgs(_))));
    assert!(matches!(r.set_commission_rate(&mut db, 9, 10), Err(Error::UserNotFound)));
    let s = r.stats(&db, 2).unwrap();
    assert_eq!((s.commission_rate, s.discount_percent, s.can_withdraw), (40, 5, false));
    assert!(matches!(r.stats(&db, 9), Err(Error::UserNotFound)));
    let ids: Vec<i64> = r.all_creators(&db).iter().map(|u| u.tg_user_id).collect();
    assert_eq!(ids, vec![1, 3]);
}
