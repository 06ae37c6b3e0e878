use license_authority::error::Error;
use license_authority::model::{UserRecord, UserRole};
use license_authority::store::Db;
use license_authority::users::User;

const NOW: i64 = 1_700_000_000;

fn creator(id: i64) -> UserRecord {
    UserRecord {
        tg_user_id: id,
        reg_date: NOW,
        balance: 0,
        role: UserRole::Creator,
        referred_by: None,
        commission_rate: 25,
        discount_percent: 3,
        referral_sales: 0,
        referral_earnings: 0,
        referral_code: None,
    }
}

#[test]
fn test_numeric_code_rejected() {
    let mut db = Db::new();
    db.insert_user(creator(12345)).unwrap();
    let user_sv = User::new();
    let result = user_sv.set_referral_code(&mut db, 12345, Some("12345".to_string()));
    assert!(result.is_err());
    assert!(result.unwrap_err().message().contains("purely numeric"));
    let result = user_sv.set_referral_code(&mut db, 12345, Some("CODE123".to_string()));
    assert!(result.is_ok());
    let result = user_sv.set_referral_code(&mut db, 12345, Some("my_code".to_string()));
    assert!(result.is_ok());
}

#[test]
fn referral_code_rules() {
    let mut db = Db::new();
    db.insert_user(creator(1)).unwrap();
    db.insert_user(creator(2)).unwrap();
    let mut plain = creator(3);
    plain.role = UserRole::User;
    db.insert_user(plain).unwrap();
    let u = User::new();
    assert!(matches!(u.set_referral_code(&mut db, 1, Some("ab".into())), Err(Error::InvalidArgs(_))));
    assert!(matches!(
        u.set_referral_code(&mut db, 1, Some("a".repeat(21))),
        Err(Error::InvalidArgs(_))
    ));
    assert!(u.set_referral_code(&mut db, 1, Some("a".repeat(20))).is_ok());
    assert!(matches!(u.set_referral_code(&mut db, 1, Some("no space".into())), Err(Error::InvalidArgs(_))));
    assert!(u.set_referral_code(&mut db, 1, Some("Straße-1".into())).is_ok());
    assert!(matches!(u.set_referral_code(&mut db, 2, Some("Straße-1".into())), Err(Error::InvalidArgs(_))));
    assert!(u.set_referral_code(&mut db, 1, Some("Straße-1".into())).is_ok());
    assert!(matches!(u.set_referral_code(&mut db, 3, Some("mine".into())), Err(Error::InvalidArgs(_))));
    assert!(matches!(u.set_referral_code(&mut db, 4, None), Err(Error::UserNotFound)));
    assert_eq!(u.by_referral_code(&db, "Straße-1").unwrap().tg_user_id, 1);
    u.set_referral_code(&mut db, 1, None).unwrap();
    assert!(u.by_referral_code(&db, "Straße-1").is_none());
}

#[test]
fn get_or_create_and_referrers() {
    let mut db = Db::new();
    let u = User::new();
    let fresh = u.get_or_create(&mut db, 10, NOW);
    assert_eq!((fresh.balance, fresh.commission_rate, fresh.discount_percent), (0, 10, 3));
    assert_eq!(fresh.role, UserRole::User);
    u.get_or_create(&mut db, 11, NOW);
    assert_eq!(u.get_or_create(&mut db, 10, NOW + 5).reg_date, NOW);
    assert_eq!(u.count(&db), 2);
    assert!(matches!(u.set_referred_by(&mut db, 10, Some(10)), Err(Error::InvalidArgs(_))));
    assert!(matches!(u.set_referred_by(&mut db, 10, Some(12)), Err(Error::ReferralNotFound)));
    assert!(matches!(u.set_referred_by(&mut db, 12, Some(10)), Err(Error::UserNotFound)));
    u.set_referred_by(&mut db, 10, Some(11)).unwrap();
    assert_eq!(u.by_id(&db, 10).unwrap().referred_by, Some(11));
    u.set_role(&mut db, 10, UserRole::Admin).unwrap();
    assert_eq!(u.by_id(&db, 10).unwrap().role, UserRole::Admin);
    assert!(matches!(u.set_role(&mut db, 12, UserRole::Admin), Err(Error::UserNotFound)));
}

#[test]
fn insert_user_rejects_duplicates_and_bad_terms() {
    let mut db = Db::new();
    db.insert_user(creator(1)).unwrap();
    assert!(matches!(db.insert_user(creator(1)), Err(Error::InvalidArgs(_))));
    let mut negative = creator(2);
    negative.balance = -1;
    assert!(matches!(db.insert_user(negative), Err(Error::InvalidArgs(_))));
    let mut rate = creator(3);
    rate.commission_rate = 150;
    assert!(matches!(db.insert_user(rate), Err(Error::InvalidArgs(_))));
}
