use license_authority::clock::DAY_SECS;
use license_authority::error::{Error, Promo};
use license_authority::license::License;
use license_authority::model::{LicenseType, UNLINKED};
use license_authority::store::Db;
use license_authority::users::User;

const NOW: i64 = 1_700_000_000;

#[test]
fn test_create_license() {
    let mut db = Db::new();
    let license = License::new().create(&mut db, 12345, LicenseType::Pro, 30, NOW).unwrap();
    assert_eq!(license.tg_user_id, 12345);
    assert_eq!(license.license_type, LicenseType::Pro);
    assert!(!license.is_blocked);
}

#[test]
fn test_validate_license() {
    let mut db = Db::new();
    let sv = License::new();
    let license = sv.create(&mut db, 12345, LicenseType::Trial, 30, NOW).unwrap();
    let validated = sv.validate(&db, &license.key, NOW).unwrap();
    assert_eq!(validated.key, license.key);
}

#[test]
fn test_block_license() {
    let mut db = Db::new();
    let sv = License::new();
    let license = sv.create(&mut db, 12345, LicenseType::Trial, 30, NOW).unwrap();
    sv.set_blocked(&mut db, &license.key, true).unwrap();
    assert!(matches!(sv.validate(&db, &license.key, NOW), Err(Error::LicenseInvalid)));
}

#[test]
fn test_extend_license() {
    let mut db = Db::new();
    let sv = License::new();
    let license = sv.create(&mut db, 12345, LicenseType::Trial, 1, NOW).unwrap();
    let old_exp = license.expires_at;
    let new_exp = sv.expires(&mut db, &license.key, 30 * 24 * 60 * 60, NOW).unwrap();
    assert!(new_exp > old_exp);
}

#[test]
fn test_gift_license_expiration_starts_on_activation() {
    let mut db = Db::new();
    let sv = License::new();
    let gift = sv.create_gift(&mut db, LicenseType::Pro, 30, NOW).unwrap();
    assert_eq!(gift.tg_user_id, 0);
    let granted_duration = gift.expires_at - gift.created_at;
    let activated = sv.link_to_user(&mut db, &gift.key, 12345, NOW).unwrap();
    assert_eq!(activated.tg_user_id, 12345);
    let expected_expires_at = NOW + granted_duration;
    let tolerance = 1;
    assert!(
        activated.expires_at >= expected_expires_at - tolerance
            && activated.expires_at <= expected_expires_at + tolerance
    );
}

#[test]
fn test_link_already_linked_license_keeps_expiration() {
    let mut db = Db::new();
    let sv = License::new();
    let gift = sv.create_gift(&mut db, LicenseType::Pro, 30, NOW).unwrap();
    let activated = sv.link_to_user(&mut db, &gift.key, 12345, NOW).unwrap();
    let first_expires_at = activated.expires_at;
    let relinked = sv.link_to_user(&mut db, &gift.key, 12345, NOW + 60).unwrap();
    assert_eq!(relinked.expires_at, first_expires_at);
}

#[test]
fn gift_linked_five_days_later_runs_from_the_link() {
    let mut db = Db::new();
    let sv = License::new();
    let t0 = NOW;
    let gift = sv.create_gift(&mut db, LicenseType::Pro, 30, t0).unwrap();
    assert_eq!(gift.expires_at, t0 + 30 * DAY_SECS);
    let t1 = t0 + 5 * DAY_SECS;
    let a = sv.link_to_user(&mut db, &gift.key, 1, t1).unwrap();
    assert_eq!(a.expires_at, t1 + 30 * DAY_SECS);
    assert_ne!(a.expires_at, t0 + 30 * DAY_SECS);
    let again = sv.link_to_user(&mut db, &gift.key, 1, t1 + DAY_SECS).unwrap();
    assert_eq!(again.expires_at, t1 + 30 * DAY_SECS);
    let other = sv.link_to_user(&mut db, &gift.key, 2, t1 + DAY_SECS);
    assert!(matches!(other, Err(Error::LicenseAlreadyLinked)));
    assert_eq!(sv.by_key(&db, &gift.key).unwrap().tg_user_id, 1);
}

#[test]
fn issue_rejects_taken_key_and_far_expiry() {
    let mut db = Db::new();
    let sv = License::new();
    let l = sv.issue(&mut db, "key-1".to_string(), 5, LicenseType::Trial, 2, NOW, 3).unwrap();
    assert_eq!(l.expires_at, NOW + 2 * DAY_SECS);
    assert_eq!(l.max_sessions, 3);
    let again = sv.issue(&mut db, "key-1".to_string(), 6, LicenseType::Pro, 2, NOW, 3);
    assert!(matches!(again, Err(Error::LicenseKeyTaken)));
    let far = sv.issue(&mut db, "key-2".to_string(), 6, LicenseType::Pro, u64::MAX, NOW, 3);
    assert!(matches!(far, Err(Error::Overflow)));
    assert_eq!(sv.count(&db), 1);
}

#[test]
fn validate_expiry_boundary_and_missing_key() {
    let mut db = Db::new();
    let sv = License::new();
    let l = sv.issue(&mut db, "k".to_string(), 5, LicenseType::Trial, 1, NOW, 1).unwrap();
    assert!(sv.validate(&db, "k", l.expires_at).is_ok());
    assert!(matches!(sv.validate(&db, "k", l.expires_at + 1), Err(Error::LicenseInvalid)));
    assert!(matches!(sv.validate(&db, "nope", NOW), Err(Error::LicenseNotFound)));
    assert!(matches!(sv.set_blocked(&mut db, "nope", true), Err(Error::LicenseNotFound)));
    assert!(matches!(sv.expires(&mut db, "nope", 10, NOW), Err(Error::LicenseNotFound)));
    assert!(matches!(sv.expires(&mut db, "k", -1, NOW), Err(Error::InvalidArgs(_))));
    assert!(matches!(sv.expires(&mut db, "k", i64::MAX, NOW), Err(Error::Overflow)));
    assert!(matches!(sv.link_to_user(&mut db, "nope", 5, NOW), Err(Error::LicenseNotFound)));
}

#[test]
fn extend_unblocks_and_unblocking_restores_by_expiry() {
    let mut db = Db::new();
    let sv = License::new();
    sv.issue(&mut db, "k".to_string(), 5, LicenseType::Trial, 1, NOW, 1).unwrap();
    sv.set_blocked(&mut db, "k", true).unwrap();
    let exp = sv.expires(&mut db, "k", 100, NOW + 10 * DAY_SECS).unwrap();
    assert_eq!(exp, NOW + 10 * DAY_SECS + 100);
    assert!(sv.validate(&db, "k", NOW + 10 * DAY_SECS).is_ok());
    sv.set_blocked(&mut db, "k", true).unwrap();
    sv.set_blocked(&mut db, "k", false).unwrap();
    assert!(sv.validate(&db, "k", exp).is_ok());
    assert!(matches!(sv.validate(&db, "k", exp + 1), Err(Error::LicenseInvalid)));
}

#[test]
fn by_user_and_counts() {
    let mut db = Db::new();
    let sv = License::new();
    sv.issue(&mut db, "a".to_string(), 5, LicenseType::Trial, 1, NOW, 1).unwrap();
    sv.issue(&mut db, "b".to_string(), 5, LicenseType::Pro, 3, NOW, 1).unwrap();
    sv.issue(&mut db, "c".to_string(), 6, LicenseType::Pro, 3, NOW, 1).unwrap();
    sv.set_blocked(&mut db, "a", true).unwrap();
    let all = sv.by_user(&db, 5, true);
    assert_eq!(all.iter().map(|l| l.key.as_str()).collect::<Vec<_>>(), vec!["a", "b"]);
    let open = sv.by_user(&db, 5, false);
    assert_eq!(open.iter().map(|l| l.key.as_str()).collect::<Vec<_>>(), vec!["b"]);
    assert_eq!(sv.count(&db), 3);
    assert_eq!(sv.count_active(&db, NOW), 2);
    assert_eq!(sv.count_active(&db, NOW + 3 * DAY_SECS), 0);
}

#[test]
fn create_makes_the_account_and_a_uuid_key() {
    let mut db = Db::new();
    let l = License::new().create(&mut db, 77, LicenseType::Pro, 30, NOW).unwrap();
    assert_eq!(l.key.len(), 36);
    assert_eq!(l.expires_at, NOW + 30 * DAY_SECS);
    assert!(User::new().by_id(&db, 77).is_some());
    let g = License::new().create_gift(&mut db, LicenseType::Trial, 7, NOW).unwrap();
    assert_eq!(g.tg_user_id, UNLINKED);
    assert_ne!(g.key, l.key);
}

#[test]
fn promo_is_claimed_once_inside_the_window() {
    let mut db = Db::new();
    let sv = License::new();
    let inside = license_authority::clock::PROMO_START;
    let outside = license_authority::clock::PROMO_END + 1;
    assert!(matches!(
        sv.claim_promo(&mut db, 1, "winter", outside),
        Err(Error::Promo(Promo::Inactive))
    ));
    let l = sv.claim_promo(&mut db, 1, "winter", inside).unwrap();
    assert_eq!(l.license_type, LicenseType::Trial);
    assert_eq!(l.expires_at, inside + 7 * DAY_SECS);
    assert!(matches!(
        sv.claim_promo(&mut db, 1, "winter", inside + 1),
        Err(Error::Promo(Promo::Claimed))
    ));
    assert!(sv.claim_promo(&mut db, 2, "winter", inside).is_ok());
}
