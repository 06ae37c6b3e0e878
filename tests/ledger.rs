use license_authority::error::Error;
use license_authority::ledger::Balance;
use license_authority::model::{TransactionType, UserRecord, UserRole};
use license_authority::store::Db;

const NOW: i64 = 1_700_000_000;

fn account(id: i64, balance: i64, role: UserRole) -> UserRecord {
    UserRecord {
        tg_user_id: id,
        reg_date: NOW,
        balance,
        role,
        referred_by: None,
        commission_rate: 10,
        discount_percent: 3,
        referral_sales: 0,
        referral_earnings: 0,
        referral_code: None,
    }
}

fn store_with(id: i64, balance: i64, role: UserRole) -> Db {
    let mut db = Db::new();
    db.insert_user(account(id, balance, role)).unwrap();
    db
}

fn ledger_sum(db: &Db, id: i64) -> i64 {
    Balance::new().transactions(db, id, usize::MAX).iter().map(|t| t.amount).sum()
}

#[test]
fn test_deposit() {
    let mut db = store_with(12345, 0, UserRole::User);
    let new_balance = Balance::new()
        .deposit(&mut db, 12345, 1000, Some("Test deposit".into()), NOW)
        .unwrap();
    assert_eq!(new_balance, 1000);
}

#[test]
fn test_spend() {
    let mut db = store_with(12345, 1000, UserRole::User);
    let new_balance = Balance::new()
        .spend(&mut db, 12345, 500, Some("License purchase".into()), None, NOW)
        .unwrap();
    assert_eq!(new_balance, 500);
}

#[test]
fn test_insufficient_balance() {
    let mut db = store_with(12345, 100, UserRole::User);
    let result = Balance::new().spend(&mut db, 12345, 500, None, None, NOW);
    assert!(matches!(result, Err(Error::InsufficientBalance)));
}

#[test]
fn test_withdrawal_requires_creator_role() {
    let mut db = store_with(12345, 1000, UserRole::User);
    let result = Balance::new().withdraw(&mut db, 12345, 500, NOW);
    assert!(matches!(result, Err(Error::WithdrawalNotAllowed)));
}

#[test]
fn test_creator_can_withdraw() {
    let mut db = store_with(12345, 1000, UserRole::Creator);
    let new_balance = Balance::new().withdraw(&mut db, 12345, 500, NOW).unwrap();
    assert_eq!(new_balance, 500);
}

#[test]
fn balance_equals_sum_of_transactions_after_mixed_operations() {
    let mut db = Db::new();
    db.insert_user(account(1, 0, UserRole::Creator)).unwrap();
    db.insert_user(account(2, 250, UserRole::User)).unwrap();
    let b = Balance::new();
    b.deposit(&mut db, 1, 1000, None, NOW).unwrap();
    b.spend(&mut db, 1, 300, None, None, NOW + 1).unwrap();
    b.add_referral_bonus(&mut db, 1, 40, "2", NOW + 2).unwrap();
    b.add_cashback(&mut db, 1, 5, None, NOW + 3).unwrap();
    b.withdraw(&mut db, 1, 100, NOW + 4).unwrap();
    assert!(b.spend(&mut db, 1, 10_000, None, None, NOW + 5).is_err());
    b.deposit(&mut db, 2, 50, None, NOW + 6).unwrap();
    assert_eq!(b.get(&db, 1).unwrap(), 645);
    assert_eq!(ledger_sum(&db, 1), 645);
    assert_eq!(b.get(&db, 2).unwrap(), 300);
    assert_eq!(ledger_sum(&db, 2), 300);
}

#[test]
fn spend_of_exactly_the_balance_succeeds_and_one_more_fails() {
    let mut db = store_with(7, 500, UserRole::User);
    let b = Balance::new();
    assert!(matches!(b.spend(&mut db, 7, 501, None, None, NOW), Err(Error::InsufficientBalance)));
    assert_eq!(b.get(&db, 7).unwrap(), 500);
    assert_eq!(b.transactions(&db, 7, 10).len(), 1);
    assert_eq!(b.spend(&mut db, 7, 500, None, None, NOW).unwrap(), 0);
}

#[test]
fn ledger_errors() {
    let mut db = store_with(7, 100, UserRole::Creator);
    let b = Balance::new();
    assert!(matches!(b.deposit(&mut db, 7, 0, None, NOW), Err(Error::InvalidArgs(_))));
    assert!(matches!(b.spend(&mut db, 7, -5, None, None, NOW), Err(Error::InvalidArgs(_))));
    assert!(matches!(b.add_cashback(&mut db, 7, 0, None, NOW), Err(Error::InvalidArgs(_))));
    assert!(matches!(b.add_referral_bonus(&mut db, 7, -1, "x", NOW), Err(Error::InvalidArgs(_))));
    assert!(matches!(b.withdraw(&mut db, 7, 0, NOW), Err(Error::InvalidArgs(_))));
    assert!(matches!(b.deposit(&mut db, 8, 10, None, NOW), Err(Error::UserNotFound)));
    assert!(matches!(b.get(&db, 8), Err(Error::UserNotFound)));
    assert!(matches!(b.withdraw(&mut db, 7, 101, NOW), Err(Error::InsufficientBalance)));
    assert!(matches!(b.deposit(&mut db, 7, i64::MAX, None, NOW), Err(Error::Overflow)));
    assert_eq!(b.get(&db, 7).unwrap(), 100);
}

#[test]
fn transactions_are_newest_first_and_limited() {
    let mut db = store_with(3, 0, UserRole::User);
    let b = Balance::new();
    b.deposit(&mut db, 3, 10, None, NOW).unwrap();
    b.deposit(&mut db, 3, 20, None, NOW + 1).unwrap();
    b.spend(&mut db, 3, 5, None, None, NOW + 2).unwrap();
    let rows = b.transactions(&db, 3, 2);
    assert_eq!(rows.len(), 2);
    assert_eq!(rows[0].amount, -5);
    assert_eq!(rows[0].tx_type, TransactionType::Purchase);
    assert_eq!(rows[1].amount, 20);
    assert_eq!(b.transactions(&db, 3, 0).len(), 0);
    assert_eq!(b.transactions(&db, 4, 10).len(), 0);
}

#[test]
fn referral_bonus_row_names_its_source() {
    let mut db = store_with(3, 0, UserRole::User);
    let b = Balance::new();
    b.add_referral_bonus(&mut db, 3, 70, "CODE1", NOW).unwrap();
    let rows = b.transactions(&db, 3, 1);
    assert_eq!(rows[0].description.as_deref(), Some("Referral bonus from code CODE1"));
    assert_eq!(rows[0].referral_code.as_deref(), Some("CODE1"));
    assert_eq!(rows[0].tx_type, TransactionType::ReferralBonus);
}

#[test]
fn opening_balance_is_logged() {
    let db = store_with(9, 1234, UserRole::User);
    let rows = Balance::new().transactions(&db, 9, 5);
    assert_eq!(rows.len(), 1);
    assert_eq!(rows[0].amount, 1234);
    assert_eq!(rows[0].tx_type, TransactionType::Deposit);
}
