use license_authority::error::Error;
use license_authority::ledger::Balance;
use license_authority::model::{UserRecord, UserRole};
use license_authority::payment::{Invoice, InvoiceStatus, Payment, INVOICE_TTL_SECS};
use license_authority::store::Db;
use license_authority::users::User;

const NOW: i64 = 1_700_000_000;

fn account(id: i64) -> UserRecord {
    UserRecord {
        tg_user_id: id,
        reg_date: NOW,
        balance: 0,
        role: UserRole::User,
        referred_by: None,
        commission_rate: 10,
        discount_percent: 3,
        referral_sales: 0,
        referral_earnings: 0,
        referral_code: None,
    }
}

fn invoice(id: i64, status: InvoiceStatus) -> Invoice {
    Invoice {
        invoice_id: id,
        hash: String::new(),
        currency_type: "crypto".into(),
        asset: Some("USDT".into()),
        fiat: None,
        amount: "1".into(),
        paid_asset: None,
        paid_amount: None,
        paid_fiat_rate: None,
        accepted_assets: None,
        fee_asset: None,
        fee_amount: None,
        fee: None,
        pay_url: String::new(),
        bot_invoice_url: String::new(),
        mini_app_invoice_url: None,
        web_app_invoice_url: None,
        description: None,
        status,
        created_at: String::new(),
        paid_usd_rate: None,
        usd_rate: None,
        allow_comments: false,
        allow_anonymous: false,
        expiration_date: None,
        paid_at: None,
        paid_anonymously: None,
        comment: None,
        hidden_message: None,
        payload: None,
        paid_btn_name: None,
        paid_btn_url: None,
    }
}

#[test]
fn paid_invoices_are_deposited_and_credit_the_referrer() {
    let mut db = Db::new();
    db.insert_user(account(1)).unwrap();
    db.insert_user(account(2)).unwrap();
    let p = Payment::new();
    p.save_pending(&mut db, 100, 1, 5_000_000, Some(2), NOW).unwrap();
    p.save_pending(&mut db, 101, 1, 7_000_000, None, NOW).unwrap();
    p.save_pending(&mut db, 102, 1, 1_000_000, None, NOW).unwrap();
    assert!(matches!(p.save_pending(&mut db, 100, 1, 1, None, NOW), Err(Error::InvalidArgs(_))));
    let invoices = vec![
        invoice(100, InvoiceStatus::Paid),
        invoice(101, InvoiceStatus::Expired),
        invoice(102, InvoiceStatus::Active),
    ];
    let done = p.check_and_process(&mut db, 1, &invoices, NOW + 10).unwrap();
    assert_eq!(done.len(), 1);
    assert_eq!(done[0].invoice_id, 100);
    assert_eq!(done[0].amount_nano, 5_000_000);
    assert_eq!(Balance::new().get(&db, 1).unwrap(), 5_000_000);
    assert_eq!(User::new().by_id(&db, 2).unwrap().balance, 500_000);
    let left = p.pending_by_user(&db, 1, NOW + 10);
    assert_eq!(left.len(), 1);
    assert_eq!(left[0].invoice_id, 102);
    let again = p.check_and_process(&mut db, 1, &invoices, NOW + 20).unwrap();
    assert!(again.is_empty());
}

#[test]
fn pending_invoices_expire_after_an_hour() {
    let mut db = Db::new();
    let p = Payment::new();
    p.save_pending(&mut db, 1, 7, 10, None, NOW).unwrap();
    p.save_pending(&mut db, 2, 7, 10, None, NOW + 100).unwrap();
    p.save_pending(&mut db, 3, 8, 10, None, NOW).unwrap();
    let open = p.pending_by_user(&db, 7, NOW + 200);
    assert_eq!(open.iter().map(|x| x.invoice_id).collect::<Vec<_>>(), vec![2, 1]);
    assert_eq!(open[1].expires_at, NOW + INVOICE_TTL_SECS);
    assert_eq!(p.pending_by_user(&db, 7, NOW + INVOICE_TTL_SECS).len(), 1);
    assert_eq!(p.cleanup_expired(&mut db, NOW + INVOICE_TTL_SECS + 1), 2);
    assert_eq!(p.pending_by_user(&db, 7, NOW).len(), 1);
    p.delete_pending(&mut db, 2);
    assert_eq!(p.pending_by_user(&db, 7, NOW).len(), 0);
}

#[test]
fn deposit_for_unknown_user_stops_the_run() {
    let mut db = Db::new();
    let p = Payment::new();
    p.save_pending(&mut db, 5, 42, 10, None, NOW).unwrap();
    let r = p.check_and_process(&mut db, 42, &vec![invoice(5, InvoiceStatus::Paid)], NOW);
    assert!(matches!(r, Err(Error::UserNotFound)));
    assert_eq!(p.pending_by_user(&db, 42, NOW).len(), 1);
}

#[test]
fn active_invoices_wait_and_nothing_is_credited_twice() {
    let mut db = Db::new();
    db.insert_user(account(1)).unwrap();
    let p = Payment::new();
    p.save_pending(&mut db, 7, 1, 300, None, NOW).unwrap();
    p.save_pending(&mut db, 8, 1, 400, None, NOW).unwrap();
    assert!(matches!(p.save_pending(&mut db, 9, 1, 0, None, NOW), Err(Error::InvalidArgs(_))));
    let invoices = vec![invoice(7, InvoiceStatus::Paid), invoice(8, InvoiceStatus::Active)];
    assert_eq!(p.check_and_process(&mut db, 1, &invoices, NOW).unwrap().len(), 1);
    assert_eq!(p.check_and_process(&mut db, 1, &invoices, NOW).unwrap().len(), 0);
    assert_eq!(Balance::new().get(&db, 1).unwrap(), 300);
    let rows = Balance::new().transactions(&db, 1, 10);
    assert_eq!(rows.iter().filter(|t| t.description.as_deref() == Some("CryptoBot deposit #7")).count(), 1);
    assert_eq!(p.pending_by_user(&db, 1, NOW).len(), 1);
}
