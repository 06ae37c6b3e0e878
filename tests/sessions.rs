use license_authority::license::License;
use license_authority::model::LicenseType;
use license_authority::sessions::{Heartbeat, Sessions};
use license_authority::store::Db;

const NOW: i64 = 1_700_000_000;
const TIMEOUT: i64 = 60;

fn store_with_license(key: &str, max_sessions: i32) -> Db {
    let mut db = Db::new();
    License::new().issue(&mut db, key.to_string(), 1, LicenseType::Pro, 30, NOW, max_sessions).unwrap();
    db
}

#[test]
fn five_devices_admitted_and_a_sixth_rejected() {
    let db = store_with_license("k", 5);
    let mut s = Sessions::new(TIMEOUT);
    for d in 0..5 {
        assert_eq!(s.heartbeat(&db, "k", &format!("dev{d}"), NOW + d), Heartbeat::Admitted);
    }
    assert_eq!(s.heartbeat(&db, "k", "dev5", NOW + 10), Heartbeat::LimitReached);
    assert_eq!(s.sessions("k").len(), 5);
    let status = Heartbeat::LimitReached.status();
    assert!(!status.success);
    assert_eq!(status.msg.as_deref(), Some("limit_reached"));
}

#[test]
fn repeated_heartbeats_do_not_count_twice() {
    let db = store_with_license("k", 2);
    let mut s = Sessions::new(TIMEOUT);
    assert_eq!(s.heartbeat(&db, "k", "a", NOW), Heartbeat::Admitted);
    for t in 1..10 {
        assert_eq!(s.heartbeat(&db, "k", "a", NOW + t), Heartbeat::Refreshed);
    }
    assert_eq!(s.sessions("k").len(), 1);
    assert_eq!(s.sessions("k")[0].last_seen, NOW + 9);
    assert_eq!(s.heartbeat(&db, "k", "b", NOW + 10), Heartbeat::Admitted);
    assert!(Heartbeat::Refreshed.status().success);
}

#[test]
fn stale_devices_free_their_place() {
    let db = store_with_license("k", 1);
    let mut s = Sessions::new(TIMEOUT);
    assert_eq!(s.heartbeat(&db, "k", "a", NOW), Heartbeat::Admitted);
    assert_eq!(s.heartbeat(&db, "k", "b", NOW + TIMEOUT - 1), Heartbeat::LimitReached);
    assert_eq!(s.heartbeat(&db, "k", "b", NOW + TIMEOUT), Heartbeat::Admitted);
    let left = s.sessions("k");
    assert_eq!(left.len(), 1);
    assert_eq!(left[0].machine_id, "b");
}

#[test]
fn invalid_licenses_are_rejected() {
    let mut db = store_with_license("k", 5);
    let mut s = Sessions::new(TIMEOUT);
    assert_eq!(s.heartbeat(&db, "missing", "a", NOW), Heartbeat::Invalid);
    License::new().set_blocked(&mut db, "k", true).unwrap();
    assert_eq!(s.heartbeat(&db, "k", "a", NOW), Heartbeat::Invalid);
    assert_eq!(s.sessions("k").len(), 0);
    let status = Heartbeat::Invalid.status();
    assert_eq!(status.msg.as_deref(), Some("invalid"));
}

#[test]
fn known_device_is_refreshed_without_the_license() {
    let mut db = store_with_license("k", 5);
    let mut s = Sessions::new(TIMEOUT);
    assert_eq!(s.heartbeat(&db, "k", "a", NOW), Heartbeat::Admitted);
    License::new().set_blocked(&mut db, "k", true).unwrap();
    assert_eq!(s.heartbeat(&db, "k", "a", NOW + 1), Heartbeat::Refreshed);
    s.revoke_all("k");
    assert_eq!(s.heartbeat(&db, "k", "a", NOW + 2), Heartbeat::Invalid);
}

#[test]
fn sweep_drops_stale_sessions_and_empty_groups() {
    let mut db = store_with_license("k1", 5);
    License::new().issue(&mut db, "k2".to_string(), 1, LicenseType::Pro, 30, NOW, 5).unwrap();
    let mut s = Sessions::new(TIMEOUT);
    s.heartbeat(&db, "k1", "old", NOW);
    s.heartbeat(&db, "k1", "fresh", NOW + 50);
    s.heartbeat(&db, "k2", "gone", NOW);
    s.sweep(NOW + TIMEOUT);
    let k1 = s.sessions("k1");
    assert_eq!(k1.len(), 1);
    assert_eq!(k1[0].machine_id, "fresh");
    assert_eq!(s.sessions("k2").len(), 0);
    s.heartbeat(&db, "k1", "fresh", NOW + 100);
    s.sweep(NOW + 159);
    assert_eq!(s.sessions("k1").len(), 1);
    s.sweep(NOW + 160);
    assert_eq!(s.sessions("k1").len(), 0);
    assert_eq!(s.timeout_secs(), TIMEOUT);
}

#[test]
fn blocking_a_license_revokes_its_sessions() {
    let mut db = store_with_license("k", 5);
    let mut s = Sessions::new(TIMEOUT);
    s.heartbeat(&db, "k", "a", NOW);
    s.heartbeat(&db, "k", "b", NOW);
    s.block_license(&mut db, "k").unwrap();
    assert_eq!(s.sessions("k").len(), 0);
    assert_eq!(s.heartbeat(&db, "k", "a", NOW + 1), Heartbeat::Invalid);
    assert!(s.block_license(&mut db, "missing").is_err());
}
