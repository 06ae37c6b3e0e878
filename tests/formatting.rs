use license_authority::clock::{format_date, format_duration, promo_active_at, PROMO_END, PROMO_START};
use license_authority::error::Error;
use license_authority::license::License;
use license_authority::text::{decimal_text, parse_i64};

#[test]
fn durations_count_whole_units() {
    assert_eq!(format_duration(90061), "1d 1h 1m");
    assert_eq!(format_duration(0), "0d 0h 0m");
    assert_eq!(format_duration(59), "0d 0h 0m");
    assert_eq!(format_duration(30 * 86400 + 23 * 3600 + 59 * 60 + 59), "30d 23h 59m");
    assert_eq!(format_duration(-90061), "-1d -1h -1m");
}

#[test]
fn dates_are_day_first() {
    assert_eq!(format_date(0), "01.01.1970 00:00");
    assert_eq!(format_date(PROMO_START), "14.12.2025 13:00");
    assert_eq!(format_date(PROMO_END), "21.12.2025 23:59");
}

#[test]
fn promo_window_bounds() {
    assert!(promo_active_at(PROMO_START));
    assert!(promo_active_at(PROMO_END));
    assert!(!promo_active_at(PROMO_START - 1));
    assert!(!promo_active_at(PROMO_END + 1));
    let _ = License::new().is_promo_active();
}

#[test]
fn decimal_round_trip() {
    for v in [0i64, 7, -7, 12345, i64::MAX, i64::MIN] {
        let t = decimal_text(v);
        assert_eq!(t, v.to_string());
        assert_eq!(parse_i64(&t), Some(v));
    }
    assert_eq!(parse_i64("+15"), Some(15));
    assert_eq!(parse_i64("9223372036854775808"), None);
    assert_eq!(parse_i64("-9223372036854775809"), None);
    assert_eq!(parse_i64("-"), None);
    assert_eq!(parse_i64("1a"), None);
    assert_eq!(parse_i64(""), None);
}

#[test]
fn error_messages() {
    assert_eq!(Error::InsufficientBalance.message(), "Insufficient balance");
    assert_eq!(Error::InvalidArgs("x".into()).message(), "x");
}
