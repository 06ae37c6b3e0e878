use vstd::prelude::*;
use crate::text::{decimal, push_char, push_decimal, push_str};

verus! {

/// Seconds in one day.
pub const DAY_SECS: i64 = 86400;

/// Start of the promotional window: 2025-12-14 13:00:00 UTC, in Unix seconds.
pub const PROMO_START: i64 = 1765717200;

/// End of the promotional window: 2025-12-21 23:59:59 UTC, in Unix seconds.
pub const PROMO_END: i64 = 1766361599;

/// The earliest and latest Unix second that calendar formatting accepts.
pub const MIN_TIMESTAMP: i64 = -8_000_000_000_000;
pub const MAX_TIMESTAMP: i64 = 8_000_000_000_000;

/// Quotient rounded toward zero, as integer division does on machine integers.
pub open spec fn tdiv(a: int, b: int) -> int
    recommends
        b > 0,
{
    if a >= 0 { a / b } else { -((-a) / b) }
}

/// Remainder that takes the sign of the dividend.
pub open spec fn trem(a: int, b: int) -> int
    recommends
        b > 0,
{
    a - b * tdiv(a, b)
}

/// "<days>d <hours>h <minutes>m" of a span of seconds, each part truncated
/// toward zero the way a time delta counts whole units.
pub open spec fn duration_text(secs: int) -> Seq<char> {
    decimal(tdiv(secs, 86400)) + seq!['d', ' '] + decimal(trem(tdiv(secs, 3600), 24))
        + seq!['h', ' '] + decimal(trem(tdiv(secs, 60), 60)) + seq!['m']
}

/// The calendar text "dd.mm.yyyy HH:MM" (UTC) of a Unix second.
pub uninterp spec fn date_text(ts: int) -> Seq<char>;

/// Whether `now` falls inside the promotional window, bounds included.
pub open spec fn in_promo_window(now: int) -> bool {
    PROMO_START <= now <= PROMO_END
}

fn div_toward_zero(a: i64, b: i64) -> (q: i64)
    requires
        b > 0,
    ensures
        q == tdiv(a as int, b as int),
{
    if a >= 0 {
        a / b
    } else {
        let m: i128 = 0i128 - a as i128;
        let q: i128 = m / (b as i128);
        assert(q <= m) by (nonlinear_arith)
            requires m >= 0, b > 0, q == m / (b as i128);
        (0i128 - q) as i64
    }
}

fn rem_toward_zero(a: i64, b: i64) -> (r: i64)
    requires
        b > 0,
    ensures
        r == trem(a as int, b as int),
{
    if a >= 0 {
        proof {
            vstd::arithmetic::div_mod::lemma_fundamental_div_mod(a as int, b as int);
            assert(tdiv(a as int, b as int) == (a as int) / (b as int));
            assert(trem(a as int, b as int) == (a as int) - (b as int) * ((a as int) / (b as int)));
        }
        a % b
    } else {
        let m: i128 = 0i128 - a as i128;
        let r: i128 = m % (b as i128);
        proof {
            vstd::arithmetic::div_mod::lemma_fundamental_div_mod(m as int, b as int);
            assert(tdiv(a as int, b as int) == -((m as int) / (b as int)));
            assert((b as int) * (-((m as int) / (b as int))) == -((b as int) * ((m as int) / (b as int))))
                by (nonlinear_arith);
        }
        (0i128 - r) as i64
    }
}

/// Formats a span of seconds as "<days>d <hours>h <minutes>m".
pub fn format_duration(duration: i64) -> (r: String)
    ensures
        r@ == duration_text(duration as int),
{
    let days = div_toward_zero(duration, 86400);
    let hours = rem_toward_zero(div_toward_zero(duration, 3600), 24);
    let minutes = rem_toward_zero(div_toward_zero(duration, 60), 60);
    let mut s = String::new();
    push_decimal(&mut s, days);
    push_str(&mut s, "d ");
    push_decimal(&mut s, hours);
    push_str(&mut s, "h ");
    push_decimal(&mut s, minutes);
    push_char(&mut s, 'm');
    proof {
        reveal_strlit("d ");
        reveal_strlit("h ");
        assert(s@ =~= duration_text(duration as int));
    }
    s
}

/// Relies on chrono's `DateTime::from_timestamp` and `format`: the calendar
/// text of a Unix second, a function of the second alone. `from_timestamp`
/// returns `None` only outside about ±262,000 years, which `requires` excludes.
#[verifier::external_body]
fn calendar_text(ts: i64) -> (r: String)
    requires
        MIN_TIMESTAMP <= ts <= MAX_TIMESTAMP,
    ensures
        r@ == date_text(ts as int),
{
    chrono::DateTime::from_timestamp(ts, 0).unwrap().format("%d.%m.%Y %H:%M").to_string()
}

/// Formats a Unix second as "dd.mm.yyyy HH:MM" in UTC.
pub fn format_date(date: i64) -> (r: String)
    requires
        MIN_TIMESTAMP <= date <= MAX_TIMESTAMP,
    ensures
        r@ == date_text(date as int),
{
    calendar_text(date)
}

/// Relies on chrono's `Utc::now`: the current Unix second. Nothing is known of it.
#[verifier::external_body]
pub(crate) fn now_secs() -> (r: i64) {
    chrono::Utc::now().timestamp()
}

/// Whether the promotional window contains the Unix second `now`.
pub fn promo_active_at(now: i64) -> (r: bool)
    ensures
        r == in_promo_window(now as int),
{
    PROMO_START <= now && now <= PROMO_END
}

/// Whether the promotional window contains the current time.
pub fn promo_active_now() -> (r: bool) {
    promo_active_at(now_secs())
}

} // verus!
