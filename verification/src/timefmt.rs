//! Timestamp rendering: trusted wrappers over chrono's formatting, and the
//! system clock. Every other date computation in the crate goes through the
//! names declared here.

use vstd::prelude::*;
use crate::domain::opt_text_view;
use crate::textutil::spec_dec_i64;

verus! {

/// What chrono renders for a Unix timestamp with format `%Y-%m-%d %H:%M`
/// (UTC), when the timestamp is representable; it depends on the timestamp
/// alone.
pub uninterp spec fn utc_minute_label(ts: int) -> Option<Seq<char>>;

/// What chrono renders for a Unix timestamp with format `%Y-%W` — the year
/// and the Monday-based week number `00..=53` — when the timestamp is
/// representable; it depends on the timestamp alone.
pub uninterp spec fn week_key_label(ts: int) -> Option<Seq<char>>;

/// Relies on chrono's `DateTime::<Utc>::from_timestamp` and
/// `format("%Y-%m-%d %H:%M")`. `from_timestamp` returns `None` only for
/// timestamps more than about 262,000 years away from the common era, so
/// every timestamp from year 1 through year 9999 renders.
#[verifier::external_body]
pub fn format_utc_minute(ts: i64) -> (r: Option<String>)
    ensures
        opt_text_view(r) == utc_minute_label(ts as int),
        -62135596800 <= ts <= 253402300799 ==> r is Some,
{
    match chrono::DateTime::<chrono::Utc>::from_timestamp(ts, 0) {
        Some(dt) => Some(dt.format("%Y-%m-%d %H:%M").to_string()),
        None => None,
    }
}

/// Relies on chrono's `DateTime::<Utc>::from_timestamp` and
/// `format("%Y-%W")`, with the same representable range as
/// [`format_utc_minute`].
#[verifier::external_body]
pub fn format_week_key(ts: i64) -> (r: Option<String>)
    ensures
        opt_text_view(r) == week_key_label(ts as int),
        -62135596800 <= ts <= 253402300799 ==> r is Some,
{
    match chrono::DateTime::<chrono::Utc>::from_timestamp(ts, 0) {
        Some(dt) => Some(dt.format("%Y-%W").to_string()),
        None => None,
    }
}

/// The date column of a CSV row: the rendered minute, or the raw decimal
/// timestamp where the timestamp does not render.
pub open spec fn spec_date_label(ts: int) -> Seq<char> {
    match utc_minute_label(ts) {
        Option::Some(s) => s,
        Option::None => spec_dec_i64(ts),
    }
}

/// Renders a message date for CSV output.
pub fn date_label(ts: i64) -> (r: String)
    ensures
        r@ == spec_date_label(ts as int),
{
    match format_utc_minute(ts) {
        Option::Some(s) => s,
        Option::None => crate::textutil::fmt_i64(ts),
    }
}

/// The week-group key of a stored message date: the `YYYY-WW` string, or
/// empty where the timestamp does not render.
pub open spec fn spec_week_of(ts: int) -> Seq<char> {
    match week_key_label(ts) {
        Option::Some(w) => w,
        Option::None => Seq::<char>::empty(),
    }
}

/// Renders the week-group key of a message date.
pub fn week_group_of(ts: i64) -> (r: String)
    ensures
        r@ == spec_week_of(ts as int),
{
    match format_week_key(ts) {
        Option::Some(s) => s,
        Option::None => String::new(),
    }
}

/// Relies on `SystemTime::now` and `duration_since(UNIX_EPOCH)`: the current
/// Unix time in seconds, 0 if the clock reads before the epoch. Nothing can
/// be promised of a clock reading.
#[verifier::external_body]
pub fn unix_now() -> i64 {
    std::time::SystemTime::now()
        .duration_since(std::time::UNIX_EPOCH)
        .unwrap_or_default()
        .as_secs() as i64
}

} // verus!
