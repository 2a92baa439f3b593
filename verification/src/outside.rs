//! What the library has from std and from other crates. Nothing here is proved: each contract
//! says what is taken from the documentation or the source of the function that is called.

use vstd::prelude::*;

use crate::instant;
use crate::text;
use crate::types;
use crate::types::PgType;

verus! {

/// What `str::to_lowercase` makes of a text.
pub uninterp spec fn lowercase_text(s: Seq<char>) -> Seq<char>;

/// `str::to_lowercase`: the lowercase form of a text by the Unicode property `Lowercase`. Of
/// ASCII characters it changes the letters A to Z, each to its lowercase form.
#[verifier::external_body]
pub(crate) fn lowercase(s: &str) -> (r: String)
    ensures
        r@ == lowercase_text(s@),
        vstd::utf8::is_ascii_chars(s@) ==> r@ == text::ascii_lower(s@),
{
    s.to_lowercase()
}

/// What the `Debug` form of a string is.
pub uninterp spec fn string_debug(s: Seq<char>) -> Seq<char>;

/// The `Debug` form of `str`: the string in double quotes, with escapes.
#[verifier::external_body]
pub(crate) fn debug_string(s: &str) -> (r: String)
    ensures
        r@ == string_debug(s@),
{
    format!("{:?}", s)
}

/// `chrono::NaiveDate::format` with year, month and day: writes the date of a day that is in
/// the range of the type, counted as `NaiveDate::num_days_from_ce` does.
#[verifier::external_body]
pub(crate) fn format_date(days: i32, pattern: &str) -> (r: String)
    requires
        instant::MIN_DAYS <= days <= instant::MAX_DAYS,
        pattern@ == "%Y-%m-%d"@,
    ensures
        r@ == instant::date_text(days as int),
{
    let date = chrono::NaiveDate::from_num_days_from_ce_opt(days).unwrap();
    date.format(pattern).to_string()
}

/// The `Debug` form of `chrono::NaiveDate`: year, month and day, with the padding and the sign of
/// the year that `format` gives them.
#[verifier::external_body]
pub(crate) fn debug_date(days: i32) -> (r: String)
    requires
        instant::MIN_DAYS <= days <= instant::MAX_DAYS,
    ensures
        r@ == instant::date_text(days as int),
{
    let date = chrono::NaiveDate::from_num_days_from_ce_opt(days).unwrap();
    format!("{:?}", date)
}

/// `chrono::NaiveTime::format` with hours, minutes, seconds and the fraction: two digits each,
/// and of the fraction three, six or nine digits, or nothing where it is zero.
#[verifier::external_body]
pub(crate) fn format_time(secs: u32, nanos: u32, pattern: &str) -> (r: String)
    requires
        secs < 86400,
        nanos < instant::NANOS_PER_SECOND,
        pattern@ == "%H:%M:%S%.f"@,
    ensures
        r@ == instant::clock_text(secs as nat, nanos as nat),
{
    let time = chrono::NaiveTime::from_num_seconds_from_midnight_opt(secs, nanos).unwrap();
    time.format(pattern).to_string()
}

/// The `Debug` form of `chrono::NaiveTime`: the same digits as with `format`.
#[verifier::external_body]
pub(crate) fn debug_time(secs: u32, nanos: u32) -> (r: String)
    requires
        secs < 86400,
        nanos < instant::NANOS_PER_SECOND,
    ensures
        r@ == instant::clock_text(secs as nat, nanos as nat),
{
    let time = chrono::NaiveTime::from_num_seconds_from_midnight_opt(secs, nanos).unwrap();
    format!("{:?}", time)
}

/// `chrono::NaiveDateTime::format`: writes the date and the time of day, with a space between,
/// of the given seconds since 1970 and nanoseconds, which are in the range of the type.
#[verifier::external_body]
pub(crate) fn format_timestamp(secs: i64, nanos: u32, pattern: &str) -> (r: String)
    requires
        instant::seconds_in_range(secs as int),
        nanos < instant::NANOS_PER_SECOND,
        pattern@ == "%Y-%m-%d %H:%M:%S%.f"@,
    ensures
        r@ == instant::timestamp_text(secs as int, nanos as nat, ' '),
{
    let instant = chrono::DateTime::from_timestamp(secs, nanos).unwrap();
    instant.naive_utc().format(pattern).to_string()
}

/// `chrono::DateTime::<Utc>::format`: as of `NaiveDateTime`, and then the offset from UTC, which
/// is zero.
#[verifier::external_body]
pub(crate) fn format_timestamptz(secs: i64, nanos: u32, pattern: &str) -> (r: String)
    requires
        instant::seconds_in_range(secs as int),
        nanos < instant::NANOS_PER_SECOND,
        pattern@ == "%Y-%m-%d %H:%M:%S%.f%:z"@,
    ensures
        r@ == instant::timestamp_text(secs as int, nanos as nat, ' ') + "+00:00"@,
{
    let instant = chrono::DateTime::from_timestamp(secs, nanos).unwrap();
    instant.format(pattern).to_string()
}

/// `chrono::NaiveDateTime::to_string`: the `Debug` forms of the date and of the time, with a
/// space between.
#[verifier::external_body]
pub(crate) fn display_timestamp(secs: i64, nanos: u32) -> (r: String)
    requires
        instant::seconds_in_range(secs as int),
        nanos < instant::NANOS_PER_SECOND,
    ensures
        r@ == instant::timestamp_text(secs as int, nanos as nat, ' '),
{
    let instant = chrono::DateTime::from_timestamp(secs, nanos).unwrap();
    instant.naive_utc().to_string()
}

/// The `Debug` form of `chrono::NaiveDateTime`: the `Debug` forms of the date and of the time,
/// with a `T` between.
#[verifier::external_body]
pub(crate) fn debug_timestamp(secs: i64, nanos: u32) -> (r: String)
    requires
        instant::seconds_in_range(secs as int),
        nanos < instant::NANOS_PER_SECOND,
    ensures
        r@ == instant::timestamp_text(secs as int, nanos as nat, 'T'),
{
    let instant = chrono::DateTime::from_timestamp(secs, nanos).unwrap();
    format!("{:?}", instant.naive_utc())
}

/// The `Debug` form of `chrono::DateTime<Utc>`: that of `NaiveDateTime`, and then a `Z`.
#[verifier::external_body]
pub(crate) fn debug_timestamptz(secs: i64, nanos: u32) -> (r: String)
    requires
        instant::seconds_in_range(secs as int),
        nanos < instant::NANOS_PER_SECOND,
    ensures
        r@ == instant::timestamp_text(secs as int, nanos as nat, 'T') + "Z"@,
{
    let instant = chrono::DateTime::from_timestamp(secs, nanos).unwrap();
    format!("{:?}", instant)
}

/// `uuid::Uuid::to_string`: the number in lowercase hexadecimal, in groups of eight, four, four,
/// four and twelve digits with hyphens between.
#[verifier::external_body]
pub(crate) fn uuid_string(value: u128) -> (r: String)
    ensures
        r@ == types::uuid_text(value),
{
    uuid::Uuid::from_u128(value).to_string()
}

/// Whether `serde_json::from_str` reads a value from a text.
pub uninterp spec fn json_valid(s: Seq<char>) -> bool;

/// `serde_json::from_str` into a `serde_json::Value`: whether it reads the text.
#[verifier::external_body]
pub(crate) fn parses_as_json(s: &str) -> (r: bool)
    ensures
        r == json_valid(s@),
{
    serde_json::from_str::<serde_json::Value>(s).is_ok()
}

/// What `serde_json::to_string` writes of the value that a text holds.
pub uninterp spec fn json_compact(s: Seq<char>) -> Seq<char>;

/// `serde_json::to_string` of the `serde_json::Value` that a JSON text holds: the value without
/// white space.
#[verifier::external_body]
pub(crate) fn compact_json(s: &str) -> (r: String)
    requires
        json_valid(s@),
    ensures
        r@ == json_compact(s@),
{
    let value = serde_json::from_str::<serde_json::Value>(s).unwrap();
    serde_json::to_string(&value).unwrap_or_default()
}

/// Whether the values that two texts hold are equal.
pub uninterp spec fn json_same(a: Seq<char>, b: Seq<char>) -> bool;

/// `==` of `serde_json::Value`, on the values that two JSON texts hold. A value equals itself.
#[verifier::external_body]
pub(crate) fn same_json(a: &str, b: &str) -> (r: bool)
    requires
        json_valid(a@),
        json_valid(b@),
    ensures
        r == json_same(a@, b@),
        a@ == b@ ==> r,
{
    let x = serde_json::from_str::<serde_json::Value>(a).unwrap();
    let y = serde_json::from_str::<serde_json::Value>(b).unwrap();
    x == y
}

/// What the `Debug` form is of the value that a text holds.
pub uninterp spec fn json_debug(s: Seq<char>) -> Seq<char>;

/// The `Debug` form of the `serde_json::Value` that a JSON text holds.
#[verifier::external_body]
pub(crate) fn debug_json(s: &str) -> (r: String)
    requires
        json_valid(s@),
    ensures
        r@ == json_debug(s@),
{
    let value = serde_json::from_str::<serde_json::Value>(s).unwrap();
    format!("{:?}", value)
}

/// `postgres_types::Type::from_oid` and `Type::to_string`: the name of the built-in type that has
/// a number. The types here are all built in, and their schema is left out.
#[verifier::external_body]
pub(crate) fn type_display(oid: u32) -> (r: String)
    requires
        exists|t: PgType| #[trigger] types::type_oid(t) == oid,
    ensures
        forall|t: PgType| #[trigger] types::type_oid(t) == oid ==> r@ == types::pg_type_text(t),
{
    postgres_types::Type::from_oid(oid).unwrap().to_string()
}

} // verus!
