//! The library's view of timestamps: a count of seconds since the Unix
//! epoch, validated against the range that the `jiff` crate's `Timestamp`
//! accepts.

use vstd::prelude::*;

verus! {

/// The smallest seconds-since-epoch value `jiff::Timestamp` accepts.
pub const TS_MIN_SECOND: i64 = -377705023201;

/// The largest seconds-since-epoch value `jiff::Timestamp` accepts.
pub const TS_MAX_SECOND: i64 = 253402207200;

/// Relies on `jiff::Timestamp::from_second`: it succeeds exactly when the
/// seconds value lies in the range `Timestamp::MIN ..= Timestamp::MAX`,
/// which is `TS_MIN_SECOND ..= TS_MAX_SECOND`.
#[verifier::external_body]
pub fn timestamp_second_ok(s: i64) -> (r: bool)
    ensures
        r == (TS_MIN_SECOND <= s <= TS_MAX_SECOND),
{
    jiff::Timestamp::from_second(s).is_ok()
}

#[verifier::external_type_specification]
#[verifier::external_body]
pub struct ExZoned(jiff::Zoned);

/// Relies on `jiff::Zoned::new` and `jiff::tz::TimeZone::system`: pairs a
/// valid timestamp with the machine's time zone for display.  The result
/// depends on the machine's configuration, so nothing is stated of it.
#[verifier::external_body]
pub fn zoned_of_second(s: i64) -> jiff::Zoned
    requires
        TS_MIN_SECOND <= s <= TS_MAX_SECOND,
{
    let ts = jiff::Timestamp::from_second(s).unwrap();
    jiff::Zoned::new(ts, jiff::tz::TimeZone::system())
}

/// Relies on `jiff::Zoned::strftime`: renders the zoned time with the
/// fixed, valid format `%Y-%m-%d %H:%M`.  The text depends on the zone the
/// value carries, so nothing is stated of it.
#[verifier::external_body]
pub fn format_zoned(z: &jiff::Zoned) -> String {
    z.strftime("%Y-%m-%d %H:%M").to_string()
}

} // verus!
