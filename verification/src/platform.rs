//! The calls this library makes into the world outside it: random message
//! ids (`uuid`), the wall clock and its RFC 3339 text (`time`), the
//! monotonic clock and the machine word (`std`). Each returns plain values;
//! what the outside code does not promise, nothing here states.
use vstd::prelude::*;

verus! {

/// A point of the monotonic clock.
#[verifier::external_type_specification]
#[verifier::external_body]
pub struct ExInstant(std::time::Instant);

/// Reads the monotonic clock (`std::time::Instant::now`). Nothing is
/// stated of the value: it depends on when the call is made.
#[verifier::external_body]
pub(crate) fn instant_now() -> std::time::Instant {
    std::time::Instant::now()
}

/// Nanoseconds elapsed since `since` (`Instant::elapsed`, as nanoseconds).
/// Nothing is stated of the value: it depends on when the call is made.
#[verifier::external_body]
pub(crate) fn nanos_since(since: &std::time::Instant) -> u128 {
    since.elapsed().as_nanos()
}

/// A fresh random message id: `uuid::Uuid::new_v4`, as its 128-bit value.
/// Nothing is stated of the value: it is random.
#[verifier::external_body]
pub(crate) fn new_message_id() -> u128 {
    uuid::Uuid::new_v4().as_u128()
}

/// Current wall-clock time in nanoseconds since the Unix epoch
/// (`time::OffsetDateTime::now_utc`). Nothing is stated of the value.
#[verifier::external_body]
pub(crate) fn utc_now_nanos() -> i128 {
    time::OffsetDateTime::now_utc().unix_timestamp_nanos()
}

/// The RFC 3339 text that the `time` crate gives for an instant, named by
/// the instant in nanoseconds since the Unix epoch; `None` where the
/// instant is out of the crate's range or cannot be formatted.
pub uninterp spec fn rfc3339_text(unix_nanos: i128) -> Option<Seq<char>>;

/// ASCII text of at most `n` characters.
pub open spec fn short_ascii(s: Seq<char>, n: nat) -> bool {
    s.len() <= n && forall|i: int| 0 <= i < s.len() ==> (#[trigger] s[i] as int) < 128
}

/// Formats an instant as RFC 3339 text (`OffsetDateTime::format` with
/// `Rfc3339`, on the instant `OffsetDateTime::from_unix_timestamp_nanos`
/// builds). Its result is a function of the instant alone. The formatter
/// writes a four-digit year, two-digit date and time fields, at most nine
/// fraction digits and an offset of at most six characters, all ASCII:
/// at most 35 characters.
#[verifier::external_body]
pub(crate) fn format_rfc3339(unix_nanos: i128) -> (r: Option<String>)
    ensures
        match r {
            Some(s) => rfc3339_text(unix_nanos) == Some(s@) && short_ascii(s@, 35),
            None => rfc3339_text(unix_nanos) is None,
        },
{
    match time::OffsetDateTime::from_unix_timestamp_nanos(unix_nanos) {
        Ok(t) => t.format(&time::format_description::well_known::Rfc3339).ok(),
        Err(_) => None,
    }
}

/// The bytes of a machine word in the machine's byte order
/// (`usize::to_ne_bytes`), as a hasher receives a length or an enum
/// discriminant. Nothing is stated: they depend on the machine.
#[verifier::external_body]
pub(crate) fn native_word_bytes(n: usize) -> Vec<u8> {
    n.to_ne_bytes().to_vec()
}

/// The span of `ms` milliseconds that `std::time::Duration::from_millis`
/// makes; the type is opaque here, so the span is named.
pub uninterp spec fn millis_span(ms: u64) -> std::time::Duration;

/// A span of `ms` milliseconds (`std::time::Duration::from_millis`): the
/// same count of milliseconds always gives the same span.
#[verifier::external_body]
pub(crate) fn duration_from_millis(ms: u64) -> (r: std::time::Duration)
    ensures
        r == millis_span(ms),
{
    std::time::Duration::from_millis(ms)
}

/// The length of a span in nanoseconds (`std::time::Duration::as_nanos`);
/// for a span of `ms` milliseconds that is `ms` million nanoseconds, as
/// the std documentation of `from_millis` and `as_nanos` gives it.
#[verifier::external_body]
pub(crate) fn duration_nanos(d: &std::time::Duration) -> (r: u128)
    ensures
        forall|ms: u64| *d == #[trigger] millis_span(ms) ==> r == ms * 1_000_000,
{
    d.as_nanos()
}

} // verus!
