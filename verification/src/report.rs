//! The reporter's time labels: resolving the caller's two presentation
//! choices — raw bucket index versus calendar time, and UTC versus local
//! rendering — into the label of each report line.  Bucket `b` of a recording
//! anchored at `epoch` stands for wall-clock second `epoch + b`.
//!
//! Calendar rendering itself is chrono's work, behind trusted wrappers; the
//! numeric aggregates never pass through here and are never altered.

use vstd::prelude::*;
use chrono::TimeZone;

verus! {

/// What chrono renders for an epoch second under the UTC calendar and the
/// report header's date format: a pure function of the epoch alone.
pub uninterp spec fn utc_header_label(epoch: int) -> Seq<char>;

/// Relies on chrono's `Utc.timestamp_opt` and `DateTime::format`: the UTC
/// rendering of an epoch second with a fixed format string depends on the
/// epoch alone, and only an epoch outside chrono's representable range — far
/// beyond the years 1970 to 2100 — yields `MappedLocalTime::None`.
#[verifier::external_body]
fn format_utc_header(epoch: i64) -> (r: Option<String>)
    ensures
        r matches Some(s) ==> s@ == utc_header_label(epoch as int),
        0 <= epoch <= 4_102_444_800 ==> r is Some,
{
    match chrono::Utc.timestamp_opt(epoch, 0) {
        chrono::MappedLocalTime::Single(dt) => Some(
            dt.format("%A, %B %e, %Y at %H:%M UTC").to_string(),
        ),
        chrono::MappedLocalTime::Ambiguous(dt, _) => Some(
            dt.format("%A, %B %e, %Y at %H:%M UTC").to_string(),
        ),
        chrono::MappedLocalTime::None => None,
    }
}

/// Relies on chrono's `Local.timestamp_opt` and `DateTime::format`: renders
/// an epoch second as a dated header line in the machine's local timezone.
/// The text depends on that timezone, so nothing is stated of it; only an
/// epoch outside chrono's representable range — far beyond the years 1970 to
/// 2100 — yields `MappedLocalTime::None`.
#[verifier::external_body]
fn format_local_header(epoch: i64) -> (r: Option<String>)
    ensures
        0 <= epoch <= 4_102_444_800 ==> r is Some,
{
    match chrono::Local.timestamp_opt(epoch, 0) {
        chrono::MappedLocalTime::Single(dt) => Some(
            dt.format("%A, %B %e, %Y at %-I:%M %p %Z").to_string(),
        ),
        chrono::MappedLocalTime::Ambiguous(dt, _) => Some(
            dt.format("%A, %B %e, %Y at %-I:%M %p %Z").to_string(),
        ),
        chrono::MappedLocalTime::None => None,
    }
}

/// Relies on chrono's `Local.timestamp_opt` and `DateTime::format`: renders
/// an epoch second as local wall-clock time of day.  The text depends on the
/// machine's timezone, so nothing is stated of it; only an epoch outside
/// chrono's representable range — far beyond the years 1970 to 2100 — yields
/// `MappedLocalTime::None`.
#[verifier::external_body]
fn format_local_hms(epoch: i64) -> (r: Option<String>)
    ensures
        0 <= epoch <= 4_102_444_800 ==> r is Some,
{
    match chrono::Local.timestamp_opt(epoch, 0) {
        chrono::MappedLocalTime::Single(dt) => Some(dt.format("%H:%M:%S").to_string()),
        chrono::MappedLocalTime::Ambiguous(dt, _) => Some(dt.format("%H:%M:%S").to_string()),
        chrono::MappedLocalTime::None => None,
    }
}

/// How one per-second report line is labeled, resolved from the caller's
/// presentation choices.
#[derive(Debug)]
pub enum TimeLabel {
    /// Local wall-clock time of day, already rendered.
    Clock(String),
    /// Absolute epoch seconds, printed as a number.
    EpochSeconds(i64),
    /// The raw second offset into the recording.
    RawSecond(u64),
}

/// The report header's timestamp line for the recording's anchor epoch:
/// local rendering when `localtime` is set, otherwise UTC.  `None` only when
/// chrono cannot represent the epoch; any epoch between the years 1970 and
/// 2100 is owed a label.
pub fn header_label(epoch: i64, localtime: bool) -> (r: Option<String>)
    ensures
        !localtime ==> (r matches Some(s) ==> s@ == utc_header_label(epoch as int)),
        0 <= epoch <= 4_102_444_800 ==> r is Some,
{
    if localtime {
        format_local_header(epoch)
    } else {
        format_utc_header(epoch)
    }
}

/// The label of the per-second line for bucket `bucket`: the raw second when
/// no epoch was given; the absolute epoch second `epoch + bucket` for UTC
/// rendering; local wall-clock text otherwise, `None` only when chrono cannot
/// represent that instant.  The precondition is the machine limit that the
/// anchored second fits in `i64`.
pub fn second_label(bucket: u64, epoch: Option<i64>, localtime: bool) -> (r: Option<TimeLabel>)
    requires
        epoch matches Some(e) ==> e + bucket <= i64::MAX,
    ensures
        epoch is None ==> r == Some(TimeLabel::RawSecond(bucket)),
        epoch matches Some(e) ==> (if localtime {
            r is None || (r matches Some(l) && l is Clock)
        } else {
            r == Some(TimeLabel::EpochSeconds((e + bucket) as i64))
        }),
        epoch matches Some(e) ==> (0 <= e + bucket <= 4_102_444_800 ==> r is Some),
{
    match epoch {
        Option::None => Some(TimeLabel::RawSecond(bucket)),
        Option::Some(e) => {
            let t: i64 = ((e as i128) + (bucket as i128)) as i64;
            if localtime {
                match format_local_hms(t) {
                    Option::None => None,
                    Option::Some(s) => Some(TimeLabel::Clock(s)),
                }
            } else {
                Some(TimeLabel::EpochSeconds(t))
            }
        },
    }
}

} // verus!
