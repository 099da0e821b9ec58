//! Reading the creation time out of a snapshot's timestamp text.

use vstd::prelude::*;

verus! {

/// The layout of the timestamp in a snapshot name: an eight-digit date, a
/// hyphen and a four-digit time of day.
pub const STAMP_FORMAT: &'static str = "%Y%m%d-%H%M";

/// True when `c` is one of the directives that read a run of decimal digits
/// into a calendar field: year, month, day of month, hour, minute.
pub open spec fn is_digit_directive(c: char) -> bool {
    c == 'Y' || c == 'm' || c == 'd' || c == 'H' || c == 'M'
}

/// True when every `%` in `format` is followed by a digit directive. Such a
/// format names a time of day on a calendar date and nothing else: no zone,
/// no count of seconds, no weekday or month name.
pub open spec fn is_calendar_format(format: Seq<char>) -> bool {
    forall|i: int|
        0 <= i < format.len() && #[trigger] format[i] == '%' ==> i + 1 < format.len()
            && is_digit_directive(format[i + 1])
}

/// The seconds from 1970-01-01T00:00:00Z to the time that `stamp` spells out
/// in `format`, read as a time in UTC; `None` when `stamp` does not parse.
pub uninterp spec fn stamp_seconds(stamp: Seq<char>, format: Seq<char>) -> Option<i64>;

#[verifier::external_type_specification]
#[verifier::external_body]
pub struct ExParseError(time::ParseError);

/// Calls `time::strptime` and converts the broken-down time it returns with
/// `Tm::to_timespec`, keeping the whole seconds.
///
/// Trusted: the outcome depends on the two texts alone. For a calendar format
/// the parser only reads digits and literal characters, leaves the zone
/// offset at zero, and the conversion then treats the fields as UTC.
#[verifier::external_body]
pub(crate) fn parse_seconds(stamp: &str, format: &str) -> (r: Result<i64, time::ParseError>)
    requires
        is_calendar_format(format@),
    ensures
        r is Ok <==> stamp_seconds(stamp@, format@) is Some,
        r is Ok ==> stamp_seconds(stamp@, format@) == Some(r->Ok_0),
{
    time::strptime(stamp, format).map(|tm| tm.to_timespec().sec)
}

/// Renders a `time::ParseError` through its `Display` impl. Nothing is
/// claimed of the text.
#[verifier::external_body]
pub(crate) fn parse_error_text(e: time::ParseError) -> (text: String) {
    format!("{}", e)
}

/// Reads the clock through `time::now` and `Tm::to_timespec`: the whole
/// seconds since 1970-01-01T00:00:00Z. Nothing is claimed of the value.
#[verifier::external_body]
pub(crate) fn current_seconds() -> (now: i64) {
    time::now().to_timespec().sec
}

/// The stamp layout is a calendar format.
pub proof fn lemma_stamp_format_is_calendar()
    ensures
        is_calendar_format(STAMP_FORMAT@),
{
    reveal_strlit("%Y%m%d-%H%M");
}

} // verus!
