//! Date parsing for manifest sorting: a fixed cascade of accepted
//! formats, each tried through chrono and reduced to a Unix timestamp.

use vstd::prelude::*;

verus! {

/// What chrono's RFC 3339 parser yields for a string: the Unix timestamp
/// of the parsed instant, or nothing when the string does not parse. A
/// function of the string alone.
pub uninterp spec fn rfc3339_epoch_of(s: Seq<char>) -> Option<i64>;

/// What chrono's `NaiveDateTime::parse_from_str` yields for a string and
/// a format: the Unix timestamp of the parsed date-time taken as UTC, or
/// nothing. A function of the two strings alone.
pub uninterp spec fn datetime_epoch_of(s: Seq<char>, fmt: Seq<char>) -> Option<i64>;

/// What chrono's `NaiveDate::parse_from_str` yields for a string and a
/// format: the Unix timestamp of midnight UTC of the parsed date, or
/// nothing. A function of the two strings alone.
pub uninterp spec fn date_epoch_of(s: Seq<char>, fmt: Seq<char>) -> Option<i64>;

/// Relies on chrono's `DateTime::parse_from_rfc3339` and `timestamp`:
/// parses an RFC 3339 date-time and reduces it to its Unix timestamp.
#[verifier::external_body]
fn parse_rfc3339_epoch(s: &str) -> (r: Option<i64>)
    ensures
        r == rfc3339_epoch_of(s@),
{
    match chrono::DateTime::parse_from_rfc3339(s) {
        Ok(dt) => Some(dt.timestamp()),
        Err(_) => None,
    }
}

/// Relies on chrono's `NaiveDateTime::parse_from_str`, `and_utc` and
/// `timestamp`: parses a date-time in the given format and reduces it to
/// its Unix timestamp, reading it as UTC.
#[verifier::external_body]
fn parse_datetime_epoch(s: &str, fmt: &str) -> (r: Option<i64>)
    ensures
        r == datetime_epoch_of(s@, fmt@),
{
    match chrono::NaiveDateTime::parse_from_str(s, fmt) {
        Ok(ndt) => Some(ndt.and_utc().timestamp()),
        Err(_) => None,
    }
}

/// Relies on chrono's `NaiveDate::parse_from_str`, `and_hms_opt`,
/// `and_utc` and `timestamp`: parses a date in the given format and
/// reduces it to the Unix timestamp of its midnight UTC.
#[verifier::external_body]
fn parse_date_epoch(s: &str, fmt: &str) -> (r: Option<i64>)
    ensures
        r == date_epoch_of(s@, fmt@),
{
    match chrono::NaiveDate::parse_from_str(s, fmt) {
        Ok(nd) => match nd.and_hms_opt(0, 0, 0) {
            Some(ndt) => Some(ndt.and_utc().timestamp()),
            None => None,
        },
        Err(_) => None,
    }
}

/// The timestamp a date string denotes, trying in order: RFC 3339, then
/// `YYYY-MM-DD HH:MM:SS`, then date-only `YYYY-MM-DD`, then each of the
/// secondary formats (`YYYY/MM/DD`, `DD-MM-YYYY`, `MM/DD/YYYY`, and long
/// and short month-name forms) first as a date-time, then as a date.
/// The first pattern that parses wins.
pub open spec fn spec_parse_date(s: Seq<char>) -> Option<i64> {
    if rfc3339_epoch_of(s) is Some {
        rfc3339_epoch_of(s)
    } else if datetime_epoch_of(s, "%Y-%m-%d %H:%M:%S"@) is Some {
        datetime_epoch_of(s, "%Y-%m-%d %H:%M:%S"@)
    } else if date_epoch_of(s, "%Y-%m-%d"@) is Some {
        date_epoch_of(s, "%Y-%m-%d"@)
    } else {
        spec_parse_date_fmts(s, secondary_formats())
    }
}

/// The secondary format strings, in the order they are tried.
pub open spec fn secondary_formats() -> Seq<Seq<char>> {
    seq!["%Y/%m/%d"@, "%d-%m-%Y"@, "%m/%d/%Y"@, "%B %d, %Y"@, "%b %d, %Y"@]
}

/// Tries each format in order, as a date-time first and a date second.
pub open spec fn spec_parse_date_fmts(s: Seq<char>, fmts: Seq<Seq<char>>) -> Option<i64>
    decreases fmts.len(),
{
    if fmts.len() == 0 {
        None
    } else if datetime_epoch_of(s, fmts[0]) is Some {
        datetime_epoch_of(s, fmts[0])
    } else if date_epoch_of(s, fmts[0]) is Some {
        date_epoch_of(s, fmts[0])
    } else {
        spec_parse_date_fmts(s, fmts.subrange(1, fmts.len() as int))
    }
}

/// Parses a date string to the Unix timestamp it denotes, trying the
/// accepted formats in their fixed order.
pub fn parse_date_to_utc(s: &str) -> (r: Option<i64>)
    ensures
        r == spec_parse_date(s@),
{
    if let Some(ts) = parse_rfc3339_epoch(s) {
        return Some(ts);
    }
    if let Some(ts) = parse_datetime_epoch(s, "%Y-%m-%d %H:%M:%S") {
        return Some(ts);
    }
    if let Some(ts) = parse_date_epoch(s, "%Y-%m-%d") {
        return Some(ts);
    }
    let ghost fmts = secondary_formats();
    let fmt0 = "%Y/%m/%d";
    let fmt1 = "%d-%m-%Y";
    let fmt2 = "%m/%d/%Y";
    let fmt3 = "%B %d, %Y";
    let fmt4 = "%b %d, %Y";
    proof {
        assert(fmts.subrange(0, 5) =~= fmts);
        assert(fmts.subrange(1, 5).subrange(1, 4) =~= fmts.subrange(2, 5));
        assert(fmts.subrange(2, 5).subrange(1, 3) =~= fmts.subrange(3, 5));
        assert(fmts.subrange(3, 5).subrange(1, 2) =~= fmts.subrange(4, 5));
        assert(fmts.subrange(4, 5).subrange(1, 1) =~= Seq::<Seq<char>>::empty());
        assert(fmts.subrange(0, 5)[0] == fmt0@);
        assert(fmts.subrange(1, 5)[0] == fmt1@);
        assert(fmts.subrange(2, 5)[0] == fmt2@);
        assert(fmts.subrange(3, 5)[0] == fmt3@);
        assert(fmts.subrange(4, 5)[0] == fmt4@);
        assert(spec_parse_date_fmts(s@, fmts) == spec_parse_date_fmts(s@, fmts.subrange(0, 5)));
    }
    if let Some(ts) = parse_datetime_epoch(s, fmt0) {
        return Some(ts);
    }
    if let Some(ts) = parse_date_epoch(s, fmt0) {
        return Some(ts);
    }
    proof {
        assert(spec_parse_date_fmts(s@, fmts.subrange(0, 5)) == spec_parse_date_fmts(
            s@,
            fmts.subrange(1, 5),
        ));
    }
    if let Some(ts) = parse_datetime_epoch(s, fmt1) {
        return Some(ts);
    }
    if let Some(ts) = parse_date_epoch(s, fmt1) {
        return Some(ts);
    }
    proof {
        assert(spec_parse_date_fmts(s@, fmts.subrange(1, 5)) == spec_parse_date_fmts(
            s@,
            fmts.subrange(2, 5),
        ));
    }
    if let Some(ts) = parse_datetime_epoch(s, fmt2) {
        return Some(ts);
    }
    if let Some(ts) = parse_date_epoch(s, fmt2) {
        return Some(ts);
    }
    proof {
        assert(spec_parse_date_fmts(s@, fmts.subrange(2, 5)) == spec_parse_date_fmts(
            s@,
            fmts.subrange(3, 5),
        ));
    }
    if let Some(ts) = parse_datetime_epoch(s, fmt3) {
        return Some(ts);
    }
    if let Some(ts) = parse_date_epoch(s, fmt3) {
        return Some(ts);
    }
    proof {
        assert(spec_parse_date_fmts(s@, fmts.subrange(3, 5)) == spec_parse_date_fmts(
            s@,
            fmts.subrange(4, 5),
        ));
    }
    if let Some(ts) = parse_datetime_epoch(s, fmt4) {
        return Some(ts);
    }
    if let Some(ts) = parse_date_epoch(s, fmt4) {
        return Some(ts);
    }
    proof {
        assert(spec_parse_date_fmts(s@, fmts.subrange(4, 5)) == spec_parse_date_fmts(
            s@,
            Seq::<Seq<char>>::empty(),
        ));
        assert(spec_parse_date_fmts(s@, Seq::<Seq<char>>::empty()) is None);
    }
    None
}

} // verus!
