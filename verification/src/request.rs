//! The addresses at which the schedule service is asked.

use vstd::prelude::*;
use crate::clock::{Date, DateView};
use crate::text::{decimal, push_decimal};

verus! {

/// A day as it stands in a path: year, month and day in decimal, without
/// padding, with hyphens between them.
pub open spec fn date_text(day: DateView) -> Seq<char> {
    decimal(day.year) + seq!['-'] + decimal(day.month) + seq!['-'] + decimal(day.day)
}

/// The path that gives the service's flush date.
pub open spec fn flush_date_path() -> Seq<char> {
    "/cacheflushdate"@
}

/// The path that lists the terminals of a day.
pub open spec fn terminals_path(day: DateView) -> Seq<char> {
    "/terminals/"@ + date_text(day)
}

/// The path that gives the schedule of a day from one terminal to another.
pub open spec fn schedule_path(day: DateView, from: int, to: int) -> Seq<char> {
    "/schedule/"@ + date_text(day) + seq!['/'] + decimal(from) + seq!['/'] + decimal(to)
}

/// The address of a path for the holder of an access code.
pub open spec fn request_url(api_key: Seq<char>, path: Seq<char>) -> Seq<char> {
    "http://www.wsdot.wa.gov/ferries/api/schedule/rest"@ + path + "?apiaccesscode="@ + api_key
}

/// Appends a day to `out` as it stands in a path.
fn push_date(out: &mut String, day: &Date)
    ensures
        final(out)@ == old(out)@ + date_text(day@),
{
    proof {
        reveal_strlit("-");
        assert("-"@ =~= seq!['-']);
    }
    push_decimal(out, day.year as i64);
    out.append("-");
    push_decimal(out, day.month as i64);
    out.append("-");
    push_decimal(out, day.day as i64);
    assert(out@ =~= old(out)@ + date_text(day@));
}

/// The address of `path` for the holder of `api_key`.
pub fn url_of(api_key: &str, path: &str) -> (r: String)
    ensures
        r@ == request_url(api_key@, path@),
{
    let mut out: String = String::from_str("http://www.wsdot.wa.gov/ferries/api/schedule/rest");
    out.append(path);
    out.append("?apiaccesscode=");
    out.append(api_key);
    out
}

/// The address that gives the service's flush date.
pub fn flush_date_url(api_key: &str) -> (r: String)
    ensures
        r@ == request_url(api_key@, flush_date_path()),
{
    url_of(api_key, "/cacheflushdate")
}

/// The address that lists the terminals of `day`.
pub fn terminals_url(api_key: &str, day: &Date) -> (r: String)
    ensures
        r@ == request_url(api_key@, terminals_path(day@)),
{
    let mut path: String = String::from_str("/terminals/");
    push_date(&mut path, day);
    url_of(api_key, path.as_str())
}

/// The address that gives the schedule of `day` from one terminal to another.
pub fn schedule_url(api_key: &str, day: &Date, from: i32, to: i32) -> (r: String)
    ensures
        r@ == request_url(api_key@, schedule_path(day@, from as int, to as int)),
{
    proof {
        reveal_strlit("/");
        assert("/"@ =~= seq!['/']);
    }
    let mut path: String = String::from_str("/schedule/");
    push_date(&mut path, day);
    path.append("/");
    push_decimal(&mut path, from as i64);
    path.append("/");
    push_decimal(&mut path, to as i64);
    assert(path@ =~= schedule_path(day@, from as int, to as int));
    url_of(api_key, path.as_str())
}

} // verus!
