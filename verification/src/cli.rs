//! What the command line says and shows.
use crate::snapshot::LAST_SESSION;
use crate::text::{count_to_string, decimal, pad_right, padded, str_eq};
use vstd::prelude::*;
use vstd::string::StringExecFns;

verus! {

/// The log level for a verbosity.
pub open spec fn level_of(verbose: u8, quiet: bool) -> Seq<char> {
    if quiet {
        "error"@
    } else if verbose == 0 {
        "warn"@
    } else if verbose == 1 {
        "info"@
    } else if verbose == 2 {
        "debug"@
    } else {
        "trace"@
    }
}

/// The log filter for a verbosity.
pub fn log_filter(verbose: u8, quiet: bool) -> (r: String)
    ensures
        r@ == "hyprresume="@ + level_of(verbose, quiet),
{
    let level = if quiet {
        "error"
    } else if verbose == 0 {
        "warn"
    } else if verbose == 1 {
        "info"
    } else if verbose == 2 {
        "debug"
    } else {
        "trace"
    };
    let mut s = "hyprresume=".to_owned();
    s.append(level);
    s
}

/// The session that is meant where none is named.
pub fn session_name<'a>(name: Option<&'a str>) -> (r: &'a str)
    ensures
        r@ == match name {
            Some(s) => s@,
            None => LAST_SESSION@,
        },
{
    match name {
        Some(s) => s,
        None => LAST_SESSION,
    }
}

/// A time in UTC, given in seconds since 1970 and shown in a chrono format;
/// none where the time is out of chrono's range.
pub uninterp spec fn shown_time(timestamp: i64, format: Seq<char>) -> Option<Seq<char>>;

/// The times that chrono represents: from the first second of the year -262143
/// to the last one of the year 262142.
pub open spec fn is_representable(timestamp: i64) -> bool {
    -8_334_601_228_800 <= timestamp <= 8_210_266_876_799
}

/// `chrono::DateTime::from_timestamp` and `DateTime::format`: there is a text
/// for the times that chrono represents, and it depends on the time and the
/// format alone. What the text looks like is not stated.
#[verifier::external_body]
fn format_time(timestamp: i64, format: &str) -> (r: Option<String>)
    requires
        format@ == "%Y-%m-%d %H:%M:%S"@,
    ensures
        r is Some <==> shown_time(timestamp, format@) is Some,
        r matches Some(s) ==> shown_time(timestamp, format@) == Some(s@),
        r is Some <==> is_representable(timestamp),
{
    chrono::DateTime::from_timestamp(timestamp, 0).map(|d| d.format(format).to_string())
}

/// A formatted time, or a word for one that could not be formatted.
pub open spec fn time_or_unknown(time: Option<Seq<char>>) -> Seq<char> {
    match time {
        Some(s) => s,
        None => "unknown"@,
    }
}

/// A formatted time, or a word for one that could not be formatted.
pub fn known_time(time: Option<String>) -> (r: String)
    ensures
        r@ == time_or_unknown(crate::models::opt_text(time)),
{
    match time {
        Some(s) => s,
        None => "unknown".to_owned(),
    }
}

/// When a session was saved, in words.
pub fn saved_at(timestamp: i64) -> (r: String)
    ensures
        r@ == time_or_unknown(shown_time(timestamp, "%Y-%m-%d %H:%M:%S"@)),
        !is_representable(timestamp) ==> r@ == "unknown"@,
{
    known_time(format_time(timestamp, "%Y-%m-%d %H:%M:%S"))
}

/// Two columns, of twenty and twenty-four characters.
pub open spec fn row(name: Seq<char>, time: Seq<char>) -> Seq<char> {
    padded(name, 20) + " "@ + padded(time, 24)
}

/// A row of the session list.
pub fn list_row(name: &str, time: &str) -> (r: String)
    ensures
        r@ == row(name@, time@),
{
    let mut s = pad_right(name, 20);
    s.append(" ");
    let time = pad_right(time, 24);
    s.append(time.as_str());
    s
}

/// The head of the session list.
pub fn list_header() -> (r: String)
    ensures
        r@ == row("NAME"@, "SAVED AT"@) + " "@,
{
    let mut s = list_row("NAME", "SAVED AT");
    s.append(" ");
    s
}

/// `Restored <restored>/<all> apps`, and how many failed, if any.
pub open spec fn summary(restored: int, failed: int) -> Seq<char> {
    let head = "Restored "@ + decimal(restored) + "/"@ + decimal(restored + failed) + " apps"@;
    if failed > 0 {
        head + " ("@ + decimal(failed) + " failed)"@
    } else {
        head
    }
}

/// What came of a restore, in a line.
pub fn restore_summary(restored: usize, failed: usize) -> (r: String)
    requires
        restored + failed <= usize::MAX,
    ensures
        r@ == summary(restored as int, failed as int),
{
    let some = count_to_string(restored);
    let all = count_to_string(restored + failed);
    let mut s = "Restored ".to_owned();
    s.append(some.as_str());
    s.append("/");
    s.append(all.as_str());
    s.append(" apps");
    if failed > 0 {
        let lost = count_to_string(failed);
        s.append(" (");
        s.append(lost.as_str());
        s.append(" failed)");
    }
    s
}

/// What is known of the last session, in a line.
pub fn last_session_line(apps: usize, saved: &str) -> (r: String)
    ensures
        r@ == "Last session: "@ + decimal(apps as int) + " apps, saved at "@ + saved@,
{
    let count = count_to_string(apps);
    let mut s = "Last session: ".to_owned();
    s.append(count.as_str());
    s.append(" apps, saved at ");
    s.append(saved);
    s
}

/// The process of the first client of a class from `k` on, or -1.
pub open spec fn pid_from(
    clients: Seq<crate::models::HyprClient>,
    class: Seq<char>,
    k: int,
) -> i64
    decreases clients.len() - k,
{
    if k < 0 || k >= clients.len() {
        -1i64
    } else if clients[k].class@ == class {
        clients[k].pid
    } else {
        pid_from(clients, class, k + 1)
    }
}

/// The process of the first client of a class, or -1 if there is none.
pub fn pid_of_class(clients: &Vec<crate::models::HyprClient>, class: &str) -> (r: i64)
    ensures
        r == pid_from(clients@, class@, 0),
{
    for k in 0..clients.len()
        invariant
            pid_from(clients@, class@, 0) == pid_from(clients@, class@, k as int),
    {
        if str_eq(clients[k].class.as_str(), class) {
            return clients[k].pid;
        }
    }
    -1
}

} // verus!
