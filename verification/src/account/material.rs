//! What an account holds: cookies, tokens, activation bytes and the key of a
//! Widevine device.

use vstd::prelude::*;
use vstd::string::StringExecFns;
use super::error::AccountError;
use crate::config::Edit;
use crate::config::EditView;
use crate::config::account_key;
use crate::config::key_of_account;
use crate::lists::push_text;
use crate::tables::cells;
use crate::tables::push_row;
use crate::tables::row3;
use crate::tables::row5;
use crate::text::cat2;
use crate::text::cat3;
use crate::text::cat4;
use crate::text::cat5;
use crate::text::decimal;
use crate::text::join;
use crate::text::joined;
use crate::text::number;
use crate::text::opt_str;
use crate::text::opt_text;
use crate::text::quoted;
use crate::text::quoted_form;
use crate::text::same;
use crate::text::texts;

verus! {

/// The type of an Android device; Widevine is granted to no other.
pub open spec fn android_type() -> Seq<char> {
    "A10KISP2GWF0E4"@
}

/// What `time::OffsetDateTime` shows for a number of seconds since 1970, in
/// UTC, by a format description; nothing where it shows nothing.
pub uninterp spec fn utc_text(secs: i64, format: Seq<char>) -> Option<Seq<char>>;

/// `time::OffsetDateTime::from_unix_timestamp` and the `format` of its result,
/// with the format that `time::format_description::parse` reads out of a text:
/// the text depends on the number and the format alone and is named `utc_text`.
#[verifier::external_body]
pub(crate) fn show_utc(secs: i64, format: &str) -> (text: Option<String>)
    ensures
        opt_text(text) == utc_text(secs, format@),
{
    let items = time::format_description::parse(format).ok()?;
    time::OffsetDateTime::from_unix_timestamp(secs).ok()?.format(&items).ok()
}

/// A time, or a mark where it cannot be shown.
pub open spec fn time_text(shown: Option<Seq<char>>) -> Seq<char> {
    match shown {
        Some(text) => text,
        None => "?"@,
    }
}

/// A time to the minute.
pub open spec fn minute_text(secs: i64) -> Seq<char> {
    time_text(utc_text(secs, "[year]-[month]-[day] [hour]:[minute] UTC"@))
}

/// Shows a number of seconds since 1970 as `YYYY-MM-DD HH:MM UTC`.
pub fn format_unix_utc(unix_secs: i64) -> (text: String)
    ensures
        text@ == minute_text(unix_secs),
{
    match show_utc(unix_secs, "[year]-[month]-[day] [hour]:[minute] UTC") {
        Some(text) => text,
        None => String::from_str("?"),
    }
}

/// A span of time in its two largest units: `45s`, `42m`, `3h 5m`, `2d 4h`. One
/// below zero counts as none.
pub open spec fn span_text(secs: int) -> Seq<char> {
    let s = if secs < 0 {
        0
    } else {
        secs
    };
    if s >= 86400 {
        decimal(s / 86400) + "d "@ + decimal((s % 86400) / 3600) + "h"@
    } else if s >= 3600 {
        decimal(s / 3600) + "h "@ + decimal((s % 3600) / 60) + "m"@
    } else if s >= 60 {
        decimal(s / 60) + "m"@
    } else {
        decimal(s) + "s"@
    }
}

/// Shows a span of time in its two largest units.
pub fn format_secs(secs: i64) -> (text: String)
    ensures
        text@ == span_text(secs as int),
{
    let total: u64 = if secs < 0 {
        0
    } else {
        secs as u64
    };
    if total >= 86400 {
        cat4(
            number(total / 86400).as_str(),
            "d ",
            number((total % 86400) / 3600).as_str(),
            "h",
        )
    } else if total >= 3600 {
        cat4(number(total / 3600).as_str(), "h ", number((total % 3600) / 60).as_str(), "m")
    } else if total >= 60 {
        cat2(number(total / 60).as_str(), "m")
    } else {
        cat2(number(total).as_str(), "s")
    }
}

/// When the cookies of a domain have to be fetched anew, in whole seconds.
#[derive(Clone, Copy, Debug, PartialEq, Eq, Structural)]
pub struct SessionEnd {
    /// The time, since 1970.
    pub at: i64,
    /// Whether it has passed.
    pub lapsed: bool,
    /// How far off it is.
    pub remaining: i64,
}

/// How the end of a session is shown, given how its time is shown.
pub open spec fn end_text(lapsed: bool, remaining: int, shown: Seq<char>) -> Seq<char> {
    if lapsed {
        shown + " (lapsed)"@
    } else {
        shown + " (in "@ + span_text(remaining) + ")"@
    }
}

/// Shows the end of a session, given how its time is shown.
pub fn show_end(lapsed: bool, remaining: i64, shown: &str) -> (text: String)
    ensures
        text@ == end_text(lapsed, remaining as int, shown@),
{
    if lapsed {
        cat2(shown, " (lapsed)")
    } else {
        cat4(shown, " (in ", format_secs(remaining).as_str(), ")")
    }
}

/// How the end of a session is shown: where none is recorded, cookies are
/// fetched at the next use.
pub open spec fn session_text(end: Option<SessionEnd>) -> Seq<char> {
    match end {
        None => "no ttl (exchanges next use)"@,
        Some(e) => end_text(e.lapsed, e.remaining as int, minute_text(e.at)),
    }
}

/// Shows the end of a session.
pub fn session_cell(end: Option<SessionEnd>) -> (text: String)
    ensures
        text@ == session_text(end),
{
    match end {
        None => String::from_str("no ttl (exchanges next use)"),
        Some(e) => show_end(e.lapsed, e.remaining, format_unix_utc(e.at).as_str()),
    }
}

/// The cookies of a domain, in numbers.
#[derive(Debug)]
pub struct CookieSummary {
    /// The domain.
    pub domain: String,
    /// How many there are.
    pub total: usize,
    /// How many have expired.
    pub expired: usize,
    /// Of how many it is not known.
    pub unknown: usize,
    /// When they have to be fetched anew.
    pub end: Option<SessionEnd>,
}

/// The state of cookies: any that has expired matters most, then any of which
/// it is not known.
pub open spec fn cookie_state(total: int, expired: int, unknown: int) -> Seq<char> {
    if expired > 0 {
        if expired == total {
            "expired"@
        } else {
            decimal(expired) + " expired"@
        }
    } else if unknown == total {
        "unknown"@
    } else if unknown > 0 {
        "valid ("@ + decimal(unknown) + " unknown)"@
    } else {
        "valid"@
    }
}

fn show_cookie_state(total: usize, expired: usize, unknown: usize) -> (text: String)
    ensures
        text@ == cookie_state(total as int, expired as int, unknown as int),
{
    if expired > 0 {
        if expired == total {
            String::from_str("expired")
        } else {
            cat2(number(expired as u64).as_str(), " expired")
        }
    } else if unknown == total {
        String::from_str("unknown")
    } else if unknown > 0 {
        cat3("valid (", number(unknown as u64).as_str(), " unknown)")
    } else {
        String::from_str("valid")
    }
}

/// The row of the cookies of a domain.
pub open spec fn cookie_cells(item: CookieSummary) -> Seq<Seq<char>> {
    seq![
        item.domain@,
        decimal(item.total as int),
        decimal(item.expired as int),
        decimal(item.unknown as int),
        cookie_state(item.total as int, item.expired as int, item.unknown as int),
        session_text(item.end),
    ]
}

/// The rows of the cookies of an account.
pub fn cookie_rows(summary: &Vec<CookieSummary>) -> (rows: Vec<Vec<String>>)
    ensures
        cells(rows@) == summary@.map_values(|item: CookieSummary| cookie_cells(item)),
{
    let mut rows: Vec<Vec<String>> = Vec::new();
    let ghost want = summary@.map_values(|item: CookieSummary| cookie_cells(item));
    let mut i: usize = 0;
    assert(cells(rows@) =~= want.subrange(0, 0));
    while i < summary.len()
        invariant
            i <= summary@.len(),
            want == summary@.map_values(|item: CookieSummary| cookie_cells(item)),
            cells(rows@) == want.subrange(0, i as int),
        decreases summary.len() - i,
    {
        let item = &summary[i];
        let mut row = row5(
            item.domain.clone(),
            number(item.total as u64),
            number(item.expired as u64),
            number(item.unknown as u64),
            show_cookie_state(item.total, item.expired, item.unknown),
        );
        push_text(&mut row, session_cell(item.end));
        assert(texts(row@) =~= cookie_cells(*item));
        push_row(&mut rows, row);
        i = i + 1;
        assert(cells(rows@) =~= want.subrange(0, i as int));
    }
    assert(want.subrange(0, i as int) =~= want);
    rows
}

/// What is said once the cookies of a marketplace were fetched.
pub fn refreshed_note(country_code: &str, domains: &Vec<String>) -> (text: String)
    ensures
        text@ == (if domains@.len() == 0 {
            "no cookies returned for "@ + quoted_form(country_code@)
        } else {
            "refreshed website cookies for "@ + country_code@ + ": "@ + joined(
                texts(domains@),
                ", "@,
            )
        }),
{
    if domains.len() == 0 {
        cat2("no cookies returned for ", quoted(country_code).as_str())
    } else {
        cat4("refreshed website cookies for ", country_code, ": ", join(domains, ", ").as_str())
    }
}

/// What is said once cookies were removed.
pub fn removed_note(domains: &Vec<String>) -> (text: String)
    ensures
        text@ == (if domains@.len() == 0 {
            "no matching cookies to remove"@
        } else {
            "removed website cookies for: "@ + joined(texts(domains@), ", "@)
        }),
{
    if domains.len() == 0 {
        String::from_str("no matching cookies to remove")
    } else {
        cat2("removed website cookies for: ", join(domains, ", ").as_str())
    }
}

/// How long a token is good for.
pub open spec fn expiry_text(remaining: Option<i64>) -> Seq<char> {
    match remaining {
        Some(secs) => if secs > 0 {
            "valid for "@ + span_text(secs as int)
        } else {
            "expired "@ + span_text(-(secs as int)) + " ago"@
        },
        None => "-"@,
    }
}

/// The word for whether something is there.
pub open spec fn presence(there: bool) -> Seq<char> {
    if there {
        "present"@
    } else {
        "absent"@
    }
}

fn show_presence(there: bool) -> (word: String)
    ensures
        word@ == presence(there),
{
    if there {
        String::from_str("present")
    } else {
        String::from_str("absent")
    }
}

/// The row that tells of the tokens of an account: whether they are there and
/// how long the first is good for, never what they are. A token cannot have
/// expired so long ago that the span has no number.
pub fn token_row(has_access: bool, remaining: Option<i64>, has_refresh: bool) -> (row: Vec<String>)
    requires
        remaining != Some(i64::MIN),
    ensures
        texts(row@) == seq![presence(has_access), expiry_text(remaining), presence(has_refresh)],
{
    let expiry = match remaining {
        Some(secs) => if secs > 0 {
            cat2("valid for ", format_secs(secs).as_str())
        } else {
            cat3("expired ", format_secs(-secs).as_str(), " ago")
        },
        None => String::from_str("-"),
    };
    row3(show_presence(has_access), expiry, show_presence(has_refresh))
}

/// What is said once the token was refreshed.
pub fn refreshed_token_note(remaining: Option<i64>) -> (text: String)
    ensures
        text@ == (if remaining is Some && remaining->Some_0 > 0 {
            "access token refreshed; valid for "@ + span_text(remaining->Some_0 as int)
        } else {
            "access token refreshed"@
        }),
{
    match remaining {
        Some(secs) => if secs > 0 {
            cat2("access token refreshed; valid for ", format_secs(secs).as_str())
        } else {
            String::from_str("access token refreshed")
        },
        None => String::from_str("access token refreshed"),
    }
}

/// Checks that an account is registered as an Android device.
pub fn ensure_android(device_type: Option<&str>) -> (result: Result<(), AccountError<String>>)
    ensures
        ({
            let kind = match opt_str(device_type) {
                Some(text) => text,
                None => "unknown"@,
            };
            match result {
                Ok(_) => kind == android_type(),
                Err(e) => kind != android_type() && e@ == AccountError::NotAndroid(kind),
            }
        }),
{
    let kind: &str = match device_type {
        Some(text) => text,
        None => "unknown",
    };
    if same(kind, "A10KISP2GWF0E4") {
        Ok(())
    } else {
        Err(AccountError::NotAndroid(String::from_str(kind)))
    }
}

/// The address that is signed for a provider of Widevine devices.
pub fn information_url(domain: &str) -> (url: String)
    ensures
        url@ == "https://api.audible."@ + domain@ + "/1.0/account/information"@,
{
    cat3("https://api.audible.", domain, "/1.0/account/information")
}

/// The change that sets the Widevine device of an account.
pub fn set_widevine_cdm(account: &str, path: &str) -> (edit: Edit)
    ensures
        edit@ == EditView::Assign(account_key(account@, "widevine_cdm"@), path@),
{
    Edit::Assign(key_of_account(account, "widevine_cdm"), String::from_str(path))
}

/// What is said once a Widevine device was fetched.
pub fn fetched_note(bytes: usize, path: &str) -> (text: String)
    ensures
        text@ == "fetched Widevine CDM ("@ + decimal(bytes as int) + " bytes) → "@ + path@
            + " and set widevine_cdm"@,
{
    cat5(
        "fetched Widevine CDM (",
        number(bytes as u64).as_str(),
        " bytes) → ",
        path,
        " and set widevine_cdm",
    )
}

/// A span of time is told in its two largest units, of which each is whole, and
/// what is left of it in smaller ones is dropped.
pub proof fn law_spans_are_told_in_two_units(days: int, hours: int, minutes: int, seconds: int)
    requires
        0 <= days,
        0 <= hours < 24,
        0 <= minutes < 60,
        0 <= seconds < 60,
    ensures
        ({
            let span = days * 86400 + hours * 3600 + minutes * 60 + seconds;
            &&& days > 0 ==> span_text(span) == decimal(days) + "d "@ + decimal(hours) + "h"@
            &&& days == 0 && hours > 0 ==> span_text(span) == decimal(hours) + "h "@ + decimal(
                minutes,
            ) + "m"@
            &&& days == 0 && hours == 0 && minutes > 0 ==> span_text(span) == decimal(minutes)
                + "m"@
            &&& days == 0 && hours == 0 && minutes == 0 ==> span_text(span) == decimal(seconds)
                + "s"@
        }),
        days > 0 ==> span_text(-days) == decimal(0) + "s"@,
{
    let span = days * 86400 + hours * 3600 + minutes * 60 + seconds;
    let rest = hours * 3600 + minutes * 60 + seconds;
    assert(0 <= rest < 86400);
    if days > 0 {
        assert(span / 86400 == days);
        assert(span % 86400 == rest);
        assert(rest / 3600 == hours);
    } else if hours > 0 {
        assert(rest / 3600 == hours);
        assert(rest % 3600 == minutes * 60 + seconds);
        assert((minutes * 60 + seconds) / 60 == minutes);
    } else if minutes > 0 {
        assert((minutes * 60 + seconds) / 60 == minutes);
    }
}

/// Cookies count as valid only where none has expired and of none it is unknown;
/// any that has expired is told.
pub proof fn law_cookies_are_valid_only_all_together(total: int, expired: int, unknown: int)
    requires
        0 < total,
        0 <= expired <= total,
        0 <= unknown <= total,
    ensures
        expired == 0 && unknown == 0 ==> cookie_state(total, expired, unknown) == "valid"@,
        expired > 0 && expired < total ==> cookie_state(total, expired, unknown) == decimal(expired)
            + " expired"@,
        expired == total ==> cookie_state(total, expired, unknown) == "expired"@,
        expired == 0 && unknown == total ==> cookie_state(total, expired, unknown) == "unknown"@,
        expired == 0 && 0 < unknown < total ==> cookie_state(total, expired, unknown) == "valid ("@
            + decimal(unknown) + " unknown)"@,
{
}

/// The row of the cookies of a domain shows each number in its column, and when they
/// have to be fetched anew.
pub proof fn law_cookie_rows_show_each_number(item: CookieSummary)
    ensures
        cookie_cells(item).len() == 6,
        cookie_cells(item)[0] == item.domain@,
        cookie_cells(item)[1] == decimal(item.total as int),
        cookie_cells(item)[2] == decimal(item.expired as int),
        cookie_cells(item)[3] == decimal(item.unknown as int),
        cookie_cells(item)[4] == cookie_state(
            item.total as int,
            item.expired as int,
            item.unknown as int,
        ),
        item.end is None ==> cookie_cells(item)[5] == "no ttl (exchanges next use)"@,
        item.end matches Some(end) ==> {
            &&& end.lapsed ==> cookie_cells(item)[5] == minute_text(end.at) + " (lapsed)"@
            &&& !end.lapsed ==> cookie_cells(item)[5] == minute_text(end.at) + " (in "@ + span_text(
                end.remaining as int,
            ) + ")"@
        },
{
}

/// A token is valid for the time that is left of it, and expired for the time since
/// its end.
pub proof fn law_tokens_are_valid_until_they_expire(secs: i64)
    ensures
        secs > 0 ==> expiry_text(Some(secs)) == "valid for "@ + span_text(secs as int),
        secs <= 0 ==> expiry_text(Some(secs)) == "expired "@ + span_text(-(secs as int)) + " ago"@,
        expiry_text(None) == "-"@,
        presence(true) == "present"@,
        presence(false) == "absent"@,
{
}

} // verus!
