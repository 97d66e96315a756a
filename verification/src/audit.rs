//! Audit events: what was decided for a command, with a UTC timestamp.
use vstd::prelude::*;

use crate::text::{
    append, clone_strings, dec_nat, join, join_strings, owned, pad_zeros, push_padded, views,
};

verus! {

/// A single audit event written to the audit log.
#[derive(Debug)]
pub struct AuditEvent {
    /// ISO 8601 UTC timestamp, `YYYY-MM-DDTHH:MM:SSZ`.
    pub timestamp: String,
    /// The Unix user that ran the command.
    pub user: String,
    /// The whole SSH command.
    pub command: String,
    /// `allowed` or `denied`.
    pub result: String,
    /// For allowed: the rule and subcommand path; for denied: the reason.
    pub detail: Option<String>,
    /// For denied: the failures of the attempted matches.
    pub failures: Option<Vec<String>>,
}

// ---------------------------------------------------------------------------
// The calendar
// ---------------------------------------------------------------------------

/// Gregorian leap years.
pub open spec fn is_leap_year(y: int) -> bool {
    (y % 4 == 0 && y % 100 != 0) || y % 400 == 0
}

pub open spec fn year_days(y: int) -> int {
    if is_leap_year(y) {
        366
    } else {
        365
    }
}

/// Days in month `i` (0 = January) of year `y`.
pub open spec fn month_days(y: int, i: int) -> int {
    if i == 1 {
        if is_leap_year(y) {
            29
        } else {
            28
        }
    } else if i == 3 || i == 5 || i == 8 || i == 10 {
        30
    } else {
        31
    }
}

/// Counting `d` days from January 1 of year `y`: the year reached and the day within it.
pub open spec fn year_of(y: int, d: int) -> (int, int)
    decreases d,
{
    if d < 0 || d < year_days(y) {
        (y, d)
    } else {
        year_of(y + 1, d - year_days(y))
    }
}

/// Counting day `d` of a year from month `i` on: the month number (1-based) and the day
/// within that month.
pub open spec fn month_of(y: int, i: int, d: int) -> (int, int)
    decreases 12 - i,
{
    if i >= 12 {
        (0, d)
    } else if d < month_days(y, i) {
        (i + 1, d)
    } else {
        month_of(y, i + 1, d - month_days(y, i))
    }
}

/// The UTC date and time `secs` seconds after 1970-01-01T00:00:00Z:
/// (year, month, day, hours, minutes, seconds).
pub open spec fn civil(secs: nat) -> (int, int, int, int, int, int) {
    let days = secs / 86400;
    let tod = secs % 86400;
    let (y, rd) = year_of(1970, days as int);
    let (m, dd) = month_of(y, 0, rd);
    (y, m, dd + 1, (tod / 3600) as int, ((tod % 3600) / 60) as int, (tod % 60) as int)
}

/// `YYYY-MM-DDTHH:MM:SSZ` for `secs` seconds after the epoch.
pub open spec fn timestamp_text(secs: nat) -> Seq<char> {
    let (y, m, d, hh, mm, ss) = civil(secs);
    pad_zeros(dec_nat(y as nat), 4) + seq!['-'] + pad_zeros(dec_nat(m as nat), 2) + seq!['-']
        + pad_zeros(dec_nat(d as nat), 2) + seq!['T'] + pad_zeros(dec_nat(hh as nat), 2) + seq![
        ':',
    ] + pad_zeros(dec_nat(mm as nat), 2) + seq![':'] + pad_zeros(dec_nat(ss as nat), 2) + seq![
        'Z',
    ]
}

/// Whether `y` is a leap year in the Gregorian calendar.
pub fn is_leap(y: i64) -> (r: bool)
    ensures
        r == is_leap_year(y as int),
{
    (y % 4 == 0 && y % 100 != 0) || (y % 400 == 0)
}

fn month_len(leap: bool, i: usize) -> (r: i64)
    ensures
        forall|y: int| is_leap_year(y) == leap ==> r == month_days(y, i as int),
{
    if i == 1 {
        if leap {
            29
        } else {
            28
        }
    } else if i == 3 || i == 5 || i == 8 || i == 10 {
        30
    } else {
        31
    }
}

fn push_char_str(s: &mut String, c: &str)
    ensures
        final(s)@ == old(s)@ + c@,
{
    append(s, c);
}

/// The timestamp `YYYY-MM-DDTHH:MM:SSZ` of `secs` seconds after the epoch.
pub fn format_unix_time(secs: u64) -> (r: String)
    ensures
        r@ == timestamp_text(secs as nat),
{
    let days = secs / 86400;
    let time_of_day = secs % 86400;
    let hours = time_of_day / 3600;
    let minutes = (time_of_day % 3600) / 60;
    let seconds = time_of_day % 60;

    let mut y: i64 = 1970;
    let mut remaining_days: i64 = days as i64;
    assert(days <= 213503982334601);
    loop
        invariant
            1970 <= y,
            0 <= remaining_days <= days,
            (y - 1970) * 365 <= days - remaining_days,
            days <= 213503982334601,
            year_of(1970, days as int) == year_of(y as int, remaining_days as int),
        ensures
            0 <= remaining_days < year_days(y as int),
            year_of(1970, days as int) == (y as int, remaining_days as int),
        decreases remaining_days,
    {
        let days_in_year: i64 = if is_leap(y) {
            366
        } else {
            365
        };
        if remaining_days < days_in_year {
            break;
        }
        remaining_days = remaining_days - days_in_year;
        y = y + 1;
    }
    let leap = is_leap(y);
    let ghost rd0 = remaining_days as int;
    let mut m: usize = 0;
    let mut i: usize = 0;
    while i < 12
        invariant_except_break
            m == 0,
        invariant
            i <= 12,
            leap == is_leap_year(y as int),
            0 <= remaining_days <= rd0,
            month_of(y as int, 0, rd0) == month_of(y as int, i as int, remaining_days as int),
        ensures
            month_of(y as int, 0, rd0) == (m as int, remaining_days as int),
            0 <= remaining_days,
            m <= 12,
        decreases 12 - i,
    {
        let md = month_len(leap, i);
        if remaining_days < md {
            m = i + 1;
            break;
        }
        remaining_days = remaining_days - md;
        i = i + 1;
    }
    let d = remaining_days as u64 + 1;
    let mut r = String::new();
    push_padded(&mut r, y as u64, 4);
    push_char_str(&mut r, "-");
    push_padded(&mut r, m as u64, 2);
    push_char_str(&mut r, "-");
    push_padded(&mut r, d, 2);
    push_char_str(&mut r, "T");
    push_padded(&mut r, hours, 2);
    push_char_str(&mut r, ":");
    push_padded(&mut r, minutes, 2);
    push_char_str(&mut r, ":");
    push_padded(&mut r, seconds, 2);
    push_char_str(&mut r, "Z");
    proof {
        reveal_strlit("-");
        reveal_strlit("T");
        reveal_strlit(":");
        reveal_strlit("Z");
        assert("-"@ =~= seq!['-']);
        assert("T"@ =~= seq!['T']);
        assert(":"@ =~= seq![':']);
        assert("Z"@ =~= seq!['Z']);
        assert(r@ =~= timestamp_text(secs as nat));
    }
    r
}

#[verifier::external_type_specification]
#[verifier::external_body]
pub struct ExSystemTime(std::time::SystemTime);

/// The system clock's reading, by `SystemTime::now`. The contract claims nothing of it:
/// it is the time.
#[verifier::external_body]
fn system_now() -> std::time::SystemTime {
    std::time::SystemTime::now()
}

/// How long after the Unix epoch `t` lies, by `SystemTime::duration_since(UNIX_EPOCH)`;
/// `None` where `t` lies before the epoch (the call's error). The contract claims nothing
/// of which of the two comes back.
#[verifier::external_body]
fn since_epoch(t: &std::time::SystemTime) -> Option<core::time::Duration> {
    match t.duration_since(std::time::UNIX_EPOCH) {
        Ok(d) => Some(d),
        Err(_) => None,
    }
}

/// The whole seconds of `d`, by `Duration::as_secs`. The contract claims nothing of the
/// value, since the duration is opaque here.
#[verifier::external_body]
fn whole_secs(d: &core::time::Duration) -> u64 {
    d.as_secs()
}

/// The whole seconds since the Unix epoch by the system clock; zero when the clock is set
/// before the epoch.
fn unix_now_secs() -> u64 {
    let now = system_now();
    match since_epoch(&now) {
        Some(d) => whole_secs(&d),
        None => 0,
    }
}

/// The current time as `YYYY-MM-DDTHH:MM:SSZ`.
pub fn chrono_now() -> (r: String)
    ensures
        exists|t: u64| r@ == timestamp_text(t as nat),
{
    let t = unix_now_secs();
    format_unix_time(t)
}

// ---------------------------------------------------------------------------
// Events
// ---------------------------------------------------------------------------

/// One `key=value` line for an event: `ts`, `user`, quoted `command`, `result`, then a
/// quoted `detail` and quoted `; `-joined `failures` when present, separated by spaces.
pub open spec fn logfmt_text(e: AuditEvent) -> Seq<char> {
    let base = seq![
        "ts="@ + e.timestamp@,
        "user="@ + e.user@,
        "command=\""@ + e.command@ + "\""@,
        "result="@ + e.result@,
    ];
    let with_detail = match e.detail {
        Some(d) => base.push("detail=\""@ + d@ + "\""@),
        None => base,
    };
    let parts = match e.failures {
        Some(f) => with_detail.push("failures=\""@ + join(views(f@), "; "@) + "\""@),
        None => with_detail,
    };
    join(parts, " "@)
}

fn concat3(a: &str, b: &str, c: &str) -> (r: String)
    ensures
        r@ == a@ + b@ + c@,
{
    let mut r = owned(a);
    append(&mut r, b);
    append(&mut r, c);
    r
}

impl AuditEvent {
    /// An `allowed` event for `user` running `command`, stamped with the current time.
    pub fn allowed(user: &str, command: &str, detail: &str) -> (r: Self)
        ensures
            exists|t: u64| r.timestamp@ == timestamp_text(t as nat),
            r.user@ == user@,
            r.command@ == command@,
            r.result@ == "allowed"@,
            r.detail matches Some(d) && d@ == detail@,
            r.failures is None,
    {
        AuditEvent {
            timestamp: chrono_now(),
            user: owned(user),
            command: owned(command),
            result: owned("allowed"),
            detail: Some(owned(detail)),
            failures: None,
        }
    }

    /// A `denied` event with its reason; the failures are kept only when there are some.
    pub fn denied(user: &str, command: &str, reason: &str, failures: &[String]) -> (r: Self)
        ensures
            exists|t: u64| r.timestamp@ == timestamp_text(t as nat),
            r.user@ == user@,
            r.command@ == command@,
            r.result@ == "denied"@,
            r.detail matches Some(d) && d@ == reason@,
            failures@.len() == 0 ==> r.failures is None,
            failures@.len() > 0 ==> (r.failures matches Some(f) && views(f@) == views(failures@)),
    {
        let f = if failures.len() == 0 {
            None
        } else {
            Some(clone_strings(failures))
        };
        AuditEvent {
            timestamp: chrono_now(),
            user: owned(user),
            command: owned(command),
            result: owned("denied"),
            detail: Some(owned(reason)),
            failures: f,
        }
    }

    /// The event as one logfmt line (see `logfmt_text`).
    pub fn to_logfmt(&self) -> (r: String)
        ensures
            r@ == logfmt_text(*self),
    {
        let mut parts: Vec<String> = Vec::new();
        parts.push(concat3("ts=", self.timestamp.as_str(), ""));
        parts.push(concat3("user=", self.user.as_str(), ""));
        parts.push(concat3("command=\"", self.command.as_str(), "\""));
        parts.push(concat3("result=", self.result.as_str(), ""));
        proof {
            reveal_strlit("");
            assert(""@ =~= Seq::<char>::empty());
        }
        let ghost base = seq![
            "ts="@ + self.timestamp@,
            "user="@ + self.user@,
            "command=\""@ + self.command@ + "\""@,
            "result="@ + self.result@,
        ];
        assert(views(parts@) =~= base);
        match &self.detail {
            Some(d) => {
                let x = concat3("detail=\"", d.as_str(), "\"");
                proof {
                    crate::text::lemma_views_push(parts@, x);
                }
                parts.push(x);
            },
            None => {},
        }
        let ghost with_detail = views(parts@);
        match &self.failures {
            Some(f) => {
                let j = join_strings(f.as_slice(), "; ");
                let x = concat3("failures=\"", j.as_str(), "\"");
                proof {
                    crate::text::lemma_views_push(parts@, x);
                }
                parts.push(x);
            },
            None => {},
        }
        join_strings(&parts, " ")
    }
}

// ---------------------------------------------------------------------------
// Properties of the calendar
// ---------------------------------------------------------------------------

pub open spec fn days_from(y: int, i: int) -> int
    decreases 12 - i,
{
    if i >= 12 {
        0
    } else {
        month_days(y, i) + days_from(y, i + 1)
    }
}

proof fn lemma_year_is_months(y: int)
    ensures
        year_days(y) == days_from(y, 0),
{
    reveal_with_fuel(days_from, 13);
}

proof fn lemma_month_of(y: int, i: int, d: int)
    requires
        0 <= i <= 12,
        0 <= d < days_from(y, i),
    ensures
        ({
            let (m, dd) = month_of(y, i, d);
            &&& i + 1 <= m <= 12
            &&& 0 <= dd < month_days(y, m - 1)
        }),
    decreases 12 - i,
{
    if i < 12 && d >= month_days(y, i) {
        lemma_month_of(y, i + 1, d - month_days(y, i));
    }
}

proof fn lemma_year_of(y: int, d: int)
    requires
        0 <= d,
    ensures
        ({
            let (yy, dd) = year_of(y, d);
            &&& y <= yy
            &&& 0 <= dd < year_days(yy)
        }),
    decreases d,
{
    if d >= year_days(y) {
        lemma_year_of(y + 1, d - year_days(y));
    }
}

/// Every timestamp is a real calendar date and time: the year is 1970 or later, the
/// month is 1 to 12, the day exists in that month of that year, and the time of day is
/// within 00:00:00 to 23:59:59.
pub proof fn law_timestamp_is_valid_date(secs: nat)
    ensures
        ({
            let (y, m, d, hh, mm, ss) = civil(secs);
            &&& 1970 <= y
            &&& 1 <= m <= 12
            &&& 1 <= d <= month_days(y, m - 1)
            &&& 0 <= hh < 24
            &&& 0 <= mm < 60
            &&& 0 <= ss < 60
        }),
{
    let days = secs / 86400;
    lemma_year_of(1970, days as int);
    let (y, rd) = year_of(1970, days as int);
    lemma_year_is_months(y);
    lemma_month_of(y, 0, rd);
}

/// The month lengths are the Gregorian ones: April, June, September and November have
/// 30 days, February 28 (29 in a leap year), every other month 31.
pub proof fn law_month_lengths_are_gregorian(y: int)
    ensures
        month_days(y, 0) == 31,
        month_days(y, 1) == (if is_leap_year(y) { 29int } else { 28int }),
        month_days(y, 2) == 31,
        month_days(y, 3) == 30,
        month_days(y, 4) == 31,
        month_days(y, 5) == 30,
        month_days(y, 6) == 31,
        month_days(y, 7) == 31,
        month_days(y, 8) == 30,
        month_days(y, 9) == 31,
        month_days(y, 10) == 30,
        month_days(y, 11) == 31,
{
}

/// How many days of year `y` come before month `k + 1` (the days of months 1 to `k`),
/// by the Gregorian calendar.
pub open spec fn days_before_month_end(y: int, k: int) -> int {
    let l: int = if is_leap_year(y) { 1 } else { 0 };
    if k <= 0 {
        0
    } else if k == 1 {
        31
    } else if k == 2 {
        59 + l
    } else if k == 3 {
        90 + l
    } else if k == 4 {
        120 + l
    } else if k == 5 {
        151 + l
    } else if k == 6 {
        181 + l
    } else if k == 7 {
        212 + l
    } else if k == 8 {
        243 + l
    } else if k == 9 {
        273 + l
    } else if k == 10 {
        304 + l
    } else if k == 11 {
        334 + l
    } else {
        365 + l
    }
}

proof fn lemma_month_of_counts(y: int, i: int, d: int)
    requires
        0 <= i <= 12,
        days_before_month_end(y, i) <= d < days_before_month_end(y, 12),
    ensures
        ({
            let (m, dd) = month_of(y, i, d - days_before_month_end(y, i));
            &&& i + 1 <= m <= 12
            &&& days_before_month_end(y, m - 1) <= d < days_before_month_end(y, m)
            &&& dd == d - days_before_month_end(y, m - 1)
        }),
    decreases 12 - i,
{
    law_month_lengths_are_gregorian(y);
    assert(month_days(y, i) == days_before_month_end(y, i + 1) - days_before_month_end(y, i));
    if d >= days_before_month_end(y, i + 1) {
        lemma_month_of_counts(y, i + 1, d);
    }
}

/// The date of a timestamp is the Gregorian one: its month and day are those of the
/// day of its year that the timestamp falls on, counted with the Gregorian month
/// lengths (day 120 of a common year is May 1, day 59 is March 1).
pub proof fn law_timestamp_date_is_gregorian(secs: nat)
    ensures
        ({
            let (y, m, d, hh, mm, ss) = civil(secs);
            let rd = year_of(1970, (secs / 86400) as int).1;
            &&& y == year_of(1970, (secs / 86400) as int).0
            &&& 1 <= m <= 12
            &&& days_before_month_end(y, m - 1) + d - 1 == rd
            &&& rd < days_before_month_end(y, m)
        }),
{
    let days = secs / 86400;
    lemma_year_of(1970, days as int);
    let (y, rd) = year_of(1970, days as int);
    assert(year_days(y) == days_before_month_end(y, 12));
    lemma_month_of_counts(y, 0, rd);
}

} // verus!
