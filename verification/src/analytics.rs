//! Productivity reports: the date window of a query, the CSV rendering of
//! the team's daily report, and integers written in decimal.

use vstd::prelude::*;
use crate::config::parse_unsigned;
use crate::error::{error_view, not_found, AppError};
use crate::text::{concat, push_char, push_str, str_eq, string_of};

verus! {

/// Query of a report.
pub struct AnalyticsQuery {
    /// First day (ISO 8601), e.g. "2024-01-01".
    pub from: Option<String>,
    /// Last day (ISO 8601).
    pub to: Option<String>,
    /// "csv" for CSV instead of JSON.
    pub format: Option<String>,
}

impl AnalyticsQuery {
    /// The lower bound of the window: the given day, or the epoch.
    pub fn from_clause(&self) -> (r: String)
        ensures
            r@ == match self.from {
                Some(f) => f@,
                None => "1970-01-01"@,
            },
    {
        match &self.from {
            Some(f) => f.clone(),
            None => String::from_str("1970-01-01"),
        }
    }

    /// The upper bound of the window: the given day, or the far future.
    pub fn to_clause(&self) -> (r: String)
        ensures
            r@ == match self.to {
                Some(t) => t@,
                None => "9999-12-31"@,
            },
    {
        match &self.to {
            Some(t) => t.clone(),
            None => String::from_str("9999-12-31"),
        }
    }

    /// Whether CSV is asked for.
    pub fn is_csv(&self) -> (r: bool)
        ensures
            r == (self.format matches Some(f) && f@ == "csv"@),
    {
        match &self.format {
            Some(f) => str_eq(f.as_str(), "csv"),
            None => false,
        }
    }
}

/// One line of the team report: a user's saves and confirmations on a day.
pub struct TeamDailyRow {
    pub date: String,
    pub user_id: String,
    pub username: String,
    pub segments_saved: i64,
    pub segments_confirmed: i64,
}

/// The decimal digit of `d` (below 10).
pub open spec fn digit_char(d: nat) -> char {
    (48 + d) as char
}

/// The decimal digits of `n`, most significant first, without leading
/// zeros (one `0` for zero).
pub open spec fn digits_of(n: nat) -> Seq<char>
    decreases n,
{
    if n < 10 {
        seq![digit_char(n)]
    } else {
        digits_of(n / 10).push(digit_char(n % 10))
    }
}

/// An integer in decimal, with `-` before a negative one.
pub open spec fn int_text(n: int) -> Seq<char> {
    if n < 0 {
        seq!['-'] + digits_of((-n) as nat)
    } else {
        digits_of(n as nat)
    }
}

fn digit(d: u64) -> (c: char)
    requires
        d < 10,
    ensures
        c == digit_char(d as nat),
{
    if d == 0 { '0' } else if d == 1 { '1' } else if d == 2 { '2' } else if d == 3 { '3' }
    else if d == 4 { '4' } else if d == 5 { '5' } else if d == 6 { '6' } else if d == 7 { '7' }
    else if d == 8 { '8' } else { '9' }
}

proof fn lemma_digits_len(n: nat)
    ensures
        digits_of(n).len() >= 1,
    decreases n,
{
    if n >= 10 {
        lemma_digits_len(n / 10);
    }
}

fn magnitude_text(n: u64) -> (r: Vec<char>)
    ensures
        r@ == digits_of(n as nat),
{
    let mut out: Vec<char> = Vec::new();
    let mut m: u64 = n;
    assert(digits_of(n as nat) =~= digits_of(m as nat) + out@);
    loop
        invariant_except_break
            digits_of(n as nat) == digits_of(m as nat) + out@,
        ensures
            digits_of(n as nat) == out@,
        decreases m,
    {
        let c = digit(m % 10);
        let ghost before = out@;
        out.insert(0, c);
        if m < 10 {
            assert(digits_of(m as nat) + before =~= out@);
            break;
        }
        assert(digits_of(m as nat) + before =~= digits_of((m / 10) as nat) + out@);
        m = m / 10;
    }
    out
}

/// An integer in decimal (what `to_string` gives).
pub fn int_to_text(n: i64) -> (r: String)
    ensures
        r@ == int_text(n as int),
{
    if n < 0 {
        let mag: u64 = (-(n as i128)) as u64;
        let digits = magnitude_text(mag);
        let mut s = String::new();
        push_char(&mut s, '-');
        let d = string_of(&digits);
        push_str(&mut s, d.as_str());
        assert(s@ =~= seq!['-'] + digits_of((-n) as nat));
        s
    } else {
        let digits = magnitude_text(n as u64);
        string_of(&digits)
    }
}

/// Reading back a number written in decimal gives the number, in every
/// unsigned type wide enough for it.
pub proof fn lemma_decimal_round_trip(n: nat, max: nat)
    requires
        n <= max,
    ensures
        parse_unsigned(digits_of(n), max) == Ok::<nat, crate::config::IntError>(n),
{
    lemma_digits_len(n);
    lemma_parse_digits_of(n, max);
    assert(digits_of(n)[0] != '+' && digits_of(n)[0] != '-') by {
        lemma_digits_first(n);
    }
}

proof fn lemma_digits_first(n: nat)
    ensures
        digits_of(n).len() >= 1,
        '0' <= digits_of(n)[0] <= '9',
    decreases n,
{
    lemma_digits_len(n);
    if n >= 10 {
        lemma_digits_first(n / 10);
        assert(digits_of(n)[0] == digits_of(n / 10)[0]);
    }
}

proof fn lemma_parse_digits_of(n: nat, max: nat)
    requires
        n <= max,
    ensures
        crate::config::parse_digits(digits_of(n), max) == Ok::<nat, crate::config::IntError>(n),
    decreases n,
{
    if n < 10 {
        let s = digits_of(n);
        assert(s.drop_last() =~= Seq::<char>::empty());
        assert(s.last() == digit_char(n));
        assert(crate::config::is_digit(digit_char(n)));
        assert(crate::config::digit_value(digit_char(n)) == n);
    } else {
        let s = digits_of(n);
        assert(s.drop_last() =~= digits_of(n / 10));
        lemma_parse_digits_of(n / 10, max);
        assert(s.last() == digit_char(n % 10));
        assert(crate::config::is_digit(digit_char(n % 10)));
        assert(crate::config::digit_value(digit_char(n % 10)) == n % 10);
        assert((n / 10) * 10 + n % 10 == n);
    }
}

/// The header of the team report in CSV.
pub open spec fn team_header() -> Seq<char> {
    "date,user_id,username,segments_saved,segments_confirmed\n"@
}

/// One row of the team report in CSV (fields are written as they are).
pub open spec fn team_line(r: TeamDailyRow) -> Seq<char> {
    r.date@ + ","@ + r.user_id@ + ","@ + r.username@ + ","@ + int_text(r.segments_saved as int) + ","@
        + int_text(r.segments_confirmed as int) + "\n"@
}

/// The team report in CSV: the header, then one line per row.
pub open spec fn team_csv_text(rows: Seq<TeamDailyRow>) -> Seq<char>
    decreases rows.len(),
{
    if rows.len() == 0 {
        team_header()
    } else {
        team_csv_text(rows.drop_last()) + team_line(rows.last())
    }
}

/// Renders the team report as CSV.
pub fn team_csv(rows: &Vec<TeamDailyRow>) -> (r: String)
    ensures
        r@ == team_csv_text(rows@),
{
    let mut out = String::from_str("date,user_id,username,segments_saved,segments_confirmed\n");
    let mut i: usize = 0;
    while i < rows.len()
        invariant
            i <= rows@.len(),
            out@ == team_csv_text(rows@.take(i as int)),
        decreases rows@.len() - i,
    {
        assert(rows@.take(i + 1).drop_last() =~= rows@.take(i as int));
        let r = &rows[i];
        let ghost before = out@;
        push_str(&mut out, r.date.as_str());
        push_str(&mut out, ",");
        push_str(&mut out, r.user_id.as_str());
        push_str(&mut out, ",");
        push_str(&mut out, r.username.as_str());
        push_str(&mut out, ",");
        let a = int_to_text(r.segments_saved);
        push_str(&mut out, a.as_str());
        push_str(&mut out, ",");
        let b = int_to_text(r.segments_confirmed);
        push_str(&mut out, b.as_str());
        push_str(&mut out, "\n");
        assert(out@ =~= before + team_line(rows@[i as int]));
        i = i + 1;
    }
    assert(rows@.take(rows@.len() as int) =~= rows@);
    out
}

/// A user report names an existing user.
pub fn check_user_found(username: Option<String>) -> (r: Result<String, AppError>)
    ensures
        match username {
            Some(u) => r == Ok::<String, AppError>(u),
            None => r matches Err(e) && error_view(e) == not_found("User not found"@),
        },
{
    match username {
        Some(u) => Ok(u),
        None => Err(AppError::not_found("User not found")),
    }
}

/// A project report names an existing project: `count` projects have its
/// id.
pub fn check_project_found(count: i64) -> (r: Result<(), AppError>)
    ensures
        r is Ok <==> count > 0,
        r matches Err(e) ==> error_view(e) == not_found("Project not found"@),
{
    if count > 0 {
        Ok(())
    } else {
        Err(AppError::not_found("Project not found"))
    }
}

} // verus!
