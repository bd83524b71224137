//! Today's date, read from the local clock, and the dates around it, written as chrono's
//! `%Y%m%d` writes them.

use vstd::prelude::*;
use chrono::Datelike;
use crate::text::{dec, fixed_digits, is_digit, lemma_fixed_digits, push_char, push_dec, push_fixed, strings_view};

verus! {

/// What chrono gives for the date `days` days after the date (`year`, `month`, `day`) of
/// the proleptic Gregorian calendar: that date as its year, month and day, or `None` when
/// the given date does not exist or the result lies beyond the years that chrono covers.
pub uninterp spec fn add_days(year: int, month: int, day: int, days: int) -> Option<(int, int, int)>;

/// The local date, `chrono::Local::now().date_naive()`, as its year, month and day.
///
/// Trusted: it depends on the clock; only what chrono documents of every date is stated,
/// a month in 1..=12 and a day in 1..=31.
#[verifier::external_body]
fn local_today() -> (t: (i32, u32, u32))
    ensures
        1 <= t.1 <= 12,
        1 <= t.2 <= 31,
{
    let d = chrono::Local::now().date_naive();
    (d.year(), d.month(), d.day())
}

/// The date `days` days after (`year`, `month`, `day`): `chrono::NaiveDate::from_ymd_opt`,
/// `chrono::TimeDelta::try_days` and `chrono::NaiveDate::checked_add_signed`, the result
/// read back with `year`, `month` and `day`.
///
/// Trusted: the result is the one named by `add_days`, a function of its arguments alone;
/// a date that chrono returns has a month in 1..=12 and a day in 1..=31. None of these
/// calls panics: each reports a date out of range as `None`.
#[verifier::external_body]
fn shift_date(year: i32, month: u32, day: u32, days: i64) -> (r: Option<(i32, u32, u32)>)
    ensures
        add_days(year as int, month as int, day as int, days as int) == (match r {
            Some(t) => Some((t.0 as int, t.1 as int, t.2 as int)),
            None => None,
        }),
        r matches Some(t) ==> 1 <= t.1 <= 12 && 1 <= t.2 <= 31,
{
    match chrono::NaiveDate::from_ymd_opt(year, month, day) {
        None => None,
        Some(d) => match chrono::TimeDelta::try_days(days) {
            None => None,
            Some(delta) => match d.checked_add_signed(delta) {
                None => None,
                Some(e) => Some((e.year(), e.month(), e.day())),
            },
        },
    }
}

/// A date as year, month and day, taken as integers.
pub open spec fn ymd(t: (i32, u32, u32)) -> (int, int, int) {
    (t.0 as int, t.1 as int, t.2 as int)
}

/// A year as chrono's `%Y` writes it: 4 digits, zero-padded, for the years 0 to 9999;
/// otherwise its sign, then at least 4 digits.
pub open spec fn year_text(y: int) -> Seq<char> {
    if 0 <= y <= 9999 {
        fixed_digits(y as nat, 4)
    } else {
        let a: nat = if y < 0 { (-y) as nat } else { y as nat };
        (if y < 0 { seq!['-'] } else { seq!['+'] }) + (if a < 10000 { fixed_digits(a, 4) } else { dec(a) })
    }
}

/// A date as chrono's `%Y%m%d` writes it: the year, then the month and the day on two
/// digits each (`YYYYMMDD` for the years 0 to 9999).
pub open spec fn ymd_text(t: (int, int, int)) -> Seq<char> {
    year_text(t.0) + fixed_digits(t.1 as nat, 2) + fixed_digits(t.2 as nat, 2)
}

/// The dates on which the latest forecast may have been run, the day `t` being today, most
/// recent first: tomorrow, today and yesterday, each written as `ymd_text`; `None` when
/// one of them lies beyond the calendar.
pub open spec fn dates_around(t: (int, int, int)) -> Option<Seq<Seq<char>>> {
    match (add_days(t.0, t.1, t.2, 1), add_days(t.0, t.1, t.2, -1)) {
        (Some(a), Some(b)) => Some(seq![ymd_text(a), ymd_text(t), ymd_text(b)]),
        _ => None,
    }
}

/// Writes a year as `year_text`.
fn push_year(s: &mut String, y: i32)
    ensures
        final(s)@ == old(s)@ + year_text(y as int),
{
    if 0 <= y && y <= 9999 {
        push_fixed(s, y as u64, 4);
    } else {
        let a: u64 = if y < 0 { (-(y as i64)) as u64 } else { y as u64 };
        let ghost s0 = s@;
        if y < 0 {
            push_char(s, '-');
        } else {
            push_char(s, '+');
        }
        let ghost s1 = s@;
        if a < 10000 {
            push_fixed(s, a, 4);
        } else {
            push_dec(s, a);
        }
        assert(s@ =~= s0 + year_text(y as int));
    }
}

/// A date written as `ymd_text`.
pub fn date_text(t: (i32, u32, u32)) -> (s: String)
    ensures
        s@ == ymd_text(ymd(t)),
{
    let mut s = String::new();
    push_year(&mut s, t.0);
    push_fixed(&mut s, t.1 as u64, 2);
    push_fixed(&mut s, t.2 as u64, 2);
    assert(s@ =~= ymd_text(ymd(t)));
    s
}

/// The dates around `today`: tomorrow, today and yesterday, as `dates_around` says.
pub fn dates_around_today(today: (i32, u32, u32)) -> (r: Option<Vec<String>>)
    ensures
        match r {
            Some(v) => dates_around(ymd(today)) == Some(strings_view(v@)),
            None => dates_around(ymd(today)) is None,
        },
{
    let tomorrow = shift_date(today.0, today.1, today.2, 1);
    let yesterday = shift_date(today.0, today.1, today.2, -1);
    match (tomorrow, yesterday) {
        (Some(a), Some(b)) => {
            let mut v: Vec<String> = Vec::new();
            v.push(date_text(a));
            v.push(date_text(today));
            v.push(date_text(b));
            assert(strings_view(v@) =~= seq![ymd_text(ymd(a)), ymd_text(ymd(today)), ymd_text(ymd(b))]);
            Some(v)
        },
        _ => None,
    }
}

/// Today's date, read from the local clock, and the dates on which the latest forecast
/// may have been run (see `dates_around`).
pub fn forecast_dates() -> (r: ((i32, u32, u32), Option<Vec<String>>))
    ensures
        1 <= r.0.1 <= 12,
        1 <= r.0.2 <= 31,
        match r.1 {
            Some(v) => dates_around(ymd(r.0)) == Some(strings_view(v@)),
            None => dates_around(ymd(r.0)) is None,
        },
{
    let today = local_today();
    let dates = dates_around_today(today);
    (today, dates)
}

} // verus!

verus! {

/// A date of the years 0 to 9999 is written as 8 decimal digits, `YYYYMMDD`.
pub proof fn lemma_ymd_text_digits(t: (int, int, int))
    requires
        0 <= t.0 <= 9999,
        1 <= t.1 <= 12,
        1 <= t.2 <= 31,
    ensures
        ymd_text(t).len() == 8,
        forall|i: int| 0 <= i < 8 ==> is_digit(#[trigger] ymd_text(t)[i]),
{
    lemma_fixed_digits(t.0 as nat, 4);
    lemma_fixed_digits(t.1 as nat, 2);
    lemma_fixed_digits(t.2 as nat, 2);
    let y = fixed_digits(t.0 as nat, 4);
    let m = fixed_digits(t.1 as nat, 2);
    let d = fixed_digits(t.2 as nat, 2);
    let s = ymd_text(t);
    assert(s == y + m + d);
    assert forall|i: int| 0 <= i < 8 implies is_digit(#[trigger] s[i]) by {
        if i < 4 {
            assert(s[i] == y[i]);
        } else if i < 6 {
            assert(s[i] == m[i - 4]);
        } else {
            assert(s[i] == d[i - 6]);
        }
    }
}

} // verus!
