//! Calendar dates: reading them through chrono and writing them in the
//! canonical `mm/dd/yy` form.
use vstd::prelude::*;
use chrono::Datelike;
use crate::text::push_char;
use crate::ParseError;
use vstd::arithmetic::div_mod::lemma_mod_multiples_vanish;

verus! {

/// A day of the proleptic Gregorian calendar.
#[derive(PartialEq, Eq, Structural, Debug, Clone, Copy)]
pub struct CivilDate {
    pub year: i32,
    pub month: u32,
    pub day: u32,
}

pub open spec fn is_leap_year(y: int) -> bool {
    (y % 4 == 0 && y % 100 != 0) || y % 400 == 0
}

pub open spec fn days_in_month(y: int, m: int) -> int {
    if m == 2 {
        if is_leap_year(y) { 29 } else { 28 }
    } else if m == 4 || m == 6 || m == 9 || m == 11 {
        30
    } else {
        31
    }
}

/// The years that chrono can represent.
pub open spec fn year_in_range(y: int) -> bool {
    -262143 <= y <= 262142
}

impl CivilDate {
    /// A real day within the range of years that chrono represents.
    pub open spec fn valid(&self) -> bool {
        year_in_range(self.year as int) && 1 <= self.month <= 12 && 1 <= self.day
            && self.day <= days_in_month(self.year as int, self.month as int)
    }
}

/// The day before `(y, m, d)`.
pub open spec fn day_before(y: int, m: int, d: int) -> (int, int, int) {
    if d > 1 {
        (y, m, d - 1)
    } else if m > 1 {
        (y, m - 1, days_in_month(y, m - 1))
    } else {
        (y - 1, 12, 31)
    }
}

/// What chrono's `NaiveDate::parse_from_str` reads from a text in a format,
/// as (year, month, day).
pub uninterp spec fn parsed_date(text: Seq<char>, format: Seq<char>) -> Option<(int, int, int)>;

/// Relies on chrono's `NaiveDate::parse_from_str`: the date that `text` spells
/// in `format`, if it spells one; a `NaiveDate` is always a real day within
/// chrono's range of years.
#[verifier::external_body]
fn parse_date(text: &str, format: &str) -> (r: Option<CivilDate>)
    ensures
        match parsed_date(text@, format@) {
            Some((y, m, d)) => r matches Some(c) && c.year as int == y && c.month as int == m
                && c.day as int == d,
            None => r is None,
        },
        r matches Some(c) ==> c.valid(),
{
    let d = chrono::NaiveDate::parse_from_str(text, format).ok()?;
    Some(CivilDate { year: d.year(), month: d.month(), day: d.day() })
}

/// Relies on chrono's `NaiveDate::pred_opt`: the previous calendar day, which
/// is missing only before the first representable day.
#[verifier::external_body]
fn previous_day(date: CivilDate) -> (r: Option<CivilDate>)
    requires
        date.valid(),
    ensures
        r matches Some(p) ==> (p.year as int, p.month as int, p.day as int) == day_before(
            date.year as int,
            date.month as int,
            date.day as int,
        ) && p.valid(),
        date.year > -262143 ==> r is Some,
{
    let d = chrono::NaiveDate::from_ymd_opt(date.year, date.month, date.day)?;
    let p = d.pred_opt()?;
    Some(CivilDate { year: p.year(), month: p.month(), day: p.day() })
}

pub open spec fn digit_char(k: int) -> char {
    if k == 0 { '0' }
    else if k == 1 { '1' }
    else if k == 2 { '2' }
    else if k == 3 { '3' }
    else if k == 4 { '4' }
    else if k == 5 { '5' }
    else if k == 6 { '6' }
    else if k == 7 { '7' }
    else if k == 8 { '8' }
    else { '9' }
}

/// `n` (below 100) written with two digits.
pub open spec fn two_digits(n: int) -> Seq<char> {
    seq![digit_char(n / 10), digit_char(n % 10)]
}

/// `n` (below 10000) written with four digits.
pub open spec fn four_digits(n: int) -> Seq<char> {
    two_digits(n / 100) + two_digits(n % 100)
}

/// The canonical form `mm/dd/yy` of a day.
pub open spec fn canonical_text(y: int, m: int, d: int) -> Seq<char> {
    two_digits(m) + seq!['/'] + two_digits(d) + seq!['/'] + two_digits(y % 100)
}

/// The form `mm-dd-yyyy` of a day.
pub open spec fn dashed_text(y: int, m: int, d: int) -> Seq<char> {
    two_digits(m) + seq!['-'] + two_digits(d) + seq!['-'] + four_digits(y)
}

fn digit(k: u32) -> (c: char)
    requires
        k < 10,
    ensures
        c == digit_char(k as int),
{
    if k == 0 { '0' }
    else if k == 1 { '1' }
    else if k == 2 { '2' }
    else if k == 3 { '3' }
    else if k == 4 { '4' }
    else if k == 5 { '5' }
    else if k == 6 { '6' }
    else if k == 7 { '7' }
    else if k == 8 { '8' }
    else { '9' }
}

fn push_two_digits(s: &mut String, n: u32)
    requires
        n < 100,
    ensures
        final(s)@ == old(s)@ + two_digits(n as int),
{
    push_char(s, digit(n / 10));
    push_char(s, digit(n % 10));
    assert(final(s)@ =~= old(s)@ + two_digits(n as int));
}

/// Writes a day as `mm/dd/yy`, the year taken modulo 100.
pub fn canonical_date(date: CivilDate) -> (r: String)
    requires
        date.valid(),
    ensures
        r@ == canonical_text(date.year as int, date.month as int, date.day as int),
{
    let y: i64 = (date.year as i64 + 300000) % 100;
    proof {
        lemma_mod_multiples_vanish(3000, date.year as int, 100);
    }
    let mut s = String::new();
    push_two_digits(&mut s, date.month);
    push_char(&mut s, '/');
    push_two_digits(&mut s, date.day);
    push_char(&mut s, '/');
    push_two_digits(&mut s, y as u32);
    assert(s@ =~= canonical_text(date.year as int, date.month as int, date.day as int));
    s
}

/// The format of savings statement dates, such as `25 Aug 2023`.
pub open spec fn savings_date_format() -> Seq<char> {
    "%e %b %Y"@
}

/// The format of investment statement dates, such as
/// `2023-12-08T14:30:08.150Z`.
pub open spec fn investment_date_format() -> Seq<char> {
    "%Y-%m-%dT%H:%M:%S%.fZ"@
}

/// The canonical form of the date that `text` spells in `format`, if any.
pub open spec fn date_text(text: Seq<char>, format: Seq<char>) -> Option<Seq<char>> {
    match parsed_date(text, format) {
        Some((y, m, d)) => Some(canonical_text(y, m, d)),
        None => None,
    }
}

/// Reads a date in `format` and writes it as `mm/dd/yy`.
pub fn normalize_date(text: &str, format: &str) -> (r: Result<String, ParseError>)
    ensures
        match date_text(text@, format@) {
            Some(t) => r matches Ok(s) && s@ == t,
            None => r == Err::<String, ParseError>(ParseError::MalformedDate),
        },
{
    match parse_date(text, format) {
        Some(d) => Ok(canonical_date(d)),
        None => Err(ParseError::MalformedDate),
    }
}

/// Normalizes a savings statement date such as `25 Aug 2023`.
pub fn normalize_savings_date(text: &str) -> (r: Result<String, ParseError>)
    ensures
        match date_text(text@, savings_date_format()) {
            Some(t) => r matches Ok(s) && s@ == t,
            None => r == Err::<String, ParseError>(ParseError::MalformedDate),
        },
{
    normalize_date(text, "%e %b %Y")
}

/// Normalizes an investment statement date such as
/// `2023-12-08T14:30:08.150Z`.
pub fn normalize_investment_date(text: &str) -> (r: Result<String, ParseError>)
    ensures
        match date_text(text@, investment_date_format()) {
            Some(t) => r matches Ok(s) && s@ == t,
            None => r == Err::<String, ParseError>(ParseError::MalformedDate),
        },
{
    normalize_date(text, "%Y-%m-%dT%H:%M:%S%.fZ")
}

fn push_four_digits(s: &mut String, n: u32)
    requires
        n < 10000,
    ensures
        final(s)@ == old(s)@ + four_digits(n as int),
{
    push_two_digits(s, n / 100);
    push_two_digits(s, n % 100);
    assert(final(s)@ =~= old(s)@ + four_digits(n as int));
}

/// The format of the dates that records carry, such as `08/25/23`.
pub open spec fn record_date_format() -> Seq<char> {
    "%m/%d/%y"@
}

/// The address of the published rate of `from` in `to` for the day
/// `(y, m, d)`.
pub open spec fn rate_url_text(from: Seq<char>, to: Seq<char>, y: int, m: int, d: int) -> Seq<char> {
    "https://www.exchange-rates.org/Rate/"@ + from + seq!['/'] + to + seq!['/'] + dashed_text(
        y,
        m,
        d,
    ) + "/?format=json"@
}

/// The address at which the rate of `from` in `to` is looked up for a record
/// dated `transaction_date` (`mm/dd/yy`): the rate of the day before.
/// `MalformedDate` where the text is no such date, or where the day before
/// has no four-digit year.
pub fn exchange_rate_url(from: &str, to: &str, transaction_date: &str) -> (r: Result<
    String,
    ParseError,
>)
    ensures
        match parsed_date(transaction_date@, record_date_format()) {
            Some((y, m, d)) => {
                let (py, pm, pd) = day_before(y, m, d);
                if 0 <= py <= 9999 {
                    r matches Ok(u) && u@ == rate_url_text(from@, to@, py, pm, pd)
                } else {
                    r == Err::<String, ParseError>(ParseError::MalformedDate)
                }
            },
            None => r == Err::<String, ParseError>(ParseError::MalformedDate),
        },
{
    let date = match parse_date(transaction_date, "%m/%d/%y") {
        Some(d) => d,
        None => return Err(ParseError::MalformedDate),
    };
    let before = match previous_day(date) {
        Some(p) => p,
        None => return Err(ParseError::MalformedDate),
    };
    if before.year < 0 || before.year > 9999 {
        return Err(ParseError::MalformedDate);
    }
    let mut url = String::from_str("https://www.exchange-rates.org/Rate/");
    url.append(from);
    push_char(&mut url, '/');
    url.append(to);
    push_char(&mut url, '/');
    push_two_digits(&mut url, before.month);
    push_char(&mut url, '-');
    push_two_digits(&mut url, before.day);
    push_char(&mut url, '-');
    push_four_digits(&mut url, before.year as u32);
    url.append("/?format=json");
    assert(url@ =~= rate_url_text(
        from@,
        to@,
        before.year as int,
        before.month as int,
        before.day as int,
    ));
    Ok(url)
}

} // verus!
