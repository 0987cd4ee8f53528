use crate::text::{
    all_digits, digit_val, digits_val, lemma_digits_val_four, lemma_digits_val_two, to_chars,
};
use vstd::prelude::*;
use vstd::string::*;

verus! {

/// A calendar date in the proleptic Gregorian calendar, held as plain
/// year, month and day numbers. Validity is `wf()`.
#[derive(Clone, Copy, Debug, PartialEq, Eq, Hash, Structural)]
pub struct Date {
    pub year: u32,
    pub month: u8,
    pub day: u8,
}

pub open spec fn is_leap_year(y: int) -> bool {
    y % 4 == 0 && (y % 100 != 0 || y % 400 == 0)
}

pub open spec fn days_in_month(y: int, m: int) -> int {
    if m == 2 {
        if is_leap_year(y) {
            29
        } else {
            28
        }
    } else if m == 4 || m == 6 || m == 9 || m == 11 {
        30
    } else {
        31
    }
}

impl Date {
    /// A date is well formed when the month exists, the day exists in that
    /// month of that year, and the year has at most four digits.
    pub open spec fn wf(self) -> bool {
        &&& self.year <= 9999
        &&& 1 <= self.month <= 12
        &&& 1 <= self.day <= days_in_month(self.year as int, self.month as int)
    }
}

pub fn days_in_month_exec(y: u32, m: u8) -> (r: u8)
    ensures
        r == days_in_month(y as int, m as int),
{
    if m == 2 {
        if y % 4 == 0 && (y % 100 != 0 || y % 400 == 0) {
            29
        } else {
            28
        }
    } else if m == 4 || m == 6 || m == 9 || m == 11 {
        30
    } else {
        31
    }
}

/// `s` read in the fixed `dd/mm/yyyy` format: two day digits, two month
/// digits and four year digits separated by slashes, naming a day that
/// exists in that month of that year. Anything else is not a date.
pub open spec fn spec_parse_date(s: Seq<char>) -> Option<Date> {
    if s.len() == 10 && s[2] == '/' && s[5] == '/' && all_digits(s, 0, 2) && all_digits(s, 3, 5)
        && all_digits(s, 6, 10) {
        let d = digits_val(s, 0, 2);
        let m = digits_val(s, 3, 5);
        let y = digits_val(s, 6, 10);
        if 1 <= m <= 12 && 1 <= d <= days_in_month(y, m) {
            Some(Date { year: y as u32, month: m as u8, day: d as u8 })
        } else {
            None
        }
    } else {
        None
    }
}

/// Parses the fixed `dd/mm/yyyy` date format.
pub fn parse_date_str(s: &str) -> (r: Option<Date>)
    ensures
        r == spec_parse_date(s@),
        r matches Some(d) ==> d.wf(),
{
    let n = s.unicode_len();
    if n != 10 {
        return None;
    }
    let v = to_chars(s);
    if !(v[2] == '/' && v[5] == '/') {
        return None;
    }
    if !(digit_ok(v[0]) && digit_ok(v[1]) && digit_ok(v[3]) && digit_ok(v[4]) && digit_ok(v[6])
        && digit_ok(v[7]) && digit_ok(v[8]) && digit_ok(v[9])) {
        return None;
    }
    assert(all_digits(s@, 0, 2));
    assert(all_digits(s@, 3, 5));
    assert(all_digits(s@, 6, 10));
    proof {
        lemma_digits_val_two(s@, 0);
        lemma_digits_val_two(s@, 3);
        lemma_digits_val_four(s@, 6);
    }
    let d: u8 = (digit_of(v[0]) * 10 + digit_of(v[1])) as u8;
    let m: u8 = (digit_of(v[3]) * 10 + digit_of(v[4])) as u8;
    let y: u32 = ((digit_of(v[6]) * 10 + digit_of(v[7])) * 10 + digit_of(v[8])) * 10 + digit_of(
        v[9],
    );
    assert(d == digits_val(s@, 0, 2));
    assert(m == digits_val(s@, 3, 5));
    assert(y == digits_val(s@, 6, 10));
    if 1 <= m && m <= 12 && 1 <= d && d <= days_in_month_exec(y, m) {
        Some(Date { year: y, month: m, day: d })
    } else {
        None
    }
}

fn digit_ok(c: char) -> (r: bool)
    ensures
        r == crate::text::is_digit(c),
{
    '0' <= c && c <= '9'
}

fn digit_of(c: char) -> (r: u32)
    requires
        crate::text::is_digit(c),
    ensures
        r == digit_val(c),
        r <= 9,
{
    c as u32 - '0' as u32
}

} // verus!
