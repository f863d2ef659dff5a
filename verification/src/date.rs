//! Calendar dates as plain year/month/day numbers: parsing from
//! `YYYY-MM-DD` text, ordering, and formatting (the machine-readable
//! midnight-UTC timestamp and the human-readable forms used by page
//! templates).

use vstd::prelude::*;

verus! {

/// A calendar date. Well-formed values (see [`Date::wf`]) have a
/// four-digit year and a real month/day combination, leap years
/// included.
#[derive(Clone, Copy, PartialEq, Eq, Structural, Debug)]
pub struct Date {
    pub year: u16,
    pub month: u8,
    pub day: u8,
}

pub open spec fn is_leap_year(y: int) -> bool {
    (y % 4 == 0 && y % 100 != 0) || y % 400 == 0
}

pub open spec fn days_in_month(y: int, m: int) -> int {
    if m == 2 {
        if is_leap_year(y) {
            29
        } else {
            28
        }
    } else if m == 4 || m == 6 || m == 9 || m == 11 {
        30
    } else {
        31
    }
}

impl Date {
    pub open spec fn wf(self) -> bool {
        &&& self.year <= 9999
        &&& 1 <= self.month <= 12
        &&& 1 <= self.day <= days_in_month(self.year as int, self.month as int)
    }

    /// `self` is on or before `other` in calendar order.
    pub open spec fn spec_le(self, other: Date) -> bool {
        if self.year != other.year {
            self.year < other.year
        } else if self.month != other.month {
            self.month < other.month
        } else {
            self.day <= other.day
        }
    }

    /// Calendar-order comparison, used to sort posts.
    pub fn le(&self, other: &Date) -> (r: bool)
        ensures
            r == self.spec_le(*other),
    {
        if self.year != other.year {
            self.year < other.year
        } else if self.month != other.month {
            self.month < other.month
        } else {
            self.day <= other.day
        }
    }
}

pub open spec fn is_digit(c: char) -> bool {
    '0' <= c && c <= '9'
}

pub open spec fn digit_val(c: char) -> int {
    c as int - '0' as int
}

pub open spec fn digit_char(d: int) -> char {
    if d == 0 {
        '0'
    } else if d == 1 {
        '1'
    } else if d == 2 {
        '2'
    } else if d == 3 {
        '3'
    } else if d == 4 {
        '4'
    } else if d == 5 {
        '5'
    } else if d == 6 {
        '6'
    } else if d == 7 {
        '7'
    } else if d == 8 {
        '8'
    } else {
        '9'
    }
}

/// The digit groups of date text: the year is always four digits; the
/// month and day groups may be one or two digits each, as in
/// `2024-1-5`. The result gives the month group's end and the day
/// group's start.
pub open spec fn date_groups(s: Seq<char>) -> Option<(int, int)> {
    if s.len() < 8 || s.len() > 10 {
        None
    } else if s[6] == '-' {
        Some((6, 7))
    } else if s[7] == '-' {
        Some((7, 8))
    } else {
        None
    }
}

pub open spec fn digits_in(s: Seq<char>, lo: int, hi: int) -> bool {
    forall|k: int| lo <= k < hi ==> is_digit(s[k])
}

/// The value of a one- or two-digit group `[lo, hi)`.
pub open spec fn group_val(s: Seq<char>, lo: int, hi: int) -> int {
    if hi - lo == 1 {
        digit_val(s[lo])
    } else {
        digit_val(s[lo]) * 10 + digit_val(s[lo + 1])
    }
}

/// What parsing date text yields: `Some` exactly on `YYYY-MM-DD` text
/// that names a real calendar date. The year is four digits; month
/// and day accept one or two, so `2024-1-5` and `2024-01-05` name the
/// same date.
pub open spec fn parse_date_spec(s: Seq<char>) -> Option<Date> {
    if 8 <= s.len() <= 10 && is_digit(s[0]) && is_digit(s[1]) && is_digit(s[2]) && is_digit(s[3])
        && s[4] == '-' {
        match date_groups(s) {
            Option::None => None,
            Option::Some((mhi, dlo)) => {
                if digits_in(s, 5, mhi) && 1 <= s.len() - dlo <= 2 && digits_in(
                    s,
                    dlo,
                    s.len() as int,
                ) {
                    let d = Date {
                        year: (digit_val(s[0]) * 1000 + digit_val(s[1]) * 100 + digit_val(s[2])
                            * 10 + digit_val(s[3])) as u16,
                        month: group_val(s, 5, mhi) as u8,
                        day: group_val(s, dlo, s.len() as int) as u8,
                    };
                    if d.wf() {
                        Some(d)
                    } else {
                        None
                    }
                } else {
                    None
                }
            },
        }
    } else {
        None
    }
}

/// Parse `YYYY-MM-DD` text into a date; `None` on any other shape or
/// on an impossible month/day combination.
pub fn parse_date(s: &str) -> (r: Option<Date>)
    ensures
        r == parse_date_spec(s@),
        r is Some ==> r.unwrap().wf(),
{
    let v = crate::text::str_to_chars(s);
    parse_date_chars(&v)
}

/// Read a one- or two-digit group `[lo, hi)`; `None` unless every
/// character is a digit.
fn read_group(s: &Vec<char>, lo: usize, hi: usize) -> (r: Option<u8>)
    requires
        lo < hi <= s@.len(),
        hi - lo <= 2,
    ensures
        r is Some <==> digits_in(s@, lo as int, hi as int),
        r is Some ==> r.unwrap() as int == group_val(s@, lo as int, hi as int) && r.unwrap() <= 99,
{
    if hi - lo == 1 {
        digit_of(s[lo])
    } else {
        let a = digit_of(s[lo]);
        let b = digit_of(s[lo + 1]);
        if a.is_some() && b.is_some() {
            Some(a.unwrap() * 10 + b.unwrap())
        } else {
            None
        }
    }
}

/// [`parse_date`] on an already split-out character vector.
pub fn parse_date_chars(s: &Vec<char>) -> (r: Option<Date>)
    ensures
        r == parse_date_spec(s@),
        r is Some ==> r.unwrap().wf(),
{
    let n = s.len();
    if n < 8 || n > 10 {
        return None;
    }
    let d0 = digit_of(s[0]);
    let d1 = digit_of(s[1]);
    let d2 = digit_of(s[2]);
    let d3 = digit_of(s[3]);
    if !(d0.is_some() && d1.is_some() && d2.is_some() && d3.is_some() && s[4] == '-') {
        return None;
    }
    let (mhi, dlo): (usize, usize) = if s[6] == '-' {
        (6, 7)
    } else if s[7] == '-' {
        (7, 8)
    } else {
        return None;
    };
    if n - dlo < 1 || n - dlo > 2 {
        return None;
    }
    let month = match read_group(s, 5, mhi) {
        Option::Some(m) => m,
        Option::None => {
            return None;
        },
    };
    let day = match read_group(s, dlo, n) {
        Option::Some(d) => d,
        Option::None => {
            return None;
        },
    };
    let year: u16 = d0.unwrap() as u16 * 1000 + d1.unwrap() as u16 * 100 + d2.unwrap() as u16 * 10
        + d3.unwrap() as u16;
    let date = Date { year, month, day };
    if month < 1 || month > 12 {
        return None;
    }
    let dim: u8 = days_in_month_exec(year, month);
    if day < 1 || day > dim {
        return None;
    }
    Some(date)
}

/// The numeric value of a decimal digit character.
pub fn digit_of(c: char) -> (r: Option<u8>)
    ensures
        r is Some <==> is_digit(c),
        r is Some ==> r.unwrap() == digit_val(c) && r.unwrap() <= 9,
{
    match c {
        '0' => Some(0),
        '1' => Some(1),
        '2' => Some(2),
        '3' => Some(3),
        '4' => Some(4),
        '5' => Some(5),
        '6' => Some(6),
        '7' => Some(7),
        '8' => Some(8),
        '9' => Some(9),
        _ => None,
    }
}

pub fn days_in_month_exec(year: u16, month: u8) -> (r: u8)
    ensures
        r as int == days_in_month(year as int, month as int),
{
    if month == 2 {
        if (year % 4 == 0 && year % 100 != 0) || year % 400 == 0 {
            29
        } else {
            28
        }
    } else if month == 4 || month == 6 || month == 9 || month == 11 {
        30
    } else {
        31
    }
}

/// The `YYYY-MM-DD` text of a date, digits zero-padded.
pub open spec fn date_text_of(d: Date) -> Seq<char> {
    seq![
        digit_char(d.year as int / 1000),
        digit_char((d.year as int / 100) % 10),
        digit_char((d.year as int / 10) % 10),
        digit_char(d.year as int % 10),
        '-',
        digit_char(d.month as int / 10),
        digit_char(d.month as int % 10),
        '-',
        digit_char(d.day as int / 10),
        digit_char(d.day as int % 10),
    ]
}

/// The fixed time-of-day tail of the machine-readable timestamp:
/// midnight UTC.
pub open spec fn iso_suffix() -> Seq<char> {
    seq!['T', '0', '0', ':', '0', '0', ':', '0', '0', 'Z']
}

/// The machine-readable timestamp of a date: `YYYY-MM-DDT00:00:00Z`.
pub open spec fn iso_of(d: Date) -> Seq<char> {
    date_text_of(d) + iso_suffix()
}

/// A single decimal digit as a one-character string.
pub fn digit_str(d: u8) -> (r: &'static str)
    requires
        d <= 9,
    ensures
        r@ == seq![digit_char(d as int)],
{
    proof {
        reveal_strlit("0");
        reveal_strlit("1");
        reveal_strlit("2");
        reveal_strlit("3");
        reveal_strlit("4");
        reveal_strlit("5");
        reveal_strlit("6");
        reveal_strlit("7");
        reveal_strlit("8");
        reveal_strlit("9");
    }
    let r = match d {
        0 => "0",
        1 => "1",
        2 => "2",
        3 => "3",
        4 => "4",
        5 => "5",
        6 => "6",
        7 => "7",
        8 => "8",
        _ => "9",
    };
    proof {
        assert(r@ =~= seq![digit_char(d as int)]);
    }
    r
}

/// Append a two-digit zero-padded number to a string.
fn append_two_digits(s: &mut String, n: u8)
    requires
        n <= 99,
    ensures
        final(s)@ == old(s)@ + seq![digit_char(n as int / 10), digit_char(n as int % 10)],
{
    s.append(digit_str(n / 10));
    s.append(digit_str(n % 10));
    proof {
        assert(s@ =~= old(s)@ + seq![digit_char(n as int / 10), digit_char(n as int % 10)]);
    }
}

/// Append a four-digit zero-padded number to a string.
fn append_four_digits(s: &mut String, n: u16)
    requires
        n <= 9999,
    ensures
        final(s)@ == old(s)@ + seq![
            digit_char(n as int / 1000),
            digit_char((n as int / 100) % 10),
            digit_char((n as int / 10) % 10),
            digit_char(n as int % 10),
        ],
{
    s.append(digit_str((n / 1000) as u8));
    s.append(digit_str(((n / 100) % 10) as u8));
    s.append(digit_str(((n / 10) % 10) as u8));
    s.append(digit_str((n % 10) as u8));
    proof {
        assert(s@ =~= old(s)@ + seq![
            digit_char(n as int / 1000),
            digit_char((n as int / 100) % 10),
            digit_char((n as int / 10) % 10),
            digit_char(n as int % 10),
        ]);
    }
}

/// The `YYYY-MM-DD` text of a date, digits zero-padded, as templates
/// and the timestamp show it.
pub fn format_ymd(d: &Date) -> (r: String)
    requires
        d.wf(),
    ensures
        r@ == date_text_of(*d),
{
    let mut s = String::new();
    append_four_digits(&mut s, d.year);
    s.append("-");
    append_two_digits(&mut s, d.month);
    s.append("-");
    append_two_digits(&mut s, d.day);
    proof {
        reveal_strlit("-");
        assert(s@ =~= date_text_of(*d));
    }
    s
}

/// The machine-readable timestamp of a date, computed once at load
/// time: the date at midnight UTC.
pub fn format_iso(d: &Date) -> (r: String)
    requires
        d.wf(),
    ensures
        r@ == iso_of(*d),
{
    let mut s = format_ymd(d);
    s.append("T00:00:00Z");
    proof {
        reveal_strlit("T00:00:00Z");
        assert(s@ =~= iso_of(*d));
    }
    s
}

/// The timestamp is exactly twenty characters: this date's
/// `YYYY-MM-DD` text, then the fixed midnight-UTC tail.
pub open spec fn timestamp_is_midnight_of(ts: Seq<char>, d: Date) -> bool {
    &&& ts.len() == 20
    &&& parse_date_spec(ts.take(10)) == Some(d)
    &&& ts.skip(10) == iso_suffix()
}

/// A date's machine-readable timestamp is always a valid timestamp at
/// midnight UTC on exactly that date: parsing the date part back
/// yields the date it was formatted from.
pub proof fn lemma_iso_round_trip(d: Date)
    requires
        d.wf(),
    ensures
        timestamp_is_midnight_of(iso_of(d), d),
{
    let ts = iso_of(d);
    let t = date_text_of(d);
    assert(ts.take(10) =~= t);
    assert(ts.skip(10) =~= iso_suffix());
    let y = d.year as int;
    let m = d.month as int;
    let dd = d.day as int;
    assert(y == (y / 1000) * 1000 + ((y / 100) % 10) * 100 + ((y / 10) % 10) * 10 + y % 10
        && 0 <= y / 1000 <= 9 && 0 <= (y / 100) % 10 <= 9 && 0 <= (y / 10) % 10 <= 9 && 0 <= y % 10
        <= 9) by (nonlinear_arith)
        requires
            0 <= y <= 9999,
    ;
    assert(m == (m / 10) * 10 + m % 10 && 0 <= m / 10 <= 9 && 0 <= m % 10 <= 9) by (nonlinear_arith)
        requires
            0 <= m <= 12,
    ;
    assert(dd == (dd / 10) * 10 + dd % 10 && 0 <= dd / 10 <= 9 && 0 <= dd % 10 <= 9)
        by (nonlinear_arith)
        requires
            0 <= dd <= 31,
    ;
    assert(is_digit(t[0]) && is_digit(t[1]) && is_digit(t[2]) && is_digit(t[3]));
    assert(t[6] != '-' && t[7] == '-');
    assert(date_groups(t) == Some((7int, 8int)));
    assert(digits_in(t, 5, 7) && digits_in(t, 8, 10));
    assert(group_val(t, 5, 7) == m);
    assert(group_val(t, 8, 10) == dd);
    assert(parse_date_spec(t) == Some(d));
}

pub open spec fn month_name_long(m: int) -> Seq<char> {
    if m == 1 {
        "January"@
    } else if m == 2 {
        "February"@
    } else if m == 3 {
        "March"@
    } else if m == 4 {
        "April"@
    } else if m == 5 {
        "May"@
    } else if m == 6 {
        "June"@
    } else if m == 7 {
        "July"@
    } else if m == 8 {
        "August"@
    } else if m == 9 {
        "September"@
    } else if m == 10 {
        "October"@
    } else if m == 11 {
        "November"@
    } else {
        "December"@
    }
}

pub open spec fn month_name_short(m: int) -> Seq<char> {
    if m == 1 {
        "Jan"@
    } else if m == 2 {
        "Feb"@
    } else if m == 3 {
        "Mar"@
    } else if m == 4 {
        "Apr"@
    } else if m == 5 {
        "May"@
    } else if m == 6 {
        "Jun"@
    } else if m == 7 {
        "Jul"@
    } else if m == 8 {
        "Aug"@
    } else if m == 9 {
        "Sep"@
    } else if m == 10 {
        "Oct"@
    } else if m == 11 {
        "Nov"@
    } else {
        "Dec"@
    }
}

/// The human-readable form of `YYYY-MM-DD` text, as the page
/// templates show it: month name, zero-padded day, and year. Text
/// that is not a valid date is returned as it came.
pub open spec fn format_date_text(s: Seq<char>, short: bool) -> Seq<char> {
    match parse_date_spec(s) {
        Option::None => s,
        Option::Some(d) => (if short {
            month_name_short(d.month as int)
        } else {
            month_name_long(d.month as int)
        }) + seq![' ', digit_char(d.day as int / 10), digit_char(d.day as int % 10), ',', ' ']
            + seq![
            digit_char(d.year as int / 1000),
            digit_char((d.year as int / 100) % 10),
            digit_char((d.year as int / 10) % 10),
            digit_char(d.year as int % 10),
        ],
    }
}

fn month_str(m: u8, short: bool) -> (r: &'static str)
    requires
        1 <= m <= 12,
    ensures
        r@ == if short {
            month_name_short(m as int)
        } else {
            month_name_long(m as int)
        },
{
    if short {
        match m {
            1 => "Jan",
            2 => "Feb",
            3 => "Mar",
            4 => "Apr",
            5 => "May",
            6 => "Jun",
            7 => "Jul",
            8 => "Aug",
            9 => "Sep",
            10 => "Oct",
            11 => "Nov",
            _ => "Dec",
        }
    } else {
        match m {
            1 => "January",
            2 => "February",
            3 => "March",
            4 => "April",
            5 => "May",
            6 => "June",
            7 => "July",
            8 => "August",
            9 => "September",
            10 => "October",
            11 => "November",
            _ => "December",
        }
    }
}

/// Format date text for the page templates: short gives `Jan 05,
/// 2024`, long gives `January 05, 2024`; anything that is not a
/// valid date comes back unchanged.
pub fn format_date(date_str: &str, short: bool) -> (r: String)
    ensures
        r@ == format_date_text(date_str@, short),
{
    match parse_date(date_str) {
        Option::None => date_str.to_owned(),
        Option::Some(d) => {
            let mut s = String::new();
            s.append(month_str(d.month, short));
            s.append(" ");
            append_two_digits(&mut s, d.day);
            s.append(", ");
            append_four_digits(&mut s, d.year);
            proof {
                reveal_strlit(" ");
                reveal_strlit(", ");
                assert(s@ =~= format_date_text(date_str@, short));
            }
            s
        },
    }
}

} // verus!
