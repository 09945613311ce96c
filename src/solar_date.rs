//! The solar date value type, its calendar fields, parsing and rendering.
use vstd::prelude::*;

use crate::numerals::{
    all_digits, cn_count, decimal, digits_value, numeral_text, padded_decimal, parse_digits, push_padded,
    parse_numeral, push_cn_count, push_decimal,
};
use crate::text::{find_char, first_index, sub_chars, trim, trim_chars};

verus! {

/// Relies on `String::push`: appends one character.
#[verifier::external_body]
fn push_char(s: &mut String, c: char)
    ensures
        final(s)@ == old(s)@.push(c),
{
    s.push(c);
}

/// The characters of `s`, in order.
fn chars_of(s: &str) -> (r: Vec<char>)
    ensures
        r@ == s@,
{
    let mut v: Vec<char> = Vec::new();
    proof {
        broadcast use vstd::string::axiom_spec_iter;
    }
    for c in it: s.chars()
        invariant
            it.seq() == s@,
            v@ == it.seq().take(it.index() as int),
    {
        v.push(c);
    }
    v
}

/// Appends every character of `v` to `s`.
fn append_chars(s: &mut String, v: &Vec<char>)
    ensures
        final(s)@ == old(s)@ + v@,
{
    let mut i: usize = 0;
    while i < v.len()
        invariant
            i <= v.len(),
            s@ == old(s)@ + v@.take(i as int),
        decreases v.len() - i,
    {
        push_char(s, v[i]);
        assert(v@.take(i + 1) =~= v@.take(i as int).push(v@[i as int]));
        i = i + 1;
    }
    assert(v@.take(v.len() as int) =~= v@);
}

fn string_of(v: &Vec<char>) -> (r: String)
    ensures
        r@ == v@,
{
    let mut s = String::new();
    append_chars(&mut s, v);
    assert(s@ =~= v@);
    s
}

pub open spec fn is_leap_year(y: int) -> bool {
    (y % 4 == 0 && y % 100 != 0) || y % 400 == 0
}

/// The number of days of month `m` (in `1..=12`) of year `y`.
pub open spec fn days_in_month(y: int, m: int) -> int {
    if m == 2 {
        if is_leap_year(y) {
            29
        } else {
            28
        }
    } else if m == 4 || m == 6 || m == 9 || m == 11 {
        30
    } else {
        31
    }
}

/// A year written in ASCII digits or in Chinese digits (二〇二一), up to 65535.
#[verifier::opaque]
pub open spec fn year_text(s: Seq<char>) -> Option<int> {
    if s.len() > 0 && all_digits(s, false) && digits_value(s, false) <= 0xFFFF {
        Some(digits_value(s, false))
    } else if s.len() > 0 && all_digits(s, true) && digits_value(s, true) <= 0xFFFF {
        Some(digits_value(s, true))
    } else {
        None
    }
}

/// A month: a numeral in `1..=12`, optionally followed by 月.
#[verifier::opaque]
pub open spec fn month_text(s: Seq<char>) -> Option<int> {
    let body = if s.len() > 0 && s.last() == '月' {
        s.drop_last()
    } else {
        s
    };
    match numeral_text(body) {
        Some(n) => if 1 <= n <= 12 {
            Some(n)
        } else {
            None
        },
        None => None,
    }
}

/// A day: a numeral in `1..=31`.
#[verifier::opaque]
pub open spec fn day_text(s: Seq<char>) -> Option<int> {
    match numeral_text(s) {
        Some(n) => if 1 <= n <= 31 {
            Some(n)
        } else {
            None
        },
        None => None,
    }
}

pub open spec fn month_chinese(m: int) -> Seq<char> {
    cn_count(m).push('月')
}

/// The Chinese written form: 二〇二一年十月十五日.
pub open spec fn chinese_text(y: int, m: int, d: int) -> Seq<char> {
    decimal(y as nat, true) + seq!['年'] + month_chinese(m) + cn_count(d) + seq!['日']
}

/// The numeric form `yyyy-mm-dd`, each field zero-padded.
pub open spec fn numeric_text(y: int, m: int, d: int) -> Seq<char> {
    padded_decimal(y as nat, 4) + seq!['-'] + padded_decimal(m as nat, 2) + seq!['-']
        + padded_decimal(d as nat, 2)
}

pub open spec fn valid_ymd(y: int, m: int, d: int) -> bool {
    0 <= y <= 0xFFFF && 1 <= m <= 12 && 1 <= d <= days_in_month(y, m)
}

/// What building a date from a raw year, month and day gives. A day outside
/// `1..=31` is reported as a month error; a day past the month's end as a day
/// error.
pub open spec fn ymd_result(y: int, m: int, d: int) -> Result<(int, int, int), SolarDateParseError> {
    if !(1 <= m <= 12) {
        Err(SolarDateParseError::IncorrectMonth)
    } else if !(1 <= d <= 31) {
        Err(SolarDateParseError::IncorrectMonth)
    } else if d > days_in_month(y, m) {
        Err(SolarDateParseError::IncorrectDay)
    } else {
        Ok((y, m, d))
    }
}

/// Where a field ends: its unit character, or else a full-width space.
pub open spec fn marker_index(s: Seq<char>, unit: char) -> Option<int> {
    match first_index(s, unit) {
        Some(i) => Some(i),
        None => first_index(s, '　'),
    }
}

/// The day part once trimmed, with a trailing 日 taken off.
pub open spec fn day_part(t: Seq<char>) -> Seq<char> {
    if t.len() > 0 && t.last() == '日' {
        t.drop_last()
    } else {
        t
    }
}

/// What the day field `t`, after year `y` and month `m`, gives.
pub open spec fn parse_day_field(y: int, m: int, t: Seq<char>) -> Result<
    (int, int, int),
    SolarDateParseError,
> {
    match day_text(day_part(trim(t))) {
        None => Err(SolarDateParseError::IncorrectDay),
        Some(d) => if d > days_in_month(y, m) {
            Err(SolarDateParseError::IncorrectDay)
        } else {
            Ok((y, m, d))
        },
    }
}

/// What the text `r` after the year `y` and its marker gives.
pub open spec fn parse_month_field(y: int, r: Seq<char>) -> Result<
    (int, int, int),
    SolarDateParseError,
> {
    match marker_index(r, '月') {
        None => Err(SolarDateParseError::IncorrectMonth),
        Some(mi) => match month_text(trim(r.subrange(0, mi + 1))) {
            None => Err(SolarDateParseError::IncorrectMonth),
            Some(m) => parse_day_field(y, m, r.subrange(mi + 1, r.len() as int)),
        },
    }
}

/// What parsing the Chinese written form gives.
pub open spec fn parse_text(s: Seq<char>) -> Result<(int, int, int), SolarDateParseError> {
    match marker_index(s, '年') {
        None => Err(SolarDateParseError::IncorrectYear),
        Some(yi) => match year_text(trim(s.subrange(0, yi))) {
            None => Err(SolarDateParseError::IncorrectYear),
            Some(y) => parse_month_field(y, s.subrange(yi + 1, s.len() as int)),
        },
    }
}

/// A solar year.
#[derive(Debug, PartialEq, Eq, Structural, Clone, Copy, Hash)]
pub struct SolarYear {
    year: u16,
}

/// A solar month, 1 to 12.
#[derive(Debug, PartialEq, Eq, Structural, Clone, Copy, Hash)]
pub struct SolarMonth {
    month: u8,
}

/// A solar day of the month, 1 to 31.
#[derive(Debug, PartialEq, Eq, Structural, Clone, Copy, Hash)]
pub struct SolarDay {
    day: u8,
}

impl View for SolarYear {
    type V = int;

    closed spec fn view(&self) -> int {
        self.year as int
    }
}

impl View for SolarMonth {
    type V = int;

    closed spec fn view(&self) -> int {
        self.month as int
    }
}

impl View for SolarDay {
    type V = int;

    closed spec fn view(&self) -> int {
        self.day as int
    }
}

impl SolarYear {
    pub fn from_u16(year: u16) -> (r: SolarYear)
        ensures
            r@ == year,
    {
        SolarYear { year }
    }

    pub fn to_u16(&self) -> (r: u16)
        ensures
            r == self@,
    {
        self.year
    }

    fn parse_chars(s: &Vec<char>) -> (r: Option<SolarYear>)
        ensures
            r matches Some(y) ==> year_text(s@) == Some(y@),
            r is None ==> year_text(s@) is None,
    {
        proof {
            reveal(year_text);
        }
        match parse_digits(s, false) {
            Some(v) => Some(SolarYear { year: v }),
            None => match parse_digits(s, true) {
                Some(v) => Some(SolarYear { year: v }),
                None => None,
            },
        }
    }

    /// Parses a year written in ASCII digits or in Chinese digits.
    pub fn from_str(s: &str) -> (r: Option<SolarYear>)
        ensures
            r matches Some(y) ==> year_text(s@) == Some(y@),
            r is None ==> year_text(s@) is None,
    {
        Self::parse_chars(&chars_of(s))
    }

    /// Appends the year in Chinese digits (二〇二一).
    pub fn write_to_chinese_string(&self, s: &mut String)
        ensures
            final(s)@ == old(s)@ + decimal(self@ as nat, true),
    {
        let mut v: Vec<char> = Vec::new();
        push_decimal(&mut v, self.year as u32, true);
        assert(v@ =~= decimal(self@ as nat, true));
        append_chars(s, &v);
    }
}

impl SolarMonth {
    #[verifier::type_invariant]
    spec fn inv(self) -> bool {
        1 <= self.month <= 12
    }

    pub fn from_u8(month: u8) -> (r: Option<SolarMonth>)
        ensures
            r matches Some(m) ==> m@ == month,
            r is Some <==> 1 <= month <= 12,
    {
        if 1 <= month && month <= 12 {
            Some(SolarMonth { month })
        } else {
            None
        }
    }

    pub fn to_u8(&self) -> (r: u8)
        ensures
            r == self@,
            1 <= r <= 12,
    {
        proof {
            use_type_invariant(self);
        }
        self.month
    }

    fn parse_chars(s: &Vec<char>) -> (r: Option<SolarMonth>)
        ensures
            r matches Some(m) ==> month_text(s@) == Some(m@),
            r is None ==> month_text(s@) is None,
    {
        proof {
            reveal(month_text);
        }
        let body = if s.len() > 0 && s[s.len() - 1] == '月' {
            sub_chars(s, 0, s.len() - 1)
        } else {
            sub_chars(s, 0, s.len())
        };
        proof {
            if s.len() > 0 && s@.last() == '月' {
                assert(body@ =~= s@.drop_last());
            } else {
                assert(body@ =~= s@);
            }
        }
        match parse_numeral(&body) {
            Some(n) => Self::from_u8(n),
            None => None,
        }
    }

    /// Parses a month: 十月, 10月, 十 or 10.
    pub fn from_str(s: &str) -> (r: Option<SolarMonth>)
        ensures
            r matches Some(m) ==> month_text(s@) == Some(m@),
            r is None ==> month_text(s@) is None,
    {
        Self::parse_chars(&chars_of(s))
    }

    /// The month's Chinese name with its unit: 十月.
    pub fn to_chinese_string(&self) -> (r: String)
        ensures
            r@ == month_chinese(self@),
    {
        proof {
            use_type_invariant(self);
        }
        let mut v: Vec<char> = Vec::new();
        push_cn_count(&mut v, self.month);
        v.push('月');
        string_of(&v)
    }
}

impl SolarDay {
    #[verifier::type_invariant]
    spec fn inv(self) -> bool {
        1 <= self.day <= 31
    }

    pub fn from_u8(day: u8) -> (r: Option<SolarDay>)
        ensures
            r matches Some(d) ==> d@ == day,
            r is Some <==> 1 <= day <= 31,
    {
        if 1 <= day && day <= 31 {
            Some(SolarDay { day })
        } else {
            None
        }
    }

    pub fn to_u8(&self) -> (r: u8)
        ensures
            r == self@,
            1 <= r <= 31,
    {
        proof {
            use_type_invariant(self);
        }
        self.day
    }

    fn parse_chars(s: &Vec<char>) -> (r: Option<SolarDay>)
        ensures
            r matches Some(d) ==> day_text(s@) == Some(d@),
            r is None ==> day_text(s@) is None,
    {
        proof {
            reveal(day_text);
        }
        match parse_numeral(s) {
            Some(n) => Self::from_u8(n),
            None => None,
        }
    }

    /// Parses a day: 十五 or 15.
    pub fn from_str(s: &str) -> (r: Option<SolarDay>)
        ensures
            r matches Some(d) ==> day_text(s@) == Some(d@),
            r is None ==> day_text(s@) is None,
    {
        Self::parse_chars(&chars_of(s))
    }

    /// The day's Chinese numeral, without a unit: 十五.
    pub fn to_chinese_string(&self) -> (r: String)
        ensures
            r@ == cn_count(self@),
    {
        proof {
            use_type_invariant(self);
        }
        let mut v: Vec<char> = Vec::new();
        push_cn_count(&mut v, self.day);
        string_of(&v)
    }
}

/// The number of days in a month of a year, leap years included.
pub fn days_in_a_solar_month(solar_year: SolarYear, solar_month: SolarMonth) -> (r: u8)
    ensures
        r == days_in_month(solar_year@, solar_month@),
{
    let y = solar_year.to_u16();
    let m = solar_month.to_u8();
    if m == 2 {
        if (y % 4 == 0 && y % 100 != 0) || y % 400 == 0 {
            29
        } else {
            28
        }
    } else if m == 4 || m == 6 || m == 9 || m == 11 {
        30
    } else {
        31
    }
}

/// Why a solar date could not be made.
#[derive(Debug, PartialEq, Eq, Structural, Clone, Copy)]
pub enum SolarDateParseError {
    /// The year lies outside the supported range.
    OutOfRange,
    /// The year is missing or malformed.
    IncorrectYear,
    /// The month is missing or malformed.
    IncorrectMonth,
    /// The day is missing, malformed or past the end of its month.
    IncorrectDay,
}

/// A solar (Gregorian) year, month and day that always name a real date.
#[derive(Debug, PartialEq, Eq, Structural, Clone, Copy, Hash)]
pub struct SolarDate {
    solar_year: SolarYear,
    solar_month: SolarMonth,
    solar_day: SolarDay,
}

impl View for SolarDate {
    type V = (int, int, int);

    closed spec fn view(&self) -> (int, int, int) {
        (self.solar_year@, self.solar_month@, self.solar_day@)
    }
}

/// The year, month and day of a result, or its error.
pub open spec fn result_view(r: Result<SolarDate, SolarDateParseError>) -> Result<
    (int, int, int),
    SolarDateParseError,
> {
    match r {
        Ok(d) => Ok(d@),
        Err(e) => Err(e),
    }
}

impl SolarDate {
    #[verifier::type_invariant]
    spec fn inv(self) -> bool {
        self.solar_day.day <= days_in_month(self.solar_year.year as int, self.solar_month.month as int)
    }

    /// Makes a date of a year, month and day whose fields are already checked.
    pub fn from_solar_year_month_day(
        solar_year: SolarYear,
        solar_month: SolarMonth,
        solar_day: SolarDay,
    ) -> (r: Result<SolarDate, SolarDateParseError>)
        ensures
            result_view(r) == (if solar_day@ > days_in_month(solar_year@, solar_month@) {
                Err(SolarDateParseError::IncorrectDay)
            } else {
                Ok((solar_year@, solar_month@, solar_day@))
            }),
    {
        let days = days_in_a_solar_month(solar_year, solar_month);
        let day = solar_day.to_u8();
        if day > days {
            Err(SolarDateParseError::IncorrectDay)
        } else {
            Ok(SolarDate { solar_year, solar_month, solar_day })
        }
    }

    /// Makes a date of a raw year, month and day.
    pub fn from_ymd(year: u16, month: u8, day: u8) -> (r: Result<SolarDate, SolarDateParseError>)
        ensures
            result_view(r) == ymd_result(year as int, month as int, day as int),
    {
        let solar_year = SolarYear::from_u16(year);
        let solar_month = match SolarMonth::from_u8(month) {
            Some(solar_month) => solar_month,
            None => return Err(SolarDateParseError::IncorrectMonth),
        };
        // A day outside 1..=31 is reported as a month error, not a day error.
        let solar_day = match SolarDay::from_u8(day) {
            Some(solar_day) => solar_day,
            None => return Err(SolarDateParseError::IncorrectMonth),
        };
        Self::from_solar_year_month_day(solar_year, solar_month, solar_day)
    }

    /// Makes a date of the fields of a calendar date that is known to be real:
    /// only the year's range is checked.
    pub fn from_calendar_fields(year: i32, month: u32, day: u32) -> (r: Result<
        SolarDate,
        SolarDateParseError,
    >)
        requires
            1 <= month <= 12,
            1 <= day <= 31,
            0 <= year <= 0xFFFF ==> day <= days_in_month(year as int, month as int),
        ensures
            result_view(r) == (if year < 0 || year > 0xFFFF {
                Err(SolarDateParseError::OutOfRange)
            } else {
                Ok((year as int, month as int, day as int))
            }),
    {
        if year < 0 || year > 0xFFFF {
            Err(SolarDateParseError::OutOfRange)
        } else {
            Ok(
                SolarDate {
                    solar_year: SolarYear { year: year as u16 },
                    solar_month: SolarMonth { month: month as u8 },
                    solar_day: SolarDay { day: day as u8 },
                },
            )
        }
    }

    fn find_marker(s: &Vec<char>, unit: char) -> (r: Option<usize>)
        ensures
            r matches Some(i) ==> marker_index(s@, unit) == Some(i as int) && i < s.len(),
            r is None ==> marker_index(s@, unit) is None,
    {
        match find_char(s, unit) {
            Some(i) => Some(i),
            None => find_char(s, '　'),
        }
    }

    fn parse_chars(s: &Vec<char>) -> (r: Result<SolarDate, SolarDateParseError>)
        ensures
            result_view(r) == parse_text(s@),
    {
        let year_index = match Self::find_marker(s, '年') {
            Some(i) => i,
            None => return Err(SolarDateParseError::IncorrectYear),
        };
        let year_str = trim_chars(&sub_chars(s, 0, year_index));
        let solar_year = match SolarYear::parse_chars(&year_str) {
            Some(y) => y,
            None => return Err(SolarDateParseError::IncorrectYear),
        };
        let rest = sub_chars(s, year_index + 1, s.len());
        let month_index = match Self::find_marker(&rest, '月') {
            Some(i) => i,
            None => return Err(SolarDateParseError::IncorrectMonth),
        };
        let month_str = trim_chars(&sub_chars(&rest, 0, month_index + 1));
        let solar_month = match SolarMonth::parse_chars(&month_str) {
            Some(m) => m,
            None => return Err(SolarDateParseError::IncorrectMonth),
        };
        let mut day_str = trim_chars(&sub_chars(&rest, month_index + 1, rest.len()));
        if day_str.len() > 0 && day_str[day_str.len() - 1] == '日' {
            day_str.pop();
        }
        proof {
            let t = trim(rest@.subrange(month_index + 1, rest@.len() as int));
            if t.len() > 0 && t.last() == '日' {
                assert(day_str@ =~= t.drop_last());
            }
        }
        let solar_day = match SolarDay::parse_chars(&day_str) {
            Some(d) => d,
            None => return Err(SolarDateParseError::IncorrectDay),
        };
        Self::from_solar_year_month_day(solar_year, solar_month, solar_day)
    }

    /// Parses the Chinese written form `<year>年<month>月<day>日`, where a
    /// full-width space may stand for a unit and the final 日 may be left out.
    pub fn from_str(s: &str) -> (r: Result<SolarDate, SolarDateParseError>)
        ensures
            result_view(r) == parse_text(s@),
    {
        Self::parse_chars(&chars_of(s))
    }

    /// The date in Chinese: 二〇二一年十月十五日.
    pub fn to_chinese_string(&self) -> (r: String)
        ensures
            r@ == chinese_text(self@.0, self@.1, self@.2),
    {
        let mut s = String::new();
        self.solar_year.write_to_chinese_string(&mut s);
        push_char(&mut s, '年');
        let month = self.solar_month.to_chinese_string();
        append_chars(&mut s, &chars_of(month.as_str()));
        let day = self.solar_day.to_chinese_string();
        append_chars(&mut s, &chars_of(day.as_str()));
        push_char(&mut s, '日');
        assert(s@ =~= chinese_text(self@.0, self@.1, self@.2));
        s
    }

    /// The date as `yyyy-mm-dd`.
    pub fn to_string(&self) -> (r: String)
        ensures
            r@ == numeric_text(self@.0, self@.1, self@.2),
    {
        let mut v: Vec<char> = Vec::new();
        push_padded(&mut v, self.solar_year.to_u16() as u32, 4);
        v.push('-');
        push_padded(&mut v, self.solar_month.to_u8() as u32, 2);
        v.push('-');
        push_padded(&mut v, self.solar_day.to_u8() as u32, 2);
        assert(v@ =~= numeric_text(self@.0, self@.1, self@.2));
        string_of(&v)
    }

    pub fn get_solar_year(&self) -> (r: SolarYear)
        ensures
            r@ == self@.0,
    {
        self.solar_year
    }

    pub fn get_solar_month(&self) -> (r: SolarMonth)
        ensures
            r@ == self@.1,
    {
        self.solar_month
    }

    pub fn get_solar_day(&self) -> (r: SolarDay)
        ensures
            r@ == self@.2,
            valid_ymd(self@.0, self@.1, self@.2),
    {
        proof {
            use_type_invariant(self);
            use_type_invariant(&self.solar_month);
            use_type_invariant(&self.solar_day);
        }
        self.solar_day
    }
}

} // verus!
