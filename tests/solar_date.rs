use chrono::{Datelike, NaiveDate};
use solar_date::solar_date::{
    days_in_a_solar_month, SolarDate, SolarDateParseError, SolarDay, SolarMonth, SolarYear,
};

fn ymd(d: &SolarDate) -> (u16, u8, u8) {
    (
        d.get_solar_year().to_u16(),
        d.get_solar_month().to_u8(),
        d.get_solar_day().to_u8(),
    )
}

#[test]
fn from_ymd_keeps_fields() {
    let d = SolarDate::from_ymd(2021, 10, 15).unwrap();
    assert_eq!(ymd(&d), (2021, 10, 15));
}

#[test]
fn from_ymd_rejects_month() {
    assert_eq!(SolarDate::from_ymd(2021, 0, 1), Err(SolarDateParseError::IncorrectMonth));
    assert_eq!(SolarDate::from_ymd(2021, 13, 1), Err(SolarDateParseError::IncorrectMonth));
}

#[test]
fn from_ymd_day_out_of_raw_range_is_a_month_error() {
    assert_eq!(SolarDate::from_ymd(2021, 1, 0), Err(SolarDateParseError::IncorrectMonth));
    assert_eq!(SolarDate::from_ymd(2021, 1, 32), Err(SolarDateParseError::IncorrectMonth));
}

#[test]
fn from_ymd_day_past_month_end() {
    assert_eq!(SolarDate::from_ymd(2021, 4, 31), Err(SolarDateParseError::IncorrectDay));
    assert_eq!(SolarDate::from_ymd(2021, 2, 30), Err(SolarDateParseError::IncorrectDay));
    assert!(SolarDate::from_ymd(2021, 4, 30).is_ok());
}

#[test]
fn leap_day_boundary() {
    assert!(SolarDate::from_ymd(2000, 2, 29).is_ok());
    assert!(SolarDate::from_ymd(2024, 2, 29).is_ok());
    assert_eq!(SolarDate::from_ymd(1900, 2, 29), Err(SolarDateParseError::IncorrectDay));
    assert_eq!(SolarDate::from_ymd(2001, 2, 29), Err(SolarDateParseError::IncorrectDay));
}

#[test]
fn extreme_years() {
    assert_eq!(ymd(&SolarDate::from_ymd(0, 1, 1).unwrap()), (0, 1, 1));
    assert_eq!(ymd(&SolarDate::from_ymd(65535, 12, 31).unwrap()), (65535, 12, 31));
}

#[test]
fn days_in_month_values() {
    let m2 = SolarMonth::from_u8(2).unwrap();
    assert_eq!(days_in_a_solar_month(SolarYear::from_u16(2000), m2), 29);
    assert_eq!(days_in_a_solar_month(SolarYear::from_u16(1900), m2), 28);
    assert_eq!(days_in_a_solar_month(SolarYear::from_u16(2024), m2), 29);
    assert_eq!(days_in_a_solar_month(SolarYear::from_u16(2023), m2), 28);
    assert_eq!(days_in_a_solar_month(SolarYear::from_u16(2023), SolarMonth::from_u8(9).unwrap()), 30);
    assert_eq!(days_in_a_solar_month(SolarYear::from_u16(2023), SolarMonth::from_u8(12).unwrap()), 31);
}

#[test]
fn parse_chinese_numerals() {
    let d = SolarDate::from_str("二〇二一年十月十五日").unwrap();
    assert_eq!(ymd(&d), (2021, 10, 15));
}

#[test]
fn parse_arabic_numerals() {
    let d = SolarDate::from_str("2021年10月15日").unwrap();
    assert_eq!(ymd(&d), (2021, 10, 15));
}

#[test]
fn parse_without_day_marker() {
    let d = SolarDate::from_str("2021年10月15").unwrap();
    assert_eq!(ymd(&d), (2021, 10, 15));
    let d = SolarDate::from_str("二〇二一年十月十五").unwrap();
    assert_eq!(ymd(&d), (2021, 10, 15));
}

#[test]
fn parse_with_full_width_spaces() {
    let d = SolarDate::from_str("2021\u{3000}10\u{3000}15").unwrap();
    assert_eq!(ymd(&d), (2021, 10, 15));
}

#[test]
fn parse_with_surrounding_whitespace() {
    let d = SolarDate::from_str(" 1999 年 二月 二十八日 ").unwrap();
    assert_eq!(ymd(&d), (1999, 2, 28));
    // The day is not trimmed again once its 日 is taken off.
    assert_eq!(SolarDate::from_str("1999年二月二十八 日"), Err(SolarDateParseError::IncorrectDay));
}

#[test]
fn parse_without_year_marker() {
    assert_eq!(SolarDate::from_str("2021-10-15"), Err(SolarDateParseError::IncorrectYear));
    assert_eq!(SolarDate::from_str(""), Err(SolarDateParseError::IncorrectYear));
}

#[test]
fn parse_bad_year() {
    assert_eq!(SolarDate::from_str("abc年10月15日"), Err(SolarDateParseError::IncorrectYear));
    assert_eq!(SolarDate::from_str("65536年1月1日"), Err(SolarDateParseError::IncorrectYear));
    assert_eq!(SolarDate::from_str("年1月1日"), Err(SolarDateParseError::IncorrectYear));
}

#[test]
fn parse_bad_month() {
    assert_eq!(SolarDate::from_str("2021年10-15"), Err(SolarDateParseError::IncorrectMonth));
    assert_eq!(SolarDate::from_str("2021年13月1日"), Err(SolarDateParseError::IncorrectMonth));
    assert_eq!(SolarDate::from_str("2021年十三月1日"), Err(SolarDateParseError::IncorrectMonth));
}

#[test]
fn parse_bad_day() {
    assert_eq!(SolarDate::from_str("2021年10月32日"), Err(SolarDateParseError::IncorrectDay));
    assert_eq!(SolarDate::from_str("2021年10月日"), Err(SolarDateParseError::IncorrectDay));
    assert_eq!(SolarDate::from_str("2021年二月三十日"), Err(SolarDateParseError::IncorrectDay));
}

#[test]
fn numeric_string_is_zero_padded() {
    let d = SolarDate::from_ymd(5, 3, 7).unwrap();
    assert_eq!(d.to_string(), "0005-03-07");
    let d = SolarDate::from_ymd(2021, 10, 15).unwrap();
    assert_eq!(d.to_string(), "2021-10-15");
    let d = SolarDate::from_ymd(65535, 12, 31).unwrap();
    assert_eq!(d.to_string(), "65535-12-31");
}

#[test]
fn chinese_string() {
    let d = SolarDate::from_ymd(2021, 10, 15).unwrap();
    assert_eq!(d.to_chinese_string(), "二〇二一年十月十五日");
    let d = SolarDate::from_ymd(5, 12, 31).unwrap();
    assert_eq!(d.to_chinese_string(), "五年十二月三十一日");
    let d = SolarDate::from_ymd(1990, 1, 20).unwrap();
    assert_eq!(d.to_chinese_string(), "一九九〇年一月二十日");
}

#[test]
fn chinese_round_trip() {
    for &(y, m, d) in &[(0u16, 1u8, 1u8), (5, 3, 7), (2000, 2, 29), (2021, 10, 15), (65535, 12, 31)] {
        let date = SolarDate::from_ymd(y, m, d).unwrap();
        assert_eq!(SolarDate::from_str(&date.to_chinese_string()), Ok(date));
    }
}

#[test]
fn numeric_round_trip() {
    let date = SolarDate::from_ymd(2000, 2, 29).unwrap();
    let text = date.to_string();
    let parts: Vec<&str> = text.split('-').collect();
    let again = SolarDate::from_ymd(
        parts[0].parse().unwrap(),
        parts[1].parse().unwrap(),
        parts[2].parse().unwrap(),
    );
    assert_eq!(again, Ok(date));
}

#[test]
fn year_month_day_parsers() {
    assert_eq!(SolarYear::from_str("二〇二一").unwrap().to_u16(), 2021);
    assert_eq!(SolarYear::from_str("2021").unwrap().to_u16(), 2021);
    assert!(SolarYear::from_str("2〇21").is_none());
    assert_eq!(SolarMonth::from_str("十二月").unwrap().to_u8(), 12);
    assert_eq!(SolarMonth::from_str("7").unwrap().to_u8(), 7);
    assert!(SolarMonth::from_str("十三月").is_none());
    assert_eq!(SolarDay::from_str("三十一").unwrap().to_u8(), 31);
    assert_eq!(SolarDay::from_str("二十").unwrap().to_u8(), 20);
    assert!(SolarDay::from_str("二十十").is_none());
    assert!(SolarDay::from_str("十〇").is_none());
}

#[test]
fn field_renderings() {
    assert_eq!(SolarMonth::from_u8(11).unwrap().to_chinese_string(), "十一月");
    assert_eq!(SolarDay::from_u8(30).unwrap().to_chinese_string(), "三十");
    let mut s = String::from("x");
    SolarYear::from_u16(1024).write_to_chinese_string(&mut s);
    assert_eq!(s, "x一〇二四");
}

#[test]
fn primitive_constructors() {
    assert!(SolarMonth::from_u8(0).is_none());
    assert!(SolarMonth::from_u8(13).is_none());
    assert!(SolarDay::from_u8(0).is_none());
    assert!(SolarDay::from_u8(32).is_none());
    assert_eq!(SolarDay::from_u8(31).unwrap().to_u8(), 31);
}

#[test]
fn calendar_fields_range() {
    assert_eq!(ymd(&SolarDate::from_calendar_fields(0, 1, 1).unwrap()), (0, 1, 1));
    assert_eq!(SolarDate::from_calendar_fields(-1, 1, 1), Err(SolarDateParseError::OutOfRange));
    assert_eq!(SolarDate::from_calendar_fields(65536, 1, 1), Err(SolarDateParseError::OutOfRange));
    assert_eq!(ymd(&SolarDate::from_calendar_fields(65535, 12, 31).unwrap()), (65535, 12, 31));
}

fn from_naive(n: NaiveDate) -> Result<SolarDate, SolarDateParseError> {
    SolarDate::from_calendar_fields(n.year(), n.month(), n.day())
}

#[test]
fn from_naive_date_range() {
    let d = from_naive(NaiveDate::from_ymd_opt(0, 1, 1).unwrap()).unwrap();
    assert_eq!(ymd(&d), (0, 1, 1));
    let neg = NaiveDate::from_ymd_opt(-1, 12, 31).unwrap();
    assert_eq!(from_naive(neg), Err(SolarDateParseError::OutOfRange));
    let big = NaiveDate::from_ymd_opt(65536, 1, 1).unwrap();
    assert_eq!(from_naive(big), Err(SolarDateParseError::OutOfRange));
}

#[test]
fn from_naive_date_fields() {
    let d = from_naive(NaiveDate::from_ymd_opt(2024, 2, 29).unwrap()).unwrap();
    assert_eq!(ymd(&d), (2024, 2, 29));
}

#[test]
fn day_marker_never_changes_the_outcome() {
    for s in ["2021年10月15", "2021年13月1", "2021年2月30", "2021年10月", "abc", "二〇二一年十月十五"] {
        let with_marker = format!("{}日", s);
        assert_eq!(SolarDate::from_str(&with_marker), SolarDate::from_str(s));
    }
}
