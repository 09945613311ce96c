//! Laws that relate construction, parsing and rendering of solar dates.
use vstd::prelude::*;

use crate::numerals::{
    all_digits, ascii_digit_value, cn_count, cn_digit_value, decimal, digit_value,
    digits_value, lemma_cn_count, lemma_decimal_digits, numeral_text, padded_decimal,
};
use crate::solar_date::{
    chinese_text, day_part, day_text, days_in_month, is_leap_year, marker_index,
    month_text, numeric_text, parse_month_field, parse_text, valid_ymd, year_text, ymd_result, SolarDateParseError,
};
use crate::text::{first_index, is_ws, lemma_trim_fixed, trim, trim_end, trim_start};

verus! {

/// A character that may appear inside a Chinese numeral: a digit or 十.
pub open spec fn is_numeral_char(c: char) -> bool {
    cn_digit_value(c) >= 0 || c == '十'
}

proof fn lemma_numeral_char(c: char)
    requires
        is_numeral_char(c),
    ensures
        !is_ws(c),
        c != '年' && c != '月' && c != '日' && c != '　',
        ascii_digit_value(c) < 0,
{
}

proof fn lemma_first_index_at(s: Seq<char>, c: char, k: int)
    requires
        0 <= k < s.len(),
        s[k] == c,
        forall|j: int| 0 <= j < k ==> s[j] != c,
    ensures
        first_index(s, c) == Some(k),
{
    reveal(first_index);
    assert(s.contains(c));
    let i = choose|i: int| 0 <= i < s.len() && s[i] == c && forall|j: int| 0 <= j < i ==> s[j] != c;
    assert(!(i < k));
    assert(!(i > k));
}

proof fn lemma_cn_count_chars(n: int)
    requires
        1 <= n < 100,
    ensures
        cn_count(n).len() > 0,
        forall|i: int| 0 <= i < cn_count(n).len() ==> is_numeral_char(#[trigger] cn_count(n)[i]),
{
}

/// A Chinese numeral, followed by `unit` and then `tail`, is read back by
/// marker search, trimming and numeral parsing.
proof fn lemma_field(num: Seq<char>, unit: char, tail: Seq<char>)
    requires
        num.len() > 0,
        forall|i: int| 0 <= i < num.len() ==> is_numeral_char(#[trigger] num[i]),
        unit == '年' || unit == '月',
    ensures
        marker_index(num + seq![unit] + tail, unit) == Some(num.len() as int),
        (num + seq![unit] + tail).subrange(0, num.len() as int) == num,
        (num + seq![unit] + tail).subrange(0, num.len() as int + 1) == num.push(unit),
        (num + seq![unit] + tail).subrange(num.len() as int + 1, (num + seq![unit] + tail).len() as int)
            == tail,
{
    let s = num + seq![unit] + tail;
    assert forall|j: int| 0 <= j < num.len() implies s[j] != unit by {
        assert(s[j] == num[j]);
        lemma_numeral_char(num[j]);
    }
    lemma_first_index_at(s, unit, num.len() as int);
    assert(s.subrange(0, num.len() as int) =~= num);
    assert(s.subrange(0, num.len() as int + 1) =~= num.push(unit));
    assert(s.subrange(num.len() as int + 1, s.len() as int) =~= tail);
}

/// Rendering a valid date in Chinese and parsing the text gives the date back.
pub proof fn lemma_chinese_round_trip(y: int, m: int, d: int)
    requires
        valid_ymd(y, m, d),
    ensures
        parse_text(chinese_text(y, m, d)) == Ok::<(int, int, int), SolarDateParseError>((y, m, d)),
{
    reveal(year_text);
    reveal(month_text);
    reveal(day_text);
    let yc = decimal(y as nat, true);
    let mc = cn_count(m);
    let dc = cn_count(d);
    lemma_decimal_digits(y as nat, true);
    lemma_cn_count(m);
    lemma_cn_count(d);
    lemma_cn_count_chars(m);
    lemma_cn_count_chars(d);
    assert forall|i: int| 0 <= i < yc.len() implies is_numeral_char(#[trigger] yc[i]) by {
        assert(digit_value(yc[i], true) >= 0);
    }
    let rest = mc + seq!['月'] + dc + seq!['日'];
    let s = chinese_text(y, m, d);
    assert(s =~= yc + seq!['年'] + rest);
    lemma_field(yc, '年', rest);
    // The year.
    lemma_numeral_char(yc[0]);
    lemma_numeral_char(yc.last());
    lemma_trim_fixed(yc);
    assert(!all_digits(yc, false)) by {
        assert(digit_value(yc[0], false) < 0);
    }
    assert(year_text(yc) == Some(y));
    // The month.
    let tail = dc + seq!['日'];
    assert(rest =~= mc + seq!['月'] + tail);
    lemma_field(mc, '月', tail);
    lemma_numeral_char(mc[0]);
    lemma_trim_fixed(mc.push('月'));
    assert(mc.push('月').drop_last() =~= mc);
    assert(!(0 < mc.len() <= 2 && all_digits(mc, false))) by {
        lemma_numeral_char(mc[0]);
        assert(digit_value(mc[0], false) < 0);
    }
    assert(numeral_text(mc) == Some(m));
    assert(month_text(mc.push('月')) == Some(m));
    // The day.
    lemma_numeral_char(dc[0]);
    lemma_trim_fixed(tail);
    assert(tail.drop_last() =~= dc);
    assert(day_part(tail) == dc);
    assert(!(0 < dc.len() <= 2 && all_digits(dc, false))) by {
        assert(digit_value(dc[0], false) < 0);
    }
    assert(day_text(dc) == Some(d));
}

/// Building a date of a raw year, month and day succeeds, with exactly those
/// fields, when the day exists in that month; it fails with the day error
/// when the day lies past the month's end.
pub proof fn lemma_validity(y: int, m: int, d: int)
    requires
        0 <= y <= 0xFFFF,
        1 <= m <= 12,
        1 <= d <= 31,
    ensures
        d > days_in_month(y, m) ==> ymd_result(y, m, d) == Err::<(int, int, int), SolarDateParseError>(
            SolarDateParseError::IncorrectDay,
        ),
        d <= days_in_month(y, m) ==> ymd_result(y, m, d) == Ok::<(int, int, int), SolarDateParseError>(
            (y, m, d),
        ),
{
}

/// February 29 exists exactly in leap years: in 2000, not in 1900 nor 2001.
pub proof fn lemma_leap_day(y: int)
    requires
        0 <= y <= 0xFFFF,
    ensures
        (ymd_result(y, 2, 29) is Ok) <==> is_leap_year(y),
        ymd_result(2000, 2, 29) is Ok,
        ymd_result(1900, 2, 29) is Err,
        ymd_result(2001, 2, 29) is Err,
{
}

proof fn lemma_zeros_value(z: Seq<char>)
    requires
        forall|i: int| 0 <= i < z.len() ==> z[i] == '0',
    ensures
        digits_value(z, false) == 0,
        all_digits(z, false),
    decreases z.len(),
{
    if z.len() > 0 {
        lemma_zeros_value(z.drop_last());
        assert(z.last() == '0');
    }
}

proof fn lemma_zeros_prefix(z: Seq<char>, s: Seq<char>)
    requires
        forall|i: int| 0 <= i < z.len() ==> z[i] == '0',
        all_digits(s, false),
    ensures
        digits_value(z + s, false) == digits_value(s, false),
        all_digits(z + s, false),
    decreases s.len(),
{
    if s.len() == 0 {
        assert(z + s =~= z);
        lemma_zeros_value(z);
    } else {
        let p = s.drop_last();
        assert(all_digits(p, false)) by {
            assert forall|j: int| 0 <= j < p.len() implies digit_value(#[trigger] p[j], false) >= 0 by {
                assert(p[j] == s[j]);
            }
        }
        lemma_zeros_prefix(z, p);
        assert((z + s).drop_last() =~= z + p);
        assert((z + s).last() == s.last());
        assert forall|j: int| 0 <= j < (z + s).len() implies digit_value(#[trigger] (z + s)[j], false) >= 0 by {
            if j >= z.len() {
                assert((z + s)[j] == s[j - z.len()]);
            } else {
                assert((z + s)[j] == z[j]);
            }
        }
    }
}

/// A zero-padded decimal field reads back as its number.
pub proof fn lemma_padded_value(n: nat, width: nat)
    ensures
        all_digits(padded_decimal(n, width), false),
        digits_value(padded_decimal(n, width), false) == n,
{
    lemma_decimal_digits(n, false);
    let d = decimal(n, false);
    if d.len() < width {
        let z = Seq::new((width - d.len()) as nat, |i: int| '0');
        lemma_zeros_prefix(z, d);
    }
}

/// The numeric form of a valid date is its three zero-padded fields joined by
/// `-`; each reads back as its field, and the fields build the same date again.
pub proof fn lemma_numeric_round_trip(y: int, m: int, d: int)
    requires
        valid_ymd(y, m, d),
    ensures
        numeric_text(y, m, d) == padded_decimal(y as nat, 4) + seq!['-'] + padded_decimal(m as nat, 2)
            + seq!['-'] + padded_decimal(d as nat, 2),
        digits_value(padded_decimal(y as nat, 4), false) == y,
        digits_value(padded_decimal(m as nat, 2), false) == m,
        digits_value(padded_decimal(d as nat, 2), false) == d,
        ymd_result(y, m, d) == Ok::<(int, int, int), SolarDateParseError>((y, m, d)),
{
    lemma_padded_value(y as nat, 4);
    lemma_padded_value(m as nat, 2);
    lemma_padded_value(d as nat, 2);
}

proof fn lemma_first_index_found(s: Seq<char>, c: char)
    requires
        s.contains(c),
    ensures
        first_index(s, c) matches Some(k) && 0 <= k < s.len() && s[k] == c && forall|j: int|
            0 <= j < k ==> s[j] != c,
    decreases s.len(),
{
    let p = s.drop_last();
    if p.contains(c) {
        lemma_first_index_found(p, c);
        let k = first_index(p, c)->0;
        assert(s[k] == p[k]);
        assert forall|j: int| 0 <= j < k implies s[j] != c by {
            assert(s[j] == p[j]);
        }
        lemma_first_index_at(s, c, k);
    } else {
        let w = choose|i: int| 0 <= i < s.len() && s[i] == c;
        if w < s.len() - 1 {
            assert(p[w] == c);
        }
        assert forall|j: int| 0 <= j < s.len() - 1 implies s[j] != c by {
            assert(s[j] == p[j]);
        }
        lemma_first_index_at(s, c, s.len() - 1);
    }
}

proof fn lemma_marker_index_push(s: Seq<char>, unit: char, x: char)
    requires
        x != unit,
        x != '　',
    ensures
        marker_index(s.push(x), unit) == marker_index(s, unit),
        marker_index(s, unit) matches Some(k) ==> 0 <= k < s.len(),
{
    let t = s.push(x);
    assert forall|c: char| c != x implies first_index(t, c) == first_index(s, c) && (first_index(
        s,
        c,
    ) matches Some(k) ==> 0 <= k < s.len()) by {
        if s.contains(c) {
            lemma_first_index_found(s, c);
            let k = first_index(s, c)->0;
            assert forall|j: int| 0 <= j < k implies t[j] != c by {
                assert(t[j] == s[j]);
            }
            assert(t[k] == s[k]);
            lemma_first_index_at(t, c, k);
        } else {
            assert forall|i: int| 0 <= i < t.len() implies t[i] != c by {
                if i < s.len() {
                    assert(t[i] == s[i]);
                }
            }
            assert(!t.contains(c));
            reveal(first_index);
        }
    }
}

proof fn lemma_trim_start_push(t: Seq<char>, x: char)
    requires
        !is_ws(x),
    ensures
        trim_start(t.push(x)) == trim_start(t).push(x),
    decreases t.len(),
{
    if t.len() > 0 && is_ws(t[0]) {
        assert(t.push(x).drop_first() =~= t.drop_first().push(x));
        lemma_trim_start_push(t.drop_first(), x);
    } else if t.len() == 0 {
        assert(t.push(x) =~= seq![x]);
    }
}

proof fn lemma_trim_start_last(t: Seq<char>)
    requires
        t.len() > 0,
        !is_ws(t.last()),
    ensures
        trim_start(t).len() > 0,
        trim_start(t).last() == t.last(),
    decreases t.len(),
{
    if is_ws(t[0]) {
        lemma_trim_start_last(t.drop_first());
    }
}

proof fn lemma_day_part_push(t: Seq<char>)
    requires
        t.len() > 0 ==> t.last() != '日' && !is_ws(t.last()),
    ensures
        day_part(trim(t.push('日'))) == day_part(trim(t)),
{
    lemma_trim_start_push(t, '日');
    let u = trim_start(t).push('日');
    assert(u.drop_last() =~= trim_start(t));
    assert(trim_end(u) == u);
    assert(day_part(trim(t.push('日'))) == trim_start(t));
    if t.len() > 0 {
        lemma_trim_start_last(t);
        assert(trim_end(trim_start(t)) == trim_start(t));
    } else {
        assert(trim_start(t) == t);
        assert(trim_end(t) == t);
    }
    assert(day_part(trim(t)) == trim_start(t));
}

proof fn lemma_month_field_push(y: int, r: Seq<char>)
    requires
        r.len() > 0 ==> r.last() != '日' && !is_ws(r.last()),
    ensures
        parse_month_field(y, r.push('日')) == parse_month_field(y, r),
{
    let r2 = r.push('日');
    lemma_marker_index_push(r, '月', '日');
    if let Some(mi) = marker_index(r, '月') {
        assert(r2.subrange(0, mi + 1) =~= r.subrange(0, mi + 1));
        let t = r.subrange(mi + 1, r.len() as int);
        assert(r2.subrange(mi + 1, r2.len() as int) =~= t.push('日'));
        if t.len() > 0 {
            assert(t.last() == r.last());
        }
        lemma_day_part_push(t);
    }
}

/// The closing 日 is optional: appending it to a text that does not already
/// end in 日 or in whitespace never changes what parsing gives, a date or an
/// error.
pub proof fn lemma_day_marker_optional(s: Seq<char>)
    requires
        s.len() > 0 ==> s.last() != '日' && !is_ws(s.last()),
    ensures
        parse_text(s.push('日')) == parse_text(s),
{
    let s2 = s.push('日');
    lemma_marker_index_push(s, '年', '日');
    if let Some(yi) = marker_index(s, '年') {
        assert(s2.subrange(0, yi) =~= s.subrange(0, yi));
        let r = s.subrange(yi + 1, s.len() as int);
        assert(s2.subrange(yi + 1, s2.len() as int) =~= r.push('日'));
        if r.len() > 0 {
            assert(r.last() == s.last());
        }
        if let Some(y) = year_text(trim(s.subrange(0, yi))) {
            lemma_month_field_push(y, r);
        }
    }
}

} // verus!
