//! Arabic and Chinese numerals as used in written dates.
use vstd::prelude::*;

verus! {

/// The Chinese digit for `d` in `0..10`: 〇 一 二 三 四 五 六 七 八 九.
pub open spec fn cn_digit(d: int) -> char {
    if d == 0 {
        '〇'
    } else if d == 1 {
        '一'
    } else if d == 2 {
        '二'
    } else if d == 3 {
        '三'
    } else if d == 4 {
        '四'
    } else if d == 5 {
        '五'
    } else if d == 6 {
        '六'
    } else if d == 7 {
        '七'
    } else if d == 8 {
        '八'
    } else {
        '九'
    }
}

/// The value of a Chinese digit, or -1.
pub open spec fn cn_digit_value(c: char) -> int {
    if c == '〇' {
        0
    } else if c == '一' {
        1
    } else if c == '二' {
        2
    } else if c == '三' {
        3
    } else if c == '四' {
        4
    } else if c == '五' {
        5
    } else if c == '六' {
        6
    } else if c == '七' {
        7
    } else if c == '八' {
        8
    } else if c == '九' {
        9
    } else {
        -1
    }
}

/// The value of an ASCII digit, or -1.
pub open spec fn ascii_digit_value(c: char) -> int {
    if '0' <= c <= '9' {
        c as int - '0' as int
    } else {
        -1
    }
}

pub open spec fn digit_value(c: char, chinese: bool) -> int {
    if chinese {
        cn_digit_value(c)
    } else {
        ascii_digit_value(c)
    }
}

pub open spec fn digit_char(d: int, chinese: bool) -> char {
    if chinese {
        cn_digit(d)
    } else {
        ('0' as int + d) as char
    }
}

pub open spec fn all_digits(s: Seq<char>, chinese: bool) -> bool {
    forall|i: int| 0 <= i < s.len() ==> digit_value(#[trigger] s[i], chinese) >= 0
}

/// The number written by the digits `s`, most significant first.
pub open spec fn digits_value(s: Seq<char>, chinese: bool) -> int
    decreases s.len(),
{
    if s.len() == 0 {
        0
    } else {
        digits_value(s.drop_last(), chinese) * 10 + digit_value(s.last(), chinese)
    }
}

/// `n` in decimal positional notation, without leading zeros.
pub open spec fn decimal(n: nat, chinese: bool) -> Seq<char>
    decreases n,
{
    if n < 10 {
        seq![digit_char(n as int, chinese)]
    } else {
        decimal(n / 10, chinese).push(digit_char((n % 10) as int, chinese))
    }
}

/// `n` in ASCII decimal, left-padded with `0` to at least `width` characters.
pub open spec fn padded_decimal(n: nat, width: nat) -> Seq<char> {
    let d = decimal(n, false);
    if d.len() < width {
        Seq::new((width - d.len()) as nat, |i: int| '0') + d
    } else {
        d
    }
}

/// The value of a digit as used in Chinese counting numerals (一 to 九), or -1.
pub open spec fn unit_value(c: char) -> int {
    if c == '〇' {
        -1
    } else {
        cn_digit_value(c)
    }
}

/// `n` in `1..100` as a Chinese counting numeral: 九, 十, 十五, 二十, 二十一.
pub open spec fn cn_count(n: int) -> Seq<char> {
    if n < 10 {
        seq![cn_digit(n)]
    } else if n == 10 {
        seq!['十']
    } else if n < 20 {
        seq!['十', cn_digit(n % 10)]
    } else if n % 10 == 0 {
        seq![cn_digit(n / 10), '十']
    } else {
        seq![cn_digit(n / 10), '十', cn_digit(n % 10)]
    }
}

/// Reads a Chinese counting numeral of at most three characters by its shape;
/// `cn_count_text` then accepts only the canonical spelling.
pub open spec fn cn_count_decode(s: Seq<char>) -> int {
    if s.len() == 1 {
        if s[0] == '十' {
            10
        } else {
            unit_value(s[0])
        }
    } else if s.len() == 2 && s[0] == '十' {
        10 + unit_value(s[1])
    } else if s.len() == 2 && s[1] == '十' {
        unit_value(s[0]) * 10
    } else if s.len() == 3 && s[1] == '十' {
        unit_value(s[0]) * 10 + unit_value(s[2])
    } else {
        -1
    }
}

/// The value of `s` read as a Chinese counting numeral in `1..100`.
pub open spec fn cn_count_text(s: Seq<char>) -> Option<int> {
    let n = cn_count_decode(s);
    if 1 <= n < 100 && cn_count(n) == s {
        Some(n)
    } else {
        None
    }
}

/// A small number written either as one or two ASCII digits or as a Chinese
/// counting numeral.
pub open spec fn numeral_text(s: Seq<char>) -> Option<int> {
    if 0 < s.len() <= 2 && all_digits(s, false) {
        Some(digits_value(s, false))
    } else {
        cn_count_text(s)
    }
}

pub proof fn lemma_digit_round_trip(k: int, chinese: bool)
    requires
        0 <= k < 10,
    ensures
        digit_value(digit_char(k, chinese), chinese) == k,
{
}

pub proof fn lemma_decimal_digits(n: nat, chinese: bool)
    ensures
        decimal(n, chinese).len() > 0,
        all_digits(decimal(n, chinese), chinese),
        digits_value(decimal(n, chinese), chinese) == n,
    decreases n,
{
    let d = decimal(n, chinese);
    lemma_digit_round_trip((n % 10) as int, chinese);
    if n < 10 {
        assert(d.drop_last() =~= Seq::<char>::empty());
        assert(digits_value(d.drop_last(), chinese) == 0);
    } else {
        lemma_decimal_digits(n / 10, chinese);
        let p = decimal(n / 10, chinese);
        assert(d.drop_last() =~= p);
        assert(d.last() == digit_char((n % 10) as int, chinese));
        assert forall|i: int| 0 <= i < d.len() implies digit_value(#[trigger] d[i], chinese) >= 0 by {
            if i < p.len() {
                assert(d[i] == p[i]);
            }
        }
    }
}

pub proof fn lemma_cn_count(n: int)
    requires
        1 <= n < 100,
    ensures
        cn_count_text(cn_count(n)) == Some(n),
{
}

pub fn digit_char_exec(d: u32, chinese: bool) -> (c: char)
    requires
        d < 10,
    ensures
        c == digit_char(d as int, chinese),
{
    if chinese {
        if d == 0 {
            '〇'
        } else if d == 1 {
            '一'
        } else if d == 2 {
            '二'
        } else if d == 3 {
            '三'
        } else if d == 4 {
            '四'
        } else if d == 5 {
            '五'
        } else if d == 6 {
            '六'
        } else if d == 7 {
            '七'
        } else if d == 8 {
            '八'
        } else {
            '九'
        }
    } else {
        ((('0' as u32) + d) as u8) as char
    }
}

pub fn digit_value_exec(c: char, chinese: bool) -> (r: i32)
    ensures
        r == digit_value(c, chinese),
{
    if chinese {
        if c == '〇' {
            0
        } else if c == '一' {
            1
        } else if c == '二' {
            2
        } else if c == '三' {
            3
        } else if c == '四' {
            4
        } else if c == '五' {
            5
        } else if c == '六' {
            6
        } else if c == '七' {
            7
        } else if c == '八' {
            8
        } else if c == '九' {
            9
        } else {
            -1
        }
    } else if '0' <= c && c <= '9' {
        (c as u32 - '0' as u32) as i32
    } else {
        -1
    }
}

/// Appends `n` in decimal.
pub fn push_decimal(out: &mut Vec<char>, n: u32, chinese: bool)
    ensures
        final(out)@ == old(out)@ + decimal(n as nat, chinese),
    decreases n,
{
    if n >= 10 {
        push_decimal(out, n / 10, chinese);
    }
    out.push(digit_char_exec(n % 10, chinese));
    proof {
        if n < 10 {
            assert(decimal(n as nat, chinese) =~= seq![digit_char(n as int, chinese)]);
        }
    }
    assert(out@ =~= old(out)@ + decimal(n as nat, chinese));
}

pub proof fn lemma_digits_prefix_le(s: Seq<char>, i: int, chinese: bool)
    requires
        0 <= i <= s.len(),
        all_digits(s, chinese),
    ensures
        0 <= digits_value(s.take(i), chinese) <= digits_value(s, chinese),
    decreases s.len(),
{
    if s.len() > 0 {
        let p = s.drop_last();
        assert(all_digits(p, chinese)) by {
            assert forall|j: int| 0 <= j < p.len() implies digit_value(#[trigger] p[j], chinese) >= 0 by {
                assert(p[j] == s[j]);
            }
        }
        assert(digit_value(s[s.len() - 1], chinese) >= 0);
        if i < s.len() {
            assert(p.take(i) =~= s.take(i));
            lemma_digits_prefix_le(p, i, chinese);
        } else {
            assert(s.take(i) =~= s);
            lemma_digits_prefix_le(p, 0, chinese);
        }
    } else {
        assert(s.take(i) =~= s);
    }
}

/// The value of the digits `s`, where it is non-empty, all of one script and
/// at most `u16::MAX`.
pub fn parse_digits(s: &Vec<char>, chinese: bool) -> (r: Option<u16>)
    ensures
        r matches Some(v) ==> s@.len() > 0 && all_digits(s@, chinese) && v == digits_value(s@, chinese),
        r is None ==> !(s@.len() > 0 && all_digits(s@, chinese) && digits_value(s@, chinese) <= 0xFFFF),
{
    if s.len() == 0 {
        return None;
    }
    let mut v: u32 = 0;
    let mut i: usize = 0;
    while i < s.len()
        invariant
            i <= s.len(),
            all_digits(s@.take(i as int), chinese),
            v == digits_value(s@.take(i as int), chinese),
            v <= 0xFFFF,
        decreases s.len() - i,
    {
        let d = digit_value_exec(s[i], chinese);
        if d < 0 {
            return None;
        }
        let ghost t = s@.take(i + 1);
        proof {
            assert(t.drop_last() =~= s@.take(i as int));
            assert(t.last() == s@[i as int]);
        }
        let w: u32 = v * 10 + d as u32;
        if w > 0xFFFF {
            proof {
                assert(all_digits(t, chinese)) by {
                    assert forall|j: int| 0 <= j < t.len() implies digit_value(#[trigger] t[j], chinese) >= 0 by {
                        if j < i {
                            assert(t[j] == s@.take(i as int)[j]);
                        }
                    }
                }
                if all_digits(s@, chinese) {
                    lemma_digits_prefix_le(s@, i + 1, chinese);
                }
            }
            return None;
        }
        proof {
            assert forall|j: int| 0 <= j < t.len() implies digit_value(#[trigger] t[j], chinese) >= 0 by {
                if j < i {
                    assert(t[j] == s@.take(i as int)[j]);
                }
            }
        }
        v = w;
        i = i + 1;
    }
    proof {
        assert(s@.take(s.len() as int) =~= s@);
    }
    Some(v as u16)
}

pub fn chars_equal(a: &Vec<char>, b: &Vec<char>) -> (r: bool)
    ensures
        r == (a@ == b@),
{
    if a.len() != b.len() {
        return false;
    }
    let mut i: usize = 0;
    while i < a.len()
        invariant
            a.len() == b.len(),
            i <= a.len(),
            forall|j: int| 0 <= j < i ==> a@[j] == b@[j],
        decreases a.len() - i,
    {
        if a[i] != b[i] {
            return false;
        }
        i = i + 1;
    }
    assert(a@ =~= b@);
    true
}

/// Appends `n` as a Chinese counting numeral.
pub fn push_cn_count(out: &mut Vec<char>, n: u8)
    requires
        1 <= n < 100,
    ensures
        final(out)@ == old(out)@ + cn_count(n as int),
{
    let tens: u32 = (n / 10) as u32;
    let ones: u32 = (n % 10) as u32;
    if n < 10 {
        out.push(digit_char_exec(ones, true));
    } else if n == 10 {
        out.push('十');
    } else if n < 20 {
        out.push('十');
        out.push(digit_char_exec(ones, true));
    } else if ones == 0 {
        out.push(digit_char_exec(tens, true));
        out.push('十');
    } else {
        out.push(digit_char_exec(tens, true));
        out.push('十');
        out.push(digit_char_exec(ones, true));
    }
    assert(out@ =~= old(out)@ + cn_count(n as int));
}

fn unit_value_exec(c: char) -> (r: i32)
    ensures
        r == unit_value(c),
{
    if c == '〇' {
        -1
    } else {
        digit_value_exec(c, true)
    }
}

/// Reads a Chinese counting numeral in `1..100`.
pub fn parse_cn_count(s: &Vec<char>) -> (r: Option<u8>)
    ensures
        r matches Some(v) ==> cn_count_text(s@) == Some(v as int),
        r is None ==> cn_count_text(s@) is None,
{
    let n: i32 = if s.len() == 1 {
        if s[0] == '十' {
            10
        } else {
            unit_value_exec(s[0])
        }
    } else if s.len() == 2 && s[0] == '十' {
        10 + unit_value_exec(s[1])
    } else if s.len() == 2 && s[1] == '十' {
        unit_value_exec(s[0]) * 10
    } else if s.len() == 3 && s[1] == '十' {
        unit_value_exec(s[0]) * 10 + unit_value_exec(s[2])
    } else {
        -1
    };
    assert(n == cn_count_decode(s@));
    if n < 1 || n >= 100 {
        return None;
    }
    let mut canonical: Vec<char> = Vec::new();
    push_cn_count(&mut canonical, n as u8);
    assert(canonical@ =~= cn_count(n as int));
    if chars_equal(&canonical, s) {
        Some(n as u8)
    } else {
        None
    }
}

/// One or two ASCII digits have a value below 100.
pub proof fn lemma_two_digits(s: Seq<char>)
    requires
        0 < s.len() <= 2,
        all_digits(s, false),
    ensures
        0 <= digits_value(s, false) < 100,
{
    assert(0 <= ascii_digit_value(s[0]) <= 9);
    assert(0 <= ascii_digit_value(s.last()) <= 9);
    let p = s.drop_last();
    assert(digits_value(Seq::<char>::empty(), false) == 0);
    if s.len() == 2 {
        assert(p.drop_last() =~= Seq::<char>::empty());
        assert(p.last() == s[0]);
        assert(digits_value(p, false) == digits_value(p.drop_last(), false) * 10 + ascii_digit_value(s[0]));
    } else {
        assert(p =~= Seq::<char>::empty());
    }
    assert(digits_value(s, false) == digits_value(p, false) * 10 + ascii_digit_value(s.last()));
}

/// Reads a small number written in one or two ASCII digits or as a Chinese
/// counting numeral.
pub fn parse_numeral(s: &Vec<char>) -> (r: Option<u8>)
    ensures
        r matches Some(v) ==> numeral_text(s@) == Some(v as int),
        r is None ==> numeral_text(s@) is None,
{
    if 0 < s.len() && s.len() <= 2 {
        match parse_digits(s, false) {
            Some(v) => {
                proof {
                    lemma_two_digits(s@);
                }
                return Some(v as u8);
            },
            None => {
                proof {
                    if all_digits(s@, false) {
                        lemma_two_digits(s@);
                    }
                }
            },
        }
    }
    parse_cn_count(s)
}

/// Appends `n` in ASCII decimal, left-padded with `0` to `width` characters.
pub fn push_padded(out: &mut Vec<char>, n: u32, width: usize)
    ensures
        final(out)@ == old(out)@ + padded_decimal(n as nat, width as nat),
{
    let mut digits: Vec<char> = Vec::new();
    push_decimal(&mut digits, n, false);
    assert(digits@ =~= decimal(n as nat, false));
    let len = digits.len();
    let ghost start = out@;
    if len < width {
        let mut k: usize = 0;
        while k < width - len
            invariant
                len < width,
                k <= width - len,
                out@ == start + Seq::new(k as nat, |i: int| '0'),
            decreases width - len - k,
        {
            out.push('0');
            k = k + 1;
            assert(out@ =~= start + Seq::new(k as nat, |i: int| '0'));
        }
    }
    let mut i: usize = 0;
    let ghost mid = out@;
    while i < len
        invariant
            len == digits.len(),
            i <= len,
            out@ == mid + digits@.take(i as int),
        decreases len - i,
    {
        out.push(digits[i]);
        i = i + 1;
        assert(out@ =~= mid + digits@.take(i as int));
    }
    assert(digits@.take(len as int) =~= digits@);
    assert(out@ =~= start + padded_decimal(n as nat, width as nat));
}

} // verus!
