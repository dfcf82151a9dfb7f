//! Wall-clock stamps at second precision and their fixed `YYYYMMDD-HHMMSS`
//! textual form, the timestamp convention embedded in archive names.

use vstd::prelude::*;

verus! {

/// A local wall-clock instant at second precision.
#[derive(Clone, Copy, PartialEq, Eq, Structural, Debug)]
pub struct Stamp {
    pub year: u32,
    pub month: u32,
    pub day: u32,
    pub hour: u32,
    pub minute: u32,
    pub second: u32,
}

pub open spec fn is_leap_year(y: int) -> bool {
    y % 4 == 0 && (y % 100 != 0 || y % 400 == 0)
}

pub open spec fn days_in_month(y: int, m: int) -> int {
    if m == 2 {
        if is_leap_year(y) {
            29
        } else {
            28
        }
    } else if m == 4 || m == 6 || m == 9 || m == 11 {
        30
    } else {
        31
    }
}

impl Stamp {
    /// A representable calendar date and time of day: what the textual form
    /// can carry and what a wall clock can produce.
    pub open spec fn valid(self) -> bool {
        &&& self.year <= 9999
        &&& 1 <= self.month <= 12
        &&& 1 <= self.day <= days_in_month(self.year as int, self.month as int)
        &&& self.hour <= 23
        &&& self.minute <= 59
        &&& self.second <= 59
    }
}

/// Days in the given month, as the executable twin of `days_in_month`.
pub fn month_length(year: u32, month: u32) -> (r: u32)
    ensures
        r as int == days_in_month(year as int, month as int),
{
    if month == 2 {
        if year % 4 == 0 && (year % 100 != 0 || year % 400 == 0) {
            29
        } else {
            28
        }
    } else if month == 4 || month == 6 || month == 9 || month == 11 {
        30
    } else {
        31
    }
}

/// Checked constructor: `Some` exactly on representable calendar instants.
pub fn make_stamp(year: u32, month: u32, day: u32, hour: u32, minute: u32, second: u32) -> (r:
    Option<Stamp>)
    ensures
        match r {
            Some(st) => st == (Stamp { year, month, day, hour, minute, second }) && st.valid(),
            None => !(Stamp { year, month, day, hour, minute, second }).valid(),
        },
{
    if year <= 9999 && 1 <= month && month <= 12 && 1 <= day && day <= month_length(year, month)
        && hour <= 23 && minute <= 59 && second <= 59 {
        Some(Stamp { year, month, day, hour, minute, second })
    } else {
        None
    }
}

pub open spec fn char_of_digit(d: int) -> char {
    if d == 0 {
        '0'
    } else if d == 1 {
        '1'
    } else if d == 2 {
        '2'
    } else if d == 3 {
        '3'
    } else if d == 4 {
        '4'
    } else if d == 5 {
        '5'
    } else if d == 6 {
        '6'
    } else if d == 7 {
        '7'
    } else if d == 8 {
        '8'
    } else {
        '9'
    }
}

pub open spec fn is_digit_char(c: char) -> bool {
    c == '0' || c == '1' || c == '2' || c == '3' || c == '4' || c == '5' || c == '6' || c == '7'
        || c == '8' || c == '9'
}

pub open spec fn digit_of_char(c: char) -> int {
    if c == '0' {
        0
    } else if c == '1' {
        1
    } else if c == '2' {
        2
    } else if c == '3' {
        3
    } else if c == '4' {
        4
    } else if c == '5' {
        5
    } else if c == '6' {
        6
    } else if c == '7' {
        7
    } else if c == '8' {
        8
    } else {
        9
    }
}

pub proof fn lemma_digit_round_trip(d: int)
    requires
        0 <= d <= 9,
    ensures
        is_digit_char(char_of_digit(d)),
        digit_of_char(char_of_digit(d)) == d,
{
}

fn digit_to_char(d: u32) -> (c: char)
    requires
        d <= 9,
    ensures
        c == char_of_digit(d as int),
{
    match d {
        0 => '0',
        1 => '1',
        2 => '2',
        3 => '3',
        4 => '4',
        5 => '5',
        6 => '6',
        7 => '7',
        8 => '8',
        _ => '9',
    }
}

fn char_to_digit(c: char) -> (r: Option<u32>)
    ensures
        match r {
            Some(d) => is_digit_char(c) && d as int == digit_of_char(c) && d <= 9,
            None => !is_digit_char(c),
        },
{
    match c {
        '0' => Some(0),
        '1' => Some(1),
        '2' => Some(2),
        '3' => Some(3),
        '4' => Some(4),
        '5' => Some(5),
        '6' => Some(6),
        '7' => Some(7),
        '8' => Some(8),
        '9' => Some(9),
        _ => None,
    }
}

/// The two decimal digits of `n % 100`, zero-padded.
pub open spec fn two_digits(n: int) -> Seq<char> {
    seq![char_of_digit((n / 10) % 10), char_of_digit(n % 10)]
}

/// The four decimal digits of `n % 10000`, zero-padded.
pub open spec fn four_digits(n: int) -> Seq<char> {
    seq![
        char_of_digit((n / 1000) % 10),
        char_of_digit((n / 100) % 10),
        char_of_digit((n / 10) % 10),
        char_of_digit(n % 10),
    ]
}

/// The 15-character textual form `YYYYMMDD-HHMMSS` of a stamp.
pub open spec fn stamp_tag(st: Stamp) -> Seq<char> {
    four_digits(st.year as int) + two_digits(st.month as int) + two_digits(st.day as int)
        + seq!['-'] + two_digits(st.hour as int) + two_digits(st.minute as int) + two_digits(
        st.second as int,
    )
}

fn push_two_digits(out: &mut Vec<char>, n: u32)
    requires
        n <= 99,
    ensures
        final(out)@ == old(out)@ + two_digits(n as int),
{
    out.push(digit_to_char(n / 10));
    out.push(digit_to_char(n % 10));
    assert(out@ =~= old(out)@ + two_digits(n as int));
}

/// Renders a stamp as its 15-character tag.
pub fn format_stamp(st: &Stamp) -> (r: Vec<char>)
    requires
        st.valid(),
    ensures
        r@ == stamp_tag(*st),
{
    let mut out: Vec<char> = Vec::new();
    out.push(digit_to_char(st.year / 1000));
    out.push(digit_to_char((st.year / 100) % 10));
    out.push(digit_to_char((st.year / 10) % 10));
    out.push(digit_to_char(st.year % 10));
    assert(st.year / 1000 == (st.year as int / 1000) % 10) by {
        assert(st.year / 1000 <= 9);
    }
    assert(out@ =~= four_digits(st.year as int));
    push_two_digits(&mut out, st.month);
    push_two_digits(&mut out, st.day);
    out.push('-');
    push_two_digits(&mut out, st.hour);
    push_two_digits(&mut out, st.minute);
    push_two_digits(&mut out, st.second);
    assert(out@ =~= stamp_tag(*st));
    out
}

/// The tag has the digit/dash shape of `YYYYMMDD-HHMMSS`.
pub open spec fn tag_shape_ok(s: Seq<char>) -> bool {
    &&& s.len() == 15
    &&& s[8] == '-'
    &&& forall|i: int| 0 <= i < 15 && i != 8 ==> is_digit_char(#[trigger] s[i])
}

pub open spec fn num2(s: Seq<char>, i: int) -> int {
    10 * digit_of_char(s[i]) + digit_of_char(s[i + 1])
}

pub open spec fn num4(s: Seq<char>, i: int) -> int {
    1000 * digit_of_char(s[i]) + 100 * digit_of_char(s[i + 1]) + 10 * digit_of_char(s[i + 2])
        + digit_of_char(s[i + 3])
}

/// The stamp a 15-character tag denotes, if it is well shaped and names a
/// representable calendar instant.
pub open spec fn parse_tag(s: Seq<char>) -> Option<Stamp> {
    if tag_shape_ok(s) {
        let st = Stamp {
            year: num4(s, 0) as u32,
            month: num2(s, 4) as u32,
            day: num2(s, 6) as u32,
            hour: num2(s, 9) as u32,
            minute: num2(s, 11) as u32,
            second: num2(s, 13) as u32,
        };
        if st.valid() {
            Some(st)
        } else {
            None
        }
    } else {
        None
    }
}

fn parse_two(s: &Vec<char>, i: usize) -> (r: Option<u32>)
    requires
        i + 2 <= s.len(),
    ensures
        match r {
            Some(n) => is_digit_char(s@[i as int]) && is_digit_char(s@[i + 1]) && n as int == num2(
                s@,
                i as int,
            ) && n <= 99,
            None => !(is_digit_char(s@[i as int]) && is_digit_char(s@[i + 1])),
        },
{
    let d1 = char_to_digit(s[i]);
    let d2 = char_to_digit(s[i + 1]);
    match (d1, d2) {
        (Some(a), Some(b)) => Some(10 * a + b),
        _ => None,
    }
}

/// Parses a 15-character tag back into a stamp; `None` on anything that is
/// not the exact textual form of a representable instant.
pub fn parse_stamp(s: &Vec<char>) -> (r: Option<Stamp>)
    ensures
        r == parse_tag(s@),
{
    if s.len() != 15 {
        return None;
    }
    if s[8] != '-' {
        return None;
    }
    let y1 = parse_two(s, 0);
    let y2 = parse_two(s, 2);
    let mo = parse_two(s, 4);
    let da = parse_two(s, 6);
    let ho = parse_two(s, 9);
    let mi = parse_two(s, 11);
    let se = parse_two(s, 13);
    match (y1, y2, mo, da, ho, mi, se) {
        (Some(a), Some(b), Some(month), Some(day), Some(hour), Some(minute), Some(second)) => {
            let year = 100 * a + b;
            assert(year as int == num4(s@, 0));
            assert(tag_shape_ok(s@)) by {
                assert forall|i: int| 0 <= i < 15 && i != 8 implies is_digit_char(#[trigger] s@[i]) by {
                }
            }
            let r = make_stamp(year, month, day, hour, minute, second);
            assert(r == parse_tag(s@));
            r
        },
        _ => {
            assert(!tag_shape_ok(s@));
            None
        },
    }
}

proof fn lemma_two_digit_value(n: int)
    requires
        0 <= n <= 99,
    ensures
        10 * digit_of_char(char_of_digit((n / 10) % 10)) + digit_of_char(char_of_digit(n % 10))
            == n,
{
    lemma_digit_round_trip((n / 10) % 10);
    lemma_digit_round_trip(n % 10);
    assert((n / 10) % 10 == n / 10);
}

proof fn lemma_four_digit_value(n: int)
    requires
        0 <= n <= 9999,
    ensures
        1000 * digit_of_char(char_of_digit((n / 1000) % 10)) + 100 * digit_of_char(
            char_of_digit((n / 100) % 10),
        ) + 10 * digit_of_char(char_of_digit((n / 10) % 10)) + digit_of_char(char_of_digit(n % 10))
            == n,
{
    lemma_digit_round_trip((n / 1000) % 10);
    lemma_digit_round_trip((n / 100) % 10);
    lemma_digit_round_trip((n / 10) % 10);
    lemma_digit_round_trip(n % 10);
    assert((n / 1000) % 10 == n / 1000);
    assert(n == 1000 * (n / 1000) + 100 * ((n / 100) % 10) + 10 * ((n / 10) % 10) + n % 10);
}

/// The flat list of the fifteen characters of `stamp_tag(st)`.
pub open spec fn stamp_tag_chars(st: Stamp) -> Seq<char> {
    seq![
        char_of_digit((st.year as int / 1000) % 10),
        char_of_digit((st.year as int / 100) % 10),
        char_of_digit((st.year as int / 10) % 10),
        char_of_digit(st.year as int % 10),
        char_of_digit((st.month as int / 10) % 10),
        char_of_digit(st.month as int % 10),
        char_of_digit((st.day as int / 10) % 10),
        char_of_digit(st.day as int % 10),
        '-',
        char_of_digit((st.hour as int / 10) % 10),
        char_of_digit(st.hour as int % 10),
        char_of_digit((st.minute as int / 10) % 10),
        char_of_digit(st.minute as int % 10),
        char_of_digit((st.second as int / 10) % 10),
        char_of_digit(st.second as int % 10),
    ]
}

pub proof fn lemma_stamp_tag_chars(st: Stamp)
    ensures
        stamp_tag(st) == stamp_tag_chars(st),
{
    assert(stamp_tag(st) =~= stamp_tag_chars(st));
}

/// Formatting a representable stamp and parsing the text back returns the
/// same stamp: the codec is lossless at second precision.
pub proof fn lemma_stamp_codec_round_trip(st: Stamp)
    requires
        st.valid(),
    ensures
        parse_tag(stamp_tag(st)) == Some(st),
{
    lemma_stamp_tag_chars(st);
    let s = stamp_tag_chars(st);
    assert forall|i: int| 0 <= i < 15 && i != 8 implies is_digit_char(#[trigger] s[i]) by {
        lemma_digit_round_trip(digit_index_value(st, i));
        assert(s[i] == char_of_digit(digit_index_value(st, i)));
    }
    assert(tag_shape_ok(s));
    assert(num4(s, 0) == st.year as int) by {
        lemma_four_digit_value(st.year as int);
    }
    assert(num2(s, 4) == st.month as int) by {
        lemma_two_digit_value(st.month as int);
    }
    assert(num2(s, 6) == st.day as int) by {
        lemma_two_digit_value(st.day as int);
    }
    assert(num2(s, 9) == st.hour as int) by {
        lemma_two_digit_value(st.hour as int);
    }
    assert(num2(s, 11) == st.minute as int) by {
        lemma_two_digit_value(st.minute as int);
    }
    assert(num2(s, 13) == st.second as int) by {
        lemma_two_digit_value(st.second as int);
    }
}

/// The decimal digit of `stamp_tag(st)` at position `i`, as an integer.
pub open spec fn digit_index_value(st: Stamp, i: int) -> int {
    if i == 0 {
        (st.year as int / 1000) % 10
    } else if i == 1 {
        (st.year as int / 100) % 10
    } else if i == 2 {
        (st.year as int / 10) % 10
    } else if i == 3 {
        st.year as int % 10
    } else if i == 4 {
        (st.month as int / 10) % 10
    } else if i == 5 {
        st.month as int % 10
    } else if i == 6 {
        (st.day as int / 10) % 10
    } else if i == 7 {
        st.day as int % 10
    } else if i == 9 {
        (st.hour as int / 10) % 10
    } else if i == 10 {
        st.hour as int % 10
    } else if i == 11 {
        (st.minute as int / 10) % 10
    } else if i == 12 {
        st.minute as int % 10
    } else if i == 13 {
        (st.second as int / 10) % 10
    } else {
        st.second as int % 10
    }
}

} // verus!
