//! Calendar dates and times of day as they stand on a task line:
//! `YYYY-MM-DD` and `YYYY-MM-DDTHH:MM`.
use vstd::prelude::*;
use vstd::string::*;

verus! {

/// A calendar day. Dates compare by year, then month, then day.
#[derive(Clone, Copy, Debug, PartialEq, Eq, Structural)]
pub struct Date {
    pub year: u16,
    pub month: u8,
    pub day: u8,
}

impl Date {
    pub open spec fn valid(self) -> bool {
        self.year <= 9999 && 1 <= self.month <= 12 && 1 <= self.day <= 31
    }

    /// The position of the day on the calendar: a number that orders days.
    pub open spec fn ordinal(self) -> int {
        (self.year as int * 13 + self.month as int) * 32 + self.day as int
    }
}

pub open spec fn is_digit(c: char) -> bool {
    '0' <= c <= '9'
}

pub open spec fn digit_value(c: char) -> int {
    c as u32 - 48
}

pub open spec fn digit_char(n: int) -> char {
    ((n + 48) as u8) as char
}

pub open spec fn digits_at(t: Seq<char>, i: int, k: int) -> bool {
    forall|j: int| i <= j < i + k ==> is_digit(#[trigger] t[j])
}

pub open spec fn num2(t: Seq<char>, i: int) -> int {
    digit_value(t[i]) * 10 + digit_value(t[i + 1])
}

pub open spec fn num4(t: Seq<char>, i: int) -> int {
    num2(t, i) * 100 + num2(t, i + 2)
}

/// `t` is a valid date written `YYYY-MM-DD`.
pub open spec fn is_date_text(t: Seq<char>) -> bool {
    &&& t.len() == 10
    &&& digits_at(t, 0, 4) && digits_at(t, 5, 2) && digits_at(t, 8, 2)
    &&& t[4] == '-' && t[7] == '-'
    &&& 1 <= num2(t, 5) <= 12
    &&& 1 <= num2(t, 8) <= 31
}

pub open spec fn date_of(t: Seq<char>) -> Date {
    Date { year: num4(t, 0) as u16, month: num2(t, 5) as u8, day: num2(t, 8) as u8 }
}

pub open spec fn two_digits(n: int) -> Seq<char> {
    seq![digit_char(n / 10), digit_char(n % 10)]
}

/// A date written `YYYY-MM-DD`.
pub open spec fn date_text(d: Date) -> Seq<char> {
    two_digits(d.year as int / 100) + two_digits(d.year as int % 100) + seq!['-'] + two_digits(
        d.month as int,
    ) + seq!['-'] + two_digits(d.day as int)
}

/// `t` is a valid instant written `YYYY-MM-DDTHH:MM`.
pub open spec fn is_instant_text(t: Seq<char>) -> bool {
    &&& t.len() == 16
    &&& is_date_text(t.take(10))
    &&& t[10] == 'T' && t[13] == ':'
    &&& digits_at(t, 11, 2) && digits_at(t, 14, 2)
    &&& num2(t, 11) < 24 && num2(t, 14) < 60
}

pub open spec fn instant_text(d: Date, hour: u8, minute: u8) -> Seq<char> {
    date_text(d) + seq!['T'] + two_digits(hour as int) + seq![':'] + two_digits(minute as int)
}

proof fn lemma_digit(c: char)
    requires
        is_digit(c),
    ensures
        0 <= digit_value(c) < 10,
        digit_char(digit_value(c)) == c,
{
}

proof fn lemma_two_digits(t: Seq<char>, i: int)
    requires
        0 <= i,
        i + 2 <= t.len(),
        digits_at(t, i, 2),
    ensures
        0 <= num2(t, i) < 100,
        two_digits(num2(t, i)) == t.subrange(i, i + 2),
{
    let a = digit_value(t[i]);
    let b = digit_value(t[i + 1]);
    assert(is_digit(t[i]) && is_digit(t[i + 1]));
    lemma_digit(t[i]);
    lemma_digit(t[i + 1]);
    assert((a * 10 + b) / 10 == a && (a * 10 + b) % 10 == b) by (nonlinear_arith)
        requires
            0 <= a < 10,
            0 <= b < 10,
    ;
    assert(two_digits(num2(t, i)) =~= t.subrange(i, i + 2));
}

proof fn lemma_four_digits(t: Seq<char>, i: int)
    requires
        0 <= i,
        i + 4 <= t.len(),
        digits_at(t, i, 4),
    ensures
        0 <= num4(t, i) <= 9999,
        two_digits(num4(t, i) / 100) + two_digits(num4(t, i) % 100) == t.subrange(i, i + 4),
{
    lemma_two_digits(t, i);
    lemma_two_digits(t, i + 2);
    let a = num2(t, i);
    let b = num2(t, i + 2);
    assert((a * 100 + b) / 100 == a && (a * 100 + b) % 100 == b) by (nonlinear_arith)
        requires
            0 <= a < 100,
            0 <= b < 100,
    ;
    assert(t.subrange(i, i + 2) + t.subrange(i + 2, i + 4) =~= t.subrange(i, i + 4));
}

/// Reading a date and writing it again gives the same text.
pub proof fn lemma_date_text(t: Seq<char>)
    requires
        is_date_text(t),
    ensures
        date_of(t).valid(),
        date_text(date_of(t)) == t,
{
    lemma_four_digits(t, 0);
    lemma_two_digits(t, 5);
    lemma_two_digits(t, 8);
    let d = date_of(t);
    assert(d.year as int == num4(t, 0));
    assert(d.month as int == num2(t, 5));
    assert(d.day as int == num2(t, 8));
    assert(date_text(d) =~= t);
}

/// Reading an instant and writing it again gives the same text.
pub proof fn lemma_instant_text(t: Seq<char>)
    requires
        is_instant_text(t),
    ensures
        date_of(t.take(10)).valid(),
        instant_text(date_of(t.take(10)), num2(t, 11) as u8, num2(t, 14) as u8) == t,
{
    lemma_date_text(t.take(10));
    lemma_two_digits(t, 11);
    lemma_two_digits(t, 14);
    assert(instant_text(date_of(t.take(10)), num2(t, 11) as u8, num2(t, 14) as u8) =~= t);
}

fn digit_at(t: &str, i: usize) -> (r: Option<u8>)
    requires
        i < t@.len(),
    ensures
        r is Some <==> is_digit(t@[i as int]),
        r is Some ==> r->0 as int == digit_value(t@[i as int]) && r->0 < 10,
{
    let c = t.get_char(i);
    if '0' <= c && c <= '9' {
        Some((c as u32 - 48) as u8)
    } else {
        None
    }
}

fn num2_at(t: &str, i: usize) -> (r: Option<u8>)
    requires
        i < 16,
        i + 2 <= t@.len(),
    ensures
        r is Some <==> digits_at(t@, i as int, 2),
        r is Some ==> r->0 as int == num2(t@, i as int),
{
    match (digit_at(t, i), digit_at(t, i + 1)) {
        (Some(a), Some(b)) => Some(a * 10 + b),
        _ => None,
    }
}

/// Reads a date written `YYYY-MM-DD`.
pub fn parse_date(t: &str) -> (r: Option<Date>)
    ensures
        r is Some <==> is_date_text(t@),
        r is Some ==> r->0 == date_of(t@),
{
    if t.unicode_len() != 10 {
        return None;
    }
    let y1 = num2_at(t, 0);
    let y2 = num2_at(t, 2);
    let m = num2_at(t, 5);
    let d = num2_at(t, 8);
    if t.get_char(4) != '-' || t.get_char(7) != '-' {
        return None;
    }
    match (y1, y2, m, d) {
        (Some(y1), Some(y2), Some(m), Some(d)) => {
            assert(digits_at(t@, 0, 4));
            if 1 <= m && m <= 12 && 1 <= d && d <= 31 {
                Some(Date { year: y1 as u16 * 100 + y2 as u16, month: m, day: d })
            } else {
                None
            }
        },
        _ => {
            assert(!digits_at(t@, 0, 4) || !digits_at(t@, 5, 2) || !digits_at(t@, 8, 2)) by {
                if y1 is None {
                    assert(!digits_at(t@, 0, 2));
                }
                if y2 is None {
                    assert(!digits_at(t@, 2, 2));
                }
            }
            None
        },
    }
}

/// Reads an instant written `YYYY-MM-DDTHH:MM`: its day, hour and minute.
pub fn parse_instant(t: &str) -> (r: Option<(Date, u8, u8)>)
    ensures
        r is Some <==> is_instant_text(t@),
        r is Some ==> r->0 == (date_of(t@.take(10)), num2(t@, 11) as u8, num2(t@, 14) as u8),
{
    if t.unicode_len() != 16 {
        return None;
    }
    let day = parse_date(t.substring_char(0, 10));
    if t.get_char(10) != 'T' || t.get_char(13) != ':' {
        return None;
    }
    match (day, num2_at(t, 11), num2_at(t, 14)) {
        (Some(day), Some(h), Some(m)) => {
            if h < 24 && m < 60 {
                Some((day, h, m))
            } else {
                None
            }
        },
        _ => None,
    }
}

fn digit_char_of(n: u8) -> (c: char)
    requires
        n < 10,
    ensures
        c == digit_char(n as int),
{
    (n + 48) as char
}

fn push_two_digits(s: &mut String, n: u8)
    requires
        n < 100,
    ensures
        final(s)@ == old(s)@ + two_digits(n as int),
{
    crate::text::push_char(s, digit_char_of(n / 10));
    crate::text::push_char(s, digit_char_of(n % 10));
    assert(final(s)@ =~= old(s)@ + two_digits(n as int));
}

/// Writes a date as `YYYY-MM-DD`.
pub fn render_date(d: Date) -> (s: String)
    requires
        d.valid(),
    ensures
        s@ == date_text(d),
{
    let mut s = String::new();
    push_two_digits(&mut s, (d.year / 100) as u8);
    push_two_digits(&mut s, (d.year % 100) as u8);
    crate::text::push_char(&mut s, '-');
    push_two_digits(&mut s, d.month);
    crate::text::push_char(&mut s, '-');
    push_two_digits(&mut s, d.day);
    assert(s@ =~= date_text(d));
    s
}

} // verus!
