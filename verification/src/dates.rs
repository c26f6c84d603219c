//! Calendar dates in the `YYYYMMDD` form that names entries, read and written
//! through `chrono`.
use vstd::prelude::*;
use crate::text::{int_padded, chars_of, decimal, digit_char, zeros};
use chrono::Datelike;

verus! {

/// A leap year of the proleptic Gregorian calendar.
pub open spec fn is_leap_year(y: int) -> bool {
    y % 4 == 0 && (y % 100 != 0 || y % 400 == 0)
}

/// The number of days of month `m` in year `y`.
pub open spec fn days_in_month(y: int, m: int) -> int {
    if m == 2 {
        if is_leap_year(y) {
            29
        } else {
            28
        }
    } else if m == 4 || m == 6 || m == 9 || m == 11 {
        30
    } else {
        31
    }
}

/// The first and last year of `chrono::NaiveDate`.
pub open spec fn min_year() -> int {
    -262143
}

pub open spec fn max_year() -> int {
    262142
}

/// A day that exists in the proleptic Gregorian calendar, within the range of `NaiveDate`.
pub open spec fn is_valid_date(y: int, m: int, d: int) -> bool {
    &&& min_year() <= y <= max_year()
    &&& 1 <= m <= 12
    &&& 1 <= d <= days_in_month(y, m)
}

/// An ASCII decimal digit.
pub open spec fn is_digit(c: char) -> bool {
    '0' <= c <= '9'
}

/// Every character of `s` is an ASCII decimal digit.
pub open spec fn all_digits(s: Seq<char>) -> bool {
    forall|i: int| 0 <= i < s.len() ==> is_digit(#[trigger] s[i])
}

/// The number written by the ASCII digits `s`.
pub open spec fn digits_value(s: Seq<char>) -> int
    decreases s.len(),
{
    if s.len() == 0 {
        0
    } else {
        digits_value(s.drop_last()) * 10 + (s.last() as int - '0' as int)
    }
}

/// The date that eight ASCII digits `YYYYMMDD` spell, as year, month and day.
pub open spec fn digits_date(s: Seq<char>) -> (int, int, int) {
    (digits_value(s.subrange(0, 4)), digits_value(s.subrange(4, 6)), digits_value(s.subrange(6, 8)))
}

/// What `chrono::NaiveDate::parse_from_str(s, "%Y%m%d")` reads from `s`: the year,
/// month and day of the date, or nothing when `s` is refused.
pub uninterp spec fn chrono_parse_ymd(s: Seq<char>) -> Option<(int, int, int)>;

/// How `chrono` writes a year with `%Y`: four digits within 0..=9999, otherwise a sign
/// and at least four digits.
pub open spec fn chrono_year_text(y: int) -> Seq<char> {
    if 0 <= y <= 9999 {
        int_padded(y, 4)
    } else if y < 0 {
        seq!['-'] + int_padded(-y, 4)
    } else {
        seq!['+'] + int_padded(y, 4)
    }
}

/// The text `chrono` writes for a date with `"%Y-%m-%d"`.
pub open spec fn iso_date_text(y: int, m: int, d: int) -> Seq<char> {
    chrono_year_text(y) + seq!['-'] + int_padded(m, 2) + seq!['-'] + int_padded(d, 2)
}

/// The error `chrono` reports for text it cannot read as a date.
#[verifier::external_type_specification]
#[verifier::external_body]
pub struct ExParseError(chrono::format::ParseError);

/// Reads `s` as `YYYYMMDD` with `chrono::NaiveDate::parse_from_str(s, "%Y%m%d")` and
/// gives the year, month and day of the date.  The contract claims what chrono's source
/// shows: a date read is a valid one, and eight ASCII digits are read as four digits of
/// year, two of month and two of day, accepted exactly when they name a valid date.
#[verifier::external_body]
pub(crate) fn chrono_parse_date(s: &str) -> (r: Result<(i32, u32, u32), chrono::format::ParseError>)
    ensures
        match r {
            Ok((y, m, d)) => chrono_parse_ymd(s@) == Some((y as int, m as int, d as int)),
            Err(_) => chrono_parse_ymd(s@) is None,
        },
        r matches Ok((y, m, d)) ==> is_valid_date(y as int, m as int, d as int),
        s@.len() == 8 && all_digits(s@) ==> (r is Ok <==> is_valid_date(
            digits_date(s@).0,
            digits_date(s@).1,
            digits_date(s@).2,
        )),
        s@.len() == 8 && all_digits(s@) && r is Ok ==> r->Ok_0 == (
            digits_date(s@).0 as i32,
            digits_date(s@).1 as u32,
            digits_date(s@).2 as u32,
        ),
{
    match chrono::NaiveDate::parse_from_str(s, "%Y%m%d") {
        Ok(d) => Ok((d.year(), d.month(), d.day())),
        Err(e) => Err(e),
    }
}

/// The messages that `chrono` writes for its parse errors, one for each kind of error.
pub open spec fn is_chrono_parse_message(t: Seq<char>) -> bool {
    ||| t == "input is out of range"@
    ||| t == "no possible date and time matching input"@
    ||| t == "input is not enough for unique date and time"@
    ||| t == "input contains invalid characters"@
    ||| t == "premature end of input"@
    ||| t == "trailing input"@
    ||| t == "bad or unsupported format string"@
}

/// The message of a chrono parse error (`ParseError`'s `Display`).  The contract claims
/// that it is one of the fixed messages that chrono's `Display` writes; which one depends
/// on the kind of the error, which the contract cannot see, and is left unsaid.
#[verifier::external_body]
pub(crate) fn parse_error_text(e: &chrono::format::ParseError) -> (t: String)
    ensures
        is_chrono_parse_message(t@),
{
    e.to_string()
}

/// The date that `s` names in the form `YYYYMMDD`: exactly eight ASCII digits, read
/// by `chrono`, that name a calendar date.  Any other text names no date.
pub fn parse_entry_date(s: &str) -> (r: Option<(i32, u32, u32)>)
    ensures
        r is Some <==> (s@.len() == 8 && all_digits(s@) && is_valid_date(
            digits_date(s@).0,
            digits_date(s@).1,
            digits_date(s@).2,
        )),
        match r {
            Some((y, m, d)) => (y as int, m as int, d as int) == digits_date(s@)
                && chrono_parse_ymd(s@) == Some((y as int, m as int, d as int)),
            None => true,
        },
{
    if char_count(s) != 8 || !is_all_digits(s) {
        return None;
    }
    match chrono_parse_date(s) {
        Ok(ymd) => Some(ymd),
        Err(_) => None,
    }
}

/// Writes a valid date as `YYYY-MM-DD` with chrono's `format("%Y-%m-%d")`; the
/// contract states chrono's documented output for each field.
#[verifier::external_body]
fn chrono_format_iso_date(y: i32, m: u32, d: u32) -> (s: String)
    requires
        is_valid_date(y as int, m as int, d as int),
    ensures
        s@ == iso_date_text(y as int, m as int, d as int),
{
    chrono::NaiveDate::from_ymd_opt(y, m, d).unwrap().format("%Y-%m-%d").to_string()
}

/// The label of a day: its date written `YYYY-MM-DD`.
pub fn format_iso_date(y: i32, m: u32, d: u32) -> (s: String)
    requires
        is_valid_date(y as int, m as int, d as int),
    ensures
        s@ == iso_date_text(y as int, m as int, d as int),
{
    chrono_format_iso_date(y, m, d)
}

/// Whether `y`, `m`, `d` name a day that `chrono` can hold.
#[verifier::spinoff_prover]
pub fn date_is_valid(y: i32, m: u32, d: u32) -> (r: bool)
    ensures
        r == is_valid_date(y as int, m as int, d as int),
{
    if y < -262143 || y > 262142 || m < 1 || m > 12 || d < 1 {
        return false;
    }
    let leap = y % 4 == 0 && (y % 100 != 0 || y % 400 == 0);
    let days: u32 = if m == 2 {
        if leap {
            29
        } else {
            28
        }
    } else if m == 4 || m == 6 || m == 9 || m == 11 {
        30
    } else {
        31
    };
    proof {
        assert(leap == is_leap_year(y as int)) by (nonlinear_arith)
            requires
                leap == (y % 4 == 0 && (y % 100 != 0 || y % 400 == 0)),
                -262143 <= y <= 262142,
        {
        }
    }
    d <= days
}

/// Whether every character of `s` is an ASCII digit.
pub fn is_all_digits(s: &str) -> (r: bool)
    ensures
        r == all_digits(s@),
{
    let v = chars_of(s);
    let n = v.len();
    let mut i: usize = 0;
    while i < n
        invariant
            n == v@.len(),
            v@ == s@,
            i <= n,
            forall|j: int| 0 <= j < i ==> is_digit(#[trigger] v@[j]),
        decreases n - i,
    {
        if !('0' <= v[i] && v[i] <= '9') {
            return false;
        }
        i = i + 1;
    }
    true
}

/// The number of characters in `s`.
pub fn char_count(s: &str) -> (n: usize)
    ensures
        n == s@.len(),
{
    chars_of(s).len()
}

/// A digit written and read back is the same digit.
proof fn lemma_digit_char(v: int)
    requires
        0 <= v < 10,
    ensures
        is_digit(digit_char(v)),
        digit_char(v) as int - '0' as int == v,
{
}

/// `v` below a hundred, padded to two places: its tens, then its units.
proof fn lemma_padded_two(v: int)
    requires
        0 <= v < 100,
    ensures
        int_padded(v, 2) == seq![digit_char(v / 10), digit_char(v % 10)],
{
    reveal_with_fuel(decimal, 3);
    if v < 10 {
        assert(int_padded(v, 2) =~= seq![digit_char(v / 10), digit_char(v % 10)]);
    } else {
        assert(decimal((v / 10) as nat) == seq![digit_char(v / 10)]);
        assert(int_padded(v, 2) =~= seq![digit_char(v / 10), digit_char(v % 10)]);
    }
}

/// `v` up to 9999, padded to four places: its thousands, hundreds, tens and units.
proof fn lemma_padded_four(v: int)
    requires
        0 <= v < 10000,
    ensures
        int_padded(v, 4) == seq![
            digit_char(v / 1000),
            digit_char((v / 100) % 10),
            digit_char((v / 10) % 10),
            digit_char(v % 10),
        ],
{
    reveal_with_fuel(decimal, 5);
    let t = seq![
        digit_char(v / 1000),
        digit_char((v / 100) % 10),
        digit_char((v / 10) % 10),
        digit_char(v % 10),
    ];
    if v < 10 {
        assert(int_padded(v, 4) =~= t);
    } else if v < 100 {
        assert(decimal((v / 10) as nat) == seq![digit_char(v / 10)]);
        assert(int_padded(v, 4) =~= t);
    } else if v < 1000 {
        assert(decimal((v / 100) as nat) == seq![digit_char(v / 100)]);
        assert(decimal((v / 10) as nat) == seq![digit_char(v / 100), digit_char((v / 10) % 10)]);
        assert(int_padded(v, 4) =~= t);
    } else {
        assert(decimal((v / 1000) as nat) == seq![digit_char(v / 1000)]);
        assert(decimal((v / 100) as nat) == seq![digit_char(v / 1000), digit_char((v / 100) % 10)]);
        assert(decimal((v / 10) as nat) == seq![
            digit_char(v / 1000),
            digit_char((v / 100) % 10),
            digit_char((v / 10) % 10),
        ]);
        assert(int_padded(v, 4) =~= t);
    }
}

/// The value of two digits.
proof fn lemma_value_two(s: Seq<char>)
    requires
        s.len() == 2,
        all_digits(s),
    ensures
        digits_value(s) == (s[0] as int - '0' as int) * 10 + (s[1] as int - '0' as int),
{
    reveal_with_fuel(digits_value, 3);
    assert(s.drop_last().drop_last() =~= Seq::<char>::empty());
    assert(s.drop_last() =~= seq![s[0]]);
}

/// The value of four digits.
proof fn lemma_value_four(s: Seq<char>)
    requires
        s.len() == 4,
        all_digits(s),
    ensures
        digits_value(s) == (s[0] as int - '0' as int) * 1000 + (s[1] as int - '0' as int) * 100 + (
        s[2] as int - '0' as int) * 10 + (s[3] as int - '0' as int),
{
    reveal_with_fuel(digits_value, 5);
    assert(s.drop_last() =~= seq![s[0], s[1], s[2]]);
    assert(s.drop_last().drop_last() =~= seq![s[0], s[1]]);
    assert(s.drop_last().drop_last().drop_last() =~= seq![s[0]]);
    assert(s.drop_last().drop_last().drop_last().drop_last() =~= Seq::<char>::empty());
}

/// A digit character is the digit of its value.
proof fn lemma_char_of_digit(c: char)
    requires
        is_digit(c),
    ensures
        digit_char(c as int - '0' as int) == c,
{
}

/// Two digits read as a number and padded back to two places are the same digits.
pub proof fn lemma_two_digits_round(s: Seq<char>)
    requires
        s.len() == 2,
        all_digits(s),
    ensures
        0 <= digits_value(s) < 100,
        int_padded(digits_value(s), 2) == s,
{
    lemma_value_two(s);
    let a = s[0] as int - '0' as int;
    let b = s[1] as int - '0' as int;
    assert(is_digit(s[0]) && is_digit(s[1]));
    let v = digits_value(s);
    assert(v / 10 == a && v % 10 == b) by (nonlinear_arith)
        requires
            v == a * 10 + b,
            0 <= a < 10,
            0 <= b < 10,
    ;
    lemma_padded_two(v);
    lemma_char_of_digit(s[0]);
    lemma_char_of_digit(s[1]);
    assert(int_padded(v, 2) =~= s);
}

/// Four digits read as a number and padded back to four places are the same digits.
pub proof fn lemma_four_digits_round(s: Seq<char>)
    requires
        s.len() == 4,
        all_digits(s),
    ensures
        0 <= digits_value(s) < 10000,
        int_padded(digits_value(s), 4) == s,
{
    lemma_value_four(s);
    let a = s[0] as int - '0' as int;
    let b = s[1] as int - '0' as int;
    let c = s[2] as int - '0' as int;
    let e = s[3] as int - '0' as int;
    assert(is_digit(s[0]) && is_digit(s[1]) && is_digit(s[2]) && is_digit(s[3]));
    let v = digits_value(s);
    assert(v / 1000 == a && (v / 100) % 10 == b && (v / 10) % 10 == c && v % 10 == e)
        by (nonlinear_arith)
        requires
            v == a * 1000 + b * 100 + c * 10 + e,
            0 <= a < 10,
            0 <= b < 10,
            0 <= c < 10,
            0 <= e < 10,
    ;
    lemma_padded_four(v);
    lemma_char_of_digit(s[0]);
    lemma_char_of_digit(s[1]);
    lemma_char_of_digit(s[2]);
    lemma_char_of_digit(s[3]);
    assert(int_padded(v, 4) =~= s);
}

/// A number below a hundred, padded to two places, is two digits that read back as it.
pub proof fn lemma_two_places_read(v: int)
    requires
        0 <= v < 100,
    ensures
        int_padded(v, 2).len() == 2,
        all_digits(int_padded(v, 2)),
        digits_value(int_padded(v, 2)) == v,
{
    lemma_padded_two(v);
    lemma_digit_char(v / 10);
    lemma_digit_char(v % 10);
    let s = int_padded(v, 2);
    assert(is_digit(s[0]) && is_digit(s[1]));
    lemma_value_two(s);
}

/// A number up to 9999, padded to four places, is four digits that read back as it.
pub proof fn lemma_four_places_read(v: int)
    requires
        0 <= v < 10000,
    ensures
        int_padded(v, 4).len() == 4,
        all_digits(int_padded(v, 4)),
        digits_value(int_padded(v, 4)) == v,
{
    lemma_padded_four(v);
    lemma_digit_char(v / 1000);
    lemma_digit_char((v / 100) % 10);
    lemma_digit_char((v / 10) % 10);
    lemma_digit_char(v % 10);
    let s = int_padded(v, 4);
    assert(is_digit(s[0]) && is_digit(s[1]) && is_digit(s[2]) && is_digit(s[3]));
    lemma_value_four(s);
    assert(v == (v / 1000) * 1000 + ((v / 100) % 10) * 100 + ((v / 10) % 10) * 10 + v % 10)
        by (nonlinear_arith)
        requires
            0 <= v < 10000,
    ;
}

} // verus!
