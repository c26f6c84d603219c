//! Points in time as the journal keeps them: the local calendar date and clock
//! time with the offset from UTC, read from the system clock through `chrono`,
//! and written as `chrono` writes `%Y-%m-%dT%H:%M:%S%:z`.
use vstd::prelude::*;
use crate::dates::{
    all_digits, chrono_year_text, digits_date, format_iso_date, iso_date_text, is_valid_date,
    lemma_four_digits_round, lemma_four_places_read, lemma_two_digits_round, lemma_two_places_read,
};
use crate::text::{append_str, format_int_padded, int_padded};
use chrono::{Datelike, Timelike};

verus! {

/// A local date and time with its offset from UTC in seconds.
#[derive(Clone, Copy, Debug, PartialEq, Eq, Structural)]
pub struct Timestamp {
    pub year: i32,
    pub month: u32,
    pub day: u32,
    pub hour: u32,
    pub minute: u32,
    pub second: u32,
    pub nanosecond: u32,
    pub offset_seconds: i32,
}

/// The fields name a date and time that `chrono` can hold: a valid date, a time of
/// day (a leap second shows as a nanosecond count of a second or more), and an
/// offset of less than a day.
pub open spec fn timestamp_valid(t: Timestamp) -> bool {
    &&& is_valid_date(t.year as int, t.month as int, t.day as int)
    &&& t.hour < 24
    &&& t.minute < 60
    &&& t.second < 60
    &&& t.nanosecond < 2_000_000_000
    &&& -86_400 < t.offset_seconds < 86_400
}

/// Whether the fields name a date and time that `chrono` can hold.
pub fn timestamp_is_valid(t: Timestamp) -> (r: bool)
    ensures
        r == timestamp_valid(t),
{
    crate::dates::date_is_valid(t.year, t.month, t.day) && t.hour < 24 && t.minute < 60 && t.second
        < 60 && t.nanosecond < 2_000_000_000 && -86_400 < t.offset_seconds && t.offset_seconds
        < 86_400
}

/// The current local date and time (`chrono::Local::now()`), taken apart into its
/// fields.  The contract claims only what chrono documents of every value it
/// gives: the fields name a valid date and time, and the offset is below a day.
#[verifier::external_body]
pub(crate) fn local_now() -> (t: Timestamp)
    ensures
        timestamp_valid(t),
{
    let now = chrono::Local::now();
    let local = now.naive_local();
    Timestamp {
        year: local.year(),
        month: local.month(),
        day: local.day(),
        hour: local.hour(),
        minute: local.minute(),
        second: local.second(),
        nanosecond: local.nanosecond(),
        offset_seconds: now.offset().local_minus_utc(),
    }
}

/// How `chrono` writes an offset with `%:z`: a sign, then hours and minutes of two
/// digits each, the seconds rounded to the nearest minute.
pub open spec fn offset_text(off: int) -> Seq<char> {
    let sign = if off < 0 {
        '-'
    } else {
        '+'
    };
    let a = if off < 0 {
        -off
    } else {
        off
    };
    let minutes = (a + 30) / 60;
    seq![sign] + int_padded(minutes / 60, 2) + seq![':'] + int_padded(minutes % 60, 2)
}

/// The second that `chrono` writes with `%S`: a leap second (a nanosecond count of a
/// second or more) shows as the sixtieth.
pub open spec fn shown_second(t: Timestamp) -> int {
    t.second + t.nanosecond / 1_000_000_000
}

/// How `chrono` writes a timestamp with `%Y-%m-%dT%H:%M:%S%:z`.
pub open spec fn timestamp_text(t: Timestamp) -> Seq<char> {
    iso_date_text(t.year as int, t.month as int, t.day as int) + seq!['T'] + int_padded(
        t.hour as int,
        2,
    ) + seq![':'] + int_padded(t.minute as int, 2) + seq![':'] + int_padded(shown_second(t), 2)
        + offset_text(t.offset_seconds as int)
}

/// The second that `chrono` writes with `%S`.
pub fn second_shown(t: Timestamp) -> (s: i64)
    requires
        t.second < 60,
        t.nanosecond < 2_000_000_000,
    ensures
        s == shown_second(t),
{
    (t.second + t.nanosecond / 1_000_000_000) as i64
}

/// How `chrono` writes the date of a timestamp with `%Y%m%d`.
pub open spec fn compact_date_text(y: int, m: int, d: int) -> Seq<char> {
    chrono_year_text(y) + int_padded(m, 2) + int_padded(d, 2)
}

/// Writes an offset from UTC as `+HH:MM` or `-HH:MM`.
pub fn format_offset(off: i32) -> (s: String)
    requires
        -86_400 < off < 86_400,
    ensures
        s@ == offset_text(off as int),
{
    let a: i32 = if off < 0 {
        -off
    } else {
        off
    };
    let minutes: i32 = (a + 30) / 60;
    let mut s = if off < 0 {
        String::from_str("-")
    } else {
        String::from_str("+")
    };
    let hh = format_int_padded((minutes / 60) as i64, 2);
    let mm = format_int_padded((minutes % 60) as i64, 2);
    append_str(&mut s, hh.as_str());
    append_str(&mut s, ":");
    append_str(&mut s, mm.as_str());
    proof {
        reveal_strlit("-");
        reveal_strlit("+");
        reveal_strlit(":");
        let sign = if off < 0 {
            '-'
        } else {
            '+'
        };
        assert(s@ =~= seq![sign] + int_padded((minutes / 60) as int, 2) + seq![':'] + int_padded(
            (minutes % 60) as int,
            2,
        ));
    }
    s
}

/// Writes a timestamp as `YYYY-MM-DDTHH:MM:SS+HH:MM`.
pub fn format_timestamp(t: Timestamp) -> (s: String)
    requires
        timestamp_valid(t),
    ensures
        s@ == timestamp_text(t),
{
    let mut s = format_iso_date(t.year, t.month, t.day);
    append_str(&mut s, "T");
    append_str(&mut s, format_int_padded(t.hour as i64, 2).as_str());
    append_str(&mut s, ":");
    append_str(&mut s, format_int_padded(t.minute as i64, 2).as_str());
    append_str(&mut s, ":");
    append_str(&mut s, format_int_padded(second_shown(t), 2).as_str());
    append_str(&mut s, format_offset(t.offset_seconds).as_str());
    proof {
        reveal_strlit("T");
        reveal_strlit(":");
        assert(s@ =~= timestamp_text(t));
    }
    s
}

/// Writes a year as `chrono` writes it with `%Y`.
pub fn format_year(y: i32) -> (s: String)
    ensures
        s@ == chrono_year_text(y as int),
{
    if 0 <= y && y <= 9999 {
        format_int_padded(y as i64, 4)
    } else {
        let mut s = if y < 0 {
            String::from_str("-")
        } else {
            String::from_str("+")
        };
        let mag: i64 = if y < 0 {
            -(y as i64)
        } else {
            y as i64
        };
        append_str(&mut s, format_int_padded(mag, 4).as_str());
        proof {
            reveal_strlit("-");
            reveal_strlit("+");
        }
        s
    }
}

/// Writes a date as `YYYYMMDD`, the form that names an entry.
pub fn format_compact_date(y: i32, m: u32, d: u32) -> (s: String)
    ensures
        s@ == compact_date_text(y as int, m as int, d as int),
{
    let mut s = format_year(y);
    append_str(&mut s, format_int_padded(m as i64, 2).as_str());
    append_str(&mut s, format_int_padded(d as i64, 2).as_str());
    s
}

/// A point in time as seconds and nanoseconds since the Unix epoch (UTC).
#[derive(Clone, Copy, Debug, PartialEq, Eq, Structural)]
pub struct Instant {
    pub secs: i64,
    pub nanos: u32,
}

/// `a` comes strictly before `b`.
pub open spec fn instant_before(a: Instant, b: Instant) -> bool {
    a.secs < b.secs || (a.secs == b.secs && a.nanos < b.nanos)
}

/// Whether `a` comes strictly before `b`.
pub fn is_before(a: Instant, b: Instant) -> (r: bool)
    ensures
        r == instant_before(a, b),
{
    a.secs < b.secs || (a.secs == b.secs && a.nanos < b.nanos)
}

/// The name of a day's entry reads back as that day: a date of a year from 0 to 9999,
/// written `YYYYMMDD`, is eight ASCII digits that spell the same year, month and day.
pub proof fn law_compact_date_reads_back(y: int, m: int, d: int)
    requires
        is_valid_date(y, m, d),
        0 <= y <= 9999,
    ensures
        compact_date_text(y, m, d).len() == 8,
        all_digits(compact_date_text(y, m, d)),
        digits_date(compact_date_text(y, m, d)) == (y, m, d),
{
    let s = compact_date_text(y, m, d);
    lemma_four_places_read(y);
    lemma_two_places_read(m);
    lemma_two_places_read(d);
    assert(s.subrange(0, 4) =~= int_padded(y, 4));
    assert(s.subrange(4, 6) =~= int_padded(m, 2));
    assert(s.subrange(6, 8) =~= int_padded(d, 2));
    assert forall|i: int| 0 <= i < s.len() implies crate::dates::is_digit(#[trigger] s[i]) by {
        if i < 4 {
            assert(s[i] == int_padded(y, 4)[i]);
        } else if i < 6 {
            assert(s[i] == int_padded(m, 2)[i - 4]);
        } else {
            assert(s[i] == int_padded(d, 2)[i - 6]);
        }
    }
}

/// Eight ASCII digits are the `YYYYMMDD` text of the year, month and day they spell.
pub proof fn law_digits_are_their_compact_date(s: Seq<char>)
    requires
        s.len() == 8,
        all_digits(s),
    ensures
        compact_date_text(digits_date(s).0, digits_date(s).1, digits_date(s).2) == s,
{
    let a = s.subrange(0, 4);
    let b = s.subrange(4, 6);
    let c = s.subrange(6, 8);
    assert(all_digits(a) && all_digits(b) && all_digits(c)) by {
        assert forall|i: int| 0 <= i < 4 implies crate::dates::is_digit(#[trigger] a[i]) by {
            assert(a[i] == s[i]);
        }
        assert forall|i: int| 0 <= i < 2 implies crate::dates::is_digit(#[trigger] b[i]) by {
            assert(b[i] == s[i + 4]);
        }
        assert forall|i: int| 0 <= i < 2 implies crate::dates::is_digit(#[trigger] c[i]) by {
            assert(c[i] == s[i + 6]);
        }
    }
    lemma_four_digits_round(a);
    lemma_two_digits_round(b);
    lemma_two_digits_round(c);
    assert(compact_date_text(digits_date(s).0, digits_date(s).1, digits_date(s).2) =~= a + b + c);
    assert(a + b + c =~= s);
}

} // verus!
