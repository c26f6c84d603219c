//! Entries by calendar day, and where each one is kept under a base directory:
//! `<base>/<year>/<MM>/<YYYYMMDD>.md`.
use vstd::prelude::*;
use crate::text::{append_str, int_padded};
use crate::time::{compact_date_text, format_compact_date};

verus! {

/// A day of the calendar.
#[derive(Clone, Copy, Debug, PartialEq, Eq, Structural)]
pub struct Date {
    pub year: i32,
    pub month: u32,
    pub day: u32,
}


/// `a` is an earlier day than `b`.
pub open spec fn date_lt(a: Date, b: Date) -> bool {
    ||| a.year < b.year
    ||| a.year == b.year && a.month < b.month
    ||| a.year == b.year && a.month == b.month && a.day < b.day
}

/// Whether `a` is an earlier day than `b`.
pub fn date_before(a: Date, b: Date) -> (r: bool)
    ensures
        r == date_lt(a, b),
{
    a.year < b.year || (a.year == b.year && a.month < b.month) || (a.year == b.year && a.month
        == b.month && a.day < b.day)
}

/// Of two different days, one is earlier.
pub proof fn lemma_date_lt_total(a: Date, b: Date)
    ensures
        a != b ==> date_lt(a, b) || date_lt(b, a),
        !(date_lt(a, b) && date_lt(b, a)),
        !date_lt(a, a),
{
}

/// The entry of one day: its date and its text.
#[derive(Clone, Debug)]
pub struct Entry {
    pub date: Date,
    pub content: String,
}

impl View for Entry {
    type V = (Date, Seq<char>);

    open spec fn view(&self) -> (Date, Seq<char>) {
        (self.date, self.content@)
    }
}

impl Entry {
    /// An empty entry for `date`.
    pub fn new(date: Date) -> (e: Entry)
        ensures
            e@ == (date, Seq::<char>::empty()),
    {
        Entry { date, content: String::new() }
    }

    /// The entry for `date` with the text `content`.
    pub fn with_content(date: Date, content: String) -> (e: Entry)
        ensures
            e@ == (date, content@),
    {
        Entry { date, content }
    }
}

/// `base` joined with a relative part, as `Path::join` joins them on Unix.
pub open spec fn path_join(base: Seq<char>, part: Seq<char>) -> Seq<char> {
    if base.len() == 0 {
        part
    } else if base.last() == '/' {
        base + part
    } else {
        base + seq!['/'] + part
    }
}

/// Joins a relative part to a path with one separator between them.
pub fn join_path(base: &str, part: &str) -> (p: String)
    ensures
        p@ == path_join(base@, part@),
{
    let mut p = String::from_str(base);
    let v = crate::text::chars_of(base);
    if v.len() > 0 && v[v.len() - 1] != '/' {
        append_str(&mut p, "/");
    }
    append_str(&mut p, part);
    proof {
        reveal_strlit("/");
    }
    p
}

/// The file of the entry of `d` under `base`.
pub open spec fn entry_file_path(base: Seq<char>, d: Date) -> Seq<char> {
    let year_dir = path_join(base, crate::text::int_text(d.year as int));
    let month_dir = path_join(year_dir, int_padded(d.month as int, 2));
    path_join(month_dir, compact_date_text(d.year as int, d.month as int, d.day as int) + ".md"@)
}

/// Entries kept as files under a base directory.
pub struct Storage {
    base_dir: String,
}

impl Storage {
    /// The base directory.
    pub closed spec fn base(&self) -> Seq<char> {
        self.base_dir@
    }

    /// Storage under `base_dir`.
    pub fn new(base_dir: String) -> (s: Storage)
        ensures
            s.base() == base_dir@,
    {
        Storage { base_dir }
    }

    /// The base directory, which holds a directory per year.
    pub fn get_base_dir(&self) -> (p: &str)
        ensures
            p@ == self.base(),
    {
        self.base_dir.as_str()
    }

    /// The file of the entry of `date`: `<base>/<year>/<MM>/<YYYYMMDD>.md`.
    pub fn generate_file_path(&self, date: &Date) -> (p: String)
        ensures
            p@ == entry_file_path(self.base(), *date),
    {
        let year = crate::text::format_int(date.year as i64);
        let year_dir = join_path(self.base_dir.as_str(), year.as_str());
        let month = crate::text::format_int_padded(date.month as i64, 2);
        let month_dir = join_path(year_dir.as_str(), month.as_str());
        let mut name = format_compact_date(date.year, date.month, date.day);
        append_str(&mut name, ".md");
        join_path(month_dir.as_str(), name.as_str())
    }
}

} // verus!
