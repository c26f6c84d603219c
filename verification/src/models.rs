//! Entries as files with a front matter: an id, the UTC times of creation and of
//! the last change, and Markdown text; a one-line preview of an entry for lists.
use vstd::prelude::*;
use crate::cli::{text_lines, trim, trim_chars};
use crate::text::{append_str, chars_of, string_from_chars};
use crate::time::Instant;

verus! {

/// The width of a text on a terminal, as `unicode_width::UnicodeWidthStr::width`
/// gives it.
pub uninterp spec fn unicode_str_width(s: Seq<char>) -> usize;

/// The width of a character on a terminal, as `unicode_width::UnicodeWidthChar::width`
/// gives it (none for control characters).
pub uninterp spec fn unicode_char_width(c: char) -> Option<usize>;

/// The width of a text on a terminal (`UnicodeWidthStr::width`).  The contract names
/// the result, which depends on the text alone.
#[verifier::external_body]
fn str_width(s: &str) -> (w: usize)
    ensures
        w == unicode_str_width(s@),
{
    unicode_width::UnicodeWidthStr::width(s)
}

/// The width of a character on a terminal (`UnicodeWidthChar::width`).  The contract
/// names the result, which depends on the character alone.
#[verifier::external_body]
fn char_width(c: char) -> (w: Option<usize>)
    ensures
        w == unicode_char_width(c),
{
    unicode_width::UnicodeWidthChar::width(c)
}

/// What `chrono` writes for the UTC time `secs` seconds and `nanos` nanoseconds after
/// the epoch with `to_string()`, or none when `DateTime::from_timestamp` cannot hold it.
pub uninterp spec fn chrono_utc_text(secs: i64, nanos: u32) -> Option<Seq<char>>;

/// What `str::parse::<chrono::DateTime<Utc>>` reads from a text, as seconds and
/// nanoseconds after the epoch.
pub uninterp spec fn chrono_utc_parse(s: Seq<char>) -> Option<(i64, u32)>;

/// The current UTC time (`chrono::Utc::now()`) as seconds and nanoseconds after the
/// epoch.  The contract claims what holds of every value chrono gives: the nanoseconds
/// are below two seconds' worth, and chrono can write the time back.
#[verifier::external_body]
pub(crate) fn utc_now() -> (t: Instant)
    ensures
        t.nanos < 2_000_000_000,
        chrono_utc_text(t.secs, t.nanos) is Some,
{
    let now = chrono::Utc::now();
    Instant { secs: now.timestamp(), nanos: now.timestamp_subsec_nanos() }
}

/// Writes a UTC time as `chrono`'s `Display` does (`DateTime::from_timestamp`, then
/// `to_string()`); none when chrono cannot hold the time.  The contract names the
/// result, which depends on the two numbers alone, and claims one fact of its shape
/// that chrono's source shows: the text is `YYYY-MM-DD HH:MM:SS[.f] UTC` (a year outside
/// 0..=9999 with its sign), where a dash is never followed by another, so it holds no
/// `---`.
#[verifier::external_body]
fn utc_text(t: Instant) -> (s: Option<String>)
    ensures
        match s {
            Some(x) => chrono_utc_text(t.secs, t.nanos) == Some(x@) && !holds_marker(x@),
            None => chrono_utc_text(t.secs, t.nanos) is None,
        },
{
    chrono::DateTime::from_timestamp(t.secs, t.nanos).map(|d| d.to_string())
}

/// Reads a UTC time with `str::parse::<chrono::DateTime<Utc>>`.  The contract names
/// the result, which depends on the text alone.
#[verifier::external_body]
fn parse_utc(s: &str) -> (r: Option<Instant>)
    ensures
        match r {
            Some(t) => chrono_utc_parse(s@) == Some((t.secs, t.nanos)),
            None => chrono_utc_parse(s@) is None,
        },
{
    match s.parse::<chrono::DateTime<chrono::Utc>>() {
        Ok(d) => Some(Instant { secs: d.timestamp(), nanos: d.timestamp_subsec_nanos() }),
        Err(_) => None,
    }
}

/// What `serde_yaml::from_str::<serde_yaml::Value>` makes of a text, then the string
/// under `key` (none when the key is missing or not a string); an error when the text
/// is not YAML.
pub uninterp spec fn yaml_str_field(yaml: Seq<char>, key: Seq<char>) -> Result<Option<Seq<char>>, ()>;

/// Reads `yaml` with `serde_yaml` and gives the string under `key`.  The contract names
/// the result, which depends on the two texts alone.
#[verifier::external_body]
fn yaml_field(yaml: &str, key: &str) -> (r: Result<Option<String>, ()>)
    ensures
        match r {
            Ok(Some(v)) => yaml_str_field(yaml@, key@) == Ok::<Option<Seq<char>>, ()>(Some(v@)),
            Ok(None) => yaml_str_field(yaml@, key@) == Ok::<Option<Seq<char>>, ()>(None),
            Err(_) => yaml_str_field(yaml@, key@) is Err,
        },
{
    match serde_yaml::from_str::<serde_yaml::Value>(yaml) {
        Ok(v) => Ok(v[key].as_str().map(|x| x.to_string())),
        Err(_) => Err(()),
    }
}

/// An entry kept as a Markdown file with a front matter.
#[derive(Clone, Debug)]
pub struct Entry {
    /// The day of the entry, `YYYYMMDD`.
    pub id: String,
    pub created_at: Instant,
    pub updated_at: Instant,
    /// The Markdown text.
    pub content: String,
}

/// The width of a character counted for a preview: none counts as nothing.
pub open spec fn counted_width(c: char) -> int {
    match unicode_char_width(c) {
        Some(w) => w as int,
        None => 0,
    }
}

/// How many leading characters of `cs` fit, with `used` columns already taken, when
/// three more columns must stay free for `...` within sixty.
pub open spec fn fit_count(cs: Seq<char>, used: int) -> nat
    decreases cs.len(),
{
    if cs.len() == 0 {
        0
    } else if used + counted_width(cs[0]) + 3 > 60 {
        0
    } else {
        1 + fit_count(cs.drop_first(), used + counted_width(cs[0]))
    }
}

/// The first line of a text, or nothing for an empty text.
pub open spec fn first_line(s: Seq<char>) -> Seq<char> {
    if text_lines(s).len() > 0 {
        text_lines(s)[0]
    } else {
        Seq::empty()
    }
}

/// The preview of an entry's text: its first line trimmed, whole when it is at most
/// sixty columns wide, otherwise cut to what fits with `...` after it.
pub open spec fn preview_text(content: Seq<char>) -> Seq<char> {
    let line = trim(first_line(content));
    if unicode_str_width(line) <= 60 {
        line
    } else {
        line.take(fit_count(line, 0) as int) + "..."@
    }
}

/// The columns that the characters `cs` take, as counted for a preview.
pub open spec fn counted_total(cs: Seq<char>) -> int
    decreases cs.len(),
{
    if cs.len() == 0 {
        0
    } else {
        counted_width(cs[0]) + counted_total(cs.drop_first())
    }
}

/// The characters kept with `used` columns taken leave room for `...` within sixty.
pub proof fn lemma_fit_count_fits(cs: Seq<char>, used: int)
    requires
        used + 3 <= 60,
    ensures
        fit_count(cs, used) <= cs.len(),
        used + counted_total(cs.take(fit_count(cs, used) as int)) + 3 <= 60,
    decreases cs.len(),
{
    if cs.len() > 0 && used + counted_width(cs[0]) + 3 <= 60 {
        let w = counted_width(cs[0]);
        lemma_fit_count_fits(cs.drop_first(), used + w);
        let k = fit_count(cs.drop_first(), used + w) as int;
        assert(cs.take(k + 1).drop_first() =~= cs.drop_first().take(k));
        assert(cs.take(k + 1)[0] == cs[0]);
    } else {
        assert(cs.take(0) =~= Seq::<char>::empty());
    }
}

/// A cut preview takes at most sixty columns, `...` included, as its characters
/// are counted.
pub proof fn law_cut_preview_fits(content: Seq<char>)
    ensures
        ({
            let line = trim(first_line(content));
            counted_total(line.take(fit_count(line, 0) as int)) + 3 <= 60
        }),
{
    lemma_fit_count_fits(trim(first_line(content)), 0);
}

/// What `chrono` writes for the UTC time `secs` seconds and `nanos` nanoseconds after
/// the epoch with `to_rfc3339()`, or none when `DateTime::from_timestamp` cannot hold it.
pub uninterp spec fn chrono_rfc3339(secs: i64, nanos: u32) -> Option<Seq<char>>;

/// Writes a UTC time with `DateTime::from_timestamp`, then `to_rfc3339()`; none when
/// chrono cannot hold the time.  The contract names the result, which depends on the
/// two numbers alone.
#[verifier::external_body]
fn rfc3339_text(t: Instant) -> (s: Option<String>)
    ensures
        match s {
            Some(x) => chrono_rfc3339(t.secs, t.nanos) == Some(x@),
            None => chrono_rfc3339(t.secs, t.nanos) is None,
        },
{
    chrono::DateTime::from_timestamp(t.secs, t.nanos).map(|d| d.to_rfc3339())
}

/// How an entry is shown: its id, its times in RFC 3339, a rule, and its text.
pub open spec fn shown_text(id: Seq<char>, created: Seq<char>, updated: Seq<char>, content: Seq<char>) -> Seq<char> {
    "Id: "@ + id + "\nCreated: "@ + created + "\nUpdated: "@ + updated + "\n---\n\n"@ + content
}

/// The text that shows an entry; an error when `chrono` cannot write one of its times.
pub fn display_text(entry: &Entry) -> (r: Result<String, ()>)
    ensures
        match (
            chrono_rfc3339(entry.created_at.secs, entry.created_at.nanos),
            chrono_rfc3339(entry.updated_at.secs, entry.updated_at.nanos),
        ) {
            (Some(c), Some(u)) => r matches Ok(s) && s@ == shown_text(entry.id@, c, u, entry.content@),
            _ => r is Err,
        },
{
    let created = match rfc3339_text(entry.created_at) {
        Some(c) => c,
        None => return Err(()),
    };
    let updated = match rfc3339_text(entry.updated_at) {
        Some(u) => u,
        None => return Err(()),
    };
    let mut s = String::from_str("Id: ");
    append_str(&mut s, entry.id.as_str());
    append_str(&mut s, "\nCreated: ");
    append_str(&mut s, created.as_str());
    append_str(&mut s, "\nUpdated: ");
    append_str(&mut s, updated.as_str());
    append_str(&mut s, "\n---\n\n");
    append_str(&mut s, entry.content.as_str());
    Ok(s)
}

/// The front matter file of an entry, given the texts of its times.
pub open spec fn entry_file_text(
    id: Seq<char>,
    created: Seq<char>,
    updated: Seq<char>,
    content: Seq<char>,
) -> Seq<char> {
    "---\nid: "@ + id + "\ncreated_at: "@ + created + "\nupdated_at: "@ + updated + "\n---\n\n"@
        + content
}

impl Entry {
    /// A new entry with `id` and `content`, created and changed now.
    pub fn new(id: String, content: String) -> (e: Entry)
        ensures
            e.id@ == id@,
            e.content@ == content@,
            e.created_at == e.updated_at,
            chrono_utc_text(e.created_at.secs, e.created_at.nanos) is Some,
    {
        let now = utc_now();
        Entry { id, created_at: now, updated_at: now, content }
    }

    /// Replaces the text; the time of the last change is now.
    pub fn update_content(&mut self, content: String)
        ensures
            final(self).content@ == content@,
            final(self).id == old(self).id,
            final(self).created_at == old(self).created_at,
            chrono_utc_text(final(self).updated_at.secs, final(self).updated_at.nanos) is Some,
    {
        self.content = content;
        self.updated_at = utc_now();
    }

    /// A one-line preview of the text, at most sixty columns wide.
    pub fn preview(&self) -> (p: String)
        ensures
            p@ == preview_text(self.content@),
    {
        let all = chars_of(self.content.as_str());
        let lines = crate::cli::lines_of(&all);
        let first: Vec<char> = if lines.len() > 0 {
            lines[0].clone()
        } else {
            Vec::new()
        };
        proof {
            if lines@.len() > 0 {
                assert(lines@.map_values(|l: Vec<char>| l@)[0] == lines@[0]@);
            }
            assert(first@ == first_line(self.content@));
        }
        let line = trim_chars(&first);
        let text = string_from_chars(&line);
        if str_width(text.as_str()) <= 60 {
            return text;
        }
        let n = line.len();
        let mut used: usize = 0;
        let mut k: usize = 0;
        let mut full = false;
        proof {
            assert(line@.skip(0) =~= line@);
        }
        while k < n && !full
            invariant
                n == line@.len(),
                k <= n,
                used <= 57,
                fit_count(line@, 0) == k + fit_count(line@.skip(k as int), used as int),
                full ==> fit_count(line@.skip(k as int), used as int) == 0,
            decreases n - k, (if full { 0int } else { 1int }),
        {
            let w = match char_width(line[k]) {
                Some(w) => w,
                None => 0,
            };
            proof {
                assert(line@.skip(k as int)[0] == line@[k as int]);
                assert(line@.skip(k as int).drop_first() =~= line@.skip(k + 1));
                assert(w as int == counted_width(line@[k as int]));
            }
            if w > 57 - used {
                full = true;
            } else {
                used = used + w;
                k = k + 1;
            }
        }
        proof {
            if k == n {
                assert(line@.skip(k as int) =~= Seq::<char>::empty());
            }
        }
        let mut out: Vec<char> = Vec::new();
        let mut i: usize = 0;
        while i < k
            invariant
                k <= line@.len(),
                i <= k,
                out@ == line@.take(i as int),
            decreases k - i,
        {
            out.push(line[i]);
            proof {
                assert(line@.take(i + 1) =~= line@.take(i as int).push(line@[i as int]));
            }
            i = i + 1;
        }
        let mut p = string_from_chars(&out);
        append_str(&mut p, "...");
        p
    }
}

/// The id, the times and the text of an entry, as a file with a front matter; an
/// error when `chrono` cannot write one of the times.
pub fn serialize_entry(entry: &Entry) -> (r: Result<String, ()>)
    ensures
        match (
            chrono_utc_text(entry.created_at.secs, entry.created_at.nanos),
            chrono_utc_text(entry.updated_at.secs, entry.updated_at.nanos),
        ) {
            (Some(c), Some(u)) => {
                &&& r matches Ok(s) && s@ == entry_file_text(entry.id@, c, u, entry.content@)
                &&& !holds_marker(c) && !holds_marker(u)
                &&& !holds_marker(entry.id@) && !holds_marker(entry.content@) ==> (r matches Ok(
                    s,
                ) && frontmatter_parts(s@) == Some(
                    (
                        "\nid: "@ + entry.id@ + "\ncreated_at: "@ + c + "\nupdated_at: "@ + u
                            + "\n"@,
                        crate::cli::trim_start(entry.content@),
                    ),
                ))
            },
            _ => r is Err,
        },
{
    let created = match utc_text(entry.created_at) {
        Some(c) => c,
        None => return Err(()),
    };
    let updated = match utc_text(entry.updated_at) {
        Some(u) => u,
        None => return Err(()),
    };
    let mut s = String::from_str("---\nid: ");
    append_str(&mut s, entry.id.as_str());
    append_str(&mut s, "\ncreated_at: ");
    append_str(&mut s, created.as_str());
    append_str(&mut s, "\nupdated_at: ");
    append_str(&mut s, updated.as_str());
    append_str(&mut s, "\n---\n\n");
    append_str(&mut s, entry.content.as_str());
    proof {
        reveal_strlit("---\nid: ");
        reveal_strlit("\ncreated_at: ");
        reveal_strlit("\nupdated_at: ");
        reveal_strlit("\n---\n\n");
        assert(s@ =~= entry_file_text(entry.id@, created@, updated@, entry.content@));
        if !holds_marker(entry.id@) && !holds_marker(entry.content@) {
            law_frontmatter_roundtrip(entry.id@, created@, updated@, entry.content@);
        }
    }
    Ok(s)
}

/// The first place at or after `from` where `pat` occurs in `s`, or -1.
pub open spec fn find_from(s: Seq<char>, pat: Seq<char>, from: int) -> int
    decreases s.len() - from,
{
    if from < 0 || from + pat.len() > s.len() {
        -1
    } else if pat.len() == 0 || s.subrange(from, from + pat.len()) == pat {
        from
    } else {
        find_from(s, pat, from + 1)
    }
}

/// Where `find_from` finds the pattern, it is there; it is at or after the start.
pub proof fn lemma_find_from(s: Seq<char>, pat: Seq<char>, from: int)
    requires
        from >= 0,
    ensures
        find_from(s, pat, from) == -1 || (from <= find_from(s, pat, from) && find_from(s, pat, from)
            + pat.len() <= s.len()),
    decreases s.len() - from,
{
    if from + pat.len() <= s.len() && pat.len() > 0 && s.subrange(from, from + pat.len()) != pat {
        lemma_find_from(s, pat, from + 1);
    }
}

/// The front matter and the text of a file that starts with `---` and a line break,
/// as `str::split("---")` cuts them: the text between the first two marks, and the
/// text after the second mark up to the next one, with its leading whitespace removed.
pub open spec fn frontmatter_parts(content: Seq<char>) -> Option<(Seq<char>, Seq<char>)> {
    let b = find_from(content, "---"@, 3);
    let c = find_from(content, "---"@, b + 3);
    if content.len() >= 4 && content.take(4) == "---\n"@ && b >= 0 {
        Some(
            (
                content.subrange(3, b),
                crate::cli::trim_start(
                    if c == -1 {
                        content.skip(b + 3)
                    } else {
                        content.subrange(b + 3, c)
                    },
                ),
            ),
        )
    } else {
        None
    }
}

/// Finds `pat` in `s` at or after `from`.
pub(crate) fn find_chars(s: &Vec<char>, pat: &Vec<char>, from: usize) -> (r: Option<usize>)
    ensures
        match r {
            Some(i) => find_from(s@, pat@, from as int) == i as int,
            None => find_from(s@, pat@, from as int) == -1,
        },
{
    let n = s.len();
    let m = pat.len();
    if m == 0 {
        if from <= n {
            return Some(from);
        }
        return None;
    }
    let mut i: usize = from;
    while m <= n && i <= n - m
        invariant
            n == s@.len(),
            m == pat@.len(),
            m > 0,
            from <= i,
            find_from(s@, pat@, from as int) == find_from(s@, pat@, i as int),
        decreases n - i,
    {
        let mut k: usize = 0;
        let mut same = true;
        while k < m
            invariant
                n == s@.len(),
                m == pat@.len(),
                i + m <= n,
                k <= m,
                same == (forall|j: int| 0 <= j < k ==> s@[i + j] == pat@[j]),
            decreases m - k,
        {
            if s[i + k] != pat[k] {
                same = false;
            }
            k = k + 1;
        }
        if same {
            proof {
                assert(s@.subrange(i as int, i + m) =~= pat@);
            }
            return Some(i);
        }
        proof {
            let j = choose|j: int| 0 <= j < m && s@[i + j] != pat@[j];
            assert(s@.subrange(i as int, i + m)[j] != pat@[j]);
        }
        i = i + 1;
    }
    None
}

/// The characters of `v` from `a` up to `b`.
fn slice_chars(v: &Vec<char>, a: usize, b: usize) -> (r: Vec<char>)
    requires
        a <= b <= v@.len(),
    ensures
        r@ == v@.subrange(a as int, b as int),
{
    let mut r: Vec<char> = Vec::new();
    let mut i: usize = a;
    while i < b
        invariant
            a <= i <= b <= v@.len(),
            r@ == v@.subrange(a as int, i as int),
        decreases b - i,
    {
        r.push(v[i]);
        proof {
            assert(v@.subrange(a as int, i + 1) =~= v@.subrange(a as int, i as int).push(v@[i as int]));
        }
        i = i + 1;
    }
    r
}

/// Cuts a file into its front matter and its text.
pub fn split_frontmatter(content: &str) -> (r: Option<(String, String)>)
    ensures
        match r {
            Some((y, b)) => frontmatter_parts(content@) == Some((y@, b@)),
            None => frontmatter_parts(content@) is None,
        },
{
    let v = chars_of(content);
    let dashes = chars_of("---");
    proof {
        reveal_strlit("---");
        reveal_strlit("---\n");
    }
    let n = v.len();
    if n < 4 || !(v[0] == '-' && v[1] == '-' && v[2] == '-' && v[3] == '\n') {
        proof {
            if n >= 4 {
                assert(v@.take(4)[0] == v@[0]);
                assert(v@.take(4)[1] == v@[1]);
                assert(v@.take(4)[2] == v@[2]);
                assert(v@.take(4)[3] == v@[3]);
            }
        }
        return None;
    }
    proof {
        assert(v@.take(4) =~= "---\n"@);
    }
    let b = match find_chars(&v, &dashes, 3) {
        Some(b) => b,
        None => return None,
    };
    proof {
        lemma_find_from(v@, dashes@, 3);
        lemma_find_from(v@, dashes@, b + 3);
    }
    let yaml = slice_chars(&v, 3, b);
    let raw = match find_chars(&v, &dashes, b + 3) {
        Some(c) => slice_chars(&v, b + 3, c),
        None => slice_chars(&v, b + 3, n),
    };
    proof {
        assert(v@.subrange(b + 3, n as int) =~= v@.skip(b + 3));
    }
    let body = crate::cli::trim_start_chars(&raw);
    Some((string_from_chars(&yaml), string_from_chars(&body)))
}

/// Whether `s` holds the front matter mark `---` anywhere.
pub open spec fn holds_marker(s: Seq<char>) -> bool {
    exists|i: int| 0 <= i && i + 3 <= s.len() && #[trigger] s.subrange(i, i + 3) == "---"@
}

/// Three dashes start at `i` in `s`.
pub open spec fn dashes_at(s: Seq<char>, i: int) -> bool {
    s[i] == '-' && s[i + 1] == '-' && s[i + 2] == '-'
}

/// No three dashes start at or after `k` in `s`.
pub open spec fn no_dashes_from(s: Seq<char>, k: int) -> bool {
    forall|i: int| k <= i && i + 3 <= s.len() ==> !#[trigger] dashes_at(s, i)
}

proof fn lemma_window(s: Seq<char>, i: int)
    requires
        0 <= i,
        i + 3 <= s.len(),
    ensures
        (s.subrange(i, i + 3) == "---"@) <==> dashes_at(s, i),
{
    reveal_strlit("---");
    if dashes_at(s, i) {
        assert(s.subrange(i, i + 3) =~= "---"@);
    }
    if s.subrange(i, i + 3) == "---"@ {
        assert(s.subrange(i, i + 3)[0] == s[i]);
        assert(s.subrange(i, i + 3)[1] == s[i + 1]);
        assert(s.subrange(i, i + 3)[2] == s[i + 2]);
    }
}

proof fn lemma_no_marker(s: Seq<char>)
    requires
        !holds_marker(s),
    ensures
        no_dashes_from(s, 0),
{
    assert forall|i: int| 0 <= i && i + 3 <= s.len() implies !#[trigger] dashes_at(s, i) by {
        lemma_window(s, i);
    }
}

/// Gluing `b` after `a` makes no new run of three dashes when a character next to the
/// seam is not a dash.
proof fn lemma_no_dashes_concat(a: Seq<char>, b: Seq<char>, k: int)
    requires
        0 <= k <= a.len(),
        no_dashes_from(a, k),
        no_dashes_from(b, 0),
        (a.len() > 0 && a.last() != '-') || (b.len() > 0 && b[0] != '-'),
    ensures
        no_dashes_from(a + b, k),
{
    let s = a + b;
    assert forall|i: int| k <= i && i + 3 <= s.len() implies !#[trigger] dashes_at(s, i) by {
        if i + 3 <= a.len() {
            assert(dashes_at(s, i) ==> dashes_at(a, i));
        } else if i >= a.len() {
            assert(dashes_at(s, i) ==> dashes_at(b, i - a.len()));
        } else if a.len() > 0 && a.last() != '-' {
            assert(s[a.len() - 1] == a.last());
        } else {
            assert(s[a.len() as int] == b[0]);
        }
    }
}

/// Where three dashes first start at `at`, the search from `from` finds them there.
proof fn lemma_find_marker_at(s: Seq<char>, from: int, at: int)
    requires
        0 <= from <= at,
        at + 3 <= s.len(),
        dashes_at(s, at),
        forall|i: int| from <= i < at ==> !#[trigger] dashes_at(s, i),
    ensures
        find_from(s, "---"@, from) == at,
    decreases at - from,
{
    reveal_strlit("---");
    lemma_window(s, from);
    if from < at {
        lemma_find_marker_at(s, from + 1, at);
    }
}

/// With no three dashes at or after `from`, the search finds nothing.
proof fn lemma_find_no_marker(s: Seq<char>, from: int)
    requires
        0 <= from,
        no_dashes_from(s, from),
    ensures
        find_from(s, "---"@, from) == -1,
    decreases s.len() - from,
{
    reveal_strlit("---");
    if from + 3 <= s.len() {
        lemma_window(s, from);
        lemma_find_no_marker(s, from + 1);
    }
}

/// Leading line breaks go with the rest of the leading whitespace.
proof fn lemma_trim_two_breaks(x: Seq<char>)
    ensures
        crate::cli::trim_start("\n\n"@ + x) == crate::cli::trim_start(x),
{
    reveal_strlit("\n\n");
    let s = "\n\n"@ + x;
    assert(s.drop_first() =~= seq!['\n'] + x);
    assert((seq!['\n'] + x).drop_first() =~= x);
    assert(crate::cli::is_space(s[0]));
    assert(crate::cli::is_space((seq!['\n'] + x)[0]));
    assert(crate::cli::trim_start(s) == crate::cli::trim_start(seq!['\n'] + x));
    assert(crate::cli::trim_start(seq!['\n'] + x) == crate::cli::trim_start(x));
}

/// A written entry file reads back: its front matter is the lines of the id and the two
/// times, and its text is the entry's text without its leading whitespace (the text
/// itself when it does not start with whitespace), as long as none of these holds `---`.
pub proof fn law_frontmatter_roundtrip(
    id: Seq<char>,
    created: Seq<char>,
    updated: Seq<char>,
    content: Seq<char>,
)
    requires
        !holds_marker(id),
        !holds_marker(created),
        !holds_marker(updated),
        !holds_marker(content),
    ensures
        frontmatter_parts(entry_file_text(id, created, updated, content)) == Some(
            (
                "\nid: "@ + id + "\ncreated_at: "@ + created + "\nupdated_at: "@ + updated
                    + "\n"@,
                crate::cli::trim_start(content),
            ),
        ),
        content.len() == 0 || !crate::cli::is_space(content[0]) ==> crate::cli::trim_start(content)
            == content,
{
    reveal_strlit("---\nid: ");
    reveal_strlit("\ncreated_at: ");
    reveal_strlit("\nupdated_at: ");
    reveal_strlit("\n---\n\n");
    reveal_strlit("---\n");
    reveal_strlit("\nid: ");
    reveal_strlit("\n");
    reveal_strlit("\n---");
    reveal_strlit("\n\n");
    lemma_no_marker(id);
    lemma_no_marker(created);
    lemma_no_marker(updated);
    lemma_no_marker(content);
    let l1 = "---\nid: "@;
    let l2 = "\ncreated_at: "@;
    let l3 = "\nupdated_at: "@;
    assert(no_dashes_from(l1, 3));
    assert(no_dashes_from(l2, 0));
    assert(no_dashes_from(l3, 0));
    lemma_no_dashes_concat(l1, id, 3);
    lemma_no_dashes_concat(l1 + id, l2, 3);
    lemma_no_dashes_concat(l1 + id + l2, created, 3);
    lemma_no_dashes_concat(l1 + id + l2 + created, l3, 3);
    lemma_no_dashes_concat(l1 + id + l2 + created + l3, updated, 3);
    let p = l1 + id + l2 + created + l3 + updated;
    let n = p.len() as int;
    assert(p.last() == ' ' || updated.len() > 0);
    assert(no_dashes_from(p, 3));
    let f = entry_file_text(id, created, updated, content);
    assert(f =~= p + "\n---\n\n"@ + content);
    let tail = "\n\n"@ + content;
    lemma_no_dashes_concat("\n\n"@, content, 0);
    assert(f =~= (p + "\n---"@) + tail);
    assert(f[n] == '\n');
    assert forall|i: int| 3 <= i < n + 1 implies !#[trigger] dashes_at(f, i) by {
        if i + 3 <= n {
            assert(dashes_at(f, i) ==> dashes_at(p, i));
        }
    }
    assert(dashes_at(f, n + 1));
    lemma_find_marker_at(f, 3, n + 1);
    assert(no_dashes_from(f, n + 4)) by {
        assert forall|i: int| n + 4 <= i && i + 3 <= f.len() implies !#[trigger] dashes_at(f, i) by {
            assert(dashes_at(f, i) ==> dashes_at(tail, i - (n + 4)));
        }
    }
    lemma_find_no_marker(f, n + 4);
    assert(f.take(4) =~= "---\n"@);
    assert(f.subrange(3, n + 1) =~= "\nid: "@ + id + "\ncreated_at: "@ + created
        + "\nupdated_at: "@ + updated + "\n"@);
    assert(f.skip(n + 4) =~= tail);
    lemma_trim_two_breaks(content);
}

/// Why a file could not be read as an entry.
#[derive(Clone, Copy, Debug, PartialEq, Eq, Structural)]
pub enum EntryFileError {
    /// The front matter is not YAML.
    FrontmatterNotYaml,
}

/// The time written under `key` in the front matter `yaml`, when it is there and reads
/// as a UTC time.
pub open spec fn frontmatter_time(yaml: Seq<char>, key: Seq<char>) -> Option<(i64, u32)> {
    match yaml_str_field(yaml, key) {
        Ok(Some(t)) => chrono_utc_parse(t),
        _ => None,
    }
}

/// The time under `key` in the front matter, or `now`.
fn time_field(yaml: &str, key: &str, now: Instant) -> (r: Result<Instant, EntryFileError>)
    ensures
        yaml_str_field(yaml@, key@) is Err <==> r is Err,
        r matches Ok(t) ==> match frontmatter_time(yaml@, key@) {
            Some((s, ns)) => t.secs == s && t.nanos == ns,
            None => t == now,
        },
{
    match yaml_field(yaml, key) {
        Err(_) => Err(EntryFileError::FrontmatterNotYaml),
        Ok(None) => Ok(now),
        Ok(Some(text)) => match parse_utc(text.as_str()) {
            Some(t) => Ok(t),
            None => Ok(now),
        },
    }
}

/// Reads the file of entry `id`: with a front matter, its times (or now, for a time
/// that is missing or unreadable) and the text after it; without one, the whole file
/// as text, created and changed now.
pub fn deserialize_entry(id: &str, content: &str) -> (r: Result<Entry, EntryFileError>)
    ensures
        match frontmatter_parts(content@) {
            None => r matches Ok(e) && e.id@ == id@ && e.content@ == content@ && e.created_at
                == e.updated_at,
            Some((y, b)) => {
                &&& (yaml_str_field(y, "created_at"@) is Err || yaml_str_field(y, "updated_at"@) is Err)
                    <==> r is Err
                &&& r matches Ok(e) ==> {
                    &&& e.id@ == id@
                    &&& e.content@ == b
                    &&& frontmatter_time(y, "created_at"@) matches Some((s, ns)) ==> e.created_at.secs
                        == s && e.created_at.nanos == ns
                    &&& frontmatter_time(y, "updated_at"@) matches Some((s, ns)) ==> e.updated_at.secs
                        == s && e.updated_at.nanos == ns
                    &&& frontmatter_time(y, "created_at"@) is None && frontmatter_time(
                        y,
                        "updated_at"@,
                    ) is None ==> e.created_at == e.updated_at
                }
            },
        },
{
    let now = utc_now();
    match split_frontmatter(content) {
        Some((yaml, body)) => {
            let created_at = match time_field(yaml.as_str(), "created_at", now) {
                Ok(t) => t,
                Err(e) => return Err(e),
            };
            let updated_at = match time_field(yaml.as_str(), "updated_at", now) {
                Ok(t) => t,
                Err(e) => return Err(e),
            };
            Ok(Entry { id: String::from_str(id), created_at, updated_at, content: body })
        },
        None => Ok(
            Entry {
                id: String::from_str(id),
                created_at: now,
                updated_at: now,
                content: String::from_str(content),
            },
        ),
    }
}

/// The line of an entry in a list: its id, two spaces, and its preview.
pub fn list_line(id: &str, preview: &str) -> (l: String)
    ensures
        l@ == id@ + "  "@ + preview@,
{
    let mut l = String::from_str(id);
    append_str(&mut l, "  ");
    append_str(&mut l, preview);
    l
}

/// The preview shown in a list for an entry that could not be read.
pub fn unreadable_preview() -> (p: &'static str)
    ensures
        p@ == "(error reading entry)"@,
{
    "(error reading entry)"
}

} // verus!
