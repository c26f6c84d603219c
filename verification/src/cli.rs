//! The command line: its commands, the template shown in the editor, how the
//! edited text is cleaned, how an entry id is checked and how an entry is shown.
use vstd::prelude::*;
use crate::dates::{chrono_parse_ymd, format_iso_date, iso_date_text};
use crate::entry::{Entry, StateView};
use crate::annotations::strings_view;
use crate::text::{
    append_str, chars_of, format_int_padded, int_padded, join_strings, join_with, split_lines,
    string_from_chars,
};
use crate::time::{format_timestamp, timestamp_text, timestamp_valid, Timestamp};

verus! {

/// The command given on the command line.
pub enum Commands {
    /// Create a new entry, from an inline message or the editor, for today or a given
    /// id (`YYYYMMDD`).
    New { message: Option<String>, id: Option<String> },
    /// Edit an existing entry.
    Edit { id: String },
    /// Show an entry.
    Show { id: String },
}

/// The configuration subcommands.
pub enum ConfigSubcommand {
    /// Set the base path of the journal.
    Path,
    /// Configure a cloud sync provider.
    Sync { provider: String },
    /// Open the configuration file in an editor.
    Edit,
    /// Show the configuration.
    Show,
    /// Reset the configuration to its defaults.
    Reset,
}

/// What the configuration command reports for a subcommand.
pub open spec fn config_command_text(sub: Option<ConfigSubcommand>) -> Seq<char> {
    match sub {
        None => "Configure devlog interactively"@,
        Some(ConfigSubcommand::Path) => "Configure path"@,
        Some(ConfigSubcommand::Sync { provider }) => "Configure sync provider: "@ + provider@,
        Some(ConfigSubcommand::Edit) => "Configure edit"@,
        Some(ConfigSubcommand::Show) => "Current configuration"@,
        Some(ConfigSubcommand::Reset) => "Reset to default settings"@,
    }
}

/// What the configuration command reports for a subcommand.
pub fn config_command_message(sub: &Option<ConfigSubcommand>) -> (m: String)
    ensures
        m@ == config_command_text(*sub),
{
    match sub {
        None => String::from_str("Configure devlog interactively"),
        Some(ConfigSubcommand::Path) => String::from_str("Configure path"),
        Some(ConfigSubcommand::Sync { provider }) => {
            let mut m = String::from_str("Configure sync provider: ");
            append_str(&mut m, provider.as_str());
            m
        },
        Some(ConfigSubcommand::Edit) => String::from_str("Configure edit"),
        Some(ConfigSubcommand::Show) => String::from_str("Current configuration"),
        Some(ConfigSubcommand::Reset) => String::from_str("Reset to default settings"),
    }
}

/// The sync subcommands.
#[derive(Clone, Copy, Debug, PartialEq, Eq, Structural)]
pub enum SyncCommands {
    /// Write a sync configuration.
    Init,
    /// Send local changes to the remote copy.
    Push,
    /// Fetch remote changes.
    Pull,
    /// Push, then pull.
    Sync,
    /// Show the sync settings.
    Status,
}

/// The parsed command line.
pub struct Cli {
    pub command: Commands,
}

/// A character that `char::is_whitespace` accepts (Unicode `White_Space`).
pub open spec fn is_space(c: char) -> bool {
    let u = c as u32;
    ||| 0x09 <= u <= 0x0d
    ||| u == 0x20
    ||| u == 0x85
    ||| u == 0xa0
    ||| u == 0x1680
    ||| 0x2000 <= u <= 0x200a
    ||| u == 0x2028
    ||| u == 0x2029
    ||| u == 0x202f
    ||| u == 0x205f
    ||| u == 0x3000
}

/// Whether `char::is_whitespace` accepts `c`.
pub fn char_is_space(c: char) -> (r: bool)
    ensures
        r == is_space(c),
{
    let u = c as u32;
    (0x09 <= u && u <= 0x0d) || u == 0x20 || u == 0x85 || u == 0xa0 || u == 0x1680 || (0x2000
        <= u && u <= 0x200a) || u == 0x2028 || u == 0x2029 || u == 0x202f || u == 0x205f || u
        == 0x3000
}

/// `s` without its leading whitespace.
pub open spec fn trim_start(s: Seq<char>) -> Seq<char>
    decreases s.len(),
{
    if s.len() > 0 && is_space(s[0]) {
        trim_start(s.drop_first())
    } else {
        s
    }
}

/// `s` without its trailing whitespace.
pub open spec fn trim_end(s: Seq<char>) -> Seq<char>
    decreases s.len(),
{
    if s.len() > 0 && is_space(s.last()) {
        trim_end(s.drop_last())
    } else {
        s
    }
}

/// `s` without whitespace at either end (`str::trim`).
pub open spec fn trim(s: Seq<char>) -> Seq<char> {
    trim_end(trim_start(s))
}

/// The characters `v` without whitespace at either end.
pub(crate) fn trim_chars(v: &Vec<char>) -> (r: Vec<char>)
    ensures
        r@ == trim(v@),
{
    let n = v.len();
    let mut i: usize = 0;
    proof {
        assert(v@.skip(0) =~= v@);
    }
    while i < n && char_is_space(v[i])
        invariant
            n == v@.len(),
            i <= n,
            trim_start(v@) == trim_start(v@.skip(i as int)),
        decreases n - i,
    {
        proof {
            assert(v@.skip(i as int).drop_first() =~= v@.skip(i + 1));
        }
        i = i + 1;
    }
    let ghost rest = v@.skip(i as int);
    let mut j: usize = n;
    proof {
        assert(rest.take(rest.len() as int) =~= rest);
    }
    while j > i && char_is_space(v[j - 1])
        invariant
            n == v@.len(),
            i <= j <= n,
            rest == v@.skip(i as int),
            trim_end(rest) == trim_end(rest.take(j - i)),
        decreases j,
    {
        proof {
            assert(rest.take(j - i).drop_last() =~= rest.take(j - i - 1));
            assert(rest.take(j - i).last() == v@[j - 1]);
        }
        j = j - 1;
    }
    let mut r: Vec<char> = Vec::new();
    let mut k: usize = i;
    while k < j
        invariant
            n == v@.len(),
            i <= k <= j <= n,
            r@ == v@.subrange(i as int, k as int),
        decreases j - k,
    {
        r.push(v[k]);
        proof {
            assert(v@.subrange(i as int, k + 1) =~= v@.subrange(i as int, k as int).push(v@[k as int]));
        }
        k = k + 1;
    }
    proof {
        assert(r@ =~= rest.take(j - i));
        if j > i {
            assert(rest.take(j - i).last() == v@[j - 1]);
        }
        assert(trim_start(v@) == rest);
    }
    r
}

/// The characters `v` without their leading whitespace.
pub(crate) fn trim_start_chars(v: &Vec<char>) -> (r: Vec<char>)
    ensures
        r@ == trim_start(v@),
{
    let n = v.len();
    let mut i: usize = 0;
    proof {
        assert(v@.skip(0) =~= v@);
    }
    while i < n && char_is_space(v[i])
        invariant
            n == v@.len(),
            i <= n,
            trim_start(v@) == trim_start(v@.skip(i as int)),
        decreases n - i,
    {
        proof {
            assert(v@.skip(i as int).drop_first() =~= v@.skip(i + 1));
        }
        i = i + 1;
    }
    let mut r: Vec<char> = Vec::new();
    let mut k: usize = i;
    while k < n
        invariant
            n == v@.len(),
            i <= k <= n,
            r@ == v@.subrange(i as int, k as int),
        decreases n - k,
    {
        r.push(v[k]);
        proof {
            assert(v@.subrange(i as int, k + 1) =~= v@.subrange(i as int, k as int).push(v@[k as int]));
        }
        k = k + 1;
    }
    proof {
        assert(r@ =~= v@.skip(i as int));
    }
    r
}

/// The text `s` without whitespace at either end.
pub fn trim_str(s: &str) -> (r: String)
    ensures
        r@ == trim(s@),
{
    let v = chars_of(s);
    let t = trim_chars(&v);
    string_from_chars(&t)
}

/// The lines of a text as `str::lines` yields them: split at `'\n'`, a `'\r'` before
/// the `'\n'` dropped too, and no empty line after a final line break.
pub open spec fn text_lines(s: Seq<char>) -> Seq<Seq<char>> {
    let ps = split_lines(s);
    let n = if ps.last().len() == 0 {
        ps.len() - 1
    } else {
        ps.len() as int
    };
    Seq::new(
        n as nat,
        |i: int|
            if i < ps.len() - 1 && ps[i].len() > 0 && ps[i].last() == '\r' {
                ps[i].drop_last()
            } else {
                ps[i]
            },
    )
}

/// The lines of `ls` that are not comments: whose trimmed text does not start with `#`.
pub open spec fn uncommented(ls: Seq<Seq<char>>) -> Seq<Seq<char>>
    decreases ls.len(),
{
    if ls.len() == 0 {
        Seq::empty()
    } else {
        let prev = uncommented(ls.drop_last());
        let t = trim(ls.last());
        if t.len() > 0 && t[0] == '#' {
            prev
        } else {
            prev.push(ls.last())
        }
    }
}

/// No line kept from the edited text is a comment.
pub proof fn law_kept_lines_are_not_comments(ls: Seq<Seq<char>>)
    ensures
        forall|i: int|
            0 <= i < uncommented(ls).len() ==> !(trim(#[trigger] uncommented(ls)[i]).len() > 0
                && trim(uncommented(ls)[i])[0] == '#'),
    decreases ls.len(),
{
    if ls.len() > 0 {
        let prev = uncommented(ls.drop_last());
        law_kept_lines_are_not_comments(ls.drop_last());
        assert forall|i: int| 0 <= i < uncommented(ls).len() implies !(trim(
            #[trigger] uncommented(ls)[i],
        ).len() > 0 && trim(uncommented(ls)[i])[0] == '#') by {
            if i < prev.len() {
                assert(uncommented(ls)[i] == prev[i]);
            }
        }
    }
}

/// The edited text without its comment lines, joined again, without whitespace at
/// either end.
pub open spec fn cleaned(content: Seq<char>) -> Seq<char> {
    trim(join_with(uncommented(text_lines(content)), seq!['\n']))
}

/// The template written below the text in the editor.
pub open spec fn template_text() -> Seq<char> {
    "\n\n# Enter your journal entry above this line\n# Lines starting with # are comments and will be ignored\n# You can use annotations:\n#   @person    - to mention people\n#   ::project  - to reference projects  \n#   +tag       - to add tags\n#\n# Save and exit to create the entry (:wq in vim)\n# Exit without saving to cancel (ZQ in vim or Ctrl+C)\n"@
}

/// Why an id was refused.
#[derive(Clone, Debug, PartialEq, Eq)]
pub enum IdError {
    /// `chrono` could not read the id as a date written `YYYYMMDD`; its message.
    InvalidDate(String),
}

impl IdError {
    /// The message shown for the error.
    pub fn message(&self) -> (m: String)
        ensures
            self matches IdError::InvalidDate(t) ==> m@ == t@,
    {
        match self {
            IdError::InvalidDate(t) => t.clone(),
        }
    }
}

impl Cli {
    /// The template written below the text in the editor: how comments and
    /// annotations work.
    pub fn get_template() -> (t: String)
        ensures
            t@ == template_text(),
    {
        String::from_str(
            "\n\n# Enter your journal entry above this line\n# Lines starting with # are comments and will be ignored\n# You can use annotations:\n#   @person    - to mention people\n#   ::project  - to reference projects  \n#   +tag       - to add tags\n#\n# Save and exit to create the entry (:wq in vim)\n# Exit without saving to cancel (ZQ in vim or Ctrl+C)\n",
        )
    }

    /// The text shown for an entry's content: the content itself.
    pub fn highlight_annotations(content: &str) -> (r: String)
        ensures
            r@ == content@,
    {
        String::from_str(content)
    }

    /// Accepts an id that `chrono` reads as a date written `YYYYMMDD`; refuses any
    /// other with `chrono`'s parse error.
    pub fn validate_id_format(id: &str) -> (r: Result<(), IdError>)
        ensures
            r is Ok <==> chrono_parse_ymd(id@) is Some,
            r matches Err(IdError::InvalidDate(m)) ==> crate::dates::is_chrono_parse_message(m@),
            id@.len() == 8 && crate::dates::all_digits(id@) ==> (r is Ok
                <==> crate::dates::is_valid_date(
                crate::dates::digits_date(id@).0,
                crate::dates::digits_date(id@).1,
                crate::dates::digits_date(id@).2,
            )),
    {
        match crate::dates::chrono_parse_date(id) {
            Ok(_) => Ok(()),
            Err(e) => Err(IdError::InvalidDate(crate::dates::parse_error_text(&e))),
        }
    }

    /// The text put in the editor: the existing content, if any, and a line break
    /// before the template.
    pub fn editor_initial_text(existing: Option<&str>) -> (t: String)
        ensures
            t@ == match existing {
                Some(c) => c@ + seq!['\n'] + template_text(),
                None => template_text(),
            },
    {
        match existing {
            Some(c) => {
                let mut t = String::from_str(c);
                append_str(&mut t, "\n");
                append_str(&mut t, Cli::get_template().as_str());
                proof {
                    reveal_strlit("\n");
                }
                t
            },
            None => Cli::get_template(),
        }
    }

    /// The edited text without its comment lines and without whitespace at either end.
    pub fn clean_content(content: String) -> (r: String)
        ensures
            r@ == cleaned(content@),
    {
        let v = chars_of(content.as_str());
        let lines = lines_of(&v);
        let mut kept: Vec<String> = Vec::new();
        let n = lines.len();
        let mut i: usize = 0;
        proof {
            assert(lines@.take(0) =~= Seq::<Vec<char>>::empty());
            assert(strings_view(kept@) =~= uncommented(Seq::<Seq<char>>::empty()));
        }
        while i < n
            invariant
                n == lines@.len(),
                i <= n,
                lines@.map_values(|l: Vec<char>| l@) == text_lines(content@),
                strings_view(kept@) == uncommented(text_lines(content@).take(i as int)),
            decreases n - i,
        {
            let t = trim_chars(&lines[i]);
            let ghost pre = text_lines(content@).take(i + 1);
            proof {
                assert(pre.drop_last() =~= text_lines(content@).take(i as int));
                assert(pre.last() == lines@[i as int]@);
            }
            if !(t.len() > 0 && t[0] == '#') {
                let ghost before = kept@;
                kept.push(string_from_chars(&lines[i]));
                proof {
                    assert(strings_view(kept@) =~= strings_view(before).push(lines@[i as int]@));
                }
            }
            i = i + 1;
        }
        proof {
            assert(text_lines(content@).take(n as int) =~= text_lines(content@));
            assert(kept@.map_values(|x: String| x@) =~= strings_view(kept@));
        }
        let joined = join_strings(&kept, "\n");
        proof {
            reveal_strlit("\n");
            assert("\n"@ =~= seq!['\n']);
        }
        trim_str(joined.as_str())
    }

    /// Whether a text holds nothing but whitespace.
    pub fn is_blank(content: &str) -> (r: bool)
        ensures
            r == (trim(content@).len() == 0),
    {
        let t = trim_str(content);
        t.as_str().is_empty()
    }

    /// The lines that show an entry: its id, its times, its annotations when it has
    /// any, and its content.
    pub fn display_lines(entry: &Entry) -> (ls: Vec<String>)
        requires
            entry.wf(),
        ensures
            strings_view(ls@) == display_text(entry@.state),
    {
        proof {
            entry.lemma_wf_replay();
            crate::entry::lemma_replay_times_valid(
                crate::entry::empty_state(entry.start()),
                entry@.events,
            );
        }
        let state = entry.current_state();
        let mut ls: Vec<String> = Vec::new();
        let mut l = String::from_str("Entry: ");
        append_str(&mut l, state.id.as_str());
        ls.push(l);
        let mut l = String::from_str("Created: ");
        append_str(&mut l, format_plain_time(state.created_at).as_str());
        ls.push(l);
        let mut l = String::from_str("Updated: ");
        append_str(&mut l, format_plain_time(state.updated_at).as_str());
        ls.push(l);
        ls.push(String::new());
        let ghost head = strings_view(ls@);
        let has_people = state.people.len() > 0;
        let has_projects = state.projects.len() > 0;
        let has_tags = state.tags.len() > 0;
        if has_people || has_projects || has_tags {
            ls.push(String::from_str("Metadata:"));
            if has_people {
                let mut l = String::from_str("  People: ");
                append_str(&mut l, join_strings(&state.people, ", ").as_str());
                ls.push(l);
            }
            if has_projects {
                let mut l = String::from_str("  Projects: ");
                append_str(&mut l, join_strings(&state.projects, ", ").as_str());
                ls.push(l);
            }
            if has_tags {
                let mut l = String::from_str("  Tags: ");
                append_str(&mut l, join_strings(&state.tags, ", ").as_str());
                ls.push(l);
            }
            ls.push(String::new());
        }
        ls.push(String::from_str("Content:"));
        ls.push(Cli::highlight_annotations(state.content.as_str()));
        proof {
            reveal_strlit("Entry: ");
            reveal_strlit("Created: ");
            reveal_strlit("Updated: ");
            reveal_strlit("Metadata:");
            reveal_strlit("  People: ");
            reveal_strlit("  Projects: ");
            reveal_strlit("  Tags: ");
            reveal_strlit("Content:");
            reveal_strlit(", ");
            assert(", "@ =~= seq![',', ' ']);
            let st = entry@.state;
            assert(state.people@.map_values(|x: String| x@) =~= st.people);
            assert(state.projects@.map_values(|x: String| x@) =~= st.projects);
            assert(state.tags@.map_values(|x: String| x@) =~= st.tags);
            assert(strings_view(ls@) =~= display_text(st));
        }
        ls
    }
}

/// How `chrono` writes a timestamp with `%Y-%m-%d %H:%M:%S`.
pub open spec fn plain_time_text(t: Timestamp) -> Seq<char> {
    iso_date_text(t.year as int, t.month as int, t.day as int) + seq![' '] + int_padded(
        t.hour as int,
        2,
    ) + seq![':'] + int_padded(t.minute as int, 2) + seq![':'] + int_padded(
        crate::time::shown_second(t),
        2,
    )
}

/// Writes a timestamp as `YYYY-MM-DD HH:MM:SS`.
fn format_plain_time(t: Timestamp) -> (s: String)
    requires
        timestamp_valid(t),
    ensures
        s@ == plain_time_text(t),
{
    let mut s = format_iso_date(t.year, t.month, t.day);
    append_str(&mut s, " ");
    append_str(&mut s, format_int_padded(t.hour as i64, 2).as_str());
    append_str(&mut s, ":");
    append_str(&mut s, format_int_padded(t.minute as i64, 2).as_str());
    append_str(&mut s, ":");
    append_str(&mut s, format_int_padded(crate::time::second_shown(t), 2).as_str());
    proof {
        reveal_strlit(" ");
        reveal_strlit(":");
        assert(s@ =~= plain_time_text(t));
    }
    s
}

/// The lines that show an entry's state.
pub open spec fn display_text(st: StateView) -> Seq<Seq<char>> {
    let head = seq![
        "Entry: "@ + st.id,
        "Created: "@ + plain_time_text(st.created_at),
        "Updated: "@ + plain_time_text(st.updated_at),
        Seq::<char>::empty(),
    ];
    let meta = if st.people.len() > 0 || st.projects.len() > 0 || st.tags.len() > 0 {
        seq!["Metadata:"@] + (if st.people.len() > 0 {
            seq!["  People: "@ + join_with(st.people, seq![',', ' '])]
        } else {
            Seq::empty()
        }) + (if st.projects.len() > 0 {
            seq!["  Projects: "@ + join_with(st.projects, seq![',', ' '])]
        } else {
            Seq::empty()
        }) + (if st.tags.len() > 0 {
            seq!["  Tags: "@ + join_with(st.tags, seq![',', ' '])]
        } else {
            Seq::empty()
        }) + seq![Seq::<char>::empty()]
    } else {
        Seq::empty()
    };
    head + meta + seq!["Content:"@, st.content]
}

/// The lines of a text, as `str::lines` yields them.
pub(crate) fn lines_of(v: &Vec<char>) -> (ls: Vec<Vec<char>>)
    ensures
        ls@.map_values(|l: Vec<char>| l@) == text_lines(v@),
{
    let ps = crate::text::split_lines_vec(v);
    proof {
        crate::text::lemma_split_lines_shape(v@);
    }
    let n = ps.len();
    let last_empty = ps[n - 1].len() == 0;
    let m = if last_empty {
        n - 1
    } else {
        n
    };
    let mut ls: Vec<Vec<char>> = Vec::new();
    let mut i: usize = 0;
    while i < m
        invariant
            n == ps@.len(),
            n >= 1,
            m <= n,
            m == (if ps@[n - 1]@.len() == 0 {
                n - 1
            } else {
                n as int
            }),
            crate::text::lines_view(ps@) == split_lines(v@),
            i <= m,
            ls@.len() == i,
            forall|k: int|
                0 <= k < i ==> (#[trigger] ls@[k])@ == text_lines(v@)[k],
        decreases m - i,
    {
        let p = &ps[i];
        let strip = i < n - 1 && p.len() > 0 && p[p.len() - 1] == '\r';
        let mut line: Vec<char> = Vec::new();
        let stop = if strip {
            p.len() - 1
        } else {
            p.len()
        };
        let mut k: usize = 0;
        while k < stop
            invariant
                stop <= p@.len(),
                k <= stop,
                line@ == p@.take(k as int),
            decreases stop - k,
        {
            line.push(p[k]);
            proof {
                assert(p@.take(k + 1) =~= p@.take(k as int).push(p@[k as int]));
            }
            k = k + 1;
        }
        proof {
            assert(crate::text::lines_view(ps@)[i as int] == ps@[i as int]@);
            if strip {
                assert(line@ =~= p@.drop_last());
            } else {
                assert(line@ =~= p@);
            }
        }
        ls.push(line);
        i = i + 1;
    }
    proof {
        assert(crate::text::lines_view(ps@)[n - 1] == ps@[n - 1]@);
        assert(ls@.map_values(|l: Vec<char>| l@) =~= text_lines(v@));
    }
    ls
}


/// The comment lines of the editor template, in order.
pub open spec fn template_lines() -> Seq<Seq<char>> {
    seq![
        "# Enter your journal entry above this line"@,
        "# Lines starting with # are comments and will be ignored"@,
        "# You can use annotations:"@,
        "#   @person    - to mention people"@,
        "#   ::project  - to reference projects  "@,
        "#   +tag       - to add tags"@,
        "#"@,
        "# Save and exit to create the entry (:wq in vim)"@,
        "# Exit without saving to cancel (ZQ in vim or Ctrl+C)"@
    ]
}

/// A line is a comment: its trimmed text starts with `#`.
pub open spec fn is_comment(l: Seq<char>) -> bool {
    trim(l).len() > 0 && trim(l)[0] == '#'
}

/// Every character of `s` is whitespace.
pub open spec fn all_space(s: Seq<char>) -> bool {
    forall|i: int| 0 <= i < s.len() ==> is_space(#[trigger] s[i])
}

/// A line without the carriage return that ends it, if one does.
pub open spec fn strip_cr(p: Seq<char>) -> Seq<char> {
    if p.len() > 0 && p.last() == '\r' {
        p.drop_last()
    } else {
        p
    }
}

/// Splitting at a line break splits each side on its own.
proof fn lemma_split_concat(a: Seq<char>, b: Seq<char>)
    ensures
        split_lines(a + seq!['\n'] + b) == split_lines(a) + split_lines(b),
    decreases b.len(),
{
    let w = seq!['\n'];
    if b.len() == 0 {
        assert(a + w + b =~= a + w);
        assert((a + w).drop_last() =~= a);
    } else {
        let b1 = b.drop_last();
        lemma_split_concat(a, b1);
        assert((a + w + b).drop_last() =~= a + w + b1);
        assert((a + w + b).last() == b.last());
        let pa = split_lines(a);
        let pb = split_lines(b1);
        lemma_split_nonempty(b1);
        if b.last() == '\n' {
            assert((pa + pb).push(Seq::<char>::empty()) =~= pa + pb.push(Seq::<char>::empty()));
        } else {
            assert((pa + pb).update((pa + pb).len() - 1, (pa + pb).last().push(b.last())) =~= pa
                + pb.update(pb.len() - 1, pb.last().push(b.last())));
        }
    }
}

/// A text always splits into at least one line.
proof fn lemma_split_nonempty(s: Seq<char>)
    ensures
        split_lines(s).len() >= 1,
    decreases s.len(),
{
    if s.len() > 0 {
        lemma_split_nonempty(s.drop_last());
    }
}

/// A text without line breaks is one line.
proof fn lemma_split_plain(l: Seq<char>)
    requires
        crate::text::no_newline(l),
    ensures
        split_lines(l) == seq![l],
    decreases l.len(),
{
    if l.len() > 0 {
        let l1 = l.drop_last();
        assert(crate::text::no_newline(l1)) by {
            assert forall|i: int| 0 <= i < l1.len() implies l1[i] != '\n' by {
                assert(l1[i] == l[i]);
            }
        }
        lemma_split_plain(l1);
        assert(l[l.len() - 1] != '\n');
        assert(l1.push(l.last()) =~= l);
        assert(seq![l1].update(0, l1.push(l.last())) =~= seq![l]);
    } else {
        assert(l =~= Seq::<char>::empty());
    }
}

/// The lines of `ls` from the `k`-th on, each followed by a line break.
pub open spec fn nested_lines(ls: Seq<Seq<char>>, k: int) -> Seq<char>
    decreases ls.len() - k,
{
    if k < 0 || k >= ls.len() {
        Seq::empty()
    } else {
        ls[k] + seq!['\n'] + nested_lines(ls, k + 1)
    }
}

/// Lines without line breaks, each followed by one, split back into those lines and
/// a last empty one.
proof fn lemma_split_nested(ls: Seq<Seq<char>>, k: int)
    requires
        0 <= k <= ls.len(),
        forall|i: int| 0 <= i < ls.len() ==> crate::text::no_newline(#[trigger] ls[i]),
    ensures
        split_lines(nested_lines(ls, k)) == ls.subrange(k, ls.len() as int) + seq![Seq::<char>::empty()],
    decreases ls.len() - k,
{
    if k == ls.len() {
        assert(ls.subrange(k, ls.len() as int) =~= Seq::<Seq<char>>::empty());
        assert(split_lines(Seq::<char>::empty()) =~= seq![Seq::<char>::empty()]);
    } else {
        lemma_split_nested(ls, k + 1);
        lemma_split_plain(ls[k]);
        lemma_split_concat(ls[k], nested_lines(ls, k + 1));
        assert(ls.subrange(k, ls.len() as int) =~= seq![ls[k]] + ls.subrange(k + 1, ls.len() as int));
    }
}

/// The editor template is two empty lines, its comment lines, and a final line break.
proof fn lemma_template_split()
    ensures
        split_lines(template_text()) == seq![Seq::<char>::empty(), Seq::<char>::empty()] + template_lines()
            + seq![Seq::<char>::empty()],
        forall|i: int| 0 <= i < template_lines().len() ==> {
            let l = #[trigger] template_lines()[i];
            &&& l.len() > 0
            &&& l[0] == '#'
            &&& l.last() != '\r'
        },
{
    reveal_strlit("# Enter your journal entry above this line");
    reveal_strlit("# Lines starting with # are comments and will be ignored");
    reveal_strlit("# You can use annotations:");
    reveal_strlit("#   @person    - to mention people");
    reveal_strlit("#   ::project  - to reference projects  ");
    reveal_strlit("#   +tag       - to add tags");
    reveal_strlit("#");
    reveal_strlit("# Save and exit to create the entry (:wq in vim)");
    reveal_strlit("# Exit without saving to cancel (ZQ in vim or Ctrl+C)");
    reveal_strlit("\n\n# Enter your journal entry above this line\n# Lines starting with # are comments and will be ignored\n# You can use annotations:\n#   @person    - to mention people\n#   ::project  - to reference projects  \n#   +tag       - to add tags\n#\n# Save and exit to create the entry (:wq in vim)\n# Exit without saving to cancel (ZQ in vim or Ctrl+C)\n");
    let ls = template_lines();
    let e = Seq::<char>::empty();
    assert forall|i: int| 0 <= i < ls.len() implies crate::text::no_newline(#[trigger] ls[i]) by {}
    reveal_with_fuel(nested_lines, 10);
    assert(template_text() =~= e + seq!['\n'] + (e + seq!['\n'] + nested_lines(ls, 0)));
    lemma_split_nested(ls, 0);
    assert(ls.subrange(0, ls.len() as int) =~= ls);
    lemma_split_concat(e, nested_lines(ls, 0));
    lemma_split_concat(e, e + seq!['\n'] + nested_lines(ls, 0));
    assert(split_lines(template_text()) =~= seq![e, e] + ls + seq![e]);
}


/// Trailing whitespace goes with the rest of the trailing whitespace.
proof fn lemma_trim_end_spaces(x: Seq<char>, b: Seq<char>)
    requires
        all_space(b),
    ensures
        trim_end(x + b) == trim_end(x),
    decreases b.len(),
{
    if b.len() == 0 {
        assert(x + b =~= x);
    } else {
        let b1 = b.drop_last();
        assert(all_space(b1)) by {
            assert forall|i: int| 0 <= i < b1.len() implies is_space(#[trigger] b1[i]) by {
                assert(b1[i] == b[i]);
            }
        }
        assert((x + b).drop_last() =~= x + b1);
        assert(is_space(b[b.len() - 1]));
        lemma_trim_end_spaces(x, b1);
    }
}

/// Leading whitespace of `a + b`: that of `a`, and when `a` is all whitespace, that of `b`.
proof fn lemma_trim_start_concat(a: Seq<char>, b: Seq<char>)
    ensures
        trim_start(a + b) == (if trim_start(a).len() > 0 {
            trim_start(a) + b
        } else {
            trim_start(b)
        }),
    decreases a.len(),
{
    if a.len() == 0 {
        assert(a + b =~= b);
    } else if is_space(a[0]) {
        assert((a + b).drop_first() =~= a.drop_first() + b);
        assert((a + b)[0] == a[0]);
        lemma_trim_start_concat(a.drop_first(), b);
    } else {
        assert((a + b)[0] == a[0]);
    }
}

/// A text of whitespace trims to nothing at its start.
proof fn lemma_trim_start_spaces(b: Seq<char>)
    requires
        all_space(b),
    ensures
        trim_start(b) == Seq::<char>::empty(),
    decreases b.len(),
{
    if b.len() > 0 {
        let b1 = b.drop_first();
        assert(all_space(b1)) by {
            assert forall|i: int| 0 <= i < b1.len() implies is_space(#[trigger] b1[i]) by {
                assert(b1[i] == b[i + 1]);
            }
        }
        assert(is_space(b[0]));
        lemma_trim_start_spaces(b1);
    } else {
        assert(b =~= Seq::<char>::empty());
    }
}

/// Whitespace added at the end changes nothing once trimmed.
proof fn lemma_trim_suffix(a: Seq<char>, b: Seq<char>)
    requires
        all_space(b),
    ensures
        trim(a + b) == trim(a),
{
    lemma_trim_start_concat(a, b);
    if trim_start(a).len() > 0 {
        lemma_trim_end_spaces(trim_start(a), b);
    } else {
        lemma_trim_start_spaces(b);
    }
}

/// A text that does not start with whitespace keeps its first character at the end trim.
proof fn lemma_trim_end_first(s: Seq<char>)
    requires
        s.len() > 0,
        !is_space(s[0]),
    ensures
        trim_end(s).len() > 0,
        trim_end(s)[0] == s[0],
    decreases s.len(),
{
    if is_space(s.last()) {
        assert(s.len() > 1);
        assert(s.drop_last()[0] == s[0]);
        lemma_trim_end_first(s.drop_last());
    }
}

/// A line whose first character is `#` is a comment.
proof fn lemma_hash_line_is_comment(l: Seq<char>)
    requires
        l.len() > 0,
        l[0] == '#',
    ensures
        is_comment(l),
{
    assert(!is_space('#'));
    assert(trim_start(l) == l);
    lemma_trim_end_first(l);
}

/// Dropping comments line by line from two lists one after the other.
proof fn lemma_uncommented_concat(a: Seq<Seq<char>>, b: Seq<Seq<char>>)
    ensures
        uncommented(a + b) == uncommented(a) + uncommented(b),
    decreases b.len(),
{
    if b.len() == 0 {
        assert(a + b =~= a);
        assert(uncommented(a) + uncommented(b) =~= uncommented(a));
    } else {
        let b1 = b.drop_last();
        assert((a + b).drop_last() =~= a + b1);
        assert((a + b).last() == b.last());
        lemma_uncommented_concat(a, b1);
        assert((uncommented(a) + uncommented(b1)).push(b.last()) =~= uncommented(a) + uncommented(
            b1,
        ).push(b.last()));
    }
}

/// Comment lines all go.
proof fn lemma_uncommented_comments(ls: Seq<Seq<char>>)
    requires
        forall|i: int| 0 <= i < ls.len() ==> is_comment(#[trigger] ls[i]),
    ensures
        uncommented(ls) == Seq::<Seq<char>>::empty(),
    decreases ls.len(),
{
    if ls.len() > 0 {
        assert(is_comment(ls[ls.len() - 1]));
        lemma_uncommented_comments(ls.drop_last());
    }
}

/// Empty lines added at the end of joined lines change nothing once trimmed.
proof fn lemma_join_blank(x: Seq<Seq<char>>, bl: Seq<Seq<char>>)
    requires
        forall|i: int| 0 <= i < bl.len() ==> (#[trigger] bl[i]).len() == 0,
    ensures
        trim(join_with(x + bl, seq!['\n'])) == trim(join_with(x, seq!['\n'])),
    decreases bl.len(),
{
    let w = seq!['\n'];
    if bl.len() == 0 {
        assert(x + bl =~= x);
    } else {
        let b1 = bl.drop_last();
        let xb = x + b1;
        assert((x + bl).drop_last() =~= xb);
        assert((x + bl).last() == bl.last());
        assert(bl.last() =~= Seq::<char>::empty());
        lemma_join_blank(x, b1);
        if xb.len() == 0 {
            assert(x.len() == 0);
            assert(join_with(x + bl, w) =~= Seq::<char>::empty());
        } else {
            assert(join_with(x + bl, w) == join_with(xb, w) + w + bl.last());
            assert(w + bl.last() =~= w);
            assert(join_with(xb, w) + w + bl.last() =~= join_with(xb, w) + w);
            assert(all_space(w)) by {
                assert(is_space('\n'));
            }
            lemma_trim_suffix(join_with(xb, w), w);
        }
    }
}

/// A carriage return at the end of the last joined line changes nothing once trimmed.
proof fn lemma_join_cr(x: Seq<Seq<char>>, y: Seq<char>)
    ensures
        trim(join_with(x.push(y + seq!['\r']), seq!['\n'])) == trim(join_with(x.push(y), seq!['\n'])),
{
    let w = seq!['\n'];
    let r = seq!['\r'];
    assert(x.push(y + r).drop_last() =~= x);
    assert(x.push(y).drop_last() =~= x);
    if x.len() == 0 {
        assert(join_with(x.push(y + r), w) == y + r);
        assert(join_with(x.push(y), w) == y);
    } else {
        assert(join_with(x.push(y + r), w) =~= join_with(x.push(y), w) + r);
    }
    assert(all_space(r)) by {
        assert(is_space('\r'));
    }
    lemma_trim_suffix(join_with(x.push(y), w), r);
}

/// Cleaning a text with the editor template written below it (`text`, a line break,
/// the template) gives what cleaning the text alone gives: the template only adds
/// comment lines and empty ones.
pub proof fn law_template_is_ignored(c: Seq<char>)
    ensures
        cleaned(c + seq!['\n'] + template_text()) == cleaned(c),
{
    let w = seq!['\n'];
    let e = Seq::<char>::empty();
    let full = c + w + template_text();
    lemma_split_concat(c, template_text());
    lemma_template_split();
    lemma_split_nonempty(c);
    let pc = split_lines(c);
    let k = pc.len() as int;
    let tl = template_lines();
    let q = seq![e, e] + tl;
    let ps = pc + (seq![e, e] + tl + seq![e]);
    assert(split_lines(full) == ps);
    let st = Seq::new(k as nat, |i: int| strip_cr(pc[i]));
    assert(text_lines(full) =~= st + q) by {
        assert(ps.last() == e);
        assert forall|i: int| 0 <= i < ps.len() - 1 implies (#[trigger] text_lines(full)[i]) == (st
            + q)[i] by {
            if i >= k {
                let j = i - k;
                if j >= 2 {
                    assert(tl[j - 2].last() != '\r');
                }
            }
        }
    }
    let last = pc[k - 1];
    let sl = strip_cr(last);
    let front = st.take(k - 1);
    assert(st =~= front + seq![sl]);
    let tail: Seq<Seq<char>> = if last.len() == 0 {
        Seq::empty()
    } else {
        seq![last]
    };
    assert(text_lines(c) =~= front + tail) by {
        assert forall|i: int| 0 <= i < text_lines(c).len() implies (#[trigger] text_lines(c)[i])
            == (front + tail)[i] by {}
    }
    lemma_uncommented_concat(front + seq![sl], q);
    lemma_uncommented_concat(front, seq![sl]);
    lemma_uncommented_concat(front, tail);
    lemma_uncommented_concat(seq![e, e], tl);
    assert forall|i: int| 0 <= i < tl.len() implies is_comment(#[trigger] tl[i]) by {
        lemma_hash_line_is_comment(tl[i]);
    }
    lemma_uncommented_comments(tl);
    assert(uncommented(seq![e, e]) =~= seq![e, e]) by {
        reveal_with_fuel(uncommented, 3);
        assert(seq![e, e].drop_last() =~= seq![e]);
        assert(seq![e].drop_last() =~= Seq::<Seq<char>>::empty());
        assert(trim_start(e) == e);
        assert(trim_end(e) == e);
        assert(trim(e).len() == 0);
        assert(uncommented(seq![e]) =~= seq![e]);
    }
    assert(uncommented(q) =~= seq![e, e]);
    let a = uncommented(front);
    let bl = seq![e, e];
    assert(forall|i: int| 0 <= i < bl.len() ==> (#[trigger] bl[i]).len() == 0);
    // the comment status of the last line does not depend on its carriage return
    if last.len() > 0 && last.last() == '\r' {
        assert(sl + seq!['\r'] =~= last);
        assert(all_space(seq!['\r'])) by {
            assert(is_space('\r'));
        }
        lemma_trim_suffix(sl, seq!['\r']);
    } else {
        assert(sl == last);
    }
    assert(trim(sl) == trim(last));
    let us = uncommented(seq![sl]);
    assert(seq![sl].drop_last() =~= Seq::<Seq<char>>::empty());
    assert(seq![last].drop_last() =~= Seq::<Seq<char>>::empty());
    if is_comment(last) {
        assert(us =~= Seq::<Seq<char>>::empty());
        assert(last.len() > 0);
        assert(uncommented(tail) =~= Seq::<Seq<char>>::empty());
        assert(uncommented(text_lines(full)) =~= a + bl);
        assert(uncommented(text_lines(c)) =~= a);
        lemma_join_blank(a, bl);
    } else if last.len() == 0 {
        assert(sl =~= e);
        assert(us =~= seq![e]);
        assert(uncommented(tail) =~= Seq::<Seq<char>>::empty());
        assert(uncommented(text_lines(full)) =~= a + seq![e, e, e]);
        assert(uncommented(text_lines(c)) =~= a);
        let b3 = seq![e, e, e];
        assert(forall|i: int| 0 <= i < b3.len() ==> (#[trigger] b3[i]).len() == 0);
        lemma_join_blank(a, b3);
    } else {
        assert(us =~= seq![sl]);
        assert(uncommented(tail) =~= seq![last]);
        assert(uncommented(text_lines(full)) =~= a.push(sl) + bl);
        assert(uncommented(text_lines(c)) =~= a.push(last));
        lemma_join_blank(a.push(sl), bl);
        if last.last() == '\r' {
            lemma_join_cr(a, sl);
        }
    }
}

} // verus!
