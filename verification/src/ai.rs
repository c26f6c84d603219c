//! Asking questions about the journal: which files are read, the context built from
//! them, the settings, and what each line typed at the prompt means.
use vstd::prelude::*;
use crate::annotations::strings_view;
use crate::cli::{trim, trim_str};
use crate::config::{ascii_eq_ignore_case, eq_ignore_ascii_case};
use crate::storage::opt_view;
use crate::text::{append_str, byte_len, chars_of, decimal, format_usize, seq_lt, str_lt, utf8_len};

verus! {

/// The settings for questions: an API key and a model, each optional.
#[derive(Clone, Debug)]
pub struct AiConfig {
    pub openai_api_key: Option<String>,
    pub model: Option<String>,
}

impl AiConfig {
    /// No key and no model.
    pub fn default() -> (c: AiConfig)
        ensures
            c.openai_api_key is None,
            c.model is None,
    {
        AiConfig { openai_api_key: None, model: None }
    }
}

/// The model used when none is configured.
pub open spec fn default_model() -> Seq<char> {
    "gpt-4o-mini"@
}

/// The model to ask: the configured one, or the default.
pub fn choose_model(model: Option<String>) -> (m: String)
    ensures
        m@ == match model {
            Some(x) => x@,
            None => default_model(),
        },
{
    match model {
        Some(x) => x,
        None => String::from_str("gpt-4o-mini"),
    }
}

/// The message given when no API key is known.
pub open spec fn missing_key_text() -> Seq<char> {
    "OpenAI API key not set. Set OPENAI_API_KEY env or write openai_api_key in .devlog/config.toml"@
}

/// The API key: the environment's when set, else the configured one, else an error
/// with what to do.
pub fn choose_api_key(from_env: Option<String>, from_config: Option<String>) -> (r: Result<
    String,
    String,
>)
    ensures
        match (opt_view(from_env), opt_view(from_config)) {
            (Some(k), _) => r matches Ok(x) && x@ == k,
            (None, Some(k)) => r matches Ok(x) && x@ == k,
            (None, None) => r matches Err(m) && m@ == missing_key_text(),
        },
{
    match from_env {
        Some(k) => Ok(k),
        None => match from_config {
            Some(k) => Ok(k),
            None => Err(
                String::from_str(
                    "OpenAI API key not set. Set OPENAI_API_KEY env or write openai_api_key in .devlog/config.toml",
                ),
            ),
        },
    }
}

/// The instructions that come before the files in the context.
pub open spec fn system_prefix() -> Seq<char> {
    "You are a helpful assistant that answers questions about the user's devlog notes. Base your answers strictly on the provided files. If unsure, say you don't know."@
}

/// The context sent with each question: the instructions, then the files.
pub fn full_context(files: &str) -> (c: String)
    ensures
        c@ == system_prefix() + "\n\nHere are the devlog files:\n"@ + files@,
{
    let mut c = String::from_str(
        "You are a helpful assistant that answers questions about the user's devlog notes. Base your answers strictly on the provided files. If unsure, say you don't know.",
    );
    append_str(&mut c, "\n\nHere are the devlog files:\n");
    append_str(&mut c, files);
    c
}

/// The section of the context for the file numbered `number` (from one).
pub open spec fn file_section(number: nat, name: Seq<char>, content: Seq<char>) -> Seq<char> {
    "\n\n# File "@ + decimal(number) + ": "@ + name + "\n\n"@ + content + "\n"@
}

/// Adds the section of the file at place `index` (from zero) to the context, and tells
/// whether the context has reached `max_bytes` bytes, after which no file is added.
pub fn append_file_section(
    acc: &mut String,
    index: usize,
    name: &str,
    content: &str,
    max_bytes: usize,
) -> (full: bool)
    requires
        index < usize::MAX,
    ensures
        final(acc)@ == old(acc)@ + file_section((index + 1) as nat, name@, content@),
        full == (byte_len(final(acc)@) >= max_bytes),
{
    append_str(acc, "\n\n# File ");
    append_str(acc, format_usize(index + 1).as_str());
    append_str(acc, ": ");
    append_str(acc, name);
    append_str(acc, "\n\n");
    append_str(acc, content);
    append_str(acc, "\n");
    proof {
        assert(final(acc)@ =~= old(acc)@ + file_section((index + 1) as nat, name@, content@));
    }
    let len = utf8_len(acc.as_str());
    len >= max_bytes
}

/// The place of the last dot in `name`, or -1.
pub open spec fn last_dot(name: Seq<char>) -> int
    decreases name.len(),
{
    if name.len() == 0 {
        -1
    } else if name.last() == '.' {
        name.len() - 1
    } else {
        last_dot(name.drop_last())
    }
}

/// The extension of a file name: what follows its last dot, unless that dot starts
/// the name (as `Path::extension` gives it).
pub open spec fn extension(name: Seq<char>) -> Option<Seq<char>> {
    if last_dot(name) > 0 {
        Some(name.skip(last_dot(name) + 1))
    } else {
        None
    }
}

/// A name of a journal file: its extension is `md` or `markdown`.
pub open spec fn is_journal_name(name: Seq<char>) -> bool {
    extension(name) == Some("md"@) || extension(name) == Some("markdown"@)
}


/// Whether a file name is one of a journal file.
pub fn is_journal_file_name(name: &str) -> (r: bool)
    ensures
        r == is_journal_name(name@),
{
    let v = chars_of(name);
    let n = v.len();
    let mut i: usize = n;
    proof {
        assert(v@.take(n as int) =~= v@);
    }
    while i > 0 && v[i - 1] != '.'
        invariant
            n == v@.len(),
            i <= n,
            last_dot(v@) == last_dot(v@.take(i as int)),
        decreases i,
    {
        proof {
            assert(v@.take(i as int).drop_last() =~= v@.take(i - 1));
        }
        i = i - 1;
    }
    proof {
        assert(v@.take(n as int) =~= v@);
        if i > 0 {
            assert(v@.take(i as int).last() == v@[i - 1]);
        }
        reveal_strlit("md");
        reveal_strlit("markdown");
    }
    if i <= 1 {
        proof {
            if i == 1 {
                assert(last_dot(v@) == 0);
            } else {
                assert(v@.take(0) =~= Seq::<char>::empty());
            }
        }
        return false;
    }
    let rest = n - i;
    let is_md = rest == 2 && v[i] == 'm' && v[i + 1] == 'd';
    let is_markdown = rest == 8 && v[i] == 'm' && v[i + 1] == 'a' && v[i + 2] == 'r' && v[i + 3]
        == 'k' && v[i + 4] == 'd' && v[i + 5] == 'o' && v[i + 6] == 'w' && v[i + 7] == 'n';
    proof {
        let ext = v@.skip(i as int);
        assert(last_dot(v@) == i - 1);
        if is_md {
            assert(ext =~= "md"@);
        } else if ext.len() == 2 {
            assert(ext[0] == v@[i as int] && ext[1] == v@[i + 1]);
            assert(ext != "md"@);
        }
        if is_markdown {
            assert(ext =~= "markdown"@);
        } else if ext.len() == 8 {
            assert(ext[0] == v@[i as int] && ext[1] == v@[i + 1] && ext[2] == v@[i + 2] && ext[3]
                == v@[i + 3] && ext[4] == v@[i + 4] && ext[5] == v@[i + 5] && ext[6] == v@[i + 6]
                && ext[7] == v@[i + 7]);
            assert(ext != "markdown"@);
        }
    }
    is_md || is_markdown
}

/// No text of `names` comes after one that is smaller: in ascending order.
pub open spec fn sorted_asc(names: Seq<Seq<char>>) -> bool {
    forall|i: int, j: int|
        0 <= i < j < names.len() ==> !seq_lt(#[trigger] names[j], #[trigger] names[i])
}

/// The journal names among `names`, in their order.
pub open spec fn journal_names(names: Seq<Seq<char>>) -> Seq<Seq<char>>
    decreases names.len(),
{
    if names.len() == 0 {
        Seq::empty()
    } else if is_journal_name(names.last()) {
        journal_names(names.drop_last()).push(names.last())
    } else {
        journal_names(names.drop_last())
    }
}

/// Puts `name` into a list in ascending order, after the names that are not greater.
fn insert_sorted_asc(names: &mut Vec<String>, name: String)
    requires
        sorted_asc(strings_view(old(names)@)),
    ensures
        sorted_asc(strings_view(final(names)@)),
        strings_view(final(names)@).to_multiset() == strings_view(old(names)@).to_multiset().insert(
            name@,
        ),
{
    let ghost before = strings_view(names@);
    let n = names.len();
    let mut j: usize = 0;
    while j < n && !str_lt(name.as_str(), names[j].as_str())
        invariant
            n == names@.len(),
            before == strings_view(names@),
            j <= n,
            forall|k: int| 0 <= k < j ==> !seq_lt(name@, #[trigger] before[k]),
        decreases n - j,
    {
        j = j + 1;
    }
    let ghost x = name@;
    names.insert(j, name);
    proof {
        let after = strings_view(names@);
        assert(after =~= before.insert(j as int, x));
        assert forall|a: int, b: int| 0 <= a < b < after.len() implies !seq_lt(
            #[trigger] after[b],
            #[trigger] after[a],
        ) by {
            if b < j {
                assert(after[a] == before[a] && after[b] == before[b]);
            } else if b == j {
                assert(after[a] == before[a]);
                assert(after[b] == x);
            } else if a == j {
                let bj = before[j as int];
                let bb = before[b - 1];
                assert(after[b] == bb);
                assert(seq_lt(x, bj));
                if b - 1 > j {
                    assert(!seq_lt(bb, bj));
                    crate::text::lemma_seq_lt_total(bj, bb);
                    if bb != bj {
                        crate::text::lemma_seq_lt_transitive(x, bj, bb);
                    }
                }
                assert(seq_lt(x, bb));
                if seq_lt(bb, x) {
                    crate::text::lemma_seq_lt_transitive(x, bb, x);
                    crate::text::lemma_seq_lt_irreflexive(x);
                }
            } else if a < j {
                assert(after[a] == before[a]);
                assert(after[b] == before[b - 1]);
            } else {
                assert(after[a] == before[a - 1]);
                assert(after[b] == before[b - 1]);
            }
        }
        vstd::seq_lib::to_multiset_insert(before, j as int, x);
    }
}

/// The names of the journal files among the names of a directory's files, in
/// ascending order.
pub fn journal_file_names(names: &Vec<String>) -> (files: Vec<String>)
    ensures
        sorted_asc(strings_view(files@)),
        strings_view(files@).to_multiset() == journal_names(strings_view(names@)).to_multiset(),
{
    let ghost views = strings_view(names@);
    let mut files: Vec<String> = Vec::new();
    let n = names.len();
    let mut i: usize = 0;
    proof {
        assert(views.take(0) =~= Seq::<Seq<char>>::empty());
        assert(strings_view(files@) =~= Seq::<Seq<char>>::empty());
    }
    while i < n
        invariant
            n == names@.len(),
            views == strings_view(names@),
            i <= n,
            sorted_asc(strings_view(files@)),
            strings_view(files@).to_multiset() == journal_names(views.take(i as int)).to_multiset(),
        decreases n - i,
    {
        let ghost pre = views.take(i + 1);
        proof {
            assert(pre.drop_last() =~= views.take(i as int));
            assert(pre.last() == names@[i as int]@);
        }
        if is_journal_file_name(names[i].as_str()) {
            insert_sorted_asc(&mut files, names[i].clone());
            proof {
                vstd::seq_lib::to_multiset_build(journal_names(views.take(i as int)), pre.last());
            }
        }
        i = i + 1;
    }
    proof {
        assert(views.take(n as int) =~= views);
    }
    files
}

/// What a line typed at the question prompt means.
#[derive(Clone, Debug, PartialEq, Eq)]
pub enum PromptInput {
    /// Nothing but whitespace: ask again.
    Skip,
    /// `exit` or `quit`, in any case: leave.
    Stop,
    /// A question, trimmed.
    Ask(String),
}

/// The meaning of a line typed at the prompt: blank lines are skipped, `exit` and
/// `quit` (in any case of ASCII letters) leave, anything else is asked, trimmed.
pub fn classify_input(line: &str) -> (r: PromptInput)
    ensures
        trim(line@).len() == 0 ==> r == PromptInput::Skip,
        trim(line@).len() > 0 && (ascii_eq_ignore_case(trim(line@), "exit"@)
            || ascii_eq_ignore_case(trim(line@), "quit"@)) ==> r == PromptInput::Stop,
        trim(line@).len() > 0 && !ascii_eq_ignore_case(trim(line@), "exit"@)
            && !ascii_eq_ignore_case(trim(line@), "quit"@) ==> (r matches PromptInput::Ask(q)
            && q@ == trim(line@)),
{
    let q = trim_str(line);
    if q.as_str().is_empty() {
        return PromptInput::Skip;
    }
    if eq_ignore_ascii_case(q.as_str(), "exit") || eq_ignore_ascii_case(q.as_str(), "quit") {
        return PromptInput::Stop;
    }
    PromptInput::Ask(q)
}

} // verus!
