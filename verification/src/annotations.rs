//! Annotations in entry text: `@name` for people, `::name` for projects and
//! `+name` for tags, found with the `regex` crate.
use vstd::prelude::*;

verus! {

/// The views of a list of strings.
pub open spec fn strings_view(v: Seq<String>) -> Seq<Seq<char>> {
    v.map_values(|s: String| s@)
}

/// The pattern for people: `@` followed by word characters or hyphens.
pub open spec fn people_pattern() -> Seq<char> {
    "@([\\w-]+)"@
}

/// The pattern for projects: `::` followed by word characters or hyphens.
pub open spec fn projects_pattern() -> Seq<char> {
    "::([\\w-]+)"@
}

/// The pattern for tags: `+` followed by word characters or hyphens.
pub open spec fn tags_pattern() -> Seq<char> {
    "\\+([\\w-]+)"@
}

/// One of the three annotation patterns, each of which compiles and has a first
/// group that takes part in every match.
pub open spec fn annotation_pattern(p: Seq<char>) -> bool {
    p == people_pattern() || p == projects_pattern() || p == tags_pattern()
}

/// The text of the first group of each match of the regular expression `pattern`
/// in `text`, as `regex::Regex::captures_iter` finds them: leftmost first, without
/// overlap, in order.
pub uninterp spec fn regex_group1(pattern: Seq<char>, text: Seq<char>) -> Seq<Seq<char>>;

/// Compiles `pattern` with `regex::Regex::new` and gives the text of the first group
/// of each of its matches in `text` (`captures_iter`).  The contract names the result,
/// which depends on the two texts alone; the pattern is one of the three annotation
/// patterns, which compile and whose first group takes part in every match.
#[verifier::external_body]
fn capture_group1(pattern: &str, text: &str) -> (found: Vec<String>)
    requires
        annotation_pattern(pattern@),
    ensures
        strings_view(found@) == regex_group1(pattern@, text@),
{
    let re = regex::Regex::new(pattern).unwrap();
    re.captures_iter(text).map(|cap| cap[1].to_string()).collect()
}

/// The annotations found in a text, each list in the order of appearance, with
/// repetitions kept.
pub struct ParsedAnnotations {
    pub people: Vec<String>,
    pub projects: Vec<String>,
    pub tags: Vec<String>,
}

/// Finds annotations in text.
pub struct AnnotationParser {
    people_pattern: String,
    projects_pattern: String,
    tags_pattern: String,
}

impl AnnotationParser {
    /// The parser holds the three annotation patterns.
    pub closed spec fn wf(&self) -> bool {
        &&& self.people_pattern@ == people_pattern()
        &&& self.projects_pattern@ == projects_pattern()
        &&& self.tags_pattern@ == tags_pattern()
    }

    /// A parser with the default patterns.
    pub fn new() -> (p: Self)
        ensures
            p.wf(),
    {
        AnnotationParser {
            people_pattern: String::from_str("@([\\w-]+)"),
            projects_pattern: String::from_str("::([\\w-]+)"),
            tags_pattern: String::from_str("\\+([\\w-]+)"),
        }
    }

    /// The first group of every match of `pattern` in `content`.
    fn extract_with_regex(&self, content: &str, pattern: &String) -> (found: Vec<String>)
        requires
            annotation_pattern(pattern@),
        ensures
            strings_view(found@) == regex_group1(pattern@, content@),
    {
        capture_group1(pattern.as_str(), content)
    }

    /// All annotations of `content`: people after `@`, projects after `::`, tags
    /// after `+`.
    pub fn parse(&self, content: &str) -> (r: ParsedAnnotations)
        requires
            self.wf(),
        ensures
            strings_view(r.people@) == regex_group1(people_pattern(), content@),
            strings_view(r.projects@) == regex_group1(projects_pattern(), content@),
            strings_view(r.tags@) == regex_group1(tags_pattern(), content@),
    {
        ParsedAnnotations {
            people: self.extract_with_regex(content, &self.people_pattern),
            projects: self.extract_with_regex(content, &self.projects_pattern),
            tags: self.extract_with_regex(content, &self.tags_pattern),
        }
    }
}

/// The group every annotation pattern captures: one or more word characters or hyphens.
pub open spec fn name_group() -> Seq<char> {
    "([\\w-]+)"@
}

/// Each kind of annotation is the same captured name after its own marker: people after
/// `@`, projects after a double colon `::` (a single colon, as in a clock time `10:30`,
/// is no marker), tags after a literal `+`.  The markers differ, so no annotation
/// pattern is another's.
pub proof fn law_annotation_markers()
    ensures
        people_pattern() == "@"@ + name_group(),
        projects_pattern() == "::"@ + name_group(),
        tags_pattern() == "\\+"@ + name_group(),
        projects_pattern().len() == name_group().len() + 2,
        projects_pattern()[0] == ':' && projects_pattern()[1] == ':',
        projects_pattern() != people_pattern() && projects_pattern() != tags_pattern()
            && people_pattern() != tags_pattern(),
{
    reveal_strlit("@([\\w-]+)");
    reveal_strlit("::([\\w-]+)");
    reveal_strlit("\\+([\\w-]+)");
    reveal_strlit("([\\w-]+)");
    reveal_strlit("@");
    reveal_strlit("::");
    reveal_strlit("\\+");
    assert(people_pattern() =~= "@"@ + name_group());
    assert(projects_pattern() =~= "::"@ + name_group());
    assert(tags_pattern() =~= "\\+"@ + name_group());
    assert(people_pattern()[0] != projects_pattern()[0]);
    assert(tags_pattern()[0] != projects_pattern()[0]);
    assert(tags_pattern()[0] != people_pattern()[0]);
}

} // verus!
