//! Where the journal keeps its files: the XDG directories for configuration,
//! data, cache and state with their fallbacks on each platform, the entry and
//! event files under a base directory, and the entry ids found there.
use vstd::prelude::*;
use crate::data::{join_path, path_join};
use crate::text::{append_str, chars_of, seq_lt, str_lt, string_from_chars};

verus! {

/// The kinds of directory the journal uses.
#[derive(Clone, Copy, Debug, PartialEq, Eq, Structural)]
pub enum XdgDirectoryType {
    Config,
    Data,
    Cache,
    State,
}

/// The families of operating system, each with its own directory layout.
#[derive(Clone, Copy, Debug, PartialEq, Eq, Structural)]
pub enum Platform {
    /// Linux, FreeBSD and other Unix-like systems.
    Unix,
    MacOS,
    Windows,
}

/// The family of the operating system named `os` (as `std::env::consts::OS` names
/// it): `windows`, `macos`, and anything else counted as Unix-like.
pub open spec fn platform_of(os: Seq<char>) -> Platform {
    if os == "windows"@ {
        Platform::Windows
    } else if os == "macos"@ {
        Platform::MacOS
    } else {
        Platform::Unix
    }
}

impl Platform {
    /// The family of the operating system named `os`.
    pub fn from_os_name(os: &str) -> (p: Platform)
        ensures
            p == platform_of(os@),
    {
        if crate::text::str_eq(os, "windows") {
            Platform::Windows
        } else if crate::text::str_eq(os, "macos") {
            Platform::MacOS
        } else {
            Platform::Unix
        }
    }
}

/// The name of a directory kind, for messages.
pub open spec fn directory_type_name(t: XdgDirectoryType) -> Seq<char> {
    match t {
        XdgDirectoryType::Config => "config"@,
        XdgDirectoryType::Data => "data"@,
        XdgDirectoryType::Cache => "cache"@,
        XdgDirectoryType::State => "state"@,
    }
}

/// The name of a directory kind, for messages.
pub fn format_directory_type(t: XdgDirectoryType) -> (s: &'static str)
    ensures
        s@ == directory_type_name(t),
{
    match t {
        XdgDirectoryType::Config => "config",
        XdgDirectoryType::Data => "data",
        XdgDirectoryType::Cache => "cache",
        XdgDirectoryType::State => "state",
    }
}

/// `base` joined with the parts in `parts`, one after the other.
pub open spec fn path_join_all(base: Seq<char>, parts: Seq<Seq<char>>) -> Seq<char>
    decreases parts.len(),
{
    if parts.len() == 0 {
        base
    } else {
        path_join(path_join_all(base, parts.drop_last()), parts.last())
    }
}

/// The parts below the home directory of the fallback directory of kind `t` on
/// `platform`.
pub open spec fn fallback_parts(t: XdgDirectoryType, platform: Platform) -> Seq<Seq<char>> {
    match platform {
        Platform::Unix => match t {
            XdgDirectoryType::Config => seq![".config"@],
            XdgDirectoryType::Data => seq![".local"@, "share"@],
            XdgDirectoryType::Cache => seq![".cache"@],
            XdgDirectoryType::State => seq![".local"@, "state"@],
        },
        Platform::MacOS => match t {
            XdgDirectoryType::Cache => seq!["Library"@, "Caches"@],
            _ => seq!["Library"@, "Application Support"@],
        },
        Platform::Windows => match t {
            XdgDirectoryType::Cache => seq!["AppData"@, "Local"@],
            _ => seq!["AppData"@, "Roaming"@],
        },
    }
}

/// The fallback directory of kind `t` on `platform`, given the home directory and, on
/// Windows, the `APPDATA` and `LOCALAPPDATA` variables: on Windows the variable when
/// set, otherwise a directory below home.
pub open spec fn fallback_dir(
    t: XdgDirectoryType,
    platform: Platform,
    home: Option<Seq<char>>,
    appdata: Option<Seq<char>>,
    local_appdata: Option<Seq<char>>,
) -> Option<Seq<char>> {
    let var = if t == XdgDirectoryType::Cache {
        local_appdata
    } else {
        appdata
    };
    if platform == Platform::Windows && var is Some {
        var
    } else {
        match home {
            Some(h) => Some(path_join_all(h, fallback_parts(t, platform))),
            None => None,
        }
    }
}

/// The views of an optional string.
pub open spec fn opt_view(o: Option<String>) -> Option<Seq<char>> {
    match o {
        Some(s) => Some(s@),
        None => None,
    }
}

/// The one or two directory names below home of the fallback of kind `t`.
fn fallback_names(t: XdgDirectoryType, platform: Platform) -> (r: (&'static str, Option<&'static str>))
    ensures
        fallback_parts(t, platform).len() == (if r.1 is Some {
            2int
        } else {
            1int
        }),
        r.0@ == fallback_parts(t, platform)[0],
        r.1 matches Some(s) ==> s@ == fallback_parts(t, platform)[1],
{
    match platform {
        Platform::Unix => match t {
            XdgDirectoryType::Config => (".config", None),
            XdgDirectoryType::Data => (".local", Some("share")),
            XdgDirectoryType::Cache => (".cache", None),
            XdgDirectoryType::State => (".local", Some("state")),
        },
        Platform::MacOS => match t {
            XdgDirectoryType::Cache => ("Library", Some("Caches")),
            _ => ("Library", Some("Application Support")),
        },
        Platform::Windows => match t {
            XdgDirectoryType::Cache => ("AppData", Some("Local")),
            _ => ("AppData", Some("Roaming")),
        },
    }
}

/// The fallback directory of kind `t` on `platform`.
pub fn platform_fallback_dir(
    t: XdgDirectoryType,
    platform: Platform,
    home: Option<String>,
    appdata: Option<String>,
    local_appdata: Option<String>,
) -> (r: Option<String>)
    ensures
        opt_view(r) == fallback_dir(
            t,
            platform,
            opt_view(home),
            opt_view(appdata),
            opt_view(local_appdata),
        ),
{
    let is_cache = t == XdgDirectoryType::Cache;
    let var_set = if is_cache {
        local_appdata.is_some()
    } else {
        appdata.is_some()
    };
    if platform == Platform::Windows && var_set {
        return if is_cache {
            local_appdata
        } else {
            appdata
        };
    }
    match home {
        None => None,
        Some(h) => {
            let (first, second) = fallback_names(t, platform);
            let p1 = join_path(h.as_str(), first);
            let p = match second {
                Some(s) => join_path(p1.as_str(), s),
                None => p1,
            };
            proof {
                let parts = fallback_parts(t, platform);
                if parts.len() == 1 {
                    assert(parts.drop_last() =~= Seq::<Seq<char>>::empty());
                    assert(path_join_all(h@, parts.drop_last()) == h@);
                    assert(parts.last() == parts[0]);
                } else {
                    let pre = parts.drop_last();
                    assert(pre.drop_last() =~= Seq::<Seq<char>>::empty());
                    assert(path_join_all(h@, pre.drop_last()) == h@);
                    assert(pre.last() == parts[0]);
                    assert(path_join_all(h@, pre) == path_join(h@, parts[0]));
                    assert(parts.last() == parts[1]);
                }
            }
            Some(p)
        },
    }
}

/// Why a directory of the journal could not be had.
#[derive(Clone, Copy, Debug, PartialEq, Eq, Structural)]
pub enum DirectoryError {
    /// Neither the system nor the fallback names a directory of this kind.
    Undetermined(XdgDirectoryType),
}

impl DirectoryError {
    /// The message shown for the error.
    pub fn message(&self) -> (m: String)
        ensures
            m@ == "Could not determine "@ + directory_type_name(
                match *self {
                    DirectoryError::Undetermined(t) => t,
                },
            ) + " directory"@,
    {
        match self {
            DirectoryError::Undetermined(t) => {
                let mut m = String::from_str("Could not determine ");
                append_str(&mut m, format_directory_type(*t));
                append_str(&mut m, " directory");
                m
            },
        }
    }
}

/// The directory of the application `app_name` for kind `t`: the system's directory
/// when there is one, else the fallback, joined with the application's name.
pub fn xdg_app_dir(
    t: XdgDirectoryType,
    app_name: &str,
    system_dir: Option<String>,
    fallback: Option<String>,
) -> (r: Result<String, DirectoryError>)
    ensures
        match (opt_view(system_dir), opt_view(fallback)) {
            (Some(d), _) => r matches Ok(p) && p@ == path_join(d, app_name@),
            (None, Some(d)) => r matches Ok(p) && p@ == path_join(d, app_name@),
            (None, None) => r == Err::<String, DirectoryError>(DirectoryError::Undetermined(t)),
        },
{
    let base = match system_dir {
        Some(d) => Some(d),
        None => fallback,
    };
    match base {
        Some(d) => Ok(join_path(d.as_str(), app_name)),
        None => Err(DirectoryError::Undetermined(t)),
    }
}

/// The directories of the journal.
#[derive(Clone, Debug)]
pub struct Storage {
    data_path: String,
    config_path: String,
    cache_path: String,
    state_path: String,
}

/// The four directories of a storage: data, config, cache and state.
pub struct StorageView {
    pub data: Seq<char>,
    pub config: Seq<char>,
    pub cache: Seq<char>,
    pub state: Seq<char>,
}

impl View for Storage {
    type V = StorageView;

    closed spec fn view(&self) -> StorageView {
        StorageView {
            data: self.data_path@,
            config: self.config_path@,
            cache: self.cache_path@,
            state: self.state_path@,
        }
    }
}

impl Storage {
    /// Storage in the given directories.
    pub fn from_dirs(config: String, data: String, cache: String, state: String) -> (s: Storage)
        ensures
            s@.config == config@,
            s@.data == data@,
            s@.cache == cache@,
            s@.state == state@,
    {
        Storage { data_path: data, config_path: config, cache_path: cache, state_path: state }
    }

    /// Storage with its four directories below `base`: `config`, `data`, `cache` and
    /// `state`.
    pub fn new_with_base_dir(base: &str) -> (s: Storage)
        ensures
            s@.config == path_join(base@, "config"@),
            s@.data == path_join(base@, "data"@),
            s@.cache == path_join(base@, "cache"@),
            s@.state == path_join(base@, "state"@),
    {
        Storage {
            config_path: join_path(base, "config"),
            data_path: join_path(base, "data"),
            cache_path: join_path(base, "cache"),
            state_path: join_path(base, "state"),
        }
    }

    /// The data directory, where entries are kept.
    pub fn data_path(&self) -> (p: &str)
        ensures
            p@ == self@.data,
    {
        self.data_path.as_str()
    }

    /// The configuration directory.
    pub fn config_path(&self) -> (p: &str)
        ensures
            p@ == self@.config,
    {
        self.config_path.as_str()
    }

    /// The cache directory.
    pub fn cache_path(&self) -> (p: &str)
        ensures
            p@ == self@.cache,
    {
        self.cache_path.as_str()
    }

    /// The state directory.
    pub fn state_path(&self) -> (p: &str)
        ensures
            p@ == self@.state,
    {
        self.state_path.as_str()
    }

    /// The directory of the entry files: `entries` in the data directory.
    pub fn entries_path(&self) -> (p: String)
        ensures
            p@ == path_join(self@.data, "entries"@),
    {
        join_path(self.data_path.as_str(), "entries")
    }
}

/// Entry and event files below a base directory: `events/<id>.jsonl` and
/// `entries/<id>.md`.
pub struct LocalEntryStorage {
    base_dir: String,
}

impl LocalEntryStorage {
    /// The base directory.
    pub closed spec fn base(&self) -> Seq<char> {
        self.base_dir@
    }

    /// Storage below `base_dir`.
    pub fn new(base_dir: String) -> (s: LocalEntryStorage)
        ensures
            s.base() == base_dir@,
    {
        LocalEntryStorage { base_dir }
    }

    /// The base directory.
    pub fn base_dir(&self) -> (p: &str)
        ensures
            p@ == self.base(),
    {
        self.base_dir.as_str()
    }

    /// The file of the events of entry `date`.
    pub fn events_path(&self, date: &str) -> (p: String)
        ensures
            p@ == path_join(path_join(self.base(), "events"@), date@ + ".jsonl"@),
    {
        let dir = join_path(self.base_dir.as_str(), "events");
        let mut name = String::from_str(date);
        append_str(&mut name, ".jsonl");
        join_path(dir.as_str(), name.as_str())
    }

    /// The Markdown file of entry `date`.
    pub fn markdown_path(&self, date: &str) -> (p: String)
        ensures
            p@ == path_join(path_join(self.base(), "entries"@), date@ + ".md"@),
    {
        let dir = join_path(self.base_dir.as_str(), "entries");
        let mut name = String::from_str(date);
        append_str(&mut name, ".md");
        join_path(dir.as_str(), name.as_str())
    }
}

/// The id named by a file name ending in `.md`: the name without that ending.
pub open spec fn md_stem(name: Seq<char>) -> Option<Seq<char>> {
    if name.len() >= 3 && name.skip(name.len() - 3) == ".md"@ {
        Some(name.take(name.len() - 3))
    } else {
        None
    }
}

/// The ids of the names that end in `.md`, in the order of the names.
pub open spec fn md_stems(names: Seq<Seq<char>>) -> Seq<Seq<char>>
    decreases names.len(),
{
    if names.len() == 0 {
        Seq::empty()
    } else {
        match md_stem(names.last()) {
            Some(id) => md_stems(names.drop_last()).push(id),
            None => md_stems(names.drop_last()),
        }
    }
}

/// No text of `ids` comes after one that is greater: newest first.
pub open spec fn sorted_desc(ids: Seq<Seq<char>>) -> bool {
    forall|i: int, j: int| 0 <= i < j < ids.len() ==> !seq_lt(#[trigger] ids[i], #[trigger] ids[j])
}

/// The id named by a file name ending in `.md`.
pub fn md_stem_of(name: &str) -> (r: Option<String>)
    ensures
        opt_view(r) == md_stem(name@),
{
    let v = chars_of(name);
    let n = v.len();
    proof {
        reveal_strlit(".md");
    }
    if n >= 3 && v[n - 3] == '.' && v[n - 2] == 'm' && v[n - 1] == 'd' {
        let mut out: Vec<char> = Vec::new();
        let mut i: usize = 0;
        while i < n - 3
            invariant
                n == v@.len(),
                n >= 3,
                i <= n - 3,
                out@ == v@.take(i as int),
            decreases n - 3 - i,
        {
            out.push(v[i]);
            proof {
                assert(v@.take(i + 1) =~= v@.take(i as int).push(v@[i as int]));
            }
            i = i + 1;
        }
        proof {
            assert(v@.skip(n - 3) =~= ".md"@);
        }
        Some(string_from_chars(&out))
    } else {
        proof {
            if n >= 3 {
                assert(v@.skip(n - 3)[0] == v@[n - 3]);
                assert(v@.skip(n - 3)[1] == v@[n - 2]);
                assert(v@.skip(n - 3)[2] == v@[n - 1]);
            }
        }
        None
    }
}

/// Puts `id` into a list sorted newest first, after the ids that are not smaller.
fn insert_sorted_desc(ids: &mut Vec<String>, id: String)
    requires
        sorted_desc(old(ids)@.map_values(|s: String| s@)),
    ensures
        sorted_desc(final(ids)@.map_values(|s: String| s@)),
        final(ids)@.map_values(|s: String| s@).to_multiset() == old(ids)@.map_values(
            |s: String| s@,
        ).to_multiset().insert(id@),
{
    let ghost before = ids@.map_values(|s: String| s@);
    let n = ids.len();
    let mut j: usize = 0;
    while j < n && !str_lt(ids[j].as_str(), id.as_str())
        invariant
            n == ids@.len(),
            before == ids@.map_values(|s: String| s@),
            j <= n,
            forall|k: int| 0 <= k < j ==> !seq_lt(#[trigger] before[k], id@),
        decreases n - j,
    {
        j = j + 1;
    }
    let ghost x = id@;
    ids.insert(j, id);
    proof {
        let after = ids@.map_values(|s: String| s@);
        assert(after =~= before.insert(j as int, x));
        crate::text::lemma_seq_lt_irreflexive(x);
        assert forall|a: int, b: int| 0 <= a < b < after.len() implies !seq_lt(
            #[trigger] after[a],
            #[trigger] after[b],
        ) by {
            if b < j {
                assert(after[a] == before[a] && after[b] == before[b]);
            } else if b == j {
                assert(after[a] == before[a]);
                assert(after[b] == x);
            } else if a == j {
                let bj = before[j as int];
                let bb = before[b - 1];
                assert(after[b] == bb);
                assert(seq_lt(bj, x));
                if b - 1 > j {
                    assert(!seq_lt(bj, bb));
                    crate::text::lemma_seq_lt_total(bj, bb);
                    if bb != bj {
                        crate::text::lemma_seq_lt_transitive(bb, bj, x);
                    }
                }
                assert(seq_lt(bb, x));
                if seq_lt(x, bb) {
                    crate::text::lemma_seq_lt_transitive(x, bb, x);
                }
            } else if a < j {
                assert(after[a] == before[a]);
                assert(after[b] == before[b - 1]);
            } else {
                assert(after[a] == before[a - 1]);
                assert(after[b] == before[b - 1]);
            }
        }
        vstd::seq_lib::to_multiset_insert(before, j as int, x);
    }
}

/// The ids of the names ending in `.md`, newest first (as `sort_by(|a, b| b.cmp(a))`
/// orders them).
pub fn entry_ids_from_names(names: &Vec<String>) -> (ids: Vec<String>)
    ensures
        sorted_desc(ids@.map_values(|s: String| s@)),
        ids@.map_values(|s: String| s@).to_multiset() == md_stems(
            names@.map_values(|s: String| s@),
        ).to_multiset(),
{
    let ghost views = names@.map_values(|s: String| s@);
    let mut ids: Vec<String> = Vec::new();
    let n = names.len();
    let mut i: usize = 0;
    proof {
        assert(views.take(0) =~= Seq::<Seq<char>>::empty());
        assert(ids@.map_values(|s: String| s@) =~= Seq::<Seq<char>>::empty());
    }
    while i < n
        invariant
            n == names@.len(),
            views == names@.map_values(|s: String| s@),
            i <= n,
            sorted_desc(ids@.map_values(|s: String| s@)),
            ids@.map_values(|s: String| s@).to_multiset() == md_stems(views.take(i as int)).to_multiset(),
        decreases n - i,
    {
        let ghost pre = views.take(i + 1);
        proof {
            assert(pre.drop_last() =~= views.take(i as int));
            assert(pre.last() == names@[i as int]@);
        }
        match md_stem_of(names[i].as_str()) {
            Some(id) => {
                insert_sorted_desc(&mut ids, id);
                proof {
                    vstd::seq_lib::to_multiset_build(
                        md_stems(views.take(i as int)),
                        md_stem(pre.last()).unwrap(),
                    );
                    assert(md_stems(pre) == md_stems(views.take(i as int)).push(
                        md_stem(pre.last()).unwrap(),
                    ));
                }
            },
            None => {},
        }
        i = i + 1;
    }
    proof {
        assert(views.take(n as int) =~= views);
    }
    ids
}

} // verus!
