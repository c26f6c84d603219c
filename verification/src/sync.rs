//! Syncing entry files with a remote copy: which files go up or come down, what a
//! sync reports, and the sync settings.
use vstd::prelude::*;
use crate::annotations::strings_view;
pub use crate::config::AzureConfig;
use crate::data::join_path;
use crate::text::{append_str, decimal, format_usize, join_strings, join_with};
use crate::time::{instant_before, is_before, Instant};

verus! {

/// A file of the remote copy: its name below the remote directory, when it was last
/// changed, and its size in bytes.
#[derive(Clone, Debug)]
pub struct CloudFile {
    pub name: String,
    pub last_modified: Instant,
    pub size: u64,
}

/// What a remote store tells of one of its files: its key and, where the store gives
/// them, its size, a hash of its content and when it was last changed.
#[derive(Clone, Debug)]
pub struct RemoteFileInfo {
    pub key: String,
    pub size: Option<u64>,
    pub hash: Option<String>,
    pub last_modified: Option<Instant>,
}

/// The last change time of the last file named `name` in `files`, if any (a later
/// file of the same name takes the place of an earlier one).
pub open spec fn last_time_of(files: Seq<(Seq<char>, Instant)>, name: Seq<char>) -> Option<Instant>
    decreases files.len(),
{
    if files.len() == 0 {
        None
    } else if files.last().0 == name {
        Some(files.last().1)
    } else {
        last_time_of(files.drop_last(), name)
    }
}

/// The names and times of remote files.
pub open spec fn cloud_view(files: Seq<CloudFile>) -> Seq<(Seq<char>, Instant)> {
    files.map_values(|f: CloudFile| (f.name@, f.last_modified))
}

/// The names and times of local files.
pub open spec fn local_view(files: Seq<(String, Instant)>) -> Seq<(Seq<char>, Instant)> {
    files.map_values(|f: (String, Instant)| (f.0@, f.1))
}

/// A file goes to the other side when the other side lacks it or holds an older one.
pub open spec fn should_transfer(source: Instant, target: Option<Instant>) -> bool {
    match target {
        None => true,
        Some(t) => instant_before(t, source),
    }
}

/// The last change time of the last file named `name`.
fn time_of(files: &Vec<(String, Instant)>, name: &str) -> (r: Option<Instant>)
    ensures
        r == last_time_of(local_view(files@), name@),
{
    let n = files.len();
    let mut i: usize = n;
    proof {
        assert(local_view(files@).take(n as int) =~= local_view(files@));
    }
    while i > 0
        invariant
            n == files@.len(),
            i <= n,
            last_time_of(local_view(files@), name@) == last_time_of(
                local_view(files@).take(i as int),
                name@,
            ),
        decreases i,
    {
        proof {
            let pre = local_view(files@).take(i as int);
            assert(pre.drop_last() =~= local_view(files@).take(i - 1));
            assert(pre.last() == (files@[i - 1].0@, files@[i - 1].1));
        }
        if crate::text::str_eq(files[i - 1].0.as_str(), name) {
            return Some(files[i - 1].1);
        }
        i = i - 1;
    }
    None
}

/// Whether each remote file should come down: it is missing here, or the remote one
/// is newer than the local one of the same name.
pub fn plan_pull(cloud: &Vec<CloudFile>, local: &Vec<(String, Instant)>) -> (plan: Vec<bool>)
    ensures
        plan@.len() == cloud@.len(),
        forall|i: int|
            0 <= i < cloud@.len() ==> #[trigger] plan@[i] == should_transfer(
                cloud@[i].last_modified,
                last_time_of(local_view(local@), cloud@[i].name@),
            ),
{
    let mut plan: Vec<bool> = Vec::new();
    let n = cloud.len();
    let mut i: usize = 0;
    while i < n
        invariant
            n == cloud@.len(),
            i <= n,
            plan@.len() == i,
            forall|k: int|
                0 <= k < i ==> #[trigger] plan@[k] == should_transfer(
                    cloud@[k].last_modified,
                    last_time_of(local_view(local@), cloud@[k].name@),
                ),
        decreases n - i,
    {
        let f = &cloud[i];
        let go = match time_of(local, f.name.as_str()) {
            None => true,
            Some(t) => is_before(t, f.last_modified),
        };
        plan.push(go);
        i = i + 1;
    }
    plan
}

/// What to do with a local file on push: upload it at once when the remote copy lacks
/// it, otherwise compare its change time with the remote one.
#[derive(Clone, Copy, Debug, PartialEq, Eq, Structural)]
pub enum PushCheck {
    Upload,
    UploadIfNewerThan(Instant),
}

/// The push check of the local file `name` against the remote files.
pub fn push_check(cloud: &Vec<CloudFile>, name: &str) -> (r: PushCheck)
    ensures
        match last_time_of(cloud_view(cloud@), name@) {
            None => r == PushCheck::Upload,
            Some(t) => r == PushCheck::UploadIfNewerThan(t),
        },
{
    let mut pairs: Vec<(String, Instant)> = Vec::new();
    let n = cloud.len();
    let mut i: usize = 0;
    while i < n
        invariant
            n == cloud@.len(),
            i <= n,
            local_view(pairs@) == cloud_view(cloud@).take(i as int),
        decreases n - i,
    {
        pairs.push((cloud[i].name.clone(), cloud[i].last_modified));
        proof {
            assert(cloud_view(cloud@).take(i + 1) =~= cloud_view(cloud@).take(i as int).push(
                (cloud@[i as int].name@, cloud@[i as int].last_modified),
            ));
            assert(local_view(pairs@) =~= cloud_view(cloud@).take(i + 1));
        }
        i = i + 1;
    }
    proof {
        assert(cloud_view(cloud@).take(n as int) =~= cloud_view(cloud@));
    }
    match time_of(&pairs, name) {
        None => PushCheck::Upload,
        Some(t) => PushCheck::UploadIfNewerThan(t),
    }
}

impl PushCheck {
    /// Whether the local file, last changed at `local`, goes up.
    pub fn decide(&self, local: Instant) -> (r: bool)
        ensures
            match *self {
                PushCheck::Upload => r,
                PushCheck::UploadIfNewerThan(t) => r == instant_before(t, local),
            },
    {
        match self {
            PushCheck::Upload => true,
            PushCheck::UploadIfNewerThan(t) => is_before(*t, local),
        }
    }
}

/// What a sync did: the files uploaded, downloaded and left alone.
#[derive(Clone, Debug)]
pub struct SyncResult {
    pub uploaded: Vec<String>,
    pub downloaded: Vec<String>,
    pub skipped: Vec<String>,
}

/// The lines that summarise a sync: the uploaded and the downloaded files, each list
/// joined with `", "`, and the number of files left alone, each line only when its
/// list is not empty.
pub open spec fn summary_text(
    up: Seq<Seq<char>>,
    down: Seq<Seq<char>>,
    skipped: nat,
) -> Seq<Seq<char>> {
    (if up.len() > 0 {
        seq!["Uploaded: "@ + join_with(up, seq![',', ' '])]
    } else {
        Seq::empty()
    }) + (if down.len() > 0 {
        seq!["Downloaded: "@ + join_with(down, seq![',', ' '])]
    } else {
        Seq::empty()
    }) + (if skipped > 0 {
        seq!["Skipped: "@ + decimal(skipped) + " files (already in sync)"@]
    } else {
        Seq::empty()
    })
}

impl SyncResult {
    /// Nothing uploaded, downloaded or left alone.
    pub fn new() -> (r: SyncResult)
        ensures
            r.uploaded@.len() == 0,
            r.downloaded@.len() == 0,
            r.skipped@.len() == 0,
    {
        SyncResult { uploaded: Vec::new(), downloaded: Vec::new(), skipped: Vec::new() }
    }

    /// The result of a sync: the uploads of the push, the downloads of the pull, and
    /// the files both left alone, those of the push first.
    pub fn combine(push: SyncResult, pull: SyncResult) -> (r: SyncResult)
        ensures
            r.uploaded@ == push.uploaded@,
            r.downloaded@ == pull.downloaded@,
            r.skipped@ == push.skipped@ + pull.skipped@,
    {
        let mut skipped = push.skipped;
        let mut rest = pull.skipped;
        let ghost a = skipped@;
        let ghost b = rest@;
        skipped.append(&mut rest);
        SyncResult { uploaded: push.uploaded, downloaded: pull.downloaded, skipped }
    }

    /// The lines printed after a sync.
    pub fn summary_lines(&self) -> (ls: Vec<String>)
        ensures
            strings_view(ls@) == summary_text(
                strings_view(self.uploaded@),
                strings_view(self.downloaded@),
                self.skipped@.len(),
            ),
    {
        let mut ls: Vec<String> = Vec::new();
        if self.uploaded.len() > 0 {
            let mut l = String::from_str("Uploaded: ");
            append_str(&mut l, join_strings(&self.uploaded, ", ").as_str());
            ls.push(l);
        }
        if self.downloaded.len() > 0 {
            let mut l = String::from_str("Downloaded: ");
            append_str(&mut l, join_strings(&self.downloaded, ", ").as_str());
            ls.push(l);
        }
        if self.skipped.len() > 0 {
            let mut l = String::from_str("Skipped: ");
            append_str(&mut l, format_usize(self.skipped.len()).as_str());
            append_str(&mut l, " files (already in sync)");
            ls.push(l);
        }
        proof {
            reveal_strlit(", ");
            assert(", "@ =~= seq![',', ' ']);
            assert(self.uploaded@.map_values(|x: String| x@) =~= strings_view(self.uploaded@));
            assert(self.downloaded@.map_values(|x: String| x@) =~= strings_view(self.downloaded@));
            assert(strings_view(ls@) =~= summary_text(
                strings_view(self.uploaded@),
                strings_view(self.downloaded@),
                self.skipped@.len(),
            ));
        }
        ls
    }
}

/// Where a two-way sync stands: not begun, pushing, pulling after a push that gave
/// its result, or over.
#[derive(Debug)]
pub enum SyncState {
    Idle,
    Pushing,
    Pulling(SyncResult),
    Done,
}

/// What the program reports to a sync: that it begins, that the push or the pull gave
/// its result, or that the step it ran failed.
#[derive(Debug)]
pub enum SyncEvent {
    Start,
    PushDone(SyncResult),
    PullDone(SyncResult),
    Failed,
}

/// What a sync asks the program to do next: push, pull, end with the combined result,
/// or end with the failure it was told of.
#[derive(Debug)]
pub enum SyncAction {
    Push,
    Pull,
    Finish(SyncResult),
    Abort,
}

/// The uploads of the push, the downloads of the pull and the files both left alone,
/// those of the push first: what combining the two results gives.
pub open spec fn combined_lists(push: SyncResult, pull: SyncResult) -> (
    Seq<String>,
    Seq<String>,
    Seq<String>,
) {
    (push.uploaded@, pull.downloaded@, push.skipped@ + pull.skipped@)
}

/// The three lists of a result.
pub open spec fn result_lists(r: SyncResult) -> (Seq<String>, Seq<String>, Seq<String>) {
    (r.uploaded@, r.downloaded@, r.skipped@)
}

/// One step of a two-way sync: it pushes first, pulls only after the push succeeded,
/// and ends with the two results combined; a failure, or a report that does not fit
/// where the sync stands, ends it at once with that failure.
pub fn sync_step(state: SyncState, event: SyncEvent) -> (r: (SyncState, SyncAction))
    ensures
        match (state, event) {
            (SyncState::Idle, SyncEvent::Start) => r.0 is Pushing && r.1 is Push,
            (SyncState::Pushing, SyncEvent::PushDone(p)) => r.0 == SyncState::Pulling(p)
                && r.1 is Pull,
            (SyncState::Pulling(p), SyncEvent::PullDone(q)) => r.0 is Done && (r.1 matches SyncAction::Finish(
                x,
            ) && result_lists(x) == combined_lists(p, q)),
            _ => r.0 is Done && r.1 is Abort,
        },
{
    match (state, event) {
        (SyncState::Idle, SyncEvent::Start) => (SyncState::Pushing, SyncAction::Push),
        (SyncState::Pushing, SyncEvent::PushDone(p)) => (SyncState::Pulling(p), SyncAction::Pull),
        (SyncState::Pulling(p), SyncEvent::PullDone(q)) => (
            SyncState::Done,
            SyncAction::Finish(SyncResult::combine(p, q)),
        ),
        _ => (SyncState::Done, SyncAction::Abort),
    }
}

/// The directory of the local remote copy: `sync_dir` with a leading `~/` replaced by
/// the home directory, which is then needed.
pub open spec fn expanded_dir(sync_dir: Seq<char>, home: Option<Seq<char>>) -> Option<Seq<char>> {
    if sync_dir.len() >= 2 && sync_dir[0] == '~' && sync_dir[1] == '/' {
        match home {
            Some(h) => Some(crate::data::path_join(h, sync_dir.skip(2))),
            None => None,
        }
    } else {
        Some(sync_dir)
    }
}

/// Replaces a leading `~/` of `sync_dir` with the home directory; none when the home
/// directory is needed and unknown.
pub fn expand_sync_dir(sync_dir: &str, home: Option<&str>) -> (r: Option<String>)
    ensures
        match r {
            Some(p) => expanded_dir(sync_dir@, match home {
                Some(h) => Some(h@),
                None => None,
            }) == Some(p@),
            None => expanded_dir(sync_dir@, match home {
                Some(h) => Some(h@),
                None => None,
            }) is None,
        },
{
    let v = crate::text::chars_of(sync_dir);
    if v.len() >= 2 && v[0] == '~' && v[1] == '/' {
        match home {
            Some(h) => {
                let mut rest: Vec<char> = Vec::new();
                let n = v.len();
                let mut i: usize = 2;
                while i < n
                    invariant
                        n == v@.len(),
                        2 <= i <= n,
                        rest@ == v@.subrange(2, i as int),
                    decreases n - i,
                {
                    rest.push(v[i]);
                    proof {
                        assert(v@.subrange(2, i + 1) =~= v@.subrange(2, i as int).push(v@[i as int]));
                    }
                    i = i + 1;
                }
                let tail = crate::text::string_from_chars(&rest);
                proof {
                    assert(tail@ =~= sync_dir@.skip(2));
                }
                Some(join_path(h, tail.as_str()))
            },
            None => None,
        }
    } else {
        Some(String::from_str(sync_dir))
    }
}

/// `pat` occurs somewhere in `s`.
pub open spec fn text_contains(s: Seq<char>, pat: Seq<char>) -> bool {
    crate::models::find_from(s, pat, 0) >= 0
}

/// Whether `s` holds `pat`.
pub fn str_contains(s: &str, pat: &str) -> (r: bool)
    ensures
        r == text_contains(s@, pat@),
{
    let a = crate::text::chars_of(s);
    let b = crate::text::chars_of(pat);
    crate::models::find_chars(&a, &b, 0).is_some()
}

/// The error text of a failed container creation means the container is there
/// already: it names `ContainerAlreadyExists`, says so in words, or holds `409`.
pub open spec fn already_exists_text(msg: Seq<char>) -> bool {
    text_contains(msg, "ContainerAlreadyExists"@) || text_contains(
        msg,
        "The specified container already exists"@,
    ) || text_contains(msg, "409"@)
}

/// Whether the error text of a failed container creation means the container is
/// there already.
pub fn is_already_exists_error(msg: &str) -> (r: bool)
    ensures
        r == already_exists_text(msg@),
{
    str_contains(msg, "ContainerAlreadyExists") || str_contains(
        msg,
        "The specified container already exists",
    ) || str_contains(msg, "409")
}

/// The sync directory used when none is configured.
pub const DEFAULT_SYNC_DIR: &'static str = "~/.devlog/sync";

/// A local directory that stands for the remote copy.
#[derive(Clone, Debug)]
pub struct LocalConfig {
    pub sync_dir: String,
}

/// The sync settings: the provider (`"local"` or `"azure"`) and its settings.
#[derive(Clone, Debug)]
pub struct SyncConfig {
    pub provider: String,
    pub local: Option<LocalConfig>,
    pub azure: Option<AzureConfig>,
}

impl SyncConfig {
    /// The default settings: a local copy in `~/.devlog/sync`.
    pub fn default() -> (c: SyncConfig)
        ensures
            c.provider@ == "local"@,
            c.local matches Some(l) && l.sync_dir@ == "~/.devlog/sync"@,
            c.azure is None,
    {
        SyncConfig {
            provider: String::from_str("local"),
            local: Some(LocalConfig { sync_dir: String::from_str("~/.devlog/sync") }),
            azure: None,
        }
    }

    /// The settings written for a new configuration of `provider`: the default for
    /// `"local"`, a template to fill in for `"azure"`, none for another name.
    pub fn for_provider(provider: &str) -> (r: Option<SyncConfig>)
        ensures
            provider@ == "local"@ ==> r is Some && r.unwrap().provider@ == "local"@
                && r.unwrap().local is Some && r.unwrap().local.unwrap().sync_dir@
                == "~/.devlog/sync"@ && r.unwrap().azure is None,
            provider@ == "azure"@ ==> r is Some && r.unwrap().provider@ == "azure"@
                && r.unwrap().local is None && r.unwrap().azure is Some
                && r.unwrap().azure.unwrap().connection_string@
                == "REPLACE_WITH_YOUR_AZURE_CONNECTION_STRING"@
                && r.unwrap().azure.unwrap().container_name@ == "devlog-entries"@,
            provider@ != "local"@ && provider@ != "azure"@ ==> r is None,
    {
        proof {
            reveal_strlit("local");
            reveal_strlit("azure");
            assert("azure"@[0] != "local"@[0]);
        }
        if crate::text::str_eq(provider, "local") {
            Some(SyncConfig::default())
        } else if crate::text::str_eq(provider, "azure") {
            Some(
                SyncConfig {
                    provider: String::from_str("azure"),
                    local: None,
                    azure: Some(
                        AzureConfig::new(
                            String::from_str("REPLACE_WITH_YOUR_AZURE_CONNECTION_STRING"),
                            String::from_str("devlog-entries"),
                        ),
                    ),
                },
            )
        } else {
            None
        }
    }

    /// The lines of the sync status: the provider and, for a local copy, its directory
    /// and whether it exists (`exists`).
    pub fn status_lines(&self, exists: bool) -> (ls: Vec<String>)
        ensures
            strings_view(ls@) == (match self.local {
                Some(l) => seq![
                    "  Provider: "@ + self.provider@,
                    "  Sync directory: "@ + l.sync_dir@,
                    "  Remote exists: "@ + (if exists {
                        "true"@
                    } else {
                        "false"@
                    }),
                ],
                None => seq!["  Provider: "@ + self.provider@],
            }),
    {
        let mut ls: Vec<String> = Vec::new();
        let mut l = String::from_str("  Provider: ");
        append_str(&mut l, self.provider.as_str());
        ls.push(l);
        match &self.local {
            Some(local) => {
                let mut d = String::from_str("  Sync directory: ");
                append_str(&mut d, local.sync_dir.as_str());
                ls.push(d);
                let mut e = String::from_str("  Remote exists: ");
                append_str(
                    &mut e,
                    if exists {
                        "true"
                    } else {
                        "false"
                    },
                );
                ls.push(e);
                proof {
                    assert(strings_view(ls@) =~= seq![
                        "  Provider: "@ + self.provider@,
                        "  Sync directory: "@ + local.sync_dir@,
                        "  Remote exists: "@ + (if exists {
                            "true"@
                        } else {
                            "false"@
                        }),
                    ]);
                }
            },
            None => {
                proof {
                    assert(strings_view(ls@) =~= seq!["  Provider: "@ + self.provider@]);
                }
            },
        }
        ls
    }

    /// The configured sync directory, or the default one.
    pub fn sync_dir_or_default(&self) -> (d: String)
        ensures
            match self.local {
                Some(l) => d@ == l.sync_dir@,
                None => d@ == "~/.devlog/sync"@,
            },
    {
        match &self.local {
            Some(l) => l.sync_dir.clone(),
            None => String::from_str(DEFAULT_SYNC_DIR),
        }
    }
}

} // verus!
