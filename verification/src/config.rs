//! Configuration values and the rules they must meet: the base path, the cloud
//! providers' settings, the remote and the sync settings.
use vstd::prelude::*;
use crate::cli::{char_is_space, is_space, trim, trim_str};
use crate::text::{append_str, byte_len, chars_of, utf8_len};
use crate::time::Instant;

verus! {

/// The base path used when none is configured.
pub const DEFAULT_BASE_PATH: &'static str = "~/.devlog";

/// The Azure container used when none is given.
pub const DEFAULT_AZURE_CONTAINER: &'static str = "devlog";

/// Why a configuration value was refused.
#[derive(Clone, Copy, Debug, PartialEq, Eq, Structural)]
pub enum ConfigError {
    BasePathEmpty,
    ContainerNameEmpty,
    ContainerNameLength,
    ContainerNameCharacters,
    ContainerNameHyphen,
    AwsBucketEmpty,
    AwsRegionEmpty,
    AzureConnectionStringEmpty,
    AzureContainerNameEmpty,
    ConnectionStringEmpty,
    RemoteUrlMissing,
    RemoteUrlNotHttps,
    ProviderUnsupported,
}

/// The message shown for each refusal.
pub open spec fn config_error_text(e: ConfigError) -> Seq<char> {
    match e {
        ConfigError::BasePathEmpty => "Base path cannot be empty"@,
        ConfigError::ContainerNameEmpty => "Container name cannot be empty"@,
        ConfigError::ContainerNameLength => "Container name must be between 3 and 63 characters"@,
        ConfigError::ContainerNameCharacters =>
            "Container name can only contain lowercase letters, numbers, and hyphens"@,
        ConfigError::ContainerNameHyphen => "Container name cannot start or end with a hyphen"@,
        ConfigError::AwsBucketEmpty => "AWS bucket name cannot be empty"@,
        ConfigError::AwsRegionEmpty => "AWS region cannot be empty"@,
        ConfigError::AzureConnectionStringEmpty => "Azure connection string cannot be empty"@,
        ConfigError::AzureContainerNameEmpty => "Azure container name cannot be empty"@,
        ConfigError::ConnectionStringEmpty => "Connection string cannot be empty"@,
        ConfigError::RemoteUrlMissing =>
            "Remote URL is not configured. Please set the URL in ~/.devlog/config.toml"@,
        ConfigError::RemoteUrlNotHttps => "Remote URL must use HTTPS protocol"@,
        ConfigError::ProviderUnsupported => "Only 'azure' provider is currently supported"@,
    }
}

impl ConfigError {
    /// The message shown for the refusal.
    pub fn message(&self) -> (m: &'static str)
        ensures
            m@ == config_error_text(*self),
    {
        match self {
            ConfigError::BasePathEmpty => "Base path cannot be empty",
            ConfigError::ContainerNameEmpty => "Container name cannot be empty",
            ConfigError::ContainerNameLength => "Container name must be between 3 and 63 characters",
            ConfigError::ContainerNameCharacters =>
                "Container name can only contain lowercase letters, numbers, and hyphens",
            ConfigError::ContainerNameHyphen => "Container name cannot start or end with a hyphen",
            ConfigError::AwsBucketEmpty => "AWS bucket name cannot be empty",
            ConfigError::AwsRegionEmpty => "AWS region cannot be empty",
            ConfigError::AzureConnectionStringEmpty => "Azure connection string cannot be empty",
            ConfigError::AzureContainerNameEmpty => "Azure container name cannot be empty",
            ConfigError::ConnectionStringEmpty => "Connection string cannot be empty",
            ConfigError::RemoteUrlMissing =>
                "Remote URL is not configured. Please set the URL in ~/.devlog/config.toml",
            ConfigError::RemoteUrlNotHttps => "Remote URL must use HTTPS protocol",
            ConfigError::ProviderUnsupported => "Only 'azure' provider is currently supported",
        }
    }
}

/// A base path: the trimmed text, which must not be empty.
pub fn validate_base_path(path: &str) -> (r: Result<String, ConfigError>)
    ensures
        trim(path@).len() == 0 ==> r == Err::<String, ConfigError>(ConfigError::BasePathEmpty),
        trim(path@).len() > 0 ==> (r matches Ok(p) && p@ == trim(path@)),
{
    let p = trim_str(path);
    if p.as_str().is_empty() {
        Err(ConfigError::BasePathEmpty)
    } else {
        Ok(p)
    }
}

/// A character allowed in a container name: a lowercase ASCII letter, a digit or `-`.
pub open spec fn container_char(c: char) -> bool {
    ('a' <= c <= 'z') || ('0' <= c <= '9') || c == '-'
}

/// The refusal of a trimmed container name, if any, checked in order: empty, length
/// in bytes outside 3..=63, a character other than lowercase letters, digits and
/// hyphens, a hyphen at either end.
pub open spec fn container_name_error(name: Seq<char>) -> Option<ConfigError> {
    if name.len() == 0 {
        Some(ConfigError::ContainerNameEmpty)
    } else if byte_len(name) < 3 || byte_len(name) > 63 {
        Some(ConfigError::ContainerNameLength)
    } else if !(forall|i: int| 0 <= i < name.len() ==> container_char(#[trigger] name[i])) {
        Some(ConfigError::ContainerNameCharacters)
    } else if name[0] == '-' || name.last() == '-' {
        Some(ConfigError::ContainerNameHyphen)
    } else {
        None
    }
}

/// A container name for Azure: the trimmed text, when it meets Azure's rules.
pub fn validate_container_name(name: &str) -> (r: Result<String, ConfigError>)
    ensures
        match container_name_error(trim(name@)) {
            Some(e) => r == Err::<String, ConfigError>(e),
            None => r matches Ok(n) && n@ == trim(name@),
        },
{
    let n = trim_str(name);
    if n.as_str().is_empty() {
        return Err(ConfigError::ContainerNameEmpty);
    }
    let len = utf8_len(n.as_str());
    if len < 3 || len > 63 {
        return Err(ConfigError::ContainerNameLength);
    }
    let v = chars_of(n.as_str());
    let count = v.len();
    let mut i: usize = 0;
    while i < count
        invariant
            count == v@.len(),
            v@ == n@,
            n@ == trim(name@),
            n@.len() > 0,
            3 <= byte_len(n@) <= 63,
            i <= count,
            forall|k: int| 0 <= k < i ==> container_char(#[trigger] v@[k]),
        decreases count - i,
    {
        let c = v[i];
        if !(('a' <= c && c <= 'z') || ('0' <= c && c <= '9') || c == '-') {
            proof {
                assert(!container_char(trim(name@)[i as int]));
            }
            return Err(ConfigError::ContainerNameCharacters);
        }
        i = i + 1;
    }
    if v[0] == '-' || v[count - 1] == '-' {
        return Err(ConfigError::ContainerNameHyphen);
    }
    Ok(n)
}

/// Settings of an AWS S3 bucket.
#[derive(Clone, Debug)]
pub struct AwsConfig {
    pub bucket: String,
    pub region: String,
}

impl AwsConfig {
    /// The settings for `bucket` in `region`.
    pub fn new(bucket: String, region: String) -> (c: AwsConfig)
        ensures
            c.bucket@ == bucket@,
            c.region@ == region@,
    {
        AwsConfig { bucket, region }
    }

    /// The bucket and the region must be given.
    pub fn validate(&self) -> (r: Result<(), ConfigError>)
        ensures
            self.bucket@.len() == 0 ==> r == Err::<(), ConfigError>(ConfigError::AwsBucketEmpty),
            self.bucket@.len() > 0 && self.region@.len() == 0 ==> r == Err::<(), ConfigError>(
                ConfigError::AwsRegionEmpty,
            ),
            self.bucket@.len() > 0 && self.region@.len() > 0 ==> r is Ok,
    {
        if self.bucket.as_str().is_empty() {
            return Err(ConfigError::AwsBucketEmpty);
        }
        if self.region.as_str().is_empty() {
            return Err(ConfigError::AwsRegionEmpty);
        }
        Ok(())
    }
}

/// Settings of an Azure Blob Storage container.
#[derive(Clone, Debug)]
pub struct AzureConfig {
    pub connection_string: String,
    pub container_name: String,
}

impl AzureConfig {
    /// The settings for a connection string and a container.
    pub fn new(connection_string: String, container_name: String) -> (c: AzureConfig)
        ensures
            c.connection_string@ == connection_string@,
            c.container_name@ == container_name@,
    {
        AzureConfig { connection_string, container_name }
    }

    /// The connection string and the container name must be given.
    pub fn validate(&self) -> (r: Result<(), ConfigError>)
        ensures
            self.connection_string@.len() == 0 ==> r == Err::<(), ConfigError>(
                ConfigError::AzureConnectionStringEmpty,
            ),
            self.connection_string@.len() > 0 && self.container_name@.len() == 0 ==> r == Err::<
                (),
                ConfigError,
            >(ConfigError::AzureContainerNameEmpty),
            self.connection_string@.len() > 0 && self.container_name@.len() > 0 ==> r is Ok,
    {
        if self.connection_string.as_str().is_empty() {
            return Err(ConfigError::AzureConnectionStringEmpty);
        }
        if self.container_name.as_str().is_empty() {
            return Err(ConfigError::AzureContainerNameEmpty);
        }
        Ok(())
    }
}

/// The connection string given for Azure: trimmed, and not empty.
pub fn check_connection_string(input: &str) -> (r: Result<String, ConfigError>)
    ensures
        trim(input@).len() == 0 ==> r == Err::<String, ConfigError>(
            ConfigError::ConnectionStringEmpty,
        ),
        trim(input@).len() > 0 ==> (r matches Ok(s) && s@ == trim(input@)),
{
    let s = trim_str(input);
    if s.as_str().is_empty() {
        Err(ConfigError::ConnectionStringEmpty)
    } else {
        Ok(s)
    }
}

/// The Azure settings from a checked connection string and the container name typed:
/// the settings when the name is accepted, otherwise the refusal, after which the
/// name is asked again.
pub fn azure_settings(connection_string: &str, container_input: &str) -> (r: Result<
    AzureConfig,
    ConfigError,
>)
    requires
        connection_string@.len() > 0,
    ensures
        match container_name_error(trim(container_input@)) {
            Some(e) => r == Err::<AzureConfig, ConfigError>(e),
            None => r matches Ok(c) && c.connection_string@ == connection_string@
                && c.container_name@ == trim(container_input@),
        },
{
    match validate_container_name(container_input) {
        Ok(name) => {
            let config = AzureConfig::new(String::from_str(connection_string), name);
            match config.validate() {
                Ok(()) => Ok(config),
                Err(e) => Err(e),
            }
        },
        Err(e) => Err(e),
    }
}

/// Where the remote copy of the journal lives.
#[derive(Clone, Debug)]
pub struct RemoteConfig {
    pub provider: String,
    pub url: String,
}

/// When the journal was last pushed.
#[derive(Clone, Debug)]
pub struct SyncConfig {
    pub last_push_timestamp: Option<Instant>,
}

/// The whole configuration.
#[derive(Clone, Debug)]
pub struct DevLogConfig {
    pub remote: RemoteConfig,
    pub sync: SyncConfig,
}

/// The text begins with `prefix`.
pub open spec fn starts_with(s: Seq<char>, prefix: Seq<char>) -> bool {
    s.len() >= prefix.len() && s.take(prefix.len() as int) == prefix
}

/// Whether `s` begins with `prefix`.
pub fn str_starts_with(s: &str, prefix: &str) -> (r: bool)
    ensures
        r == starts_with(s@, prefix@),
{
    let a = chars_of(s);
    let b = chars_of(prefix);
    if a.len() < b.len() {
        return false;
    }
    let n = b.len();
    let mut i: usize = 0;
    while i < n
        invariant
            n == b@.len(),
            b@ == prefix@,
            a@ == s@,
            n <= a@.len(),
            i <= n,
            forall|k: int| 0 <= k < i ==> a@[k] == b@[k],
        decreases n - i,
    {
        if a[i] != b[i] {
            proof {
                assert(a@.take(n as int)[i as int] != b@[i as int]);
            }
            return false;
        }
        i = i + 1;
    }
    proof {
        assert(a@.take(n as int) =~= b@);
    }
    true
}

impl DevLogConfig {
    /// The configuration used when there is none: Azure, no URL, never pushed.
    pub fn default() -> (c: DevLogConfig)
        ensures
            c.remote.provider@ == "azure"@,
            c.remote.url@.len() == 0,
            c.sync.last_push_timestamp is None,
    {
        DevLogConfig {
            remote: RemoteConfig { provider: String::from_str("azure"), url: String::new() },
            sync: SyncConfig { last_push_timestamp: None },
        }
    }

    /// The remote URL must be given and use HTTPS, and the provider must be Azure.
    pub fn validate(&self) -> (r: Result<(), ConfigError>)
        ensures
            self.remote.url@.len() == 0 ==> r == Err::<(), ConfigError>(
                ConfigError::RemoteUrlMissing,
            ),
            self.remote.url@.len() > 0 && !starts_with(self.remote.url@, "https://"@) ==> r
                == Err::<(), ConfigError>(ConfigError::RemoteUrlNotHttps),
            self.remote.url@.len() > 0 && starts_with(self.remote.url@, "https://"@)
                && self.remote.provider@ != "azure"@ ==> r == Err::<(), ConfigError>(
                ConfigError::ProviderUnsupported,
            ),
            self.remote.url@.len() > 0 && starts_with(self.remote.url@, "https://"@)
                && self.remote.provider@ == "azure"@ ==> r is Ok,
    {
        if self.remote.url.as_str().is_empty() {
            return Err(ConfigError::RemoteUrlMissing);
        }
        if !str_starts_with(self.remote.url.as_str(), "https://") {
            return Err(ConfigError::RemoteUrlNotHttps);
        }
        if !crate::text::str_eq(self.remote.provider.as_str(), "azure") {
            return Err(ConfigError::ProviderUnsupported);
        }
        Ok(())
    }

    /// Records the time of a push.
    pub fn set_last_push(&mut self, at: Instant)
        ensures
            final(self).sync.last_push_timestamp == Some(at),
            final(self).remote == old(self).remote,
    {
        self.sync.last_push_timestamp = Some(at);
    }
}

/// The configuration file: `devlog/config.toml` in the system's configuration
/// directory, else in `~/.config`; none when neither is known.
pub fn config_file_path(config_dir: Option<&str>, home: Option<&str>) -> (r: Option<String>)
    ensures
        match (config_dir, home) {
            (Some(c), _) => r matches Some(p) && p@ == crate::data::path_join(
                crate::data::path_join(c@, "devlog"@),
                "config.toml"@,
            ),
            (None, Some(h)) => r matches Some(p) && p@ == crate::data::path_join(
                crate::data::path_join(crate::data::path_join(h@, ".config"@), "devlog"@),
                "config.toml"@,
            ),
            (None, None) => r is None,
        },
{
    let dir = match config_dir {
        Some(c) => String::from_str(c),
        None => match home {
            Some(h) => crate::data::join_path(h, ".config"),
            None => return None,
        },
    };
    let app_dir = crate::data::join_path(dir.as_str(), "devlog");
    Some(crate::data::join_path(app_dir.as_str(), "config.toml"))
}

/// The cloud providers that sync can be configured for.
#[derive(Clone, Copy, Debug, PartialEq, Eq, Structural)]
pub enum SyncProvider {
    Azure,
    Aws,
    Gcp,
}

/// Why a provider was refused.
#[derive(Clone, Debug, PartialEq, Eq)]
pub enum ProviderError {
    /// AWS is known but not supported yet.
    AwsNotSupported,
    /// Google Cloud is known but not supported yet.
    GcpNotSupported,
    /// The name is not a known provider.
    Unknown(String),
}

/// `a` equals `b` when ASCII letters are compared without case.
pub open spec fn ascii_eq_ignore_case(a: Seq<char>, b: Seq<char>) -> bool {
    a.len() == b.len() && forall|i: int| 0 <= i < a.len() ==> ascii_lower(#[trigger] a[i]) == ascii_lower(b[i])
}

/// `c` with an ASCII capital made small.
pub open spec fn ascii_lower(c: char) -> char {
    if 'A' <= c <= 'Z' {
        ((c as u32) + 32) as char
    } else {
        c
    }
}

/// Whether two texts are equal when ASCII letters are compared without case.
pub fn eq_ignore_ascii_case(a: &str, b: &str) -> (r: bool)
    ensures
        r == ascii_eq_ignore_case(a@, b@),
{
    let x = chars_of(a);
    let y = chars_of(b);
    if x.len() != y.len() {
        return false;
    }
    let n = x.len();
    let mut i: usize = 0;
    while i < n
        invariant
            n == x@.len(),
            n == y@.len(),
            x@ == a@,
            y@ == b@,
            i <= n,
            forall|k: int| 0 <= k < i ==> ascii_lower(#[trigger] x@[k]) == ascii_lower(y@[k]),
        decreases n - i,
    {
        let cx = x[i];
        let cy = y[i];
        let lx = if 'A' <= cx && cx <= 'Z' {
            ((cx as u32) + 32) as u8 as char
        } else {
            cx
        };
        let ly = if 'A' <= cy && cy <= 'Z' {
            ((cy as u32) + 32) as u8 as char
        } else {
            cy
        };
        proof {
            assert(lx == ascii_lower(x@[i as int]));
            assert(ly == ascii_lower(y@[i as int]));
        }
        if lx != ly {
            return false;
        }
        i = i + 1;
    }
    true
}

/// The provider named on the command line, compared without case: Azure is
/// configured, AWS and Google Cloud are refused as not yet supported.
pub fn parse_provider(name: &str) -> (r: Result<SyncProvider, ProviderError>)
    ensures
        ascii_eq_ignore_case(name@, "azure"@) ==> r == Ok::<SyncProvider, ProviderError>(
            SyncProvider::Azure,
        ),
        !ascii_eq_ignore_case(name@, "azure"@) && ascii_eq_ignore_case(name@, "aws"@) ==> r
            == Err::<SyncProvider, ProviderError>(ProviderError::AwsNotSupported),
        !ascii_eq_ignore_case(name@, "azure"@) && !ascii_eq_ignore_case(name@, "aws"@)
            && ascii_eq_ignore_case(name@, "gcp"@) ==> r == Err::<SyncProvider, ProviderError>(
            ProviderError::GcpNotSupported,
        ),
        !ascii_eq_ignore_case(name@, "azure"@) && !ascii_eq_ignore_case(name@, "aws"@)
            && !ascii_eq_ignore_case(name@, "gcp"@) ==> (r matches Err(ProviderError::Unknown(n))
            && n@ == name@),
{
    if eq_ignore_ascii_case(name, "azure") {
        Ok(SyncProvider::Azure)
    } else if eq_ignore_ascii_case(name, "aws") {
        Err(ProviderError::AwsNotSupported)
    } else if eq_ignore_ascii_case(name, "gcp") {
        Err(ProviderError::GcpNotSupported)
    } else {
        Err(ProviderError::Unknown(String::from_str(name)))
    }
}

/// The provider picked from the list of cloud providers by its place: Azure Blob
/// Storage, AWS S3, Google Cloud Storage; the last two are not supported yet.
pub fn provider_for_selection(index: usize) -> (r: Option<Result<SyncProvider, ProviderError>>)
    ensures
        index == 0 ==> r == Some(Ok::<SyncProvider, ProviderError>(SyncProvider::Azure)),
        index == 1 ==> r == Some(Err::<SyncProvider, ProviderError>(ProviderError::AwsNotSupported)),
        index == 2 ==> r == Some(Err::<SyncProvider, ProviderError>(ProviderError::GcpNotSupported)),
        index > 2 ==> r is None,
{
    if index == 0 {
        Some(Ok(SyncProvider::Azure))
    } else if index == 1 {
        Some(Err(ProviderError::AwsNotSupported))
    } else if index == 2 {
        Some(Err(ProviderError::GcpNotSupported))
    } else {
        None
    }
}

impl ProviderError {
    /// The message shown for the refusal.
    pub fn message(&self) -> (m: String)
        ensures
            match self {
                ProviderError::AwsNotSupported => m@
                    == "AWS sync is not yet supported. Currently supported: azure"@,
                ProviderError::GcpNotSupported => m@
                    == "Google Cloud sync is not yet supported. Currently supported: azure"@,
                ProviderError::Unknown(n) => m@ == "Unsupported sync provider: "@ + n@
                    + ". Supported providers: azure (aws, gcp coming soon)"@,
            },
    {
        match self {
            ProviderError::AwsNotSupported => String::from_str(
                "AWS sync is not yet supported. Currently supported: azure",
            ),
            ProviderError::GcpNotSupported => String::from_str(
                "Google Cloud sync is not yet supported. Currently supported: azure",
            ),
            ProviderError::Unknown(n) => {
                let mut m = String::from_str("Unsupported sync provider: ");
                append_str(&mut m, n.as_str());
                append_str(&mut m, ". Supported providers: azure (aws, gcp coming soon)");
                m
            },
        }
    }
}

/// The pieces of `s` between the occurrences of `sep` (`str::split` on a character).
pub open spec fn split_char(s: Seq<char>, sep: char) -> Seq<Seq<char>>
    decreases s.len(),
{
    if s.len() == 0 {
        seq![Seq::<char>::empty()]
    } else {
        let prev = split_char(s.drop_last(), sep);
        if s.last() == sep {
            prev.push(Seq::<char>::empty())
        } else {
            prev.update(prev.len() - 1, prev.last().push(s.last()))
        }
    }
}


/// Splits characters at every `sep`.
fn split_char_vec(chars: &Vec<char>, sep: char) -> (parts: Vec<Vec<char>>)
    ensures
        parts@.map_values(|p: Vec<char>| p@) == split_char(chars@, sep),
{
    let mut parts: Vec<Vec<char>> = Vec::new();
    let mut cur: Vec<char> = Vec::new();
    let n = chars.len();
    let mut i: usize = 0;
    proof {
        assert(chars@.take(0) =~= Seq::<char>::empty());
        assert(parts@.map_values(|p: Vec<char>| p@).push(cur@) =~= seq![Seq::<char>::empty()]);
    }
    while i < n
        invariant
            n == chars@.len(),
            i <= n,
            parts@.map_values(|p: Vec<char>| p@).push(cur@) == split_char(chars@.take(i as int), sep),
        decreases n - i,
    {
        let c = chars[i];
        proof {
            assert(chars@.take(i + 1).drop_last() =~= chars@.take(i as int));
            assert(chars@.take(i + 1).last() == c);
        }
        if c == sep {
            let ghost old_parts = parts@;
            let ghost old_cur = cur@;
            parts.push(cur);
            cur = Vec::new();
            proof {
                assert(parts@.map_values(|p: Vec<char>| p@) =~= old_parts.map_values(
                    |p: Vec<char>| p@,
                ).push(old_cur));
            }
        } else {
            let ghost old_cur = cur@;
            cur.push(c);
            proof {
                let q = parts@.map_values(|p: Vec<char>| p@).push(old_cur);
                assert(parts@.map_values(|p: Vec<char>| p@).push(cur@) =~= q.update(
                    q.len() - 1,
                    q.last().push(c),
                ));
            }
        }
        i = i + 1;
    }
    let ghost old_parts = parts@;
    let ghost old_cur = cur@;
    parts.push(cur);
    proof {
        assert(chars@.take(n as int) =~= chars@);
        assert(parts@.map_values(|p: Vec<char>| p@) =~= old_parts.map_values(|p: Vec<char>| p@).push(
            old_cur,
        ));
    }
    parts
}

/// The place of the first `c` in `s`, or -1.
pub open spec fn first_pos(s: Seq<char>, c: char) -> int
    decreases s.len(),
{
    if s.len() == 0 {
        -1
    } else if s[0] == c {
        0
    } else if first_pos(s.drop_first(), c) < 0 {
        -1
    } else {
        first_pos(s.drop_first(), c) + 1
    }
}

/// The first `c` is where the first match is found.
proof fn lemma_first_pos(s: Seq<char>, c: char, i: int)
    requires
        0 <= i <= s.len(),
        forall|k: int| 0 <= k < i ==> s[k] != c,
    ensures
        i < s.len() && s[i] == c ==> first_pos(s, c) == i,
        i == s.len() ==> first_pos(s, c) == -1,
    decreases i,
{
    if i > 0 {
        lemma_first_pos(s.drop_first(), c, i - 1);
    } else if s.len() > 0 && s[0] != c {
    }
}

/// A `key=value` setting: the text before the first `=` and the text after it.
pub open spec fn key_value(part: Seq<char>) -> Option<(Seq<char>, Seq<char>)> {
    let i = first_pos(part, '=');
    if i >= 0 {
        Some((part.take(i), part.skip(i + 1)))
    } else {
        None
    }
}

/// The value of the last setting named `name` among `parts`, or nothing.
pub open spec fn setting_value(parts: Seq<Seq<char>>, name: Seq<char>) -> Seq<char>
    decreases parts.len(),
{
    if parts.len() == 0 {
        Seq::empty()
    } else {
        let kv = key_value(parts.last());
        if kv is Some && kv.unwrap().0 == name {
            kv.unwrap().1
        } else {
            setting_value(parts.drop_last(), name)
        }
    }
}

/// The account name and key of an Azure connection string, when both are given.
pub open spec fn account_of(conn: Seq<char>) -> Option<(Seq<char>, Seq<char>)> {
    let ps = split_char(conn, ';');
    let n = setting_value(ps, "AccountName"@);
    let k = setting_value(ps, "AccountKey"@);
    if n.len() == 0 || k.len() == 0 {
        None
    } else {
        Some((n, k))
    }
}

/// Reads the account name and key from an Azure connection string, made of
/// `key=value` settings between `;` (other settings are ignored, a later setting
/// takes the place of an earlier one).
pub fn parse_connection_string(conn: &str) -> (r: Option<(String, String)>)
    ensures
        match r {
            Some((n, k)) => account_of(conn@) == Some((n@, k@)),
            None => account_of(conn@) is None,
        },
{
    let chars = chars_of(conn);
    let parts = split_char_vec(&chars, ';');
    let ghost views = parts@.map_values(|p: Vec<char>| p@);
    let name_key = chars_of("AccountName");
    let key_key = chars_of("AccountKey");
    proof {
        reveal_strlit("AccountName");
        reveal_strlit("AccountKey");
        assert("AccountName"@[7] != "AccountKey"@[7]);
    }
    let mut name: Vec<char> = Vec::new();
    let mut key: Vec<char> = Vec::new();
    let m = parts.len();
    let mut i: usize = 0;
    proof {
        assert(views.take(0) =~= Seq::<Seq<char>>::empty());
    }
    while i < m
        invariant
            m == parts@.len(),
            views == parts@.map_values(|p: Vec<char>| p@),
            name_key@ == "AccountName"@,
            key_key@ == "AccountKey"@,
            "AccountName"@ != "AccountKey"@,
            i <= m,
            name@ == setting_value(views.take(i as int), "AccountName"@),
            key@ == setting_value(views.take(i as int), "AccountKey"@),
        decreases m - i,
    {
        let part = &parts[i];
        let pre = Ghost(views.take(i + 1));
        proof {
            assert(pre@.drop_last() =~= views.take(i as int));
            assert(pre@.last() == part@);
        }
        let len = part.len();
        let mut j: usize = 0;
        while j < len && part[j] != '='
            invariant
                len == part@.len(),
                j <= len,
                forall|k: int| 0 <= k < j ==> part@[k] != '=',
            decreases len - j,
        {
            j = j + 1;
        }
        proof {
            lemma_first_pos(part@, '=', j as int);
        }
        if j < len {
            let mut k_chars: Vec<char> = Vec::new();
            let mut a: usize = 0;
            while a < j
                invariant
                    j < len == part@.len(),
                    a <= j,
                    k_chars@ == part@.take(a as int),
                decreases j - a,
            {
                k_chars.push(part[a]);
                proof {
                    assert(part@.take(a + 1) =~= part@.take(a as int).push(part@[a as int]));
                }
                a = a + 1;
            }
            let mut v_chars: Vec<char> = Vec::new();
            let mut b: usize = j + 1;
            while b < len
                invariant
                    j < len == part@.len(),
                    j + 1 <= b <= len,
                    v_chars@ == part@.subrange(j + 1, b as int),
                decreases len - b,
            {
                v_chars.push(part[b]);
                proof {
                    assert(part@.subrange(j + 1, b + 1) =~= part@.subrange(j + 1, b as int).push(
                        part@[b as int],
                    ));
                }
                b = b + 1;
            }
            proof {
                assert(v_chars@ =~= part@.skip(j + 1));
                assert(k_chars@ =~= part@.take(j as int));
                assert(key_value(part@) == Some((k_chars@, v_chars@)));
            }
            if chars_vec_eq(&k_chars, &name_key) {
                name = v_chars;
            } else if chars_vec_eq(&k_chars, &key_key) {
                key = v_chars;
            }
        }
        i = i + 1;
    }
    proof {
        assert(views.take(m as int) =~= views);
        assert(views == split_char(conn@, ';'));
    }
    if name.len() == 0 || key.len() == 0 {
        return None;
    }
    Some((crate::text::string_from_chars(&name), crate::text::string_from_chars(&key)))
}

/// Whether two character sequences are equal.
fn chars_vec_eq(a: &Vec<char>, b: &Vec<char>) -> (r: bool)
    ensures
        r == (a@ == b@),
{
    if a.len() != b.len() {
        return false;
    }
    let n = a.len();
    let mut i: usize = 0;
    while i < n
        invariant
            n == a@.len(),
            n == b@.len(),
            i <= n,
            forall|k: int| 0 <= k < i ==> a@[k] == b@[k],
        decreases n - i,
    {
        if a[i] != b[i] {
            return false;
        }
        i = i + 1;
    }
    proof {
        assert(a@ =~= b@);
    }
    true
}

/// The lines that describe the cloud sync settings: disabled; or the provider, and for
/// Azure with a container, the container and that it is configured.
pub open spec fn sync_summary_text(sync: Option<(SyncProvider, Option<Seq<char>>)>) -> Seq<Seq<char>> {
    match sync {
        None => seq!["  Cloud Sync: Disabled"@],
        Some((SyncProvider::Azure, Some(c))) => seq![
            "  Cloud Sync: Azure Blob Storage"@,
            "    Container: "@ + c,
            "    Status: \u{2713} Configured"@,
        ],
        Some((SyncProvider::Azure, None)) => seq!["  Cloud Sync: Azure Blob Storage"@],
        Some((SyncProvider::Aws, _)) => seq!["  Cloud Sync: AWS S3 (not yet supported)"@],
        Some((SyncProvider::Gcp, _)) => seq!["  Cloud Sync: Google Cloud Storage (not yet supported)"@],
    }
}

/// The summary of a configuration: a title, the base path, and the cloud sync lines.
pub fn config_summary_lines(base_path: &str, sync: Option<(SyncProvider, Option<String>)>) -> (ls: Vec<String>)
    ensures
        crate::annotations::strings_view(ls@) == seq!["DevLog Configuration:"@, "  Base path: "@ + base_path@]
            + sync_summary_text(
            match sync {
                Some((p, c)) => Some((p, match c {
                    Some(x) => Some(x@),
                    None => None,
                })),
                None => None,
            },
        ),
{
    let mut ls: Vec<String> = Vec::new();
    ls.push(String::from_str("DevLog Configuration:"));
    let mut b = String::from_str("  Base path: ");
    append_str(&mut b, base_path);
    ls.push(b);
    match sync {
        None => {
            ls.push(String::from_str("  Cloud Sync: Disabled"));
        },
        Some((SyncProvider::Azure, Some(c))) => {
            ls.push(String::from_str("  Cloud Sync: Azure Blob Storage"));
            let mut l = String::from_str("    Container: ");
            append_str(&mut l, c.as_str());
            ls.push(l);
            ls.push(String::from_str("    Status: \u{2713} Configured"));
        },
        Some((SyncProvider::Azure, None)) => {
            ls.push(String::from_str("  Cloud Sync: Azure Blob Storage"));
        },
        Some((SyncProvider::Aws, _)) => {
            ls.push(String::from_str("  Cloud Sync: AWS S3 (not yet supported)"));
        },
        Some((SyncProvider::Gcp, _)) => {
            ls.push(String::from_str("  Cloud Sync: Google Cloud Storage (not yet supported)"));
        },
    }
    assert(crate::annotations::strings_view(ls@) =~= seq!["DevLog Configuration:"@, "  Base path: "@ + base_path@]
        + sync_summary_text(
        match sync {
            Some((p, c)) => Some((p, match c {
                Some(x) => Some(x@),
                None => None,
            })),
            None => None,
        },
    ));
    ls
}

/// A container name is accepted exactly when the trimmed text is 3 to 63 bytes long,
/// made only of ASCII lowercase letters, ASCII digits and hyphens, and neither starts
/// nor ends with a hyphen; a name of the right length that holds any other character
/// (such as `_` or an uppercase letter) is refused for its characters.
pub proof fn law_container_name_characters(name: Seq<char>)
    ensures
        container_name_error(trim(name)) is None ==> {
            let n = trim(name);
            &&& 3 <= byte_len(n) <= 63
            &&& forall|i: int| 0 <= i < n.len() ==> ({
                let c = #[trigger] n[i];
                ('a' <= c && c <= 'z') || ('0' <= c && c <= '9') || c == '-'
            })
            &&& n[0] != '-'
            &&& n[n.len() - 1] != '-'
        },
        ({
            let n = trim(name);
            n.len() > 0 && 3 <= byte_len(n) <= 63 && (exists|i: int|
                0 <= i < n.len() && !({
                    let c = #[trigger] n[i];
                    ('a' <= c && c <= 'z') || ('0' <= c && c <= '9') || c == '-'
                }))
        }) ==> container_name_error(trim(name)) == Some(ConfigError::ContainerNameCharacters),
        ({
            let n = trim(name);
            &&& n.len() > 0
            &&& 3 <= byte_len(n) <= 63
            &&& forall|i: int| 0 <= i < n.len() ==> ({
                let c = #[trigger] n[i];
                ('a' <= c && c <= 'z') || ('0' <= c && c <= '9') || c == '-'
            })
            &&& n[0] != '-'
            &&& n[n.len() - 1] != '-'
        }) ==> container_name_error(trim(name)) is None,
{
}

} // verus!
