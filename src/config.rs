use vstd::prelude::*;

use crate::error::GitsError;
use crate::git::{home_dir, home_or_error};
use crate::inventory::views;
use crate::repo::GitRepo;
use crate::text::join;
use crate::time::{parse_timestamp, timestamp_of, Timestamp};

verus! {

/// The API style of a remote host.
#[derive(Debug, Clone, Copy, PartialEq, Eq, Structural)]
pub enum HostKind {
    GitHub,
    GitLab,
}

/// The settings of one remote host.
#[derive(Debug)]
pub struct RemoteSettings {
    /// The name of the environment variable that holds the host's token.
    pub token: String,
    pub project_directory: String,
    pub api_url: String,
    pub watch_groups: Vec<String>,
    pub watch_projects: Vec<String>,
    /// The watermark: creation time of the newest project already synced.
    pub last_pull: String,
    pub host_kind: HostKind,
}

/// The settings of the first entry for `host`.
pub open spec fn lookup(remotes: Seq<(String, RemoteSettings)>, host: Seq<char>) -> Option<RemoteSettings>
    decreases remotes.len(),
{
    if remotes.len() == 0 {
        None
    } else if remotes[0].0@ == host {
        Some(remotes[0].1)
    } else {
        lookup(remotes.drop_first(), host)
    }
}

/// No host is configured twice.
pub open spec fn hosts_unique(remotes: Seq<(String, RemoteSettings)>) -> bool {
    forall|i: int, j: int| 0 <= i < j < remotes.len() ==> remotes[i].0@ != remotes[j].0@
}

/// With each host configured once, a host's settings are those of its entry.
pub proof fn lemma_lookup_entry(remotes: Seq<(String, RemoteSettings)>, i: int)
    requires
        hosts_unique(remotes),
        0 <= i < remotes.len(),
    ensures
        lookup(remotes, remotes[i].0@) == Some(remotes[i].1),
    decreases i,
{
    if i > 0 {
        let rest = remotes.drop_first();
        assert(rest[i - 1] == remotes[i]);
        assert(hosts_unique(rest));
        lemma_lookup_entry(rest, i - 1);
    }
}

/// The configured remote hosts, each with its settings, in the order the
/// configuration gives them.
pub struct RemotesConfig {
    pub remotes: Vec<(String, RemoteSettings)>,
}

impl RemotesConfig {
    /// No host is configured twice, as a table of the configuration file
    /// ensures.
    pub open spec fn well_formed(&self) -> bool {
        hosts_unique(self.remotes@)
    }

    /// The settings of `host`, if it is configured.
    pub fn settings_for(&self, host: &str) -> (r: Option<&RemoteSettings>)
        ensures
            r matches Some(s) ==> lookup(self.remotes@, host@) == Some(*s),
            r is None ==> lookup(self.remotes@, host@) is None,
    {
        let h = host.to_owned();
        let mut i: usize = 0;
        assert(self.remotes@.skip(0) =~= self.remotes@);
        while i < self.remotes.len()
            invariant
                h@ == host@,
                0 <= i <= self.remotes@.len(),
                lookup(self.remotes@, host@) == lookup(self.remotes@.skip(i as int), host@),
            decreases self.remotes@.len() - i,
        {
            assert(self.remotes@.skip(i as int).drop_first() =~= self.remotes@.skip(i + 1));
            if self.remotes[i].0 == h {
                return Some(&self.remotes[i].1);
            }
            i = i + 1;
        }
        None
    }

    /// The watermark of `host`: a `ConfigError` holding the host where it is
    /// not configured, a `ParseError` where its timestamp is malformed.
    pub fn get_last_sync(&self, host: &str) -> (r: Result<Timestamp, GitsError>)
        ensures
            lookup(self.remotes@, host@) is None ==> (r matches Err(GitsError::ConfigError(h))
                && h@ == host@),
            lookup(self.remotes@, host@) matches Some(s) ==> match timestamp_of(s.last_pull@) {
                Some(t) => r == Ok::<Timestamp, GitsError>(t),
                None => r matches Err(GitsError::ParseError(p)) && p@ == s.last_pull@,
            },
    {
        match self.settings_for(host) {
            Some(s) => parse_timestamp(s.last_pull.as_str()),
            None => Err(GitsError::ConfigError(host.to_owned())),
        }
    }

    /// The API base address of `host`; a `ConfigError` holding the host where it
    /// is not configured.
    pub fn get_api_url(&self, host: &str) -> (r: Result<String, GitsError>)
        ensures
            lookup(self.remotes@, host@) is None ==> (r matches Err(GitsError::ConfigError(h))
                && h@ == host@),
            lookup(self.remotes@, host@) matches Some(s) ==> (r matches Ok(u) && u@ == s.api_url@),
    {
        match self.settings_for(host) {
            Some(s) => Ok(s.api_url.clone()),
            None => Err(GitsError::ConfigError(host.to_owned())),
        }
    }

    /// The name of the environment variable that holds the token of `host`; a
    /// `ConfigError` holding the host where it is not configured.
    pub fn get_token_variable(&self, host: &str) -> (r: Result<String, GitsError>)
        ensures
            lookup(self.remotes@, host@) is None ==> (r matches Err(GitsError::ConfigError(h))
                && h@ == host@),
            lookup(self.remotes@, host@) matches Some(s) ==> (r matches Ok(u) && u@ == s.token@),
    {
        match self.settings_for(host) {
            Some(s) => Ok(s.token.clone()),
            None => Err(GitsError::ConfigError(host.to_owned())),
        }
    }
}

/// Whether `names` holds `name`.
fn holds_name(names: &Vec<String>, name: &String) -> (r: bool)
    ensures
        r == views(names@).contains(name@),
{
    let mut i: usize = 0;
    while i < names.len()
        invariant
            0 <= i <= names@.len(),
            forall|k: int| 0 <= k < i ==> names@[k]@ != name@,
        decreases names@.len() - i,
    {
        if names[i] == *name {
            assert(views(names@)[i as int] == name@);
            return true;
        }
        i = i + 1;
    }
    proof {
        if views(names@).contains(name@) {
            let k = choose|k: int| 0 <= k < views(names@).len() && views(names@)[k] == name@;
            assert(names@[k]@ == name@);
        }
    }
    false
}

/// A repository is watched when its group is a watched group or
/// `<group>/<name>` is a watched project.
pub fn is_watched(settings: &RemoteSettings, repo: &GitRepo) -> (r: bool)
    ensures
        r == (views(settings.watch_groups@).contains(repo.slug@) || views(
            settings.watch_projects@,
        ).contains(repo.slug@ + "/"@ + repo.repo_name@)),
{
    let mut full = join(repo.slug.as_str(), "/");
    full.append(repo.repo_name.as_str());
    holds_name(&settings.watch_groups, &repo.slug) || holds_name(&settings.watch_projects, &full)
}

/// Where the configuration and the inventories live.
pub struct RealGitsConfig {
    pub root: String,
}

impl RealGitsConfig {
    /// The configuration under `root`.
    pub fn with_root(root: String) -> (r: RealGitsConfig)
        ensures
            r.root@ == root@,
    {
        RealGitsConfig { root }
    }

    /// The configuration under `<home>/.config/gits`; a `ConfigError` where
    /// there is no home directory.
    pub fn from_home(home: Option<String>) -> (r: Result<RealGitsConfig, GitsError>)
        ensures
            home matches Some(h) ==> (r matches Ok(c) && c.root@ == h@ + "/.config/gits"@),
            home is None ==> (r matches Err(e) && e is ConfigError),
    {
        let home = home_or_error(home)?;
        Ok(RealGitsConfig { root: join(home.as_str(), "/.config/gits") })
    }

    /// The configuration under the user's `~/.config/gits`; a `ConfigError`
    /// where no home directory is known.
    pub fn build() -> (r: Result<RealGitsConfig, GitsError>)
        ensures
            r matches Ok(c) ==> exists|home: Seq<char>| c.root@ == home + "/.config/gits"@,
            r matches Err(e) ==> e is ConfigError,
    {
        RealGitsConfig::from_home(home_dir())
    }

    /// `<root>/config.toml`.
    pub fn config_path(&self) -> (r: String)
        ensures
            r@ == self.root@ + "/config.toml"@,
    {
        join(self.root.as_str(), "/config.toml")
    }

    /// The inventory file of `host`: `<root>/<host>.toml`.
    pub fn inventory_path_for(&self, host: &str) -> (r: String)
        ensures
            r@ == self.root@ + "/"@ + host@ + ".toml"@,
    {
        let mut r = join(self.root.as_str(), "/");
        r.append(host);
        r.append(".toml");
        r
    }

    /// The file that a new inventory of `host` is written to before it is
    /// renamed over the inventory file: `<root>/<host>.toml.tmp`.
    pub fn temp_path_for(&self, host: &str) -> (r: String)
        ensures
            r@ == self.root@ + "/"@ + host@ + ".toml.tmp"@,
    {
        let mut r = join(self.root.as_str(), "/");
        r.append(host);
        r.append(".toml.tmp");
        r
    }
}

} // verus!
