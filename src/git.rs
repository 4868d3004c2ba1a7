use vstd::prelude::*;

use crate::command::CommandExecutor;
use crate::error::GitsError;
use crate::repo::{is_ssh_url, make_url, ssh_parts, web_url_of, GitRepo};
use crate::text::join;

verus! {

/// The trunk candidates, in the order they are probed.
pub open spec fn trunk_candidates() -> Seq<Seq<char>> {
    seq!["main"@, "master"@]
}

/// Trunk resolution, one probe at a time: the candidates are probed in order,
/// `main` before `master`, and the first that exists is the trunk.
pub struct TrunkSearch {
    missed: usize,
}

impl View for TrunkSearch {
    type V = nat;

    /// How many candidates were probed and found missing.
    closed spec fn view(&self) -> nat {
        self.missed as nat
    }
}

impl TrunkSearch {
    /// A search that has probed nothing.
    pub fn new() -> (r: TrunkSearch)
        ensures
            r@ == 0,
    {
        TrunkSearch { missed: 0 }
    }

    /// The candidate to probe next.
    pub fn next_candidate(&self) -> (r: &'static str)
        requires
            self@ < trunk_candidates().len(),
        ensures
            r@ == trunk_candidates()[self@ as int],
    {
        if self.missed == 0 {
            "main"
        } else {
            "master"
        }
    }

    /// Takes whether the candidate that `next_candidate` named exists. Where it
    /// does, it is the trunk. Where it does not, the search moves to the next
    /// candidate, or ends with `NoTrunkFound` after the last one.
    pub fn on_probe(&mut self, exists: bool) -> (r: Option<Result<String, GitsError>>)
        requires
            old(self)@ < trunk_candidates().len(),
        ensures
            exists ==> final(self)@ == old(self)@ && (r matches Some(Ok(t)) && t@
                == trunk_candidates()[old(self)@ as int]),
            !exists ==> final(self)@ == old(self)@ + 1,
            !exists && final(self)@ == trunk_candidates().len() ==> r matches Some(
                Err(GitsError::NoTrunkFound),
            ),
            !exists && final(self)@ < trunk_candidates().len() ==> r is None,
    {
        if exists {
            Some(Ok(self.next_candidate().to_owned()))
        } else {
            self.missed = self.missed + 1;
            if self.missed == 2 {
                Some(Err(GitsError::NoTrunkFound))
            } else {
                None
            }
        }
    }
}

/// The git arguments that check whether local branch `candidate` exists.
pub fn trunk_probe_args(candidate: &str) -> (r: String)
    ensures
        r@ == "show-ref --verify refs/heads/"@ + candidate@,
{
    join("show-ref --verify refs/heads/", candidate)
}

/// Finds the trunk by probing, through `executor`, each candidate's local
/// branch in order until one exists.
pub fn find_trunk<E: CommandExecutor>(executor: &E) -> (r: Result<String, GitsError>)
    ensures
        r matches Ok(t) ==> trunk_candidates().contains(t@),
        r matches Err(e) ==> e matches GitsError::NoTrunkFound,
{
    let mut search = TrunkSearch::new();
    loop
        invariant
            search@ < trunk_candidates().len(),
        decreases trunk_candidates().len() - search@,
    {
        let candidate = search.next_candidate();
        let exists = executor.command_success("git", trunk_probe_args(candidate).as_str());
        match search.on_probe(exists) {
            Some(r) => {
                return r;
            },
            None => {},
        }
    }
}

/// The commit gate: a commit may go ahead exactly when the merge base of `HEAD`
/// and the remote trunk is the remote trunk's tip. Otherwise the `Divergence`
/// carries both.
pub fn commit_gate(merge_base: &str, remote_tip: &str) -> (r: Result<(), GitsError>)
    ensures
        r is Ok <==> merge_base@ == remote_tip@,
        r matches Err(e) ==> e matches GitsError::Divergence { merge_base: m, remote_tip: t } && m@
            == merge_base@ && t@ == remote_tip@,
{
    let m = merge_base.to_owned();
    let t = remote_tip.to_owned();
    if m == t {
        Ok(())
    } else {
        Err(GitsError::Divergence { merge_base: m, remote_tip: t })
    }
}

pub fn fetch_args(trunk: &str) -> (r: String)
    ensures
        r@ == "fetch origin "@ + trunk@,
{
    join("fetch origin ", trunk)
}

pub fn merge_base_args(trunk: &str) -> (r: String)
    ensures
        r@ == "merge-base HEAD origin/"@ + trunk@,
{
    join("merge-base HEAD origin/", trunk)
}

pub fn rev_parse_args(trunk: &str) -> (r: String)
    ensures
        r@ == "rev-parse origin/"@ + trunk@,
{
    join("rev-parse origin/", trunk)
}

/// `s` without the line ends (`\n`, `\r`) at its end.
pub open spec fn without_line_end(s: Seq<char>) -> Seq<char>
    decreases s.len(),
{
    if s.len() > 0 && (s.last() == '\n' || s.last() == '\r') {
        without_line_end(s.drop_last())
    } else {
        s
    }
}

/// Cuts the line ends off the end of a command's output.
pub fn trim_line_end(s: &str) -> (r: &str)
    ensures
        r@ == without_line_end(s@),
{
    let mut end = s.unicode_len();
    assert(s@.subrange(0, end as int) =~= s@);
    while end > 0 && (s.get_char(end - 1) == '\n' || s.get_char(end - 1) == '\r')
        invariant
            end <= s@.len(),
            without_line_end(s@) == without_line_end(s@.subrange(0, end as int)),
        decreases end,
    {
        assert(s@.subrange(0, end as int).drop_last() =~= s@.subrange(0, end - 1));
        end = end - 1;
    }
    s.substring_char(0, end)
}

/// The address to open for a remote that `git remote get-url` printed: the web
/// address where, without its line end, it is an SSH clone URL; the output
/// itself otherwise.
pub open spec fn remote_web_url_of(output: Seq<char>) -> Seq<char> {
    let url = without_line_end(output);
    if is_ssh_url(url) {
        web_url_of(ssh_parts(url).0, ssh_parts(url).1, ssh_parts(url).2)
    } else {
        output
    }
}

/// The address to open for a remote, from what `git remote get-url` printed.
pub fn remote_web_url(output: &str) -> (r: String)
    ensures
        r@ == remote_web_url_of(output@),
{
    let url = trim_line_end(output);
    if crate::repo::valid_ssh_url(url) {
        make_url(url)
    } else {
        output.to_owned()
    }
}

/// The `mkdir` arguments that create the parent of a clone's directory.
pub open spec fn clone_parent_args(root: Seq<char>, host: Seq<char>, slug: Seq<char>) -> Seq<char> {
    "-p "@ + root + "/"@ + host + "/"@ + slug
}

/// Where a repository is cloned to: `<root>/<host>/<group>/<name>`.
pub open spec fn clone_path(root: Seq<char>, host: Seq<char>, slug: Seq<char>, name: Seq<char>) -> Seq<char> {
    root + "/"@ + host + "/"@ + slug + "/"@ + name
}

/// The `git` arguments that clone a repository to its place under `root`.
pub open spec fn clone_args(root: Seq<char>, host: Seq<char>, slug: Seq<char>, name: Seq<char>) -> Seq<char> {
    "clone git@"@ + host + ":"@ + slug + "/"@ + name + ".git "@ + clone_path(root, host, slug, name)
}

/// The `mkdir` arguments for cloning `repo` under `root`.
pub fn clone_parent_arg_string(root: &str, repo: &GitRepo) -> (r: String)
    ensures
        r@ == clone_parent_args(root@, repo.host@, repo.slug@),
{
    let mut parent = join("-p ", root);
    parent.append("/");
    parent.append(repo.host.as_str());
    parent.append("/");
    parent.append(repo.slug.as_str());
    parent
}

/// The directory that `repo` is cloned to under `root`.
pub fn clone_path_string(root: &str, repo: &GitRepo) -> (r: String)
    ensures
        r@ == clone_path(root@, repo.host@, repo.slug@, repo.repo_name@),
{
    let mut path = join(root, "/");
    path.append(repo.host.as_str());
    path.append("/");
    path.append(repo.slug.as_str());
    path.append("/");
    path.append(repo.repo_name.as_str());
    path
}

/// The `git` arguments for cloning `repo` under `root`.
pub fn clone_arg_string(root: &str, repo: &GitRepo) -> (r: String)
    ensures
        r@ == clone_args(root@, repo.host@, repo.slug@, repo.repo_name@),
{
    let path = clone_path_string(root, repo);
    let mut args = join("clone git@", repo.host.as_str());
    args.append(":");
    args.append(repo.slug.as_str());
    args.append("/");
    args.append(repo.repo_name.as_str());
    args.append(".git ");
    args.append(path.as_str());
    assert(args@ =~= clone_args(root@, repo.host@, repo.slug@, repo.repo_name@));
    args
}

/// The `git` argument vector that commits with `message`, the message as one
/// argument whatever it holds.
pub fn commit_args<'m>(message: &'m str) -> (r: Vec<&'m str>)
    ensures
        r@.len() == 3,
        r@[0]@ == "commit"@,
        r@[1]@ == "-m"@,
        r@[2]@ == message@,
{
    vec!["commit", "-m", message]
}

/// The home directory where one is known, or the `ConfigError`
/// that its absence is.
pub fn home_or_error(home: Option<String>) -> (r: Result<String, GitsError>)
    ensures
        home matches Some(h) ==> r == Ok::<String, GitsError>(h),
        home is None ==> (r matches Err(e) && e is ConfigError),
{
    match home {
        Some(h) => Ok(h),
        None => Err(GitsError::ConfigError("no home directory".to_owned())),
    }
}

/// Relies on dirs::home_dir: the current user's home directory, where one is known.
#[verifier::external_body]
pub(crate) fn home_dir() -> (r: Option<String>) {
    match dirs::home_dir() {
        Some(p) => Some(p.to_string_lossy().into_owned()),
        None => None,
    }
}

/// Git operations, run through an executor.
pub struct RealGit<'a, E: CommandExecutor> {
    executor: &'a E,
}

/// A failed command's standard error, as the error of the operation.
fn command_result(r: Result<String, String>) -> (out: Result<String, GitsError>)
    ensures
        r matches Ok(s) ==> out == Ok::<String, GitsError>(s),
        r matches Err(s) ==> out matches Err(GitsError::CommandFailed(m)) && m == s,
{
    match r {
        Ok(s) => Ok(s),
        Err(s) => Err(GitsError::CommandFailed(s)),
    }
}

impl<'a, E: CommandExecutor> RealGit<'a, E> {
    /// The executor that every command goes through.
    pub closed spec fn executor(&self) -> &'a E {
        self.executor
    }

    /// Git operations that go through `executor`; nothing is run yet.
    pub fn new(executor: &'a E) -> (r: Self)
        ensures
            r.executor() == executor,
    {
        Self { executor }
    }

    /// The output of `git status`.
    pub fn status(&self) -> (r: Result<String, GitsError>)
        ensures
            r matches Err(e) ==> e is CommandFailed,
    {
        command_result(self.executor.run_command("git", "status"))
    }

    /// Runs `git push`; its output.
    pub fn push(&self) -> (r: Result<String, GitsError>)
        ensures
            r matches Err(e) ==> e is CommandFailed,
    {
        command_result(self.executor.run_command("git", "push"))
    }

    /// The web address of the `origin` remote, or what git printed for it where
    /// that is no SSH clone URL (see `remote_web_url`).
    pub fn get_remote_url(&self) -> (r: Result<String, GitsError>)
        ensures
            r matches Ok(u) ==> exists|out: Seq<char>| u@ == remote_web_url_of(out),
            r matches Err(e) ==> e is CommandFailed,
    {
        let out = command_result(self.executor.run_command("git", "remote get-url origin"))?;
        Ok(remote_web_url(out.as_str()))
    }

    /// Opens the `origin` remote's web address.
    pub fn remote(&self) -> (r: Result<String, GitsError>)
        ensures
            r matches Err(e) ==> e is CommandFailed,
    {
        let url = self.get_remote_url()?;
        command_result(self.executor.run_command("open", url.as_str()))
    }

    /// Commits with `message` once the commit gate passes: the trunk is found
    /// (see `find_trunk`), `git fetch_args(trunk)` is run, and the outputs of
    /// `git merge_base_args(trunk)` and `git rev_parse_args(trunk)` must pass
    /// `commit_gate`; then `git commit_args(message)` is run. A failing step
    /// ends the operation with its error and nothing is committed.
    pub fn commit(&self, message: &str) -> (r: Result<(), GitsError>)
        ensures
            r matches Err(e) ==> (e is NoTrunkFound || e is CommandFailed || e is Divergence),
    {
        let trunk = find_trunk(self.executor)?;
        command_result(self.executor.run_command("git", fetch_args(trunk.as_str()).as_str()))?;
        let merge_base = command_result(
            self.executor.run_command("git", merge_base_args(trunk.as_str()).as_str()),
        )?;
        let remote_tip = command_result(
            self.executor.run_command("git", rev_parse_args(trunk.as_str()).as_str()),
        )?;
        commit_gate(merge_base.as_str(), remote_tip.as_str())?;
        command_result(self.executor.run_explicit_command("git", commit_args(message)))?;
        Ok(())
    }

    /// Clones `repo` to `<root>/<host>/<group>/<name>`: `mkdir
    /// clone_parent_args(..)` first, then `git clone_args(..)`; the clone's
    /// path. A failing command ends the operation with its error.
    pub fn clone_repo_into(&self, root: &str, repo: &GitRepo) -> (r: Result<String, GitsError>)
        ensures
            r matches Ok(p) ==> p@ == clone_path(root@, repo.host@, repo.slug@, repo.repo_name@),
            r matches Err(e) ==> e is CommandFailed,
    {
        let parent = clone_parent_arg_string(root, repo);
        command_result(self.executor.run_command("mkdir", parent.as_str()))?;
        let args = clone_arg_string(root, repo);
        command_result(self.executor.run_command("git", args.as_str()))?;
        Ok(clone_path_string(root, repo))
    }

    /// Clones `repo` under the user's home directory; a `ConfigError` where no
    /// home directory is known.
    pub fn clone_repo(&self, repo: &GitRepo) -> (r: Result<String, GitsError>)
        ensures
            r matches Ok(p) ==> exists|home: Seq<char>|
                p@ == clone_path(home, repo.host@, repo.slug@, repo.repo_name@),
            r matches Err(e) ==> (e is ConfigError || e is CommandFailed),
    {
        let root = home_or_error(home_dir())?;
        self.clone_repo_into(root.as_str(), repo)
    }
}

} // verus!
