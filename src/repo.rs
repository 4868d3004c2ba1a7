use vstd::prelude::*;

use crate::error::GitsError;
use crate::text::join;

verus! {

/// No `/` and no `:` anywhere in `s`.
pub open spec fn no_separator(s: Seq<char>) -> bool {
    forall|i: int| 0 <= i < s.len() ==> s[i] != '/' && s[i] != ':'
}

pub open spec fn ssh_prefix() -> Seq<char> {
    seq!['g', 'i', 't', '@']
}

pub open spec fn ssh_suffix() -> Seq<char> {
    seq!['.', 'g', 'i', 't']
}

/// The clone URL `git@<host>:<group>/<name>.git`.
pub open spec fn ssh_url_of(host: Seq<char>, group: Seq<char>, name: Seq<char>) -> Seq<char> {
    ssh_prefix() + host + seq![':'] + group + seq!['/'] + name + ssh_suffix()
}

/// The three parts of a repository identity: all non-empty, and neither the host
/// nor the project name holds a `/` or a `:`. The group path may hold `/`.
pub open spec fn valid_parts(host: Seq<char>, group: Seq<char>, name: Seq<char>) -> bool {
    &&& host.len() > 0
    &&& group.len() > 0
    &&& name.len() > 0
    &&& no_separator(host)
    &&& no_separator(name)
}

/// `s` has the shape of an SSH clone URL.
pub open spec fn is_ssh_url(s: Seq<char>) -> bool {
    exists|h: Seq<char>, g: Seq<char>, n: Seq<char>|
        valid_parts(h, g, n) && s == #[trigger] ssh_url_of(h, g, n)
}

/// The host, group path and project name of an SSH clone URL.
pub open spec fn ssh_parts(s: Seq<char>) -> (Seq<char>, Seq<char>, Seq<char>)
    recommends
        is_ssh_url(s),
{
    choose|h: Seq<char>, g: Seq<char>, n: Seq<char>|
        valid_parts(h, g, n) && s == #[trigger] ssh_url_of(h, g, n)
}

/// The positions of the separators in a clone URL: the `:` after the host at
/// `c`, the last `/` before the project name at `sl`.
pub open spec fn url_layout(s: Seq<char>, c: int, sl: int) -> bool {
    let e = s.len() - 4;
    &&& s.len() >= 13
    &&& s[0] == 'g' && s[1] == 'i' && s[2] == 't' && s[3] == '@'
    &&& 4 < c
    &&& forall|k: int| 4 <= k < c ==> s[k] != '/' && s[k] != ':'
    &&& s[c] == ':'
    &&& c + 1 < sl
    &&& s[sl] == '/'
    &&& sl + 1 < e
    &&& forall|k: int| sl < k < e ==> s[k] != '/' && s[k] != ':'
    &&& s[e] == '.' && s[e + 1] == 'g' && s[e + 2] == 'i' && s[e + 3] == 't'
}

/// Where each part of a clone URL stands.
proof fn lemma_ssh_url_layout(h: Seq<char>, g: Seq<char>, n: Seq<char>)
    requires
        valid_parts(h, g, n),
    ensures
        url_layout(
            ssh_url_of(h, g, n),
            4 + h.len() as int,
            ssh_url_of(h, g, n).len() - 5 - n.len(),
        ),
        ssh_url_of(h, g, n).len() == 10 + h.len() + g.len() + n.len(),
        ssh_url_of(h, g, n).subrange(4, 4 + h.len() as int) == h,
        ssh_url_of(h, g, n).subrange(5 + h.len() as int, 5 + h.len() + g.len() as int) == g,
        ssh_url_of(h, g, n).subrange(6 + h.len() + g.len() as int, 6 + h.len() + g.len() + n.len() as int) == n,
{
    let s = ssh_url_of(h, g, n);
    let c: int = 4 + h.len() as int;
    let e: int = s.len() - 4;
    let sl: int = e - n.len() - 1;
    assert(s.subrange(4, c) =~= h);
    assert(s.subrange(c + 1, sl) =~= g);
    assert(s.subrange(sl + 1, e) =~= n);
    assert forall|k: int| 4 <= k < c implies s[k] != '/' && s[k] != ':' by {
        assert(s[k] == h[k - 4]);
    }
    assert forall|k: int| sl < k < e implies s[k] != '/' && s[k] != ':' by {
        assert(s[k] == n[k - sl - 1]);
    }
}

/// The layout above, for any string of clone-URL shape.
proof fn lemma_url_layout(s: Seq<char>)
    ensures
        is_ssh_url(s) ==> url_layout(
            s,
            4 + ssh_parts(s).0.len() as int,
            s.len() - 5 - ssh_parts(s).2.len(),
        ),
{
    if is_ssh_url(s) {
        let t = ssh_parts(s);
        lemma_ssh_url_layout(t.0, t.1, t.2);
    }
}

/// A clone URL determines its parts: two valid decompositions of one URL are the
/// same decomposition.
pub proof fn lemma_ssh_url_parts_unique(
    h1: Seq<char>,
    g1: Seq<char>,
    n1: Seq<char>,
    h2: Seq<char>,
    g2: Seq<char>,
    n2: Seq<char>,
)
    requires
        valid_parts(h1, g1, n1),
        valid_parts(h2, g2, n2),
        ssh_url_of(h1, g1, n1) == ssh_url_of(h2, g2, n2),
    ensures
        h1 == h2,
        g1 == g2,
        n1 == n2,
{
    let s = ssh_url_of(h1, g1, n1);
    lemma_ssh_url_layout(h1, g1, n1);
    lemma_ssh_url_layout(h2, g2, n2);
    if h1.len() < h2.len() {
        assert(s.subrange(4, (4 + h2.len()) as int)[h1.len() as int] == h2[h1.len() as int]);
        assert(false);
    }
    if h2.len() < h1.len() {
        assert(s.subrange(4, (4 + h1.len()) as int)[h2.len() as int] == h1[h2.len() as int]);
        assert(false);
    }
    let e: int = s.len() - 4;
    if n1.len() < n2.len() {
        let k: int = n2.len() - n1.len() - 1;
        assert(s.subrange(e - n2.len(), e)[k] == n2[k]);
        assert(false);
    }
    if n2.len() < n1.len() {
        let k: int = n1.len() - n2.len() - 1;
        assert(s.subrange(e - n1.len(), e)[k] == n1[k]);
        assert(false);
    }
}

/// What `parse_url` gives: the parts of a clone URL, and a parse failure on
/// anything without that shape.
pub proof fn lemma_ssh_parts_of_url(h: Seq<char>, g: Seq<char>, n: Seq<char>)
    requires
        valid_parts(h, g, n),
    ensures
        is_ssh_url(ssh_url_of(h, g, n)),
        ssh_parts(ssh_url_of(h, g, n)) == (h, g, n),
{
    let s = ssh_url_of(h, g, n);
    assert(is_ssh_url(s));
    let (h2, g2, n2) = ssh_parts(s);
    lemma_ssh_url_parts_unique(h, g, n, h2, g2, n2);
}

/// A repository on a remote host: the host name, the slash-separated group
/// path (its slug) and the project name.
#[derive(Debug)]
pub struct GitRepo {
    pub host: String,
    pub slug: String,
    pub repo_name: String,
}

impl View for GitRepo {
    type V = (Seq<char>, Seq<char>, Seq<char>);

    open spec fn view(&self) -> (Seq<char>, Seq<char>, Seq<char>) {
        (self.host@, self.slug@, self.repo_name@)
    }
}

impl PartialEq for GitRepo {
    fn eq(&self, other: &GitRepo) -> (r: bool) {
        self.host == other.host && self.slug == other.slug && self.repo_name == other.repo_name
    }
}

impl vstd::std_specs::cmp::PartialEqSpecImpl for GitRepo {
    open spec fn obeys_eq_spec() -> bool {
        true
    }

    open spec fn eq_spec(&self, other: &GitRepo) -> bool {
        self@ == other@
    }
}

/// Splits an SSH clone URL `git@<host>:<group>/<name>.git` into its parts.
/// Anything else is a `ParseError` that holds the input.
pub fn parse_url(url: &str) -> (r: Result<GitRepo, GitsError>)
    ensures
        r is Ok <==> is_ssh_url(url@),
        r matches Ok(repo) ==> repo@ == ssh_parts(url@),
        r matches Err(e) ==> e matches GitsError::ParseError(input) && input@ == url@,
{
    let ghost s = url@;
    let ghost c0: int = 4 + ssh_parts(s).0.len() as int;
    let ghost sl0: int = s.len() - 5 - ssh_parts(s).2.len();
    proof {
        lemma_url_layout(s);
    }
    let n = url.unicode_len();
    if n < 13 || url.get_char(0) != 'g' || url.get_char(1) != 'i' || url.get_char(2) != 't'
        || url.get_char(3) != '@' {
        return Err(GitsError::ParseError(url.to_owned()));
    }
    // The host runs up to the first separator, which must be a `:`.

    let mut c: usize = 4;
    while c < n && url.get_char(c) != '/' && url.get_char(c) != ':'
        invariant
            s == url@,
            n == s.len(),
            4 <= c <= n,
            forall|k: int| 4 <= k < c ==> s[k] != '/' && s[k] != ':',
        decreases n - c,
    {
        c = c + 1;
    }
    if c == 4 || c == n || url.get_char(c) != ':' || n - c < 8 {
        return Err(GitsError::ParseError(url.to_owned()));
    }
    assert(is_ssh_url(s) ==> c0 == c);
    let e = n - 4;
    if url.get_char(e) != '.' || url.get_char(e + 1) != 'g' || url.get_char(e + 2) != 'i'
        || url.get_char(e + 3) != 't' {
        return Err(GitsError::ParseError(url.to_owned()));
    }
    // The project name starts after the last `/` before the suffix.

    let mut j: usize = e;
    while j > c + 2 && url.get_char(j - 1) != '/'
        invariant
            s == url@,
            n == s.len(),
            e == n - 4,
            c + 2 <= j <= e,
            forall|k: int| j <= k < e ==> s[k] != '/',
        decreases j,
    {
        j = j - 1;
    }
    if j == c + 2 || j == e {
        return Err(GitsError::ParseError(url.to_owned()));
    }
    assert(s[j - 1] == '/');
    assert(is_ssh_url(s) ==> sl0 == j - 1);
    let mut k: usize = j;
    while k < e
        invariant
            s == url@,
            n == s.len(),
            e == n - 4,
            j <= k <= e,
            forall|i: int| j <= i < k ==> s[i] != ':',
            is_ssh_url(s) ==> url_layout(s, c0, sl0) && sl0 == j - 1,
        decreases e - k,
    {
        if url.get_char(k) == ':' {
            assert(is_ssh_url(s) ==> sl0 < k < e);
            return Err(GitsError::ParseError(url.to_owned()));
        }
        k = k + 1;
    }
    let host = url.substring_char(4, c).to_owned();
    let slug = url.substring_char(c + 1, j - 1).to_owned();
    let repo_name = url.substring_char(j, e).to_owned();
    proof {
        let (h, g, nm) = (host@, slug@, repo_name@);
        assert(s =~= ssh_url_of(h, g, nm));
        lemma_ssh_parts_of_url(h, g, nm);
    }
    Ok(GitRepo { host, slug, repo_name })
}

/// Whether `url` is an SSH clone URL.
pub fn valid_ssh_url(url: &str) -> (r: bool)
    ensures
        r == is_ssh_url(url@),
{
    parse_url(url).is_ok()
}

pub open spec fn https_prefix() -> Seq<char> {
    seq!['h', 't', 't', 'p', 's', ':', '/', '/']
}

/// The web address of a repository: `https://<host>/<group>/<name>`.
pub open spec fn web_url_of(host: Seq<char>, group: Seq<char>, name: Seq<char>) -> Seq<char> {
    https_prefix() + host + seq!['/'] + group + seq!['/'] + name
}

/// The web address of `git_repo`.
pub fn make_url_private(git_repo: GitRepo) -> (r: String)
    ensures
        r@ == web_url_of(git_repo.host@, git_repo.slug@, git_repo.repo_name@),
{
    let mut r = "https://".to_owned();
    r.append(git_repo.host.as_str());
    r.append("/");
    r.append(git_repo.slug.as_str());
    r.append("/");
    r.append(git_repo.repo_name.as_str());
    proof {
        reveal_strlit("https://");
        reveal_strlit("/");
        assert("https://"@ =~= https_prefix());
        assert("/"@ =~= seq!['/']);
    }
    r
}

/// The web address of the repository that an SSH clone URL names.
pub fn make_url(url: &str) -> (r: String)
    requires
        is_ssh_url(url@),
    ensures
        r@ == web_url_of(ssh_parts(url@).0, ssh_parts(url@).1, ssh_parts(url@).2),
{
    match parse_url(url) {
        Ok(repo) => make_url_private(repo),
        Err(_) => url.to_owned(),
    }
}

/// A project record as a remote host's API lists it.
#[derive(Debug)]
pub struct Project {
    pub ssh_url_to_repo: String,
    pub created_at: String,
}

/// The identities of the parseable clone URLs among `urls`, in order; the
/// malformed ones are left out.
pub open spec fn parsed_repos(urls: Seq<Seq<char>>) -> Seq<(Seq<char>, Seq<char>, Seq<char>)>
    decreases urls.len(),
{
    if urls.len() == 0 {
        seq![]
    } else {
        let rest = parsed_repos(urls.drop_last());
        if is_ssh_url(urls.last()) {
            rest.push(ssh_parts(urls.last()))
        } else {
            rest
        }
    }
}

pub open spec fn urls_of(projects: Seq<Project>) -> Seq<Seq<char>> {
    projects.map_values(|p: Project| p.ssh_url_to_repo@)
}

pub open spec fn repo_views(repos: Seq<GitRepo>) -> Seq<(Seq<char>, Seq<char>, Seq<char>)> {
    repos.map_values(|r: GitRepo| r@)
}

/// The repository identities of `projects`: each clone URL is parsed, and a
/// project whose URL does not parse is skipped.
pub fn project_to_repo(projects: Vec<Project>) -> (r: Vec<GitRepo>)
    ensures
        repo_views(r@) == parsed_repos(urls_of(projects@)),
{
    let ghost urls = urls_of(projects@);
    let mut r: Vec<GitRepo> = Vec::new();
    let mut i: usize = 0;
    while i < projects.len()
        invariant
            urls == urls_of(projects@),
            0 <= i <= projects@.len(),
            repo_views(r@) == parsed_repos(urls.take(i as int)),
        decreases projects@.len() - i,
    {
        assert(urls.take(i + 1).drop_last() =~= urls.take(i as int));
        assert(urls.take(i + 1).last() == projects@[i as int].ssh_url_to_repo@);
        match parse_url(projects[i].ssh_url_to_repo.as_str()) {
            Ok(repo) => {
                r.push(repo);
                assert(repo_views(r@) =~= parsed_repos(urls.take(i as int)).push(repo@));
            },
            Err(_) => {},
        }
        i = i + 1;
    }
    assert(urls.take(projects@.len() as int) =~= urls);
    r
}

/// `names` holds `name`.
pub open spec fn names_hold(names: Seq<String>, name: Seq<char>) -> bool {
    exists|i: int| 0 <= i < names.len() && (#[trigger] names[i])@ == name
}

/// Some repository of `repos` is on `host`.
pub open spec fn some_repo_on(repos: Seq<GitRepo>, host: Seq<char>) -> bool {
    exists|k: int| 0 <= k < repos.len() && (#[trigger] repos[k]).host@ == host
}

/// The distinct hosts of `repos`, each once, in the order they first appear.
pub fn hosts_of(repos: &Vec<GitRepo>) -> (r: Vec<String>)
    ensures
        forall|i: int, j: int| 0 <= i < j < r@.len() ==> r@[i]@ != r@[j]@,
        forall|i: int| 0 <= i < r@.len() ==> some_repo_on(repos@, (#[trigger] r@[i])@),
        forall|k: int| 0 <= k < repos@.len() ==> names_hold(r@, (#[trigger] repos@[k]).host@),
{
    let mut r: Vec<String> = Vec::new();
    let mut k: usize = 0;
    while k < repos.len()
        invariant
            0 <= k <= repos@.len(),
            forall|i: int, j: int| 0 <= i < j < r@.len() ==> r@[i]@ != r@[j]@,
            forall|i: int| 0 <= i < r@.len() ==> some_repo_on(repos@, (#[trigger] r@[i])@),
            forall|m: int| 0 <= m < k ==> names_hold(r@, (#[trigger] repos@[m]).host@),
        decreases repos@.len() - k,
    {
        let mut i: usize = 0;
        let mut seen = false;
        while i < r.len() && !seen
            invariant
                0 <= i <= r@.len(),
                k < repos@.len(),
                seen ==> i > 0 && r@[i - 1]@ == repos@[k as int].host@,
                !seen ==> forall|j: int| 0 <= j < i ==> r@[j]@ != repos@[k as int].host@,
            decreases r@.len() - i,
        {
            seen = r[i] == repos[k].host;
            i = i + 1;
        }
        let ghost before = r@;
        if !seen {
            r.push(repos[k].host.clone());
            proof {
                assert forall|a: int| 0 <= a < r@.len() implies some_repo_on(
                    repos@,
                    (#[trigger] r@[a])@,
                ) by {
                    if a < before.len() {
                        assert(r@[a] == before[a]);
                    } else {
                        assert(repos@[k as int].host@ == r@[a]@);
                    }
                }
                assert forall|t: Seq<char>| names_hold(before, t) implies names_hold(r@, t) by {
                    let a = choose|a: int| 0 <= a < before.len() && (#[trigger] before[a])@ == t;
                    assert(r@[a] == before[a]);
                }
                assert(r@[before.len() as int]@ == repos@[k as int].host@);
            }
        } else {
            assert(r@[i - 1]@ == repos@[k as int].host@);
        }
        k = k + 1;
    }
    r
}

/// A repository as GitHub's listing gives it: `owner/name` and the creation time.
#[derive(Debug)]
pub struct GitHubResponse {
    pub full_name: String,
    pub created_at: String,
}

pub open spec fn github_host() -> Seq<char> {
    seq!['g', 'i', 't', 'h', 'u', 'b', '.', 'c', 'o', 'm']
}

impl GitHubResponse {
    /// The project record of this listing entry, with the clone URL
    /// `git@github.com:<owner/name>.git`.
    pub fn to_project(&self) -> (r: Project)
        ensures
            r.ssh_url_to_repo@ == ssh_prefix() + github_host() + seq![':'] + self.full_name@
                + ssh_suffix(),
            r.created_at@ == self.created_at@,
    {
        let mut url = "git@github.com:".to_owned();
        url.append(self.full_name.as_str());
        url.append(".git");
        proof {
            reveal_strlit("git@github.com:");
            reveal_strlit(".git");
            assert("git@github.com:"@ =~= ssh_prefix() + github_host() + seq![':']);
            assert(".git"@ =~= ssh_suffix());
        }
        Project { ssh_url_to_repo: url, created_at: self.created_at.clone() }
    }
}

/// The project records of a GitHub listing, in the listing's order.
pub fn github_projects(listing: &Vec<GitHubResponse>) -> (r: Vec<Project>)
    ensures
        r@.len() == listing@.len(),
        forall|i: int|
            0 <= i < r@.len() ==> r@[i].ssh_url_to_repo@ == ssh_prefix() + github_host()
                + seq![':'] + (#[trigger] listing@[i]).full_name@ + ssh_suffix()
                && r@[i].created_at@ == listing@[i].created_at@,
{
    let mut r: Vec<Project> = Vec::new();
    let mut i: usize = 0;
    while i < listing.len()
        invariant
            0 <= i <= listing@.len(),
            r@.len() == i,
            forall|k: int|
                0 <= k < i ==> r@[k].ssh_url_to_repo@ == ssh_prefix() + github_host()
                    + seq![':'] + (#[trigger] listing@[k]).full_name@ + ssh_suffix()
                    && r@[k].created_at@ == listing@[k].created_at@,
        decreases listing@.len() - i,
    {
        r.push(listing[i].to_project());
        i = i + 1;
    }
    r
}

/// The line that stands for a repository in a selection list:
/// `<host> <group>/<name>`.
pub open spec fn selection_of(host: Seq<char>, group: Seq<char>, name: Seq<char>) -> Seq<char> {
    host + seq![' '] + group + seq!['/'] + name
}

/// The clone URL that a selection line splits into at its first space `i`.
pub open spec fn selected_url(line: Seq<char>, i: int) -> Seq<char> {
    ssh_prefix() + line.subrange(0, i) + seq![':'] + line.subrange(i + 1, line.len() as int)
        + ssh_suffix()
}

/// `i` is the position of the first space of `line`.
pub open spec fn first_space_at(line: Seq<char>, i: int) -> bool {
    &&& 0 <= i < line.len()
    &&& line[i] == ' '
    &&& forall|k: int| 0 <= k < i ==> line[k] != ' '
}

/// The selection line of `repo`.
pub fn selection_line(repo: &GitRepo) -> (r: String)
    ensures
        r@ == selection_of(repo.host@, repo.slug@, repo.repo_name@),
{
    let mut r = join(repo.host.as_str(), " ");
    r.append(repo.slug.as_str());
    r.append("/");
    r.append(repo.repo_name.as_str());
    proof {
        reveal_strlit(" ");
        reveal_strlit("/");
        assert(" "@ =~= seq![' ']);
        assert("/"@ =~= seq!['/']);
    }
    r
}

/// The repository that a selection line names: the host up to the first
/// space, the group path and name after it. A line without a space is a
/// `ParseError` holding the line.
pub fn pick_repo(line: &str) -> (r: Result<GitRepo, GitsError>)
    ensures
        (forall|k: int| 0 <= k < line@.len() ==> line@[k] != ' ') ==> (r matches Err(
            GitsError::ParseError(input),
        ) && input@ == line@),
        forall|i: int|
            first_space_at(line@, i) ==> {
                &&& (r is Ok <==> is_ssh_url(#[trigger] selected_url(line@, i)))
                &&& (r matches Ok(repo) ==> repo@ == ssh_parts(selected_url(line@, i)))
            },
{
    let n = line.unicode_len();
    let mut i: usize = 0;
    while i < n && line.get_char(i) != ' '
        invariant
            n == line@.len(),
            0 <= i <= n,
            forall|k: int| 0 <= k < i ==> line@[k] != ' ',
        decreases n - i,
    {
        i = i + 1;
    }
    if i == n {
        return Err(GitsError::ParseError(line.to_owned()));
    }
    let mut url = join("git@", line.substring_char(0, i));
    url.append(":");
    url.append(line.substring_char(i + 1, n));
    url.append(".git");
    proof {
        reveal_strlit("git@");
        reveal_strlit(":");
        reveal_strlit(".git");
        assert("git@"@ =~= ssh_prefix());
        assert(":"@ =~= seq![':']);
        assert(".git"@ =~= ssh_suffix());
        assert forall|j: int| first_space_at(line@, j) implies j == i by {
            if j < i {
                assert(line@[j] != ' ');
            }
            if j > i {
                assert(line@[i as int] != ' ');
            }
        }
        assert(url@ =~= selected_url(line@, i as int));
    }
    parse_url(url.as_str())
}

/// A selection line names the repository it was made from, for any host
/// without a space.
pub proof fn lemma_selection_round_trip(host: Seq<char>, group: Seq<char>, name: Seq<char>)
    requires
        valid_parts(host, group, name),
        forall|k: int| 0 <= k < host.len() ==> host[k] != ' ',
    ensures
        first_space_at(selection_of(host, group, name), host.len() as int),
        is_ssh_url(selected_url(selection_of(host, group, name), host.len() as int)),
        ssh_parts(selected_url(selection_of(host, group, name), host.len() as int)) == (
            host,
            group,
            name,
        ),
{
    let line = selection_of(host, group, name);
    let i = host.len() as int;
    assert(line.subrange(0, i) =~= host);
    assert(line.subrange(i + 1, line.len() as int) =~= group + seq!['/'] + name);
    assert(selected_url(line, i) =~= ssh_url_of(host, group, name));
    assert(forall|k: int| 0 <= k < i ==> line[k] == host[k]);
    lemma_ssh_parts_of_url(host, group, name);
}

} // verus!
