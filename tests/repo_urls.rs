use gits::error::GitsError;
use gits::repo::{
    hosts_of, make_url, make_url_private, parse_url, pick_repo, project_to_repo, selection_line,
    valid_ssh_url, GitHubResponse, GitRepo, Project,
};

fn repo(host: &str, slug: &str, name: &str) -> GitRepo {
    GitRepo { host: host.to_string(), slug: slug.to_string(), repo_name: name.to_string() }
}

#[test]
fn convert_works() {
    let projects = vec![Project {
        ssh_url_to_repo: "git@gitlab.company.dev:squad/tools/mytool.git".to_string(),
        created_at: "".to_string(),
    }];
    let result = project_to_repo(projects);
    assert_eq!(
        result[0],
        GitRepo {
            host: "gitlab.company.dev".to_string(),
            slug: "squad/tools".to_string(),
            repo_name: "mytool".to_string(),
        }
    );
}

#[test]
fn parse_url_splits_host_group_and_name() {
    assert_eq!(parse_url("git@github.com:octocat/Hello-World.git").unwrap(), repo("github.com", "octocat", "Hello-World"));
    assert_eq!(parse_url("git@h:a/b/c/d.git").unwrap(), repo("h", "a/b/c", "d"));
    assert_eq!(parse_url("git@h:g/name.git.git").unwrap(), repo("h", "g", "name.git"));
}

#[test]
fn parse_url_rejects_other_shapes() {
    for bad in [
        "",
        "https://github.com/octocat/Hello-World",
        "git@github.com:octocat/Hello-World",
        "git@github.com:Hello-World.git",
        "git@:group/name.git",
        "git@host:/name.git",
        "git@host:group/.git",
        "git@ho/st:group/name.git",
        "git@host:group/na:me.git",
        "xgit@host:group/name.git",
        "git@host:group/name.git\n",
    ] {
        match parse_url(bad) {
            Err(GitsError::ParseError(input)) => assert_eq!(input, bad),
            other => panic!("{bad:?} gave {other:?}"),
        }
        assert!(!valid_ssh_url(bad));
    }
}

#[test]
fn valid_ssh_url_accepts_clone_urls() {
    assert!(valid_ssh_url("git@gitlab.company.dev:squad/tools/mytool.git"));
}

#[test]
fn project_to_repo_skips_malformed_urls() {
    let projects = vec![
        Project { ssh_url_to_repo: "git@a:g/one.git".to_string(), created_at: String::new() },
        Project { ssh_url_to_repo: "not a url".to_string(), created_at: String::new() },
        Project { ssh_url_to_repo: "git@b:g/h/two.git".to_string(), created_at: String::new() },
    ];
    let result = project_to_repo(projects);
    assert_eq!(result, vec![repo("a", "g", "one"), repo("b", "g/h", "two")]);
}

#[test]
fn web_urls() {
    assert_eq!(make_url_private(repo("gitlab.company.dev", "squad/tools", "mytool")), "https://gitlab.company.dev/squad/tools/mytool");
    assert_eq!(make_url("git@gitlab.company.dev:squad/tools/mytool.git"), "https://gitlab.company.dev/squad/tools/mytool");
}

#[test]
fn github_listing_becomes_clone_urls() {
    let entry = GitHubResponse { full_name: "octocat/Hello-World".to_string(), created_at: "2011-01-26T19:01:12Z".to_string() };
    let p = entry.to_project();
    assert_eq!(p.ssh_url_to_repo, "git@github.com:octocat/Hello-World.git");
    assert_eq!(p.created_at, "2011-01-26T19:01:12Z");
    let listing = gits::repo::github_projects(&vec![entry]);
    assert_eq!(project_to_repo(listing), vec![repo("github.com", "octocat", "Hello-World")]);
}

#[test]
fn selection_line_round_trip() {
    let r = repo("gitlab.company.dev", "squad/tools", "mytool");
    let line = selection_line(&r);
    assert_eq!(line, "gitlab.company.dev squad/tools/mytool");
    assert_eq!(pick_repo(&line).unwrap(), r);
}

#[test]
fn pick_repo_needs_a_space() {
    assert!(matches!(pick_repo("no-space-here"), Err(GitsError::ParseError(s)) if s == "no-space-here"));
    assert!(matches!(pick_repo("host onlyname"), Err(GitsError::ParseError(_))));
}

#[test]
fn distinct_hosts_in_first_order() {
    let repos = vec![repo("b", "g", "x"), repo("a", "g", "y"), repo("b", "h", "z")];
    assert_eq!(hosts_of(&repos), vec!["b".to_string(), "a".to_string()]);
    assert!(hosts_of(&vec![]).is_empty());
}
