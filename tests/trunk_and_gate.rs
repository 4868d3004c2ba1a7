use std::cell::RefCell;

use gits::command::{split_args, CommandExecutor, DebugCommandExecutor};
use gits::error::GitsError;
use gits::git::{
    commit_gate, find_trunk, remote_web_url, trim_line_end, RealGit,
};
use gits::git::TrunkSearch;
use gits::git::{clone_arg_string, clone_parent_arg_string, clone_path_string, commit_args, home_or_error};
use gits::repo::GitRepo;

/// Answers from a fixed table and records every call.
struct Scripted {
    branches: Vec<&'static str>,
    merge_base: &'static str,
    tip: &'static str,
    calls: RefCell<Vec<String>>,
}

impl Scripted {
    fn new(branches: Vec<&'static str>, merge_base: &'static str, tip: &'static str) -> Self {
        Scripted { branches, merge_base, tip, calls: RefCell::new(Vec::new()) }
    }
}

impl CommandExecutor for Scripted {
    fn run_command(&self, command: &str, args: &str) -> Result<String, String> {
        self.calls.borrow_mut().push(format!("{command} {args}"));
        if args.starts_with("merge-base") {
            Ok(self.merge_base.to_string())
        } else if args.starts_with("rev-parse") {
            Ok(self.tip.to_string())
        } else {
            Ok(String::new())
        }
    }

    fn command_success(&self, command: &str, args: &str) -> bool {
        self.calls.borrow_mut().push(format!("{command} {args}"));
        self.branches.iter().any(|b| args == format!("show-ref --verify refs/heads/{b}"))
    }

    fn run_explicit_command(&self, command: &str, args: Vec<&str>) -> Result<String, String> {
        self.calls.borrow_mut().push(format!("{command} {}", args.join("|")));
        Ok(String::new())
    }
}

#[test]
fn trunk_main_is_tried_first() {
    let runner = Scripted::new(vec!["main", "master"], "", "");
    assert_eq!(find_trunk(&runner).unwrap(), "main");
    assert_eq!(*runner.calls.borrow(), vec!["git show-ref --verify refs/heads/main"]);
}

#[test]
fn trunk_master_when_only_master_exists() {
    let runner = Scripted::new(vec!["master"], "", "");
    assert_eq!(find_trunk(&runner).unwrap(), "master");
    assert_eq!(
        *runner.calls.borrow(),
        vec!["git show-ref --verify refs/heads/main", "git show-ref --verify refs/heads/master"]
    );
}

#[test]
fn trunk_missing_is_an_error() {
    let runner = Scripted::new(vec![], "", "");
    assert!(matches!(find_trunk(&runner), Err(GitsError::NoTrunkFound)));
}

#[test]
fn trunk_search_steps() {
    let mut search = TrunkSearch::new();
    assert_eq!(search.next_candidate(), "main");
    assert!(search.on_probe(false).is_none());
    assert_eq!(search.next_candidate(), "master");
    assert_eq!(search.on_probe(true).unwrap().unwrap(), "master");

    let mut search = TrunkSearch::new();
    assert_eq!(search.on_probe(true).unwrap().unwrap(), "main");

    let mut search = TrunkSearch::new();
    assert!(search.on_probe(false).is_none());
    assert!(matches!(search.on_probe(false), Some(Err(GitsError::NoTrunkFound))));
}

#[test]
fn gate_passes_only_on_equal_commits() {
    assert!(commit_gate("abc123\n", "abc123\n").is_ok());
    match commit_gate("abc123\n", "def456\n") {
        Err(GitsError::Divergence { merge_base, remote_tip }) => {
            assert_eq!(merge_base, "abc123\n");
            assert_eq!(remote_tip, "def456\n");
        }
        other => panic!("{other:?}"),
    }
}

#[test]
fn commit_runs_the_gate_then_commits() {
    let runner = Scripted::new(vec!["master"], "c0ffee\n", "c0ffee\n");
    let git = RealGit::new(&runner);
    git.commit("fix the thing").unwrap();
    assert_eq!(
        *runner.calls.borrow(),
        vec![
            "git show-ref --verify refs/heads/main",
            "git show-ref --verify refs/heads/master",
            "git fetch origin master",
            "git merge-base HEAD origin/master",
            "git rev-parse origin/master",
            "git commit|-m|fix the thing",
        ]
    );
}

#[test]
fn commit_is_blocked_on_divergence() {
    let runner = Scripted::new(vec!["main"], "aaa\n", "bbb\n");
    let git = RealGit::new(&runner);
    assert!(matches!(git.commit("msg"), Err(GitsError::Divergence { .. })));
    assert!(runner.calls.borrow().iter().all(|c| !c.starts_with("git commit")));
}

#[test]
fn dry_run_clone_changes_nothing() {
    let runner = DebugCommandExecutor;
    let git = RealGit::new(&runner);
    let r = GitRepo { host: "h".to_string(), slug: "g/s".to_string(), repo_name: "n".to_string() };
    assert_eq!(git.clone_repo_into("/home/u", &r).unwrap(), "/home/u/h/g/s/n");
    assert_eq!(runner.run_command("git", "status").unwrap(), "mocked output");
    assert!(runner.command_success("git", "show-ref --verify refs/heads/main"));
    assert_eq!(runner.run_explicit_command("git", vec!["commit", "-m", "x"]).unwrap(), "mocked output");
    assert_eq!(git.status().unwrap(), "mocked output");
}

#[test]
fn clone_issues_mkdir_then_clone() {
    let runner = Scripted::new(vec![], "", "");
    let git = RealGit::new(&runner);
    let r = GitRepo { host: "h".to_string(), slug: "g".to_string(), repo_name: "n".to_string() };
    git.clone_repo_into("/root", &r).unwrap();
    assert_eq!(
        *runner.calls.borrow(),
        vec!["mkdir -p /root/h/g", "git clone git@h:g/n.git /root/h/g/n"]
    );
}

#[test]
fn remote_output_becomes_a_web_url() {
    assert_eq!(remote_web_url("git@h:g/n.git\n"), "https://h/g/n");
    assert_eq!(remote_web_url("https://h/g/n\n"), "https://h/g/n\n");
    assert_eq!(trim_line_end("abc\r\n"), "abc");
    assert_eq!(trim_line_end(""), "");
}

#[test]
fn arguments_split_at_single_spaces() {
    assert_eq!(split_args("show-ref --verify refs/heads/main"), vec!["show-ref", "--verify", "refs/heads/main"]);
    assert_eq!(split_args("a  b"), vec!["a", "", "b"]);
    assert_eq!(split_args(""), vec![""]);
}

/// Every command fails; every probe finds the branch.
struct Failing;

impl CommandExecutor for Failing {
    fn run_command(&self, _command: &str, _args: &str) -> Result<String, String> {
        Err("fatal: not a git repository".to_string())
    }

    fn command_success(&self, _command: &str, _args: &str) -> bool {
        true
    }

    fn run_explicit_command(&self, _command: &str, _args: Vec<&str>) -> Result<String, String> {
        Err("fatal: not a git repository".to_string())
    }
}

#[test]
fn failing_commands_end_the_operation() {
    let runner = Failing;
    let git = RealGit::new(&runner);
    match git.commit("msg") {
        Err(GitsError::CommandFailed(stderr)) => assert_eq!(stderr, "fatal: not a git repository"),
        other => panic!("{other:?}"),
    }
    assert!(matches!(git.status(), Err(GitsError::CommandFailed(_))));
    assert!(matches!(git.get_remote_url(), Err(GitsError::CommandFailed(_))));
}

#[test]
fn argument_builders() {
    let r = GitRepo { host: "h".to_string(), slug: "g/s".to_string(), repo_name: "n".to_string() };
    assert_eq!(clone_parent_arg_string("/r", &r), "-p /r/h/g/s");
    assert_eq!(clone_arg_string("/r", &r), "clone git@h:g/s/n.git /r/h/g/s/n");
    assert_eq!(clone_path_string("/r", &r), "/r/h/g/s/n");
    assert_eq!(commit_args("two words"), vec!["commit", "-m", "two words"]);
    assert_eq!(home_or_error(Some("/home/u".to_string())).unwrap(), "/home/u");
    assert!(matches!(home_or_error(None), Err(GitsError::ConfigError(_))));
}
