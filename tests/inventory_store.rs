use gits::inventory::{merge_names, Projects};
use gits::repo::GitRepo;

fn snapshot(p: &Projects) -> Vec<(String, Vec<String>)> {
    let mut v: Vec<(String, Vec<String>)> =
        p.groups().iter().map(|g| (g.slug.clone(), g.projects.clone())).collect();
    v.sort();
    v
}

fn strings(v: &[&str]) -> Vec<String> {
    v.iter().map(|s| s.to_string()).collect()
}

#[test]
fn merge_sorts_and_dedupes() {
    assert_eq!(merge_names(&strings(&["zeta", "alpha", "zeta"]), "mid"), strings(&["alpha", "mid", "zeta"]));
    assert_eq!(merge_names(&strings(&["b", "a"]), "a"), strings(&["a", "b"]));
    assert_eq!(merge_names(&strings(&["b", "a"]), "B"), strings(&["B", "a", "b"]));
    assert_eq!(merge_names(&vec![], "only"), strings(&["only"]));
}

#[test]
fn merge_is_idempotent() {
    let mut once = Projects::new();
    once.set_group("other".to_string(), strings(&["x"]));
    let mut many = Projects::new();
    many.set_group("other".to_string(), strings(&["x"]));
    once.merge("squad/tools", "mytool");
    for _ in 0..5 {
        many.merge("squad/tools", "mytool");
    }
    assert_eq!(snapshot(&once), snapshot(&many));
    assert_eq!(snapshot(&once), vec![
        ("other".to_string(), strings(&["x"])),
        ("squad/tools".to_string(), strings(&["mytool"])),
    ]);
}

#[test]
fn merge_keeps_unrelated_groups() {
    let mut inv = Projects::new();
    inv.set_group("a".to_string(), strings(&["one", "two"]));
    inv.set_group("b".to_string(), strings(&["three"]));
    inv.merge("b", "four");
    inv.merge("c", "five");
    assert_eq!(snapshot(&inv), vec![
        ("a".to_string(), strings(&["one", "two"])),
        ("b".to_string(), strings(&["four", "three"])),
        ("c".to_string(), strings(&["five"])),
    ]);
}

#[test]
fn set_group_replaces_a_group() {
    let mut inv = Projects::new();
    inv.set_group("a".to_string(), strings(&["one"]));
    inv.set_group("a".to_string(), strings(&["two"]));
    assert_eq!(snapshot(&inv), vec![("a".to_string(), strings(&["two"]))]);
}

#[test]
fn merge_repos_takes_the_hosts_own() {
    let mut inv = Projects::new();
    let repos = vec![
        GitRepo { host: "h".to_string(), slug: "g".to_string(), repo_name: "b".to_string() },
        GitRepo { host: "other".to_string(), slug: "g".to_string(), repo_name: "x".to_string() },
        GitRepo { host: "h".to_string(), slug: "g".to_string(), repo_name: "a".to_string() },
    ];
    inv.merge_repos("h", &repos);
    assert_eq!(snapshot(&inv), vec![("g".to_string(), strings(&["a", "b"]))]);
    let listed = inv.repos("h");
    assert_eq!(listed, vec![
        GitRepo { host: "h".to_string(), slug: "g".to_string(), repo_name: "a".to_string() },
        GitRepo { host: "h".to_string(), slug: "g".to_string(), repo_name: "b".to_string() },
    ]);
}

#[test]
fn set_group_sorts_and_dedupes() {
    let mut inv = Projects::new();
    inv.set_group("a".to_string(), strings(&["z", "b", "z", "a"]));
    assert_eq!(snapshot(&inv), vec![("a".to_string(), strings(&["a", "b", "z"]))]);
    assert_eq!(gits::inventory::normalize_names(&strings(&["b", "b"])), strings(&["b"]));
    assert_eq!(inv.repos("h").len(), 3);
}
