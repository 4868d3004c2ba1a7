use gits::config::{is_watched, HostKind, RealGitsConfig, RemoteSettings, RemotesConfig};
use gits::error::GitsError;
use gits::repo::GitRepo;
use gits::time::Timestamp;

fn settings(last_pull: &str) -> RemoteSettings {
    RemoteSettings {
        token: "GITLAB_TOKEN".to_string(),
        project_directory: "~/projects".to_string(),
        api_url: "https://gitlab.example/api/v4".to_string(),
        watch_groups: vec!["squad/tools".to_string()],
        watch_projects: vec!["other/thing".to_string()],
        last_pull: last_pull.to_string(),
        host_kind: HostKind::GitLab,
    }
}

#[test]
fn lookups_by_host() {
    let config = RemotesConfig {
        remotes: vec![("gitlab.example".to_string(), settings("1970-01-01T00:00:10Z"))],
    };
    assert_eq!(config.get_api_url("gitlab.example").unwrap(), "https://gitlab.example/api/v4");
    assert_eq!(config.get_token_variable("gitlab.example").unwrap(), "GITLAB_TOKEN");
    assert_eq!(config.get_last_sync("gitlab.example").unwrap(), Timestamp { secs: 10, nanos: 0 });
    assert!(matches!(config.get_api_url("nope"), Err(GitsError::ConfigError(h)) if h == "nope"));
    assert!(config.settings_for("nope").is_none());
    let bad = RemotesConfig { remotes: vec![("h".to_string(), settings("soon"))] };
    assert!(matches!(bad.get_last_sync("h"), Err(GitsError::ParseError(s)) if s == "soon"));
}

#[test]
fn watched_groups_and_projects() {
    let s = settings("");
    let r = |slug: &str, name: &str| GitRepo { host: "h".to_string(), slug: slug.to_string(), repo_name: name.to_string() };
    assert!(is_watched(&s, &r("squad/tools", "anything")));
    assert!(is_watched(&s, &r("other", "thing")));
    assert!(!is_watched(&s, &r("other", "stuff")));
    assert!(!is_watched(&s, &r("squad", "tools")));
}

#[test]
fn file_paths() {
    let c = RealGitsConfig::with_root("/home/u/.config/gits".to_string());
    assert_eq!(c.config_path(), "/home/u/.config/gits/config.toml");
    assert_eq!(c.inventory_path_for("gitlab.example"), "/home/u/.config/gits/gitlab.example.toml");
    assert_eq!(c.temp_path_for("gitlab.example"), "/home/u/.config/gits/gitlab.example.toml.tmp");
}

#[test]
fn config_root_from_home() {
    let c = RealGitsConfig::from_home(Some("/home/u".to_string())).unwrap();
    assert_eq!(c.root, "/home/u/.config/gits");
    assert!(matches!(RealGitsConfig::from_home(None), Err(GitsError::ConfigError(_))));
}
