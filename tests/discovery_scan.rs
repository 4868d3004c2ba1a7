use gits::discovery::{Discovery, PAGE_SIZE};
use gits::error::GitsError;
use gits::repo::Project;
use gits::time::{parse_timestamp, Timestamp};

fn item(n: usize, created_at: &str) -> Project {
    Project { ssh_url_to_repo: format!("git@h:g/p{n}.git"), created_at: created_at.to_string() }
}

#[test]
fn stops_at_the_watermark_page() {
    let watermark = parse_timestamp("2024-01-01T00:00:00Z").unwrap();
    let mut scan = Discovery::new(watermark);
    let mut requested = Vec::new();
    let page1: Vec<Project> = (0..PAGE_SIZE as usize)
        .map(|i| item(i, if i == 0 { "2025-06-01T00:00:00Z" } else { "2024-06-01T00:00:00Z" }))
        .collect();
    let page2 = vec![item(100, "2023-12-01T00:00:00Z")];
    let mut pages = vec![page1, page2, vec![item(200, "2030-01-01T00:00:00Z")]].into_iter();
    while let Some(page) = scan.next_request() {
        requested.push(page);
        scan.on_page(pages.next().unwrap()).unwrap();
    }
    assert_eq!(requested, vec![1, 2]);
    assert!(scan.is_finished());
    let projects = scan.into_projects();
    assert_eq!(projects.len(), 100);
    assert_eq!(projects[0].ssh_url_to_repo, "git@h:g/p0.git");
}

#[test]
fn stops_at_an_empty_page() {
    let mut scan = Discovery::new(Timestamp { secs: 0, nanos: 0 });
    scan.on_page(vec![item(1, "2020-01-01T00:00:00Z")]).unwrap();
    assert_eq!(scan.next_request(), Some(2));
    scan.on_page(vec![]).unwrap();
    assert_eq!(scan.next_request(), None);
    assert_eq!(scan.into_projects().len(), 1);
}

#[test]
fn malformed_newest_timestamp_is_a_parse_error() {
    let mut scan = Discovery::new(Timestamp { secs: 0, nanos: 0 });
    match scan.on_page(vec![item(1, "yesterday")]) {
        Err(GitsError::ParseError(s)) => assert_eq!(s, "yesterday"),
        other => panic!("{other:?}"),
    }
    assert_eq!(scan.next_request(), Some(1));
}

#[test]
fn timestamps_parse_to_instants() {
    assert_eq!(parse_timestamp("1970-01-01T00:00:01Z").unwrap(), Timestamp { secs: 1, nanos: 0 });
    assert_eq!(
        parse_timestamp("2025-08-20T00:33:16.526Z").unwrap(),
        Timestamp { secs: 1_755_649_996, nanos: 526_000_000 }
    );
    assert_eq!(parse_timestamp("1970-01-01T01:00:00+01:00").unwrap(), Timestamp { secs: 0, nanos: 0 });
    assert!(matches!(parse_timestamp("not a date"), Err(GitsError::ParseError(_))));
    let a = Timestamp { secs: 5, nanos: 1 };
    let b = Timestamp { secs: 5, nanos: 2 };
    assert!(a.is_before(&b));
    assert!(!b.is_before(&a));
    assert!(!a.is_before(&a));
}

#[test]
fn parsed_newest_decides() {
    let watermark = Timestamp { secs: 100, nanos: 0 };
    let mut scan = Discovery::new(watermark);
    scan.on_page_newest(vec![item(1, "")], Timestamp { secs: 100, nanos: 0 });
    assert_eq!(scan.next_request(), Some(2));
    scan.on_page_newest(vec![item(2, "")], Timestamp { secs: 99, nanos: 999_999_999 });
    assert_eq!(scan.next_request(), None);
    assert_eq!(scan.into_projects().len(), 1);
}
