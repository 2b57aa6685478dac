use std::collections::{HashMap, HashSet};

use lychee_input::input::Input;
use lychee_input::stats::{Response, ResponseStats, Status};

fn response(uri: &str, status: Status, source: Input) -> Response {
    Response { uri: uri.to_string(), status, source }
}

fn fail_map(stats: &ResponseStats) -> HashMap<Input, HashSet<Response>> {
    let mut map: HashMap<Input, HashSet<Response>> = HashMap::new();
    for r in stats.failed() {
        map.entry(r.source.clone()).or_default().insert(r);
    }
    map
}

#[test]
fn test_stats() {
    let mut stats = ResponseStats::new();
    stats.add(response(
        "http://example.org/ok",
        Status::Success(http::StatusCode::OK.as_u16()),
        Input::Stdin,
    ));
    stats.add(response(
        "http://example.org/failed",
        Status::Failed(http::StatusCode::BAD_GATEWAY.as_u16()),
        Input::Stdin,
    ));
    stats.add(response(
        "http://example.org/redirect",
        Status::Redirected(http::StatusCode::PERMANENT_REDIRECT.as_u16()),
        Input::Stdin,
    ));
    let mut expected_map = HashMap::new();
    expected_map.insert(
        Input::Stdin,
        vec![
            response(
                "http://example.org/failed",
                Status::Failed(http::StatusCode::BAD_GATEWAY.as_u16()),
                Input::Stdin,
            ),
            response(
                "http://example.org/redirect",
                Status::Redirected(http::StatusCode::PERMANENT_REDIRECT.as_u16()),
                Input::Stdin,
            ),
        ]
        .into_iter()
        .collect::<HashSet<_>>(),
    );
    assert_eq!(fail_map(&stats), expected_map);
}

#[test]
fn three_outcomes_counters() {
    let mut stats = ResponseStats::new();
    stats.add(response("http://example.org/ok", Status::Success(200), Input::Stdin));
    stats.add(response("http://example.org/failed", Status::Failed(502), Input::Stdin));
    stats.add(response("http://example.org/redirect", Status::Redirected(308), Input::Stdin));
    assert_eq!(stats.total(), 3);
    assert_eq!(stats.successful(), 1);
    assert_eq!(stats.failures(), 1);
    assert_eq!(stats.redirects(), 1);
    assert_eq!(stats.timeouts(), 0);
    assert_eq!(stats.excludes(), 0);
    assert_eq!(stats.errors(), 0);
    assert!(!stats.is_success());
    let for_stdin = stats.failures_for(&Input::Stdin);
    assert_eq!(for_stdin.len(), 2);
    assert!(for_stdin.iter().any(|r| r.status == Status::Failed(502)));
    assert!(for_stdin.iter().any(|r| r.status == Status::Redirected(308)));
    assert!(stats.failures_for(&Input::String("x".to_string())).is_empty());
}

#[test]
fn every_category_is_counted() {
    let mut stats = ResponseStats::new();
    stats.add(response("a", Status::Timeout(None), Input::Stdin));
    stats.add(response("b", Status::Timeout(Some(504)), Input::Stdin));
    stats.add(response("c", Status::Excluded, Input::Stdin));
    stats.add(response("d", Status::Error("dns".to_string()), Input::Stdin));
    assert_eq!(stats.total(), 4);
    assert_eq!(stats.timeouts(), 2);
    assert_eq!(stats.excludes(), 1);
    assert_eq!(stats.errors(), 1);
    assert_eq!(stats.failed().len(), 3);
}

#[test]
fn success_allows_excluded() {
    let mut stats = ResponseStats::new();
    assert!(stats.is_success());
    stats.add(response("a", Status::Success(200), Input::Stdin));
    stats.add(response("b", Status::Excluded, Input::Stdin));
    assert!(stats.is_success());
    assert!(stats.failed().is_empty());
    stats.add(response("c", Status::Timeout(None), Input::Stdin));
    assert!(!stats.is_success());
}

#[test]
fn duplicate_failures_counted_once_in_map() {
    let mut stats = ResponseStats::new();
    stats.add(response("http://x.org/", Status::Failed(404), Input::Stdin));
    stats.add(response("http://x.org/", Status::Failed(404), Input::Stdin));
    assert_eq!(stats.total(), 2);
    assert_eq!(stats.failures(), 2);
    assert_eq!(stats.failures_for(&Input::Stdin).len(), 1);
    stats.add(response("http://x.org/", Status::Failed(500), Input::Stdin));
    assert_eq!(stats.failures_for(&Input::Stdin).len(), 2);
}

#[test]
fn failures_keyed_by_source() {
    let mut stats = ResponseStats::new();
    let a = Input::FsPath("a.md".to_string());
    let b = Input::FsPath("b.md".to_string());
    stats.add(response("http://x.org/1", Status::Failed(404), a.clone()));
    stats.add(response("http://x.org/2", Status::Failed(404), b.clone()));
    stats.add(response("http://x.org/3", Status::Success(200), b.clone()));
    let map = fail_map(&stats);
    assert_eq!(map.len(), 2);
    assert_eq!(map[&a].len(), 1);
    assert_eq!(map[&b].len(), 1);
}

#[test]
fn snapshot_twice_is_equal() {
    let mut stats = ResponseStats::new();
    stats.add(response("a", Status::Failed(500), Input::Stdin));
    stats.add(response("b", Status::Success(200), Input::Stdin));
    let s1 = stats.snapshot();
    let s2 = stats.snapshot();
    assert_eq!(s1.total(), s2.total());
    assert_eq!(s1.successful(), s2.successful());
    assert_eq!(s1.failures(), s2.failures());
    assert_eq!(s1.failed(), s2.failed());
    assert_eq!(s1.total(), 2);
}

#[test]
fn many_adds_sum_to_total() {
    let mut stats = ResponseStats::new();
    let n: usize = 60;
    for i in 0..n {
        let status = match i % 6 {
            0 => Status::Success(200),
            1 => Status::Failed(404),
            2 => Status::Timeout(None),
            3 => Status::Redirected(301),
            4 => Status::Excluded,
            _ => Status::Error(format!("e{}", i)),
        };
        stats.add(response(&format!("http://x.org/{}", i), status, Input::Stdin));
    }
    assert_eq!(stats.total(), n);
    let sum = stats.successful()
        + stats.failures()
        + stats.timeouts()
        + stats.redirects()
        + stats.excludes()
        + stats.errors();
    assert_eq!(sum, n);
    assert_eq!(stats.failed().len(), 40);
}

#[test]
fn fail_sources_once_each() {
    let mut stats = ResponseStats::new();
    let a = Input::FsPath("a.md".to_string());
    let b = Input::String("text".to_string());
    stats.add(response("http://x.org/1", Status::Failed(404), a.clone()));
    stats.add(response("http://x.org/2", Status::Timeout(None), a.clone()));
    stats.add(response("http://x.org/3", Status::Success(200), b.clone()));
    assert_eq!(stats.fail_sources(), vec![a.clone()]);
    stats.add(response("http://x.org/4", Status::Error("tls".to_string()), b.clone()));
    assert_eq!(stats.fail_sources(), vec![a, b]);
}
