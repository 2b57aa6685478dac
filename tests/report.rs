use lychee_input::dump::{after_write, ExitCode};
use lychee_input::input::{Input, WebUrl};
use lychee_input::report::stat_line;
use lychee_input::stats::{failure_block, Response, ResponseStats, Status};

#[test]
fn stat_line_pads_with_dots() {
    assert_eq!(stat_line("Total", 42), "Total.............42\n");
    assert_eq!(stat_line("", 7), "...................7\n");
    assert_eq!(stat_line("\u{1f50d} Total", 3), "\u{1f50d} Total............3\n");
}

#[test]
fn stat_line_wide_number_is_not_cut() {
    assert_eq!(stat_line("abcdefghijklmnopqr", 12345), "abcdefghijklmnopqr12345\n");
    assert_eq!(stat_line("abcdefghijklmnopqrst", 0), "abcdefghijklmnopqrst0\n");
}

#[test]
fn summary_lists_counters() {
    let mut stats = ResponseStats::new();
    stats.add(Response { uri: "a".to_string(), status: Status::Success(200), source: Input::Stdin });
    stats.add(Response { uri: "b".to_string(), status: Status::Failed(404), source: Input::Stdin });
    stats.add(Response {
        uri: "c".to_string(),
        status: Status::Error("x".to_string()),
        source: Input::Stdin,
    });
    let text = stats.summary();
    let lines: Vec<&str> = text.lines().collect();
    assert_eq!(lines.len(), 8);
    assert_eq!(lines[0], "\u{1f4dd} Summary");
    assert_eq!(lines[1], "---------------------");
    assert!(lines[2].starts_with("\u{1f50d} Total") && lines[2].ends_with(".3"));
    assert!(lines[3].ends_with(".1"));
    assert!(lines[7].starts_with("\u{1f6ab} Errors") && lines[7].ends_with(".2"));
}

#[test]
fn failure_block_lists_links() {
    let source = Input::FsPath("docs/a.md".to_string());
    let responses = vec![
        Response { uri: "http://x.org/".to_string(), status: Status::Failed(404), source: Input::Stdin },
        Response { uri: "http://y.org/".to_string(), status: Status::Timeout(None), source: Input::Stdin },
    ];
    assert_eq!(
        failure_block(&source, &responses),
        "Input: docs/a.md\n   \u{1f6ab} http://x.org/\n      Failed 404\n   \u{23f3} http://y.org/\n      Timeout\n"
    );
}

#[test]
fn status_icons() {
    assert_eq!(Status::Success(200).icon(), "\u{2705}");
    assert_eq!(Status::Failed(404).icon(), "\u{1f6ab}");
    assert_eq!(Status::Error("x".to_string()).icon(), "\u{26a1}");
}

#[test]
fn status_texts() {
    assert_eq!(Status::Success(200).describe(), "OK 200");
    assert_eq!(Status::Redirected(301).describe(), "Redirected 301");
    assert_eq!(Status::Excluded.describe(), "Excluded");
    assert_eq!(Status::Timeout(Some(504)).describe(), "Timeout 504");
    assert_eq!(Status::Error("dns".to_string()).describe(), "Error: dns");
}

#[test]
fn input_names() {
    assert_eq!(Input::Stdin.describe(), "stdin");
    assert_eq!(Input::String("abc".to_string()).describe(), "raw input string");
    assert_eq!(Input::FsPath("a/b.md".to_string()).describe(), "a/b.md");
    let g = Input::FsGlob { pattern: "*.md".to_string(), ignore_case: true };
    assert_eq!(g.describe(), "*.md");
    let u = WebUrl { href: "https://x.org/".to_string(), path: "/".to_string() };
    assert_eq!(Input::RemoteUrl(u).describe(), "https://x.org/");
}

#[test]
fn write_outcomes() {
    assert_eq!(after_write(None), None);
    assert_eq!(after_write(Some(true)), None);
    assert_eq!(after_write(Some(false)), Some(ExitCode::UnexpectedFailure));
}

#[test]
fn report_without_failures() {
    let mut stats = ResponseStats::new();
    stats.add(Response { uri: "a".to_string(), status: Status::Success(200), source: Input::Stdin });
    let text = stats.report();
    assert_eq!(text, format!("{}\n", stats.summary()));
}

#[test]
fn report_with_failures() {
    let mut stats = ResponseStats::new();
    let a = Input::FsPath("a.md".to_string());
    stats.add(Response { uri: "http://x.org/".to_string(), status: Status::Failed(404), source: a.clone() });
    stats.add(Response { uri: "http://y.org/".to_string(), status: Status::Success(200), source: a.clone() });
    let text = stats.report();
    assert_eq!(
        text,
        format!(
            "{}\nInput: a.md\n   \u{1f6ab} http://x.org/\n      Failed 404\n\n",
            stats.summary()
        )
    );
}
