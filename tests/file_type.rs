use lychee_input::file::FileType;

#[test]
fn markdown_extensions() {
    assert_eq!(FileType::from_path("README.md"), FileType::Markdown);
    assert_eq!(FileType::from_path("docs/guide.markdown"), FileType::Markdown);
    assert_eq!(FileType::from_path("archive.tar.md"), FileType::Markdown);
}

#[test]
fn html_extensions() {
    assert_eq!(FileType::from_path("index.html"), FileType::Html);
    assert_eq!(FileType::from_path("site/page.htm"), FileType::Html);
}

#[test]
fn extension_is_case_sensitive() {
    assert_eq!(FileType::from_path("README.MD"), FileType::Plaintext);
    assert_eq!(FileType::from_path("index.HTML"), FileType::Plaintext);
}

#[test]
fn web_address_without_extension_is_html() {
    assert_eq!(FileType::from_path("http://localhost/"), FileType::Html);
    assert_eq!(FileType::from_path("http://example.com/"), FileType::Plaintext);
    assert_eq!(FileType::from_path("https://example.com/docs"), FileType::Html);
    assert_eq!(FileType::from_path("http"), FileType::Html);
}

#[test]
fn other_strings_are_plaintext() {
    assert_eq!(FileType::from_path(""), FileType::Plaintext);
    assert_eq!(FileType::from_path("README"), FileType::Plaintext);
    assert_eq!(FileType::from_path("notes.txt"), FileType::Plaintext);
    assert_eq!(FileType::from_path("http://example.com"), FileType::Plaintext);
    assert_eq!(FileType::from_path("dir.md/file"), FileType::Plaintext);
    assert_eq!(FileType::from_path("file."), FileType::Plaintext);
}

#[test]
fn dotfile_has_no_extension() {
    assert_eq!(FileType::from_path(".md"), FileType::Plaintext);
    assert_eq!(FileType::from_path("docs/.html"), FileType::Plaintext);
    assert_eq!(FileType::from_path(".hidden.md"), FileType::Markdown);
}

#[test]
fn default_is_plaintext() {
    assert_eq!(FileType::default(), FileType::Plaintext);
}

#[test]
fn trailing_separators_and_dot_segments_are_passed_over() {
    assert_eq!(FileType::from_path("a.md/"), FileType::Markdown);
    assert_eq!(FileType::from_path("b.html/"), FileType::Html);
    assert_eq!(FileType::from_path("docs/c.markdown/./"), FileType::Markdown);
    assert_eq!(FileType::from_path("https://example.com/readme.md/"), FileType::Markdown);
    assert_eq!(FileType::from_path("http/a.b/"), FileType::Plaintext);
    assert_eq!(FileType::from_path("https://example.com/v1.2/"), FileType::Plaintext);
}

#[test]
fn parent_segment_has_no_extension() {
    assert_eq!(FileType::from_path("http/.."), FileType::Html);
    assert_eq!(FileType::from_path("docs/.."), FileType::Plaintext);
    assert_eq!(FileType::from_path("docs/x.md/.."), FileType::Plaintext);
    assert_eq!(FileType::from_path("/"), FileType::Plaintext);
    assert_eq!(FileType::from_path("."), FileType::Plaintext);
}
