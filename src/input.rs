use vstd::prelude::*;
use crate::file::{FileType, classify};

verus! {

/// The specifier that always means standard input.
pub const STDIN: &'static str = "-";

/// An absolute web address, as the URL parser normalized it.
#[derive(Debug, Hash)]
pub struct WebUrl {
    /// The full serialization of the address
    pub href: String,
    /// The path part of the address
    pub path: String,
}

pub struct WebUrlView {
    pub href: Seq<char>,
    pub path: Seq<char>,
}

impl View for WebUrl {
    type V = WebUrlView;

    open spec fn view(&self) -> WebUrlView {
        WebUrlView { href: self.href@, path: self.path@ }
    }
}

impl Clone for WebUrl {
    fn clone(&self) -> (r: Self)
        ensures
            r@ == self@,
    {
        WebUrl { href: self.href.clone(), path: self.path.clone() }
    }
}

/// The serialization and path of `s` parsed as an absolute URL, or `None`
/// where the URL grammar rejects it.
pub uninterp spec fn url_parse(s: Seq<char>) -> Option<(Seq<char>, Seq<char>)>;

pub open spec fn url_view(u: Option<WebUrl>) -> Option<(Seq<char>, Seq<char>)> {
    match u {
        Some(w) => Some((w.href@, w.path@)),
        None => None,
    }
}

/// Relies on url::Url::parse (re-exported by reqwest): whether the string is
/// an absolute URL, with its serialization and path.
#[verifier::external_body]
fn parse_url(s: &str) -> (r: Option<WebUrl>)
    ensures
        url_view(r) == url_parse(s@),
{
    match reqwest::Url::parse(s) {
        Ok(u) => Some(WebUrl { href: u.as_str().to_owned(), path: u.path().to_owned() }),
        Err(_) => None,
    }
}

pub open spec fn is_glob_meta(c: char) -> bool {
    c == '?' || c == '*' || c == '[' || c == ']'
}

/// A glob pattern matching `s` literally: each metacharacter in brackets.
pub open spec fn glob_escaped(s: Seq<char>) -> Seq<char>
    decreases s.len(),
{
    if s.len() == 0 {
        Seq::empty()
    } else if is_glob_meta(s.last()) {
        glob_escaped(s.drop_last()) + seq!['[', s.last(), ']']
    } else {
        glob_escaped(s.drop_last()).push(s.last())
    }
}

pub open spec fn has_glob_meta(s: Seq<char>) -> bool {
    exists|i: int| 0 <= i < s.len() && is_glob_meta(#[trigger] s[i])
}

/// Relies on glob::Pattern::escape: brackets around each of `?`, `*`, `[`, `]`.
#[verifier::external_body]
fn escape_glob(s: &str) -> (r: String)
    ensures
        r@ == glob_escaped(s@),
{
    glob::Pattern::escape(s)
}

proof fn lemma_escaped_len(s: Seq<char>)
    ensures
        glob_escaped(s).len() >= s.len(),
        has_glob_meta(s) ==> glob_escaped(s).len() > s.len(),
        !has_glob_meta(s) ==> glob_escaped(s) == s,
    decreases s.len(),
{
    if s.len() > 0 {
        let p = s.drop_last();
        lemma_escaped_len(p);
        if has_glob_meta(s) && !is_glob_meta(s.last()) {
            let i = choose|i: int| 0 <= i < s.len() && is_glob_meta(#[trigger] s[i]);
            assert(i < s.len() - 1);
            assert(p[i] == s[i]);
        }
        if !has_glob_meta(s) {
            assert(!is_glob_meta(s[s.len() - 1]));
            assert forall|i: int| 0 <= i < p.len() implies !is_glob_meta(#[trigger] p[i]) by {
                assert(s[i] == p[i]);
            }
            assert(p.push(s.last()) =~= s);
        }
    }
}

/// A source of links, one for each user-supplied specifier.
#[derive(Debug, Hash)]
#[non_exhaustive]
pub enum Input {
    /// URL (of HTTP/HTTPS scheme).
    RemoteUrl(WebUrl),
    /// Unix shell-style glob pattern.
    FsGlob {
        /// The glob pattern matching all input files
        pattern: String,
        /// Don't be case sensitive when matching files against a glob
        ignore_case: bool,
    },
    /// File path.
    FsPath(String),
    /// Standard Input.
    Stdin,
    /// Raw string input.
    String(String),
}

pub enum InputView {
    RemoteUrl { href: Seq<char>, path: Seq<char> },
    FsGlob { pattern: Seq<char>, ignore_case: bool },
    FsPath(Seq<char>),
    Stdin,
    String(Seq<char>),
}

impl View for Input {
    type V = InputView;

    open spec fn view(&self) -> InputView {
        match self {
            Input::RemoteUrl(u) => InputView::RemoteUrl { href: u.href@, path: u.path@ },
            Input::FsGlob { pattern, ignore_case } => InputView::FsGlob {
                pattern: pattern@,
                ignore_case: *ignore_case,
            },
            Input::FsPath(p) => InputView::FsPath(p@),
            Input::Stdin => InputView::Stdin,
            Input::String(s) => InputView::String(s@),
        }
    }
}

impl Clone for Input {
    fn clone(&self) -> (r: Self)
        ensures
            r@ == self@,
    {
        match self {
            Input::RemoteUrl(u) => Input::RemoteUrl(u.clone()),
            Input::FsGlob { pattern, ignore_case } => Input::FsGlob {
                pattern: pattern.clone(),
                ignore_case: *ignore_case,
            },
            Input::FsPath(p) => Input::FsPath(p.clone()),
            Input::Stdin => Input::Stdin,
            Input::String(s) => Input::String(s.clone()),
        }
    }
}

impl PartialEq for Input {
    fn eq(&self, other: &Input) -> (r: bool) {
        match self {
            Input::RemoteUrl(a) => match other {
                Input::RemoteUrl(b) => (a.href == b.href) && (a.path == b.path),
                _ => false,
            },
            Input::FsGlob { pattern: p, ignore_case: i } => match other {
                Input::FsGlob { pattern: q, ignore_case: j } => (*p == *q) && (*i == *j),
                _ => false,
            },
            Input::FsPath(a) => match other {
                Input::FsPath(b) => *a == *b,
                _ => false,
            },
            Input::Stdin => match other {
                Input::Stdin => true,
                _ => false,
            },
            Input::String(a) => match other {
                Input::String(b) => *a == *b,
                _ => false,
            },
        }
    }
}

impl vstd::std_specs::cmp::PartialEqSpecImpl for Input {
    open spec fn obeys_eq_spec() -> bool {
        true
    }

    open spec fn eq_spec(&self, other: &Input) -> bool {
        self@ == other@
    }
}

impl Eq for Input {

}

/// The descriptor a specifier stands for: the stdin sentinel, else an
/// absolute URL, else a glob where the string holds a glob metacharacter,
/// else a path.
pub open spec fn input_of(value: Seq<char>, ignore_case: bool) -> InputView {
    if value == seq!['-'] {
        InputView::Stdin
    } else if url_parse(value) is Some {
        let u = url_parse(value)->0;
        InputView::RemoteUrl { href: u.0, path: u.1 }
    } else if has_glob_meta(value) {
        InputView::FsGlob { pattern: value, ignore_case }
    } else {
        InputView::FsPath(value)
    }
}

/// One resolved, classified, textual content item.
#[derive(Debug)]
pub struct InputContent {
    /// Input source
    pub input: Input,
    /// File type of given input
    pub file_type: FileType,
    /// Raw UTF-8 string content
    pub content: String,
}

/// Why reading a file failed: `missing` where the file does not exist or
/// cannot be accessed.
#[derive(Debug)]
pub struct ReadFailure {
    pub missing: bool,
    pub message: String,
}

/// Why a source could not be resolved.
#[derive(Debug)]
pub enum ErrorKind {
    /// A file could not be read
    ReadFile { path: String, message: String },
    /// Standard input could not be read
    ReadStdin(String),
    /// A remote page could not be fetched or decoded
    Network(String),
    /// A glob pattern did not compile
    Glob(String),
}

/// The file type given by a hint, plain text where there is none.
pub open spec fn hinted(hint: Option<FileType>) -> FileType {
    match hint {
        Some(t) => t,
        None => FileType::Plaintext,
    }
}

/// The file type of a remote page: HTML for the root path, else by the
/// address.
pub open spec fn url_file_type_of(href: Seq<char>, path: Seq<char>) -> FileType {
    if path.len() == 0 || path == seq!['/'] {
        FileType::Html
    } else {
        classify(href)
    }
}

pub open spec fn is_hidden_name(s: Seq<char>) -> bool {
    crate::file::file_name(s).len() > 0 && crate::file::file_name(s)[0] == '.'
}

/// Whether a directory scan reads a file: Markdown or HTML only.
pub open spec fn valid_extension_of(p: Seq<char>) -> bool {
    classify(p) == FileType::Markdown || classify(p) == FileType::Html
}

fn hint_or_default(hint: Option<FileType>) -> (r: FileType)
    ensures
        r == hinted(hint),
{
    match hint {
        Some(t) => t,
        None => FileType::default(),
    }
}

impl InputContent {
    /// Create an instance of `InputContent` from an input string
    pub fn from_string(s: &str, file_type: FileType) -> (r: Self)
        ensures
            r.input@ == InputView::String(s@),
            r.file_type == file_type,
            r.content@ == s@,
    {
        InputContent { input: Input::String(s.to_owned()), file_type, content: s.to_owned() }
    }
}

impl Input {
    /// Construct a new `Input` source. In case the input is a `glob` pattern,
    /// `glob_ignore_case` decides whether matching files against the `glob` is
    /// case-insensitive or not
    pub fn new(value: &str, glob_ignore_case: bool) -> (r: Self)
        ensures
            r@ == input_of(value@, glob_ignore_case),
    {
        proof {
            reveal_strlit("-");
            assert(STDIN@ =~= seq!['-']);
        }
        let owned = value.to_owned();
        if owned == STDIN.to_owned() {
            Input::Stdin
        } else {
            match parse_url(value) {
                Some(url) => Input::RemoteUrl(url),
                None => {
                    let escaped = escape_glob(value);
                    proof {
                        lemma_escaped_len(value@);
                    }
                    if escaped != owned {
                        Input::FsGlob { pattern: owned, ignore_case: glob_ignore_case }
                    } else {
                        Input::FsPath(owned)
                    }
                },
            }
        }
    }

    /// Whether a file met in a directory scan has a Markdown or HTML
    /// extension.
    pub fn valid_extension(p: &str) -> (r: bool)
        ensures
            r == valid_extension_of(p@),
    {
        let t = FileType::from_path(p);
        match t {
            FileType::Markdown | FileType::Html => true,
            FileType::Plaintext => false,
        }
    }
}


/// What resolving an input takes: a fetch, a glob expansion, a filesystem
/// path to read or scan, a read of standard input, or nothing more.
pub enum Plan {
    /// Fetch the page at this address
    Fetch(WebUrl),
    /// Expand this (home-expanded) pattern against the filesystem
    Glob { pattern: String, case_sensitive: bool },
    /// Read this file, or scan it if it is a directory
    Path(String),
    /// Read standard input; its content has this type
    Stdin(FileType),
    /// The content is already at hand
    Ready(InputContent),
}

/// One entry met while scanning a directory or expanding a glob.
pub struct ScanEntry {
    pub path: String,
    pub is_dir: bool,
}

/// Whether a directory scan reads an entry: a file, not hidden, with a
/// Markdown or HTML extension.
pub open spec fn scan_wanted(path: Seq<char>, is_dir: bool) -> bool {
    !is_dir && !is_hidden_name(path) && valid_extension_of(path)
}

/// The paths a directory scan reads, in the order met.
pub open spec fn scan_selected(es: Seq<ScanEntry>) -> Seq<Seq<char>>
    decreases es.len(),
{
    if es.len() == 0 {
        Seq::empty()
    } else if scan_wanted(es.last().path@, es.last().is_dir) {
        scan_selected(es.drop_last()).push(es.last().path@)
    } else {
        scan_selected(es.drop_last())
    }
}

/// The paths a glob expansion reads: every match that is not a directory.
pub open spec fn glob_selected(es: Seq<ScanEntry>) -> Seq<Seq<char>>
    decreases es.len(),
{
    if es.len() == 0 {
        Seq::empty()
    } else if !es.last().is_dir {
        glob_selected(es.drop_last()).push(es.last().path@)
    } else {
        glob_selected(es.drop_last())
    }
}

pub open spec fn strings_view(v: Seq<String>) -> Seq<Seq<char>> {
    v.map_values(|s: String| s@)
}

/// Whether `s` starts with a `~` that stands for the home directory: alone,
/// or followed by a separator.
pub open spec fn starts_with_home(s: Seq<char>) -> bool {
    s.len() >= 1 && s[0] == '~' && (s.len() == 1 || s[1] == '/' || s[1] == '\\')
}

/// What expanding the home directory in `s` may give: `s` itself, or, where
/// `s` starts with a home `~`, some directory followed by the rest of `s`.
pub open spec fn home_expansion_of(s: Seq<char>, r: Seq<char>) -> bool {
    r == s || (starts_with_home(s) && r.len() >= s.len() - 1 && r.subrange(
        r.len() - (s.len() - 1),
        r.len() as int,
    ) == s.subrange(1, s.len() as int))
}

/// Relies on shellexpand::tilde: the input unchanged, unless it starts with
/// a `~` alone or before a separator and a home directory is known, in which
/// case that `~` is replaced by the home directory.
#[verifier::external_body]
fn expand_home(s: &str) -> (r: String)
    ensures
        home_expansion_of(s@, r@),
        !starts_with_home(s@) ==> r@ == s@,
{
    shellexpand::tilde(s).into_owned()
}

impl Input {
    /// The content of a raw string input.
    pub fn string_content(s: &str, file_type_hint: Option<FileType>) -> (r: InputContent)
        ensures
            r.input@ == InputView::String(s@),
            r.file_type == hinted(file_type_hint),
            r.content@ == s@,
    {
        InputContent::from_string(s, hint_or_default(file_type_hint))
    }

    /// The content of standard input, from the outcome of reading it.
    pub fn stdin_content(file_type_hint: Option<FileType>, read: Result<String, String>) -> (r:
        Result<InputContent, ErrorKind>)
        ensures
            read is Ok <==> r is Ok,
            r is Ok ==> r->Ok_0.input@ == InputView::Stdin && r->Ok_0.file_type == hinted(
                file_type_hint,
            ) && r->Ok_0.content@ == read->Ok_0@,
            read is Err ==> (r matches Err(ErrorKind::ReadStdin(m)) && m@ == read->Err_0@),
    {
        match read {
            Ok(content) => Ok(
                InputContent {
                    input: Input::Stdin,
                    file_type: hint_or_default(file_type_hint),
                    content,
                },
            ),
            Err(message) => Err(ErrorKind::ReadStdin(message)),
        }
    }

    /// Get the input content of a given path, from the outcome of reading it.
    pub fn path_content(path: &str, read: Result<String, ReadFailure>) -> (r: Result<
        InputContent,
        ErrorKind,
    >)
        ensures
            read is Ok <==> r is Ok,
            r is Ok ==> r->Ok_0.input@ == InputView::FsPath(path@) && r->Ok_0.file_type
                == classify(path@) && r->Ok_0.content@ == read->Ok_0@,
            read is Err ==> (r matches Err(ErrorKind::ReadFile { path: p, message: m }) && p@ == path@
                && m@ == read->Err_0.message@),
    {
        match read {
            Ok(content) => Ok(
                InputContent {
                    input: Input::FsPath(path.to_owned()),
                    file_type: FileType::from_path(path),
                    content,
                },
            ),
            Err(failure) => Err(ErrorKind::ReadFile { path: path.to_owned(), message: failure.message }),
        }
    }

    /// The content of a single addressed file: a file that is missing or
    /// inaccessible is skipped (no content, no error) when `skip_missing` is
    /// set; any other read failure is an error.
    pub fn single_path_content(
        path: &str,
        read: Result<String, ReadFailure>,
        skip_missing: bool,
    ) -> (r:
        Result<Option<InputContent>, ErrorKind>)
        ensures
            read is Ok ==> r is Ok && r->Ok_0 is Some && r->Ok_0->Some_0.input@ == InputView::FsPath(
                path@,
            ) && r->Ok_0->Some_0.file_type == classify(path@) && r->Ok_0->Some_0.content@
                == read->Ok_0@,
            read is Err && skip_missing && read->Err_0.missing ==> (r is Ok && r->Ok_0 is None),
            read is Err && !(skip_missing && read->Err_0.missing) ==> (r matches Err(
                ErrorKind::ReadFile { path: p, message: m },
            ) && p@ == path@ && m@ == read->Err_0.message@),
    {
        let skip = match &read {
            Err(failure) => skip_missing && failure.missing,
            Ok(_) => false,
        };
        if skip {
            return Ok(None);
        }
        match Self::path_content(path, read) {
            Ok(content) => Ok(Some(content)),
            Err(e) => Err(e),
        }
    }

    /// The file type of a remote page.
    pub fn url_file_type(url: &WebUrl) -> (r: FileType)
        ensures
            r == url_file_type_of(url.href@, url.path@),
    {
        proof {
            reveal_strlit("/");
            assert("/"@ =~= seq!['/']);
        }
        if url.path.as_str().unicode_len() == 0 || url.path == "/".to_owned() {
            FileType::Html
        } else {
            FileType::from_path(url.href.as_str())
        }
    }

    /// The content of a remote page, from the outcome of fetching its body.
    pub fn url_contents(url: &WebUrl, body: Result<String, String>) -> (r: Result<
        InputContent,
        ErrorKind,
    >)
        ensures
            body is Ok <==> r is Ok,
            r is Ok ==> r->Ok_0.input@ == (InputView::RemoteUrl {
                href: url.href@,
                path: url.path@,
            }) && r->Ok_0.file_type == url_file_type_of(url.href@, url.path@) && r->Ok_0.content@
                == body->Ok_0@,
            body is Err ==> (r matches Err(ErrorKind::Network(m)) && m@ == body->Err_0@),
    {
        match body {
            Ok(content) => Ok(
                InputContent {
                    input: Input::RemoteUrl(url.clone()),
                    file_type: Self::url_file_type(url),
                    content,
                },
            ),
            Err(message) => Err(ErrorKind::Network(message)),
        }
    }

    /// Whether a directory scan reads the entry at `p`.
    pub fn scan_entry_wanted(p: &str, is_dir: bool) -> (r: bool)
        ensures
            r == scan_wanted(p@, is_dir),
    {
        if is_dir {
            return false;
        }
        let (start, end) = crate::file::name_bounds(p);
        if start < end && p.get_char(start) == '.' {
            return false;
        }
        Self::valid_extension(p)
    }

    /// The paths that a directory scan reads out of the entries it met.
    pub fn select_scanned(entries: &Vec<ScanEntry>) -> (r: Vec<String>)
        ensures
            strings_view(r@) == scan_selected(entries@),
    {
        let mut r: Vec<String> = Vec::new();
        let mut i: usize = 0;
        while i < entries.len()
            invariant
                i <= entries@.len(),
                strings_view(r@) == scan_selected(entries@.subrange(0, i as int)),
            decreases entries@.len() - i,
        {
            let e = &entries[i];
            proof {
                assert(entries@.subrange(0, i + 1).drop_last() =~= entries@.subrange(0, i as int));
            }
            if Self::scan_entry_wanted(e.path.as_str(), e.is_dir) {
                r.push(e.path.clone());
                proof {
                    assert(strings_view(r@) =~= scan_selected(entries@.subrange(0, i as int)).push(
                        e.path@,
                    ));
                }
            }
            i = i + 1;
        }
        proof {
            assert(entries@.subrange(0, entries@.len() as int) =~= entries@);
        }
        r
    }

    /// The paths that a glob expansion reads out of its matches.
    pub fn select_globbed(entries: &Vec<ScanEntry>) -> (r: Vec<String>)
        ensures
            strings_view(r@) == glob_selected(entries@),
    {
        let mut r: Vec<String> = Vec::new();
        let mut i: usize = 0;
        while i < entries.len()
            invariant
                i <= entries@.len(),
                strings_view(r@) == glob_selected(entries@.subrange(0, i as int)),
            decreases entries@.len() - i,
        {
            let e = &entries[i];
            proof {
                assert(entries@.subrange(0, i + 1).drop_last() =~= entries@.subrange(0, i as int));
            }
            if !e.is_dir {
                r.push(e.path.clone());
                proof {
                    assert(strings_view(r@) =~= glob_selected(entries@.subrange(0, i as int)).push(
                        e.path@,
                    ));
                }
            }
            i = i + 1;
        }
        proof {
            assert(entries@.subrange(0, entries@.len() as int) =~= entries@);
        }
        r
    }

    /// What resolving this input takes. A raw string is ready at once; a glob
    /// pattern has a leading home `~` expanded and is case-sensitive unless
    /// `ignore_case`.
    pub fn plan(&self, file_type_hint: Option<FileType>) -> (r: Plan)
        ensures
            self is RemoteUrl ==> (r matches Plan::Fetch(u) && u@ == self->RemoteUrl_0@),
            self is FsGlob ==> (r matches Plan::Glob { pattern, case_sensitive } && case_sensitive
                == !self->ignore_case && home_expansion_of(self->pattern@, pattern@) && (
            !starts_with_home(self->pattern@) ==> pattern@ == self->pattern@)),
            self is FsPath ==> (r matches Plan::Path(p) && p@ == self->FsPath_0@),
            self is Stdin ==> r == Plan::Stdin(hinted(file_type_hint)),
            self is String ==> (r matches Plan::Ready(c) && c.input@ == self@ && c.file_type
                == hinted(file_type_hint) && c.content@ == self->String_0@),
    {
        match self {
            Input::RemoteUrl(u) => Plan::Fetch(u.clone()),
            Input::FsGlob { pattern, ignore_case } => Plan::Glob {
                pattern: expand_home(pattern.as_str()),
                case_sensitive: !*ignore_case,
            },
            Input::FsPath(p) => Plan::Path(p.clone()),
            Input::Stdin => Plan::Stdin(hint_or_default(file_type_hint)),
            Input::String(s) => Plan::Ready(Self::string_content(s.as_str(), file_type_hint)),
        }
    }
}


/// How an input is named in reports.
pub open spec fn input_name(i: InputView) -> Seq<char> {
    match i {
        InputView::RemoteUrl { href, .. } => href,
        InputView::FsGlob { pattern, .. } => pattern,
        InputView::FsPath(p) => p,
        InputView::Stdin => seq!['s', 't', 'd', 'i', 'n'],
        InputView::String(_) => seq![
            'r', 'a', 'w', ' ', 'i', 'n', 'p', 'u', 't', ' ', 's', 't', 'r', 'i', 'n', 'g',
        ],
    }
}

impl Input {
    /// The name of this input in reports: its address, pattern or path,
    /// `stdin`, or `raw input string`.
    pub fn describe(&self) -> (r: String)
        ensures
            r@ == input_name(self@),
    {
        proof {
            reveal_strlit("stdin");
            reveal_strlit("raw input string");
        }
        match self {
            Input::RemoteUrl(u) => u.href.clone(),
            Input::FsGlob { pattern, .. } => pattern.clone(),
            Input::FsPath(p) => p.clone(),
            Input::Stdin => {
                proof {
                    assert("stdin"@ =~= seq!['s', 't', 'd', 'i', 'n']);
                }
                "stdin".to_owned()
            },
            Input::String(_) => {
                proof {
                    assert("raw input string"@ =~= seq![
                        'r', 'a', 'w', ' ', 'i', 'n', 'p', 'u', 't', ' ', 's', 't', 'r', 'i', 'n', 'g',
                    ]);
                }
                "raw input string".to_owned()
            },
        }
    }
}


/// A directory scan reads a path exactly when some entry met has that path
/// and is a file, not hidden, and Markdown or HTML; plain-text files, hidden
/// files and directories are never read.
pub proof fn lemma_scan_reads_exactly_wanted(es: Seq<ScanEntry>, p: Seq<char>)
    ensures
        scan_selected(es).contains(p) <==> exists|i: int|
            0 <= i < es.len() && (#[trigger] es[i]).path@ == p && scan_wanted(p, es[i].is_dir),
    decreases es.len(),
{
    if es.len() > 0 {
        let init = es.drop_last();
        lemma_scan_reads_exactly_wanted(init, p);
        let prev = scan_selected(init);
        if scan_selected(es).contains(p) {
            if prev.contains(p) {
                let i = choose|i: int|
                    0 <= i < init.len() && (#[trigger] init[i]).path@ == p && scan_wanted(
                        p,
                        init[i].is_dir,
                    );
                assert(es[i] == init[i]);
            } else {
                let k = choose|k: int| 0 <= k < scan_selected(es).len() && scan_selected(es)[k] == p;
                assert(scan_wanted(es.last().path@, es.last().is_dir));
                assert(es[es.len() - 1].path@ == p);
            }
        }
        if exists|i: int|
            0 <= i < es.len() && (#[trigger] es[i]).path@ == p && scan_wanted(p, es[i].is_dir) {
            let i = choose|i: int|
                0 <= i < es.len() && (#[trigger] es[i]).path@ == p && scan_wanted(p, es[i].is_dir);
            if i < es.len() - 1 {
                assert(init[i] == es[i]);
                assert(prev.contains(p));
                let k = choose|k: int| 0 <= k < prev.len() && prev[k] == p;
                if scan_wanted(es.last().path@, es.last().is_dir) {
                    assert(scan_selected(es)[k] == p);
                }
            } else {
                assert(scan_selected(es)[prev.len() as int] == p);
            }
        }
    }
}

} // verus!
