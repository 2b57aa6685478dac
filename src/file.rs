use vstd::prelude::*;

verus! {

/// The kind of content a source holds, which selects the link parser.
#[derive(Copy, Clone, Debug, PartialEq, Eq, Structural)]
pub enum FileType {
    /// File in HTML format
    Html,
    /// File in Markdown format
    Markdown,
    /// Generic text file without syntax-specific parsing
    Plaintext,
}

impl Default for FileType {
    fn default() -> (r: Self)
        ensures
            r == FileType::Plaintext,
    {
        FileType::Plaintext
    }
}

/// The last segment of `s`: everything after its last `/`.
pub open spec fn last_segment(s: Seq<char>) -> Seq<char>
    decreases s.len(),
{
    if s.len() == 0 {
        s
    } else if s.last() == '/' {
        Seq::empty()
    } else {
        last_segment(s.drop_last()).push(s.last())
    }
}

/// The extension of a file name: what follows its last `.`, where that dot is
/// not the name's first character (so `.hidden` has none).
pub open spec fn name_extension(n: Seq<char>) -> Option<Seq<char>>
    decreases n.len(),
{
    if n.len() <= 1 {
        None
    } else if n.last() == '.' {
        Some(Seq::empty())
    } else {
        match name_extension(n.drop_last()) {
            Some(e) => Some(e.push(n.last())),
            None => None,
        }
    }
}

/// Whether `s` ends in a separator or in a `.` segment, both of which path
/// naming passes over.
pub open spec fn ends_in_skipped(s: Seq<char>) -> bool {
    s.len() > 0 && (s.last() == '/' || (s.last() == '.' && (s.len() == 1 || s[s.len() - 2]
        == '/')))
}

/// `s` without its trailing separators and trailing `.` segments.
pub open spec fn trimmed(s: Seq<char>) -> Seq<char>
    decreases s.len(),
{
    if ends_in_skipped(s) {
        trimmed(s.drop_last())
    } else {
        s
    }
}

/// The name a path ends in: its last segment once trailing separators and
/// `.` segments are passed over (`a/b.md/.` is named `b.md`).
pub open spec fn file_name(s: Seq<char>) -> Seq<char> {
    last_segment(trimmed(s))
}

/// The extension of a path or address: that of the name it ends in; a path
/// that ends in `..`, or in no name at all, has none.
pub open spec fn extension(s: Seq<char>) -> Option<Seq<char>> {
    if file_name(s) == seq!['.', '.'] {
        None
    } else {
        name_extension(file_name(s))
    }
}

pub open spec fn starts_with_http(s: Seq<char>) -> bool {
    s.len() >= 4 && s[0] == 'h' && s[1] == 't' && s[2] == 't' && s[3] == 'p'
}

pub open spec fn is_markdown_ext(e: Seq<char>) -> bool {
    e == seq!['m', 'd'] || e == seq!['m', 'a', 'r', 'k', 'd', 'o', 'w', 'n']
}

pub open spec fn is_html_ext(e: Seq<char>) -> bool {
    e == seq!['h', 't', 'm'] || e == seq!['h', 't', 'm', 'l']
}

/// Classification of a path or address: by extension (case-sensitive), and
/// HTML for an extension-less string that starts with `http`.
pub open spec fn classify(s: Seq<char>) -> FileType {
    match extension(s) {
        Some(e) => if is_markdown_ext(e) {
            FileType::Markdown
        } else if is_html_ext(e) {
            FileType::Html
        } else {
            FileType::Plaintext
        },
        None => if starts_with_http(s) {
            FileType::Html
        } else {
            FileType::Plaintext
        },
    }
}

proof fn lemma_last_segment_suffix(s: Seq<char>, i: int)
    requires
        0 <= i <= s.len(),
        i == 0 || s[i - 1] == '/',
        forall|j: int| i <= j < s.len() ==> s[j] != '/',
    ensures
        last_segment(s) == s.subrange(i, s.len() as int),
    decreases s.len(),
{
    if s.len() == i {
        assert(s.subrange(i, i) =~= Seq::<char>::empty());
    } else {
        lemma_last_segment_suffix(s.drop_last(), i);
        assert(s.drop_last().subrange(i, s.len() - 1).push(s.last()) =~= s.subrange(
            i,
            s.len() as int,
        ));
    }
}

proof fn lemma_extension_at(n: Seq<char>, d: int)
    requires
        1 <= d < n.len(),
        n[d] == '.',
        forall|k: int| d < k < n.len() ==> n[k] != '.',
    ensures
        name_extension(n) == Some(n.subrange(d + 1, n.len() as int)),
    decreases n.len(),
{
    if d == n.len() - 1 {
        assert(n.subrange(d + 1, n.len() as int) =~= Seq::<char>::empty());
    } else {
        lemma_extension_at(n.drop_last(), d);
        assert(n.drop_last().subrange(d + 1, n.len() - 1).push(n.last()) =~= n.subrange(
            d + 1,
            n.len() as int,
        ));
    }
}

proof fn lemma_no_extension(n: Seq<char>)
    requires
        forall|k: int| 1 <= k < n.len() ==> n[k] != '.',
    ensures
        name_extension(n) is None,
    decreases n.len(),
{
    if n.len() > 1 {
        lemma_no_extension(n.drop_last());
    }
}

/// Whether `s` from position `from` up to `to` is exactly `lit`.
fn slice_equals(s: &str, from: usize, to: usize, lit: &str) -> (r: bool)
    requires
        from <= to <= s@.len(),
    ensures
        r == (s@.subrange(from as int, to as int) == lit@),
{
    let m = lit.unicode_len();
    if to - from != m {
        return false;
    }
    let mut k: usize = 0;
    while k < m
        invariant
            to <= s@.len(),
            m == lit@.len(),
            to - from == m,
            from <= to,
            k <= m,
            forall|j: int| 0 <= j < k ==> s@[from + j] == lit@[j],
        decreases m - k,
    {
        if s.get_char(from + k) != lit.get_char(k) {
            assert(s@.subrange(from as int, to as int)[k as int] != lit@[k as int]);
            return false;
        }
        k = k + 1;
    }
    assert(s@.subrange(from as int, to as int) =~= lit@);
    true
}

/// Where the name of `p` stands in it: `p@[start..end]` is `file_name(p@)`.
pub(crate) fn name_bounds(p: &str) -> (r: (usize, usize))
    ensures
        r.0 <= r.1 <= p@.len(),
        trimmed(p@) == p@.subrange(0, r.1 as int),
        file_name(p@) == p@.subrange(r.0 as int, r.1 as int),
        r.0 == 0 || p@[r.0 - 1] == '/',
        forall|j: int| r.0 <= j < r.1 ==> p@[j] != '/',
{
    let n = p.unicode_len();
    let mut end: usize = n;
    proof {
        assert(p@.subrange(0, n as int) =~= p@);
    }
    while end > 0 && (p.get_char(end - 1) == '/' || (p.get_char(end - 1) == '.' && (end == 1
        || p.get_char(end - 2) == '/')))
        invariant
            n == p@.len(),
            end <= n,
            trimmed(p@) == trimmed(p@.subrange(0, end as int)),
        decreases end,
    {
        proof {
            let q = p@.subrange(0, end as int);
            assert(ends_in_skipped(q));
            assert(q.drop_last() =~= p@.subrange(0, end - 1));
        }
        end = end - 1;
    }
    proof {
        let q = p@.subrange(0, end as int);
        assert(!ends_in_skipped(q));
    }
    let mut start: usize = end;
    while start > 0 && p.get_char(start - 1) != '/'
        invariant
            n == p@.len(),
            start <= end <= n,
            forall|j: int| start <= j < end ==> p@[j] != '/',
        decreases start,
    {
        start = start - 1;
    }
    proof {
        let q = p@.subrange(0, end as int);
        lemma_last_segment_suffix(q, start as int);
        assert(q.subrange(start as int, end as int) =~= p@.subrange(start as int, end as int));
    }
    (start, end)
}

impl FileType {
    /// Detects whether the given path or address holds Markdown, HTML or
    /// plain text.
    pub fn from_path(p: &str) -> (r: FileType)
        ensures
            r == classify(p@),
    {
        let n = p.unicode_len();
        let (start, end) = name_bounds(p);
        let ghost name = p@.subrange(start as int, end as int);
        let parent = end - start == 2 && p.get_char(start) == '.' && p.get_char(start + 1) == '.';
        proof {
            if end - start == 2 {
                assert(parent == (name =~= seq!['.', '.']));
            } else {
                assert(name.len() != 2);
            }
        }
        // last dot of the segment, past its first character
        let mut d: usize = end;
        while d - start > 1 && p.get_char(d - 1) != '.'
            invariant
                n == p@.len(),
                end <= n,
                start <= d <= end,
                forall|j: int| d <= j < end ==> p@[j] != '.',
            decreases d,
        {
            d = d - 1;
        }
        let has_ext = !parent && d - start > 1;
        if has_ext {
            let dot = d - 1;
            proof {
                lemma_extension_at(name, dot - start);
                assert(name.subrange(dot - start + 1, name.len() as int) =~= p@.subrange(
                    d as int,
                    end as int,
                ));
            }
            proof {
                reveal_strlit("md");
                reveal_strlit("markdown");
                reveal_strlit("htm");
                reveal_strlit("html");
                assert("md"@ =~= seq!['m', 'd']);
                assert("markdown"@ =~= seq!['m', 'a', 'r', 'k', 'd', 'o', 'w', 'n']);
                assert("htm"@ =~= seq!['h', 't', 'm']);
                assert("html"@ =~= seq!['h', 't', 'm', 'l']);
            }
            assert(extension(p@) == Some(p@.subrange(d as int, end as int)));
            if slice_equals(p, d, end, "md") || slice_equals(p, d, end, "markdown") {
                FileType::Markdown
            } else if slice_equals(p, d, end, "htm") || slice_equals(p, d, end, "html") {
                FileType::Html
            } else {
                FileType::Plaintext
            }
        } else {
            proof {
                if !parent {
                    lemma_no_extension(name);
                }
                assert(extension(p@) is None);
            }
            if n >= 4 && p.get_char(0) == 'h' && p.get_char(1) == 't' && p.get_char(2) == 't'
                && p.get_char(3) == 'p' {
                FileType::Html
            } else {
                FileType::Plaintext
            }
        }
    }
}

} // verus!
