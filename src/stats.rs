use vstd::prelude::*;
use crate::input::{Input, InputView, input_name};
use crate::report::{decimal, decimal_string, stat_line, stat_line_of};

verus! {

/// The final state of one checked link.
#[derive(Debug, Hash)]
pub enum Status {
    /// Request was successful (HTTP status code)
    Success(u16),
    /// Request was redirected (HTTP status code)
    Redirected(u16),
    /// The link was excluded from checking
    Excluded,
    /// Request failed (HTTP status code)
    Failed(u16),
    /// Request timed out (HTTP status code, if any)
    Timeout(Option<u16>),
    /// Low-level error while checking (its message)
    Error(String),
}

pub enum StatusView {
    Success(u16),
    Redirected(u16),
    Excluded,
    Failed(u16),
    Timeout(Option<u16>),
    Error(Seq<char>),
}

impl View for Status {
    type V = StatusView;

    open spec fn view(&self) -> StatusView {
        match self {
            Status::Success(c) => StatusView::Success(*c),
            Status::Redirected(c) => StatusView::Redirected(*c),
            Status::Excluded => StatusView::Excluded,
            Status::Failed(c) => StatusView::Failed(*c),
            Status::Timeout(c) => StatusView::Timeout(*c),
            Status::Error(m) => StatusView::Error(m@),
        }
    }
}

impl Clone for Status {
    fn clone(&self) -> (r: Self)
        ensures
            r@ == self@,
    {
        match self {
            Status::Success(c) => Status::Success(*c),
            Status::Redirected(c) => Status::Redirected(*c),
            Status::Excluded => Status::Excluded,
            Status::Failed(c) => Status::Failed(*c),
            Status::Timeout(c) => Status::Timeout(*c),
            Status::Error(m) => Status::Error(m.clone()),
        }
    }
}

impl PartialEq for Status {
    fn eq(&self, other: &Status) -> (r: bool) {
        match self {
            Status::Success(a) => match other {
                Status::Success(b) => *a == *b,
                _ => false,
            },
            Status::Redirected(a) => match other {
                Status::Redirected(b) => *a == *b,
                _ => false,
            },
            Status::Excluded => match other {
                Status::Excluded => true,
                _ => false,
            },
            Status::Failed(a) => match other {
                Status::Failed(b) => *a == *b,
                _ => false,
            },
            Status::Timeout(a) => match other {
                Status::Timeout(b) => match (a, b) {
                    (Some(x), Some(y)) => *x == *y,
                    (None, None) => true,
                    _ => false,
                },
                _ => false,
            },
            Status::Error(a) => match other {
                Status::Error(b) => *a == *b,
                _ => false,
            },
        }
    }
}

impl vstd::std_specs::cmp::PartialEqSpecImpl for Status {
    open spec fn obeys_eq_spec() -> bool {
        true
    }

    open spec fn eq_spec(&self, other: &Status) -> bool {
        self@ == other@
    }
}

impl Eq for Status {

}

/// The outcome of checking one link found in one source.
#[derive(Debug, Hash)]
pub struct Response {
    /// The link that was checked
    pub uri: String,
    /// How the check ended
    pub status: Status,
    /// Where the link was found
    pub source: Input,
}

pub struct ResponseView {
    pub uri: Seq<char>,
    pub status: StatusView,
    pub source: InputView,
}

impl View for Response {
    type V = ResponseView;

    open spec fn view(&self) -> ResponseView {
        ResponseView { uri: self.uri@, status: self.status@, source: self.source@ }
    }
}

impl Clone for Response {
    fn clone(&self) -> (r: Self)
        ensures
            r@ == self@,
    {
        Response { uri: self.uri.clone(), status: self.status.clone(), source: self.source.clone() }
    }
}

impl PartialEq for Response {
    fn eq(&self, other: &Response) -> (r: bool) {
        (self.uri == other.uri) && (self.status == other.status) && (self.source == other.source)
    }
}

impl vstd::std_specs::cmp::PartialEqSpecImpl for Response {
    open spec fn obeys_eq_spec() -> bool {
        true
    }

    open spec fn eq_spec(&self, other: &Response) -> bool {
        self@ == other@
    }
}

impl Eq for Response {

}

/// Whether an outcome counts against success and is kept in the fail map.
pub open spec fn is_failure(s: StatusView) -> bool {
    s is Failed || s is Timeout || s is Redirected || s is Error
}

/// Counters over all outcomes added, and the set of distinct failing outcomes.
pub struct StatsView {
    pub total: nat,
    pub successful: nat,
    pub failures: nat,
    pub timeouts: nat,
    pub redirects: nat,
    pub excludes: nat,
    pub errors: nat,
    pub failed: Set<ResponseView>,
}

impl StatsView {
    pub open spec fn category_sum(self) -> nat {
        self.successful + self.failures + self.timeouts + self.redirects + self.excludes
            + self.errors
    }

    /// The failing outcomes recorded for each source that has any.
    pub open spec fn fail_map(self) -> Map<InputView, Set<ResponseView>> {
        Map::new(
            |k: InputView| exists|r: ResponseView| #[trigger] self.failed.contains(r) && r.source == k,
            |k: InputView| self.failed.filter(|r: ResponseView| r.source == k),
        )
    }
}

pub open spec fn empty_stats() -> StatsView {
    StatsView {
        total: 0,
        successful: 0,
        failures: 0,
        timeouts: 0,
        redirects: 0,
        excludes: 0,
        errors: 0,
        failed: Set::empty(),
    }
}

/// The statistics after one more outcome: the total and the outcome's own
/// category go up by one, and a failing outcome joins the failing set.
pub open spec fn stats_add(s: StatsView, r: ResponseView) -> StatsView {
    let s1 = StatsView { total: s.total + 1, ..s };
    let s2 = match r.status {
        StatusView::Failed(_) => StatsView { failures: s1.failures + 1, ..s1 },
        StatusView::Timeout(_) => StatsView { timeouts: s1.timeouts + 1, ..s1 },
        StatusView::Redirected(_) => StatsView { redirects: s1.redirects + 1, ..s1 },
        StatusView::Excluded => StatsView { excludes: s1.excludes + 1, ..s1 },
        StatusView::Error(_) => StatsView { errors: s1.errors + 1, ..s1 },
        StatusView::Success(_) => StatsView { successful: s1.successful + 1, ..s1 },
    };
    if is_failure(r.status) {
        StatsView { failed: s2.failed.insert(r), ..s2 }
    } else {
        s2
    }
}

/// The statistics after adding the given outcomes, in order, to empty ones.
pub open spec fn stats_after(rs: Seq<ResponseView>) -> StatsView
    decreases rs.len(),
{
    if rs.len() == 0 {
        empty_stats()
    } else {
        stats_add(stats_after(rs.drop_last()), rs.last())
    }
}

pub open spec fn views(v: Seq<Response>) -> Seq<ResponseView> {
    v.map_values(|r: Response| r@)
}

pub open spec fn input_views(v: Seq<Input>) -> Seq<InputView> {
    v.map_values(|i: Input| i@)
}

pub open spec fn lists(r: Seq<Input>, k: InputView) -> bool {
    exists|a: int| 0 <= a < r.len() && #[trigger] r[a]@ == k
}

pub open spec fn has_source_before(f: Seq<Response>, n: int, k: InputView) -> bool {
    exists|j: int| 0 <= j < n && #[trigger] f[j]@.source == k
}

/// Running statistics over link-check outcomes.
pub struct ResponseStats {
    total: usize,
    successful: usize,
    failures: usize,
    timeouts: usize,
    redirects: usize,
    excludes: usize,
    errors: usize,
    failed: Vec<Response>,
}

impl View for ResponseStats {
    type V = StatsView;

    closed spec fn view(&self) -> StatsView {
        StatsView {
            total: self.total as nat,
            successful: self.successful as nat,
            failures: self.failures as nat,
            timeouts: self.timeouts as nat,
            redirects: self.redirects as nat,
            excludes: self.excludes as nat,
            errors: self.errors as nat,
            failed: views(self.failed@).to_set(),
        }
    }
}

impl ResponseStats {
    /// The counters add up to the total, and the failing outcomes are
    /// distinct and failing.
    pub closed spec fn wf(&self) -> bool {
        &&& self@.total == self@.category_sum()
        &&& forall|i: int, j: int|
            0 <= i < j < self.failed@.len() ==> self.failed@[i]@ != self.failed@[j]@
        &&& forall|i: int| 0 <= i < self.failed@.len() ==> is_failure(self.failed@[i]@.status)
    }

    /// Empty statistics.
    pub fn new() -> (r: Self)
        ensures
            r.wf(),
            r@ == empty_stats(),
    {
        let r = ResponseStats {
            total: 0,
            successful: 0,
            failures: 0,
            timeouts: 0,
            redirects: 0,
            excludes: 0,
            errors: 0,
            failed: Vec::new(),
        };
        proof {
            assert(r@.failed =~= Set::<ResponseView>::empty());
        }
        r
    }

    /// Whether an outcome with the same link, status and source is recorded.
    fn records(&self, response: &Response) -> (r: bool)
        ensures
            r == self@.failed.contains(response@),
    {
        let mut i: usize = 0;
        while i < self.failed.len()
            invariant
                i <= self.failed@.len(),
                forall|j: int| 0 <= j < i ==> self.failed@[j]@ != response@,
            decreases self.failed@.len() - i,
        {
            if self.failed[i] == *response {
                proof {
                    assert(views(self.failed@)[i as int] == response@);
                }
                return true;
            }
            i = i + 1;
        }
        proof {
            if self@.failed.contains(response@) {
                let k = choose|k: int|
                    0 <= k < self.failed@.len() && #[trigger] views(self.failed@)[k]
                        == response@;
                assert(self.failed@[k]@ == response@);
            }
        }
        false
    }

    /// Records one outcome: the total and its category go up by one, and a
    /// failing outcome joins the fail map under its source.
    pub fn add(&mut self, response: Response)
        requires
            old(self).wf(),
            old(self)@.total < usize::MAX,
        ensures
            final(self).wf(),
            final(self)@ == stats_add(old(self)@, response@),
    {
        self.total = self.total + 1;
        match &response.status {
            Status::Failed(_) => self.failures = self.failures + 1,
            Status::Timeout(_) => self.timeouts = self.timeouts + 1,
            Status::Redirected(_) => self.redirects = self.redirects + 1,
            Status::Excluded => self.excludes = self.excludes + 1,
            Status::Error(_) => self.errors = self.errors + 1,
            Status::Success(_) => self.successful = self.successful + 1,
        }
        let failing = match &response.status {
            Status::Failed(_) | Status::Timeout(_) | Status::Redirected(_) | Status::Error(_) => true,
            _ => false,
        };
        if failing && !self.records(&response) {
            let ghost before = self.failed@;
            self.failed.push(response);
            proof {
                assert(views(self.failed@) =~= views(before).push(response@));
                assert(self@.failed =~= old(self)@.failed.insert(response@)) by {
                    assert forall|x: ResponseView| self@.failed.contains(x) <==> old(
                        self,
                    )@.failed.insert(response@).contains(x) by {
                        if self@.failed.contains(x) {
                            let k = choose|k: int|
                                0 <= k < self.failed@.len() && #[trigger] views(self.failed@)[k] == x;
                            if k < before.len() {
                                assert(views(before)[k] == x);
                            }
                        }
                        if old(self)@.failed.contains(x) {
                            let k = choose|k: int|
                                0 <= k < before.len() && #[trigger] views(before)[k]
                                    == x;
                            assert(views(self.failed@)[k] == x);
                        }
                        if x == response@ {
                            assert(views(self.failed@)[before.len() as int]
                                == x);
                        }
                    }
                }
                assert forall|i: int, j: int|
                    0 <= i < j < self.failed@.len() implies self.failed@[i]@
                    != self.failed@[j]@ by {
                    if j == before.len() {
                        assert(views(before)[i] == before[i]@);
                    }
                }
            }
        } else {
            proof {
                if failing {
                    assert(old(self)@.failed.insert(response@) =~= old(self)@.failed);
                }
            }
        }
    }

    /// Whether every link checked was successful or excluded.
    pub fn is_success(&self) -> (r: bool)
        requires
            self.wf(),
        ensures
            r == (self@.total == self@.successful + self@.excludes),
    {
        self.total == self.successful + self.excludes
    }

    /// A copy of the current statistics.
    pub fn snapshot(&self) -> (r: Self)
        requires
            self.wf(),
        ensures
            r.wf(),
            r@ == self@,
    {
        let mut failed: Vec<Response> = Vec::new();
        let mut i: usize = 0;
        while i < self.failed.len()
            invariant
                i <= self.failed@.len(),
                failed@.len() == i,
                forall|j: int| 0 <= j < i ==> failed@[j]@ == self.failed@[j]@,
            decreases self.failed@.len() - i,
        {
            failed.push(self.failed[i].clone());
            i = i + 1;
        }
        let r = ResponseStats {
            total: self.total,
            successful: self.successful,
            failures: self.failures,
            timeouts: self.timeouts,
            redirects: self.redirects,
            excludes: self.excludes,
            errors: self.errors,
            failed,
        };
        proof {
            assert(views(r.failed@) =~= views(self.failed@));
        }
        r
    }
}


impl ResponseStats {
    /// Number of outcomes added.
    pub fn total(&self) -> (r: usize)
        ensures
            r == self@.total,
    {
        self.total
    }

    /// Number of successful outcomes.
    pub fn successful(&self) -> (r: usize)
        ensures
            r == self@.successful,
    {
        self.successful
    }

    /// Number of failed outcomes.
    pub fn failures(&self) -> (r: usize)
        ensures
            r == self@.failures,
    {
        self.failures
    }

    /// Number of timed-out outcomes.
    pub fn timeouts(&self) -> (r: usize)
        ensures
            r == self@.timeouts,
    {
        self.timeouts
    }

    /// Number of redirected outcomes.
    pub fn redirects(&self) -> (r: usize)
        ensures
            r == self@.redirects,
    {
        self.redirects
    }

    /// Number of excluded outcomes.
    pub fn excludes(&self) -> (r: usize)
        ensures
            r == self@.excludes,
    {
        self.excludes
    }

    /// Number of outcomes that ended in an error.
    pub fn errors(&self) -> (r: usize)
        ensures
            r == self@.errors,
    {
        self.errors
    }

    /// Every distinct failing outcome recorded, in the order first seen.
    pub fn failed(&self) -> (r: Vec<Response>)
        ensures
            views(r@).to_set() == self@.failed,
    {
        let mut r: Vec<Response> = Vec::new();
        let mut i: usize = 0;
        while i < self.failed.len()
            invariant
                i <= self.failed@.len(),
                r@.len() == i,
                forall|j: int| 0 <= j < i ==> r@[j]@ == self.failed@[j]@,
            decreases self.failed@.len() - i,
        {
            r.push(self.failed[i].clone());
            i = i + 1;
        }
        proof {
            assert(views(r@) =~= views(self.failed@));
        }
        r
    }

    /// Each source with at least one failing outcome, once, in the order
    /// first seen.
    pub fn fail_sources(&self) -> (r: Vec<Input>)
        ensures
            input_views(r@).to_set() == self@.fail_map().dom(),
            forall|i: int, j: int| 0 <= i < j < r@.len() ==> r@[i]@ != r@[j]@,
    {
        let mut r: Vec<Input> = Vec::new();
        let mut i: usize = 0;
        while i < self.failed.len()
            invariant
                i <= self.failed@.len(),
                forall|a: int, b: int| 0 <= a < b < r@.len() ==> r@[a]@ != r@[b]@,
                forall|k: InputView|
                    #[trigger] lists(r@, k) <==> has_source_before(self.failed@, i as int, k),
            decreases self.failed@.len() - i,
        {
            let src = &self.failed[i].source;
            let mut seen = false;
            let mut k: usize = 0;
            while k < r.len()
                invariant
                    k <= r@.len(),
                    seen <==> (exists|a: int| 0 <= a < k && #[trigger] r@[a]@ == src@),
                decreases r@.len() - k,
            {
                if r[k] == *src {
                    seen = true;
                }
                k = k + 1;
            }
            let ghost before = r@;
            proof {
                assert(seen == lists(before, src@));
            }
            if !seen {
                r.push(src.clone());
            }
            proof {
                assert(src@ == self.failed@[i as int]@.source);
                assert forall|a: int| 0 <= a < before.len() implies r@[a] == before[a] by {}
                if !seen {
                    assert(r@[before.len() as int]@ == src@);
                    assert forall|a: int, b: int|
                        0 <= a < b < r@.len() implies r@[a]@ != r@[b]@ by {
                        if b == before.len() {
                            assert(!lists(before, src@));
                            if r@[a]@ == src@ {
                                assert(before[a]@ == src@);
                            }
                        }
                    }
                }
                assert forall|key: InputView|
                    #[trigger] lists(r@, key) <==> has_source_before(
                        self.failed@,
                        i + 1,
                        key,
                    ) by {
                    if lists(r@, key) {
                        let a = choose|a: int| 0 <= a < r@.len() && #[trigger] r@[a]@ == key;
                        if a < before.len() {
                            assert(before[a]@ == key);
                            assert(lists(before, key));
                            let j = choose|j: int|
                                0 <= j < i && #[trigger] self.failed@[j]@.source == key;
                            assert(self.failed@[j]@.source == key);
                        } else {
                            assert(self.failed@[i as int]@.source == key);
                        }
                    }
                    if has_source_before(self.failed@, i + 1, key) {
                        let j = choose|j: int|
                            0 <= j < i + 1 && #[trigger] self.failed@[j]@.source == key;
                        if j < i {
                            assert(has_source_before(self.failed@, i as int, key));
                            assert(lists(before, key));
                            let a = choose|a: int| 0 <= a < before.len() && #[trigger] before[a]@
                                == key;
                            assert(r@[a]@ == key);
                        } else if seen {
                            let a = choose|a: int| 0 <= a < before.len() && #[trigger] before[a]@
                                == key;
                            assert(r@[a]@ == key);
                        } else {
                            assert(r@[before.len() as int]@ == key);
                        }
                    }
                }
            }
            i = i + 1;
        }
        proof {
            let got = input_views(r@).to_set();
            let want = self@.fail_map().dom();
            let n = self.failed@.len() as int;
            assert forall|key: InputView| got.contains(key) <==> want.contains(key) by {
                if got.contains(key) {
                    let a = choose|a: int|
                        0 <= a < input_views(r@).len() && #[trigger] input_views(r@)[a] == key;
                    assert(r@[a]@ == key);
                    assert(lists(r@, key));
                    assert(has_source_before(self.failed@, n, key));
                    let j = choose|j: int| 0 <= j < n && #[trigger] self.failed@[j]@.source == key;
                    assert(views(self.failed@)[j] == self.failed@[j]@);
                    assert(views(self.failed@).contains(self.failed@[j]@));
                    assert(self@.failed.contains(self.failed@[j]@));
                }
                if want.contains(key) {
                    let w = choose|w: ResponseView| #[trigger] self@.failed.contains(w) && w.source
                        == key;
                    let j = choose|j: int|
                        0 <= j < views(self.failed@).len() && #[trigger] views(self.failed@)[j] == w;
                    assert(self.failed@[j]@.source == key);
                    assert(has_source_before(self.failed@, n, key));
                    assert(lists(r@, key));
                    let a = choose|a: int| 0 <= a < r@.len() && #[trigger] r@[a]@ == key;
                    assert(input_views(r@)[a] == key);
                }
            }
            assert(got =~= want);
        }
        r
    }

    /// The distinct failing outcomes recorded for `source`, in the order first
    /// seen.
    pub fn failures_for(&self, source: &Input) -> (r: Vec<Response>)
        requires
            self.wf(),
        ensures
            views(r@).to_set() == self@.failed.filter(|x: ResponseView| x.source == source@),
            self@.fail_map().contains_key(source@) ==> views(r@).to_set()
                == self@.fail_map()[source@],
            !self@.fail_map().contains_key(source@) ==> r@.len() == 0,
    {
        let mut r: Vec<Response> = Vec::new();
        let mut i: usize = 0;
        while i < self.failed.len()
            invariant
                i <= self.failed@.len(),
                forall|x: ResponseView|
                    views(r@).contains(x) <==> (exists|j: int|
                        0 <= j < i && #[trigger] views(self.failed@)[j] == x && x.source
                            == source@),
            decreases self.failed@.len() - i,
        {
            let ghost before = r@;
            let ghost cur = self.failed@[i as int]@;
            let took = self.failed[i].source == *source;
            if took {
                r.push(self.failed[i].clone());
                proof {
                    assert(views(r@) =~= views(before).push(cur));
                }
            } else {
                proof {
                    assert(views(r@) =~= views(before));
                }
            }
            proof {
                assert(views(self.failed@)[i as int] == cur);
                assert(took == (cur.source == source@));
                assert forall|x: ResponseView|
                    views(r@).contains(x) <==> (exists|j: int|
                        0 <= j < i + 1 && #[trigger] views(self.failed@)[j] == x && x.source
                            == source@) by {
                    if views(before).contains(x) {
                        let k = choose|k: int| 0 <= k < views(before).len() && views(before)[k] == x;
                        assert(views(r@)[k] == x);
                        let j = choose|j: int|
                            0 <= j < i && #[trigger] views(self.failed@)[j] == x && x.source
                                == source@;
                        assert(0 <= j < i + 1 && views(self.failed@)[j] == x);
                    }
                    if views(r@).contains(x) && !views(before).contains(x) {
                        let k = choose|k: int| 0 <= k < views(r@).len() && views(r@)[k] == x;
                        assert(took && x == cur);
                    }
                    if exists|j: int|
                        0 <= j < i + 1 && #[trigger] views(self.failed@)[j] == x && x.source
                            == source@ {
                        let j = choose|j: int|
                            0 <= j < i + 1 && #[trigger] views(self.failed@)[j] == x && x.source
                                == source@;
                        if j < i {
                            assert(views(before).contains(x));
                            let k = choose|k: int|
                                0 <= k < views(before).len() && views(before)[k] == x;
                            assert(views(r@)[k] == x);
                        } else {
                            assert(x == cur && took);
                            assert(views(r@)[views(r@).len() - 1] == x);
                        }
                    }
                }
            }
            i = i + 1;
        }
        proof {
            let want = self@.failed.filter(|x: ResponseView| x.source == source@);
            assert forall|x: ResponseView| views(r@).to_set().contains(x) <==> want.contains(x) by {
                if want.contains(x) {
                    let j = choose|j: int|
                        0 <= j < views(self.failed@).len() && views(self.failed@)[j] == x;
                    assert(views(self.failed@)[j] == x);
                }
            }
            assert(views(r@).to_set() =~= want);
            if r@.len() > 0 {
                let x = r@[0]@;
                assert(views(r@)[0] == x);
                assert(views(r@).contains(x));
                assert(self@.failed.contains(x));
            }
        }
        r
    }
}

/// Adding outcomes one by one to empty statistics, whatever they are and in
/// whatever order, gives a total equal to their number and counters that add
/// up to the total.
pub proof fn lemma_counts_add_up(rs: Seq<ResponseView>)
    ensures
        stats_after(rs).total == rs.len(),
        stats_after(rs).category_sum() == stats_after(rs).total,
    decreases rs.len(),
{
    if rs.len() > 0 {
        lemma_counts_add_up(rs.drop_last());
    }
}

/// Once a source has an entry in the fail map, one more outcome keeps the
/// entry and every outcome in it.
pub proof fn lemma_fail_map_grows(s: StatsView, r: ResponseView, k: InputView)
    requires
        s.fail_map().contains_key(k),
    ensures
        stats_add(s, r).fail_map().contains_key(k),
        s.fail_map()[k].subset_of(stats_add(s, r).fail_map()[k]),
{
    let t = stats_add(s, r);
    assert(s.failed.subset_of(t.failed));
    let w = choose|w: ResponseView| #[trigger] s.failed.contains(w) && w.source == k;
    assert(t.failed.contains(w));
}




/// How a status is shown in reports.
pub open spec fn status_text(s: StatusView) -> Seq<char> {
    match s {
        StatusView::Success(c) => "OK "@ + decimal(c as nat),
        StatusView::Redirected(c) => "Redirected "@ + decimal(c as nat),
        StatusView::Excluded => "Excluded"@,
        StatusView::Failed(c) => "Failed "@ + decimal(c as nat),
        StatusView::Timeout(Some(c)) => "Timeout "@ + decimal(c as nat),
        StatusView::Timeout(None) => "Timeout"@,
        StatusView::Error(m) => "Error: "@ + m,
    }
}

/// The mark shown before a link with this status.
pub open spec fn status_icon(s: StatusView) -> Seq<char> {
    match s {
        StatusView::Success(_) => "\u{2705}"@,
        StatusView::Redirected(_) => "\u{1f500}"@,
        StatusView::Excluded => "\u{1f47b}"@,
        StatusView::Failed(_) => "\u{1f6ab}"@,
        StatusView::Timeout(_) => "\u{23f3}"@,
        StatusView::Error(_) => "\u{26a1}"@,
    }
}

/// The lines for one failing link: its status mark and the link, then its
/// status below it.
pub open spec fn failure_lines(r: ResponseView) -> Seq<char> {
    "   "@ + status_icon(r.status) + " "@ + r.uri + "\n      "@ + status_text(r.status) + "\n"@
}

/// The block for one source: its name, then the lines of each failing link.
pub open spec fn failure_block_of(source: InputView, rs: Seq<ResponseView>) -> Seq<char>
    decreases rs.len(),
{
    if rs.len() == 0 {
        "Input: "@ + input_name(source) + "\n"@
    } else {
        failure_block_of(source, rs.drop_last()) + failure_lines(rs.last())
    }
}

/// The head of the report: a title, a rule, and one line per counter, with
/// errors and failures shown together.
pub open spec fn summary_of(s: StatsView) -> Seq<char> {
    "\u{1f4dd} Summary\n"@ + "---------------------\n"@
        + stat_line_of("\u{1f50d} Total"@, s.total)
        + stat_line_of("\u{2705} Successful"@, s.successful)
        + stat_line_of("\u{23f3} Timeouts"@, s.timeouts)
        + stat_line_of("\u{1f500} Redirected"@, s.redirects)
        + stat_line_of("\u{1f47b} Excluded"@, s.excludes)
        + stat_line_of("\u{1f6ab} Errors"@, s.errors + s.failures)
}

impl Status {
    /// The mark shown before a link with this status.
    pub fn icon(&self) -> (r: &'static str)
        ensures
            r@ == status_icon(self@),
    {
        match self {
            Status::Success(_) => "\u{2705}",
            Status::Redirected(_) => "\u{1f500}",
            Status::Excluded => "\u{1f47b}",
            Status::Failed(_) => "\u{1f6ab}",
            Status::Timeout(_) => "\u{23f3}",
            Status::Error(_) => "\u{26a1}",
        }
    }

    /// How this status is shown in reports.
    pub fn describe(&self) -> (r: String)
        ensures
            r@ == status_text(self@),
    {
        match self {
            Status::Success(c) => "OK ".to_owned().concat(decimal_string(*c as usize).as_str()),
            Status::Redirected(c) => "Redirected ".to_owned().concat(
                decimal_string(*c as usize).as_str(),
            ),
            Status::Excluded => "Excluded".to_owned(),
            Status::Failed(c) => "Failed ".to_owned().concat(decimal_string(*c as usize).as_str()),
            Status::Timeout(Some(c)) => "Timeout ".to_owned().concat(
                decimal_string(*c as usize).as_str(),
            ),
            Status::Timeout(None) => "Timeout".to_owned(),
            Status::Error(m) => "Error: ".to_owned().concat(m.as_str()),
        }
    }
}

impl ResponseStats {
    /// The head of the report, with every counter.
    pub fn summary(&self) -> (r: String)
        requires
            self.wf(),
        ensures
            r@ == summary_of(self@),
    {
        proof {
            reveal_strlit("\u{1f50d} Total");
            reveal_strlit("\u{2705} Successful");
            reveal_strlit("\u{23f3} Timeouts");
            reveal_strlit("\u{1f500} Redirected");
            reveal_strlit("\u{1f47b} Excluded");
            reveal_strlit("\u{1f6ab} Errors");
        }
        let mut out = "\u{1f4dd} Summary\n".to_owned();
        out.append("---------------------\n");
        out.append(stat_line("\u{1f50d} Total", self.total).as_str());
        out.append(stat_line("\u{2705} Successful", self.successful).as_str());
        out.append(stat_line("\u{23f3} Timeouts", self.timeouts).as_str());
        out.append(stat_line("\u{1f500} Redirected", self.redirects).as_str());
        out.append(stat_line("\u{1f47b} Excluded", self.excludes).as_str());
        out.append(stat_line("\u{1f6ab} Errors", self.errors + self.failures).as_str());
        out
    }
}

/// The report block for one source and its failing links.
pub fn failure_block(source: &Input, responses: &Vec<Response>) -> (r: String)
    ensures
        r@ == failure_block_of(source@, views(responses@)),
{
    let mut out = "Input: ".to_owned();
    out.append(source.describe().as_str());
    out.append("\n");
    let mut i: usize = 0;
    while i < responses.len()
        invariant
            i <= responses@.len(),
            out@ == failure_block_of(source@, views(responses@).subrange(0, i as int)),
        decreases responses@.len() - i,
    {
        let r = &responses[i];
        proof {
            assert(views(responses@).subrange(0, i + 1).drop_last() =~= views(
                responses@,
            ).subrange(0, i as int));
        }
        out.append("   ");
        out.append(r.status.icon());
        out.append(" ");
        out.append(r.uri.as_str());
        out.append("\n      ");
        out.append(r.status.describe().as_str());
        out.append("\n");
        proof {
            assert(views(responses@).subrange(0, i + 1).last() == r@);
        }
        i = i + 1;
    }
    proof {
        assert(views(responses@).subrange(0, responses@.len() as int) =~= views(responses@));
    }
    out
}


/// The blocks for the given sources, each with its failing links, in order.
pub open spec fn blocks_of(srcs: Seq<InputView>, groups: Seq<Seq<ResponseView>>) -> Seq<char>
    decreases srcs.len(),
{
    if srcs.len() == 0 || groups.len() == 0 {
        Seq::empty()
    } else {
        blocks_of(srcs.drop_last(), groups.drop_last()) + failure_block_of(
            srcs.last(),
            groups.last(),
        )
    }
}

/// A full report: the summary, then, where some link failed, a blank line
/// and one block per failing source listing each of its failing links (each
/// source once, each group holding exactly that source's failing outcomes),
/// then a closing line break.
pub open spec fn is_report_of(s: StatsView, text: Seq<char>) -> bool {
    if s.failed.is_empty() {
        text == summary_of(s) + "\n"@
    } else {
        exists|srcs: Seq<InputView>, groups: Seq<Seq<ResponseView>>|
            {
                &&& srcs.len() == groups.len()
                &&& srcs.to_set() == s.fail_map().dom()
                &&& forall|i: int, j: int| 0 <= i < j < srcs.len() ==> srcs[i] != srcs[j]
                &&& forall|i: int|
                    0 <= i < srcs.len() ==> (#[trigger] groups[i]).to_set() == s.fail_map()[srcs[i]]
                &&& text == summary_of(s) + "\n"@ + blocks_of(srcs, groups) + "\n"@
            }
    }
}

impl ResponseStats {
    /// The whole report on these statistics.
    pub fn report(&self) -> (r: String)
        requires
            self.wf(),
        ensures
            is_report_of(self@, r@),
    {
        let mut out = self.summary();
        let sources = self.fail_sources();
        let ghost srcs = input_views(sources@);
        proof {
            if !self@.failed.is_empty() {
                let w = self@.failed.choose();
                assert(self@.failed.contains(w));
                assert(self@.fail_map().dom().contains(w.source));
                assert(srcs.to_set().contains(w.source));
            }
            if self@.failed.is_empty() {
                if sources@.len() > 0 {
                    assert(srcs.to_set().contains(srcs[0]));
                    assert(self@.fail_map().dom().contains(srcs[0]));
                }
            }
        }
        if sources.len() == 0 {
            out.append("\n");
            return out;
        }
        let ghost head = out@;
        out.append("\n");
        let ghost mut groups: Seq<Seq<ResponseView>> = Seq::empty();
        let mut i: usize = 0;
        while i < sources.len()
            invariant
                self.wf(),
                srcs == input_views(sources@),
                srcs.to_set() == self@.fail_map().dom(),
                i <= sources@.len(),
                groups.len() == i,
                forall|k: int|
                    0 <= k < i ==> (#[trigger] groups[k]).to_set() == self@.fail_map()[srcs[k]],
                out@ == head + "\n"@ + blocks_of(srcs.subrange(0, i as int), groups),
            decreases sources@.len() - i,
        {
            let source = &sources[i];
            let responses = self.failures_for(source);
            proof {
                assert(srcs[i as int] == source@);
                assert(srcs.to_set().contains(srcs[i as int]));
            }
            let block = failure_block(source, &responses);
            let ghost before = out@;
            out.append(block.as_str());
            proof {
                let g2 = groups.push(views(responses@));
                assert(srcs.subrange(0, i + 1).drop_last() =~= srcs.subrange(0, i as int));
                assert(g2.drop_last() =~= groups);
                assert(blocks_of(srcs.subrange(0, i + 1), g2) == blocks_of(
                    srcs.subrange(0, i as int),
                    groups,
                ) + failure_block_of(source@, views(responses@)));
                groups = g2;
            }
            i = i + 1;
        }
        out.append("\n");
        proof {
            assert(srcs.subrange(0, srcs.len() as int) =~= srcs);
            assert forall|a: int, b: int| 0 <= a < b < srcs.len() implies srcs[a] != srcs[b] by {
                assert(srcs[a] == sources@[a]@);
                assert(srcs[b] == sources@[b]@);
            }
            assert(out@ =~= summary_of(self@) + "\n"@ + blocks_of(srcs, groups) + "\n"@);
        }
        out
    }
}

} // verus!
