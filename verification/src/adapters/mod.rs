//! The result model shared by all adapters: test cases, suites and runs.

use vstd::prelude::*;
use crate::duration::Duration;
use crate::num::min_nat;

pub mod util;
pub mod rust;
pub mod go;
pub mod python;
pub mod elixir;
pub mod zig;
pub mod javascript;
pub mod dotnet;
pub mod php;
pub mod ruby;
pub mod java;
pub mod cpp;

verus! {

/// Status of a single test case.
#[derive(Clone, Copy, Debug, PartialEq, Eq, Structural)]
pub enum TestStatus {
    Passed,
    Failed,
    Skipped,
}

/// Error details for a failed test.
#[derive(Debug, PartialEq)]
pub struct TestError {
    pub message: String,
    pub location: Option<String>,
}

/// A single test case result.
#[derive(Debug)]
pub struct TestCase {
    pub name: String,
    pub status: TestStatus,
    pub duration: Duration,
    /// Error message and location if failed.
    pub error: Option<TestError>,
}

/// A group of test cases (typically a file or class).
#[derive(Debug)]
pub struct TestSuite {
    pub name: String,
    pub tests: Vec<TestCase>,
}

/// Complete result of a test run.
#[derive(Debug)]
pub struct TestRunResult {
    pub suites: Vec<TestSuite>,
    pub duration: Duration,
    pub raw_exit_code: i32,
}

// ---------------------------------------------------------------------------
// Mathematical views
// ---------------------------------------------------------------------------

pub struct ErrorView {
    pub message: Seq<char>,
    pub location: Option<Seq<char>>,
}

pub struct CaseView {
    pub name: Seq<char>,
    pub status: TestStatus,
    pub duration: nat,
    pub error: Option<ErrorView>,
}

pub struct SuiteView {
    pub name: Seq<char>,
    pub tests: Seq<CaseView>,
}

pub struct RunView {
    pub suites: Seq<SuiteView>,
    pub duration: nat,
    pub raw_exit_code: i32,
}

pub open spec fn opt_str_view(o: Option<String>) -> Option<Seq<char>> {
    match o {
        Some(s) => Some(s@),
        None => None,
    }
}

impl View for TestError {
    type V = ErrorView;

    open spec fn view(&self) -> ErrorView {
        ErrorView { message: self.message@, location: opt_str_view(self.location) }
    }
}

pub open spec fn opt_error_view(o: Option<TestError>) -> Option<ErrorView> {
    match o {
        Some(e) => Some(e@),
        None => None,
    }
}

impl View for TestCase {
    type V = CaseView;

    open spec fn view(&self) -> CaseView {
        CaseView {
            name: self.name@,
            status: self.status,
            duration: self.duration.ns(),
            error: opt_error_view(self.error),
        }
    }
}

pub open spec fn cases_view(s: Seq<TestCase>) -> Seq<CaseView> {
    s.map_values(|t: TestCase| t@)
}

impl View for TestSuite {
    type V = SuiteView;

    open spec fn view(&self) -> SuiteView {
        SuiteView { name: self.name@, tests: cases_view(self.tests@) }
    }
}

pub open spec fn suites_view(s: Seq<TestSuite>) -> Seq<SuiteView> {
    s.map_values(|t: TestSuite| t@)
}

impl View for TestRunResult {
    type V = RunView;

    open spec fn view(&self) -> RunView {
        RunView {
            suites: suites_view(self.suites@),
            duration: self.duration.ns(),
            raw_exit_code: self.raw_exit_code,
        }
    }
}

// ---------------------------------------------------------------------------
// Counting
// ---------------------------------------------------------------------------

/// Number of cases in `s` with status `st`.
pub open spec fn count_status(s: Seq<CaseView>, st: TestStatus) -> nat
    decreases s.len(),
{
    if s.len() == 0 {
        0
    } else {
        count_status(s.drop_last(), st) + if s.last().status == st { 1nat } else { 0nat }
    }
}

/// The cases of `s` with status `st`, in order.
pub open spec fn with_status(s: Seq<CaseView>, st: TestStatus) -> Seq<CaseView>
    decreases s.len(),
{
    if s.len() == 0 {
        seq![]
    } else if s.last().status == st {
        with_status(s.drop_last(), st).push(s.last())
    } else {
        with_status(s.drop_last(), st)
    }
}

/// Number of cases with status `st` over all suites.
pub open spec fn total_status(s: Seq<SuiteView>, st: TestStatus) -> nat
    decreases s.len(),
{
    if s.len() == 0 {
        0
    } else {
        total_status(s.drop_last(), st) + count_status(s.last().tests, st)
    }
}

/// Number of cases over all suites.
pub open spec fn total_cases(s: Seq<SuiteView>) -> nat
    decreases s.len(),
{
    if s.len() == 0 {
        0
    } else {
        total_cases(s.drop_last()) + s.last().tests.len()
    }
}

/// Every case has exactly one status: the passed, failed and skipped cases
/// of a suite add up to its cases.
pub proof fn law_suite_counts_add_up(s: Seq<CaseView>)
    ensures
        count_status(s, TestStatus::Passed) + count_status(s, TestStatus::Failed)
            + count_status(s, TestStatus::Skipped) == s.len(),
    decreases s.len(),
{
    if s.len() > 0 {
        law_suite_counts_add_up(s.drop_last());
    }
}

/// Over a whole run too, passed, failed and skipped cases add up to all
/// cases.
pub proof fn law_run_counts_add_up(s: Seq<SuiteView>)
    ensures
        total_status(s, TestStatus::Passed) + total_status(s, TestStatus::Failed)
            + total_status(s, TestStatus::Skipped) == total_cases(s),
    decreases s.len(),
{
    if s.len() > 0 {
        law_run_counts_add_up(s.drop_last());
        law_suite_counts_add_up(s.last().tests);
    }
}

/// While the cases of a run fit in a machine word, the counts the run
/// reports (`total_passed`, `total_failed`, `total_skipped`, `total_tests`)
/// add up: each case has exactly one status.
pub proof fn law_reported_totals_add_up(s: Seq<SuiteView>)
    requires
        total_cases(s) <= usize::MAX,
    ensures
        min_nat(total_status(s, TestStatus::Passed), usize::MAX as nat)
            + min_nat(total_status(s, TestStatus::Failed), usize::MAX as nat)
            + min_nat(total_status(s, TestStatus::Skipped), usize::MAX as nat)
            == min_nat(total_cases(s), usize::MAX as nat),
{
    law_run_counts_add_up(s);
}

pub proof fn lemma_count_le_len(s: Seq<CaseView>, st: TestStatus)
    ensures
        count_status(s, st) <= s.len(),
    decreases s.len(),
{
    if s.len() > 0 {
        lemma_count_le_len(s.drop_last(), st);
    }
}

pub proof fn lemma_with_status_len(s: Seq<CaseView>, st: TestStatus)
    ensures
        with_status(s, st).len() == count_status(s, st),
    decreases s.len(),
{
    if s.len() > 0 {
        lemma_with_status_len(s.drop_last(), st);
    }
}

/// Counting cases with a status (loop over a vector).
fn count_cases(tests: &Vec<TestCase>, st: TestStatus) -> (n: usize)
    ensures
        n == count_status(cases_view(tests@), st),
{
    let ghost cv = cases_view(tests@);
    let mut n: usize = 0;
    let mut i: usize = 0;
    while i < tests.len()
        invariant
            i <= tests.len(),
            cv == cases_view(tests@),
            n == count_status(cv.take(i as int), st),
            n <= i,
        decreases tests.len() - i,
    {
        assert(cv.take(i + 1).drop_last() =~= cv.take(i as int));
        if tests[i].status == st {
            n += 1;
        }
        i += 1;
    }
    assert(cv.take(tests.len() as int) =~= cv);
    n
}

impl TestSuite {
    pub fn passed(&self) -> (n: usize)
        ensures
            n == count_status(self@.tests, TestStatus::Passed),
    {
        count_cases(&self.tests, TestStatus::Passed)
    }

    pub fn failed(&self) -> (n: usize)
        ensures
            n == count_status(self@.tests, TestStatus::Failed),
    {
        count_cases(&self.tests, TestStatus::Failed)
    }

    pub fn skipped(&self) -> (n: usize)
        ensures
            n == count_status(self@.tests, TestStatus::Skipped),
    {
        count_cases(&self.tests, TestStatus::Skipped)
    }

    /// All failed test cases, in order.
    pub fn failures(&self) -> (r: Vec<&TestCase>)
        ensures
            r@.map_values(|t: &TestCase| t@) == with_status(self@.tests, TestStatus::Failed),
    {
        let ghost cv = cases_view(self.tests@);
        let mut r: Vec<&TestCase> = Vec::new();
        let mut i: usize = 0;
        while i < self.tests.len()
            invariant
                i <= self.tests.len(),
                cv == cases_view(self.tests@),
                r@.map_values(|t: &TestCase| t@) == with_status(cv.take(i as int), TestStatus::Failed),
            decreases self.tests.len() - i,
        {
            assert(cv.take(i + 1).drop_last() =~= cv.take(i as int));
            let t = &self.tests[i];
            let ghost before = r@;
            if t.status == TestStatus::Failed {
                r.push(t);
                assert(r@.map_values(|t: &TestCase| t@) =~= before.map_values(|t: &TestCase| t@).push(t@));
            }
            i += 1;
        }
        assert(cv.take(self.tests.len() as int) =~= cv);
        r
    }

    pub fn is_passed(&self) -> (b: bool)
        ensures
            b == (count_status(self@.tests, TestStatus::Failed) == 0),
    {
        self.failed() == 0
    }
}

/// Sum of per-suite counts (saturating; cannot saturate for data in memory).
fn sum_status(suites: &Vec<TestSuite>, st: TestStatus) -> (n: usize)
    ensures
        n == min_nat(total_status(suites_view(suites@), st), usize::MAX as nat),
{
    let ghost sv = suites_view(suites@);
    let mut n: usize = 0;
    let mut i: usize = 0;
    while i < suites.len()
        invariant
            i <= suites.len(),
            sv == suites_view(suites@),
            n == min_nat(total_status(sv.take(i as int), st), usize::MAX as nat),
        decreases suites.len() - i,
    {
        assert(sv.take(i + 1).drop_last() =~= sv.take(i as int));
        let c = count_cases(&suites[i].tests, st);
        n = n.saturating_add(c);
        i += 1;
    }
    assert(sv.take(suites.len() as int) =~= sv);
    n
}

impl TestRunResult {
    pub fn total_passed(&self) -> (n: usize)
        ensures
            n == min_nat(total_status(self@.suites, TestStatus::Passed), usize::MAX as nat),
    {
        sum_status(&self.suites, TestStatus::Passed)
    }

    pub fn total_failed(&self) -> (n: usize)
        ensures
            n == min_nat(total_status(self@.suites, TestStatus::Failed), usize::MAX as nat),
    {
        sum_status(&self.suites, TestStatus::Failed)
    }

    pub fn total_skipped(&self) -> (n: usize)
        ensures
            n == min_nat(total_status(self@.suites, TestStatus::Skipped), usize::MAX as nat),
    {
        sum_status(&self.suites, TestStatus::Skipped)
    }

    pub fn total_tests(&self) -> (n: usize)
        ensures
            n == min_nat(total_cases(self@.suites), usize::MAX as nat),
    {
        let ghost sv = suites_view(self.suites@);
        let mut n: usize = 0;
        let mut i: usize = 0;
        while i < self.suites.len()
            invariant
                i <= self.suites.len(),
                sv == suites_view(self.suites@),
                n == min_nat(total_cases(sv.take(i as int)), usize::MAX as nat),
            decreases self.suites.len() - i,
        {
            assert(sv.take(i + 1).drop_last() =~= sv.take(i as int));
            n = n.saturating_add(self.suites[i].tests.len());
            i += 1;
        }
        assert(sv.take(self.suites.len() as int) =~= sv);
        n
    }

    pub fn is_success(&self) -> (b: bool)
        ensures
            b == (total_status(self@.suites, TestStatus::Failed) == 0),
    {
        self.total_failed() == 0
    }
}


// ---------------------------------------------------------------------------
// Copies
// ---------------------------------------------------------------------------

pub fn clone_opt_string(o: &Option<String>) -> (r: Option<String>)
    ensures
        opt_str_view(r) == opt_str_view(*o),
{
    match o {
        Some(s) => Some(s.clone()),
        None => None,
    }
}

impl Clone for TestError {
    fn clone(&self) -> (r: Self)
        ensures
            r@ == self@,
    {
        TestError { message: self.message.clone(), location: clone_opt_string(&self.location) }
    }
}

impl Clone for TestCase {
    fn clone(&self) -> (r: Self)
        ensures
            r@ == self@,
    {
        let error = match &self.error {
            Some(e) => Some(e.clone()),
            None => None,
        };
        TestCase { name: self.name.clone(), status: self.status, duration: self.duration, error }
    }
}

/// Element-wise copy of a vector of cases.
pub fn clone_cases(v: &Vec<TestCase>) -> (r: Vec<TestCase>)
    ensures
        cases_view(r@) == cases_view(v@),
{
    let mut r: Vec<TestCase> = Vec::new();
    let mut i: usize = 0;
    while i < v.len()
        invariant
            i <= v.len(),
            cases_view(r@) == cases_view(v@).take(i as int),
        decreases v.len() - i,
    {
        let c = v[i].clone();
        let ghost old_r = r@;
        r.push(c);
        assert(cases_view(r@) =~= cases_view(old_r).push(c@));
        assert(c@ == cases_view(v@)[i as int]);
        assert(cases_view(r@) =~= cases_view(v@).take(i + 1));
        i += 1;
    }
    assert(cases_view(v@).take(v.len() as int) =~= cases_view(v@));
    r
}

impl Clone for TestSuite {
    fn clone(&self) -> (r: Self)
        ensures
            r@ == self@,
    {
        TestSuite { name: self.name.clone(), tests: clone_cases(&self.tests) }
    }
}

/// Element-wise copy of a vector of suites.
pub fn clone_suites(v: &Vec<TestSuite>) -> (r: Vec<TestSuite>)
    ensures
        suites_view(r@) == suites_view(v@),
{
    let mut r: Vec<TestSuite> = Vec::new();
    let mut i: usize = 0;
    while i < v.len()
        invariant
            i <= v.len(),
            suites_view(r@) == suites_view(v@).take(i as int),
        decreases v.len() - i,
    {
        let c = v[i].clone();
        let ghost old_r = r@;
        r.push(c);
        assert(suites_view(r@) =~= suites_view(old_r).push(c@));
        assert(c@ == suites_view(v@)[i as int]);
        assert(suites_view(r@) =~= suites_view(v@).take(i + 1));
        i += 1;
    }
    assert(suites_view(v@).take(v.len() as int) =~= suites_view(v@));
    r
}

impl Clone for TestRunResult {
    fn clone(&self) -> (r: Self)
        ensures
            r@ == self@,
    {
        TestRunResult {
            suites: clone_suites(&self.suites),
            duration: self.duration,
            raw_exit_code: self.raw_exit_code,
        }
    }
}

// ---------------------------------------------------------------------------
// Slowest tests
// ---------------------------------------------------------------------------

/// All (suite, case) pairs of a run, suite by suite, in order.
pub open spec fn flat_pairs(sv: Seq<SuiteView>) -> Seq<(SuiteView, CaseView)>
    decreases sv.len(),
{
    if sv.len() == 0 {
        seq![]
    } else {
        flat_pairs(sv.drop_last()) + sv.last().tests.map_values(|t: CaseView| (sv.last(), t))
    }
}

/// Index at which a stable descending insertion places `x` into `s`: after
/// every element at least as slow as `x`.
pub open spec fn insert_pos(s: Seq<(SuiteView, CaseView)>, x: (SuiteView, CaseView)) -> int
    decreases s.len(),
{
    if s.len() == 0 {
        0
    } else if s.last().1.duration >= x.1.duration {
        s.len() as int
    } else {
        insert_pos(s.drop_last(), x)
    }
}

/// Stable sort by duration, slowest first.
pub open spec fn sort_slowest(s: Seq<(SuiteView, CaseView)>) -> Seq<(SuiteView, CaseView)>
    decreases s.len(),
{
    if s.len() == 0 {
        seq![]
    } else {
        let rest = sort_slowest(s.drop_last());
        rest.insert(insert_pos(rest, s.last()), s.last())
    }
}

pub proof fn lemma_insert_pos_bounds(s: Seq<(SuiteView, CaseView)>, x: (SuiteView, CaseView))
    ensures
        0 <= insert_pos(s, x) <= s.len(),
    decreases s.len(),
{
    if s.len() > 0 {
        lemma_insert_pos_bounds(s.drop_last(), x);
    }
}

pub proof fn lemma_sort_len(s: Seq<(SuiteView, CaseView)>)
    ensures
        sort_slowest(s).len() == s.len(),
    decreases s.len(),
{
    if s.len() > 0 {
        lemma_sort_len(s.drop_last());
        lemma_insert_pos_bounds(sort_slowest(s.drop_last()), s.last());
    }
}

/// Slowest first: durations never grow along the sequence.
pub open spec fn slowest_first(s: Seq<(SuiteView, CaseView)>) -> bool {
    forall|i: int, j: int| 0 <= i < j < s.len() ==> (#[trigger] s[i]).1.duration >= (#[trigger] s[j]).1.duration
}

proof fn lemma_insert_pos_split(s: Seq<(SuiteView, CaseView)>, x: (SuiteView, CaseView))
    requires
        slowest_first(s),
    ensures
        forall|i: int| 0 <= i < insert_pos(s, x) ==> (#[trigger] s[i]).1.duration >= x.1.duration,
        forall|i: int| insert_pos(s, x) <= i < s.len() ==> (#[trigger] s[i]).1.duration < x.1.duration,
    decreases s.len(),
{
    lemma_insert_pos_bounds(s, x);
    if s.len() > 0 {
        let d = s.drop_last();
        assert(slowest_first(d)) by {
            assert forall|i: int, j: int| 0 <= i < j < d.len() implies (#[trigger] d[i]).1.duration >= (#[trigger] d[j]).1.duration by {
                assert(d[i] == s[i] && d[j] == s[j]);
            }
        }
        lemma_insert_pos_split(d, x);
        if s.last().1.duration >= x.1.duration {
            assert forall|i: int| 0 <= i < insert_pos(s, x) implies (#[trigger] s[i]).1.duration >= x.1.duration by {
                if i < s.len() - 1 {
                    assert(s[i].1.duration >= s[s.len() - 1].1.duration);
                }
            }
        } else {
            assert forall|i: int| 0 <= i < insert_pos(s, x) implies (#[trigger] s[i]).1.duration >= x.1.duration by {
                assert(s[i] == d[i]);
            }
            assert forall|i: int| insert_pos(s, x) <= i < s.len() implies (#[trigger] s[i]).1.duration < x.1.duration by {
                if i < s.len() - 1 {
                    assert(s[i] == d[i]);
                }
            }
        }
    }
}

/// The slowest-tests order puts slower tests before faster ones.
pub proof fn law_slowest_sorted(s: Seq<(SuiteView, CaseView)>)
    ensures
        slowest_first(sort_slowest(s)),
    decreases s.len(),
{
    if s.len() > 0 {
        law_slowest_sorted(s.drop_last());
        let rest = sort_slowest(s.drop_last());
        let x = s.last();
        lemma_insert_pos_split(rest, x);
        lemma_insert_pos_bounds(rest, x);
        let p = insert_pos(rest, x);
        let r = rest.insert(p, x);
        assert forall|i: int, j: int| 0 <= i < j < r.len() implies (#[trigger] r[i]).1.duration >= (#[trigger] r[j]).1.duration by {
            if j < p {
                assert(r[i] == rest[i] && r[j] == rest[j]);
            } else if j == p {
                assert(r[i] == rest[i] && r[j] == x);
            } else if i < p {
                assert(r[i] == rest[i] && r[j] == rest[j - 1]);
            } else if i == p {
                assert(r[i] == x && r[j] == rest[j - 1]);
            } else {
                assert(r[i] == rest[i - 1] && r[j] == rest[j - 1]);
            }
        }
    }
}

pub open spec fn pair_view(p: (&TestSuite, &TestCase)) -> (SuiteView, CaseView) {
    (p.0@, p.1@)
}

/// Position at which to insert `x` (exec counterpart of `insert_pos`).
fn find_insert_pos(v: &Vec<(&TestSuite, &TestCase)>, x: (&TestSuite, &TestCase)) -> (k: usize)
    ensures
        k == insert_pos(v@.map_values(|p| pair_view(p)), pair_view(x)),
{
    let ghost vv = v@.map_values(|p| pair_view(p));
    let mut j: usize = v.len();
    assert(vv.take(v.len() as int) =~= vv);
    while j > 0 && v[j - 1].1.duration.lt(&x.1.duration)
        invariant
            j <= v.len(),
            vv == v@.map_values(|p| pair_view(p)),
            insert_pos(vv, pair_view(x)) == insert_pos(vv.take(j as int), pair_view(x)),
        decreases j,
    {
        assert(vv.take(j as int).drop_last() =~= vv.take(j - 1));
        j -= 1;
    }
    if j > 0 {
        assert(vv.take(j as int).last() == vv[j - 1]);
    }
    j
}

impl TestRunResult {
    /// The `n` slowest tests, slowest first (ties keep run order).
    pub fn slowest_tests(&self, n: usize) -> (r: Vec<(&TestSuite, &TestCase)>)
        ensures
            r@.map_values(|p| pair_view(p)) == sort_slowest(flat_pairs(self@.suites)).take(
                min_nat(n as nat, total_cases(self@.suites)) as int,
            ),
    {
        let ghost sv = suites_view(self.suites@);
        let mut all: Vec<(&TestSuite, &TestCase)> = Vec::new();
        let ghost mut flat_done: Seq<(SuiteView, CaseView)> = seq![];
        let mut i: usize = 0;
        while i < self.suites.len()
            invariant
                i <= self.suites.len(),
                sv == suites_view(self.suites@),
                flat_done == flat_pairs(sv.take(i as int)),
                all@.map_values(|p| pair_view(p)) == sort_slowest(flat_done),
                flat_done.len() == total_cases(sv.take(i as int)),
            decreases self.suites.len() - i,
        {
            let suite = &self.suites[i];
            let ghost row = suite@.tests.map_values(|t: CaseView| (suite@, t));
            assert(sv.take(i + 1).drop_last() =~= sv.take(i as int));
            assert(sv.take(i + 1).last() == suite@);
            let mut j: usize = 0;
            let ghost base = flat_done;
            while j < suite.tests.len()
                invariant
                    j <= suite.tests.len(),
                    suite == &self.suites[i as int],
                    row == suite@.tests.map_values(|t: CaseView| (suite@, t)),
                    flat_done == base + row.take(j as int),
                    all@.map_values(|p| pair_view(p)) == sort_slowest(flat_done),
                decreases suite.tests.len() - j,
            {
                let x = (suite, &suite.tests[j]);
                let k = find_insert_pos(&all, x);
                let ghost before = all@.map_values(|p| pair_view(p));
                proof {
                    lemma_insert_pos_bounds(before, pair_view(x));
                    lemma_sort_len(flat_done);
                }
                all.insert(k, x);
                proof {
                    assert(all@.map_values(|p| pair_view(p)) =~= before.insert(k as int, pair_view(x)));
                    assert(row[j as int] == pair_view(x));
                    let nf = base + row.take(j + 1);
                    assert(nf.drop_last() =~= flat_done);
                    assert(nf.last() == pair_view(x));
                    flat_done = nf;
                }
                j += 1;
            }
            proof {
                assert(row.take(suite.tests.len() as int) =~= row);
            }
            i += 1;
        }
        assert(sv.take(self.suites.len() as int) =~= sv);
        proof {
            lemma_sort_len(flat_done);
        }
        let ghost sorted = all@.map_values(|p| pair_view(p));
        if n < all.len() {
            all.truncate(n);
        }
        assert(all@.map_values(|p| pair_view(p)) =~= sorted.take(min_nat(n as nat, total_cases(sv)) as int));
        all
    }
}

} // verus!
