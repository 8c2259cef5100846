//! Test run history: records of past runs, trends of single tests, and the
//! UTC timestamps the records carry.

use vstd::prelude::*;
use crate::adapters::{
    CaseView, RunView, SuiteView, TestCase, TestRunResult, TestStatus, TestSuite, total_cases,
    total_status,
};
use crate::duration::Duration;
use crate::num::{decimal, digit_char, min_nat};
use crate::text::{append, append_str, chars_of, chars_of_string, eq, string_of};

verus! {

/// The path `PathBuf::from` makes of a text.
pub uninterp spec fn path_of(s: Seq<char>) -> std::path::PathBuf;

/// `PathBuf::from` on a text: the path of that text.
#[verifier::external_body]
pub(crate) fn path_from(s: &str) -> (r: std::path::PathBuf)
    ensures
        r == path_of(s@),
{
    std::path::PathBuf::from(s)
}

/// A single test case record.
#[derive(Debug, Clone)]
pub struct TestRecord {
    /// Full test name (suite::test)
    pub name: String,
    /// Test status
    pub status: String,
    /// Duration in milliseconds
    pub duration_ms: u64,
    /// Error message if failed
    pub error: Option<String>,
}

/// A single recorded test run.
#[derive(Debug, Clone)]
pub struct RunRecord {
    /// ISO 8601 timestamp
    pub timestamp: String,
    /// Total number of tests
    pub total: usize,
    /// Number of passed tests
    pub passed: usize,
    /// Number of failed tests
    pub failed: usize,
    /// Number of skipped tests
    pub skipped: usize,
    /// Total duration in milliseconds
    pub duration_ms: u64,
    /// Exit code
    pub exit_code: i32,
    /// Individual test results
    pub tests: Vec<TestRecord>,
}

/// Duration trend direction.
#[derive(Debug, Clone, Copy, PartialEq, Eq, Structural)]
pub enum DurationTrend {
    Faster,
    Slower,
    Stable,
}

/// Trend data point for a specific test.
#[derive(Debug, Clone)]
pub struct TestTrend {
    /// Timestamp
    pub timestamp: String,
    /// Status at this point
    pub status: String,
    /// Duration in milliseconds
    pub duration_ms: u64,
}

/// Test history: the recorded runs, oldest first, and the most runs kept.
pub struct TestHistory {
    data_dir: std::path::PathBuf,
    runs: Vec<RunRecord>,
    max_runs: usize,
}

pub struct TestRecordView {
    pub name: Seq<char>,
    pub status: Seq<char>,
    pub duration_ms: u64,
    pub error: Option<Seq<char>>,
}

pub struct RunRecordView {
    pub timestamp: Seq<char>,
    pub total: usize,
    pub passed: usize,
    pub failed: usize,
    pub skipped: usize,
    pub duration_ms: u64,
    pub exit_code: i32,
    pub tests: Seq<TestRecordView>,
}

pub struct TrendView {
    pub timestamp: Seq<char>,
    pub status: Seq<char>,
    pub duration_ms: u64,
}

pub struct HistoryView {
    pub runs: Seq<RunRecordView>,
    pub max_runs: usize,
    pub data_dir: std::path::PathBuf,
}

impl View for TestRecord {
    type V = TestRecordView;

    open spec fn view(&self) -> TestRecordView {
        TestRecordView {
            name: self.name@,
            status: self.status@,
            duration_ms: self.duration_ms,
            error: crate::adapters::opt_str_view(self.error),
        }
    }
}

pub open spec fn records_view(ts: Seq<TestRecord>) -> Seq<TestRecordView> {
    ts.map_values(|t: TestRecord| t@)
}

impl View for RunRecord {
    type V = RunRecordView;

    open spec fn view(&self) -> RunRecordView {
        RunRecordView {
            timestamp: self.timestamp@,
            total: self.total,
            passed: self.passed,
            failed: self.failed,
            skipped: self.skipped,
            duration_ms: self.duration_ms,
            exit_code: self.exit_code,
            tests: records_view(self.tests@),
        }
    }
}

pub open spec fn runs_view(rs: Seq<RunRecord>) -> Seq<RunRecordView> {
    rs.map_values(|r: RunRecord| r@)
}

impl View for TestTrend {
    type V = TrendView;

    open spec fn view(&self) -> TrendView {
        TrendView { timestamp: self.timestamp@, status: self.status@, duration_ms: self.duration_ms }
    }
}

pub open spec fn trends_view(ts: Seq<TestTrend>) -> Seq<TrendView> {
    ts.map_values(|t: TestTrend| t@)
}

impl View for TestHistory {
    type V = HistoryView;

    closed spec fn view(&self) -> HistoryView {
        HistoryView { runs: runs_view(self.runs@), max_runs: self.max_runs, data_dir: self.data_dir }
    }
}

// ---------------------------------------------------------------------------
// Calendar
// ---------------------------------------------------------------------------

/// A leap year of the Gregorian calendar.
pub open spec fn is_leap(y: int) -> bool {
    (y % 4 == 0 && y % 100 != 0) || y % 400 == 0
}

pub open spec fn year_days(y: int) -> int {
    if is_leap(y) { 366 } else { 365 }
}

/// Days in month `m` (1 to 12) of year `y`.
pub open spec fn month_len(y: int, m: int) -> int {
    if m == 2 {
        if is_leap(y) { 29 } else { 28 }
    } else if m == 4 || m == 6 || m == 9 || m == 11 {
        30
    } else {
        31
    }
}

/// Month and day of the `days`-th day (from 0) counted from month `m`.
pub open spec fn month_and_day(days: int, y: int, m: int) -> (int, int)
    decreases 13 - m,
{
    if m < 1 || m > 12 || days < month_len(y, m) {
        (m, days + 1)
    } else {
        month_and_day(days - month_len(y, m), y, m + 1)
    }
}

/// Year, month and day of the `days`-th day (from 0) counted from 1
/// January of year `y`.
pub open spec fn date_from(days: int, y: int) -> (int, int, int)
    decreases days,
{
    if days < year_days(y) || days < 0 {
        let md = month_and_day(days, y, 1);
        (y, md.0, md.1)
    } else {
        date_from(days - year_days(y), y + 1)
    }
}

/// The calendar date of a day counted from 1 January 1970.
pub open spec fn date_of_day(days: int) -> (int, int, int) {
    date_from(days, 1970)
}

/// Whether a year is a leap year.
pub fn is_leap_year(year: u64) -> (b: bool)
    ensures
        b == is_leap(year as int),
{
    (year % 4 == 0 && year % 100 != 0) || year % 400 == 0
}

fn month_len_v(y: u64, m: u64) -> (n: u64)
    requires
        1 <= m <= 12,
    ensures
        n == month_len(y as int, m as int),
{
    if m == 2 {
        if is_leap_year(y) { 29 } else { 28 }
    } else if m == 4 || m == 6 || m == 9 || m == 11 {
        30
    } else {
        31
    }
}

fn year_days_v(y: u64) -> (n: u64)
    ensures
        n == year_days(y as int),
{
    if is_leap_year(y) { 366 } else { 365 }
}

/// Convert a day count since 1 January 1970 to (year, month, day).
pub fn days_to_date(days: u64) -> (r: (u64, u64, u64))
    ensures
        (r.0 as int, r.1 as int, r.2 as int) == date_of_day(days as int),
{
    let mut days = days;
    let mut year: u64 = 1970;
    let ghost total = days as int;
    while days >= year_days_v(year)
        invariant
            1970 <= year,
            days <= total,
            (year - 1970) * 365 + days <= total,
            total <= u64::MAX,
            date_of_day(total) == date_from(days as int, year as int),
        decreases days,
    {
        let yd = year_days_v(year);
        days = days - yd;
        year = year + 1;
    }
    let ghost d0 = days as int;
    assert(date_from(d0, year as int) == (year as int, month_and_day(d0, year as int, 1).0, month_and_day(d0, year as int, 1).1));
    let mut month: u64 = 1;
    while month <= 12 && days >= month_len_v(year, month)
        invariant
            1 <= month <= 13,
            days <= d0,
            month_and_day(d0, year as int, 1) == month_and_day(days as int, year as int, month as int),
        decreases 13 - month,
    {
        days = days - month_len_v(year, month);
        month = month + 1;
    }
    (year, month, days + 1)
}


// ---------------------------------------------------------------------------
// Timestamps
// ---------------------------------------------------------------------------

/// The decimal digits of `n`, with zeros in front up to width `w`.
pub open spec fn zero_pad(n: nat, w: nat) -> Seq<char> {
    let d = decimal(n);
    if d.len() >= w { d } else { Seq::new((w - d.len()) as nat, |i: int| '0') + d }
}

/// The UTC time `secs` seconds after the epoch, as `YYYY-MM-DDTHH:MM:SSZ`.
pub open spec fn iso_timestamp(secs: nat) -> Seq<char> {
    let t = secs % 86400;
    let date = date_of_day((secs / 86400) as int);
    zero_pad(date.0 as nat, 4) + "-"@ + zero_pad(date.1 as nat, 2) + "-"@ + zero_pad(date.2 as nat, 2) + "T"@
        + zero_pad(t / 3600, 2) + ":"@ + zero_pad((t % 3600) / 60, 2) + ":"@ + zero_pad(t % 60, 2) + "Z"@
}

fn zero_pad_v(n: u64, w: usize) -> (r: Vec<char>)
    ensures
        r@ == zero_pad(n as nat, w as nat),
{
    let d = crate::num::fmt_u64(n);
    if d.len() >= w {
        return d;
    }
    let k = w - d.len();
    let mut out: Vec<char> = Vec::new();
    let mut i: usize = 0;
    while i < k
        invariant
            i <= k,
            out@ =~= Seq::new(i as nat, |j: int| '0'),
        decreases k - i,
    {
        out.push('0');
        i += 1;
    }
    append(&mut out, &d);
    out
}

/// Format a time (seconds after the epoch) as an ISO 8601 UTC timestamp.
pub fn format_timestamp(secs: u64) -> (r: String)
    ensures
        r@ == iso_timestamp(secs as nat),
{
    let days = secs / 86400;
    let t = secs % 86400;
    let (year, month, day) = days_to_date(days);
    proof {
        reveal_strlit("-");
        reveal_strlit("T");
        reveal_strlit(":");
        reveal_strlit("Z");
    }
    let mut out = zero_pad_v(year, 4);
    out.push('-');
    append(&mut out, &zero_pad_v(month, 2));
    out.push('-');
    append(&mut out, &zero_pad_v(day, 2));
    out.push('T');
    append(&mut out, &zero_pad_v(t / 3600, 2));
    out.push(':');
    append(&mut out, &zero_pad_v((t % 3600) / 60, 2));
    out.push(':');
    append(&mut out, &zero_pad_v(t % 60, 2));
    out.push('Z');
    assert(out@ =~= iso_timestamp(secs as nat));
    string_of(&out)
}

// ---------------------------------------------------------------------------
// Records of runs
// ---------------------------------------------------------------------------

pub open spec fn status_word(st: TestStatus) -> Seq<char> {
    match st {
        TestStatus::Passed => "passed"@,
        TestStatus::Failed => "failed"@,
        TestStatus::Skipped => "skipped"@,
    }
}

/// A record's status word tells the case's status: each status has its
/// own word, and a record says `passed` (or `failed`, or `skipped`)
/// exactly when its case has that status.
pub proof fn law_status_word_tells_status(suite: Seq<char>, c: CaseView, other: TestStatus)
    ensures
        (case_record(suite, c).status == "passed"@) == (c.status == TestStatus::Passed),
        (case_record(suite, c).status == "failed"@) == (c.status == TestStatus::Failed),
        (case_record(suite, c).status == "skipped"@) == (c.status == TestStatus::Skipped),
        status_word(other) == case_record(suite, c).status ==> other == c.status,
{
    reveal_strlit("passed");
    reveal_strlit("failed");
    reveal_strlit("skipped");
    assert("passed"@[0] != "failed"@[0]);
    assert("passed"@.len() != "skipped"@.len());
    assert("failed"@.len() != "skipped"@.len());
}

/// Whole milliseconds of a duration, wrapped to 64 bits.
pub open spec fn ms_u64(ns: nat) -> u64 {
    ((ns / 1_000_000) % 0x1_0000_0000_0000_0000) as u64
}

/// The record of a case of a suite: `suite::test`, its status word, its
/// milliseconds and its error message.
pub open spec fn case_record(suite: Seq<char>, c: CaseView) -> TestRecordView {
    TestRecordView {
        name: suite + "::"@ + c.name,
        status: status_word(c.status),
        duration_ms: ms_u64(c.duration),
        error: match c.error {
            Some(e) => Some(e.message),
            None => None,
        },
    }
}

/// The records of all cases, suite after suite.
pub open spec fn case_records(suites: Seq<SuiteView>) -> Seq<TestRecordView>
    decreases suites.len(),
{
    if suites.len() == 0 {
        seq![]
    } else {
        let s = suites.last();
        case_records(suites.drop_last()) + s.tests.map_values(|c: CaseView| case_record(s.name, c))
    }
}

/// The record of a run made at time `now`.
pub open spec fn run_record_at(r: RunView, now: nat) -> RunRecordView {
    RunRecordView {
        timestamp: iso_timestamp(now),
        total: min_nat(total_cases(r.suites), usize::MAX as nat) as usize,
        passed: min_nat(total_status(r.suites, TestStatus::Passed), usize::MAX as nat) as usize,
        failed: min_nat(total_status(r.suites, TestStatus::Failed), usize::MAX as nat) as usize,
        skipped: min_nat(total_status(r.suites, TestStatus::Skipped), usize::MAX as nat) as usize,
        duration_ms: ms_u64(r.duration),
        exit_code: r.raw_exit_code,
        tests: case_records(r.suites),
    }
}

fn ms_u64_v(d: &Duration) -> (r: u64)
    ensures
        r == ms_u64(d.ns()),
{
    let ms = d.as_millis();
    let r = ms as u64;
    assert(r == ms % 0x1_0000_0000_0000_0000) by (bit_vector)
        requires
            r == ms as u64,
    ;
    r
}

fn case_record_v(suite: &String, c: &TestCase) -> (r: TestRecord)
    ensures
        r@ == case_record(suite@, c@),
{
    let mut name = chars_of_string(suite);
    append_str(&mut name, "::");
    append(&mut name, &chars_of_string(&c.name));
    let status = match c.status {
        TestStatus::Passed => "passed",
        TestStatus::Failed => "failed",
        TestStatus::Skipped => "skipped",
    };
    let error = match &c.error {
        Some(e) => Some(string_of(&chars_of_string(&e.message))),
        None => None,
    };
    TestRecord { name: string_of(&name), status: string_of(&chars_of(status)), duration_ms: ms_u64_v(&c.duration), error }
}

fn case_records_v(suites: &Vec<TestSuite>) -> (r: Vec<TestRecord>)
    ensures
        records_view(r@) == case_records(crate::adapters::suites_view(suites@)),
{
    let ghost sv = crate::adapters::suites_view(suites@);
    let mut out: Vec<TestRecord> = Vec::new();
    let mut i: usize = 0;
    while i < suites.len()
        invariant
            i <= suites.len(),
            sv == crate::adapters::suites_view(suites@),
            records_view(out@) == case_records(sv.take(i as int)),
        decreases suites.len() - i,
    {
        let s = &suites[i];
        let ghost si = sv[i as int];
        assert(sv.take(i + 1).drop_last() =~= sv.take(i as int));
        let ghost base = records_view(out@);
        let mut j: usize = 0;
        while j < s.tests.len()
            invariant
                j <= s.tests.len(),
                si == s@,
                si.tests == crate::adapters::cases_view(s.tests@),
                records_view(out@) == base + si.tests.take(j as int).map_values(|c: CaseView| case_record(si.name, c)),
            decreases s.tests.len() - j,
        {
            let rec = case_record_v(&s.name, &s.tests[j]);
            let ghost before = records_view(out@);
            out.push(rec);
            assert(records_view(out@) =~= before.push(rec@));
            assert(si.tests.take(j + 1).map_values(|c: CaseView| case_record(si.name, c))
                =~= si.tests.take(j as int).map_values(|c: CaseView| case_record(si.name, c)).push(case_record(si.name, si.tests[j as int])));
            j += 1;
        }
        assert(si.tests.take(j as int) =~= si.tests);
        i += 1;
    }
    assert(sv.take(suites.len() as int) =~= sv);
    out
}

impl RunRecord {
    /// The record of a run made at time `now_secs` (seconds after the
    /// epoch).
    pub fn from_result_at(result: &TestRunResult, now_secs: u64) -> (r: RunRecord)
        ensures
            r@ == run_record_at(result@, now_secs as nat),
    {
        RunRecord {
            timestamp: format_timestamp(now_secs),
            total: result.total_tests(),
            passed: result.total_passed(),
            failed: result.total_failed(),
            skipped: result.total_skipped(),
            duration_ms: ms_u64_v(&result.duration),
            exit_code: result.raw_exit_code,
            tests: case_records_v(&result.suites),
        }
    }

    /// The record of a run made now.
    pub fn from_result(result: &TestRunResult) -> (r: RunRecord)
        ensures
            exists|t: nat| r@ == run_record_at(result@, t),
    {
        let now = crate::cache::now_epoch_secs();
        Self::from_result_at(result, now)
    }
}

// ---------------------------------------------------------------------------
// The history
// ---------------------------------------------------------------------------

/// The last `n` runs (all when there are fewer).
pub open spec fn last_runs(rs: Seq<RunRecordView>, n: nat) -> Seq<RunRecordView> {
    if rs.len() <= n { rs } else { rs.skip(rs.len() - n) }
}

/// The history after a run is recorded: the oldest runs beyond the limit
/// are dropped.
pub open spec fn with_run(h: HistoryView, rec: RunRecordView) -> HistoryView {
    HistoryView { runs: last_runs(h.runs.push(rec), h.max_runs as nat), ..h }
}

/// The trend points of a test: for each run that has it, its first record
/// with that name.
pub open spec fn first_named(ts: Seq<TestRecordView>, name: Seq<char>) -> Option<TestRecordView>
    decreases ts.len(),
{
    if ts.len() == 0 {
        None
    } else if ts[0].name == name {
        Some(ts[0])
    } else {
        first_named(ts.drop_first(), name)
    }
}

pub open spec fn trend_of(rs: Seq<RunRecordView>, name: Seq<char>) -> Seq<TrendView>
    decreases rs.len(),
{
    if rs.len() == 0 {
        seq![]
    } else {
        let r = rs.last();
        trend_of(rs.drop_last(), name) + match first_named(r.tests, name) {
            Some(t) => seq![TrendView { timestamp: r.timestamp, status: t.status, duration_ms: t.duration_ms }],
            None => seq![],
        }
    }
}

/// Sum of the run durations in milliseconds.
pub open spec fn total_ms(rs: Seq<RunRecordView>) -> nat
    decreases rs.len(),
{
    if rs.len() == 0 { 0 } else { total_ms(rs.drop_last()) + rs.last().duration_ms as nat }
}

impl TestHistory {
    /// A new in-memory history.
    pub fn new_in_memory() -> (h: TestHistory)
        ensures
            h@.runs == Seq::<RunRecordView>::empty(),
            h@.max_runs == 500,
    {
        let h = TestHistory { data_dir: path_from("/tmp/testx-history"), runs: Vec::new(), max_runs: 500 };
        assert(runs_view(h.runs@) =~= seq![]);
        h
    }

    /// A history in `data_dir` holding `runs` read from its store.
    pub fn from_parts(data_dir: std::path::PathBuf, runs: Vec<RunRecord>) -> (h: TestHistory)
        ensures
            h@.runs == runs_view(runs@),
            h@.max_runs == 500,
            h@.data_dir == data_dir,
    {
        TestHistory { data_dir, runs, max_runs: 500 }
    }

    /// The directory of the history's store.
    pub fn data_dir(&self) -> (r: &std::path::PathBuf)
        ensures
            *r == self@.data_dir,
    {
        &self.data_dir
    }

    /// Record a run made at time `now_secs`, dropping the oldest runs
    /// beyond the limit.
    pub fn record_at(&mut self, result: &TestRunResult, now_secs: u64)
        ensures
            final(self)@ == with_run(old(self)@, run_record_at(result@, now_secs as nat)),
    {
        let rec = RunRecord::from_result_at(result, now_secs);
        let ghost before = runs_view(self.runs@);
        self.runs.push(rec);
        assert(runs_view(self.runs@) =~= before.push(rec@));
        if self.runs.len() > self.max_runs {
            let excess = self.runs.len() - self.max_runs;
            let ghost full = runs_view(self.runs@);
            let tail = self.runs.split_off(excess);
            self.runs = tail;
            assert(runs_view(self.runs@) =~= full.skip(excess as int));
        }
    }

    /// Record a run made now.
    pub fn record(&mut self, result: &TestRunResult)
        ensures
            exists|t: nat| final(self)@ == with_run(old(self)@, run_record_at(result@, t)),
    {
        let now = crate::cache::now_epoch_secs();
        self.record_at(result, now);
    }

    /// The number of recorded runs.
    pub fn run_count(&self) -> (n: usize)
        ensures
            n == self@.runs.len(),
    {
        self.runs.len()
    }

    /// All run records, oldest first.
    pub fn runs(&self) -> (r: &[RunRecord])
        ensures
            runs_view(r@) == self@.runs,
    {
        self.runs.as_slice()
    }

    /// The most recent `n` runs, oldest first.
    pub fn recent_runs(&self, n: usize) -> (r: &[RunRecord])
        ensures
            runs_view(r@) == last_runs(self@.runs, n as nat),
    {
        let len = self.runs.len();
        let start = if len > n { len - n } else { 0 };
        let r = vstd::slice::slice_subrange(self.runs.as_slice(), start, len);
        assert(runs_view(r@) =~= last_runs(self@.runs, n as nat));
        r
    }

    /// The trend of a test over the last `last_n` runs.
    pub fn get_trend(&self, test_name: &str, last_n: usize) -> (r: Vec<TestTrend>)
        ensures
            trends_view(r@) == trend_of(last_runs(self@.runs, last_n as nat), test_name@),
    {
        let runs = self.recent_runs(last_n);
        let ghost rv = runs_view(runs@);
        let name = chars_of(test_name);
        let mut out: Vec<TestTrend> = Vec::new();
        let mut i: usize = 0;
        while i < runs.len()
            invariant
                i <= runs@.len(),
                rv == runs_view(runs@),
                name@ == test_name@,
                trends_view(out@) == trend_of(rv.take(i as int), test_name@),
            decreases runs@.len() - i,
        {
            let run = &runs[i];
            assert(rv.take(i + 1).drop_last() =~= rv.take(i as int));
            assert(rv.take(i + 1).last() == run@);
            let ghost tv = records_view(run.tests@);
            let mut k: usize = 0;
            assert(tv.skip(0) =~= tv);
            let mut found: Option<usize> = None;
            while k < run.tests.len()
                invariant
                    k <= run.tests@.len(),
                    tv == records_view(run.tests@),
                    found is None ==> first_named(tv, name@) == first_named(tv.skip(k as int), name@),
                    found matches Some(j) ==> j < run.tests@.len() && first_named(tv, name@) == Some(tv[j as int]),
                decreases run.tests@.len() - k,
            {
                if found.is_none() {
                    assert(tv.skip(k as int)[0] == tv[k as int]);
                    assert(tv.skip(k as int).drop_first() =~= tv.skip(k + 1));
                    if eq(&chars_of_string(&run.tests[k].name), &name) {
                        found = Some(k);
                    }
                }
                k += 1;
            }
            match found {
                Some(j) => {
                    let t = &run.tests[j];
                    let p = TestTrend {
                        timestamp: string_of(&chars_of_string(&run.timestamp)),
                        status: string_of(&chars_of_string(&t.status)),
                        duration_ms: t.duration_ms,
                    };
                    let ghost before = trends_view(out@);
                    out.push(p);
                    assert(trends_view(out@) =~= before.push(p@));
                },
                None => {},
            }
            i += 1;
        }
        assert(rv.take(runs@.len() as int) =~= rv);
        out
    }

    /// Keep only the most recent `keep` runs; the number of runs dropped.
    pub fn prune(&mut self, keep: usize) -> (removed: usize)
        ensures
            final(self)@ == (HistoryView { runs: last_runs(old(self)@.runs, keep as nat), ..old(self)@ }),
            removed == if old(self)@.runs.len() <= keep { 0 } else { old(self)@.runs.len() - keep },
    {
        if self.runs.len() <= keep {
            return 0;
        }
        let removed = self.runs.len() - keep;
        let ghost full = runs_view(self.runs@);
        let tail = self.runs.split_off(removed);
        self.runs = tail;
        assert(runs_view(self.runs@) =~= full.skip(removed as int));
        removed
    }

    /// The average duration of the last `last_n` runs (whole milliseconds,
    /// rounded down), zero without runs.
    pub fn avg_duration(&self, last_n: usize) -> (d: Duration)
        requires
            total_ms(last_runs(self@.runs, last_n as nat)) <= u64::MAX,
        ensures
            ({
                let rs = last_runs(self@.runs, last_n as nat);
                d.ns() == if rs.len() == 0 { 0 } else { (total_ms(rs) / rs.len()) * 1_000_000 }
            }),
    {
        let runs = self.recent_runs(last_n);
        let ghost rv = runs_view(runs@);
        if runs.len() == 0 {
            return Duration::zero();
        }
        let mut total: u64 = 0;
        let mut i: usize = 0;
        while i < runs.len()
            invariant
                i <= runs@.len(),
                rv == runs_view(runs@),
                total_ms(rv) <= u64::MAX,
                total == total_ms(rv.take(i as int)),
            decreases runs@.len() - i,
        {
            assert(rv.take(i + 1).drop_last() =~= rv.take(i as int));
            proof {
                lemma_total_ms_prefix(rv, i + 1);
            }
            total = total + runs[i].duration_ms;
            i += 1;
        }
        assert(rv.take(runs@.len() as int) =~= rv);
        let n = runs.len() as u64;
        Duration::from_millis(total / n)
    }
}

proof fn lemma_total_ms_prefix(rs: Seq<RunRecordView>, k: int)
    requires
        0 <= k <= rs.len(),
    ensures
        total_ms(rs.take(k)) <= total_ms(rs),
    decreases rs.len() - k,
{
    if k < rs.len() {
        lemma_total_ms_prefix(rs, k + 1);
        assert(rs.take(k + 1).drop_last() =~= rs.take(k));
    } else {
        assert(rs.take(k) =~= rs);
    }
}


// ---------------------------------------------------------------------------
// Laws
// ---------------------------------------------------------------------------

/// Days from the start of month `m` to the end of the year.
pub open spec fn days_left(y: int, m: int) -> int
    decreases 13 - m,
{
    if m < 1 || m > 12 { 0 } else { month_len(y, m) + days_left(y, m + 1) }
}

proof fn lemma_days_left_year(y: int)
    ensures
        days_left(y, 1) == year_days(y),
{
    reveal_with_fuel(days_left, 13);
}

proof fn lemma_month_and_day(days: int, y: int, m: int)
    requires
        1 <= m <= 12,
        0 <= days < days_left(y, m),
    ensures
        m <= month_and_day(days, y, m).0 <= 12,
        1 <= month_and_day(days, y, m).1 <= month_len(y, month_and_day(days, y, m).0),
    decreases 13 - m,
{
    assert(days_left(y, 13) == 0);
    if days >= month_len(y, m) {
        lemma_month_and_day(days - month_len(y, m), y, m + 1);
    }
}

proof fn lemma_date_from(days: int, y: int)
    requires
        days >= 0,
    ensures
        date_from(days, y).0 >= y,
        1 <= date_from(days, y).1 <= 12,
        1 <= date_from(days, y).2 <= month_len(date_from(days, y).0, date_from(days, y).1),
    decreases days,
{
    if days < year_days(y) {
        lemma_days_left_year(y);
        lemma_month_and_day(days, y, 1);
    } else {
        lemma_date_from(days - year_days(y), y + 1);
    }
}

/// Every day count since the epoch names a real date: a year from 1970 on,
/// a month from 1 to 12 and a day within that month.
pub proof fn law_date_valid(days: nat)
    ensures
        date_of_day(days as int).0 >= 1970,
        1 <= date_of_day(days as int).1 <= 12,
        1 <= date_of_day(days as int).2 <= month_len(date_of_day(days as int).0, date_of_day(days as int).1),
{
    lemma_date_from(days as int, 1970);
}

/// The recent runs are the newest `n` runs (all of them when there are
/// fewer), in order.
pub proof fn law_recent_runs_are_newest(rs: Seq<RunRecordView>, n: nat)
    ensures
        last_runs(rs, n).len() == if rs.len() <= n { rs.len() } else { n },
        forall|i: int| 0 <= i < last_runs(rs, n).len() ==> #[trigger] last_runs(rs, n)[i] == rs[rs.len() - last_runs(rs, n).len() + i],
{
}

/// Recording a run into a history within its limit keeps it within the
/// limit, and the new run is the newest.
pub proof fn law_record_within_limit(h: HistoryView, rec: RunRecordView)
    requires
        h.runs.len() <= h.max_runs,
        h.max_runs > 0,
    ensures
        with_run(h, rec).runs.len() <= h.max_runs,
        with_run(h, rec).runs.len() == if h.runs.len() < h.max_runs { h.runs.len() + 1 } else { h.max_runs as nat },
        with_run(h, rec).runs.last() == rec,
        with_run(h, rec).max_runs == h.max_runs,
{
}

// ---------------------------------------------------------------------------
// Per-test series over runs
// ---------------------------------------------------------------------------

/// Where `name` sits in a grouping (its last place; names occur once).
pub open spec fn name_index<T>(g: Seq<(Seq<char>, Seq<T>)>, name: Seq<char>) -> Option<int>
    decreases g.len(),
{
    if g.len() == 0 {
        None
    } else if g.last().0 == name {
        Some(g.len() - 1)
    } else {
        name_index(g.drop_last(), name)
    }
}

/// Values grouped by name: names in order of first appearance, each with
/// its values in order.
pub open spec fn group_by_name<T>(s: Seq<(Seq<char>, T)>) -> Seq<(Seq<char>, Seq<T>)>
    decreases s.len(),
{
    if s.len() == 0 {
        seq![]
    } else {
        let g = group_by_name(s.drop_last());
        let n = s.last().0;
        let v = s.last().1;
        match name_index(g, n) {
            Some(k) => g.update(k, (n, g[k].1.push(v))),
            None => g.push((n, seq![v])),
        }
    }
}

/// Each test record of the runs, in order, with whether it passed.
pub open spec fn run_outcomes(runs: Seq<RunRecordView>) -> Seq<(Seq<char>, bool)>
    decreases runs.len(),
{
    if runs.len() == 0 {
        seq![]
    } else {
        run_outcomes(runs.drop_last())
            + runs.last().tests.map_values(|t: TestRecordView| (t.name, t.status == "passed"@))
    }
}

/// Each passed test record of the runs, in order, with its duration.
pub open spec fn passed_durations(runs: Seq<RunRecordView>) -> Seq<(Seq<char>, u64)>
    decreases runs.len(),
{
    if runs.len() == 0 {
        seq![]
    } else {
        passed_durations(runs.drop_last()) + passed_pairs(runs.last().tests)
    }
}

/// The passed records among `tests`, in order, with their durations.
pub open spec fn passed_pairs(tests: Seq<TestRecordView>) -> Seq<(Seq<char>, u64)>
    decreases tests.len(),
{
    if tests.len() == 0 {
        seq![]
    } else if tests.last().status == "passed"@ {
        passed_pairs(tests.drop_last()).push((tests.last().name, tests.last().duration_ms))
    } else {
        passed_pairs(tests.drop_last())
    }
}

proof fn lemma_name_index<T>(g: Seq<(Seq<char>, Seq<T>)>, name: Seq<char>)
    ensures
        name_index(g, name) matches Some(k) ==> 0 <= k < g.len() && g[k].0 == name,
    decreases g.len(),
{
    if g.len() > 0 {
        lemma_name_index(g.drop_last(), name);
    }
}

pub open spec fn series_view<T>(g: Seq<(String, Vec<T>)>) -> Seq<(Seq<char>, Seq<T>)> {
    g.map_values(|p: (String, Vec<T>)| (p.0@, p.1@))
}

pub open spec fn pairs_view<T>(s: Seq<(String, T)>) -> Seq<(Seq<char>, T)> {
    s.map_values(|p: (String, T)| (p.0@, p.1))
}

fn find_name<T>(g: &Vec<(String, Vec<T>)>, name: &String) -> (r: Option<usize>)
    ensures
        match r {
            Some(k) => k < g@.len() && name_index(series_view(g@), name@) == Some(k as int),
            None => name_index(series_view(g@), name@) is None,
        },
{
    let ghost gv = series_view(g@);
    let mut j: usize = g.len();
    let c = chars_of_string(name);
    assert(gv.take(g.len() as int) =~= gv);
    while j > 0
        invariant
            j <= g.len(),
            gv == series_view(g@),
            c@ == name@,
            name_index(gv, name@) == name_index(gv.take(j as int), name@),
        decreases j,
    {
        let ghost t = gv.take(j as int);
        assert(t.drop_last() =~= gv.take(j - 1));
        assert(t.last() == gv[j - 1]);
        if eq(&chars_of_string(&g[j - 1].0), &c) {
            return Some(j - 1);
        }
        j -= 1;
    }
    None
}

fn group_pairs<T: Copy>(s: Vec<(String, T)>) -> (r: Vec<(String, Vec<T>)>)
    ensures
        series_view(r@) == group_by_name(pairs_view(s@)),
{
    let ghost sv = pairs_view(s@);
    let mut g: Vec<(String, Vec<T>)> = Vec::new();
    let mut i: usize = 0;
    assert(sv.take(0) =~= Seq::<(Seq<char>, T)>::empty());
    assert(series_view(g@) =~= Seq::<(Seq<char>, Seq<T>)>::empty());
    while i < s.len()
        invariant
            i <= s.len(),
            sv == pairs_view(s@),
            series_view(g@) == group_by_name(sv.take(i as int)),
        decreases s.len() - i,
    {
        let ghost pre = sv.take(i as int);
        assert(sv.take(i + 1).drop_last() =~= pre);
        assert(sv.take(i + 1).last() == sv[i as int]);
        let name = s[i].0.clone();
        let v = s[i].1;
        assert(name@ == sv[i as int].0);
        let ghost before = series_view(g@);
        proof {
            lemma_name_index(before, name@);
        }
        match find_name(&g, &name) {
            Some(k) => {
                let mut e = g.remove(k);
                e.1.push(v);
                g.insert(k, e);
                assert(series_view(g@) =~= before.update(k as int, (name@, before[k as int].1.push(v))));
            },
            None => {
                let mut vs: Vec<T> = Vec::new();
                vs.push(v);
                g.push((name, vs));
                assert(series_view(g@) =~= before.push((name@, seq![v])));
            },
        }
        i += 1;
    }
    assert(sv.take(s.len() as int) =~= sv);
    g
}

/// Whether each test passed, run by run, grouped by test name (names in
/// order of first appearance).
pub fn outcomes_by_test(runs: &[RunRecord]) -> (r: Vec<(String, Vec<bool>)>)
    ensures
        series_view(r@) == group_by_name(run_outcomes(runs_view(runs@))),
{
    let ghost rv = runs_view(runs@);
    let mut pairs: Vec<(String, bool)> = Vec::new();
    let mut i: usize = 0;
    while i < runs.len()
        invariant
            i <= runs.len(),
            rv == runs_view(runs@),
            pairs_view(pairs@) == run_outcomes(rv.take(i as int)),
        decreases runs.len() - i,
    {
        assert(rv.take(i + 1).drop_last() =~= rv.take(i as int));
        assert(rv.take(i + 1).last() == runs@[i as int]@);
        let tests = &runs[i].tests;
        let ghost base = pairs_view(pairs@);
        let ghost tv = records_view(tests@);
        let mut j: usize = 0;
        while j < tests.len()
            invariant
                j <= tests.len(),
                tv == records_view(tests@),
                pairs_view(pairs@) == base + tv.take(j as int).map_values(|t: TestRecordView| (t.name, t.status == "passed"@)),
            decreases tests.len() - j,
        {
            let ghost before = pairs_view(pairs@);
            let t = &tests[j];
            assert(tv[j as int] == t@);
            let passed = eq(&chars_of_string(&t.status), &chars_of("passed"));
            let n = t.name.clone();
            assert(n@ == t.name@);
            pairs.push((n, passed));
            assert(pairs_view(pairs@) =~= before.push((tv[j as int].name, tv[j as int].status == "passed"@)));
            assert(tv.take(j + 1) =~= tv.take(j as int).push(tv[j as int]));
            assert(pairs_view(pairs@) =~= base + tv.take(j + 1).map_values(|t: TestRecordView| (t.name, t.status == "passed"@)));
            j += 1;
        }
        assert(tv.take(tests.len() as int) =~= tv);
        i += 1;
    }
    assert(rv.take(runs.len() as int) =~= rv);
    group_pairs(pairs)
}

/// Durations of the passed records of each test, run by run, grouped by
/// test name (names in order of first appearance).
pub fn passed_durations_by_test(runs: &[RunRecord]) -> (r: Vec<(String, Vec<u64>)>)
    ensures
        series_view(r@) == group_by_name(passed_durations(runs_view(runs@))),
{
    let ghost rv = runs_view(runs@);
    let mut pairs: Vec<(String, u64)> = Vec::new();
    let mut i: usize = 0;
    while i < runs.len()
        invariant
            i <= runs.len(),
            rv == runs_view(runs@),
            pairs_view(pairs@) == passed_durations(rv.take(i as int)),
        decreases runs.len() - i,
    {
        assert(rv.take(i + 1).drop_last() =~= rv.take(i as int));
        assert(rv.take(i + 1).last() == runs@[i as int]@);
        let tests = &runs[i].tests;
        let ghost base = pairs_view(pairs@);
        let ghost tv = records_view(tests@);
        let mut j: usize = 0;
        while j < tests.len()
            invariant
                j <= tests.len(),
                tv == records_view(tests@),
                pairs_view(pairs@) == base + passed_pairs(tv.take(j as int)),
            decreases tests.len() - j,
        {
            let ghost before = pairs_view(pairs@);
            let t = &tests[j];
            assert(tv[j as int] == t@);
            assert(tv.take(j + 1).drop_last() =~= tv.take(j as int));
            assert(tv.take(j + 1).last() == tv[j as int]);
            if eq(&chars_of_string(&t.status), &chars_of("passed")) {
                let n = t.name.clone();
                assert(n@ == t.name@);
                pairs.push((n, t.duration_ms));
                assert(pairs_view(pairs@) =~= before.push((tv[j as int].name, tv[j as int].duration_ms)));
            }
            j += 1;
        }
        assert(tv.take(tests.len() as int) =~= tv);
        i += 1;
    }
    assert(rv.take(runs.len() as int) =~= rv);
    group_pairs(pairs)
}

// ---------------------------------------------------------------------------
// Tests failing together
// ---------------------------------------------------------------------------

/// Names of the failed records, in order.
pub open spec fn failed_names(tests: Seq<TestRecordView>) -> Seq<Seq<char>>
    decreases tests.len(),
{
    if tests.len() == 0 {
        seq![]
    } else if tests.last().status == "failed"@ {
        failed_names(tests.drop_last()).push(tests.last().name)
    } else {
        failed_names(tests.drop_last())
    }
}

/// For each run with a failure, the names of its failed tests.
pub open spec fn failure_sets_spec(runs: Seq<RunRecordView>) -> Seq<Seq<Seq<char>>>
    decreases runs.len(),
{
    if runs.len() == 0 {
        seq![]
    } else {
        let f = failed_names(runs.last().tests);
        if f.len() > 0 { failure_sets_spec(runs.drop_last()).push(f) } else { failure_sets_spec(runs.drop_last()) }
    }
}

/// How often `a` occurs in `s`.
pub open spec fn occurrences(s: Seq<Seq<char>>, a: Seq<char>) -> nat
    decreases s.len(),
{
    if s.len() == 0 { 0 } else { occurrences(s.drop_last(), a) + if s.last() == a { 1nat } else { 0nat } }
}

/// Pairs of places `i < j` in `s` holding `a` and `b` (in either order).
pub open spec fn pairs_in(s: Seq<Seq<char>>, a: Seq<char>, b: Seq<char>) -> nat
    decreases s.len(),
{
    if s.len() == 0 {
        0
    } else {
        let t = s.drop_last();
        pairs_in(t, a, b) + (if s.last() == a { occurrences(t, b) } else { 0 })
            + (if s.last() == b && a != b { occurrences(t, a) } else { 0 })
    }
}

/// Failures of `a` over all sets.
pub open spec fn total_occurrences(sets: Seq<Seq<Seq<char>>>, a: Seq<char>) -> nat
    decreases sets.len(),
{
    if sets.len() == 0 { 0 } else { total_occurrences(sets.drop_last(), a) + occurrences(sets.last(), a) }
}

/// Times `a` and `b` failed together over all sets.
pub open spec fn total_pairs(sets: Seq<Seq<Seq<char>>>, a: Seq<char>, b: Seq<char>) -> nat
    decreases sets.len(),
{
    if sets.len() == 0 { 0 } else { total_pairs(sets.drop_last(), a, b) + pairs_in(sets.last(), a, b) }
}

pub open spec fn names_view(v: Seq<String>) -> Seq<Seq<char>> {
    v.map_values(|s: String| s@)
}

pub open spec fn sets_view(v: Seq<Vec<String>>) -> Seq<Seq<Seq<char>>> {
    v.map_values(|s: Vec<String>| names_view(s@))
}

/// For each run with a failed test, the names of its failed tests, in order.
pub fn failure_sets(runs: &[RunRecord]) -> (r: Vec<Vec<String>>)
    ensures
        sets_view(r@) == failure_sets_spec(runs_view(runs@)),
{
    let ghost rv = runs_view(runs@);
    let mut out: Vec<Vec<String>> = Vec::new();
    let mut i: usize = 0;
    while i < runs.len()
        invariant
            i <= runs.len(),
            rv == runs_view(runs@),
            sets_view(out@) == failure_sets_spec(rv.take(i as int)),
        decreases runs.len() - i,
    {
        assert(rv.take(i + 1).drop_last() =~= rv.take(i as int));
        assert(rv.take(i + 1).last() == runs@[i as int]@);
        let tests = &runs[i].tests;
        let ghost tv = records_view(tests@);
        let mut f: Vec<String> = Vec::new();
        let mut j: usize = 0;
        while j < tests.len()
            invariant
                j <= tests.len(),
                tv == records_view(tests@),
                names_view(f@) == failed_names(tv.take(j as int)),
            decreases tests.len() - j,
        {
            let t = &tests[j];
            assert(tv[j as int] == t@);
            assert(tv.take(j + 1).drop_last() =~= tv.take(j as int));
            assert(tv.take(j + 1).last() == tv[j as int]);
            if eq(&chars_of_string(&t.status), &chars_of("failed")) {
                let ghost before = names_view(f@);
                let n = t.name.clone();
                assert(n@ == t.name@);
                f.push(n);
                assert(names_view(f@) =~= before.push(tv[j as int].name));
            }
            j += 1;
        }
        assert(tv.take(tests.len() as int) =~= tv);
        if f.len() > 0 {
            let ghost before = sets_view(out@);
            out.push(f);
            assert(sets_view(out@) =~= before.push(failed_names(tv)));
        }
        i += 1;
    }
    assert(rv.take(runs.len() as int) =~= rv);
    out
}

fn same_name(x: &String, y: &String) -> (b: bool)
    ensures
        b == (x@ == y@),
{
    eq(&chars_of_string(x), &chars_of_string(y))
}

/// How many failures of `a` the sets hold (capped at `usize::MAX`).
pub fn failure_count(sets: &Vec<Vec<String>>, a: &String) -> (n: usize)
    ensures
        n == min_nat(total_occurrences(sets_view(sets@), a@), usize::MAX as nat),
{
    let ghost sv = sets_view(sets@);
    let mut n: usize = 0;
    let mut k: usize = 0;
    while k < sets.len()
        invariant
            k <= sets.len(),
            sv == sets_view(sets@),
            n == min_nat(total_occurrences(sv.take(k as int), a@), usize::MAX as nat),
        decreases sets.len() - k,
    {
        assert(sv.take(k + 1).drop_last() =~= sv.take(k as int));
        assert(sv.take(k + 1).last() == sv[k as int]);
        let s = &sets[k];
        let ghost nv = names_view(s@);
        assert(nv == sv[k as int]);
        let ghost base = total_occurrences(sv.take(k as int), a@);
        let mut i: usize = 0;
        while i < s.len()
            invariant
                i <= s.len(),
                nv == names_view(s@),
                n == min_nat(base + occurrences(nv.take(i as int), a@), usize::MAX as nat),
            decreases s.len() - i,
        {
            assert(nv.take(i + 1).drop_last() =~= nv.take(i as int));
            assert(nv.take(i + 1).last() == s@[i as int]@);
            if same_name(&s[i], a) {
                n = n.saturating_add(1);
            }
            i += 1;
        }
        assert(nv.take(s.len() as int) =~= nv);
        k += 1;
    }
    assert(sv.take(sets.len() as int) =~= sv);
    n
}

/// How many times `a` and `b` failed in the same run, counted per pair of
/// places in a set (capped at `usize::MAX`).
pub fn co_failure_count(sets: &Vec<Vec<String>>, a: &String, b: &String) -> (n: usize)
    ensures
        n == min_nat(total_pairs(sets_view(sets@), a@, b@), usize::MAX as nat),
{
    let ghost sv = sets_view(sets@);
    let mut n: usize = 0;
    let mut k: usize = 0;
    while k < sets.len()
        invariant
            k <= sets.len(),
            sv == sets_view(sets@),
            n == min_nat(total_pairs(sv.take(k as int), a@, b@), usize::MAX as nat),
        decreases sets.len() - k,
    {
        assert(sv.take(k + 1).drop_last() =~= sv.take(k as int));
        assert(sv.take(k + 1).last() == sv[k as int]);
        let s = &sets[k];
        let ghost nv = names_view(s@);
        assert(nv == sv[k as int]);
        let ghost base = total_pairs(sv.take(k as int), a@, b@);
        let mut j: usize = 0;
        while j < s.len()
            invariant
                j <= s.len(),
                nv == names_view(s@),
                n == min_nat(base + pairs_in(nv.take(j as int), a@, b@), usize::MAX as nat),
            decreases s.len() - j,
        {
            let ghost t = nv.take(j as int);
            assert(nv.take(j + 1).drop_last() =~= t);
            assert(nv.take(j + 1).last() == s@[j as int]@);
            let ghost base2 = base + pairs_in(t, a@, b@);
            let ja = same_name(&s[j], a);
            let jb = same_name(&s[j], b);
            let ab = same_name(a, b);
            let mut i: usize = 0;
            while i < j
                invariant
                    i <= j < s.len(),
                    nv == names_view(s@),
                    t == nv.take(j as int),
                    ja == (nv[j as int] == a@),
                    jb == (nv[j as int] == b@),
                    ab == (a@ == b@),
                    n == min_nat(base2 + (if ja { occurrences(t.take(i as int), b@) } else { 0 })
                        + (if jb && !ab { occurrences(t.take(i as int), a@) } else { 0 }), usize::MAX as nat),
                decreases j - i,
            {
                assert(t.take(i + 1).drop_last() =~= t.take(i as int));
                assert(t.take(i + 1).last() == s@[i as int]@);
                let ia = same_name(&s[i], a);
                let ib = same_name(&s[i], b);
                if (ja && ib) || (jb && !ab && ia) {
                    n = n.saturating_add(1);
                }
                i += 1;
            }
            assert(t.take(j as int) =~= t);
            j += 1;
        }
        assert(nv.take(s.len() as int) =~= nv);
        k += 1;
    }
    assert(sv.take(sets.len() as int) =~= sv);
    n
}

} // verus!
