//! Helpers shared by the adapters: combining output, fallback results,
//! summary-line counts, durations and small text utilities.

use vstd::prelude::*;
use crate::adapters::{
    CaseView, ErrorView, SuiteView, TestCase, TestError, TestRunResult, TestStatus, TestSuite,
    cases_view, opt_error_view, suites_view,
};
use crate::duration::{Duration, decimal_nanos, parse_decimal_duration};
use crate::num::{decimal, fmt_u128, fmt_u64, fmt_usize, parse_usize, parse_usize_spec};
use crate::text::{
    append, append_str, chars_of, contains, contains_v, count_containing, count_lines_containing,
    ends_with, ends_with_str, find, find_v, is_digit, is_ascii_digit, join, join_v, lines,
    lines_of, lines_v, slice, string_of, trim, trim_end, trim_end_v, trim_v,
};

verus! {

// ---------------------------------------------------------------------------
// Combined output and fallback results
// ---------------------------------------------------------------------------

/// `stdout` and `stderr`, each trimmed, joined by a newline when both are
/// non-empty.
pub open spec fn combined_spec(stdout: Seq<char>, stderr: Seq<char>) -> Seq<char> {
    let a = trim(stdout);
    let b = trim(stderr);
    if a.len() == 0 {
        b
    } else if b.len() == 0 {
        a
    } else {
        a + seq!['\n'] + b
    }
}

/// Combine stdout and stderr into a single string for parsing.
pub fn combined_output(stdout: &str, stderr: &str) -> (r: String)
    ensures
        r@ == combined_spec(stdout@, stderr@),
{
    let r = combined_chars(stdout, stderr);
    string_of(&r)
}

/// `combined_output` as characters.
pub fn combined_chars(stdout: &str, stderr: &str) -> (r: Vec<char>)
    ensures
        r@ == combined_spec(stdout@, stderr@),
{
    let a = trim_v(&chars_of(stdout));
    let b = trim_v(&chars_of(stderr));
    if a.len() == 0 {
        return b;
    }
    if b.len() == 0 {
        return a;
    }
    let mut r = a;
    r.push('\n');
    append(&mut r, &b);
    r
}

/// Decimal notation of a signed integer.
pub open spec fn idecimal(i: int) -> Seq<char> {
    if i < 0 { seq!['-'] + decimal((-i) as nat) } else { decimal(i as nat) }
}

pub fn fmt_i64(i: i64) -> (r: Vec<char>)
    ensures
        r@ == idecimal(i as int),
{
    if i < 0 {
        let mut r: Vec<char> = Vec::new();
        r.push('-');
        let m: u128 = (0i128 - i as i128) as u128;
        let d = fmt_u128(m);
        append(&mut r, &d);
        assert(r@ =~= seq!['-'] + decimal((-i) as nat));
        r
    } else {
        fmt_u128(i as u128)
    }
}

/// Message of the single case of a fallback result for a failing run.
pub open spec fn fallback_message(exit_code: i32, name: Seq<char>, combined: Seq<char>) -> Seq<char> {
    if combined.len() == 0 {
        name + " exited with code "@ + idecimal(exit_code as int)
    } else {
        let ls = lines(combined);
        let start = if ls.len() >= 10 { ls.len() - 10 } else { 0 };
        join(ls.skip(start as int), seq!['\n'])
    }
}

/// The run that `fallback_result` builds: one suite named after the adapter
/// with one case `"<adapter> tests"`, passed exactly when the exit code is 0.
pub open spec fn fallback_spec(exit_code: i32, name: Seq<char>, stdout: Seq<char>, stderr: Seq<char>) -> crate::adapters::RunView {
    crate::adapters::RunView {
        suites: seq![SuiteView {
            name: name,
            tests: seq![CaseView {
                name: name + " tests"@,
                status: if exit_code == 0 { TestStatus::Passed } else { TestStatus::Failed },
                duration: 0,
                error: if exit_code == 0 {
                    None
                } else {
                    Some(ErrorView {
                        message: fallback_message(exit_code, name, combined_spec(stdout, stderr)),
                        location: None,
                    })
                },
            }],
        }],
        duration: 0,
        raw_exit_code: exit_code,
    }
}

/// Build a fallback result when output can't be parsed into individual tests.
/// Uses the exit code to determine pass/fail.
pub fn fallback_result(exit_code: i32, adapter_name: &str, stdout: &str, stderr: &str) -> (r: TestRunResult)
    ensures
        r@ == fallback_spec(exit_code, adapter_name@, stdout@, stderr@),
{
    let status = if exit_code == 0 { TestStatus::Passed } else { TestStatus::Failed };
    let error = if exit_code != 0 {
        let combined = combined_chars(stdout, stderr);
        let message = if combined.len() == 0 {
            let mut m = chars_of(adapter_name);
            append_str(&mut m, " exited with code ");
            let code = fmt_i64(exit_code as i64);
            append(&mut m, &code);
            m
        } else {
            let ls = lines_v(&combined);
            let start = if ls.len() >= 10 { ls.len() - 10 } else { 0 };
            let mut tail: Vec<Vec<char>> = Vec::new();
            let mut k = start;
            while k < ls.len()
                invariant
                    start <= k <= ls.len(),
                    ls@.len() == lines(combined@).len(),
                    forall|q: int| 0 <= q < ls@.len() ==> #[trigger] ls@[q]@ == lines(combined@)[q],
                    tail@.map_values(|p: Vec<char>| p@) == lines(combined@).subrange(start as int, k as int),
                decreases ls.len() - k,
            {
                let ghost before = tail@.map_values(|p: Vec<char>| p@);
                tail.push(slice(&ls[k], 0, ls[k].len()));
                assert(ls@[k as int]@.subrange(0, ls@[k as int]@.len() as int) =~= ls@[k as int]@);
                assert(tail@.map_values(|p: Vec<char>| p@) =~= before.push(lines(combined@)[k as int]));
                assert(lines(combined@).subrange(start as int, k + 1) =~= lines(combined@).subrange(start as int, k as int).push(lines(combined@)[k as int]));
                k += 1;
            }
            assert(lines(combined@).subrange(start as int, ls.len() as int) =~= lines(combined@).skip(start as int));
            let mut sep: Vec<char> = Vec::new();
            sep.push('\n');
            assert(sep@ =~= seq!['\n']);
            join_v(&tail, &sep)
        };
        Some(TestError { message: string_of(&message), location: None })
    } else {
        None
    };
    let mut case_name = chars_of(adapter_name);
    append_str(&mut case_name, " tests");
    let case = TestCase { name: string_of(&case_name), status, duration: Duration::zero(), error };
    let mut tests: Vec<TestCase> = Vec::new();
    tests.push(case);
    let suite = TestSuite { name: string_of(&chars_of(adapter_name)), tests };
    let mut suites: Vec<TestSuite> = Vec::new();
    suites.push(suite);
    let r = TestRunResult { suites, duration: Duration::zero(), raw_exit_code: exit_code };
    assert(cases_view(r.suites@[0].tests@) =~= seq![case@]);
    assert(suites_view(r.suites@) =~= seq![r.suites@[0]@]);
    assert(r@.suites[0].tests[0].error == fallback_spec(exit_code, adapter_name@, stdout@, stderr@).suites[0].tests[0].error);
    assert(r@.suites[0].tests =~= fallback_spec(exit_code, adapter_name@, stdout@, stderr@).suites[0].tests);
    assert(r@.suites =~= fallback_spec(exit_code, adapter_name@, stdout@, stderr@).suites);
    r
}

// ---------------------------------------------------------------------------
// Summary counts
// ---------------------------------------------------------------------------

/// Summary count keywords for a test framework.
pub struct SummaryPatterns {
    pub passed: &'static [&'static str],
    pub failed: &'static [&'static str],
    pub skipped: &'static [&'static str],
}

/// Parsed summary counts from a test result line.
#[derive(Debug, Clone)]
pub struct SummaryCounts {
    pub passed: usize,
    pub failed: usize,
    pub skipped: usize,
    pub total: usize,
    pub duration: Option<Duration>,
}

impl Default for SummaryCounts {
    fn default() -> (r: Self)
        ensures
            r.passed == 0 && r.failed == 0 && r.skipped == 0 && r.total == 0 && r.duration is None,
    {
        SummaryCounts { passed: 0, failed: 0, skipped: 0, total: 0, duration: None }
    }
}

impl SummaryCounts {
    pub fn has_any(&self) -> (b: bool)
        ensures
            b == (self.passed > 0 || self.failed > 0 || self.skipped > 0 || self.total > 0),
    {
        self.passed > 0 || self.failed > 0 || self.skipped > 0 || self.total > 0
    }

    pub fn computed_total(&self) -> (n: usize)
        requires
            self.total > 0 || self.passed + self.failed + self.skipped <= usize::MAX,
        ensures
            n == if self.total > 0 { self.total as int } else { self.passed + self.failed + self.skipped },
    {
        if self.total > 0 {
            self.total
        } else {
            self.passed + self.failed + self.skipped
        }
    }
}

/// Name of the `k`-th (from 1) synthetic case of a kind.
pub open spec fn synthetic_name(k: nat, kind: Seq<char>) -> Seq<char> {
    "test "@ + decimal(k) + " ("@ + kind + ")"@
}

/// The cases `synthetic_tests_from_counts` makes: `passed` passing cases,
/// then `failed` failing ones (message "Test failed in <suite>"), then
/// `skipped` skipped ones, numbered from 1 within each kind.
pub open spec fn synthetic_spec(p: nat, f: nat, sk: nat, suite: Seq<char>) -> Seq<CaseView> {
    Seq::new(p, |k: int| CaseView { name: synthetic_name((k + 1) as nat, "passed"@), status: TestStatus::Passed, duration: 0, error: None })
    + Seq::new(f, |k: int| CaseView {
        name: synthetic_name((k + 1) as nat, "failed"@),
        status: TestStatus::Failed,
        duration: 0,
        error: Some(ErrorView { message: "Test failed in "@ + suite, location: None }),
    })
    + Seq::new(sk, |k: int| CaseView { name: synthetic_name((k + 1) as nat, "skipped"@), status: TestStatus::Skipped, duration: 0, error: None })
}

fn synthetic_case(k: usize, kind: &str, status: TestStatus, error: Option<TestError>) -> (t: TestCase)
    requires
        k < usize::MAX,
    ensures
        t@ == (CaseView { name: synthetic_name((k + 1) as nat, kind@), status: status, duration: 0, error: opt_error_view(error) }),
{
    let mut name = chars_of("test ");
    let d = fmt_usize(k + 1);
    append(&mut name, &d);
    append_str(&mut name, " (");
    append_str(&mut name, kind);
    append_str(&mut name, ")");
    TestCase { name: string_of(&name), status, duration: Duration::zero(), error }
}

/// Generate synthetic test cases from summary counts.
pub fn synthetic_tests_from_counts(counts: &SummaryCounts, suite_name: &str) -> (r: Vec<TestCase>)
    ensures
        cases_view(r@) == synthetic_spec(counts.passed as nat, counts.failed as nat, counts.skipped as nat, suite_name@),
{
    let ghost goal = synthetic_spec(counts.passed as nat, counts.failed as nat, counts.skipped as nat, suite_name@);
    let ghost pa = counts.passed as int;
    let ghost fa = counts.failed as int;
    let mut tests: Vec<TestCase> = Vec::new();
    let mut i: usize = 0;
    while i < counts.passed
        invariant
            i <= counts.passed,
            goal == synthetic_spec(counts.passed as nat, counts.failed as nat, counts.skipped as nat, suite_name@),
            cases_view(tests@) == goal.take(i as int),
        decreases counts.passed - i,
    {
        let t = synthetic_case(i, "passed", TestStatus::Passed, None);
        let ghost before = tests@;
        tests.push(t);
        assert(cases_view(tests@) =~= cases_view(before).push(t@));
        assert(goal[i as int] == t@);
        assert(goal.take(i + 1) =~= goal.take(i as int).push(goal[i as int]));
        i += 1;
    }
    let mut i: usize = 0;
    while i < counts.failed
        invariant
            i <= counts.failed,
            goal == synthetic_spec(counts.passed as nat, counts.failed as nat, counts.skipped as nat, suite_name@),
            cases_view(tests@) == goal.take(counts.passed + i),
        decreases counts.failed - i,
    {
        let mut msg = chars_of("Test failed in ");
        append_str(&mut msg, suite_name);
        let e = TestError { message: string_of(&msg), location: None };
        let t = synthetic_case(i, "failed", TestStatus::Failed, Some(e));
        let ghost before = tests@;
        tests.push(t);
        assert(cases_view(tests@) =~= cases_view(before).push(t@));
        assert(goal[counts.passed + i] == t@);
        assert(goal.take(counts.passed + i + 1) =~= goal.take(counts.passed + i).push(goal[counts.passed + i]));
        i += 1;
    }
    let mut i: usize = 0;
    while i < counts.skipped
        invariant
            i <= counts.skipped,
            goal == synthetic_spec(counts.passed as nat, counts.failed as nat, counts.skipped as nat, suite_name@),
            cases_view(tests@) == goal.take(counts.passed + counts.failed + i),
        decreases counts.skipped - i,
    {
        let t = synthetic_case(i, "skipped", TestStatus::Skipped, None);
        let ghost before = tests@;
        tests.push(t);
        assert(cases_view(tests@) =~= cases_view(before).push(t@));
        assert(goal[counts.passed + counts.failed + i] == t@);
        assert(goal.take(counts.passed + counts.failed + i + 1) =~= goal.take(counts.passed + counts.failed + i).push(goal[counts.passed + counts.failed + i]));
        i += 1;
    }
    assert(goal.take(goal.len() as int) =~= goal);
    tests
}


// ---------------------------------------------------------------------------
// Empty results
// ---------------------------------------------------------------------------

/// The suite standing for a whole run when no case could be parsed.
pub open spec fn placeholder_suite(exit_code: i32, name: Seq<char>) -> SuiteView {
    SuiteView {
        name: name,
        tests: seq![CaseView {
            name: "test_suite"@,
            status: if exit_code == 0 { TestStatus::Passed } else { TestStatus::Failed },
            duration: 0,
            error: None,
        }],
    }
}

/// `suites`, or the placeholder suite when it is empty.
pub open spec fn non_empty_spec(suites: Seq<SuiteView>, exit_code: i32, name: Seq<char>) -> Seq<SuiteView> {
    if suites.len() == 0 { seq![placeholder_suite(exit_code, name)] } else { suites }
}

/// Adds a placeholder suite (one case, status from the exit code) when no
/// suite was parsed.
pub fn ensure_non_empty(suites: &mut Vec<TestSuite>, exit_code: i32, name: &str)
    ensures
        suites_view(final(suites)@) == non_empty_spec(suites_view(old(suites)@), exit_code, name@),
{
    if suites.len() == 0 {
        let status = if exit_code == 0 { TestStatus::Passed } else { TestStatus::Failed };
        let case = TestCase {
            name: string_of(&chars_of("test_suite")),
            status,
            duration: Duration::zero(),
            error: None,
        };
        let mut tests: Vec<TestCase> = Vec::new();
        tests.push(case);
        assert(cases_view(tests@) =~= seq![case@]);
        suites.push(TestSuite { name: string_of(&chars_of(name)), tests });
        assert(suites_view(suites@) =~= seq![placeholder_suite(exit_code, name@)]);
    }
}

// ---------------------------------------------------------------------------
// Durations
// ---------------------------------------------------------------------------

/// `s` without `p` at its end, if it ends with `p`.
pub open spec fn strip_suffix(s: Seq<char>, p: Seq<char>) -> Option<Seq<char>> {
    if ends_with(s, p) { Some(s.take(s.len() - p.len())) } else { None }
}

pub open spec fn is_paren(c: char) -> bool {
    c == '(' || c == ')'
}

pub open spec fn trim_parens_start(s: Seq<char>) -> Seq<char>
    decreases s.len(),
{
    if s.len() > 0 && is_paren(s[0]) { trim_parens_start(s.drop_first()) } else { s }
}

pub open spec fn trim_parens_end(s: Seq<char>) -> Seq<char>
    decreases s.len(),
{
    if s.len() > 0 && is_paren(s.last()) { trim_parens_end(s.drop_last()) } else { s }
}

/// Unit suffixes for seconds, longest first, as `parse_duration_str` tries them.
pub open spec fn secs_number(t: Seq<char>) -> Option<Seq<char>> {
    match strip_suffix(t, "seconds"@) {
        Some(n) => Some(n),
        None => match strip_suffix(t, "secs"@) {
            Some(n) => Some(n),
            None => match strip_suffix(t, "sec"@) {
                Some(n) => Some(n),
                None => strip_suffix(t, "s"@),
            },
        },
    }
}

pub open spec fn mins_number(t: Seq<char>) -> Option<Seq<char>> {
    match strip_suffix(t, "min"@) {
        Some(n) => Some(n),
        None => strip_suffix(t, "m"@),
    }
}

/// Nanoseconds denoted by a duration string: trimmed, parentheses removed at
/// both ends, then read as milliseconds (`ms`), seconds (`s`, `sec`, `secs`,
/// `seconds`) or minutes (`m`, `min`), the first unit whose number parses.
pub open spec fn duration_str_spec(s: Seq<char>) -> Option<nat> {
    let t = trim_parens_end(trim_parens_start(trim(s)));
    let ms = match strip_suffix(t, "ms"@) {
        Some(n) => decimal_nanos(trim(n), 1_000_000, 6, 1),
        None => None,
    };
    if ms is Some {
        ms
    } else {
        let secs = match secs_number(t) {
            Some(n) => decimal_nanos(trim(n), 1_000_000_000, 9, 1),
            None => None,
        };
        if secs is Some {
            secs
        } else {
            match mins_number(t) {
                Some(n) => decimal_nanos(trim(n), 60_000_000_000, 9, 60),
                None => None,
            }
        }
    }
}

pub(crate) fn strip_suffix_v(t: &Vec<char>, p: &str) -> (r: Option<Vec<char>>)
    ensures
        match r {
            Some(v) => strip_suffix(t@, p@) == Some(v@),
            None => strip_suffix(t@, p@) is None,
        },
{
    if ends_with_str(t, p) {
        let n = chars_of(p).len();
        let v = slice(t, 0, t.len() - n);
        assert(v@ =~= t@.take(t@.len() - p@.len()));
        Some(v)
    } else {
        None
    }
}

fn trim_parens_v(s: &Vec<char>) -> (r: Vec<char>)
    ensures
        r@ == trim_parens_end(trim_parens_start(s@)),
{
    let mut i: usize = 0;
    assert(s@.skip(0) =~= s@);
    while i < s.len() && (s[i] == '(' || s[i] == ')')
        invariant
            i <= s.len(),
            trim_parens_start(s@) == trim_parens_start(s@.skip(i as int)),
        decreases s.len() - i,
    {
        assert(s@.skip(i as int).drop_first() =~= s@.skip(i + 1));
        i += 1;
    }
    let a = slice(s, i, s.len());
    assert(a@ =~= s@.skip(i as int));
    let mut j: usize = a.len();
    assert(a@.take(a.len() as int) =~= a@);
    while j > 0 && (a[j - 1] == '(' || a[j - 1] == ')')
        invariant
            j <= a.len(),
            trim_parens_end(a@) == trim_parens_end(a@.take(j as int)),
        decreases j,
    {
        assert(a@.take(j as int).drop_last() =~= a@.take(j - 1));
        j -= 1;
    }
    let r = slice(&a, 0, j);
    assert(r@ =~= a@.take(j as int));
    r
}

/// Parse a duration string such as "5ms", "1.5s", "0.01 sec", "(5 ms)",
/// "5.2 seconds" or "1.5min".
pub fn parse_duration_str(s: &str) -> (r: Option<Duration>)
    ensures
        match r {
            Some(d) => duration_str_spec(s@) == Some(d.ns()),
            None => duration_str_spec(s@) is None,
        },
{
    let t = trim_parens_v(&trim_v(&chars_of(s)));
    if let Some(n) = strip_suffix_v(&t, "ms") {
        if let Some(d) = parse_decimal_duration(&trim_v(&n), 1_000_000, 6, 1) {
            return Some(d);
        }
    }
    let sn = match strip_suffix_v(&t, "seconds") {
        Some(n) => Some(n),
        None => match strip_suffix_v(&t, "secs") {
            Some(n) => Some(n),
            None => match strip_suffix_v(&t, "sec") {
                Some(n) => Some(n),
                None => strip_suffix_v(&t, "s"),
            },
        },
    };
    if let Some(n) = sn {
        if let Some(d) = parse_decimal_duration(&trim_v(&n), 1_000_000_000, 9, 1) {
            return Some(d);
        }
    }
    let mn = match strip_suffix_v(&t, "min") {
        Some(n) => Some(n),
        None => strip_suffix_v(&t, "m"),
    };
    match mn {
        Some(n) => parse_decimal_duration(&trim_v(&n), 60_000_000_000, 9, 60),
        None => None,
    }
}

// ---------------------------------------------------------------------------
// Counts before keywords
// ---------------------------------------------------------------------------

/// Length of the run of decimal digits at the end of `b`.
pub open spec fn digit_suffix_len(b: Seq<char>) -> nat
    decreases b.len(),
{
    if b.len() > 0 && is_digit(b.last()) { 1 + digit_suffix_len(b.drop_last()) } else { 0 }
}

/// The number written just before the first occurrence of `k` in `s`
/// (trailing whitespace between them skipped).
pub open spec fn count_before(s: Seq<char>, k: Seq<char>) -> Option<usize> {
    match find(s, k) {
        None => None,
        Some(pos) => {
            let b = trim_end(s.take(pos));
            parse_usize_spec(b.skip(b.len() - digit_suffix_len(b)))
        },
    }
}

/// The count before the first keyword of `ks` (in order) that gives one.
pub open spec fn extract_count_spec(s: Seq<char>, ks: Seq<Seq<char>>) -> Option<usize>
    decreases ks.len(),
{
    if ks.len() == 0 {
        None
    } else {
        match count_before(s, ks[0]) {
            Some(n) => Some(n),
            None => extract_count_spec(s, ks.drop_first()),
        }
    }
}

pub open spec fn strs_view(ks: Seq<&str>) -> Seq<Seq<char>> {
    ks.map_values(|k: &str| k@)
}

proof fn lemma_digit_suffix_len(b: Seq<char>)
    ensures
        digit_suffix_len(b) <= b.len(),
    decreases b.len(),
{
    if b.len() > 0 && is_digit(b.last()) {
        lemma_digit_suffix_len(b.drop_last());
    }
}

fn count_before_v(s: &Vec<char>, k: &str) -> (r: Option<usize>)
    ensures
        r == count_before(s@, k@),
{
    let kv = chars_of(k);
    match find_v(s, &kv) {
        None => None,
        Some(pos) => {
            let b = trim_end_v(&slice(s, 0, pos));
            assert(s@.subrange(0, pos as int) =~= s@.take(pos as int));
            let mut j = b.len();
            assert(b@.take(b.len() as int) =~= b@);
            while j > 0 && is_ascii_digit(b[j - 1])
                invariant
                    j <= b.len(),
                    digit_suffix_len(b@) == (b.len() - j) + digit_suffix_len(b@.take(j as int)),
                decreases j,
            {
                assert(b@.take(j as int).drop_last() =~= b@.take(j - 1));
                j -= 1;
            }
            let tail = slice(&b, j, b.len());
            assert(tail@ =~= b@.skip(b@.len() - digit_suffix_len(b@)));
            parse_usize(&tail)
        },
    }
}

/// Extract a number from a string that appears before a keyword.
/// E.g., `extract_count("3 passed", &["passed"])` is `Some(3)`.
pub fn extract_count(s: &str, keywords: &[&str]) -> (r: Option<usize>)
    ensures
        r == extract_count_spec(s@, strs_view(keywords@)),
{
    let sv = chars_of(s);
    let ghost ks = strs_view(keywords@);
    let mut i: usize = 0;
    assert(ks.skip(0) =~= ks);
    while i < keywords.len()
        invariant
            i <= keywords.len(),
            sv@ == s@,
            ks == strs_view(keywords@),
            extract_count_spec(s@, ks) == extract_count_spec(s@, ks.skip(i as int)),
        decreases keywords.len() - i,
    {
        assert(ks.skip(i as int)[0] == keywords@[i as int]@);
        assert(ks.skip(i as int).drop_first() =~= ks.skip(i + 1));
        if let Some(n) = count_before_v(&sv, keywords[i]) {
            return Some(n);
        }
        i += 1;
    }
    None
}

/// The counts of a summary line: each the number before its first keyword,
/// or 0.
pub fn parse_summary_line(line: &str, patterns: &SummaryPatterns) -> (c: SummaryCounts)
    ensures
        c.passed == match extract_count_spec(line@, strs_view(patterns.passed@)) { Some(n) => n, None => 0 },
        c.failed == match extract_count_spec(line@, strs_view(patterns.failed@)) { Some(n) => n, None => 0 },
        c.skipped == match extract_count_spec(line@, strs_view(patterns.skipped@)) { Some(n) => n, None => 0 },
        c.total == 0,
        c.duration is None,
{
    let passed = match extract_count(line, patterns.passed) { Some(n) => n, None => 0 };
    let failed = match extract_count(line, patterns.failed) { Some(n) => n, None => 0 };
    let skipped = match extract_count(line, patterns.skipped) { Some(n) => n, None => 0 };
    SummaryCounts { passed, failed, skipped, total: 0, duration: None }
}

// ---------------------------------------------------------------------------
// XML escaping
// ---------------------------------------------------------------------------

pub open spec fn xml_escape_char(c: char) -> Seq<char> {
    if c == '&' {
        "&amp;"@
    } else if c == '<' {
        "&lt;"@
    } else if c == '>' {
        "&gt;"@
    } else if c == '"' {
        "&quot;"@
    } else if c == '\'' {
        "&apos;"@
    } else {
        seq![c]
    }
}

/// Every `&`, `<`, `>`, `"` and `'` of `s` replaced by its XML entity.
pub open spec fn xml_escape_spec(s: Seq<char>) -> Seq<char>
    decreases s.len(),
{
    if s.len() == 0 { seq![] } else { xml_escape_spec(s.drop_last()) + xml_escape_char(s.last()) }
}

/// Escape a string for safe XML output.
pub fn xml_escape(s: &str) -> (r: String)
    ensures
        r@ == xml_escape_spec(s@),
{
    let sv = chars_of(s);
    let mut out: Vec<char> = Vec::new();
    let mut i: usize = 0;
    while i < sv.len()
        invariant
            i <= sv.len(),
            sv@ == s@,
            out@ == xml_escape_spec(sv@.take(i as int)),
        decreases sv.len() - i,
    {
        let c = sv[i];
        assert(sv@.take(i + 1).drop_last() =~= sv@.take(i as int));
        if c == '&' {
            append_str(&mut out, "&amp;");
        } else if c == '<' {
            append_str(&mut out, "&lt;");
        } else if c == '>' {
            append_str(&mut out, "&gt;");
        } else if c == '"' {
            append_str(&mut out, "&quot;");
        } else if c == '\'' {
            append_str(&mut out, "&apos;");
        } else {
            let ghost before = out@;
            out.push(c);
            assert(out@ =~= before + seq![c]);
        }
        i += 1;
    }
    assert(sv@.take(sv.len() as int) =~= sv@);
    string_of(&out)
}

// ---------------------------------------------------------------------------
// Formatting
// ---------------------------------------------------------------------------

/// Two decimal digits of `n < 100`.
pub open spec fn pad2(n: nat) -> Seq<char> {
    seq![crate::num::digit_char(n / 10), crate::num::digit_char(n % 10)]
}

/// `c` hundredths of a second is a nearest rounding of `ns` nanoseconds: it
/// lies within half a hundredth of it (on an exact half either neighbour).
pub open spec fn nearest_centis(ns: nat, c: nat) -> bool {
    2 * (c * 10_000_000 - ns) <= 10_000_000 && 2 * (ns - c * 10_000_000) <= 10_000_000
}

/// `"1.50s"`: seconds with two decimals, from hundredths.
pub open spec fn centis_text(c: nat) -> Seq<char> {
    decimal(c / 100) + seq!['.'] + pad2(c % 100) + "s"@
}

/// Human-readable duration: empty under one millisecond, `"42ms"` under a
/// second, seconds to the nearest hundredth (`"1.50s"`) under a minute,
/// else `"1m30s"`. Which neighbour an exact half-hundredth goes to is left
/// open: it is what two-place formatting of the seconds as a float gives.
pub open spec fn format_duration_ok(ns: nat, r: Seq<char>) -> bool {
    let ms = ns / 1_000_000;
    let secs = ns / 1_000_000_000;
    if ms == 0 {
        r == Seq::<char>::empty()
    } else if ms < 1000 {
        r == decimal(ms) + "ms"@
    } else if secs < 60 {
        exists|c: nat| nearest_centis(ns, c) && r == #[trigger] centis_text(c)
    } else {
        r == decimal(secs / 60) + "m"@ + decimal(secs % 60) + "s"@
    }
}

/// Format a duration as a human-readable string.
pub fn format_duration(d: Duration) -> (r: String)
    ensures
        format_duration_ok(d.ns(), r@),
{
    let r = format_duration_chars(d);
    string_of(&r)
}

/// `format_duration` as characters.
pub fn format_duration_chars(d: Duration) -> (r: Vec<char>)
    ensures
        format_duration_ok(d.ns(), r@),
{
    let ns = d.as_nanos();
    let ms = ns / 1_000_000;
    if ms == 0 {
        return Vec::new();
    }
    if ms < 1000 {
        let mut r = fmt_u128(ms);
        append_str(&mut r, "ms");
        return r;
    }
    let secs = ns / 1_000_000_000;
    if secs < 60 {
        let centis = (ns + 5_000_000) / 10_000_000;
        let mut r = fmt_u128(centis / 100);
        r.push('.');
        let c = centis % 100;
        r.push(((c / 10) as u32 + '0' as u32) as u8 as char);
        r.push(((c % 10) as u32 + '0' as u32) as u8 as char);
        append_str(&mut r, "s");
        assert(r@ =~= centis_text(centis as nat));
        assert(nearest_centis(d.ns(), centis as nat));
        r
    } else {
        let mut r = fmt_u128(secs / 60);
        append_str(&mut r, "m");
        let rest = fmt_u128(secs % 60);
        append(&mut r, &rest);
        append_str(&mut r, "s");
        r
    }
}

/// Number of bytes of `c` in UTF-8.
pub open spec fn utf8_width(c: char) -> nat {
    if (c as u32) < 0x80 { 1 } else if (c as u32) < 0x800 { 2 } else if (c as u32) < 0x10000 { 3 } else { 4 }
}

/// Number of bytes of `s` in UTF-8 (`str::len`).
pub open spec fn utf8_len(s: Seq<char>) -> nat
    decreases s.len(),
{
    if s.len() == 0 { 0 } else { utf8_len(s.drop_last()) + utf8_width(s.last()) }
}

/// Number of leading characters of `s` whose UTF-8 encoding is exactly `k`
/// bytes, if `k` is at a character boundary.
pub open spec fn chars_in_bytes(s: Seq<char>, k: nat) -> Option<nat>
    decreases s.len(),
{
    if k == 0 {
        Some(0)
    } else if s.len() == 0 || utf8_width(s[0]) > k {
        None
    } else {
        match chars_in_bytes(s.drop_first(), (k - utf8_width(s[0])) as nat) {
            Some(n) => Some(n + 1),
            None => None,
        }
    }
}

pub open spec fn sat_sub(a: nat, b: nat) -> nat {
    if a >= b { (a - b) as nat } else { 0 }
}

fn utf8_width_exec(c: char) -> (w: u128)
    ensures
        w == utf8_width(c),
{
    let u = c as u32;
    if u < 0x80 { 1 } else if u < 0x800 { 2 } else if u < 0x10000 { 3 } else { 4 }
}

/// Number of bytes of `s` in UTF-8.
pub fn utf8_len_v(s: &Vec<char>) -> (n: u128)
    ensures
        n == utf8_len(s@),
        n <= 4 * s.len(),
{
    let mut total: u128 = 0;
    let mut i: usize = 0;
    while i < s.len()
        invariant
            i <= s.len(),
            total == utf8_len(s@.take(i as int)),
            total <= 4 * i,
        decreases s.len() - i,
    {
        assert(s@.take(i + 1).drop_last() =~= s@.take(i as int));
        total = total + utf8_width_exec(s[i]);
        i += 1;
    }
    assert(s@.take(s.len() as int) =~= s@);
    total
}

/// `s` cut to at most `max_len` bytes, ending in `"..."` when cut.
pub open spec fn truncated(s: Seq<char>, max_len: nat) -> Seq<char> {
    if utf8_len(s) <= max_len {
        s
    } else {
        s.take(chars_in_bytes(s, sat_sub(max_len, 3))->0 as int) + "..."@
    }
}

/// `s` fits in `max_len` bytes, or the cut falls between characters.
pub open spec fn truncatable(s: Seq<char>, max_len: nat) -> bool {
    utf8_len(s) <= max_len || chars_in_bytes(s, sat_sub(max_len, 3)) is Some
}

proof fn lemma_utf8_len_add(a: Seq<char>, b: Seq<char>)
    ensures
        utf8_len(a + b) == utf8_len(a) + utf8_len(b),
    decreases b.len(),
{
    if b.len() == 0 {
        assert(a + b =~= a);
    } else {
        lemma_utf8_len_add(a, b.drop_last());
        assert((a + b).drop_last() =~= a + b.drop_last());
        assert((a + b).last() == b.last());
    }
}

proof fn lemma_chars_in_bytes_len(s: Seq<char>, k: nat)
    ensures
        chars_in_bytes(s, k) matches Some(n) ==> n <= s.len() && utf8_len(s.take(n as int)) == k,
    decreases s.len(),
{
    if k > 0 && s.len() > 0 && utf8_width(s[0]) <= k {
        let t = s.drop_first();
        lemma_chars_in_bytes_len(t, (k - utf8_width(s[0])) as nat);
        if let Some(m) = chars_in_bytes(t, (k - utf8_width(s[0])) as nat) {
            assert(s.take((m + 1) as int) =~= seq![s[0]] + t.take(m as int));
            lemma_utf8_len_add(seq![s[0]], t.take(m as int));
            let one = seq![s[0]];
            assert(one.drop_last() =~= Seq::<char>::empty());
            assert(utf8_len(one.drop_last()) == 0);
            assert(one.last() == s[0]);
            assert(utf8_len(one) == utf8_width(s[0]));
            assert(chars_in_bytes(s, k) == Some((m + 1) as nat));
        }
    } else if k == 0 {
        assert(s.take(0) =~= Seq::<char>::empty());
    }
}

/// A truncated text is at most `max_len` bytes long (at most the three
/// bytes of `"..."` when `max_len` is smaller than that).
pub proof fn law_truncated_fits(s: Seq<char>, max_len: nat)
    requires
        truncatable(s, max_len),
    ensures
        utf8_len(truncated(s, max_len)) <= if max_len >= 3 { max_len } else { 3 },
{
    if utf8_len(s) > max_len {
        let k = sat_sub(max_len, 3);
        lemma_chars_in_bytes_len(s, k);
        let n = chars_in_bytes(s, k)->0;
        lemma_utf8_len_add(s.take(n as int), "..."@);
        reveal_strlit("...");
        let d = "..."@;
        assert(d.len() == 3 && d[0] == '.' && d[1] == '.' && d[2] == '.');
        let d1 = d.drop_last();
        let d2 = d1.drop_last();
        let d3 = d2.drop_last();
        assert(d3 =~= Seq::<char>::empty());
        assert(utf8_len(d3) == 0);
        assert(utf8_len(d2) == 1);
        assert(utf8_len(d1) == 2);
        assert(utf8_len(d) == 3);
    }
}

/// Truncate a string to at most `max_len` bytes, ending in `"..."` when cut.
pub fn truncate(s: &str, max_len: usize) -> (r: String)
    requires
        truncatable(s@, max_len as nat),
    ensures
        r@ == truncated(s@, max_len as nat),
{
    string_of(&truncate_chars(&chars_of(s), max_len))
}

/// `truncate` on characters.
pub fn truncate_chars(sv: &Vec<char>, max_len: usize) -> (r: Vec<char>)
    requires
        truncatable(sv@, max_len as nat),
    ensures
        r@ == truncated(sv@, max_len as nat),
{
    let total = utf8_len_v(sv);
    if total <= max_len as u128 {
        return slice(sv, 0, sv.len());
    }
    let k: u128 = if max_len >= 3 { (max_len - 3) as u128 } else { 0 };
    let mut out = take_bytes(sv, k);
    append_str(&mut out, "...");
    out
}

/// Whether the first `k` bytes of `sv` in UTF-8 end at a character boundary.
pub fn chars_in_bytes_ok(sv: &Vec<char>, k: u128) -> (b: bool)
    ensures
        b == (chars_in_bytes(sv@, k as nat) is Some),
{
    let mut j: usize = 0;
    let mut used: u128 = 0;
    assert(sv@.skip(0) =~= sv@);
    while used < k
        invariant
            j <= sv.len(),
            used <= k,
            (chars_in_bytes(sv@, k as nat) is Some) == (chars_in_bytes(sv@.skip(j as int), (k - used) as nat) is Some),
        decreases k - used,
    {
        if j == sv.len() {
            assert(sv@.skip(j as int).len() == 0);
            return false;
        }
        assert(sv@.skip(j as int).len() > 0);
        assert(sv@.skip(j as int)[0] == sv@[j as int]);
        assert(sv@.skip(j as int).drop_first() =~= sv@.skip(j + 1));
        let w = utf8_width_exec(sv[j]);
        if w > k - used {
            return false;
        }
        used = used + w;
        j += 1;
    }
    true
}

/// Whether `truncate` can cut `sv` to `max_len` bytes.
pub fn truncatable_v(sv: &Vec<char>, max_len: usize) -> (b: bool)
    ensures
        b == truncatable(sv@, max_len as nat),
{
    if utf8_len_v(sv) <= max_len as u128 {
        return true;
    }
    let k: u128 = if max_len >= 3 { (max_len - 3) as u128 } else { 0 };
    chars_in_bytes_ok(sv, k)
}

/// The leading characters of `sv` that make up exactly `k` bytes of UTF-8.
pub fn take_bytes(sv: &Vec<char>, k: u128) -> (r: Vec<char>)
    requires
        chars_in_bytes(sv@, k as nat) is Some,
    ensures
        r@ == sv@.take(chars_in_bytes(sv@, k as nat)->0 as int),
{
    let mut j: usize = 0;
    let mut used: u128 = 0;
    assert(sv@.skip(0) =~= sv@);
    while used < k
        invariant
            j <= sv.len(),
            used <= k,
            chars_in_bytes(sv@, k as nat) is Some,
            chars_in_bytes(sv@, k as nat) == match chars_in_bytes(sv@.skip(j as int), (k - used) as nat) {
                Some(n) => Some((n + j) as nat),
                None => None::<nat>,
            },
        decreases k - used,
    {
        assert(sv@.skip(j as int).len() > 0);
        assert(sv@.skip(j as int)[0] == sv@[j as int]);
        assert(sv@.skip(j as int).drop_first() =~= sv@.skip(j + 1));
        used = used + utf8_width_exec(sv[j]);
        j += 1;
    }
    let out = slice(sv, 0, j);
    assert(out@ =~= sv@.take(j as int));
    out
}

// ---------------------------------------------------------------------------
// Error context and pattern counts
// ---------------------------------------------------------------------------

/// Markers of a failure in test output.
pub open spec fn error_indicators() -> Seq<Seq<char>> {
    seq![
        "FAILED"@, "FAIL:"@, "Error:"@, "error:"@, "assertion failed"@, "AssertionError"@,
        "assert_eq!"@, "Expected"@, "expected"@, "panic"@, "PANIC"@, "thread '"@,
    ]
}

pub open spec fn has_indicator(l: Seq<char>) -> bool {
    exists|k: int| 0 <= k < error_indicators().len() && contains(l, #[trigger] error_indicators()[k])
}

/// Index of the first line holding a failure marker.
pub open spec fn first_indicator_line(ls: Seq<Seq<char>>, i: int) -> Option<int>
    decreases ls.len() - i,
{
    if i < 0 || i >= ls.len() {
        None
    } else if has_indicator(ls[i]) {
        Some(i)
    } else {
        first_indicator_line(ls, i + 1)
    }
}

/// The lines from two before the first failure marker up to `max_lines`
/// lines from it, joined by newlines.
pub open spec fn error_context_spec(output: Seq<char>, max_lines: nat) -> Option<Seq<char>> {
    let ls = lines(output);
    match first_indicator_line(ls, 0) {
        None => None,
        Some(i) => {
            let start = sat_sub(i as nat, 2);
            let end = if i + max_lines <= ls.len() { i + max_lines } else { ls.len() as int };
            Some(join(ls.subrange(start as int, end), seq!['\n']))
        },
    }
}

fn indicator_vecs() -> (r: Vec<Vec<char>>)
    ensures
        r@.map_values(|p: Vec<char>| p@) == error_indicators(),
{
    let mut r: Vec<Vec<char>> = Vec::new();
    r.push(chars_of("FAILED"));
    r.push(chars_of("FAIL:"));
    r.push(chars_of("Error:"));
    r.push(chars_of("error:"));
    r.push(chars_of("assertion failed"));
    r.push(chars_of("AssertionError"));
    r.push(chars_of("assert_eq!"));
    r.push(chars_of("Expected"));
    r.push(chars_of("expected"));
    r.push(chars_of("panic"));
    r.push(chars_of("PANIC"));
    r.push(chars_of("thread '"));
    assert(r@.map_values(|p: Vec<char>| p@) =~= error_indicators());
    r
}

fn line_has_indicator(l: &Vec<char>, inds: &Vec<Vec<char>>) -> (b: bool)
    requires
        inds@.map_values(|p: Vec<char>| p@) == error_indicators(),
    ensures
        b == has_indicator(l@),
{
    let mut k: usize = 0;
    while k < inds.len()
        invariant
            k <= inds.len(),
            inds@.map_values(|p: Vec<char>| p@) == error_indicators(),
            forall|q: int| 0 <= q < k ==> !contains(l@, #[trigger] error_indicators()[q]),
        decreases inds.len() - k,
    {
        assert(inds@[k as int]@ == error_indicators()[k as int]);
        if contains_v(l, &inds[k]) {
            return true;
        }
        k += 1;
    }
    false
}

/// Extract error context from output lines around a failure.
pub fn extract_error_context(output: &str, max_lines: usize) -> (r: Option<String>)
    requires
        first_indicator_line(lines(output@), 0) matches Some(i) ==> i + max_lines <= usize::MAX,
    ensures
        match r {
            Some(x) => error_context_spec(output@, max_lines as nat) == Some(x@),
            None => error_context_spec(output@, max_lines as nat) is None,
        },
{
    let ls = lines_of(output);
    let ghost lsv = lines(output@);
    assert(ls@.map_values(|p: Vec<char>| p@) =~= lsv);
    let inds = indicator_vecs();
    let mut i: usize = 0;
    while i < ls.len()
        invariant
            i <= ls.len(),
            ls@.map_values(|p: Vec<char>| p@) == lsv,
            lsv == lines(output@),
            first_indicator_line(lsv, 0) matches Some(j) ==> j + max_lines <= usize::MAX,
            inds@.map_values(|p: Vec<char>| p@) == error_indicators(),
            first_indicator_line(lsv, 0) == first_indicator_line(lsv, i as int),
        decreases ls.len() - i,
    {
        assert(ls@[i as int]@ == lsv[i as int]);
        if line_has_indicator(&ls[i], &inds) {
            let start = if i >= 2 { i - 2 } else { 0 };
            let end = if i + max_lines <= ls.len() { i + max_lines } else { ls.len() };
            let mut part: Vec<Vec<char>> = Vec::new();
            let mut k = start;
            while k < end
                invariant
                    start <= k <= end <= ls.len(),
                    ls@.map_values(|p: Vec<char>| p@) == lsv,
                    part@.map_values(|p: Vec<char>| p@) == lsv.subrange(start as int, k as int),
                decreases end - k,
            {
                let ghost before = part@.map_values(|p: Vec<char>| p@);
                part.push(slice(&ls[k], 0, ls[k].len()));
                assert(ls@[k as int]@ == lsv[k as int]);
                assert(ls@[k as int]@.subrange(0, ls@[k as int]@.len() as int) =~= ls@[k as int]@);
                assert(part@.map_values(|p: Vec<char>| p@) =~= before.push(lsv[k as int]));
                assert(lsv.subrange(start as int, k + 1) =~= lsv.subrange(start as int, k as int).push(lsv[k as int]));
                k += 1;
            }
            let mut sep: Vec<char> = Vec::new();
            sep.push('\n');
            assert(sep@ =~= seq!['\n']);
            let joined = join_v(&part, &sep);
            return Some(string_of(&joined));
        }
        i += 1;
    }
    None
}

/// Number of lines of `output` that contain `pattern`.
pub fn count_pattern(output: &str, pattern: &str) -> (n: usize)
    ensures
        n == count_containing(lines(output@), pattern@),
{
    let ls = lines_of(output);
    assert(ls@.map_values(|p: Vec<char>| p@) =~= lines(output@));
    let p = chars_of(pattern);
    count_lines_containing(&ls, &p)
}

} // verus!
