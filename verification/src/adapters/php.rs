//! PHPUnit output, plain and `--testdox`.

use vstd::prelude::*;
use crate::adapters::{
    CaseView, ErrorView, RunView, SuiteView, TestCase, TestError, TestRunResult, TestStatus,
    TestSuite, cases_view, opt_str_view, suites_view,
};
use crate::adapters::dotnet::signed_field;
use crate::adapters::javascript::strip_prefix;
use crate::adapters::python::{counted_suite, counted_suite_v, first_piece};
use crate::adapters::util::{
    combined_chars, combined_spec, strip_suffix, strip_suffix_v, truncatable, truncatable_v, truncate_chars,
    truncated, utf8_len, utf8_len_v,
};
use crate::adapters::zig::ascii_lower;
use crate::duration::{Duration, decimal_nanos, parse_millis, parse_secs, MAX_NANOS};
use crate::num::{min_nat, parse_usize, parse_usize_spec};
use crate::text::{
    append, append_str, chars_of, chars_of_string, contains, contains_str, ends_with,
    ends_with_str, eq, find, find_str, is_digit, join, join_v, lines, lines_v, occurs_at, rfind,
    slice, split_char, split_char_v, starts_with, starts_with_str, string_of, trim,
    trim_end_char, trim_end_char_v, trim_start, trim_start_v, trim_v, words, words_v,
};

verus! {

/// Adapter for PHP projects tested with PHPUnit.
pub struct PhpAdapter;

impl PhpAdapter {
    pub fn new() -> (a: Self) {
        PhpAdapter
    }

    /// Name of this adapter for display.
    pub fn name(&self) -> (r: &'static str)
        ensures
            r@ == "PHP"@,
    {
        "PHP"
    }
}

impl Default for PhpAdapter {
    fn default() -> (a: Self) {
        PhpAdapter
    }
}

fn strip_prefix_v(s: &Vec<char>, p: &str) -> (r: Option<Vec<char>>)
    ensures
        match r {
            Some(x) => strip_prefix(s@, p@) == Some(x@),
            None => strip_prefix(s@, p@) is None,
        },
{
    if starts_with_str(s, p) {
        let k = chars_of(p).len();
        let n = s.len();
        let x = slice(s, k, n);
        assert(x@ =~= s@.skip(p@.len() as int));
        Some(x)
    } else {
        None
    }
}

// ---------------------------------------------------------------------------
// Summary lines
// ---------------------------------------------------------------------------

/// The count after a label, zero when it does not read.
pub open spec fn count_of(rest: Seq<char>) -> int {
    match parse_usize_spec(trim(rest)) {
        Some(n) => n as int,
        None => 0,
    }
}

/// `(total, failures, errors, skipped)` after one part of
/// `Tests: 5, Assertions: 5, Failures: 1, Skipped: 1.`; incomplete tests
/// add to the skipped ones.
pub open spec fn php_part(acc: (int, int, int, int), part: Seq<char>) -> (int, int, int, int) {
    let p = trim_end_char(trim(part), '.');
    match strip_prefix(p, "Tests:"@) {
        Some(r) => (count_of(r), acc.1, acc.2, acc.3),
        None => match strip_prefix(p, "Failures:"@) {
            Some(r) => (acc.0, count_of(r), acc.2, acc.3),
            None => match strip_prefix(p, "Errors:"@) {
                Some(r) => (acc.0, acc.1, count_of(r), acc.3),
                None => match strip_prefix(p, "Skipped:"@) {
                    Some(r) => (acc.0, acc.1, acc.2, count_of(r)),
                    None => match strip_prefix(p, "Incomplete:"@) {
                        Some(r) => (acc.0, acc.1, acc.2, acc.3 + count_of(r)),
                        None => acc,
                    },
                },
            },
        },
    }
}

pub open spec fn php_parts(ps: Seq<Seq<char>>) -> (int, int, int, int)
    decreases ps.len(),
{
    if ps.len() == 0 {
        (0, 0, 0, 0)
    } else {
        php_part(php_parts(ps.drop_last()), ps.last())
    }
}

/// The skipped count stays in a machine word at every part.
pub open spec fn php_parts_fit(ps: Seq<Seq<char>>) -> bool
    decreases ps.len(),
{
    ps.len() == 0 || (php_parts_fit(ps.drop_last()) && php_parts(ps).3 <= usize::MAX)
}

/// `Tests: ..., Assertions: ...`.
pub open spec fn is_tests_summary(t: Seq<char>) -> bool {
    starts_with(t, "Tests:"@) && contains(t, "Assertions:"@)
}

/// `OK (5 tests, 5 assertions)`.
pub open spec fn is_ok_summary(t: Seq<char>) -> bool {
    starts_with(t, "OK ("@) && contains(t, "test"@)
}

/// The first part of an `OK (...)` line that counts tests.
pub open spec fn ok_count(parts: Seq<Seq<char>>) -> Option<usize>
    decreases parts.len(),
{
    if parts.len() == 0 {
        None
    } else {
        let w = words(trim(parts[0]));
        if w.len() >= 2 && starts_with(w[1], "test"@) {
            Some(match parse_usize_spec(w[0]) {
                Some(n) => n,
                None => 0usize,
            })
        } else {
            ok_count(parts.drop_first())
        }
    }
}

/// The text inside `OK (...)`.
pub open spec fn ok_inner(t: Seq<char>) -> Seq<char> {
    match strip_prefix(t, "OK ("@) {
        Some(r) => match strip_suffix(r, ")"@) {
            Some(x) => x,
            None => seq![],
        },
        None => seq![],
    }
}

/// The first summary line (trimmed), if any.
pub open spec fn php_summary_line(ls: Seq<Seq<char>>) -> Option<Seq<char>>
    decreases ls.len(),
{
    if ls.len() == 0 {
        None
    } else if is_tests_summary(trim(ls[0])) || is_ok_summary(trim(ls[0])) {
        Some(trim(ls[0]))
    } else {
        php_summary_line(ls.drop_first())
    }
}

/// The counts of a `Tests:` line fit in machine words.
pub open spec fn php_counts_fit(t: Seq<char>) -> bool {
    let ps = split_char(t, ',');
    let c = php_parts(ps);
    php_parts_fit(ps) && c.1 + c.2 <= usize::MAX && c.1 + c.2 + c.3 <= usize::MAX
}

/// The suite of a run without testdox lines: from the first summary line,
/// passing cases being the tests neither failed, errored nor skipped.
pub open spec fn php_summary_suite(ls: Seq<Seq<char>>, exit_code: i32) -> SuiteView {
    match php_summary_line(ls) {
        Some(t) => if is_tests_summary(t) {
            let c = php_parts(split_char(t, ','));
            let failed = c.1 + c.2;
            counted_suite(
                if c.0 >= failed + c.3 { (c.0 - failed - c.3) as nat } else { 0 },
                failed as nat,
                c.3 as nat,
                "skipped_test_"@,
                exit_code,
            )
        } else {
            match ok_count(split_char(ok_inner(t), ',')) {
                Some(n) => counted_suite(n as nat, 0, 0, "skipped_test_"@, exit_code),
                None => counted_suite(0, 0, 0, "skipped_test_"@, exit_code),
            }
        },
        None => counted_suite(0, 0, 0, "skipped_test_"@, exit_code),
    }
}

/// The summary line, if one is used, has counts that fit.
pub open spec fn php_summary_ok(ls: Seq<Seq<char>>) -> bool {
    match php_summary_line(ls) {
        Some(t) => is_tests_summary(t) ==> php_counts_fit(t),
        None => true,
    }
}

proof fn lemma_php_parts(ps: Seq<Seq<char>>)
    ensures
        php_parts(ps).0 >= 0,
        php_parts(ps).1 >= 0,
        php_parts(ps).2 >= 0,
        php_parts(ps).3 >= 0,
        php_parts(ps).0 <= usize::MAX,
        php_parts(ps).1 <= usize::MAX,
        php_parts(ps).2 <= usize::MAX,
    decreases ps.len(),
{
    if ps.len() > 0 {
        lemma_php_parts(ps.drop_last());
    }
}

fn count_of_v(rest: &Vec<char>) -> (n: usize)
    ensures
        n as int == count_of(rest@),
{
    match parse_usize(&trim_v(rest)) {
        Some(n) => n,
        None => 0,
    }
}

fn php_counts_fit_v(t: &Vec<char>) -> (b: bool)
    ensures
        b == php_counts_fit(t@),
{
    let parts = split_char_v(t, ',');
    let ghost pv = parts@.map_values(|x: Vec<char>| x@);
    let mut c: (usize, usize, usize, usize) = (0, 0, 0, 0);
    let mut j: usize = 0;
    while j < parts.len()
        invariant
            j <= parts.len(),
            pv == parts@.map_values(|x: Vec<char>| x@),
            pv == split_char(t@, ','),
            php_parts_fit(pv.take(j as int)),
            (c.0 as int, c.1 as int, c.2 as int, c.3 as int) == php_parts(pv.take(j as int)),
        decreases parts.len() - j,
    {
        assert(pv.take(j + 1).drop_last() =~= pv.take(j as int));
        assert(pv.take(j + 1).last() == parts@[j as int]@);
        let p = trim_end_char_v(&trim_v(&parts[j]), '.');
        if let Some(r) = strip_prefix_v(&p, "Tests:") {
            c = (count_of_v(&r), c.1, c.2, c.3);
        } else if let Some(r) = strip_prefix_v(&p, "Failures:") {
            c = (c.0, count_of_v(&r), c.2, c.3);
        } else if let Some(r) = strip_prefix_v(&p, "Errors:") {
            c = (c.0, c.1, count_of_v(&r), c.3);
        } else if let Some(r) = strip_prefix_v(&p, "Skipped:") {
            c = (c.0, c.1, c.2, count_of_v(&r));
        } else if let Some(r) = strip_prefix_v(&p, "Incomplete:") {
            let n = count_of_v(&r);
            match c.3.checked_add(n) {
                Some(v) => {
                    c = (c.0, c.1, c.2, v);
                },
                None => {
                    assert(!php_parts_fit(pv)) by {
                        if php_parts_fit(pv) {
                            lemma_fit_prefix(pv, j + 1);
                        }
                    }
                    return false;
                },
            }
        }
        j += 1;
    }
    assert(pv.take(parts.len() as int) =~= pv);
    (c.1 as u128) + (c.2 as u128) <= usize::MAX as u128
        && (c.1 as u128) + (c.2 as u128) + (c.3 as u128) <= usize::MAX as u128
}

fn php_summary_ok_v(ls: &Vec<Vec<char>>) -> (b: bool)
    ensures
        b == php_summary_ok(ls@.map_values(|l: Vec<char>| l@)),
{
    let ghost lv = ls@.map_values(|l: Vec<char>| l@);
    let mut i: usize = 0;
    assert(lv.skip(0) =~= lv);
    while i < ls.len()
        invariant
            i <= ls.len(),
            lv == ls@.map_values(|l: Vec<char>| l@),
            php_summary_line(lv) == php_summary_line(lv.skip(i as int)),
        decreases ls.len() - i,
    {
        assert(lv.skip(i as int)[0] == ls@[i as int]@);
        assert(lv.skip(i as int).drop_first() =~= lv.skip(i + 1));
        let t = trim_v(&ls[i]);
        if starts_with_str(&t, "Tests:") && contains_str(&t, "Assertions:") {
            assert(php_summary_line(lv) == Some(t@));
            return php_counts_fit_v(&t);
        }
        if starts_with_str(&t, "OK (") && contains_str(&t, "test") {
            assert(php_summary_line(lv) == Some(t@));
            return true;
        }
        i += 1;
    }
    assert(lv.skip(ls.len() as int) =~= seq![]);
    true
}

fn php_summary_suite_v(ls: &Vec<Vec<char>>, exit_code: i32) -> (s: TestSuite)
    requires
        php_summary_ok(ls@.map_values(|l: Vec<char>| l@)),
    ensures
        s@ == php_summary_suite(ls@.map_values(|l: Vec<char>| l@), exit_code),
{
    let ghost lv = ls@.map_values(|l: Vec<char>| l@);
    let mut i: usize = 0;
    assert(lv.skip(0) =~= lv);
    while i < ls.len()
        invariant
            i <= ls.len(),
            lv == ls@.map_values(|l: Vec<char>| l@),
            php_summary_line(lv) == php_summary_line(lv.skip(i as int)),
            php_summary_ok(lv),
        decreases ls.len() - i,
    {
        assert(lv.skip(i as int)[0] == ls@[i as int]@);
        assert(lv.skip(i as int).drop_first() =~= lv.skip(i + 1));
        let t = trim_v(&ls[i]);
        if starts_with_str(&t, "Tests:") && contains_str(&t, "Assertions:") {
            assert(php_summary_line(lv) == Some(t@));
            let parts = split_char_v(&t, ',');
            let ghost pv = parts@.map_values(|x: Vec<char>| x@);
            let mut c: (usize, usize, usize, usize) = (0, 0, 0, 0);
            let mut j: usize = 0;
            while j < parts.len()
                invariant
                    j <= parts.len(),
                    pv == parts@.map_values(|x: Vec<char>| x@),
                    pv == split_char(t@, ','),
                    php_counts_fit(t@),
                    (c.0 as int, c.1 as int, c.2 as int, c.3 as int) == php_parts(pv.take(j as int)),
                decreases parts.len() - j,
            {
                assert(pv.take(j + 1).drop_last() =~= pv.take(j as int));
                assert(pv.take(j + 1).last() == parts@[j as int]@);
                proof {
                    lemma_fit_prefix(pv, j + 1);
                }
                let p = trim_end_char_v(&trim_v(&parts[j]), '.');
                if let Some(r) = strip_prefix_v(&p, "Tests:") {
                    c = (count_of_v(&r), c.1, c.2, c.3);
                } else if let Some(r) = strip_prefix_v(&p, "Failures:") {
                    c = (c.0, count_of_v(&r), c.2, c.3);
                } else if let Some(r) = strip_prefix_v(&p, "Errors:") {
                    c = (c.0, c.1, count_of_v(&r), c.3);
                } else if let Some(r) = strip_prefix_v(&p, "Skipped:") {
                    c = (c.0, c.1, c.2, count_of_v(&r));
                } else if let Some(r) = strip_prefix_v(&p, "Incomplete:") {
                    let n = count_of_v(&r);
                    c = (c.0, c.1, c.2, c.3 + n);
                }
                j += 1;
            }
            assert(pv.take(parts.len() as int) =~= pv);
            let failed = c.1 + c.2;
            let passed = c.0.saturating_sub(failed + c.3);
            return counted_suite_v(passed, failed, c.3, "skipped_test_", exit_code);
        }
        if starts_with_str(&t, "OK (") && contains_str(&t, "test") {
            assert(php_summary_line(lv) == Some(t@));
            let inner = match strip_prefix_v(&t, "OK (") {
                Some(r) => match strip_suffix_v(&r, ")") {
                    Some(x) => x,
                    None => Vec::new(),
                },
                None => Vec::new(),
            };
            assert(inner@ == ok_inner(t@));
            let parts = split_char_v(&inner, ',');
            let ghost pv = parts@.map_values(|x: Vec<char>| x@);
            let mut j: usize = 0;
            assert(pv.skip(0) =~= pv);
            while j < parts.len()
                invariant
                    j <= parts.len(),
                    pv == parts@.map_values(|x: Vec<char>| x@),
                    pv == split_char(ok_inner(t@), ','),
                    lv == ls@.map_values(|l: Vec<char>| l@),
                    php_summary_line(lv) == Some(t@),
                    !is_tests_summary(t@),
                    ok_count(pv) == ok_count(pv.skip(j as int)),
                decreases parts.len() - j,
            {
                assert(pv.skip(j as int)[0] == parts@[j as int]@);
                assert(pv.skip(j as int).drop_first() =~= pv.skip(j + 1));
                let w = words_v(&trim_v(&parts[j]));
                let ghost wv = w@.map_values(|x: Vec<char>| x@);
                if w.len() >= 2 {
                    assert(w@[0]@ == wv[0]);
                    assert(w@[1]@ == wv[1]);
                    if starts_with_str(&w[1], "test") {
                        let n = match parse_usize(&w[0]) {
                            Some(n) => n,
                            None => 0,
                        };
                        return counted_suite_v(n, 0, 0, "skipped_test_", exit_code);
                    }
                }
                j += 1;
            }
            return counted_suite_v(0, 0, 0, "skipped_test_", exit_code);
        }
        i += 1;
    }
    counted_suite_v(0, 0, 0, "skipped_test_", exit_code)
}

proof fn lemma_fit_prefix(ps: Seq<Seq<char>>, j: int)
    requires
        0 <= j <= ps.len(),
        php_parts_fit(ps),
    ensures
        php_parts_fit(ps.take(j)),
        php_parts(ps.take(j)).3 <= usize::MAX,
    decreases ps.len() - j,
{
    if j == ps.len() {
        assert(ps.take(j) =~= ps);
        if ps.len() == 0 {
            assert(php_parts(ps) == (0int, 0int, 0int, 0int));
        }
    } else {
        lemma_fit_prefix(ps, j + 1);
        assert(ps.take(j + 1).drop_last() =~= ps.take(j));
        if j == 0 {
            assert(php_parts(ps.take(0)) == (0int, 0int, 0int, 0int));
        }
    }
}

// ---------------------------------------------------------------------------
// Run duration
// ---------------------------------------------------------------------------

/// The time of a `Time: 00:01.500, Memory: ...` line: `minutes:seconds`
/// before the first comma (zero when negative).
pub open spec fn php_line_time(l: Seq<char>) -> Option<nat> {
    if contains(l, "Time:"@) && contains(l, "Memory:"@) {
        let ts = trim(first_piece(l.skip(find(l, "Time:"@)->0 + 5), ","@));
        match find(ts, ":"@) {
            Some(ci) => {
                let t = signed_field(ts.take(ci), 60_000_000_000, 60) + signed_field(ts.skip(ci + 1), 1_000_000_000, 1);
                Some(if t <= 0 { 0 } else { min_nat(t as nat, MAX_NANOS as nat) })
            },
            None => None,
        }
    } else {
        None
    }
}

pub open spec fn php_duration(ls: Seq<Seq<char>>) -> Option<nat>
    decreases ls.len(),
{
    if ls.len() == 0 {
        None
    } else {
        match php_line_time(ls[0]) {
            Some(d) => Some(d),
            None => php_duration(ls.drop_first()),
        }
    }
}

fn php_line_time_v(l: &Vec<char>) -> (r: Option<Duration>)
    ensures
        match r {
            Some(d) => php_line_time(l@) == Some(d.ns()),
            None => php_line_time(l@) is None,
        },
{
    if !(contains_str(l, "Time:") && contains_str(l, "Memory:")) {
        return None;
    }
    let idx = match find_str(l, "Time:") {
        Some(i) => i,
        None => {
            return None;
        },
    };
    proof {
        reveal_strlit("Time:");
    }
    let n = l.len();
    let after = slice(l, idx + 5, n);
    assert(after@ =~= l@.skip(find(l@, "Time:"@)->0 + 5));
    let ts = trim_v(&crate::adapters::python::first_piece_v(&after, &chars_of(",")));
    let tn = ts.len();
    proof {
        reveal_strlit(":");
    }
    match find_str(&ts, ":") {
        Some(ci) => {
            let head = slice(&ts, 0, ci);
            assert(head@ =~= ts@.take(ci as int));
            let tail = slice(&ts, ci + 1, tn);
            assert(tail@ =~= ts@.skip(ci + 1));
            let t = crate::adapters::dotnet::signed_field_pub(&head, 60_000_000_000, 60)
                + crate::adapters::dotnet::signed_field_pub(&tail, 1_000_000_000, 1);
            if t <= 0 {
                Some(Duration::zero())
            } else {
                Some(Duration::from_nanos_u128(t as u128))
            }
        },
        None => None,
    }
}

fn php_duration_v(ls: &Vec<Vec<char>>) -> (r: Option<Duration>)
    ensures
        match r {
            Some(d) => php_duration(ls@.map_values(|l: Vec<char>| l@)) == Some(d.ns()),
            None => php_duration(ls@.map_values(|l: Vec<char>| l@)) is None,
        },
{
    let ghost lv = ls@.map_values(|l: Vec<char>| l@);
    let mut i: usize = 0;
    assert(lv.skip(0) =~= lv);
    while i < ls.len()
        invariant
            i <= ls.len(),
            lv == ls@.map_values(|l: Vec<char>| l@),
            php_duration(lv) == php_duration(lv.skip(i as int)),
        decreases ls.len() - i,
    {
        assert(lv.skip(i as int)[0] == ls@[i as int]@);
        assert(lv.skip(i as int).drop_first() =~= lv.skip(i + 1));
        if let Some(d) = php_line_time_v(&ls[i]) {
            return Some(d);
        }
        i += 1;
    }
    None
}

/// Parse the run time from `Time: 00:00.012, Memory: 8.00 MB`.
pub fn parse_phpunit_duration(output: &str) -> (r: Option<Duration>)
    ensures
        match r {
            Some(d) => php_duration(lines(output@)) == Some(d.ns()),
            None => php_duration(lines(output@)) is None,
        },
{
    let ls = crate::text::lines_of(output);
    assert(ls@.map_values(|l: Vec<char>| l@) =~= lines(output@));
    php_duration_v(&ls)
}

// ---------------------------------------------------------------------------
// --testdox output
// ---------------------------------------------------------------------------

/// A testdox suite header: a line starting with an ASCII capital that is no
/// test line and no known PHPUnit line.
pub open spec fn is_testdox_header(l: Seq<char>) -> bool {
    &&& l.len() > 0
    &&& !(l[0] == '✔' || l[0] == '✘' || l[0] == '⚬' || l[0] == '✓' || l[0] == '✗' || l[0] == '×' || l[0] == '-')
    &&& !(starts_with(l, "PHPUnit"@) || starts_with(l, "Time:"@) || starts_with(l, "OK "@) || starts_with(l, "Tests:"@)
        || starts_with(l, "FAILURES!"@) || starts_with(l, "ERRORS!"@) || starts_with(l, "There "@)
        || (contains(l, "test"@) && contains(l, "assertion"@)))
    &&& 'A' <= l[0] && l[0] <= 'Z'
}

fn is_testdox_header_v(l: &Vec<char>) -> (b: bool)
    ensures
        b == is_testdox_header(l@),
{
    if l.len() == 0 {
        return false;
    }
    let c = l[0];
    if c == '✔' || c == '✘' || c == '⚬' || c == '✓' || c == '✗' || c == '×' || c == '-' {
        return false;
    }
    if starts_with_str(l, "PHPUnit") || starts_with_str(l, "Time:") || starts_with_str(l, "OK ") || starts_with_str(l, "Tests:")
        || starts_with_str(l, "FAILURES!") || starts_with_str(l, "ERRORS!") || starts_with_str(l, "There ")
        || (contains_str(l, "test") && contains_str(l, "assertion")) {
        return false;
    }
    'A' <= c && c <= 'Z'
}

/// Check whether a line is a testdox suite header.
pub fn is_testdox_suite_header(line: &str) -> (b: bool)
    ensures
        b == is_testdox_header(line@),
{
    is_testdox_header_v(&chars_of(line))
}

/// The status a testdox mark stands for: `✔ ✓` pass, `✘ ✗ ×` fail,
/// `⚬ ○ -` skip.
pub open spec fn testdox_status(c: char) -> Option<TestStatus> {
    if c == '✔' || c == '✓' {
        Some(TestStatus::Passed)
    } else if c == '✘' || c == '✗' || c == '×' {
        Some(TestStatus::Failed)
    } else if c == '⚬' || c == '○' || c == '-' {
        Some(TestStatus::Skipped)
    } else {
        None
    }
}

/// Milliseconds (`50ms`) or seconds (`0.005s`) of a testdox time.
pub open spec fn testdox_dur_str(s: Seq<char>) -> Option<nat> {
    match strip_suffix(s, "ms"@) {
        Some(r) => decimal_nanos(trim(r), 1_000_000, 6, 1),
        None => match strip_suffix(s, "s"@) {
            Some(r) => decimal_nanos(trim(r), 1_000_000_000, 9, 1),
            None => None,
        },
    }
}

/// Name and time of `Can add two numbers (0.005s)`: a time in the last
/// parentheses is taken off the name.
pub open spec fn testdox_duration(name: Seq<char>) -> (Seq<char>, nat) {
    match rfind(name, seq!['(']) {
        Some(ps) => {
            let inside = trim(name.subrange(ps + 1, name.len() - 1));
            if (ends_with(inside, "s"@) || ends_with(inside, "ms"@)) && testdox_dur_str(inside) is Some {
                (trim(name.take(ps)), testdox_dur_str(inside)->0)
            } else {
                (name, 0)
            }
        },
        None => (name, 0),
    }
}

/// A name with parentheses can be cut after its last `(` and before its
/// last character (one byte).
pub open spec fn testdox_cut_ok(name: Seq<char>) -> bool {
    match rfind(name, seq!['(']) {
        Some(ps) => ps + 1 <= name.len() - 1 && (name.last() as u32) < 0x80,
        None => true,
    }
}

fn testdox_dur_str_v(s: &Vec<char>) -> (r: Option<Duration>)
    ensures
        match r {
            Some(d) => testdox_dur_str(s@) == Some(d.ns()),
            None => testdox_dur_str(s@) is None,
        },
{
    match strip_suffix_v(s, "ms") {
        Some(r) => parse_millis(&trim_v(&r)),
        None => match strip_suffix_v(s, "s") {
            Some(r) => parse_secs(&trim_v(&r)),
            None => None,
        },
    }
}

fn testdox_duration_v(name: &Vec<char>) -> (r: (Vec<char>, Duration))
    requires
        testdox_cut_ok(name@),
    ensures
        (r.0@, r.1.ns()) == testdox_duration(name@),
{
    let n = name.len();
    let mut open: Vec<char> = Vec::new();
    open.push('(');
    assert(open@ =~= seq!['(']);
    match crate::text::rfind_v(name, &open) {
        Some(ps) => {
            assert(rfind(name@, seq!['(']) == Some(ps as int));
            let hi = n - 1;
            let lo = ps + 1;
            let inside = trim_v(&slice(name, lo, hi));
            if ends_with_str(&inside, "s") || ends_with_str(&inside, "ms") {
                if let Some(d) = testdox_dur_str_v(&inside) {
                    let head = slice(name, 0, ps);
                    assert(head@ =~= name@.take(ps as int));
                    return (trim_v(&head), d);
                }
            }
            (slice(name, 0, n), Duration::zero())
        },
        None => (slice(name, 0, n), Duration::zero()),
    }
}

/// Split a testdox name into name and time.
pub fn extract_testdox_duration(name: &str) -> (r: (String, Duration))
    requires
        testdox_cut_ok(name@),
    ensures
        (r.0@, r.1.ns()) == testdox_duration(name@),
{
    let (n, d) = testdox_duration_v(&chars_of(name));
    (string_of(&n), d)
}

/// The name after a testdox mark.
pub open spec fn testdox_name(t: Seq<char>) -> Seq<char> {
    trim(t.skip(1))
}

/// The case of a testdox line: a mark and a non-empty name.
pub open spec fn testdox_line(t: Seq<char>) -> Option<CaseView> {
    if t.len() > 0 && testdox_status(t[0]) is Some && testdox_name(t).len() > 0 {
        let (n, d) = testdox_duration(testdox_name(t));
        Some(CaseView { name: n, status: testdox_status(t[0])->0, duration: d, error: None })
    } else {
        None
    }
}

/// A testdox line whose name can be cut.
pub open spec fn testdox_line_ok(t: Seq<char>) -> bool {
    (t.len() > 0 && testdox_status(t[0]) is Some && testdox_name(t).len() > 0) ==> testdox_cut_ok(testdox_name(t))
}

fn testdox_status_v(c: char) -> (r: Option<TestStatus>)
    ensures
        r == testdox_status(c),
{
    if c == '✔' || c == '✓' {
        Some(TestStatus::Passed)
    } else if c == '✘' || c == '✗' || c == '×' {
        Some(TestStatus::Failed)
    } else if c == '⚬' || c == '○' || c == '-' {
        Some(TestStatus::Skipped)
    } else {
        None
    }
}

fn testdox_cut_ok_v(name: &Vec<char>) -> (b: bool)
    ensures
        b == testdox_cut_ok(name@),
{
    let mut open: Vec<char> = Vec::new();
    open.push('(');
    assert(open@ =~= seq!['(']);
    match crate::text::rfind_v(name, &open) {
        Some(ps) => name.len() > 0 && ps < name.len() - 1 && (name[name.len() - 1] as u32) < 0x80,
        None => true,
    }
}

fn testdox_line_ok_v(t: &Vec<char>) -> (b: bool)
    ensures
        b == testdox_line_ok(t@),
{
    if t.len() == 0 {
        return true;
    }
    if testdox_status_v(t[0]).is_none() {
        return true;
    }
    let n = t.len();
    let rest = slice(t, 1, n);
    assert(rest@ =~= t@.skip(1));
    let name = trim_v(&rest);
    if name.len() == 0 {
        return true;
    }
    testdox_cut_ok_v(&name)
}

fn testdox_ok_v(ls: &Vec<Vec<char>>) -> (b: bool)
    ensures
        b == testdox_ok(ls@.map_values(|l: Vec<char>| l@)),
{
    let ghost lv = ls@.map_values(|l: Vec<char>| l@);
    let mut i: usize = 0;
    while i < ls.len()
        invariant
            i <= ls.len(),
            lv == ls@.map_values(|l: Vec<char>| l@),
            forall|k: int| 0 <= k < i && !is_testdox_header(trim(#[trigger] lv[k])) ==> testdox_line_ok(trim(lv[k])),
        decreases ls.len() - i,
    {
        let t = trim_v(&ls[i]);
        assert(lv[i as int] == ls@[i as int]@);
        if !is_testdox_header_v(&t) && !testdox_line_ok_v(&t) {
            return false;
        }
        i += 1;
    }
    true
}

fn testdox_line_v(t: &Vec<char>) -> (r: Option<TestCase>)
    requires
        testdox_line_ok(t@),
    ensures
        match r {
            Some(c) => testdox_line(t@) == Some(c@),
            None => testdox_line(t@) is None,
        },
{
    if t.len() == 0 {
        return None;
    }
    match testdox_status_v(t[0]) {
        Some(st) => {
            let n = t.len();
            let rest = slice(t, 1, n);
            assert(rest@ =~= t@.skip(1));
            let name = trim_v(&rest);
            if name.len() == 0 {
                return None;
            }
            let (clean, d) = testdox_duration_v(&name);
            Some(TestCase { name: string_of(&clean), status: st, duration: d, error: None })
        },
        None => None,
    }
}

/// Parse one testdox line (`✔ Can add numbers`) into a case.
pub fn parse_testdox_test_line(line: &str) -> (r: Option<TestCase>)
    requires
        testdox_line_ok(line@),
    ensures
        match r {
            Some(c) => testdox_line(line@) == Some(c@),
            None => testdox_line(line@) is None,
        },
{
    testdox_line_v(&chars_of(line))
}

pub struct TdState {
    pub suites: Seq<SuiteView>,
    pub cur: Seq<char>,
    pub tests: Seq<CaseView>,
}

/// Effect of one (trimmed) line: a header starts a suite named before
/// ` (`, the cases so far closing the previous named suite; a test line adds
/// a case.
pub open spec fn td_step(st: TdState, t: Seq<char>) -> TdState {
    if is_testdox_header(t) {
        let close = st.cur.len() > 0 && st.tests.len() > 0;
        TdState {
            suites: if close { st.suites.push(SuiteView { name: st.cur, tests: st.tests }) } else { st.suites },
            cur: first_piece(t, " ("@),
            tests: if close { seq![] } else { st.tests },
        }
    } else {
        match testdox_line(t) {
            Some(c) => TdState { tests: st.tests.push(c), ..st },
            None => st,
        }
    }
}

pub open spec fn td_fold(ls: Seq<Seq<char>>) -> TdState
    decreases ls.len(),
{
    if ls.len() == 0 {
        TdState { suites: seq![], cur: seq![], tests: seq![] }
    } else {
        td_step(td_fold(ls.drop_last()), trim(ls.last()))
    }
}

/// The suites of testdox output: one per header that has cases.
pub open spec fn testdox_suites(ls: Seq<Seq<char>>) -> Seq<SuiteView> {
    let st = td_fold(ls);
    if st.cur.len() > 0 && st.tests.len() > 0 {
        st.suites.push(SuiteView { name: st.cur, tests: st.tests })
    } else {
        st.suites
    }
}

/// Every test line that is no header can be read.
pub open spec fn testdox_ok(ls: Seq<Seq<char>>) -> bool {
    forall|k: int| 0 <= k < ls.len() && !is_testdox_header(trim(#[trigger] ls[k])) ==> testdox_line_ok(trim(ls[k]))
}

fn testdox_suites_v(ls: &Vec<Vec<char>>) -> (r: Vec<TestSuite>)
    requires
        testdox_ok(ls@.map_values(|l: Vec<char>| l@)),
    ensures
        suites_view(r@) == testdox_suites(ls@.map_values(|l: Vec<char>| l@)),
{
    let ghost lv = ls@.map_values(|l: Vec<char>| l@);
    let mut suites: Vec<TestSuite> = Vec::new();
    let mut cur: Vec<char> = Vec::new();
    let mut tests: Vec<TestCase> = Vec::new();
    assert(suites_view(suites@) =~= seq![]);
    assert(cases_view(tests@) =~= seq![]);
    let mut i: usize = 0;
    while i < ls.len()
        invariant
            i <= ls.len(),
            lv == ls@.map_values(|l: Vec<char>| l@),
            testdox_ok(lv),
            (TdState { suites: suites_view(suites@), cur: cur@, tests: cases_view(tests@) }) == td_fold(lv.take(i as int)),
        decreases ls.len() - i,
    {
        assert(lv.take(i + 1).drop_last() =~= lv.take(i as int));
        assert(lv.take(i + 1).last() == ls@[i as int]@);
        let t = trim_v(&ls[i]);
        if is_testdox_header_v(&t) {
            if cur.len() > 0 && tests.len() > 0 {
                let mut moved: Vec<TestCase> = Vec::new();
                std::mem::swap(&mut moved, &mut tests);
                let s = TestSuite { name: string_of(&cur), tests: moved };
                let ghost before = suites@;
                suites.push(s);
                assert(suites_view(suites@) =~= suites_view(before).push(s@));
                assert(cases_view(tests@) =~= seq![]);
            }
            cur = crate::adapters::python::first_piece_v(&t, &chars_of(" ("));
        } else {
            assert(testdox_line_ok(trim(lv[i as int])));
            match testdox_line_v(&t) {
                Some(c) => {
                    let ghost before = tests@;
                    tests.push(c);
                    assert(cases_view(tests@) =~= cases_view(before).push(c@));
                },
                None => {},
            }
        }
        i += 1;
    }
    assert(lv.take(ls.len() as int) =~= lv);
    if cur.len() > 0 && tests.len() > 0 {
        let s = TestSuite { name: string_of(&cur), tests };
        let ghost before = suites@;
        suites.push(s);
        assert(suites_view(suites@) =~= suites_view(before).push(s@));
    }
    suites
}

/// Parse PHPUnit `--testdox` output into suites.
pub fn parse_testdox_output(output: &str) -> (r: Vec<TestSuite>)
    requires
        testdox_ok(lines(output@)),
    ensures
        suites_view(r@) == testdox_suites(lines(output@)),
{
    let ls = crate::text::lines_of(output);
    assert(ls@.map_values(|l: Vec<char>| l@) =~= lines(output@));
    testdox_suites_v(&ls)
}

// ---------------------------------------------------------------------------
// Failure blocks
// ---------------------------------------------------------------------------

/// A failure block of PHPUnit output.
pub struct PhpUnitFailure {
    pub test_method: String,
    pub message: String,
    pub location: Option<String>,
}

pub struct PhpFailView {
    pub test_method: Seq<char>,
    pub message: Seq<char>,
    pub location: Option<Seq<char>>,
}

impl View for PhpUnitFailure {
    type V = PhpFailView;

    open spec fn view(&self) -> PhpFailView {
        PhpFailView { test_method: self.test_method@, message: self.message@, location: opt_str_view(self.location) }
    }
}

pub open spec fn php_failures_view(fs: Seq<PhpUnitFailure>) -> Seq<PhpFailView> {
    fs.map_values(|f: PhpUnitFailure| f@)
}

/// A failure header such as `1) Tests\CalculatorTest::testDivision`: at
/// least three bytes, a leading digit, and `) ` within the first six bytes.
pub open spec fn is_failure_header(l: Seq<char>) -> bool {
    utf8_len(l) >= 3 && is_digit(l[0]) && contains(l, ") "@) && utf8_len(l.take(find(l, ") "@)->0)) <= 5
}

fn is_failure_header_v(l: &Vec<char>) -> (b: bool)
    ensures
        b == is_failure_header(l@),
{
    if utf8_len_v(l) < 3 {
        return false;
    }
    if !crate::text::is_ascii_digit(l[0]) {
        return false;
    }
    match find_str(l, ") ") {
        Some(idx) => {
            let head = slice(l, 0, idx);
            assert(head@ =~= l@.take(idx as int));
            utf8_len_v(&head) <= 5
        },
        None => false,
    }
}

/// Check whether a line is a PHPUnit failure header.
pub fn is_phpunit_failure_header(line: &str) -> (b: bool)
    ensures
        b == is_failure_header(line@),
{
    is_failure_header_v(&chars_of(line))
}

/// A PHP file location: `/path/to/file.php:42` (or `C:\...`).
pub open spec fn is_php_location(l: Seq<char>) -> bool {
    (contains(l, ".php:"@) || contains(l, ".php("@)) && (starts_with(l, "/"@) || starts_with(l, "\\"@) || contains(l, ":\\"@))
}

fn is_php_location_v(l: &Vec<char>) -> (b: bool)
    ensures
        b == is_php_location(l@),
{
    (contains_str(l, ".php:") || contains_str(l, ".php(")) && (starts_with_str(l, "/") || starts_with_str(l, "\\") || contains_str(l, ":\\"))
}

/// Check whether a line is a PHP file location.
pub fn is_php_file_location(line: &str) -> (b: bool)
    ensures
        b == is_php_location(line@),
{
    is_php_location_v(&chars_of(line))
}

/// The block after a header: `(end, message lines, location)`; it ends at a
/// blank line (taking a location right after it), at a location line, or
/// before the next header.
pub open spec fn php_block(ls: Seq<Seq<char>>, k: int, msgs: Seq<Seq<char>>) -> (int, Seq<Seq<char>>, Option<Seq<char>>)
    decreases ls.len() - k,
{
    if k < 0 || k >= ls.len() {
        (k, msgs, None)
    } else {
        let l = trim(ls[k]);
        if l.len() == 0 {
            if k + 1 < ls.len() && is_php_location(trim(ls[k + 1])) {
                (k + 2, msgs, Some(trim(ls[k + 1])))
            } else {
                (k + 1, msgs, None)
            }
        } else if is_php_location(l) {
            (k + 1, msgs, Some(l))
        } else if is_failure_header(l) {
            (k, msgs, None)
        } else {
            php_block(ls, k + 1, msgs.push(l))
        }
    }
}

pub proof fn lemma_php_block(ls: Seq<Seq<char>>, k: int, msgs: Seq<Seq<char>>)
    requires
        0 <= k <= ls.len(),
    ensures
        k <= php_block(ls, k, msgs).0 <= ls.len(),
    decreases ls.len() - k,
{
    if k < ls.len() {
        let l = trim(ls[k]);
        if l.len() != 0 && !is_php_location(l) && !is_failure_header(l) {
            lemma_php_block(ls, k + 1, msgs.push(l));
        }
    }
}

/// The method named by a header: after `) `.
pub open spec fn header_method(t: Seq<char>) -> Seq<char> {
    match find(t, ") "@) {
        Some(i) => trim(t.skip(i + 2)),
        None => seq![],
    }
}

pub struct PhpRaw {
    pub test_method: Seq<char>,
    pub msgs: Seq<Seq<char>>,
    pub location: Option<Seq<char>>,
}

/// The failure blocks from line `i` on (blocks without a method dropped).
pub open spec fn php_raw_from(ls: Seq<Seq<char>>, i: int) -> Seq<PhpRaw>
    decreases ls.len() - i,
{
    if i < 0 || i >= ls.len() {
        seq![]
    } else {
        let t = trim(ls[i]);
        if is_failure_header(t) {
            let (e, msgs, loc) = php_block(ls, i + 1, seq![]);
            proof {
                lemma_php_block(ls, i + 1, seq![]);
            }
            (if header_method(t).len() > 0 {
                seq![PhpRaw { test_method: header_method(t), msgs: msgs, location: loc }]
            } else {
                seq![]
            }) + php_raw_from(ls, e)
        } else {
            php_raw_from(ls, i + 1)
        }
    }
}

/// A block's failure: its message lines joined by newlines, cut to 500
/// bytes.
pub open spec fn php_failure(r: PhpRaw) -> PhpFailView {
    PhpFailView { test_method: r.test_method, message: truncated(join(r.msgs, "\n"@), 500), location: r.location }
}

pub open spec fn php_failures(ls: Seq<Seq<char>>) -> Seq<PhpFailView> {
    php_raw_from(ls, 0).map_values(|r: PhpRaw| php_failure(r))
}

/// Every failure message can be cut to 500 bytes between characters.
pub open spec fn php_failures_ok(ls: Seq<Seq<char>>) -> bool {
    forall|k: int| 0 <= k < php_raw_from(ls, 0).len() ==> truncatable(join(#[trigger] php_raw_from(ls, 0)[k].msgs, "\n"@), 500)
}

/// The failures, or `None` when some block's message cannot be cut.
fn php_failures_v(ls: &Vec<Vec<char>>) -> (r: Option<Vec<PhpUnitFailure>>)
    ensures
        r is Some <==> php_failures_ok(ls@.map_values(|l: Vec<char>| l@)),
        r matches Some(v) ==> php_failures_view(v@) == php_failures(ls@.map_values(|l: Vec<char>| l@)),
{
    let ghost lv = ls@.map_values(|l: Vec<char>| l@);
    let ghost raw = php_raw_from(lv, 0);
    let ghost mut done: Seq<PhpRaw> = seq![];
    let mut out: Vec<PhpUnitFailure> = Vec::new();
    let mut i: usize = 0;
    assert(done + php_raw_from(lv, 0) =~= raw);
    while i < ls.len()
        invariant
            i <= ls.len(),
            lv == ls@.map_values(|l: Vec<char>| l@),
            raw == php_raw_from(lv, 0),
            forall|q: int| 0 <= q < done.len() ==> truncatable(join(#[trigger] done[q].msgs, "\n"@), 500),
            done + php_raw_from(lv, i as int) == raw,
            php_failures_view(out@) == done.map_values(|r: PhpRaw| php_failure(r)),
        decreases ls.len() - i,
    {
        let t = trim_v(&ls[i]);
        assert(t@ == trim(lv[i as int]));
        if is_failure_header_v(&t) {
            let method = match find_str(&t, ") ") {
                Some(idx) => {
                    proof {
                        reveal_strlit(") ");
                    }
                    let n = t.len();
                    let rest = slice(&t, idx + 2, n);
                    assert(rest@ =~= t@.skip(idx + 2));
                    trim_v(&rest)
                },
                None => Vec::new(),
            };
            assert(method@ == header_method(t@));
            let mut msgs: Vec<Vec<char>> = Vec::new();
            let mut loc: Option<Vec<char>> = None;
            let mut k = i + 1;
            assert(msgs@.map_values(|x: Vec<char>| x@) =~= seq![]);
            proof {
                lemma_php_block(lv, i + 1, seq![]);
            }
            let ghost target = php_block(lv, i + 1, seq![]);
            let mut done_block = false;
            while k < ls.len() && !done_block
                invariant
                    i + 1 <= k <= ls.len(),
                    lv == ls@.map_values(|l: Vec<char>| l@),
                    done_block ==> target == (k as int, msgs@.map_values(|x: Vec<char>| x@), crate::adapters::elixir::opt_chars(loc)),
                    !done_block ==> php_block(lv, k as int, msgs@.map_values(|x: Vec<char>| x@)) == target,
                    !done_block ==> loc is None,
                decreases ls.len() - k + (if done_block { 0int } else { 1int }),
            {
                let l = trim_v(&ls[k]);
                assert(l@ == trim(lv[k as int]));
                if l.len() == 0 {
                    k += 1;
                    if k < ls.len() && is_php_location_v(&trim_v(&ls[k])) {
                        loc = Some(trim_v(&ls[k]));
                        k += 1;
                    }
                    done_block = true;
                } else if is_php_location_v(&l) {
                    loc = Some(l);
                    k += 1;
                    done_block = true;
                } else if is_failure_header_v(&l) {
                    done_block = true;
                } else {
                    let ghost before = msgs@.map_values(|x: Vec<char>| x@);
                    msgs.push(l);
                    assert(msgs@.map_values(|x: Vec<char>| x@) =~= before.push(trim(lv[k as int])));
                    k += 1;
                }
            }
            proof {
                if !done_block {
                    assert(php_block(lv, k as int, msgs@.map_values(|x: Vec<char>| x@)) == (k as int, msgs@.map_values(|x: Vec<char>| x@), None::<Seq<char>>));
                }
            }
            let ghost r = PhpRaw { test_method: method@, msgs: msgs@.map_values(|x: Vec<char>| x@), location: crate::adapters::elixir::opt_chars(loc) };
            assert(target == (k as int, r.msgs, r.location));
            let ghost before_done = done;
            if method.len() > 0 {
                assert(php_raw_from(lv, i as int) == seq![r] + php_raw_from(lv, k as int));
                assert(raw[done.len() as int] == r);
                let joined = join_v(&msgs, &chars_of("\n"));
                if !truncatable_v(&joined, 500) {
                    return None;
                }
                let message = truncate_chars(&joined, 500);
                let f = PhpUnitFailure {
                    test_method: string_of(&method),
                    message: string_of(&message),
                    location: match loc {
                        Some(x) => Some(string_of(&x)),
                        None => None,
                    },
                };
                assert(f@ == php_failure(r));
                let ghost before = php_failures_view(out@);
                out.push(f);
                assert(php_failures_view(out@) =~= before.push(f@));
                proof {
                    done = done.push(r);
                }
                assert(php_failures_view(out@) =~= done.map_values(|r: PhpRaw| php_failure(r)));
            } else {
                assert(php_raw_from(lv, i as int) == seq![] + php_raw_from(lv, k as int));
            }
            assert(done + php_raw_from(lv, k as int) =~= raw);
            i = k;
            continue;
        }
        i += 1;
    }
    assert(done =~= raw);
    Some(out)
}

/// Parse the failure blocks of PHPUnit output.
pub fn parse_phpunit_failures(output: &str) -> (r: Vec<PhpUnitFailure>)
    requires
        php_failures_ok(lines(output@)),
    ensures
        php_failures_view(r@) == php_failures(lines(output@)),
{
    let ls = crate::text::lines_of(output);
    assert(ls@.map_values(|l: Vec<char>| l@) =~= lines(output@));
    match php_failures_v(&ls) {
        Some(v) => v,
        None => Vec::new(),
    }
}

// ---------------------------------------------------------------------------
// Errors from failure blocks
// ---------------------------------------------------------------------------

/// What `str::to_lowercase` gives for a text (full Unicode lower-casing).
pub uninterp spec fn lowercase(s: Seq<char>) -> Seq<char>;

/// Text made of ASCII characters only.
pub open spec fn ascii_only(s: Seq<char>) -> bool {
    forall|i: int| 0 <= i < s.len() ==> (#[trigger] s[i] as u32) < 0x80
}

/// `str::to_lowercase`: the result is `lowercase` of the argument; on ASCII
/// text that is the text with `A`..`Z` made `a`..`z` (the Unicode lower
/// case of an ASCII letter is its ASCII lower case, and other ASCII
/// characters have none).  Nothing more of Unicode case mapping is stated.
#[verifier::external_body]
pub(crate) fn to_lowercase(s: &str) -> (r: String)
    ensures
        r@ == lowercase(s@),
        ascii_only(s@) ==> r@ == ascii_lower(s@),
{
    s.to_lowercase()
}

/// An ASCII capital letter.
pub open spec fn is_upper(c: char) -> bool {
    'A' <= c && c <= 'Z'
}

pub open spec fn lower_char(c: char) -> char {
    if is_upper(c) { ((c as u32) + 32) as char } else { c }
}

/// `CanAddTwoNumbers` as `can add two numbers`: a space before each ASCII
/// capital but the first character, letters in ASCII lower case.
pub open spec fn camel_words(s: Seq<char>) -> Seq<char>
    decreases s.len(),
{
    if s.len() == 0 {
        seq![]
    } else {
        camel_words(s.drop_last()) + (if is_upper(s.last()) && s.len() > 1 { seq![' '] } else { seq![] }) + seq![lower_char(s.last())]
    }
}

fn camel_words_v(s: &Vec<char>) -> (r: Vec<char>)
    ensures
        r@ == camel_words(s@),
{
    let mut out: Vec<char> = Vec::new();
    let mut i: usize = 0;
    while i < s.len()
        invariant
            i <= s.len(),
            out@ == camel_words(s@.take(i as int)),
        decreases s.len() - i,
    {
        assert(s@.take(i + 1).drop_last() =~= s@.take(i as int));
        let c = s[i];
        if 'A' <= c && c <= 'Z' && i > 0 {
            out.push(' ');
        }
        let d = if 'A' <= c && c <= 'Z' {
            let b: u8 = (c as u32 + 32) as u8;
            b as char
        } else {
            c
        };
        out.push(d);
        assert(out@ =~= camel_words(s@.take(i + 1)));
        i += 1;
    }
    assert(s@.take(s.len() as int) =~= s@);
    out
}

/// Convert a camelCase name to lower-case words.
pub fn camel_case_to_words(s: &str) -> (r: String)
    ensures
        r@ == camel_words(s@),
{
    string_of(&camel_words_v(&chars_of(s)))
}

/// A testdox name matches a method when the method (without a leading
/// `test`) in words equals the name, both lower-cased.
pub open spec fn testdox_matches_spec(name: Seq<char>, method: Seq<char>) -> bool {
    let m = match strip_prefix(method, "test"@) {
        Some(r) => r,
        None => method,
    };
    lowercase(camel_words(m)) == lowercase(name)
}

fn testdox_matches_v(name: &Vec<char>, method: &Vec<char>) -> (b: bool)
    ensures
        b == testdox_matches_spec(name@, method@),
{
    let m = match strip_prefix_v(method, "test") {
        Some(r) => r,
        None => slice(method, 0, method.len()),
    };
    assert(strip_prefix(method@, "test"@) is None ==> m@ =~= method@);
    let words_lower = to_lowercase(&string_of(&camel_words_v(&m)));
    let name_lower = to_lowercase(&string_of(name));
    eq(&chars_of_string(&words_lower), &chars_of_string(&name_lower))
}

/// Check whether a testdox name matches a test method name.
pub fn testdox_matches(testdox_name: &str, method_name: &str) -> (b: bool)
    ensures
        b == testdox_matches_spec(testdox_name@, method_name@),
{
    testdox_matches_v(&chars_of(testdox_name), &chars_of(method_name))
}

/// The method of `Namespace\Class::method`.
pub open spec fn method_of(tm: Seq<char>) -> Seq<char> {
    match rfind(tm, "::"@) {
        Some(i) => tm.skip(i + 2),
        None => tm,
    }
}

/// A failure names a test when its method equals the name ignoring ASCII
/// case, or matches it as testdox.
pub open spec fn php_name_matches(f: PhpFailView, name: Seq<char>) -> bool {
    ascii_lower(name) == ascii_lower(method_of(f.test_method)) || testdox_matches_spec(name, method_of(f.test_method))
}

pub open spec fn first_php_failure(fs: Seq<PhpFailView>, name: Seq<char>) -> Option<PhpFailView>
    decreases fs.len(),
{
    if fs.len() == 0 {
        None
    } else if php_name_matches(fs[0], name) {
        Some(fs[0])
    } else {
        first_php_failure(fs.drop_first(), name)
    }
}

/// The failure for a test: the first that names it, else the only one.
pub open spec fn php_match(fs: Seq<PhpFailView>, name: Seq<char>) -> Option<PhpFailView> {
    match first_php_failure(fs, name) {
        Some(f) => Some(f),
        None => if fs.len() == 1 { Some(fs[0]) } else { None },
    }
}

pub open spec fn php_enrich_case(c: CaseView, fs: Seq<PhpFailView>) -> CaseView {
    if c.status != TestStatus::Failed || c.error is Some {
        c
    } else {
        match php_match(fs, c.name) {
            Some(f) => CaseView { error: Some(ErrorView { message: f.message, location: f.location }), ..c },
            None => c,
        }
    }
}

pub open spec fn php_enrich(suites: Seq<SuiteView>, fs: Seq<PhpFailView>) -> Seq<SuiteView> {
    suites.map_values(|s: SuiteView| SuiteView { name: s.name, tests: s.tests.map_values(|c: CaseView| php_enrich_case(c, fs)) })
}

fn method_of_v(tm: &Vec<char>) -> (r: Vec<char>)
    ensures
        r@ == method_of(tm@),
{
    let sep = chars_of("::");
    proof {
        reveal_strlit("::");
    }
    let n = tm.len();
    match crate::text::rfind_v(tm, &sep) {
        Some(i) => {
            let r = slice(tm, i + 2, n);
            assert(r@ =~= tm@.skip(i + 2));
            r
        },
        None => slice(tm, 0, n),
    }
}

fn php_match_v(fs: &Vec<PhpUnitFailure>, name: &Vec<char>) -> (r: Option<usize>)
    ensures
        match r {
            Some(k) => k < fs.len() && php_match(php_failures_view(fs@), name@) == Some(fs@[k as int]@),
            None => php_match(php_failures_view(fs@), name@) is None,
        },
{
    let ghost fv = php_failures_view(fs@);
    let lower_name = crate::adapters::zig::ascii_lower_v(name);
    let mut k: usize = 0;
    assert(fv.skip(0) =~= fv);
    while k < fs.len()
        invariant
            k <= fs.len(),
            fv == php_failures_view(fs@),
            lower_name@ == ascii_lower(name@),
            first_php_failure(fv, name@) == first_php_failure(fv.skip(k as int), name@),
        decreases fs.len() - k,
    {
        assert(fv.skip(k as int)[0] == fs@[k as int]@);
        assert(fv.skip(k as int).drop_first() =~= fv.skip(k + 1));
        let method = method_of_v(&chars_of_string(&fs[k].test_method));
        if eq(&lower_name, &crate::adapters::zig::ascii_lower_v(&method)) || testdox_matches_v(name, &method) {
            return Some(k);
        }
        k += 1;
    }
    if fs.len() == 1 {
        Some(0)
    } else {
        None
    }
}

/// Give failed cases without an error the details of their failure block.
pub fn enrich_with_errors(suites: &mut Vec<TestSuite>, failures: &Vec<PhpUnitFailure>)
    ensures
        suites_view(final(suites)@) == php_enrich(suites_view(old(suites)@), php_failures_view(failures@)),
{
    let ghost sv = suites_view(suites@);
    let ghost fv = php_failures_view(failures@);
    let ghost goal = php_enrich(sv, fv);
    let mut rest: Vec<TestSuite> = Vec::new();
    std::mem::swap(&mut rest, suites);
    let ghost orig = rest@;
    let ghost total: int = rest.len() as int;
    let mut i: usize = 0;
    assert(rest@ =~= orig.skip(0));
    assert(suites_view(suites@) =~= goal.take(0));
    while rest.len() > 0
        invariant
            i + rest@.len() == orig.len(),
            total == orig.len(),
            total <= usize::MAX,
            rest@ == orig.skip(i as int),
            sv == suites_view(orig),
            fv == php_failures_view(failures@),
            goal == php_enrich(sv, fv),
            suites_view(suites@) == goal.take(i as int),
        decreases rest.len(),
    {
        let s = rest.remove(0);
        assert(s == orig[i as int]);
        assert(rest@ =~= orig.skip(i + 1));
        let ghost si = sv[i as int];
        let mut tests: Vec<TestCase> = Vec::new();
        let ghost n: int = s.tests.len() as int;
        let mut src = s.tests;
        let mut j: usize = 0;
        assert(src@ =~= s.tests@.skip(0));
        while src.len() > 0
            invariant
                j + src@.len() == s.tests@.len(),
                n == s.tests@.len(),
                n <= usize::MAX,
                si == sv[i as int],
                si.tests == cases_view(s.tests@),
                src@ == s.tests@.skip(j as int),
                fv == php_failures_view(failures@),
                cases_view(tests@) == si.tests.take(j as int).map_values(|c: CaseView| php_enrich_case(c, fv)),
            decreases src.len(),
        {
            let c = src.remove(0);
            assert(c == s.tests@[j as int]);
            assert(src@ =~= s.tests@.skip(j + 1));
            assert(c@ == si.tests[j as int]);
            let e = if c.status != TestStatus::Failed || c.error.is_some() {
                c
            } else {
                match php_match_v(failures, &chars_of_string(&c.name)) {
                    Some(k) => {
                        let f = &failures[k];
                        let message = string_of(&chars_of_string(&f.message));
                        let location = match &f.location {
                            Some(l) => Some(string_of(&chars_of_string(l))),
                            None => None,
                        };
                        TestCase { name: c.name, status: c.status, duration: c.duration, error: Some(TestError { message, location }) }
                    },
                    None => c,
                }
            };
            assert(e@ == php_enrich_case(si.tests[j as int], fv));
            let ghost before = tests@;
            tests.push(e);
            assert(cases_view(tests@) =~= cases_view(before).push(e@));
            assert(si.tests.take(j + 1).map_values(|c: CaseView| php_enrich_case(c, fv))
                =~= si.tests.take(j as int).map_values(|c: CaseView| php_enrich_case(c, fv)).push(php_enrich_case(si.tests[j as int], fv)));
            j += 1;
        }
        assert(si.tests.take(j as int) =~= si.tests);
        let ns = TestSuite { name: s.name, tests };
        let ghost before = suites@;
        suites.push(ns);
        assert(suites_view(suites@) =~= suites_view(before).push(ns@));
        assert(goal.take(i + 1) =~= goal.take(i as int).push(goal[i as int]));
        i += 1;
    }
    assert(goal.take(i as int) =~= goal);
}

// ---------------------------------------------------------------------------
// The run
// ---------------------------------------------------------------------------

/// No testdox suite has a case.
pub open spec fn no_testdox_cases(td: Seq<SuiteView>) -> bool {
    forall|k: int| 0 <= k < td.len() ==> (#[trigger] td[k]).tests.len() == 0
}

/// Output that can be read: testdox names can be cut, summary counts fit
/// when the summary is used, failure messages can be cut.
pub open spec fn php_readable(stdout: Seq<char>, stderr: Seq<char>) -> bool {
    let ls = lines(combined_spec(stdout, stderr));
    &&& testdox_ok(ls)
    &&& no_testdox_cases(testdox_suites(ls)) ==> php_summary_ok(ls)
    &&& php_failures_ok(ls)
}

/// The run PHPUnit output describes (stdout and stderr combined): the
/// testdox suites when they have cases, else the summary suite; failed
/// cases given the details of their failure blocks.
pub open spec fn php_run(stdout: Seq<char>, stderr: Seq<char>, exit_code: i32) -> RunView {
    let ls = lines(combined_spec(stdout, stderr));
    let td = testdox_suites(ls);
    let suites = if no_testdox_cases(td) { seq![php_summary_suite(ls, exit_code)] } else { td };
    RunView {
        suites: php_enrich(suites, php_failures(ls)),
        duration: match php_duration(ls) {
            Some(d) => d,
            None => 0,
        },
        raw_exit_code: exit_code,
    }
}

impl PhpAdapter {
    /// Parse PHPUnit output into a run.
    /// Whether `parse_output` can read this output: testdox names and
    /// failure messages can be cut, and summary counts fit when the summary
    /// is used.
    pub fn readable(&self, stdout: &str, stderr: &str, exit_code: i32) -> (b: bool)
        ensures
            b == php_readable(stdout@, stderr@),
    {
        let combined = combined_chars(stdout, stderr);
        let ls = lines_v(&combined);
        let ghost lv = ls@.map_values(|l: Vec<char>| l@);
        assert(lv =~= lines(combined_spec(stdout@, stderr@)));
        if !testdox_ok_v(&ls) {
            return false;
        }
        let td = testdox_suites_v(&ls);
        let ghost tv = suites_view(td@);
        let mut all_empty = true;
        let mut k: usize = 0;
        while k < td.len()
            invariant
                k <= td.len(),
                tv == suites_view(td@),
                all_empty == (forall|j: int| 0 <= j < k ==> (#[trigger] tv[j]).tests.len() == 0),
            decreases td.len() - k,
        {
            assert(tv[k as int] == td@[k as int]@);
            if td[k].tests.len() > 0 {
                all_empty = false;
            }
            k += 1;
        }
        assert(all_empty == no_testdox_cases(tv));
        if all_empty && !php_summary_ok_v(&ls) {
            return false;
        }
        php_failures_v(&ls).is_some()
    }

    pub fn parse_output(&self, stdout: &str, stderr: &str, exit_code: i32) -> (r: TestRunResult)
        requires
            php_readable(stdout@, stderr@),
        ensures
            r@ == php_run(stdout@, stderr@, exit_code),
    {
        let combined = combined_chars(stdout, stderr);
        let ls = lines_v(&combined);
        let ghost lv = ls@.map_values(|l: Vec<char>| l@);
        assert(lv =~= lines(combined_spec(stdout@, stderr@)));
        let td = testdox_suites_v(&ls);
        let ghost tv = suites_view(td@);
        let mut all_empty = true;
        let mut k: usize = 0;
        while k < td.len()
            invariant
                k <= td.len(),
                tv == suites_view(td@),
                all_empty == (forall|j: int| 0 <= j < k ==> (#[trigger] tv[j]).tests.len() == 0),
            decreases td.len() - k,
        {
            assert(tv[k as int] == td@[k as int]@);
            if td[k].tests.len() > 0 {
                all_empty = false;
            }
            k += 1;
        }
        let mut suites = if all_empty {
            let mut v: Vec<TestSuite> = Vec::new();
            let s = php_summary_suite_v(&ls, exit_code);
            v.push(s);
            assert(suites_view(v@) =~= seq![s@]);
            v
        } else {
            td
        };
        let failures = match php_failures_v(&ls) {
            Some(v) => v,
            None => Vec::new(),
        };
        if failures.len() > 0 {
            enrich_with_errors(&mut suites, &failures);
        } else {
            assert(php_enrich(suites_view(suites@), php_failures_view(failures@)) =~= suites_view(suites@)) by {
                let fv = php_failures_view(failures@);
                assert forall|j: int| 0 <= j < suites@.len() implies suites_view(suites@)[j].tests.map_values(|c: CaseView| php_enrich_case(c, fv)) =~= suites_view(suites@)[j].tests by {
                }
            }
        }
        let duration = match php_duration_v(&ls) {
            Some(d) => d,
            None => Duration::zero(),
        };
        TestRunResult { suites, duration, raw_exit_code: exit_code }
    }
}

} // verus!
