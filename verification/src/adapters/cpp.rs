//! CTest and Google Test output.

use vstd::prelude::*;
use crate::adapters::{
    CaseView, ErrorView, RunView, SuiteView, TestCase, TestError, TestRunResult, TestStatus,
    TestSuite, cases_view, opt_str_view, suites_view,
};
use crate::adapters::elixir::{group_add, group_add_v, opt_chars};
use crate::adapters::javascript::strip_prefix;
use crate::adapters::php::{lowercase, to_lowercase};
use crate::adapters::python::{counted_suite, counted_suite_v};
use crate::adapters::ruby::{cut_to, saturating_sub, strip_prefix_v, truncate_message};
use crate::adapters::util::{chars_in_bytes, chars_in_bytes_ok, utf8_len, utf8_len_v};
use crate::adapters::zig::{leading_digits, leading_digits_v};
use crate::duration::{Duration, decimal_nanos, parse_secs};
use crate::num::{parse_u64, parse_u64_spec, parse_usize, parse_usize_spec};
use crate::text::{
    append, append_str, chars_of, chars_of_string, contains, contains_char, contains_str, ends_with,
    ends_with_str, eq, find, find_char, find_char_v, find_str, join, join_v, lines, lines_v,
    num_prefix, num_prefix_len, occurs_at, rfind, rfind_str, slice, starts_with, starts_with_str,
    string_of, trim, trim_start_char, trim_v, words, words_v,
};

verus! {

/// Adapter for C and C++ projects tested through CTest or Google Test.
pub struct CppAdapter;

impl CppAdapter {
    pub fn new() -> (a: Self) {
        CppAdapter
    }

    /// Name of this adapter for display.
    pub fn name(&self) -> (r: &'static str)
        ensures
            r@ == "C/C++"@,
    {
        "C/C++"
    }
}

impl Default for CppAdapter {
    fn default() -> (a: Self) {
        CppAdapter
    }
}

// ---------------------------------------------------------------------------
// CTest result lines
// ---------------------------------------------------------------------------

/// The test name of a CTest line: after the first `: `, up to ` .` or two
/// spaces, trimmed; `unknown` without `: `.
pub open spec fn ctest_name(t: Seq<char>) -> Seq<char> {
    match find(t, ": "@) {
        Some(idx) => {
            let after = t.skip(idx + 2);
            let end = match find(after, " ."@) {
                Some(e) => e,
                None => match find(after, "  "@) {
                    Some(e) => e,
                    None => after.len() as int,
                },
            };
            trim(after.take(end))
        },
        None => "unknown"@,
    }
}

/// The leading digits and dots of the trimmed text, read as seconds.
pub open spec fn lead_secs(s: Seq<char>) -> Option<nat> {
    let t = trim(s);
    decimal_nanos(t.take(num_prefix_len(t) as int), 1_000_000_000, 9, 1)
}

/// A CTest result line: status, name, and the time after its last run of
/// four spaces.
pub open spec fn ctest_line(t: Seq<char>) -> CaseView {
    let status = if contains(t, "Passed"@) {
        TestStatus::Passed
    } else if contains(t, "Not Run"@) {
        TestStatus::Skipped
    } else {
        TestStatus::Failed
    };
    let duration = match rfind(t, "    "@) {
        Some(idx) => match lead_secs(t.skip(idx)) {
            Some(d) => d,
            None => 0,
        },
        None => 0,
    };
    CaseView { name: ctest_name(t), status: status, duration: duration, error: None }
}

pub open spec fn is_ctest_line(t: Seq<char>) -> bool {
    contains(t, "Test #"@) && (contains(t, "Passed"@) || contains(t, "Failed"@) || contains(t, "Not Run"@))
}

/// The cases of the CTest result lines.
pub open spec fn ctest_cases(ls: Seq<Seq<char>>) -> Seq<CaseView>
    decreases ls.len(),
{
    if ls.len() == 0 {
        seq![]
    } else {
        let c = ctest_cases(ls.drop_last());
        let t = trim(ls.last());
        if is_ctest_line(t) { c.push(ctest_line(t)) } else { c }
    }
}

/// (failed, total) from the words of a line `67% tests passed, 1 tests
/// failed out of 3`, read up to word `k`: the number two words before
/// `failed`, and the word after `of`.
pub open spec fn summary_scan(ws: Seq<Seq<char>>, k: int) -> (int, int)
    decreases k,
{
    if k <= 0 {
        (0, 0)
    } else {
        let prev = summary_scan(ws, k - 1);
        let i = k - 1;
        let f = if ws[i] == "failed"@ && i >= 2 {
            match parse_usize_spec(ws[i - 2]) {
                Some(n) => n as int,
                None => 0,
            }
        } else {
            prev.0
        };
        let t = if ws[i] == "of"@ && i + 1 < ws.len() {
            match parse_usize_spec(ws[i + 1]) {
                Some(n) => n as int,
                None => 0,
            }
        } else {
            prev.1
        };
        (f, t)
    }
}

/// The (passed, failed) counts of a summary line with a positive total.
pub open spec fn ctest_summary_line(t: Seq<char>) -> Option<(nat, nat)> {
    if contains(t, "tests passed"@) && contains(t, "out of"@) {
        let ws = words(t);
        let c = summary_scan(ws, ws.len() as int);
        if c.1 > 0 { Some((saturating_sub(c.1, c.0), c.0 as nat)) } else { None }
    } else {
        None
    }
}

/// The counts of the first summary line with a positive total.
pub open spec fn ctest_summary(ls: Seq<Seq<char>>) -> Option<(nat, nat)>
    decreases ls.len(),
{
    if ls.len() == 0 {
        None
    } else {
        match ctest_summary_line(trim(ls[0])) {
            Some(c) => Some(c),
            None => ctest_summary(ls.drop_first()),
        }
    }
}

/// The suite `tests` of CTest output: the result lines, else the summary
/// counts, else one placeholder case.
pub open spec fn ctest_suite(ls: Seq<Seq<char>>, exit_code: i32) -> SuiteView {
    let cs = ctest_cases(ls);
    if cs.len() > 0 {
        SuiteView { name: "tests"@, tests: cs }
    } else {
        match ctest_summary(ls) {
            Some((p, f)) => counted_suite(p, f, 0, "skipped_test_"@, exit_code),
            None => counted_suite(0, 0, 0, "skipped_test_"@, exit_code),
        }
    }
}

fn ctest_name_v(t: &Vec<char>) -> (r: Vec<char>)
    ensures
        r@ == ctest_name(t@),
{
    proof {
        reveal_strlit(": ");
    }
    match find_str(t, ": ") {
        Some(idx) => {
            assert(occurs_at(t@, ": "@, idx as int));
            let n = t.len();
            let after = slice(t, idx + 2, n);
            assert(after@ =~= t@.skip(idx + 2));
            let end = match find_str(&after, " .") {
                Some(e) => e,
                None => match find_str(&after, "  ") {
                    Some(e) => e,
                    None => after.len(),
                },
            };
            proof {
                crate::text::lemma_find_from_bounds(after@, " ."@, 0);
                crate::text::lemma_find_from_bounds(after@, "  "@, 0);
                reveal_strlit(" .");
                reveal_strlit("  ");
            }
            let h = slice(&after, 0, end);
            assert(h@ =~= after@.take(end as int));
            trim_v(&h)
        },
        None => chars_of("unknown"),
    }
}

/// The test name of a CTest line.
pub fn extract_ctest_name(line: &str) -> (r: String)
    ensures
        r@ == ctest_name(line@),
{
    string_of(&ctest_name_v(&chars_of(line)))
}

fn lead_secs_v(s: &Vec<char>) -> (r: Option<Duration>)
    ensures
        match r {
            Some(d) => lead_secs(s@) == Some(d.ns()),
            None => lead_secs(s@) is None,
        },
{
    let t = trim_v(s);
    parse_secs(&num_prefix(&t))
}

fn ctest_line_v(t: &Vec<char>) -> (r: TestCase)
    ensures
        r@ == ctest_line(t@),
{
    let status = if contains_str(t, "Passed") {
        TestStatus::Passed
    } else if contains_str(t, "Not Run") {
        TestStatus::Skipped
    } else {
        TestStatus::Failed
    };
    let duration = match rfind_str(t, "    ") {
        Some(idx) => {
            let n = t.len();
            proof {
                reveal_strlit("    ");
            }
            assert(occurs_at(t@, "    "@, idx as int));
            let after = slice(t, idx, n);
            assert(after@ =~= t@.skip(idx as int));
            match lead_secs_v(&after) {
                Some(d) => d,
                None => Duration::zero(),
            }
        },
        None => Duration::zero(),
    };
    TestCase { name: string_of(&ctest_name_v(t)), status, duration, error: None }
}

fn ctest_summary_line_v(t: &Vec<char>) -> (r: Option<(usize, usize)>)
    ensures
        match r {
            Some(c) => ctest_summary_line(t@) == Some((c.0 as nat, c.1 as nat)),
            None => ctest_summary_line(t@) is None,
        },
{
    if !(contains_str(t, "tests passed") && contains_str(t, "out of")) {
        return None;
    }
    let ws = words_v(t);
    let ghost wv = ws@.map_values(|w: Vec<char>| w@);
    assert(wv =~= words(t@));
    let mut failed: usize = 0;
    let mut total: usize = 0;
    let mut i: usize = 0;
    while i < ws.len()
        invariant
            i <= ws.len(),
            wv == ws@.map_values(|w: Vec<char>| w@),
            (failed as int, total as int) == summary_scan(wv, i as int),
        decreases ws.len() - i,
    {
        if eq(&ws[i], &chars_of("failed")) && i >= 2 {
            assert(ws@[i - 2]@ == wv[i - 2]);
            failed = match parse_usize(&ws[i - 2]) {
                Some(n) => n,
                None => 0,
            };
        }
        if eq(&ws[i], &chars_of("of")) && i + 1 < ws.len() {
            assert(ws@[i + 1]@ == wv[i + 1]);
            total = match parse_usize(&ws[i + 1]) {
                Some(n) => n,
                None => 0,
            };
        }
        i += 1;
    }
    if total > 0 {
        Some((if total >= failed { total - failed } else { 0 }, failed))
    } else {
        None
    }
}

fn ctest_suite_v(ls: &Vec<Vec<char>>, exit_code: i32) -> (s: TestSuite)
    ensures
        s@ == ctest_suite(ls@.map_values(|l: Vec<char>| l@), exit_code),
{
    let ghost lv = ls@.map_values(|l: Vec<char>| l@);
    let mut tests: Vec<TestCase> = Vec::new();
    let mut i: usize = 0;
    while i < ls.len()
        invariant
            i <= ls.len(),
            lv == ls@.map_values(|l: Vec<char>| l@),
            cases_view(tests@) == ctest_cases(lv.take(i as int)),
        decreases ls.len() - i,
    {
        assert(lv.take(i + 1).drop_last() =~= lv.take(i as int));
        assert(lv.take(i + 1).last() == ls@[i as int]@);
        let t = trim_v(&ls[i]);
        if contains_str(&t, "Test #") && (contains_str(&t, "Passed") || contains_str(&t, "Failed") || contains_str(&t, "Not Run")) {
            let c = ctest_line_v(&t);
            let ghost before = cases_view(tests@);
            tests.push(c);
            assert(cases_view(tests@) =~= before.push(c@));
        }
        i += 1;
    }
    assert(lv.take(ls.len() as int) =~= lv);
    if tests.len() > 0 {
        return TestSuite { name: string_of(&chars_of("tests")), tests };
    }
    let mut k: usize = 0;
    assert(lv.skip(0) =~= lv);
    while k < ls.len()
        invariant
            k <= ls.len(),
            lv == ls@.map_values(|l: Vec<char>| l@),
            ctest_summary(lv) == ctest_summary(lv.skip(k as int)),
            ctest_cases(lv).len() == 0,
        decreases ls.len() - k,
    {
        assert(lv.skip(k as int)[0] == ls@[k as int]@);
        assert(lv.skip(k as int).drop_first() =~= lv.skip(k + 1));
        match ctest_summary_line_v(&trim_v(&ls[k])) {
            Some(c) => {
                return counted_suite_v(c.0, c.1, 0, "skipped_test_", exit_code);
            },
            None => {},
        }
        k += 1;
    }
    counted_suite_v(0, 0, 0, "skipped_test_", exit_code)
}

/// The time of `Total Test time (real) =   0.05 sec`.
pub open spec fn ctest_line_time(l: Seq<char>) -> Option<nat> {
    if contains(l, "Total Test time"@) {
        match find_char(l, '=') {
            Some(idx) => lead_secs(l.skip(idx + 1)),
            None => None,
        }
    } else {
        None
    }
}

/// The first total time reported.
pub open spec fn ctest_duration(ls: Seq<Seq<char>>) -> Option<nat>
    decreases ls.len(),
{
    if ls.len() == 0 {
        None
    } else {
        match ctest_line_time(ls[0]) {
            Some(d) => Some(d),
            None => ctest_duration(ls.drop_first()),
        }
    }
}

fn ctest_duration_v(ls: &Vec<Vec<char>>) -> (r: Option<Duration>)
    ensures
        match r {
            Some(d) => ctest_duration(ls@.map_values(|l: Vec<char>| l@)) == Some(d.ns()),
            None => ctest_duration(ls@.map_values(|l: Vec<char>| l@)) is None,
        },
{
    let ghost lv = ls@.map_values(|l: Vec<char>| l@);
    let mut i: usize = 0;
    assert(lv.skip(0) =~= lv);
    while i < ls.len()
        invariant
            i <= ls.len(),
            lv == ls@.map_values(|l: Vec<char>| l@),
            ctest_duration(lv) == ctest_duration(lv.skip(i as int)),
        decreases ls.len() - i,
    {
        assert(lv.skip(i as int)[0] == ls@[i as int]@);
        assert(lv.skip(i as int).drop_first() =~= lv.skip(i + 1));
        let l = &ls[i];
        if contains_str(l, "Total Test time") {
            match find_char_v(l, '=') {
                Some(idx) => {
                    let n = l.len();
                    let after = slice(l, idx + 1, n);
                    assert(after@ =~= l@.skip(idx + 1));
                    match lead_secs_v(&after) {
                        Some(d) => {
                            return Some(d);
                        },
                        None => {},
                    }
                },
                None => {},
            }
        }
        i += 1;
    }
    None
}

/// The total time CTest reports.
pub fn parse_ctest_duration(output: &str) -> (r: Option<Duration>)
    ensures
        match r {
            Some(d) => ctest_duration(lines(output@)) == Some(d.ns()),
            None => ctest_duration(lines(output@)) is None,
        },
{
    let ls = crate::text::lines_of(output);
    assert(ls@.map_values(|l: Vec<char>| l@) =~= lines(output@));
    ctest_duration_v(&ls)
}

// ---------------------------------------------------------------------------
// Error lines and locations
// ---------------------------------------------------------------------------

/// A lower-cased line mentions an assertion, an error or a crash.
pub open spec fn mentions_cpp_error_spec(lower: Seq<char>) -> bool {
    contains(lower, "assert"@) || contains(lower, "error:"@) || contains(lower, "failure"@)
        || contains(lower, "expected"@) || contains(lower, "actual"@) || contains(lower, "fatal"@)
        || contains(lower, "segfault"@) || contains(lower, "sigsegv"@) || contains(lower, "sigabrt"@)
        || contains(lower, "abort"@)
}

/// A C/C++ error or assertion line: its lower-cased form mentions one.
pub open spec fn is_cpp_error(line: Seq<char>) -> bool {
    mentions_cpp_error_spec(lowercase(line))
}

/// Check whether an already lower-cased line mentions an assertion, an
/// error or a crash.
pub fn mentions_cpp_error(lower: &str) -> (b: bool)
    ensures
        b == mentions_cpp_error_spec(lower@),
{
    let v = chars_of(lower);
    contains_str(&v, "assert") || contains_str(&v, "error:") || contains_str(&v, "failure")
        || contains_str(&v, "expected") || contains_str(&v, "actual") || contains_str(&v, "fatal")
        || contains_str(&v, "segfault") || contains_str(&v, "sigsegv") || contains_str(&v, "sigabrt")
        || contains_str(&v, "abort")
}

/// Check whether a line looks like a C/C++ error or assertion.
pub fn is_cpp_error_line(line: &str) -> (b: bool)
    ensures
        b == is_cpp_error(line@),
{
    let lower = to_lowercase(line);
    mentions_cpp_error(lower.as_str())
}

fn is_cpp_error_v(line: &Vec<char>) -> (b: bool)
    ensures
        b == is_cpp_error(line@),
{
    is_cpp_error_line(string_of(line).as_str())
}

/// Output cut at `max_len` bytes, marked with `...`.
pub fn truncate_output(s: &str, max_len: usize) -> (r: String)
    requires
        utf8_len(s@) > max_len ==> chars_in_bytes(s@, max_len as nat) is Some,
    ensures
        r@ == cut_to(s@, max_len as nat),
{
    truncate_message(s, max_len)
}

/// The first trimmed line that is not blank nor a `---`/`===` rule, else
/// the first line, else `unknown error`.
pub open spec fn meaningful_from(ls: Seq<Seq<char>>) -> Option<Seq<char>>
    decreases ls.len(),
{
    if ls.len() == 0 {
        None
    } else {
        let t = trim(ls[0]);
        if t.len() > 0 && !starts_with(t, "---"@) && !starts_with(t, "==="@) {
            Some(t)
        } else {
            meaningful_from(ls.drop_first())
        }
    }
}

pub open spec fn first_meaningful(s: Seq<char>) -> Seq<char> {
    match meaningful_from(lines(s)) {
        Some(t) => t,
        None => if lines(s).len() > 0 { lines(s)[0] } else { "unknown error"@ },
    }
}

/// The first line of `s` that says something.
pub fn first_meaningful_line(s: &str) -> (r: String)
    ensures
        r@ == first_meaningful(s@),
{
    let ls = crate::text::lines_of(s);
    let ghost lv = ls@.map_values(|l: Vec<char>| l@);
    assert(lv =~= lines(s@));
    let mut i: usize = 0;
    assert(lv.skip(0) =~= lv);
    while i < ls.len()
        invariant
            i <= ls.len(),
            lv == ls@.map_values(|l: Vec<char>| l@),
            meaningful_from(lv) == meaningful_from(lv.skip(i as int)),
            lv == lines(s@),
        decreases ls.len() - i,
    {
        assert(lv.skip(i as int)[0] == ls@[i as int]@);
        assert(lv.skip(i as int).drop_first() =~= lv.skip(i + 1));
        let t = trim_v(&ls[i]);
        if t.len() > 0 && !starts_with_str(&t, "---") && !starts_with_str(&t, "===") {
            return string_of(&t);
        }
        i += 1;
    }
    if ls.len() > 0 {
        assert(ls@[0]@ == lv[0]);
        string_of(&ls[0])
    } else {
        string_of(&chars_of("unknown error"))
    }
}

/// A source extension, in the order they are tried.
pub open spec fn cpp_ext(k: int) -> Seq<char> {
    if k == 0 {
        ".cpp"@
    } else if k == 1 {
        ".cc"@
    } else if k == 2 {
        ".cxx"@
    } else if k == 3 {
        ".c"@
    } else if k == 4 {
        ".h"@
    } else {
        ".hpp"@
    }
}

/// The location `file.ext:NUM` or `file.ext(NUM)` at the first occurrence
/// of the extension, if that occurrence has one.
pub open spec fn location_at_ext(line: Seq<char>, ext: Seq<char>) -> Option<Seq<char>> {
    match find(line, ext) {
        None => None,
        Some(p) => {
            let after = line.skip(p + ext.len());
            match strip_prefix(after, ":"@) {
                Some(ca) => {
                    let ne = leading_digits(ca);
                    if ne > 0 { Some(trim(line.take(p + ext.len() + 1 + ne))) } else { None }
                },
                None => if starts_with(after, "("@) {
                    match find_char(after, ')') {
                        Some(pc) => Some(trim(line.take(p + ext.len() + pc + 1))),
                        None => None,
                    }
                } else {
                    None
                },
            }
        },
    }
}

/// The first location found, trying the extensions in order from `k`.
pub open spec fn location_from(line: Seq<char>, k: int) -> Option<Seq<char>>
    decreases 6 - k,
{
    if k < 0 || k >= 6 {
        None
    } else {
        match location_at_ext(line, cpp_ext(k)) {
            Some(l) => Some(l),
            None => location_from(line, k + 1),
        }
    }
}

pub open spec fn file_line_location(line: Seq<char>) -> Option<Seq<char>> {
    location_from(line, 0)
}

fn cpp_ext_v(k: usize) -> (r: &'static str)
    requires
        k < 6,
    ensures
        r@ == cpp_ext(k as int),
{
    if k == 0 {
        ".cpp"
    } else if k == 1 {
        ".cc"
    } else if k == 2 {
        ".cxx"
    } else if k == 3 {
        ".c"
    } else if k == 4 {
        ".h"
    } else {
        ".hpp"
    }
}

fn location_at_ext_v(line: &Vec<char>, ext: &str) -> (r: Option<Vec<char>>)
    ensures
        match r {
            Some(x) => location_at_ext(line@, ext@) == Some(x@),
            None => location_at_ext(line@, ext@) is None,
        },
{
    let p = match find_str(line, ext) {
        Some(p) => p,
        None => {
            return None;
        },
    };
    assert(occurs_at(line@, ext@, p as int));
    let n = line.len();
    let el = chars_of(ext).len();
    let after = slice(line, p + el, n);
    assert(after@ =~= line@.skip(p + ext@.len()));
    match strip_prefix_v(&after, ":") {
        Some(ca) => {
            proof {
                reveal_strlit(":");
                crate::adapters::zig::lemma_leading_digits(ca@);
            }
            let ne = leading_digits_v(&ca);
            if ne > 0 {
                let h = slice(line, 0, p + el + 1 + ne);
                assert(h@ =~= line@.take(p + ext@.len() + 1 + ne));
                Some(trim_v(&h))
            } else {
                None
            }
        },
        None => {
            if starts_with_str(&after, "(") {
                match find_char_v(&after, ')') {
                    Some(pc) => {
                        let h = slice(line, 0, p + el + pc + 1);
                        assert(h@ =~= line@.take(p + ext@.len() + pc + 1));
                        Some(trim_v(&h))
                    },
                    None => None,
                }
            } else {
                None
            }
        },
    }
}

fn file_line_location_v(line: &Vec<char>) -> (r: Option<Vec<char>>)
    ensures
        match r {
            Some(x) => file_line_location(line@) == Some(x@),
            None => file_line_location(line@) is None,
        },
{
    let mut k: usize = 0;
    while k < 6
        invariant
            k <= 6,
            file_line_location(line@) == location_from(line@, k as int),
        decreases 6 - k,
    {
        match location_at_ext_v(line, cpp_ext_v(k)) {
            Some(l) => {
                return Some(l);
            },
            None => {},
        }
        k += 1;
    }
    None
}

/// The `file.ext:NUM` or `file.ext(NUM)` location of a compiler or
/// assertion message.
pub fn extract_file_line_location(line: &str) -> (r: Option<String>)
    ensures
        match r {
            Some(x) => file_line_location(line@) == Some(x@),
            None => file_line_location(line@) is None,
        },
{
    match file_line_location_v(&chars_of(line)) {
        Some(x) => Some(string_of(&x)),
        None => None,
    }
}

/// The location a trimmed output line gives: a file location, or what
/// follows `at ` when it names a C/C++ file with a colon.
pub open spec fn line_location(t: Seq<char>) -> Option<Seq<char>> {
    match file_line_location(t) {
        Some(l) => Some(l),
        None => match strip_prefix(t, "at "@) {
            Some(rest) => if contains(rest, ":"@) && (contains(rest, ".cpp"@) || contains(rest, ".c"@) || contains(rest, ".h"@)) {
                Some(rest)
            } else {
                None
            },
            None => None,
        },
    }
}

/// The first location any line of the output gives.
pub open spec fn location_in(ls: Seq<Seq<char>>) -> Option<Seq<char>>
    decreases ls.len(),
{
    if ls.len() == 0 {
        None
    } else {
        match line_location(trim(ls[0])) {
            Some(l) => Some(l),
            None => location_in(ls.drop_first()),
        }
    }
}

fn cpp_location_v(ls: &Vec<Vec<char>>) -> (r: Option<Vec<char>>)
    ensures
        match r {
            Some(x) => location_in(ls@.map_values(|l: Vec<char>| l@)) == Some(x@),
            None => location_in(ls@.map_values(|l: Vec<char>| l@)) is None,
        },
{
    let ghost lv = ls@.map_values(|l: Vec<char>| l@);
    let mut i: usize = 0;
    assert(lv.skip(0) =~= lv);
    while i < ls.len()
        invariant
            i <= ls.len(),
            lv == ls@.map_values(|l: Vec<char>| l@),
            location_in(lv) == location_in(lv.skip(i as int)),
        decreases ls.len() - i,
    {
        assert(lv.skip(i as int)[0] == ls@[i as int]@);
        assert(lv.skip(i as int).drop_first() =~= lv.skip(i + 1));
        let t = trim_v(&ls[i]);
        match file_line_location_v(&t) {
            Some(l) => {
                return Some(l);
            },
            None => {},
        }
        match strip_prefix_v(&t, "at ") {
            Some(rest) => {
                if contains_str(&rest, ":") && (contains_str(&rest, ".cpp") || contains_str(&rest, ".c") || contains_str(&rest, ".h")) {
                    return Some(rest);
                }
            },
            None => {},
        }
        i += 1;
    }
    None
}

/// The first location C/C++ output gives.
pub fn extract_cpp_location(output: &str) -> (r: Option<String>)
    ensures
        opt_str_view(r) == location_in(lines(output@)),
{
    let ls = crate::text::lines_of(output);
    assert(ls@.map_values(|l: Vec<char>| l@) =~= lines(output@));
    match cpp_location_v(&ls) {
        Some(x) => Some(string_of(&x)),
        None => None,
    }
}

// ---------------------------------------------------------------------------
// Google Test names and times
// ---------------------------------------------------------------------------

/// `Suite.Test` split at its first dot; a name without a dot is in suite
/// `tests`.
pub open spec fn gtest_name_parts(full: Seq<char>) -> (Seq<char>, Seq<char>) {
    match find_char(full, '.') {
        Some(d) => (full.take(d), full.skip(d + 1)),
        None => ("tests"@, full),
    }
}

fn gtest_name_parts_v(full: &Vec<char>) -> (r: (Vec<char>, Vec<char>))
    ensures
        r.0@ == gtest_name_parts(full@).0,
        r.1@ == gtest_name_parts(full@).1,
{
    match find_char_v(full, '.') {
        Some(d) => {
            let n = full.len();
            let a = slice(full, 0, d);
            let b = slice(full, d + 1, n);
            assert(a@ =~= full@.take(d as int));
            assert(b@ =~= full@.skip(d + 1));
            (a, b)
        },
        None => (chars_of("tests"), slice(full, 0, full.len())),
    }
}

/// Split a Google Test name `Suite.Test` into suite and test.
pub fn split_gtest_name(full_name: &str) -> (r: (String, String))
    ensures
        r.0@ == gtest_name_parts(full_name@).0,
        r.1@ == gtest_name_parts(full_name@).1,
{
    let (a, b) = gtest_name_parts_v(&chars_of(full_name));
    (string_of(&a), string_of(&b))
}

/// A result line whose time can be cut out: no `(`, or one before the last
/// character, which is ASCII.
pub open spec fn gtest_time_ok(t: Seq<char>) -> bool {
    match rfind(t, "("@) {
        Some(p) => p + 1 < t.len() && (t.last() as u32) < 128,
        None => true,
    }
}

/// The time of `[       OK ] Test (123 ms)`: the whole milliseconds
/// between the last `(` and the last character, else zero.
pub open spec fn gtest_time(t: Seq<char>) -> nat {
    match rfind(t, "("@) {
        Some(p) => {
            let inside = trim(t.subrange(p + 1, t.len() - 1));
            if ends_with(inside, "ms"@) {
                match parse_u64_spec(trim(inside.take(inside.len() - 2))) {
                    Some(ms) => (ms * 1_000_000) as nat,
                    None => 0,
                }
            } else {
                0
            }
        },
        None => 0,
    }
}

fn gtest_time_v(t: &Vec<char>) -> (d: Duration)
    requires
        gtest_time_ok(t@),
    ensures
        d.ns() == gtest_time(t@),
{
    proof {
        reveal_strlit("(");
        reveal_strlit("ms");
    }
    match rfind_str(t, "(") {
        Some(p) => {
            let n = t.len();
            let raw = slice(t, p + 1, n - 1);
            let inside = trim_v(&raw);
            if ends_with_str(&inside, "ms") {
                let m = inside.len();
                let h = slice(&inside, 0, m - 2);
                assert(h@ =~= inside@.take(inside@.len() - 2));
                match parse_u64(&trim_v(&h)) {
                    Some(ms) => Duration::from_millis(ms),
                    None => Duration::zero(),
                }
            } else {
                Duration::zero()
            }
        },
        None => Duration::zero(),
    }
}

/// Parse the time of a Google Test `OK`/`FAILED` line.
pub fn parse_gtest_duration(line: &str) -> (d: Duration)
    requires
        gtest_time_ok(line@),
    ensures
        d.ns() == gtest_time(line@),
{
    gtest_time_v(&chars_of(line))
}


// ---------------------------------------------------------------------------
// CTest failure output
// ---------------------------------------------------------------------------

/// A failing CTest test with the output it printed.
#[derive(Debug, Clone)]
pub struct CTestFailure {
    /// The test name from the CTest line.
    pub test_name: String,
    /// The captured output (cut at 800 bytes).
    pub output: String,
    /// The first error or assertion line, if one was seen.
    pub error_line: Option<String>,
}

pub struct CtFailView {
    pub test_name: Seq<char>,
    pub output: Seq<char>,
    pub error_line: Option<Seq<char>>,
}

impl View for CTestFailure {
    type V = CtFailView;

    open spec fn view(&self) -> CtFailView {
        CtFailView { test_name: self.test_name@, output: self.output@, error_line: opt_str_view(self.error_line) }
    }
}

pub open spec fn ct_failures_view(fs: Seq<CTestFailure>) -> Seq<CtFailView> {
    fs.map_values(|f: CTestFailure| f@)
}

/// Reading state of CTest failure output.
pub struct CfState {
    pub out: Seq<CtFailView>,
    pub open: bool,
    pub name: Seq<char>,
    pub lines: Seq<Seq<char>>,
    pub err: Option<Seq<char>>,
}

/// A failed CTest line such as `3/3 Test #3: edge ...***Failed 0.01 sec`.
pub open spec fn is_ctest_fail_header(t: Seq<char>) -> bool {
    contains(t, "Test #"@) && (contains(t, "***Failed"@) || contains(t, "***Exception"@))
}

/// A line that ends a failure's output: a test line, the summary, the total
/// time, or a `Start N:` line.
pub open spec fn is_ctest_stop(t: Seq<char>) -> bool {
    contains(t, "Test #"@) || contains(t, "tests passed"@) || contains(t, "Total Test time"@)
        || (starts_with(t, "Start "@) && contains(t, ":"@))
}

/// An `Output:` marker or a `---` rule, skipped inside a block.
pub open spec fn is_ctest_marker(t: Seq<char>) -> bool {
    t == "Output:"@ || starts_with(t, "---"@)
}

/// The failure of the open block, its output joined and cut at 800 bytes.
pub open spec fn cf_block(st: CfState) -> CtFailView {
    CtFailView { test_name: st.name, output: cut_to(join(st.lines, "\n"@), 800), error_line: st.err }
}

/// An open block with output becomes a failure.
pub open spec fn cf_close(st: CfState) -> CfState {
    CfState { out: if st.open && st.lines.len() > 0 { st.out.push(cf_block(st)) } else { st.out }, open: false, ..st }
}

pub open spec fn cf_header(st: CfState, t: Seq<char>) -> CfState {
    if is_ctest_fail_header(t) {
        CfState { open: true, name: ctest_name(t), lines: seq![], err: None, ..st }
    } else {
        st
    }
}

/// Effect of one (trimmed) line: inside a block, markers are skipped, a
/// stop line closes the block (and may open the next), other non-blank
/// lines are output, the first error line remembered.
pub open spec fn cf_step(st: CfState, l: Seq<char>) -> CfState {
    let t = trim(l);
    if st.open {
        if is_ctest_marker(t) {
            st
        } else if is_ctest_stop(t) {
            cf_header(cf_close(st), t)
        } else if t.len() > 0 {
            CfState { lines: st.lines.push(t), err: if st.err is None && is_cpp_error(t) { Some(t) } else { st.err }, ..st }
        } else {
            st
        }
    } else {
        cf_header(st, t)
    }
}

pub open spec fn cf_empty() -> CfState {
    CfState { out: seq![], open: false, name: seq![], lines: seq![], err: None }
}

pub open spec fn cf_fold(ls: Seq<Seq<char>>) -> CfState
    decreases ls.len(),
{
    if ls.len() == 0 { cf_empty() } else { cf_step(cf_fold(ls.drop_last()), ls.last()) }
}

/// The failures with output, in order.
pub open spec fn ctest_failures(ls: Seq<Seq<char>>) -> Seq<CtFailView> {
    cf_close(cf_fold(ls)).out
}

/// The joined output of a closed block can be cut at 800 bytes.
pub open spec fn cf_close_ok(st: CfState) -> bool {
    st.open && st.lines.len() > 0 ==> {
        let m = join(st.lines, "\n"@);
        utf8_len(m) > 800 ==> chars_in_bytes(m, 800) is Some
    }
}

pub open spec fn cf_ok(ls: Seq<Seq<char>>) -> bool
    decreases ls.len(),
{
    if ls.len() == 0 {
        true
    } else {
        let st = cf_fold(ls.drop_last());
        let t = trim(ls.last());
        cf_ok(ls.drop_last()) && ((st.open && !is_ctest_marker(t) && is_ctest_stop(t)) ==> cf_close_ok(st))
    }
}

proof fn lemma_cf_ok_prefix(ls: Seq<Seq<char>>, n: int)
    requires
        0 < n <= ls.len(),
        cf_ok(ls),
    ensures
        cf_ok(ls.take(n)),
        ({
            let st = cf_fold(ls.take(n - 1));
            let t = trim(ls[n - 1]);
            (st.open && !is_ctest_marker(t) && is_ctest_stop(t)) ==> cf_close_ok(st)
        }),
    decreases ls.len() - n,
{
    if n == ls.len() {
        assert(ls.take(n) =~= ls);
    } else {
        lemma_cf_ok_prefix(ls, n + 1);
        assert(ls.take(n + 1).drop_last() =~= ls.take(n));
    }
    let p = ls.take(n);
    assert(cf_ok(p));
    assert(p.drop_last() =~= ls.take(n - 1));
    assert(p.last() == ls[n - 1]);
}

struct CtReader {
    out: Vec<CTestFailure>,
    open: bool,
    name: Vec<char>,
    lines: Vec<Vec<char>>,
    err: Option<Vec<char>>,
}

impl CtReader {
    spec fn state(&self) -> CfState {
        CfState {
            out: ct_failures_view(self.out@),
            open: self.open,
            name: self.name@,
            lines: self.lines@.map_values(|m: Vec<char>| m@),
            err: opt_chars(self.err),
        }
    }

    fn close_ok(&self) -> (b: bool)
        ensures
            b == cf_close_ok(self.state()),
    {
        if !(self.open && self.lines.len() > 0) {
            return true;
        }
        let joined = join_v(&self.lines, &chars_of("\n"));
        utf8_len_v(&joined) <= 800 || chars_in_bytes_ok(&joined, 800)
    }

    fn close(&mut self)
        requires
            cf_close_ok(old(self).state()),
        ensures
            final(self).state() == cf_close(old(self).state()),
    {
        if self.open && self.lines.len() > 0 {
            let ghost st = self.state();
            let joined = join_v(&self.lines, &chars_of("\n"));
            let output = truncate_message(string_of(&joined).as_str(), 800);
            let f = CTestFailure {
                test_name: string_of(&self.name),
                output,
                error_line: match &self.err {
                    Some(e) => Some(string_of(e)),
                    None => None,
                },
            };
            assert(f@ == cf_block(st));
            let ghost before = ct_failures_view(self.out@);
            self.out.push(f);
            assert(ct_failures_view(self.out@) =~= before.push(f@));
        }
        self.open = false;
    }

    fn header(&mut self, t: &Vec<char>)
        ensures
            final(self).state() == cf_header(old(self).state(), t@),
    {
        if contains_str(t, "Test #") && (contains_str(t, "***Failed") || contains_str(t, "***Exception")) {
            self.open = true;
            self.name = ctest_name_v(t);
            self.lines = Vec::new();
            self.err = None;
            assert(self.lines@.map_values(|m: Vec<char>| m@) =~= seq![]);
        }
    }

    fn step(&mut self, l: &Vec<char>)
        requires
            ({
                let t = trim(l@);
                (old(self).state().open && !is_ctest_marker(t) && is_ctest_stop(t)) ==> cf_close_ok(old(self).state())
            }),
        ensures
            final(self).state() == cf_step(old(self).state(), l@),
    {
        let t = trim_v(l);
        if self.open {
            if eq(&t, &chars_of("Output:")) || starts_with_str(&t, "---") {
                return;
            }
            if contains_str(&t, "Test #") || contains_str(&t, "tests passed") || contains_str(&t, "Total Test time")
                || (starts_with_str(&t, "Start ") && contains_str(&t, ":")) {
                self.close();
                self.header(&t);
                return;
            }
            if t.len() > 0 {
                if self.err.is_none() && is_cpp_error_v(&t) {
                    self.err = Some(slice(&t, 0, t.len()));
                    assert(opt_chars(self.err) =~~= Some(t@));
                }
                let ghost before = self.lines@.map_values(|m: Vec<char>| m@);
                self.lines.push(t);
                assert(self.lines@.map_values(|m: Vec<char>| m@) =~= before.push(trim(l@)));
            }
        } else {
            self.header(&t);
        }
    }
}

fn ctest_failures_v(ls: &Vec<Vec<char>>) -> (r: Vec<CTestFailure>)
    requires
        cf_ok(ls@.map_values(|l: Vec<char>| l@)),
        cf_close_ok(cf_fold(ls@.map_values(|l: Vec<char>| l@))),
    ensures
        ct_failures_view(r@) == ctest_failures(ls@.map_values(|l: Vec<char>| l@)),
{
    let ghost lv = ls@.map_values(|l: Vec<char>| l@);
    let mut rd = CtReader { out: Vec::new(), open: false, name: Vec::new(), lines: Vec::new(), err: None };
    assert(rd.state() =~= cf_empty()) by {
        assert(ct_failures_view(rd.out@) =~= seq![]);
        assert(rd.lines@.map_values(|m: Vec<char>| m@) =~= seq![]);
    }
    let mut i: usize = 0;
    while i < ls.len()
        invariant
            i <= ls.len(),
            lv == ls@.map_values(|l: Vec<char>| l@),
            cf_ok(lv),
            rd.state() == cf_fold(lv.take(i as int)),
        decreases ls.len() - i,
    {
        proof {
            lemma_cf_ok_prefix(lv, i + 1);
        }
        assert(lv.take(i + 1).drop_last() =~= lv.take(i as int));
        assert(lv.take(i + 1).last() == ls@[i as int]@);
        rd.step(&ls[i]);
        i += 1;
    }
    assert(lv.take(ls.len() as int) =~= lv);
    rd.close();
    rd.out
}

fn is_ctest_marker_v(t: &Vec<char>) -> (b: bool)
    ensures
        b == is_ctest_marker(t@),
{
    eq(t, &chars_of("Output:")) || starts_with_str(t, "---")
}

fn is_ctest_stop_v(t: &Vec<char>) -> (b: bool)
    ensures
        b == is_ctest_stop(t@),
{
    contains_str(t, "Test #") || contains_str(t, "tests passed") || contains_str(t, "Total Test time")
        || (starts_with_str(t, "Start ") && contains_str(t, ":"))
}

/// Whether every failure block's output can be cut at 800 bytes.
fn ctest_failures_ok_v(ls: &Vec<Vec<char>>) -> (b: bool)
    ensures
        b == (cf_ok(ls@.map_values(|l: Vec<char>| l@)) && cf_close_ok(cf_fold(ls@.map_values(|l: Vec<char>| l@)))),
{
    let ghost lv = ls@.map_values(|l: Vec<char>| l@);
    let mut rd = CtReader { out: Vec::new(), open: false, name: Vec::new(), lines: Vec::new(), err: None };
    assert(rd.state() =~= cf_empty()) by {
        assert(ct_failures_view(rd.out@) =~= seq![]);
        assert(rd.lines@.map_values(|m: Vec<char>| m@) =~= seq![]);
    }
    let mut i: usize = 0;
    assert(lv.take(0) =~= seq![]);
    while i < ls.len()
        invariant
            i <= ls.len(),
            lv == ls@.map_values(|l: Vec<char>| l@),
            cf_ok(lv.take(i as int)),
            rd.state() == cf_fold(lv.take(i as int)),
        decreases ls.len() - i,
    {
        assert(lv.take(i + 1).drop_last() =~= lv.take(i as int));
        assert(lv.take(i + 1).last() == ls@[i as int]@);
        let t = trim_v(&ls[i]);
        assert(t@ == trim(lv[i as int]));
        if rd.open && !is_ctest_marker_v(&t) && is_ctest_stop_v(&t) && !rd.close_ok() {
            assert(!cf_ok(lv)) by {
                if cf_ok(lv) {
                    lemma_cf_ok_prefix(lv, i + 1);
                }
            }
            return false;
        }
        rd.step(&ls[i]);
        i += 1;
    }
    assert(lv.take(ls.len() as int) =~= lv);
    rd.close_ok()
}

/// Parse the output CTest prints for failing tests (`--output-on-failure`).
pub fn parse_ctest_failures(output: &str) -> (r: Vec<CTestFailure>)
    requires
        cf_ok(lines(output@)),
        cf_close_ok(cf_fold(lines(output@))),
    ensures
        ct_failures_view(r@) == ctest_failures(lines(output@)),
{
    let ls = crate::text::lines_of(output);
    assert(ls@.map_values(|l: Vec<char>| l@) =~= lines(output@));
    ctest_failures_v(&ls)
}

// ---------------------------------------------------------------------------
// Matching failures to cases
// ---------------------------------------------------------------------------

pub open spec fn ct_names(f: CtFailView, test: Seq<char>) -> bool {
    f.test_name == test || contains(test, f.test_name) || contains(f.test_name, test)
}

pub open spec fn first_ct_match(fs: Seq<CtFailView>, test: Seq<char>) -> Option<CtFailView>
    decreases fs.len(),
{
    if fs.len() == 0 {
        None
    } else if ct_names(fs[0], test) {
        Some(fs[0])
    } else {
        first_ct_match(fs.drop_first(), test)
    }
}

/// The failure for a case: the first whose name equals, contains or is
/// contained in the case name, else the only failure.
pub open spec fn ct_match(fs: Seq<CtFailView>, test: Seq<char>) -> Option<CtFailView> {
    match first_ct_match(fs, test) {
        Some(f) => Some(f),
        None => if fs.len() == 1 { Some(fs[0]) } else { None },
    }
}

fn ct_match_v(fs: &[CTestFailure], test: &Vec<char>) -> (r: Option<usize>)
    ensures
        match r {
            Some(k) => k < fs@.len() && ct_match(ct_failures_view(fs@), test@) == Some(fs@[k as int]@),
            None => ct_match(ct_failures_view(fs@), test@) is None,
        },
{
    let ghost fv = ct_failures_view(fs@);
    let mut k: usize = 0;
    assert(fv.skip(0) =~= fv);
    while k < fs.len()
        invariant
            k <= fs@.len(),
            fv == ct_failures_view(fs@),
            first_ct_match(fv, test@) == first_ct_match(fv.skip(k as int), test@),
        decreases fs@.len() - k,
    {
        assert(fv.skip(k as int)[0] == fs@[k as int]@);
        assert(fv.skip(k as int).drop_first() =~= fv.skip(k + 1));
        let tn = chars_of_string(&fs[k].test_name);
        if eq(&tn, test) || crate::text::contains_v(test, &tn) || crate::text::contains_v(&tn, test) {
            return Some(k);
        }
        k += 1;
    }
    if fs.len() == 1 {
        Some(0)
    } else {
        None
    }
}

/// The failure that explains a test.
pub fn find_matching_ctest_failure<'a>(test_name: &str, failures: &'a [CTestFailure]) -> (r: Option<&'a CTestFailure>)
    ensures
        match r {
            Some(f) => ct_match(ct_failures_view(failures@), test_name@) == Some(f@),
            None => ct_match(ct_failures_view(failures@), test_name@) is None,
        },
{
    match ct_match_v(failures, &chars_of(test_name)) {
        Some(k) => Some(&failures[k]),
        None => None,
    }
}

/// A failed case without an error takes its failure's error line (else the
/// first meaningful output line) and the first location in the output.
pub open spec fn ct_enrich_case(c: CaseView, fs: Seq<CtFailView>) -> CaseView {
    if c.status != TestStatus::Failed || c.error is Some {
        c
    } else {
        match ct_match(fs, c.name) {
            Some(f) => CaseView {
                error: Some(ErrorView {
                    message: match f.error_line {
                        Some(e) => e,
                        None => first_meaningful(f.output),
                    },
                    location: location_in(lines(f.output)),
                }),
                ..c
            },
            None => c,
        }
    }
}

pub open spec fn ct_enrich(suites: Seq<SuiteView>, fs: Seq<CtFailView>) -> Seq<SuiteView> {
    suites.map_values(|s: SuiteView| SuiteView { name: s.name, tests: s.tests.map_values(|c: CaseView| ct_enrich_case(c, fs)) })
}

fn ct_enrich_case_v(c: TestCase, fs: &[CTestFailure]) -> (r: TestCase)
    ensures
        r@ == ct_enrich_case(c@, ct_failures_view(fs@)),
{
    if c.status != TestStatus::Failed || c.error.is_some() {
        return c;
    }
    match ct_match_v(fs, &chars_of_string(&c.name)) {
        Some(k) => {
            let f = &fs[k];
            let message = match &f.error_line {
                Some(e) => string_of(&chars_of_string(e)),
                None => first_meaningful_line(f.output.as_str()),
            };
            let location = extract_cpp_location(f.output.as_str());
            TestCase { name: c.name, status: c.status, duration: c.duration, error: Some(TestError { message, location }) }
        },
        None => c,
    }
}

/// Give failed cases without an error the details of their failure.
pub fn enrich_with_errors(suites: &mut Vec<TestSuite>, failures: &[CTestFailure])
    ensures
        suites_view(final(suites)@) == ct_enrich(suites_view(old(suites)@), ct_failures_view(failures@)),
{
    let ghost sv = suites_view(suites@);
    let ghost fv = ct_failures_view(failures@);
    let ghost goal = ct_enrich(sv, fv);
    let mut rest: Vec<TestSuite> = Vec::new();
    std::mem::swap(&mut rest, suites);
    let ghost orig = rest@;
    let ghost total: int = rest.len() as int;
    let mut i: usize = 0;
    assert(rest@ =~= orig.skip(0));
    assert(suites_view(suites@) =~= goal.take(0));
    while rest.len() > 0
        invariant
            i + rest@.len() == orig.len(),
            total == orig.len(),
            total <= usize::MAX,
            rest@ == orig.skip(i as int),
            sv == suites_view(orig),
            fv == ct_failures_view(failures@),
            goal == ct_enrich(sv, fv),
            suites_view(suites@) == goal.take(i as int),
        decreases rest.len(),
    {
        let s = rest.remove(0);
        assert(s == orig[i as int]);
        assert(rest@ =~= orig.skip(i + 1));
        let ghost si = sv[i as int];
        let mut tests: Vec<TestCase> = Vec::new();
        let ghost n: int = s.tests.len() as int;
        let mut src = s.tests;
        let mut j: usize = 0;
        assert(src@ =~= s.tests@.skip(0));
        while src.len() > 0
            invariant
                j + src@.len() == s.tests@.len(),
                n == s.tests@.len(),
                n <= usize::MAX,
                si == sv[i as int],
                si.tests == cases_view(s.tests@),
                src@ == s.tests@.skip(j as int),
                fv == ct_failures_view(failures@),
                cases_view(tests@) == si.tests.take(j as int).map_values(|c: CaseView| ct_enrich_case(c, fv)),
            decreases src.len(),
        {
            let c = src.remove(0);
            assert(c == s.tests@[j as int]);
            assert(src@ =~= s.tests@.skip(j + 1));
            assert(c@ == si.tests[j as int]);
            let e = ct_enrich_case_v(c, failures);
            let ghost before = tests@;
            tests.push(e);
            assert(cases_view(tests@) =~= cases_view(before).push(e@));
            assert(si.tests.take(j + 1).map_values(|c: CaseView| ct_enrich_case(c, fv))
                =~= si.tests.take(j as int).map_values(|c: CaseView| ct_enrich_case(c, fv)).push(ct_enrich_case(si.tests[j as int], fv)));
            j += 1;
        }
        assert(si.tests.take(j as int) =~= si.tests);
        let ns = TestSuite { name: s.name, tests };
        let ghost before = suites@;
        suites.push(ns);
        assert(suites_view(suites@) =~= suites_view(before).push(ns@));
        assert(goal.take(i + 1) =~= goal.take(i as int).push(goal[i as int]));
        i += 1;
    }
    assert(goal.take(i as int) =~= goal);
}


// ---------------------------------------------------------------------------
// Google Test output
// ---------------------------------------------------------------------------

/// Reading state of Google Test output: the suites so far, and the test
/// that is running with the output lines it printed.
pub struct GtState {
    pub groups: Seq<SuiteView>,
    pub open: bool,
    pub suite: Seq<char>,
    pub name: Seq<char>,
    pub outs: Seq<Seq<char>>,
}

/// The first error line of a test's output.
pub open spec fn first_cpp_error(outs: Seq<Seq<char>>) -> Option<Seq<char>>
    decreases outs.len(),
{
    if outs.len() == 0 {
        None
    } else if is_cpp_error(outs[0]) {
        Some(outs[0])
    } else {
        first_cpp_error(outs.drop_first())
    }
}

/// The first location a line of a test's output gives.
pub open spec fn first_file_location(outs: Seq<Seq<char>>) -> Option<Seq<char>>
    decreases outs.len(),
{
    if outs.len() == 0 {
        None
    } else {
        match file_line_location(outs[0]) {
            Some(l) => Some(l),
            None => first_file_location(outs.drop_first()),
        }
    }
}

/// The case of the running test with a status and time; a failed test with
/// output has its first error line (else its first line) as message.
pub open spec fn gt_case(st: GtState, status: TestStatus, d: nat) -> CaseView {
    CaseView {
        name: st.name,
        status: status,
        duration: d,
        error: if status == TestStatus::Failed && st.outs.len() > 0 {
            Some(ErrorView {
                message: match first_cpp_error(st.outs) {
                    Some(l) => l,
                    None => st.outs[0],
                },
                location: first_file_location(st.outs),
            })
        } else {
            None
        },
    }
}

pub open spec fn is_gtest_end(t: Seq<char>) -> bool {
    starts_with(t, "[       OK ]"@) || starts_with(t, "[  FAILED  ]"@)
}

/// The test a `[ RUN      ] Suite.Test` line starts.
pub open spec fn gtest_run_name(t: Seq<char>) -> Seq<char> {
    trim(trim_start_char(trim(t.skip(5)), ']'))
}

/// Effect of one (trimmed) line: `[ RUN` starts a test; `[ OK ]` or
/// `[ FAILED ]` ends it with its time; other lines not in brackets are its
/// output.
pub open spec fn gt_step(st: GtState, l: Seq<char>) -> GtState {
    let t = trim(l);
    if st.open {
        if is_gtest_end(t) {
            let status = if starts_with(t, "[       OK ]"@) { TestStatus::Passed } else { TestStatus::Failed };
            GtState { groups: group_add(st.groups, st.suite, gt_case(st, status, gtest_time(t))), open: false, ..st }
        } else if t.len() > 0 && !starts_with(t, "["@) {
            GtState { outs: st.outs.push(t), ..st }
        } else {
            st
        }
    } else if starts_with(t, "[ RUN"@) {
        let parts = gtest_name_parts(gtest_run_name(t));
        GtState { open: true, suite: parts.0, name: parts.1, outs: seq![], ..st }
    } else {
        st
    }
}

pub open spec fn gt_empty() -> GtState {
    GtState { groups: seq![], open: false, suite: seq![], name: seq![], outs: seq![] }
}

pub open spec fn gt_fold(ls: Seq<Seq<char>>) -> GtState
    decreases ls.len(),
{
    if ls.len() == 0 { gt_empty() } else { gt_step(gt_fold(ls.drop_last()), ls.last()) }
}

/// The Google Test suites, in name order; a test still running at the end
/// counts as passed.
pub open spec fn gtest_suites(ls: Seq<Seq<char>>) -> Seq<SuiteView> {
    let st = gt_fold(ls);
    if st.open { group_add(st.groups, st.suite, gt_case(st, TestStatus::Passed, 0)) } else { st.groups }
}

/// Every line that ends a test has a time that can be cut out.
pub open spec fn gt_ok(ls: Seq<Seq<char>>) -> bool
    decreases ls.len(),
{
    if ls.len() == 0 {
        true
    } else {
        let st = gt_fold(ls.drop_last());
        let t = trim(ls.last());
        gt_ok(ls.drop_last()) && ((st.open && is_gtest_end(t)) ==> gtest_time_ok(t))
    }
}

proof fn lemma_gt_ok_prefix(ls: Seq<Seq<char>>, n: int)
    requires
        0 < n <= ls.len(),
        gt_ok(ls),
    ensures
        gt_ok(ls.take(n)),
        ({
            let st = gt_fold(ls.take(n - 1));
            let t = trim(ls[n - 1]);
            (st.open && is_gtest_end(t)) ==> gtest_time_ok(t)
        }),
    decreases ls.len() - n,
{
    if n == ls.len() {
        assert(ls.take(n) =~= ls);
    } else {
        lemma_gt_ok_prefix(ls, n + 1);
        assert(ls.take(n + 1).drop_last() =~= ls.take(n));
    }
    let p = ls.take(n);
    assert(gt_ok(p));
    assert(p.drop_last() =~= ls.take(n - 1));
    assert(p.last() == ls[n - 1]);
}

fn trim_start_char_v(s: &Vec<char>, c: char) -> (r: Vec<char>)
    ensures
        r@ == trim_start_char(s@, c),
{
    let mut k: usize = 0;
    assert(s@.skip(0) =~= s@);
    while k < s.len() && s[k] == c
        invariant
            k <= s.len(),
            trim_start_char(s@, c) == trim_start_char(s@.skip(k as int), c),
        decreases s.len() - k,
    {
        assert(s@.skip(k as int).drop_first() =~= s@.skip(k + 1));
        k += 1;
    }
    let n = s.len();
    let r = slice(s, k, n);
    assert(r@ =~= s@.skip(k as int));
    r
}

struct GtReader {
    groups: Vec<TestSuite>,
    open: bool,
    suite: Vec<char>,
    name: Vec<char>,
    outs: Vec<Vec<char>>,
}

impl GtReader {
    spec fn state(&self) -> GtState {
        GtState {
            groups: suites_view(self.groups@),
            open: self.open,
            suite: self.suite@,
            name: self.name@,
            outs: self.outs@.map_values(|m: Vec<char>| m@),
        }
    }

    fn case(&self, status: TestStatus, d: Duration) -> (c: TestCase)
        ensures
            c@ == gt_case(self.state(), status, d.ns()),
    {
        let ghost ov = self.outs@.map_values(|m: Vec<char>| m@);
        let error = if status == TestStatus::Failed && self.outs.len() > 0 {
            let mut msg: Option<usize> = None;
            let mut k: usize = 0;
            assert(ov.skip(0) =~= ov);
            while k < self.outs.len()
                invariant
                    k <= self.outs.len(),
                    ov == self.outs@.map_values(|m: Vec<char>| m@),
                    msg is None ==> first_cpp_error(ov) == first_cpp_error(ov.skip(k as int)),
                    msg matches Some(j) ==> j < self.outs.len() && first_cpp_error(ov) == Some(ov[j as int]),
                decreases self.outs.len() - k,
            {
                if msg.is_none() {
                    assert(ov.skip(k as int)[0] == ov[k as int]);
                    assert(ov.skip(k as int).drop_first() =~= ov.skip(k + 1));
                    if is_cpp_error_v(&self.outs[k]) {
                        msg = Some(k);
                    }
                }
                k += 1;
            }
            let message = match msg {
                Some(j) => string_of(&self.outs[j]),
                None => string_of(&self.outs[0]),
            };
            let mut loc: Option<Vec<char>> = None;
            let mut k2: usize = 0;
            while k2 < self.outs.len()
                invariant
                    k2 <= self.outs.len(),
                    ov == self.outs@.map_values(|m: Vec<char>| m@),
                    loc is None ==> first_file_location(ov) == first_file_location(ov.skip(k2 as int)),
                    loc is Some ==> first_file_location(ov) == opt_chars(loc),
                decreases self.outs.len() - k2,
            {
                if loc.is_none() {
                    assert(ov.skip(k2 as int)[0] == ov[k2 as int]);
                    assert(ov.skip(k2 as int).drop_first() =~= ov.skip(k2 + 1));
                    loc = file_line_location_v(&self.outs[k2]);
                }
                k2 += 1;
            }
            let location = match loc {
                Some(l) => Some(string_of(&l)),
                None => None,
            };
            Some(TestError { message, location })
        } else {
            None
        };
        TestCase { name: string_of(&self.name), status, duration: d, error }
    }

    fn step(&mut self, l: &Vec<char>)
        requires
            (old(self).state().open && is_gtest_end(trim(l@))) ==> gtest_time_ok(trim(l@)),
        ensures
            final(self).state() == gt_step(old(self).state(), l@),
    {
        let t = trim_v(l);
        if self.open {
            if starts_with_str(&t, "[       OK ]") || starts_with_str(&t, "[  FAILED  ]") {
                let status = if starts_with_str(&t, "[       OK ]") { TestStatus::Passed } else { TestStatus::Failed };
                let c = self.case(status, gtest_time_v(&t));
                let key = slice(&self.suite, 0, self.suite.len());
                assert(key@ =~= self.suite@);
                group_add_v(&mut self.groups, &key, c);
                self.open = false;
            } else if t.len() > 0 && !starts_with_str(&t, "[") {
                let ghost before = self.outs@.map_values(|m: Vec<char>| m@);
                self.outs.push(t);
                assert(self.outs@.map_values(|m: Vec<char>| m@) =~= before.push(trim(l@)));
            }
        } else if starts_with_str(&t, "[ RUN") {
            proof {
                reveal_strlit("[ RUN");
            }
            let n = t.len();
            let rest = slice(&t, 5, n);
            assert(rest@ =~= t@.skip(5));
            let full = trim_v(&trim_start_char_v(&trim_v(&rest), ']'));
            let (su, nm) = gtest_name_parts_v(&full);
            self.open = true;
            self.suite = su;
            self.name = nm;
            self.outs = Vec::new();
            assert(self.outs@.map_values(|m: Vec<char>| m@) =~= seq![]);
        }
    }
}

fn gtest_time_ok_v(t: &Vec<char>) -> (b: bool)
    ensures
        b == gtest_time_ok(t@),
{
    match rfind_str(t, "(") {
        Some(p) => t.len() > 0 && p < t.len() - 1 && (t[t.len() - 1] as u32) < 128,
        None => true,
    }
}

/// Whether every line that ends a Google Test case has a readable time.
fn gt_ok_v(ls: &Vec<Vec<char>>) -> (b: bool)
    ensures
        b == gt_ok(ls@.map_values(|l: Vec<char>| l@)),
{
    let ghost lv = ls@.map_values(|l: Vec<char>| l@);
    let mut rd = GtReader { groups: Vec::new(), open: false, suite: Vec::new(), name: Vec::new(), outs: Vec::new() };
    assert(rd.state() =~= gt_empty()) by {
        assert(suites_view(rd.groups@) =~= seq![]);
        assert(rd.outs@.map_values(|m: Vec<char>| m@) =~= seq![]);
    }
    let mut i: usize = 0;
    assert(lv.take(0) =~= seq![]);
    while i < ls.len()
        invariant
            i <= ls.len(),
            lv == ls@.map_values(|l: Vec<char>| l@),
            gt_ok(lv.take(i as int)),
            rd.state() == gt_fold(lv.take(i as int)),
        decreases ls.len() - i,
    {
        assert(lv.take(i + 1).drop_last() =~= lv.take(i as int));
        assert(lv.take(i + 1).last() == ls@[i as int]@);
        let t = trim_v(&ls[i]);
        assert(t@ == trim(lv[i as int]));
        if rd.open && (starts_with_str(&t, "[       OK ]") || starts_with_str(&t, "[  FAILED  ]")) && !gtest_time_ok_v(&t) {
            assert(!gt_ok(lv)) by {
                if gt_ok(lv) {
                    lemma_gt_ok_prefix(lv, i + 1);
                }
            }
            return false;
        }
        rd.step(&ls[i]);
        i += 1;
    }
    assert(lv.take(ls.len() as int) =~= lv);
    true
}

fn gtest_suites_v(ls: &Vec<Vec<char>>) -> (r: Vec<TestSuite>)
    requires
        gt_ok(ls@.map_values(|l: Vec<char>| l@)),
    ensures
        suites_view(r@) == gtest_suites(ls@.map_values(|l: Vec<char>| l@)),
{
    let ghost lv = ls@.map_values(|l: Vec<char>| l@);
    let mut rd = GtReader { groups: Vec::new(), open: false, suite: Vec::new(), name: Vec::new(), outs: Vec::new() };
    assert(rd.state() =~= gt_empty()) by {
        assert(suites_view(rd.groups@) =~= seq![]);
        assert(rd.outs@.map_values(|m: Vec<char>| m@) =~= seq![]);
    }
    let mut i: usize = 0;
    while i < ls.len()
        invariant
            i <= ls.len(),
            lv == ls@.map_values(|l: Vec<char>| l@),
            gt_ok(lv),
            rd.state() == gt_fold(lv.take(i as int)),
        decreases ls.len() - i,
    {
        proof {
            lemma_gt_ok_prefix(lv, i + 1);
        }
        assert(lv.take(i + 1).drop_last() =~= lv.take(i as int));
        assert(lv.take(i + 1).last() == ls@[i as int]@);
        rd.step(&ls[i]);
        i += 1;
    }
    assert(lv.take(ls.len() as int) =~= lv);
    if rd.open {
        let c = rd.case(TestStatus::Passed, Duration::zero());
        let key = slice(&rd.suite, 0, rd.suite.len());
        assert(key@ =~= rd.suite@);
        group_add_v(&mut rd.groups, &key, c);
    }
    rd.groups
}

/// Parse Google Test output into one suite per test suite, in name order.
pub fn parse_gtest_output(output: &str) -> (r: Vec<TestSuite>)
    requires
        gt_ok(lines(output@)),
    ensures
        suites_view(r@) == gtest_suites(lines(output@)),
{
    let ls = crate::text::lines_of(output);
    assert(ls@.map_values(|l: Vec<char>| l@) =~= lines(output@));
    gtest_suites_v(&ls)
}

/// Parse CTest output into the suite `tests`.
pub fn parse_ctest_output(output: &str, exit_code: i32) -> (r: Vec<TestSuite>)
    ensures
        suites_view(r@) == seq![ctest_suite(lines(output@), exit_code)],
{
    let ls = crate::text::lines_of(output);
    assert(ls@.map_values(|l: Vec<char>| l@) =~= lines(output@));
    let s = ctest_suite_v(&ls, exit_code);
    let mut v: Vec<TestSuite> = Vec::new();
    v.push(s);
    assert(suites_view(v@) =~= seq![s@]);
    v
}

// ---------------------------------------------------------------------------
// The run
// ---------------------------------------------------------------------------

/// Output whose failure output can be cut and whose test times can be cut
/// out.
pub open spec fn cpp_readable(stdout: Seq<char>, stderr: Seq<char>) -> bool {
    let ls = lines(stdout + seq!['\n'] + stderr);
    &&& cf_ok(ls)
    &&& cf_close_ok(cf_fold(ls))
    &&& gt_ok(ls)
}

/// The run CTest or Google Test output describes (stdout and stderr joined
/// by a newline): the Google Test suites when there are any, else the CTest
/// suite with its failures' details.
pub open spec fn cpp_run(stdout: Seq<char>, stderr: Seq<char>, exit_code: i32) -> RunView {
    let ls = lines(stdout + seq!['\n'] + stderr);
    let base = seq![ctest_suite(ls, exit_code)];
    let fs = ctest_failures(ls);
    let ct = if fs.len() > 0 { ct_enrich(base, fs) } else { base };
    let gt = gtest_suites(ls);
    RunView {
        suites: if gt.len() > 0 { gt } else { ct },
        duration: match ctest_duration(ls) {
            Some(d) => d,
            None => 0,
        },
        raw_exit_code: exit_code,
    }
}

impl CppAdapter {
    /// Parse CTest or Google Test output into a run.
    /// Whether `parse_output` can read this output: failure output can be
    /// cut at 800 bytes and Google Test times can be cut out.
    pub fn readable(&self, stdout: &str, stderr: &str, exit_code: i32) -> (b: bool)
        ensures
            b == cpp_readable(stdout@, stderr@),
    {
        let mut combined = chars_of(stdout);
        combined.push('\n');
        append_str(&mut combined, stderr);
        assert(combined@ =~= stdout@ + seq!['\n'] + stderr@);
        let ls = lines_v(&combined);
        assert(ls@.map_values(|l: Vec<char>| l@) =~= lines(stdout@ + seq!['\n'] + stderr@));
        ctest_failures_ok_v(&ls) && gt_ok_v(&ls)
    }

    pub fn parse_output(&self, stdout: &str, stderr: &str, exit_code: i32) -> (r: TestRunResult)
        requires
            cpp_readable(stdout@, stderr@),
        ensures
            r@ == cpp_run(stdout@, stderr@, exit_code),
    {
        let mut combined = chars_of(stdout);
        combined.push('\n');
        append_str(&mut combined, stderr);
        assert(combined@ =~= stdout@ + seq!['\n'] + stderr@);
        let ls = lines_v(&combined);
        let ghost lv = ls@.map_values(|l: Vec<char>| l@);
        assert(lv =~= lines(stdout@ + seq!['\n'] + stderr@));
        let mut suites: Vec<TestSuite> = Vec::new();
        let s = ctest_suite_v(&ls, exit_code);
        suites.push(s);
        assert(suites_view(suites@) =~= seq![s@]);
        let failures = ctest_failures_v(&ls);
        if failures.len() > 0 {
            enrich_with_errors(&mut suites, failures.as_slice());
        }
        let gtest = gtest_suites_v(&ls);
        if gtest.len() > 0 {
            suites = gtest;
        }
        let duration = match ctest_duration_v(&ls) {
            Some(d) => d,
            None => Duration::zero(),
        };
        TestRunResult { suites, duration, raw_exit_code: exit_code }
    }
}

} // verus!
