//! `zig build test` output.

use vstd::prelude::*;
use crate::adapters::{
    CaseView, ErrorView, RunView, SuiteView, TestCase, TestError, TestRunResult, TestStatus,
    TestSuite, cases_view, opt_str_view, suites_view,
};
use crate::adapters::python::{counted_suite, counted_suite_v, first_piece, first_piece_v};
use crate::adapters::util::{combined_chars, combined_spec, truncatable, truncatable_v, truncate_chars, truncated};
use crate::duration::{Duration, decimal_nanos, parse_secs};
use crate::num::{parse_usize, parse_usize_spec};
use crate::text::{
    append_str, chars_of, chars_of_string, contains, contains_str, ends_with, ends_with_str, find,
    find_str, is_digit, lines, lines_v, num_prefix, num_prefix_len, occurs_at, rfind, slice,
    split_char, split_char_v, starts_with, starts_with_str, string_of, trim, trim_end_char,
    trim_end_char_v, trim_v, words, words_v,
};

verus! {

/// Adapter for Zig projects tested with `zig build test`.
pub struct ZigAdapter;

impl ZigAdapter {
    pub fn new() -> (a: Self) {
        ZigAdapter
    }

    /// Name of this adapter for display.
    pub fn name(&self) -> (r: &'static str)
        ensures
            r@ == "Zig"@,
    {
        "Zig"
    }
}

impl Default for ZigAdapter {
    fn default() -> (a: Self) {
        ZigAdapter
    }
}

// ---------------------------------------------------------------------------
// Result lines and summary
// ---------------------------------------------------------------------------

/// Status of a `Test [n/m] name... OK` line.
pub open spec fn zig_line_status(t: Seq<char>) -> Option<TestStatus> {
    if !starts_with(t, "Test ["@) {
        None
    } else if ends_with(t, "OK"@) {
        Some(TestStatus::Passed)
    } else if ends_with(t, "FAIL"@) || contains(t, "FAIL"@) {
        Some(TestStatus::Failed)
    } else if ends_with(t, "SKIP"@) {
        Some(TestStatus::Skipped)
    } else {
        None
    }
}

/// The test name of a result line: between `] ` and the last `...`.
pub open spec fn zig_test_name(t: Seq<char>) -> Seq<char> {
    match find(t, "] "@) {
        Some(b) => {
            let after = t.skip(b + 2);
            match rfind(after, "..."@) {
                Some(i) => trim(after.take(i)),
                None => after,
            }
        },
        None => "unknown"@,
    }
}

fn zig_test_name_v(t: &Vec<char>) -> (r: Vec<char>)
    ensures
        r@ == zig_test_name(t@),
{
    match find_str(t, "] ") {
        Some(b) => {
            proof {
                reveal_strlit("] ");
            }
            let n = t.len();
            let after = slice(t, b + 2, n);
            assert(after@ =~= t@.skip(b + 2));
            let dots = chars_of("...");
            match crate::text::rfind_v(&after, &dots) {
                Some(i) => {
                    assert(occurs_at(after@, dots@, i as int));
                    let head = slice(&after, 0, i);
                    assert(head@ =~= after@.take(i as int));
                    trim_v(&head)
                },
                None => after,
            }
        },
        None => chars_of("unknown"),
    }
}

/// Extract the test name from `Test [N/M] name... FAIL`.
pub fn extract_zig_test_name(line: &str) -> (r: String)
    ensures
        r@ == zig_test_name(line@),
{
    string_of(&zig_test_name_v(&chars_of(line)))
}

/// The cases of the result lines, in order.
pub open spec fn zig_cases(ls: Seq<Seq<char>>) -> Seq<CaseView>
    decreases ls.len(),
{
    if ls.len() == 0 {
        seq![]
    } else {
        let t = trim(ls.last());
        zig_cases(ls.drop_last()) + match zig_line_status(t) {
            Some(s) => seq![CaseView { name: zig_test_name(t), status: s, duration: 0, error: None }],
            None => seq![],
        }
    }
}

/// `(passed, failed)` after one `;`-separated part such as `"1 failed."`.
pub open spec fn zig_part(acc: (usize, usize), part: Seq<char>) -> (usize, usize) {
    let w = words(trim_end_char(trim(part), '.'));
    if w.len() >= 2 {
        let count: usize = match parse_usize_spec(w[0]) {
            Some(n) => n,
            None => 0,
        };
        if starts_with(w[1], "passed"@) {
            (count, acc.1)
        } else if starts_with(w[1], "failed"@) {
            (acc.0, count)
        } else {
            acc
        }
    } else {
        acc
    }
}

pub open spec fn zig_parts(ps: Seq<Seq<char>>) -> (usize, usize)
    decreases ps.len(),
{
    if ps.len() == 0 {
        (0, 0)
    } else {
        zig_part(zig_parts(ps.drop_last()), ps.last())
    }
}

/// `(passed, failed)` from the first summary line: `All 3 tests passed.`
/// (nothing when the count does not read) or `2 passed; 1 failed.`.
pub open spec fn zig_summary(ls: Seq<Seq<char>>) -> Option<(usize, usize)>
    decreases ls.len(),
{
    if ls.len() == 0 {
        None
    } else {
        let t = trim(ls[0]);
        if starts_with(t, "All "@) && contains(t, "passed"@) && words(t).len() >= 2 {
            match parse_usize_spec(words(t)[1]) {
                Some(n) => Some((n, 0)),
                None => None,
            }
        } else if contains(t, "passed"@) && contains(t, "failed"@) {
            Some(zig_parts(split_char(t, ';')))
        } else {
            zig_summary(ls.drop_first())
        }
    }
}

/// The one suite of a run: the result lines' cases, else cases made from the
/// summary counts.
pub open spec fn zig_suite(ls: Seq<Seq<char>>, exit_code: i32) -> SuiteView {
    let cases = zig_cases(ls);
    if cases.len() > 0 {
        SuiteView { name: "tests"@, tests: cases }
    } else {
        match zig_summary(ls) {
            Some((p, f)) => counted_suite(p as nat, f as nat, 0, "skipped_test_"@, exit_code),
            None => counted_suite(0, 0, 0, "skipped_test_"@, exit_code),
        }
    }
}

fn zig_cases_v(ls: &Vec<Vec<char>>) -> (r: Vec<TestCase>)
    ensures
        cases_view(r@) == zig_cases(ls@.map_values(|l: Vec<char>| l@)),
{
    let ghost lv = ls@.map_values(|l: Vec<char>| l@);
    let mut out: Vec<TestCase> = Vec::new();
    let mut i: usize = 0;
    assert(cases_view(out@) =~= seq![]);
    while i < ls.len()
        invariant
            i <= ls.len(),
            lv == ls@.map_values(|l: Vec<char>| l@),
            cases_view(out@) == zig_cases(lv.take(i as int)),
        decreases ls.len() - i,
    {
        assert(lv.take(i + 1).drop_last() =~= lv.take(i as int));
        assert(lv.take(i + 1).last() == ls@[i as int]@);
        let t = trim_v(&ls[i]);
        let status = if !starts_with_str(&t, "Test [") {
            None
        } else if ends_with_str(&t, "OK") {
            Some(TestStatus::Passed)
        } else if ends_with_str(&t, "FAIL") || contains_str(&t, "FAIL") {
            Some(TestStatus::Failed)
        } else if ends_with_str(&t, "SKIP") {
            Some(TestStatus::Skipped)
        } else {
            None
        };
        let ghost before = cases_view(out@);
        match status {
            Some(s) => {
                let c = TestCase { name: string_of(&zig_test_name_v(&t)), status: s, duration: Duration::zero(), error: None };
                out.push(c);
                assert(cases_view(out@) =~= before + seq![c@]);
            },
            None => {
                assert(cases_view(out@) =~= before + seq![]);
            },
        }
        i += 1;
    }
    assert(lv.take(ls.len() as int) =~= lv);
    out
}

fn zig_summary_v(ls: &Vec<Vec<char>>) -> (r: Option<(usize, usize)>)
    ensures
        r == zig_summary(ls@.map_values(|l: Vec<char>| l@)),
{
    let ghost lv = ls@.map_values(|l: Vec<char>| l@);
    let mut i: usize = 0;
    assert(lv.skip(0) =~= lv);
    while i < ls.len()
        invariant
            i <= ls.len(),
            lv == ls@.map_values(|l: Vec<char>| l@),
            zig_summary(lv) == zig_summary(lv.skip(i as int)),
        decreases ls.len() - i,
    {
        assert(lv.skip(i as int)[0] == ls@[i as int]@);
        assert(lv.skip(i as int).drop_first() =~= lv.skip(i + 1));
        let t = trim_v(&ls[i]);
        let w = words_v(&t);
        let ghost wv = w@.map_values(|x: Vec<char>| x@);
        if starts_with_str(&t, "All ") && contains_str(&t, "passed") && w.len() >= 2 {
            assert(w@[1]@ == wv[1]);
            return match parse_usize(&w[1]) {
                Some(n) => Some((n, 0)),
                None => None,
            };
        }
        if contains_str(&t, "passed") && contains_str(&t, "failed") {
            let parts = split_char_v(&t, ';');
            let ghost pv = parts@.map_values(|x: Vec<char>| x@);
            let mut acc: (usize, usize) = (0, 0);
            let mut j: usize = 0;
            while j < parts.len()
                invariant
                    j <= parts.len(),
                    pv == parts@.map_values(|x: Vec<char>| x@),
                    acc == zig_parts(pv.take(j as int)),
                decreases parts.len() - j,
            {
                assert(pv.take(j + 1).drop_last() =~= pv.take(j as int));
                assert(pv.take(j + 1).last() == parts@[j as int]@);
                let pw = words_v(&trim_end_char_v(&trim_v(&parts[j]), '.'));
                let ghost pwv = pw@.map_values(|x: Vec<char>| x@);
                if pw.len() >= 2 {
                    assert(pw@[0]@ == pwv[0]);
                    assert(pw@[1]@ == pwv[1]);
                    let count: usize = match parse_usize(&pw[0]) {
                        Some(n) => n,
                        None => 0,
                    };
                    if starts_with_str(&pw[1], "passed") {
                        acc = (count, acc.1);
                    } else if starts_with_str(&pw[1], "failed") {
                        acc = (acc.0, count);
                    }
                }
                j += 1;
            }
            assert(pv.take(parts.len() as int) =~= pv);
            return Some(acc);
        }
        i += 1;
    }
    None
}

fn zig_suite_v(ls: &Vec<Vec<char>>, exit_code: i32) -> (s: TestSuite)
    ensures
        s@ == zig_suite(ls@.map_values(|l: Vec<char>| l@), exit_code),
{
    let cases = zig_cases_v(ls);
    if cases.len() > 0 {
        TestSuite { name: string_of(&chars_of("tests")), tests: cases }
    } else {
        match zig_summary_v(ls) {
            Some((p, f)) => counted_suite_v(p, f, 0, "skipped_test_", exit_code),
            None => counted_suite_v(0, 0, 0, "skipped_test_", exit_code),
        }
    }
}

// ---------------------------------------------------------------------------
// Run duration
// ---------------------------------------------------------------------------

/// Seconds after a `time:` label.
pub open spec fn time_secs(l: Seq<char>) -> Option<nat> {
    match find(l, "time:"@) {
        Some(idx) => {
            let after = trim(l.skip(idx + 5));
            decimal_nanos(after.take(num_prefix_len(after) as int), 1_000_000_000, 9, 1)
        },
        None => None,
    }
}

/// The first `time:` that reads as a number of seconds.
pub open spec fn zig_duration(ls: Seq<Seq<char>>) -> Option<nat>
    decreases ls.len(),
{
    if ls.len() == 0 {
        None
    } else {
        match time_secs(ls[0]) {
            Some(d) => Some(d),
            None => zig_duration(ls.drop_first()),
        }
    }
}

fn zig_duration_v(ls: &Vec<Vec<char>>) -> (r: Option<Duration>)
    ensures
        match r {
            Some(d) => zig_duration(ls@.map_values(|l: Vec<char>| l@)) == Some(d.ns()),
            None => zig_duration(ls@.map_values(|l: Vec<char>| l@)) is None,
        },
{
    let ghost lv = ls@.map_values(|l: Vec<char>| l@);
    let mut i: usize = 0;
    assert(lv.skip(0) =~= lv);
    while i < ls.len()
        invariant
            i <= ls.len(),
            lv == ls@.map_values(|l: Vec<char>| l@),
            zig_duration(lv) == zig_duration(lv.skip(i as int)),
        decreases ls.len() - i,
    {
        assert(lv.skip(i as int)[0] == ls@[i as int]@);
        assert(lv.skip(i as int).drop_first() =~= lv.skip(i + 1));
        let l = &ls[i];
        match find_str(l, "time:") {
            Some(idx) => {
                proof {
                    reveal_strlit("time:");
                }
                let n = l.len();
                let after = slice(l, idx + 5, n);
                assert(after@ =~= l@.skip(idx + 5));
                if let Some(d) = parse_secs(&num_prefix(&trim_v(&after))) {
                    return Some(d);
                }
            },
            None => {},
        }
        i += 1;
    }
    None
}

// ---------------------------------------------------------------------------
// Source locations and messages
// ---------------------------------------------------------------------------

/// Number of leading ASCII digits of `s`.
pub open spec fn leading_digits(s: Seq<char>) -> nat
    decreases s.len(),
{
    if s.len() > 0 && is_digit(s[0]) { 1 + leading_digits(s.drop_first()) } else { 0 }
}

pub proof fn lemma_leading_digits(s: Seq<char>)
    ensures
        leading_digits(s) <= s.len(),
    decreases s.len(),
{
    if s.len() > 0 && is_digit(s[0]) {
        lemma_leading_digits(s.drop_first());
    }
}

pub(crate) fn leading_digits_v(s: &Vec<char>) -> (n: usize)
    ensures
        n == leading_digits(s@),
{
    let mut k: usize = 0;
    assert(s@.skip(0) =~= s@);
    while k < s.len() && crate::text::is_ascii_digit(s[k])
        invariant
            k <= s.len(),
            leading_digits(s@) == k + leading_digits(s@.skip(k as int)),
        decreases s.len() - k,
    {
        assert(s@.skip(k as int).drop_first() =~= s@.skip(k + 1));
        k += 1;
    }
    k
}

/// A line such as `/path/to/file.zig:42:5: ...`: it holds `.zig:`, at least
/// two colons, and only digits between the first two.
pub open spec fn is_zig_location_line(l: Seq<char>) -> bool {
    contains(l, ".zig:"@) && split_char(l, ':').len() >= 3
        && leading_digits(split_char(l, ':')[1]) == split_char(l, ':')[1].len()
}

/// `file.zig:line:col` (or `file.zig:line`) at the start of a location line.
pub open spec fn zig_location(l: Seq<char>) -> Seq<char> {
    match find(l, ".zig:"@) {
        Some(z) => {
            let after = l.skip(z + 5);
            let num_end = leading_digits(after);
            if num_end > 0 {
                let after_line = after.skip(num_end as int);
                if after_line.len() > 0 && after_line[0] == ':' && leading_digits(after_line.skip(1)) > 0 {
                    l.take(z + 5 + num_end + 1 + leading_digits(after_line.skip(1)))
                } else {
                    l.take(z + 5 + num_end)
                }
            } else {
                l
            }
        },
        None => l,
    }
}

fn is_zig_location_v(l: &Vec<char>) -> (b: bool)
    ensures
        b == is_zig_location_line(l@),
{
    if !contains_str(l, ".zig:") {
        return false;
    }
    let parts = split_char_v(l, ':');
    let ghost pv = parts@.map_values(|x: Vec<char>| x@);
    if parts.len() < 3 {
        return false;
    }
    assert(parts@[1]@ == pv[1]);
    leading_digits_v(&parts[1]) == parts[1].len()
}

/// Check whether a line is a Zig source location.
pub fn is_zig_source_location(line: &str) -> (b: bool)
    ensures
        b == is_zig_location_line(line@),
{
    is_zig_location_v(&chars_of(line))
}

fn zig_location_v(l: &Vec<char>) -> (r: Vec<char>)
    ensures
        r@ == zig_location(l@),
{
    match find_str(l, ".zig:") {
        Some(z) => {
            proof {
                reveal_strlit(".zig:");
            }
            let n = l.len();
            let after = slice(l, z + 5, n);
            assert(after@ =~= l@.skip(z + 5));
            let num_end = leading_digits_v(&after);
            proof {
                lemma_leading_digits(after@);
            }
            if num_end > 0 {
                let an = after.len();
                let after_line = slice(&after, num_end, an);
                assert(after_line@ =~= after@.skip(num_end as int));
                if after_line.len() > 0 && after_line[0] == ':' {
                    let ln = after_line.len();
                    let col = slice(&after_line, 1, ln);
                    assert(col@ =~= after_line@.skip(1));
                    let col_end = leading_digits_v(&col);
                    proof {
                        lemma_leading_digits(col@);
                    }
                    if col_end > 0 {
                        let r = slice(l, 0, z + 5 + num_end + 1 + col_end);
                        assert(r@ =~= l@.take(z + 5 + num_end + 1 + col_end));
                        return r;
                    }
                }
                let r = slice(l, 0, z + 5 + num_end);
                assert(r@ =~= l@.take(z + 5 + num_end));
                r
            } else {
                slice(l, 0, l.len())
            }
        },
        None => slice(l, 0, l.len()),
    }
}

/// Extract `file.zig:line:col` from a Zig source line.
pub fn extract_zig_location(line: &str) -> (r: String)
    ensures
        r@ == zig_location(line@),
{
    let r = zig_location_v(&chars_of(line));
    assert(r@ == zig_location(line@)) by {
        assert(line@.subrange(0, line@.len() as int) =~= line@);
    }
    string_of(&r)
}

/// ASCII letters in lower case, other characters unchanged.
pub open spec fn ascii_lower(s: Seq<char>) -> Seq<char> {
    s.map_values(|c: char| if 'A' <= c && c <= 'Z' { ((c as u32) + 32) as char } else { c })
}

pub(crate) fn ascii_lower_v(s: &Vec<char>) -> (r: Vec<char>)
    ensures
        r@ == ascii_lower(s@),
{
    let mut out: Vec<char> = Vec::new();
    let mut i: usize = 0;
    while i < s.len()
        invariant
            i <= s.len(),
            out@ == ascii_lower(s@.take(i as int)),
        decreases s.len() - i,
    {
        let c = s[i];
        let d = if 'A' <= c && c <= 'Z' {
            let b: u8 = (c as u32 + 32) as u8;
            assert(b == (c as u32) + 32);
            b as char
        } else {
            c
        };
        out.push(d);
        assert(ascii_lower(s@.take(i + 1)) =~= ascii_lower(s@.take(i as int)).push(d));
        i += 1;
    }
    assert(s@.take(s.len() as int) =~= s@);
    out
}

/// A line that names the failure: it holds `error:`, `panic:`, `unreachable`,
/// `assertion` or `expected`, ignoring the case of ASCII letters (the only
/// letters these words have).
pub open spec fn is_informative(l: Seq<char>) -> bool {
    let lower = ascii_lower(l);
    contains(lower, "error:"@) || contains(lower, "panic:"@) || contains(lower, "unreachable"@)
        || contains(lower, "assertion"@) || contains(lower, "expected"@)
}

pub open spec fn first_informative(ls: Seq<Seq<char>>) -> Option<int>
    decreases ls.len(),
{
    if ls.len() == 0 {
        None
    } else if is_informative(ls.last()) && first_informative(ls.drop_last()) is None {
        Some(ls.len() - 1)
    } else {
        first_informative(ls.drop_last())
    }
}

pub open spec fn first_plain(ls: Seq<Seq<char>>) -> Option<int>
    decreases ls.len(),
{
    if ls.len() == 0 {
        None
    } else if !is_zig_location_line(ls.last()) && trim(ls.last()).len() > 0 && first_plain(ls.drop_last()) is None {
        Some(ls.len() - 1)
    } else {
        first_plain(ls.drop_last())
    }
}

/// The most informative of the lines: the first that names the failure, else
/// the first that is neither a location nor blank, else the first, else
/// `Test failed`.
pub open spec fn zig_error_message(ls: Seq<Seq<char>>) -> Seq<char> {
    match first_informative(ls) {
        Some(k) => ls[k],
        None => match first_plain(ls) {
            Some(k) => ls[k],
            None => if ls.len() > 0 { ls[0] } else { "Test failed"@ },
        },
    }
}

proof fn lemma_first_found(ls: Seq<Seq<char>>)
    ensures
        first_informative(ls) matches Some(k) ==> 0 <= k < ls.len(),
        first_plain(ls) matches Some(k) ==> 0 <= k < ls.len(),
    decreases ls.len(),
{
    if ls.len() > 0 {
        lemma_first_found(ls.drop_last());
    }
}

fn is_informative_v(l: &Vec<char>) -> (b: bool)
    ensures
        b == is_informative(l@),
{
    let lower = ascii_lower_v(l);
    contains_str(&lower, "error:") || contains_str(&lower, "panic:") || contains_str(&lower, "unreachable")
        || contains_str(&lower, "assertion") || contains_str(&lower, "expected")
}

fn zig_error_message_v(ls: &Vec<Vec<char>>) -> (r: Vec<char>)
    ensures
        r@ == zig_error_message(ls@.map_values(|l: Vec<char>| l@)),
{
    let ghost lv = ls@.map_values(|l: Vec<char>| l@);
    proof {
        lemma_first_found(lv);
    }
    let mut i: usize = 0;
    while i < ls.len()
        invariant
            i <= ls.len(),
            lv == ls@.map_values(|l: Vec<char>| l@),
            first_informative(lv.take(i as int)) is None,
        decreases ls.len() - i,
    {
        assert(lv.take(i + 1).drop_last() =~= lv.take(i as int));
        assert(lv.take(i + 1).last() == ls@[i as int]@);
        if is_informative_v(&ls[i]) {
            proof {
                lemma_first_prefix(lv, (i + 1) as int);
            }
            return slice(&ls[i], 0, ls[i].len());
        }
        i += 1;
    }
    assert(lv.take(ls.len() as int) =~= lv);
    let mut i: usize = 0;
    while i < ls.len()
        invariant
            i <= ls.len(),
            lv == ls@.map_values(|l: Vec<char>| l@),
            first_informative(lv) is None,
            first_plain(lv.take(i as int)) is None,
        decreases ls.len() - i,
    {
        assert(lv.take(i + 1).drop_last() =~= lv.take(i as int));
        assert(lv.take(i + 1).last() == ls@[i as int]@);
        if !is_zig_location_v(&ls[i]) && trim_v(&ls[i]).len() > 0 {
            proof {
                lemma_first_prefix(lv, (i + 1) as int);
            }
            return slice(&ls[i], 0, ls[i].len());
        }
        i += 1;
    }
    assert(lv.take(ls.len() as int) =~= lv);
    if ls.len() > 0 {
        slice(&ls[0], 0, ls[0].len())
    } else {
        chars_of("Test failed")
    }
}

proof fn lemma_first_prefix(ls: Seq<Seq<char>>, n: int)
    requires
        0 <= n <= ls.len(),
    ensures
        first_informative(ls.take(n)) matches Some(k) ==> first_informative(ls) == Some(k),
        first_plain(ls.take(n)) matches Some(k) ==> first_plain(ls) == Some(k),
    decreases ls.len() - n,
{
    if n < ls.len() {
        lemma_first_prefix(ls, n + 1);
        assert(ls.take(n + 1).drop_last() =~= ls.take(n));
    } else {
        assert(ls.take(n) =~= ls);
    }
}

/// Pick the most informative line of a failure's output as its message.
pub fn find_zig_error_message(lines: &Vec<String>) -> (r: String)
    ensures
        r@ == zig_error_message(lines@.map_values(|l: String| l@)),
{
    let mut ls: Vec<Vec<char>> = Vec::new();
    let mut i: usize = 0;
    while i < lines.len()
        invariant
            i <= lines.len(),
            ls@.map_values(|l: Vec<char>| l@) == lines@.take(i as int).map_values(|l: String| l@),
        decreases lines.len() - i,
    {
        let ghost before = ls@.map_values(|l: Vec<char>| l@);
        let v = chars_of_string(&lines[i]);
        assert(v@ == lines@[i as int]@);
        ls.push(v);
        assert(ls@.map_values(|l: Vec<char>| l@) =~= before.push(lines@[i as int]@));
        assert(ls@.map_values(|l: Vec<char>| l@) =~= lines@.take(i + 1).map_values(|l: String| l@));
        i += 1;
    }
    assert(lines@.take(lines.len() as int) =~= lines@);
    string_of(&zig_error_message_v(&ls))
}

/// A compile error line: `src/main.zig:42:5: error: ...`.
pub open spec fn is_compile_error_line(l: Seq<char>) -> bool {
    contains(l, ".zig:"@) && contains(l, ": error:"@)
}

/// `(location, message)` of a compile error line.
pub open spec fn compile_error_parts(l: Seq<char>) -> (Seq<char>, Seq<char>) {
    match find(l, ": error:"@) {
        Some(e) => (l.take(e), trim(l.skip(e + 8))),
        None => (l, "compile error"@),
    }
}

fn compile_error_parts_v(l: &Vec<char>) -> (r: (Vec<char>, Vec<char>))
    ensures
        (r.0@, r.1@) == compile_error_parts(l@),
{
    match find_str(l, ": error:") {
        Some(e) => {
            proof {
                reveal_strlit(": error:");
            }
            let n = l.len();
            let head = slice(l, 0, e);
            assert(head@ =~= l@.take(e as int));
            let tail = slice(l, e + 8, n);
            assert(tail@ =~= l@.skip(e + 8));
            (head, trim_v(&tail))
        },
        None => (slice(l, 0, l.len()), chars_of("compile error")),
    }
}

/// Check whether a line is a Zig compile error.
pub fn is_zig_compile_error(line: &str) -> (b: bool)
    ensures
        b == is_compile_error_line(line@),
{
    let l = chars_of(line);
    contains_str(&l, ".zig:") && contains_str(&l, ": error:")
}

/// Split a compile error line into its location and message.
pub fn parse_zig_compile_error(line: &str) -> (r: (String, String))
    ensures
        (r.0@, r.1@) == compile_error_parts(line@),
{
    let l = chars_of(line);
    let (a, b) = compile_error_parts_v(&l);
    assert(l@.subrange(0, l@.len() as int) =~= l@);
    (string_of(&a), string_of(&b))
}

// ---------------------------------------------------------------------------
// Failures
// ---------------------------------------------------------------------------

/// A failure found in Zig test output.
pub struct ZigTestFailure {
    pub test_name: String,
    pub message: String,
    pub location: Option<String>,
}

pub struct ZigFailView {
    pub test_name: Seq<char>,
    pub message: Seq<char>,
    pub location: Option<Seq<char>>,
}

impl View for ZigTestFailure {
    type V = ZigFailView;

    open spec fn view(&self) -> ZigFailView {
        ZigFailView { test_name: self.test_name@, message: self.message@, location: opt_str_view(self.location) }
    }
}

pub open spec fn zig_failures_view(fs: Seq<ZigTestFailure>) -> Seq<ZigFailView> {
    fs.map_values(|f: ZigTestFailure| f@)
}

/// The output lines after a failing result line, up to the next result line,
/// a line mentioning `passed`, or a blank line after more than three lines:
/// `(end, non-blank lines, first location)`.
pub open spec fn zig_block(ls: Seq<Seq<char>>, k: int, errs: Seq<Seq<char>>, loc: Option<Seq<char>>) -> (int, Seq<Seq<char>>, Option<Seq<char>>)
    decreases ls.len() - k,
{
    if k < 0 || k >= ls.len() {
        (k, errs, loc)
    } else {
        let l = trim(ls[k]);
        if starts_with(l, "Test ["@) || contains(l, "passed"@) || (l.len() == 0 && errs.len() > 3) {
            (k, errs, loc)
        } else if l.len() > 0 {
            zig_block(
                ls,
                k + 1,
                errs.push(l),
                if loc is None && is_zig_location_line(l) { Some(zig_location(l)) } else { loc },
            )
        } else {
            zig_block(ls, k + 1, errs, loc)
        }
    }
}

pub proof fn lemma_zig_block(ls: Seq<Seq<char>>, k: int, errs: Seq<Seq<char>>, loc: Option<Seq<char>>)
    requires
        0 <= k <= ls.len(),
    ensures
        k <= zig_block(ls, k, errs, loc).0 <= ls.len(),
    decreases ls.len() - k,
{
    if k < ls.len() {
        let l = trim(ls[k]);
        if !(starts_with(l, "Test ["@) || contains(l, "passed"@) || (l.len() == 0 && errs.len() > 3)) {
            if l.len() > 0 {
                lemma_zig_block(ls, k + 1, errs.push(l), if loc is None && is_zig_location_line(l) { Some(zig_location(l)) } else { loc });
            } else {
                lemma_zig_block(ls, k + 1, errs, loc);
            }
        }
    }
}

/// The text after the first `panic:`, up to a second one, trimmed.
pub open spec fn panic_message(t: Seq<char>) -> Seq<char> {
    trim(first_piece(t.skip(find(t, "panic:"@)->0 + 6), "panic:"@))
}

/// The first location among lines `[j, lim)`.
pub open spec fn panic_location(ls: Seq<Seq<char>>, j: int, lim: int) -> Option<Seq<char>>
    decreases lim - j,
{
    if j < 0 || j >= ls.len() || j >= lim {
        None
    } else if is_zig_location_line(trim(ls[j])) {
        Some(zig_location(trim(ls[j])))
    } else {
        panic_location(ls, j + 1, lim)
    }
}

/// The failures from line `i` on, with untruncated messages: failing result
/// lines with the most informative line of their output, compile errors, and
/// panics with a location from the next four lines.
pub open spec fn zig_raw_from(ls: Seq<Seq<char>>, i: int) -> Seq<ZigFailView>
    decreases ls.len() - i,
{
    if i < 0 || i >= ls.len() {
        seq![]
    } else {
        let t = trim(ls[i]);
        if starts_with(t, "Test ["@) && ends_with(t, "FAIL"@) {
            let (e, errs, loc) = zig_block(ls, i + 1, seq![], None);
            proof {
                lemma_zig_block(ls, i + 1, seq![], None);
            }
            seq![ZigFailView {
                test_name: zig_test_name(t),
                message: if errs.len() == 0 { "Test failed"@ } else { zig_error_message(errs) },
                location: loc,
            }] + zig_raw_from(ls, e)
        } else {
            (if is_compile_error_line(t) {
                seq![ZigFailView {
                    test_name: "compile_error"@,
                    message: compile_error_parts(t).1,
                    location: Some(compile_error_parts(t).0),
                }]
            } else {
                seq![]
            }) + (if contains(t, "panic:"@) && !starts_with(t, "Test ["@) {
                seq![ZigFailView { test_name: "panic"@, message: panic_message(t), location: panic_location(ls, i + 1, i + 5) }]
            } else {
                seq![]
            }) + zig_raw_from(ls, i + 1)
        }
    }
}

pub open spec fn trunc_failure(f: ZigFailView) -> ZigFailView {
    ZigFailView { test_name: f.test_name, message: truncated(f.message, 500), location: f.location }
}

/// The failures of Zig output, messages cut to 500 bytes.
pub open spec fn zig_failures(ls: Seq<Seq<char>>) -> Seq<ZigFailView> {
    zig_raw_from(ls, 0).map_values(|f: ZigFailView| trunc_failure(f))
}

/// Every failure message can be cut to 500 bytes between characters.
pub open spec fn zig_failures_ok(ls: Seq<Seq<char>>) -> bool {
    forall|k: int| 0 <= k < zig_raw_from(ls, 0).len() ==> truncatable(#[trigger] zig_raw_from(ls, 0)[k].message, 500)
}

pub open spec fn zig_triple_view(t: (Vec<char>, Vec<char>, Option<Vec<char>>)) -> ZigFailView {
    ZigFailView { test_name: t.0@, message: t.1@, location: crate::adapters::elixir::opt_chars(t.2) }
}

fn zig_raw_walk(ls: &Vec<Vec<char>>) -> (r: Vec<(Vec<char>, Vec<char>, Option<Vec<char>>)>)
    ensures
        r@.map_values(|t: (Vec<char>, Vec<char>, Option<Vec<char>>)| zig_triple_view(t)) == zig_raw_from(ls@.map_values(|l: Vec<char>| l@), 0),
{
    let ghost lv = ls@.map_values(|l: Vec<char>| l@);
    let ghost raw = zig_raw_from(lv, 0);
    let ghost mut done: Seq<ZigFailView> = seq![];
    let mut out: Vec<(Vec<char>, Vec<char>, Option<Vec<char>>)> = Vec::new();
    let mut i: usize = 0;
    assert(done + zig_raw_from(lv, 0) =~= raw);
    while i < ls.len()
        invariant
            i <= ls.len(),
            lv == ls@.map_values(|l: Vec<char>| l@),
            raw == zig_raw_from(lv, 0),
            done + zig_raw_from(lv, i as int) == raw,
            out@.map_values(|t: (Vec<char>, Vec<char>, Option<Vec<char>>)| zig_triple_view(t)) == done,
        decreases ls.len() - i,
    {
        let t = trim_v(&ls[i]);
        assert(t@ == trim(lv[i as int]));
        if starts_with_str(&t, "Test [") && ends_with_str(&t, "FAIL") {
            let name = zig_test_name_v(&t);
            let mut errs: Vec<Vec<char>> = Vec::new();
            let mut loc: Option<Vec<char>> = None;
            let mut k = i + 1;
            assert(errs@.map_values(|x: Vec<char>| x@) =~= seq![]);
            proof {
                lemma_zig_block(lv, i + 1, seq![], None);
            }
            let ghost target = zig_block(lv, i + 1, seq![], None);
            while k < ls.len()
                invariant
                    i + 1 <= k <= ls.len(),
                    lv == ls@.map_values(|l: Vec<char>| l@),
                    zig_block(lv, k as int, errs@.map_values(|x: Vec<char>| x@), crate::adapters::elixir::opt_chars(loc)) == target,
                ensures
                    zig_block(lv, k as int, errs@.map_values(|x: Vec<char>| x@), crate::adapters::elixir::opt_chars(loc)) == target,
                    i + 1 <= k <= ls.len(),
                    k < ls.len() ==> ({
                        let l = trim(lv[k as int]);
                        starts_with(l, "Test ["@) || contains(l, "passed"@) || (l.len() == 0 && errs.len() > 3)
                    }),
                decreases ls.len() - k,
            {
                let l = trim_v(&ls[k]);
                assert(l@ == trim(lv[k as int]));
                if starts_with_str(&l, "Test [") || contains_str(&l, "passed") || (l.len() == 0 && errs.len() > 3) {
                    break;
                }
                if l.len() > 0 {
                    if loc.is_none() && is_zig_location_v(&l) {
                        loc = Some(zig_location_v(&l));
                    }
                    let ghost before = errs@.map_values(|x: Vec<char>| x@);
                    errs.push(l);
                    assert(errs@.map_values(|x: Vec<char>| x@) =~= before.push(trim(lv[k as int])));
                }
                k += 1;
            }
            proof {
                lemma_zig_block(lv, k as int, errs@.map_values(|x: Vec<char>| x@), crate::adapters::elixir::opt_chars(loc));
            }
            assert(target == (k as int, errs@.map_values(|x: Vec<char>| x@), crate::adapters::elixir::opt_chars(loc)));
            let message = if errs.len() == 0 { chars_of("Test failed") } else { zig_error_message_v(&errs) };
            let ghost f = ZigFailView { test_name: name@, message: message@, location: crate::adapters::elixir::opt_chars(loc) };
            assert(zig_raw_from(lv, i as int) == seq![f] + zig_raw_from(lv, k as int));
            let fail = (name, message, loc);
            assert(zig_triple_view(fail) == f);
            let ghost before = out@.map_values(|t: (Vec<char>, Vec<char>, Option<Vec<char>>)| zig_triple_view(t));
            out.push(fail);
            assert(out@.map_values(|t: (Vec<char>, Vec<char>, Option<Vec<char>>)| zig_triple_view(t)) =~= before.push(zig_triple_view(fail)));
            proof {
                done = done.push(f);
            }
            assert(done + zig_raw_from(lv, k as int) =~= raw);
            assert(out@.map_values(|t: (Vec<char>, Vec<char>, Option<Vec<char>>)| zig_triple_view(t)) =~= done);
            i = k;
            continue;
        }
        let ghost cpart: Seq<ZigFailView> = if is_compile_error_line(t@) {
            seq![ZigFailView { test_name: "compile_error"@, message: compile_error_parts(t@).1, location: Some(compile_error_parts(t@).0) }]
        } else {
            seq![]
        };
        let ghost ppart: Seq<ZigFailView> = if contains(t@, "panic:"@) && !starts_with(t@, "Test ["@) {
            seq![ZigFailView { test_name: "panic"@, message: panic_message(t@), location: panic_location(lv, i + 1, i + 5) }]
        } else {
            seq![]
        };
        assert(zig_raw_from(lv, i as int) == cpart + ppart + zig_raw_from(lv, i + 1));
        assert(done + cpart + ppart + zig_raw_from(lv, i + 1) =~= raw);
        if crate::text::contains_str(&t, ".zig:") && contains_str(&t, ": error:") {
            let (loc, msg) = compile_error_parts_v(&t);
            let ghost f = ZigFailView { test_name: "compile_error"@, message: msg@, location: Some(loc@) };
            assert(cpart == seq![f]);
            let fail = (chars_of("compile_error"), msg, Some(loc));
            assert(zig_triple_view(fail) == f);
            let ghost before = out@.map_values(|t: (Vec<char>, Vec<char>, Option<Vec<char>>)| zig_triple_view(t));
            out.push(fail);
            assert(out@.map_values(|t: (Vec<char>, Vec<char>, Option<Vec<char>>)| zig_triple_view(t)) =~= before.push(zig_triple_view(fail)));
            proof {
                done = done.push(f);
            }
            assert(out@.map_values(|t: (Vec<char>, Vec<char>, Option<Vec<char>>)| zig_triple_view(t)) =~= done);
        }
        assert(done + ppart + zig_raw_from(lv, i + 1) =~= raw);
        if contains_str(&t, "panic:") && !starts_with_str(&t, "Test [") {
            let pm = match find_str(&t, "panic:") {
                Some(at) => {
                    proof {
                        reveal_strlit("panic:");
                    }
                    let n = t.len();
                    let rest = slice(&t, at + 6, n);
                    assert(rest@ =~= t@.skip(at + 6));
                    let sep = chars_of("panic:");
                    trim_v(&first_piece_v(&rest, &sep))
                },
                None => Vec::new(),
            };
            let mut location: Option<Vec<char>> = None;
            let mut j = i + 1;
            while j < ls.len() && j - i < 5 && location.is_none()
                invariant
                    i + 1 <= j,
                    j <= ls.len(),
                    i < ls.len(),
                    lv == ls@.map_values(|l: Vec<char>| l@),
                    match location {
                        Some(x) => panic_location(lv, i + 1, i + 5) == Some(x@),
                        None => panic_location(lv, i + 1, i + 5) == panic_location(lv, j as int, i + 5),
                    },
                decreases ls.len() - j,
            {
                let l = trim_v(&ls[j]);
                assert(l@ == trim(lv[j as int]));
                if is_zig_location_v(&l) {
                    location = Some(zig_location_v(&l));
                }
                j += 1;
            }
            let ghost f = ZigFailView { test_name: "panic"@, message: pm@, location: crate::adapters::elixir::opt_chars(location) };
            assert(ppart == seq![f]);
            let fail = (chars_of("panic"), pm, location);
            assert(zig_triple_view(fail) == f);
            let ghost before = out@.map_values(|t: (Vec<char>, Vec<char>, Option<Vec<char>>)| zig_triple_view(t));
            out.push(fail);
            assert(out@.map_values(|t: (Vec<char>, Vec<char>, Option<Vec<char>>)| zig_triple_view(t)) =~= before.push(zig_triple_view(fail)));
            proof {
                done = done.push(f);
            }
            assert(out@.map_values(|t: (Vec<char>, Vec<char>, Option<Vec<char>>)| zig_triple_view(t)) =~= done);
        }
        assert(done + zig_raw_from(lv, i + 1) =~= raw);
        i += 1;
    }
    assert(done =~= raw);
    out
}

fn zig_failures_ok_v(ls: &Vec<Vec<char>>) -> (b: bool)
    ensures
        b == zig_failures_ok(ls@.map_values(|l: Vec<char>| l@)),
{
    let raw = zig_raw_walk(ls);
    let ghost rv = raw@.map_values(|t: (Vec<char>, Vec<char>, Option<Vec<char>>)| zig_triple_view(t));
    let mut k: usize = 0;
    while k < raw.len()
        invariant
            k <= raw.len(),
            rv == raw@.map_values(|t: (Vec<char>, Vec<char>, Option<Vec<char>>)| zig_triple_view(t)),
            rv == zig_raw_from(ls@.map_values(|l: Vec<char>| l@), 0),
            forall|q: int| 0 <= q < k ==> truncatable(#[trigger] rv[q].message, 500),
        decreases raw.len() - k,
    {
        assert(rv[k as int].message == raw@[k as int].1@);
        if !truncatable_v(&raw[k].1, 500) {
            assert(!truncatable(zig_raw_from(ls@.map_values(|l: Vec<char>| l@), 0)[k as int].message, 500));
            return false;
        }
        k += 1;
    }
    true
}

fn zig_raw_failures(ls: &Vec<Vec<char>>) -> (r: Vec<ZigTestFailure>)
    requires
        zig_failures_ok(ls@.map_values(|l: Vec<char>| l@)),
    ensures
        zig_failures_view(r@) == zig_failures(ls@.map_values(|l: Vec<char>| l@)),
{
    let raw = zig_raw_walk(ls);
    let ghost rv = raw@.map_values(|t: (Vec<char>, Vec<char>, Option<Vec<char>>)| zig_triple_view(t));
    let mut out: Vec<ZigTestFailure> = Vec::new();
    let mut k: usize = 0;
    while k < raw.len()
        invariant
            k <= raw.len(),
            rv == raw@.map_values(|t: (Vec<char>, Vec<char>, Option<Vec<char>>)| zig_triple_view(t)),
            rv == zig_raw_from(ls@.map_values(|l: Vec<char>| l@), 0),
            zig_failures_ok(ls@.map_values(|l: Vec<char>| l@)),
            zig_failures_view(out@) == rv.take(k as int).map_values(|f: ZigFailView| trunc_failure(f)),
        decreases raw.len() - k,
    {
        let t = &raw[k];
        assert(rv[k as int] == zig_triple_view(*t));
        assert(truncatable(rv[k as int].message, 500));
        let loc = match &t.2 {
            Some(l) => Some(string_of(l)),
            None => None,
        };
        let fail = ZigTestFailure { test_name: string_of(&t.0), message: string_of(&truncate_chars(&t.1, 500)), location: loc };
        assert(fail@ == trunc_failure(rv[k as int]));
        let ghost before = zig_failures_view(out@);
        out.push(fail);
        assert(zig_failures_view(out@) =~= before.push(fail@));
        assert(rv.take(k + 1) =~= rv.take(k as int).push(rv[k as int]));
        k += 1;
    }
    assert(rv.take(raw.len() as int) =~= rv);
    out
}

/// Parse the failures of Zig test output.
pub fn parse_zig_failures(output: &str) -> (r: Vec<ZigTestFailure>)
    requires
        zig_failures_ok(lines(output@)),
    ensures
        zig_failures_view(r@) == zig_failures(lines(output@)),
{
    let ls = crate::text::lines_of(output);
    assert(ls@.map_values(|l: Vec<char>| l@) =~= lines(output@));
    zig_raw_failures(&ls)
}

/// A failure names a test when the names are equal or one contains the other.
pub open spec fn zig_name_matches(f: ZigFailView, name: Seq<char>) -> bool {
    f.test_name == name || contains(name, f.test_name) || contains(f.test_name, name)
}

pub open spec fn first_zig_failure(fs: Seq<ZigFailView>, name: Seq<char>) -> Option<ZigFailView>
    decreases fs.len(),
{
    if fs.len() == 0 {
        None
    } else if zig_name_matches(fs[0], name) {
        Some(fs[0])
    } else {
        first_zig_failure(fs.drop_first(), name)
    }
}

/// The failure for a test: the first that names it, else the only one.
pub open spec fn zig_match(fs: Seq<ZigFailView>, name: Seq<char>) -> Option<ZigFailView> {
    match first_zig_failure(fs, name) {
        Some(f) => Some(f),
        None => if fs.len() == 1 { Some(fs[0]) } else { None },
    }
}

/// A failed case without an error takes the message and location of its
/// failure.
pub open spec fn zig_enrich_case(c: CaseView, fs: Seq<ZigFailView>) -> CaseView {
    if c.status != TestStatus::Failed || c.error is Some {
        c
    } else {
        match zig_match(fs, c.name) {
            Some(f) => CaseView { error: Some(ErrorView { message: f.message, location: f.location }), ..c },
            None => c,
        }
    }
}

pub open spec fn zig_enrich(suites: Seq<SuiteView>, fs: Seq<ZigFailView>) -> Seq<SuiteView> {
    suites.map_values(|s: SuiteView| SuiteView { name: s.name, tests: s.tests.map_values(|c: CaseView| zig_enrich_case(c, fs)) })
}

fn zig_match_v(fs: &Vec<ZigTestFailure>, name: &Vec<char>) -> (r: Option<usize>)
    ensures
        match r {
            Some(k) => k < fs.len() && zig_match(zig_failures_view(fs@), name@) == Some(fs@[k as int]@),
            None => zig_match(zig_failures_view(fs@), name@) is None,
        },
{
    let ghost fv = zig_failures_view(fs@);
    let mut k: usize = 0;
    assert(fv.skip(0) =~= fv);
    while k < fs.len()
        invariant
            k <= fs.len(),
            fv == zig_failures_view(fs@),
            first_zig_failure(fv, name@) == first_zig_failure(fv.skip(k as int), name@),
        decreases fs.len() - k,
    {
        assert(fv.skip(k as int)[0] == fs@[k as int]@);
        assert(fv.skip(k as int).drop_first() =~= fv.skip(k + 1));
        let fname = chars_of_string(&fs[k].test_name);
        if crate::text::eq(&fname, name) || crate::text::contains_v(name, &fname) || crate::text::contains_v(&fname, name) {
            return Some(k);
        }
        k += 1;
    }
    if fs.len() == 1 {
        Some(0)
    } else {
        None
    }
}

fn clone_location(o: &Option<String>) -> (r: Option<String>)
    ensures
        opt_str_view(r) == opt_str_view(*o),
{
    match o {
        Some(l) => Some(string_of(&chars_of_string(l))),
        None => None,
    }
}

/// Give failed cases without an error the details of their failure.
pub fn enrich_with_errors(suites: &mut Vec<TestSuite>, failures: &Vec<ZigTestFailure>)
    ensures
        suites_view(final(suites)@) == zig_enrich(suites_view(old(suites)@), zig_failures_view(failures@)),
{
    let ghost sv = suites_view(suites@);
    let ghost fv = zig_failures_view(failures@);
    let ghost goal = zig_enrich(sv, fv);
    let mut rest: Vec<TestSuite> = Vec::new();
    std::mem::swap(&mut rest, suites);
    let ghost orig = rest@;
    let ghost total: int = rest.len() as int;
    let mut i: usize = 0;
    assert(rest@ =~= orig.skip(0));
    assert(suites_view(suites@) =~= goal.take(0));
    while rest.len() > 0
        invariant
            i + rest@.len() == orig.len(),
            total == orig.len(),
            total <= usize::MAX,
            rest@ == orig.skip(i as int),
            sv == suites_view(orig),
            fv == zig_failures_view(failures@),
            goal == zig_enrich(sv, fv),
            suites_view(suites@) == goal.take(i as int),
        decreases rest.len(),
    {
        let s = rest.remove(0);
        assert(s == orig[i as int]);
        assert(rest@ =~= orig.skip(i + 1));
        let ghost si = sv[i as int];
        let mut tests: Vec<TestCase> = Vec::new();
        let ghost n: int = s.tests.len() as int;
        let mut src = s.tests;
        let mut j: usize = 0;
        assert(src@ =~= s.tests@.skip(0));
        while src.len() > 0
            invariant
                j + src@.len() == s.tests@.len(),
                n == s.tests@.len(),
                n <= usize::MAX,
                si == sv[i as int],
                si.tests == cases_view(s.tests@),
                src@ == s.tests@.skip(j as int),
                fv == zig_failures_view(failures@),
                cases_view(tests@) == si.tests.take(j as int).map_values(|c: CaseView| zig_enrich_case(c, fv)),
            decreases src.len(),
        {
            let c = src.remove(0);
            assert(c == s.tests@[j as int]);
            assert(src@ =~= s.tests@.skip(j + 1));
            assert(c@ == si.tests[j as int]);
            let e = if c.status != TestStatus::Failed || c.error.is_some() {
                c
            } else {
                match zig_match_v(failures, &chars_of_string(&c.name)) {
                    Some(k) => {
                        let f = &failures[k];
                        let message = string_of(&chars_of_string(&f.message));
                        let location = clone_location(&f.location);
                        TestCase { name: c.name, status: c.status, duration: c.duration, error: Some(TestError { message, location }) }
                    },
                    None => c,
                }
            };
            assert(e@ == zig_enrich_case(si.tests[j as int], fv));
            let ghost before = tests@;
            tests.push(e);
            assert(cases_view(tests@) =~= cases_view(before).push(e@));
            assert(si.tests.take(j + 1).map_values(|c: CaseView| zig_enrich_case(c, fv))
                =~= si.tests.take(j as int).map_values(|c: CaseView| zig_enrich_case(c, fv)).push(zig_enrich_case(si.tests[j as int], fv)));
            j += 1;
        }
        assert(si.tests.take(j as int) =~= si.tests);
        let ns = TestSuite { name: s.name, tests };
        let ghost before = suites@;
        suites.push(ns);
        assert(suites_view(suites@) =~= suites_view(before).push(ns@));
        assert(goal.take(i + 1) =~= goal.take(i as int).push(goal[i as int]));
        i += 1;
    }
    assert(goal.take(i as int) =~= goal);
}

// ---------------------------------------------------------------------------
// The run
// ---------------------------------------------------------------------------

/// The run Zig output describes (stdout and stderr combined): one suite of
/// result-line or summary cases, failed ones given their failure details.
pub open spec fn zig_run(stdout: Seq<char>, stderr: Seq<char>, exit_code: i32) -> RunView {
    let ls = lines(combined_spec(stdout, stderr));
    RunView {
        suites: zig_enrich(seq![zig_suite(ls, exit_code)], zig_failures(ls)),
        duration: match zig_duration(ls) {
            Some(d) => d,
            None => 0,
        },
        raw_exit_code: exit_code,
    }
}

impl ZigAdapter {
    /// Whether every failure message of the output can be cut to 500 bytes
    /// between characters.
    pub fn readable(&self, stdout: &str, stderr: &str) -> (b: bool)
        ensures
            b == zig_failures_ok(lines(combined_spec(stdout@, stderr@))),
    {
        let combined = combined_chars(stdout, stderr);
        let ls = lines_v(&combined);
        assert(ls@.map_values(|l: Vec<char>| l@) =~= lines(combined_spec(stdout@, stderr@)));
        zig_failures_ok_v(&ls)
    }

    /// Parse Zig test output into a run.
    pub fn parse_output(&self, stdout: &str, stderr: &str, exit_code: i32) -> (r: TestRunResult)
        requires
            zig_failures_ok(lines(combined_spec(stdout@, stderr@))),
        ensures
            r@ == zig_run(stdout@, stderr@, exit_code),
    {
        let combined = combined_chars(stdout, stderr);
        let ls = lines_v(&combined);
        let ghost lv = ls@.map_values(|l: Vec<char>| l@);
        assert(lv =~= lines(combined_spec(stdout@, stderr@)));
        let mut suites: Vec<TestSuite> = Vec::new();
        let s = zig_suite_v(&ls, exit_code);
        suites.push(s);
        assert(suites_view(suites@) =~= seq![s@]);
        let failures = zig_raw_failures(&ls);
        if failures.len() > 0 {
            enrich_with_errors(&mut suites, &failures);
        } else {
            assert(zig_enrich(suites_view(suites@), zig_failures_view(failures@)) =~= suites_view(suites@)) by {
                assert(s@.tests.map_values(|c: CaseView| zig_enrich_case(c, zig_failures_view(failures@))) =~= s@.tests);
            }
        }
        let duration = match zig_duration_v(&ls) {
            Some(d) => d,
            None => Duration::zero(),
        };
        TestRunResult { suites, duration, raw_exit_code: exit_code }
    }
}

} // verus!
