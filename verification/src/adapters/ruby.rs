//! RSpec and Minitest output.

use vstd::prelude::*;
use crate::adapters::{
    CaseView, ErrorView, RunView, SuiteView, TestCase, TestError, TestRunResult, TestStatus,
    TestSuite, cases_view, opt_str_view, suites_view,
};
use crate::adapters::elixir::{cut_ok, fin_safe, fin_secs, group_add, opt_chars};
use crate::adapters::javascript::{strip_prefix, trim_start_str};
use crate::adapters::python::{counted_suite, counted_suite_v, first_piece, prefixed_suite, prefixed_suite_v};
use crate::adapters::util::{chars_in_bytes, take_bytes, utf8_len, utf8_len_v};
use crate::duration::{Duration, decimal_nanos, parse_secs};
use crate::num::{parse_usize, parse_usize_spec};
use crate::text::{
    append, append_str, chars_of, chars_of_string, contains, contains_char, contains_str, ends_with,
    ends_with_str, eq, find, find_char, find_char_v, find_str, is_digit, join, join_v, lines,
    lines_v, num_prefix, num_prefix_len, occurs_at, rfind, slice, split_char, split_char_v,
    starts_with, starts_with_str, string_of, trim, trim_start, trim_start_v, trim_v, words,
    words_v,
};

verus! {

/// Adapter for Ruby projects tested with RSpec or Minitest.
pub struct RubyAdapter;

impl RubyAdapter {
    pub fn new() -> (a: Self) {
        RubyAdapter
    }

    /// Name of this adapter for display.
    pub fn name(&self) -> (r: &'static str)
        ensures
            r@ == "Ruby"@,
    {
        "Ruby"
    }
}

impl Default for RubyAdapter {
    fn default() -> (a: Self) {
        RubyAdapter
    }
}

pub(crate) fn strip_prefix_v(s: &Vec<char>, p: &str) -> (r: Option<Vec<char>>)
    ensures
        match r {
            Some(x) => strip_prefix(s@, p@) == Some(x@),
            None => strip_prefix(s@, p@) is None,
        },
{
    if starts_with_str(s, p) {
        let k = chars_of(p).len();
        let n = s.len();
        let x = slice(s, k, n);
        assert(x@ =~= s@.skip(p@.len() as int));
        Some(x)
    } else {
        None
    }
}

// ---------------------------------------------------------------------------
// Summary lines
// ---------------------------------------------------------------------------

/// The count of a `"<n> <word>"` part whose word starts with `w`, if so.
pub open spec fn part_count(part: Seq<char>, w: Seq<char>) -> Option<int> {
    let ws = words(trim(part));
    if ws.len() >= 2 && starts_with(ws[1], w) {
        Some(match parse_usize_spec(ws[0]) {
            Some(n) => n as int,
            None => 0,
        })
    } else {
        None
    }
}

/// `(examples, failures, pending)` after one part of
/// `5 examples, 1 failure, 1 pending`.
pub open spec fn rspec_part(acc: (int, int, int), part: Seq<char>) -> (int, int, int) {
    match part_count(part, "example"@) {
        Some(n) => (n, acc.1, acc.2),
        None => match part_count(part, "failure"@) {
            Some(n) => (acc.0, n, acc.2),
            None => match part_count(part, "pending"@) {
                Some(n) => (acc.0, acc.1, n),
                None => acc,
            },
        },
    }
}

pub open spec fn rspec_parts(ps: Seq<Seq<char>>) -> (int, int, int)
    decreases ps.len(),
{
    if ps.len() == 0 {
        (0, 0, 0)
    } else {
        rspec_part(rspec_parts(ps.drop_last()), ps.last())
    }
}

/// `(runs, failures, errors, skips)` after one part of
/// `4 runs, 4 assertions, 1 failures, 0 errors, 0 skips`.
pub open spec fn minitest_part(acc: (int, int, int, int), part: Seq<char>) -> (int, int, int, int) {
    match part_count(part, "run"@) {
        Some(n) => (n, acc.1, acc.2, acc.3),
        None => match part_count(part, "failure"@) {
            Some(n) => (acc.0, n, acc.2, acc.3),
            None => match part_count(part, "error"@) {
                Some(n) => (acc.0, acc.1, n, acc.3),
                None => match part_count(part, "skip"@) {
                    Some(n) => (acc.0, acc.1, acc.2, n),
                    None => acc,
                },
            },
        },
    }
}

pub open spec fn minitest_parts(ps: Seq<Seq<char>>) -> (int, int, int, int)
    decreases ps.len(),
{
    if ps.len() == 0 {
        (0, 0, 0, 0)
    } else {
        minitest_part(minitest_parts(ps.drop_last()), ps.last())
    }
}

pub open spec fn is_rspec_summary(t: Seq<char>) -> bool {
    contains(t, "example"@) && (contains(t, "failure"@) || contains(t, "pending"@))
}

pub open spec fn is_minitest_summary(t: Seq<char>) -> bool {
    contains(t, "runs,"@) && contains(t, "assertions,"@)
}

/// The first line (trimmed) satisfying `is_rspec_summary` (`rspec`) or
/// `is_minitest_summary`.
pub open spec fn first_summary(ls: Seq<Seq<char>>, rspec: bool) -> Option<Seq<char>>
    decreases ls.len(),
{
    if ls.len() == 0 {
        None
    } else if (rspec && is_rspec_summary(trim(ls[0]))) || (!rspec && is_minitest_summary(trim(ls[0]))) {
        Some(trim(ls[0]))
    } else {
        first_summary(ls.drop_first(), rspec)
    }
}

pub open spec fn saturating_sub(a: int, b: int) -> nat {
    if a >= b { (a - b) as nat } else { 0 }
}

/// The suite `spec` of an RSpec run without documentation lines:
/// `example_<k>`, `failed_example_<k>` and `pending_example_<k>` cases as
/// the first summary line counts them.
pub open spec fn rspec_summary_suite(ls: Seq<Seq<char>>, exit_code: i32) -> SuiteView {
    let c = match first_summary(ls, true) {
        Some(t) => rspec_parts(split_char(t, ',')),
        None => (0, 0, 0),
    };
    prefixed_suite(
        "spec"@, "example_"@, "failed_example_"@, "pending_example_"@,
        saturating_sub(c.0, c.1 + c.2), c.1 as nat, c.2 as nat, exit_code,
    )
}

/// The suite `tests` of a Minitest run without verbose lines: failures and
/// errors fail, skips are skipped, the other runs pass.
pub open spec fn minitest_summary_suite(ls: Seq<Seq<char>>, exit_code: i32) -> SuiteView {
    let c = match first_summary(ls, false) {
        Some(t) => minitest_parts(split_char(t, ',')),
        None => (0, 0, 0, 0),
    };
    counted_suite(saturating_sub(c.0, c.1 + c.2 + c.3), (c.1 + c.2) as nat, c.3 as nat, "skipped_test_"@, exit_code)
}

/// The sums formed from the used summary line fit in machine words.
pub open spec fn ruby_summary_fits(ls: Seq<Seq<char>>, rspec: bool) -> bool {
    match first_summary(ls, rspec) {
        Some(t) => if rspec {
            let c = rspec_parts(split_char(t, ','));
            c.1 + c.2 <= usize::MAX
        } else {
            let c = minitest_parts(split_char(t, ','));
            c.1 + c.2 + c.3 <= usize::MAX
        },
        None => true,
    }
}

proof fn lemma_parts_bounds(ps: Seq<Seq<char>>)
    ensures
        0 <= rspec_parts(ps).0 <= usize::MAX,
        0 <= rspec_parts(ps).1 <= usize::MAX,
        0 <= rspec_parts(ps).2 <= usize::MAX,
        0 <= minitest_parts(ps).0 <= usize::MAX,
        0 <= minitest_parts(ps).1 <= usize::MAX,
        0 <= minitest_parts(ps).2 <= usize::MAX,
        0 <= minitest_parts(ps).3 <= usize::MAX,
    decreases ps.len(),
{
    if ps.len() > 0 {
        lemma_parts_bounds(ps.drop_last());
    }
}

fn part_count_v(part: &Vec<char>, w: &str) -> (r: Option<usize>)
    ensures
        match r {
            Some(n) => part_count(part@, w@) == Some(n as int),
            None => part_count(part@, w@) is None,
        },
{
    let ws = words_v(&trim_v(part));
    let ghost wv = ws@.map_values(|x: Vec<char>| x@);
    if ws.len() >= 2 {
        assert(ws@[0]@ == wv[0]);
        assert(ws@[1]@ == wv[1]);
        if starts_with_str(&ws[1], w) {
            return Some(match parse_usize(&ws[0]) {
                Some(n) => n,
                None => 0,
            });
        }
    }
    None
}

fn first_summary_v(ls: &Vec<Vec<char>>, rspec: bool) -> (r: Option<Vec<char>>)
    ensures
        match r {
            Some(t) => first_summary(ls@.map_values(|l: Vec<char>| l@), rspec) == Some(t@),
            None => first_summary(ls@.map_values(|l: Vec<char>| l@), rspec) is None,
        },
{
    let ghost lv = ls@.map_values(|l: Vec<char>| l@);
    let mut i: usize = 0;
    assert(lv.skip(0) =~= lv);
    while i < ls.len()
        invariant
            i <= ls.len(),
            lv == ls@.map_values(|l: Vec<char>| l@),
            first_summary(lv, rspec) == first_summary(lv.skip(i as int), rspec),
        decreases ls.len() - i,
    {
        assert(lv.skip(i as int)[0] == ls@[i as int]@);
        assert(lv.skip(i as int).drop_first() =~= lv.skip(i + 1));
        let t = trim_v(&ls[i]);
        let hit = if rspec {
            contains_str(&t, "example") && (contains_str(&t, "failure") || contains_str(&t, "pending"))
        } else {
            contains_str(&t, "runs,") && contains_str(&t, "assertions,")
        };
        if hit {
            return Some(t);
        }
        i += 1;
    }
    None
}

fn rspec_counts_v(t: &Vec<char>) -> (c: (usize, usize, usize))
    ensures
        (c.0 as int, c.1 as int, c.2 as int) == rspec_parts(split_char(t@, ',')),
{
    let mut c: (usize, usize, usize) = (0, 0, 0);
    let parts = split_char_v(t, ',');
    let ghost pv = parts@.map_values(|x: Vec<char>| x@);
    let mut j: usize = 0;
    while j < parts.len()
        invariant
            j <= parts.len(),
            pv == parts@.map_values(|x: Vec<char>| x@),
            (c.0 as int, c.1 as int, c.2 as int) == rspec_parts(pv.take(j as int)),
        decreases parts.len() - j,
    {
        assert(pv.take(j + 1).drop_last() =~= pv.take(j as int));
        assert(pv.take(j + 1).last() == parts@[j as int]@);
        if let Some(n) = part_count_v(&parts[j], "example") {
            c = (n, c.1, c.2);
        } else if let Some(n) = part_count_v(&parts[j], "failure") {
            c = (c.0, n, c.2);
        } else if let Some(n) = part_count_v(&parts[j], "pending") {
            c = (c.0, c.1, n);
        }
        j += 1;
    }
    assert(pv.take(parts.len() as int) =~= pv);
    c
}

fn minitest_counts_v(t: &Vec<char>) -> (c: (usize, usize, usize, usize))
    ensures
        (c.0 as int, c.1 as int, c.2 as int, c.3 as int) == minitest_parts(split_char(t@, ',')),
{
    let mut c: (usize, usize, usize, usize) = (0, 0, 0, 0);
    let parts = split_char_v(t, ',');
    let ghost pv = parts@.map_values(|x: Vec<char>| x@);
    let mut j: usize = 0;
    while j < parts.len()
        invariant
            j <= parts.len(),
            pv == parts@.map_values(|x: Vec<char>| x@),
            (c.0 as int, c.1 as int, c.2 as int, c.3 as int) == minitest_parts(pv.take(j as int)),
        decreases parts.len() - j,
    {
        assert(pv.take(j + 1).drop_last() =~= pv.take(j as int));
        assert(pv.take(j + 1).last() == parts@[j as int]@);
        if let Some(n) = part_count_v(&parts[j], "run") {
            c = (n, c.1, c.2, c.3);
        } else if let Some(n) = part_count_v(&parts[j], "failure") {
            c = (c.0, n, c.2, c.3);
        } else if let Some(n) = part_count_v(&parts[j], "error") {
            c = (c.0, c.1, n, c.3);
        } else if let Some(n) = part_count_v(&parts[j], "skip") {
            c = (c.0, c.1, c.2, n);
        }
        j += 1;
    }
    assert(pv.take(parts.len() as int) =~= pv);
    c
}

fn ruby_summary_fits_v(ls: &Vec<Vec<char>>, rspec: bool) -> (b: bool)
    ensures
        b == ruby_summary_fits(ls@.map_values(|l: Vec<char>| l@), rspec),
{
    match first_summary_v(ls, rspec) {
        Some(t) => if rspec {
            let c = rspec_counts_v(&t);
            (c.1 as u128) + (c.2 as u128) <= usize::MAX as u128
        } else {
            let c = minitest_counts_v(&t);
            (c.1 as u128) + (c.2 as u128) + (c.3 as u128) <= usize::MAX as u128
        },
        None => true,
    }
}

fn rspec_summary_suite_v(ls: &Vec<Vec<char>>, exit_code: i32) -> (s: TestSuite)
    requires
        ruby_summary_fits(ls@.map_values(|l: Vec<char>| l@), true),
    ensures
        s@ == rspec_summary_suite(ls@.map_values(|l: Vec<char>| l@), exit_code),
{
    let c: (usize, usize, usize) = match first_summary_v(ls, true) {
        Some(t) => rspec_counts_v(&t),
        None => (0, 0, 0),
    };
    let passed = c.0.saturating_sub(c.1 + c.2);
    prefixed_suite_v("spec", "example_", "failed_example_", "pending_example_", passed, c.1, c.2, exit_code)
}

fn minitest_summary_suite_v(ls: &Vec<Vec<char>>, exit_code: i32) -> (s: TestSuite)
    requires
        ruby_summary_fits(ls@.map_values(|l: Vec<char>| l@), false),
    ensures
        s@ == minitest_summary_suite(ls@.map_values(|l: Vec<char>| l@), exit_code),
{
    let c: (usize, usize, usize, usize) = match first_summary_v(ls, false) {
        Some(t) => minitest_counts_v(&t),
        None => (0, 0, 0, 0),
    };
    let failed = c.1 + c.2;
    let passed = c.0.saturating_sub(failed + c.3);
    counted_suite_v(passed, failed, c.3, "skipped_test_", exit_code)
}

// ---------------------------------------------------------------------------
// Run duration
// ---------------------------------------------------------------------------

/// A line that may give the run time: `Finished in` with `second` (RSpec)
/// or `runs/s` (Minitest).
pub open spec fn ruby_fin_candidate(l: Seq<char>) -> bool {
    contains(l, "Finished in"@) && (contains(l, "second"@) || contains(l, "runs/s"@))
}

/// The time of the first `Finished in` line whose seconds read as a number.
pub open spec fn ruby_duration(ls: Seq<Seq<char>>) -> Option<nat>
    decreases ls.len(),
{
    if ls.len() == 0 {
        None
    } else if ruby_fin_candidate(ls[0]) && fin_secs(ls[0]) is Some {
        fin_secs(ls[0])
    } else {
        ruby_duration(ls.drop_first())
    }
}

/// Every `Finished in` line read before the time is found can be cut after
/// the words.
pub open spec fn ruby_duration_safe(ls: Seq<Seq<char>>) -> bool
    decreases ls.len(),
{
    if ls.len() == 0 {
        true
    } else if ruby_fin_candidate(ls[0]) {
        fin_safe(ls[0]) && (fin_secs(ls[0]) is Some || ruby_duration_safe(ls.drop_first()))
    } else {
        ruby_duration_safe(ls.drop_first())
    }
}

fn ruby_duration_v(ls: &Vec<Vec<char>>) -> (r: Option<Duration>)
    requires
        ruby_duration_safe(ls@.map_values(|l: Vec<char>| l@)),
    ensures
        match r {
            Some(d) => ruby_duration(ls@.map_values(|l: Vec<char>| l@)) == Some(d.ns()),
            None => ruby_duration(ls@.map_values(|l: Vec<char>| l@)) is None,
        },
{
    let ghost lv = ls@.map_values(|l: Vec<char>| l@);
    let mut i: usize = 0;
    assert(lv.skip(0) =~= lv);
    while i < ls.len()
        invariant
            i <= ls.len(),
            lv == ls@.map_values(|l: Vec<char>| l@),
            ruby_duration(lv) == ruby_duration(lv.skip(i as int)),
            ruby_duration_safe(lv.skip(i as int)),
        decreases ls.len() - i,
    {
        assert(lv.skip(i as int)[0] == ls@[i as int]@);
        assert(lv.skip(i as int).drop_first() =~= lv.skip(i + 1));
        let l = &ls[i];
        if contains_str(l, "Finished in") && (contains_str(l, "second") || contains_str(l, "runs/s")) {
            match find_str(l, "Finished in") {
                Some(idx) => {
                    let n = l.len();
                    let after = slice(l, idx + 12, n);
                    assert(after@ =~= l@.skip(find(l@, "Finished in"@)->0 + 12));
                    if let Some(d) = parse_secs(&num_prefix(&trim_v(&after))) {
                        return Some(d);
                    }
                },
                None => {},
            }
        }
        i += 1;
    }
    None
}

/// The duration of a Ruby run, from its `Finished in` line.
pub fn parse_ruby_duration(output: &str) -> (r: Option<Duration>)
    requires
        ruby_duration_safe(lines(output@)),
    ensures
        match r {
            Some(d) => ruby_duration(lines(output@)) == Some(d.ns()),
            None => ruby_duration(lines(output@)) is None,
        },
{
    let ls = crate::text::lines_of(output);
    assert(ls@.map_values(|l: Vec<char>| l@) =~= lines(output@));
    ruby_duration_v(&ls)
}

// ---------------------------------------------------------------------------
// Small helpers
// ---------------------------------------------------------------------------

/// A message cut to its first `max_len` bytes, marked with `...`.
pub open spec fn cut_to(s: Seq<char>, max_len: nat) -> Seq<char> {
    if utf8_len(s) <= max_len { s } else { s.take(chars_in_bytes(s, max_len)->0 as int) + "..."@ }
}

/// Truncate a message to `max_len` bytes, marking the cut with `...`.
pub fn truncate_message(s: &str, max_len: usize) -> (r: String)
    requires
        utf8_len(s@) > max_len ==> chars_in_bytes(s@, max_len as nat) is Some,
    ensures
        r@ == cut_to(s@, max_len as nat),
{
    let v = chars_of(s);
    if utf8_len_v(&v) <= max_len as u128 {
        return string_of(&v);
    }
    let mut out = take_bytes(&v, max_len as u128);
    append_str(&mut out, "...");
    string_of(&out)
}

/// The text after a failure number such as `12) `: the digits before the
/// first `) ` (after the first character, itself a digit), then trimmed at
/// the start.
pub open spec fn failure_number_rest(s: Seq<char>) -> Option<Seq<char>> {
    if s.len() == 0 || !is_digit(s[0]) {
        None
    } else {
        let rest = s.skip(1);
        match find(rest, ") "@) {
            Some(idx) => if crate::num::all_digits(rest.take(idx)) { Some(trim_start(s.skip(idx + 3))) } else { None },
            None => None,
        }
    }
}

fn failure_number_rest_v(s: &Vec<char>) -> (r: Option<Vec<char>>)
    ensures
        match r {
            Some(x) => failure_number_rest(s@) == Some(x@),
            None => failure_number_rest(s@) is None,
        },
{
    let n = s.len();
    if n == 0 || !crate::text::is_ascii_digit(s[0]) {
        return None;
    }
    let rest = slice(s, 1, n);
    assert(rest@ =~= s@.skip(1));
    match find_str(&rest, ") ") {
        Some(idx) => {
            proof {
                reveal_strlit(") ");
            }
            let before = slice(&rest, 0, idx);
            assert(before@ =~= rest@.take(idx as int));
            if crate::num::all_digits_v(&before) {
                let tail = slice(s, idx + 3, n);
                assert(tail@ =~= s@.skip(idx + 3));
                Some(trim_start_v(&tail))
            } else {
                None
            }
        },
        None => None,
    }
}

/// Strip a failure number prefix such as `1) `.
pub fn strip_failure_number(s: &str) -> (r: Option<String>)
    ensures
        match r {
            Some(x) => failure_number_rest(s@) == Some(x@),
            None => failure_number_rest(s@) is None,
        },
{
    match failure_number_rest_v(&chars_of(s)) {
        Some(x) => Some(string_of(&x)),
        None => None,
    }
}

/// Seconds at the start of `0.02s)` (zero when there is no number).
pub open spec fn inline_duration(s: Seq<char>) -> nat {
    match decimal_nanos(s.take(num_prefix_len(s) as int), 1_000_000_000, 9, 1) {
        Some(d) => d,
        None => 0,
    }
}

fn inline_duration_v(s: &Vec<char>) -> (d: Duration)
    ensures
        d.ns() == inline_duration(s@),
{
    match parse_secs(&num_prefix(s)) {
        Some(d) => d,
        None => Duration::zero(),
    }
}

/// Parse the time at the start of `0.02s)`.
pub fn parse_rspec_inline_duration(s: &str) -> (d: Duration)
    ensures
        d.ns() == inline_duration(s@),
{
    inline_duration_v(&chars_of(s))
}

// ---------------------------------------------------------------------------
// Documentation format (RSpec)
// ---------------------------------------------------------------------------

/// An RSpec result line: `allows login (0.02s)`, `shows error (FAILED - 1)`,
/// `is pending (PENDING: ...)`.
pub open spec fn is_rspec_test(l: Seq<char>) -> bool {
    contains(l, "(FAILED"@) || contains(l, "(PENDING"@) || (ends_with(l, ")"@) && contains(l, seq!['(']) && contains(l, "s)"@))
}

/// Name, status and time of an RSpec result line.
pub open spec fn rspec_test_line(l: Seq<char>) -> (Seq<char>, TestStatus, nat) {
    if contains(l, "(FAILED"@) {
        (trim(first_piece(l, "(FAILED"@)), TestStatus::Failed, 0)
    } else if contains(l, "(PENDING"@) {
        (trim(first_piece(l, "(PENDING"@)), TestStatus::Skipped, 0)
    } else {
        match rfind(l, seq!['(']) {
            Some(p) => (trim(l.take(p)), TestStatus::Passed, inline_duration(l.skip(p + 1))),
            None => (trim(l), TestStatus::Passed, 0),
        }
    }
}

fn is_rspec_test_v(l: &Vec<char>) -> (b: bool)
    ensures
        b == is_rspec_test(l@),
{
    contains_str(l, "(FAILED") || contains_str(l, "(PENDING") || (ends_with_str(l, ")") && contains_char(l, '(') && contains_str(l, "s)"))
}

fn rspec_test_line_v(l: &Vec<char>) -> (r: (Vec<char>, TestStatus, Duration))
    ensures
        (r.0@, r.1, r.2.ns()) == rspec_test_line(l@),
{
    if contains_str(l, "(FAILED") {
        let head = crate::adapters::python::first_piece_v(l, &chars_of("(FAILED"));
        return (trim_v(&head), TestStatus::Failed, Duration::zero());
    }
    if contains_str(l, "(PENDING") {
        let head = crate::adapters::python::first_piece_v(l, &chars_of("(PENDING"));
        return (trim_v(&head), TestStatus::Skipped, Duration::zero());
    }
    let mut open: Vec<char> = Vec::new();
    open.push('(');
    assert(open@ =~= seq!['(']);
    let n = l.len();
    match crate::text::rfind_v(l, &open) {
        Some(p) => {
            let head = slice(l, 0, p);
            assert(head@ =~= l@.take(p as int));
            let tail = slice(l, p + 1, n);
            assert(tail@ =~= l@.skip(p + 1));
            (trim_v(&head), TestStatus::Passed, inline_duration_v(&tail))
        },
        None => (trim_v(l), TestStatus::Passed, Duration::zero()),
    }
}

/// Check whether a line is an RSpec result line.
pub fn is_rspec_test_line(line: &str) -> (b: bool)
    ensures
        b == is_rspec_test(line@),
{
    is_rspec_test_v(&chars_of(line))
}

/// Split an RSpec result line into name, status and time.
pub fn parse_rspec_test_line(line: &str) -> (r: (String, TestStatus, Duration))
    ensures
        (r.0@, r.1, r.2.ns()) == rspec_test_line(line@),
{
    let (n, st, d) = rspec_test_line_v(&chars_of(line));
    (string_of(&n), st, d)
}

/// Lines the documentation reader passes over.
pub open spec fn rspec_skipped(t: Seq<char>) -> bool {
    t.len() == 0 || starts_with(t, "Finished in"@) || starts_with(t, "Failures:"@) || starts_with(t, "Pending:"@)
        || is_rspec_summary(t)
}

/// A describe/context line (no comment, failure or location line).
pub open spec fn is_context_line(t: Seq<char>) -> bool {
    !starts_with(t, "#"@) && !starts_with(t, "1)"@) && !starts_with(t, "2)"@) && !starts_with(t, "3)"@)
        && !contains(t, "Failure/Error"@) && !contains(t, "expected:"@) && !contains(t, "got:"@) && !starts_with(t, "./"@)
}

/// Bytes of leading whitespace.
pub open spec fn indent(line: Seq<char>) -> nat {
    (utf8_len(line) - utf8_len(trim_start(line))) as nat
}

pub struct RsState {
    pub suites: Seq<SuiteView>,
    pub context: Seq<Seq<char>>,
    pub tests: Seq<CaseView>,
    pub cur: Seq<char>,
}

/// Effect of one line: a result line adds a case named after the open
/// contexts; a context line at depth `indent / 2` closes deeper contexts,
/// and at depth 0 closes the suite and names the next.
pub open spec fn rs_step(st: RsState, line: Seq<char>) -> RsState {
    let t = trim(line);
    if rspec_skipped(t) {
        st
    } else if is_rspec_test(t) {
        let (n, s, d) = rspec_test_line(t);
        let full = if st.context.len() == 0 { n } else { join(st.context, " "@) + " "@ + n };
        RsState { tests: st.tests.push(CaseView { name: full, status: s, duration: d, error: None }), ..st }
    } else if is_context_line(t) {
        let level = indent(line) / 2;
        let ctx = if st.context.len() > level { st.context.take(level as int) } else { st.context };
        let close = level == 0 && st.tests.len() > 0;
        RsState {
            suites: if close {
                st.suites.push(SuiteView { name: if st.cur.len() == 0 { "spec"@ } else { st.cur }, tests: st.tests })
            } else {
                st.suites
            },
            context: if ctx.len() == level { ctx.push(t) } else { ctx },
            tests: if close { seq![] } else { st.tests },
            cur: if level == 0 { t } else { st.cur },
        }
    } else {
        st
    }
}

pub open spec fn rs_fold(ls: Seq<Seq<char>>) -> RsState
    decreases ls.len(),
{
    if ls.len() == 0 {
        RsState { suites: seq![], context: seq![], tests: seq![], cur: seq![] }
    } else {
        rs_step(rs_fold(ls.drop_last()), ls.last())
    }
}

/// The suites of RSpec documentation output.
pub open spec fn rspec_verbose(ls: Seq<Seq<char>>) -> Seq<SuiteView> {
    let st = rs_fold(ls);
    if st.tests.len() > 0 {
        st.suites.push(SuiteView { name: if st.cur.len() == 0 { "spec"@ } else { st.cur }, tests: st.tests })
    } else {
        st.suites
    }
}

fn is_context_line_v(t: &Vec<char>) -> (b: bool)
    ensures
        b == is_context_line(t@),
{
    !starts_with_str(t, "#") && !starts_with_str(t, "1)") && !starts_with_str(t, "2)") && !starts_with_str(t, "3)")
        && !contains_str(t, "Failure/Error") && !contains_str(t, "expected:") && !contains_str(t, "got:") && !starts_with_str(t, "./")
}

proof fn lemma_utf8_len_suffix(s: Seq<char>)
    ensures
        utf8_len(trim_start(s)) <= utf8_len(s),
    decreases s.len(),
{
    if s.len() > 0 && crate::text::is_ws(s[0]) {
        lemma_utf8_len_suffix(s.drop_first());
        lemma_utf8_len_first(s);
    }
}

proof fn lemma_utf8_len_first(s: Seq<char>)
    requires
        s.len() > 0,
    ensures
        utf8_len(s) == crate::adapters::util::utf8_width(s[0]) + utf8_len(s.drop_first()),
    decreases s.len(),
{
    assert(utf8_len(s) == utf8_len(s.drop_last()) + crate::adapters::util::utf8_width(s.last()));
    if s.len() > 1 {
        lemma_utf8_len_first(s.drop_last());
        assert(s.drop_last().drop_first() =~= s.drop_first().drop_last());
        assert(s.drop_first().last() == s.last());
        assert(s.drop_last()[0] == s[0]);
        assert(utf8_len(s.drop_first()) == utf8_len(s.drop_first().drop_last()) + crate::adapters::util::utf8_width(s.drop_first().last()));
    } else {
        assert(s.drop_first() =~= Seq::<char>::empty());
        assert(s.drop_last() =~= Seq::<char>::empty());
        assert(utf8_len(Seq::<char>::empty()) == 0);
    }
}

fn rspec_verbose_v(ls: &Vec<Vec<char>>) -> (r: Vec<TestSuite>)
    ensures
        suites_view(r@) == rspec_verbose(ls@.map_values(|l: Vec<char>| l@)),
{
    let ghost lv = ls@.map_values(|l: Vec<char>| l@);
    let mut suites: Vec<TestSuite> = Vec::new();
    let mut context: Vec<Vec<char>> = Vec::new();
    let mut tests: Vec<TestCase> = Vec::new();
    let mut cur: Vec<char> = Vec::new();
    assert(suites_view(suites@) =~= seq![]);
    assert(cases_view(tests@) =~= seq![]);
    assert(context@.map_values(|x: Vec<char>| x@) =~= seq![]);
    let mut i: usize = 0;
    while i < ls.len()
        invariant
            i <= ls.len(),
            lv == ls@.map_values(|l: Vec<char>| l@),
            (RsState {
                suites: suites_view(suites@),
                context: context@.map_values(|x: Vec<char>| x@),
                tests: cases_view(tests@),
                cur: cur@,
            }) == rs_fold(lv.take(i as int)),
        decreases ls.len() - i,
    {
        assert(lv.take(i + 1).drop_last() =~= lv.take(i as int));
        assert(lv.take(i + 1).last() == ls@[i as int]@);
        let line = &ls[i];
        let t = trim_v(line);
        let skipped = t.len() == 0 || starts_with_str(&t, "Finished in") || starts_with_str(&t, "Failures:")
            || starts_with_str(&t, "Pending:") || (contains_str(&t, "example") && (contains_str(&t, "failure")
            || contains_str(&t, "pending")));
        if skipped {
        } else if is_rspec_test_v(&t) {
            let (n, st, d) = rspec_test_line_v(&t);
            let full = if context.len() == 0 {
                n
            } else {
                let mut f = join_v(&context, &chars_of(" "));
                append_str(&mut f, " ");
                append(&mut f, &n);
                f
            };
            let c = TestCase { name: string_of(&full), status: st, duration: d, error: None };
            let ghost before = tests@;
            tests.push(c);
            assert(cases_view(tests@) =~= cases_view(before).push(c@));
        } else if is_context_line_v(&t) {
            let total = utf8_len_v(line);
            let body = utf8_len_v(&trim_start_v(line));
            proof {
                lemma_utf8_len_suffix(line@);
            }
            let level: u128 = (total - body) / 2;
            assert(level == indent(line@) / 2);
            let ghost ctx0 = context@.map_values(|x: Vec<char>| x@);
            while context.len() as u128 > level
                invariant
                    ctx0.len() > level ==> context@.map_values(|x: Vec<char>| x@) == ctx0.take(context@.len() as int),
                    ctx0.len() <= level ==> context@.map_values(|x: Vec<char>| x@) == ctx0,
                    context@.len() >= level || ctx0.len() <= level,
                    context@.len() <= ctx0.len(),
                decreases context.len(),
            {
                let ghost before = context@.map_values(|x: Vec<char>| x@);
                context.pop();
                assert(context@.map_values(|x: Vec<char>| x@) =~= before.drop_last());
                assert(ctx0.take(context@.len() as int) =~= ctx0.take(context@.len() as int + 1).drop_last());
            }
            proof {
                if ctx0.len() > level {
                    assert(context@.len() == level);
                }
            }
            if level == 0 && tests.len() > 0 {
                let mut moved: Vec<TestCase> = Vec::new();
                std::mem::swap(&mut moved, &mut tests);
                let name = if cur.len() == 0 { chars_of("spec") } else { slice(&cur, 0, cur.len()) };
                assert(cur.len() > 0 ==> name@ =~= cur@);
                let s = TestSuite { name: string_of(&name), tests: moved };
                let ghost before = suites@;
                suites.push(s);
                assert(suites_view(suites@) =~= suites_view(before).push(s@));
                assert(cases_view(tests@) =~= seq![]);
            }
            if level == 0 {
                cur = slice(&t, 0, t.len());
                assert(cur@ =~= t@);
            }
            if context.len() as u128 == level {
                let ghost before = context@.map_values(|x: Vec<char>| x@);
                let c = slice(&t, 0, t.len());
                assert(c@ =~= t@);
                context.push(c);
                assert(context@.map_values(|x: Vec<char>| x@) =~= before.push(t@));
            }
        }
        i += 1;
    }
    assert(lv.take(ls.len() as int) =~= lv);
    if tests.len() > 0 {
        let name = if cur.len() == 0 { chars_of("spec") } else { cur };
        let s = TestSuite { name: string_of(&name), tests };
        let ghost before = suites@;
        suites.push(s);
        assert(suites_view(suites@) =~= suites_view(before).push(s@));
    }
    suites
}

/// Parse RSpec documentation-format output into suites.
pub fn parse_rspec_verbose(output: &str) -> (r: Vec<TestSuite>)
    ensures
        suites_view(r@) == rspec_verbose(lines(output@)),
{
    let ls = crate::text::lines_of(output);
    assert(ls@.map_values(|l: Vec<char>| l@) =~= lines(output@));
    rspec_verbose_v(&ls)
}

// ---------------------------------------------------------------------------
// Verbose format (Minitest)
// ---------------------------------------------------------------------------

/// Time and status of `0.01 s = .`: seconds before the first `=`, and `.`
/// (pass), `F`/`E` (fail) or `S` (skip) after it; anything else passes.
pub open spec fn mt_result(s: Seq<char>) -> (nat, TestStatus) {
    let parts = split_char(s, '=');
    let tp = trim(parts[0]);
    let d = match decimal_nanos(tp.take(num_prefix_len(tp) as int), 1_000_000_000, 9, 1) {
        Some(d) => d,
        None => 0,
    };
    let st = if parts.len() > 1 {
        let sc = trim(parts[1]);
        if sc == "."@ {
            TestStatus::Passed
        } else if sc == "F"@ || sc == "E"@ {
            TestStatus::Failed
        } else if sc == "S"@ {
            TestStatus::Skipped
        } else {
            TestStatus::Passed
        }
    } else {
        TestStatus::Passed
    };
    (d, st)
}

fn mt_result_v(s: &Vec<char>) -> (r: (Duration, TestStatus))
    ensures
        (r.0.ns(), r.1) == mt_result(s@),
{
    let parts = split_char_v(s, '=');
    let ghost pv = parts@.map_values(|x: Vec<char>| x@);
    proof {
        crate::text::lemma_split_nonempty(s@, '=');
    }
    assert(parts@[0]@ == pv[0]);
    let tp = trim_v(&parts[0]);
    proof {
        crate::text::lemma_num_prefix_len(tp@);
    }
    let d = match parse_secs(&num_prefix(&tp)) {
        Some(d) => d,
        None => Duration::zero(),
    };
    let st = if parts.len() > 1 {
        assert(parts@[1]@ == pv[1]);
        let sc = trim_v(&parts[1]);
        if eq(&sc, &chars_of(".")) {
            TestStatus::Passed
        } else if eq(&sc, &chars_of("F")) || eq(&sc, &chars_of("E")) {
            TestStatus::Failed
        } else if eq(&sc, &chars_of("S")) {
            TestStatus::Skipped
        } else {
            TestStatus::Passed
        }
    } else {
        TestStatus::Passed
    };
    (d, st)
}

/// Parse `0.01 s = .` into time and status.
pub fn parse_minitest_verbose_result(s: &str) -> (r: (Duration, TestStatus))
    ensures
        (r.0.ns(), r.1) == mt_result(s@),
{
    mt_result_v(&chars_of(s))
}

/// Class and case of `TestUser#test_name = 0.01 s = .`.
pub open spec fn mt_line(t: Seq<char>) -> Option<(Seq<char>, CaseView)> {
    match find(t, " = "@) {
        Some(i) => match find_char(t.take(i), '#') {
            Some(h) => {
                let (d, st) = mt_result(t.skip(i + 3));
                Some((t.take(i).take(h), CaseView { name: t.take(i).skip(h + 1), status: st, duration: d, error: None }))
            },
            None => None,
        },
        None => None,
    }
}

/// The suites of Minitest verbose output: one per class, in name order.
pub open spec fn minitest_verbose(ls: Seq<Seq<char>>) -> Seq<SuiteView>
    decreases ls.len(),
{
    if ls.len() == 0 {
        seq![]
    } else {
        match mt_line(trim(ls.last())) {
            Some((cls, c)) => group_add(minitest_verbose(ls.drop_last()), cls, c),
            None => minitest_verbose(ls.drop_last()),
        }
    }
}

fn minitest_verbose_v(ls: &Vec<Vec<char>>) -> (r: Vec<TestSuite>)
    ensures
        suites_view(r@) == minitest_verbose(ls@.map_values(|l: Vec<char>| l@)),
{
    let ghost lv = ls@.map_values(|l: Vec<char>| l@);
    let mut groups: Vec<TestSuite> = Vec::new();
    assert(suites_view(groups@) =~= seq![]);
    let mut i: usize = 0;
    while i < ls.len()
        invariant
            i <= ls.len(),
            lv == ls@.map_values(|l: Vec<char>| l@),
            suites_view(groups@) == minitest_verbose(lv.take(i as int)),
        decreases ls.len() - i,
    {
        assert(lv.take(i + 1).drop_last() =~= lv.take(i as int));
        assert(lv.take(i + 1).last() == ls@[i as int]@);
        let t = trim_v(&ls[i]);
        match find_str(&t, " = ") {
            Some(idx) => {
                proof {
                    reveal_strlit(" = ");
                }
                let n = t.len();
                let ct = slice(&t, 0, idx);
                assert(ct@ =~= t@.take(idx as int));
                let rest = slice(&t, idx + 3, n);
                assert(rest@ =~= t@.skip(idx + 3));
                match find_char_v(&ct, '#') {
                    Some(h) => {
                        let cn = ct.len();
                        let cls = slice(&ct, 0, h);
                        assert(cls@ =~= ct@.take(h as int));
                        let name = slice(&ct, h + 1, cn);
                        assert(name@ =~= ct@.skip(h + 1));
                        let (d, st) = mt_result_v(&rest);
                        let c = TestCase { name: string_of(&name), status: st, duration: d, error: None };
                        crate::adapters::elixir::group_add_v(&mut groups, &cls, c);
                    },
                    None => {},
                }
            },
            None => {},
        }
        i += 1;
    }
    assert(lv.take(ls.len() as int) =~= lv);
    groups
}

/// Parse Minitest verbose output into one suite per class.
pub fn parse_minitest_verbose(output: &str) -> (r: Vec<TestSuite>)
    ensures
        suites_view(r@) == minitest_verbose(lines(output@)),
{
    let ls = crate::text::lines_of(output);
    assert(ls@.map_values(|l: Vec<char>| l@) =~= lines(output@));
    minitest_verbose_v(&ls)
}

// ---------------------------------------------------------------------------
// Failure blocks
// ---------------------------------------------------------------------------

/// A failure block of RSpec output.
pub struct RspecFailure {
    pub name: String,
    pub message: String,
    pub location: Option<String>,
}

/// A failure block of Minitest output.
pub struct MinitestFailure {
    pub name: String,
    pub message: String,
    pub location: Option<String>,
}

pub struct RubyFailView {
    pub name: Seq<char>,
    pub message: Seq<char>,
    pub location: Option<Seq<char>>,
}

impl View for RspecFailure {
    type V = RubyFailView;

    open spec fn view(&self) -> RubyFailView {
        RubyFailView { name: self.name@, message: self.message@, location: opt_str_view(self.location) }
    }
}

impl View for MinitestFailure {
    type V = RubyFailView;

    open spec fn view(&self) -> RubyFailView {
        RubyFailView { name: self.name@, message: self.message@, location: opt_str_view(self.location) }
    }
}

pub open spec fn rspec_failures_view(fs: Seq<RspecFailure>) -> Seq<RubyFailView> {
    fs.map_values(|f: RspecFailure| f@)
}

pub open spec fn minitest_failures_view(fs: Seq<MinitestFailure>) -> Seq<RubyFailView> {
    fs.map_values(|f: MinitestFailure| f@)
}

pub struct BlockState {
    pub out: Seq<RubyFailView>,
    pub name: Option<Seq<char>>,
    pub msg: Seq<Seq<char>>,
    pub loc: Option<Seq<char>>,
    pub inside: bool,
    pub done: bool,
}

pub open spec fn empty_block_state() -> BlockState {
    BlockState { out: seq![], name: None, msg: seq![], loc: None, inside: false, done: false }
}

/// `st` with its open failure, if any, recorded (message lines joined by
/// newlines and trimmed) and closed.
pub open spec fn close_failure(st: BlockState) -> BlockState {
    match st.name {
        Some(n) => BlockState {
            out: st.out.push(RubyFailView { name: n, message: trim(join(st.msg, "\n"@)), location: st.loc }),
            name: None,
            loc: None,
            ..st
        },
        None => st,
    }
}

/// Effect of one (trimmed) line on the RSpec reader: `Failures:` opens the
/// section; `N) name` opens a failure; `# ./file` is its location;
/// `Failure/Error:` and other lines are message; `Finished in` or
/// `Pending:` ends the reading.
pub open spec fn rf_step(st: BlockState, t: Seq<char>) -> BlockState {
    if st.done {
        st
    } else if t == "Failures:"@ {
        BlockState { inside: true, ..st }
    } else if !st.inside {
        st
    } else if starts_with(t, "Finished in"@) || starts_with(t, "Pending:"@) {
        BlockState { done: true, ..close_failure(st) }
    } else {
        match failure_number_rest(t) {
            Some(rest) => BlockState { name: Some(rest), msg: seq![], loc: None, ..close_failure(st) },
            None => if st.name is None {
                st
            } else if starts_with(t, "# ./"@) || starts_with(t, "# /"@) {
                BlockState { loc: Some(trim_start_str(t, "# "@)), ..st }
            } else if starts_with(t, "Failure/Error:"@) {
                let m = trim(t.skip("Failure/Error:"@.len() as int));
                if m.len() > 0 { BlockState { msg: st.msg.push(m), ..st } } else { st }
            } else if t.len() > 0 {
                BlockState { msg: st.msg.push(t), ..st }
            } else {
                st
            },
        }
    }
}

pub open spec fn rf_fold(ls: Seq<Seq<char>>) -> BlockState
    decreases ls.len(),
{
    if ls.len() == 0 { empty_block_state() } else { rf_step(rf_fold(ls.drop_last()), trim(ls.last())) }
}

/// The RSpec failure blocks, in order.
pub open spec fn rspec_failures(ls: Seq<Seq<char>>) -> Seq<RubyFailView> {
    close_failure(rf_fold(ls)).out
}

/// A Minitest failure header: `1) Failure:` or `2) Error:`.
pub open spec fn is_mt_header(t: Seq<char>) -> bool {
    (ends_with(t, "Failure:"@) || ends_with(t, "Error:"@)) && t.len() > 0 && is_digit(t[0])
}

/// The line after a header names the test: `Class#test [file:line]:`.
pub open spec fn is_mt_name_line(t: Seq<char>) -> bool {
    contains(t, seq!['#']) && contains(t, seq!['['])
}

/// Effect of one (trimmed) line on the Minitest reader: a header opens a
/// failure; the next non-blank line names it (`Class#test [location]:`);
/// message lines follow until a blank line.
pub open spec fn mf_step(st: BlockState, t: Seq<char>) -> BlockState {
    if is_mt_header(t) {
        BlockState { inside: true, msg: seq![], loc: None, ..close_failure(st) }
    } else if st.inside && st.name is None {
        if is_mt_name_line(t) {
            let b = find_char(t, '[')->0;
            let np = trim(t.take(b));
            let tn = match find_char(np, '#') {
                Some(h) => np.skip(h + 1),
                None => np,
            };
            BlockState {
                name: Some(tn),
                loc: match find_char(t, ']') {
                    Some(cb) => Some(t.subrange(b + 1, cb)),
                    None => st.loc,
                },
                ..st
            }
        } else if t.len() > 0 {
            BlockState { name: Some(t), ..st }
        } else {
            st
        }
    } else if st.inside {
        if t.len() == 0 {
            BlockState { inside: false, msg: seq![], ..close_failure(st) }
        } else {
            BlockState { msg: st.msg.push(t), ..st }
        }
    } else {
        st
    }
}

pub open spec fn mf_fold(ls: Seq<Seq<char>>) -> BlockState
    decreases ls.len(),
{
    if ls.len() == 0 { empty_block_state() } else { mf_step(mf_fold(ls.drop_last()), trim(ls.last())) }
}

/// The Minitest failure blocks, in order.
pub open spec fn minitest_failures(ls: Seq<Seq<char>>) -> Seq<RubyFailView> {
    close_failure(mf_fold(ls)).out
}

/// Every name line read has its `]` after its `[`.
pub open spec fn mf_ok(ls: Seq<Seq<char>>) -> bool
    decreases ls.len(),
{
    if ls.len() == 0 {
        true
    } else {
        let st = mf_fold(ls.drop_last());
        let t = trim(ls.last());
        mf_ok(ls.drop_last()) && ((!is_mt_header(t) && st.inside && st.name is None && is_mt_name_line(t)
            && find_char(t, ']') is Some) ==> find_char(t, ']')->0 > find_char(t, '[')->0)
    }
}

struct BlockReader {
    out: Vec<(Vec<char>, Vec<char>, Option<Vec<char>>)>,
    name: Option<Vec<char>>,
    msg: Vec<Vec<char>>,
    loc: Option<Vec<char>>,
    inside: bool,
    done: bool,
}

pub open spec fn triple_view(t: (Vec<char>, Vec<char>, Option<Vec<char>>)) -> RubyFailView {
    RubyFailView { name: t.0@, message: t.1@, location: opt_chars(t.2) }
}

impl BlockReader {
    spec fn state(&self) -> BlockState {
        BlockState {
            out: self.out@.map_values(|t: (Vec<char>, Vec<char>, Option<Vec<char>>)| triple_view(t)),
            name: opt_chars(self.name),
            msg: self.msg@.map_values(|m: Vec<char>| m@),
            loc: opt_chars(self.loc),
            inside: self.inside,
            done: self.done,
        }
    }

    fn new() -> (r: Self)
        ensures
            r.state() == empty_block_state(),
    {
        let r = BlockReader { out: Vec::new(), name: None, msg: Vec::new(), loc: None, inside: false, done: false };
        assert(r.out@.map_values(|t: (Vec<char>, Vec<char>, Option<Vec<char>>)| triple_view(t)) =~= seq![]);
        assert(r.msg@.map_values(|m: Vec<char>| m@) =~= seq![]);
        r
    }

    fn close(&mut self)
        ensures
            final(self).state() == close_failure(old(self).state()),
    {
        let name = self.name.take();
        match name {
            Some(n) => {
                let message = trim_v(&join_v(&self.msg, &chars_of("\n")));
                let loc = self.loc.take();
                let t = (n, message, loc);
                let ghost before = self.out@.map_values(|t: (Vec<char>, Vec<char>, Option<Vec<char>>)| triple_view(t));
                self.out.push(t);
                assert(self.out@.map_values(|t: (Vec<char>, Vec<char>, Option<Vec<char>>)| triple_view(t)) =~= before.push(triple_view(t)));
            },
            None => {},
        }
    }

    fn push_msg(&mut self, m: Vec<char>)
        ensures
            final(self).state() == (BlockState { msg: old(self).state().msg.push(m@), ..old(self).state() }),
    {
        let ghost before = self.msg@.map_values(|x: Vec<char>| x@);
        self.msg.push(m);
        assert(self.msg@.map_values(|x: Vec<char>| x@) =~= before.push(m@));
    }

    fn rspec_step(&mut self, t: &Vec<char>)
        ensures
            final(self).state() == rf_step(old(self).state(), t@),
    {
        if self.done {
            return;
        }
        if eq(t, &chars_of("Failures:")) {
            self.inside = true;
            return;
        }
        if !self.inside {
            return;
        }
        if starts_with_str(t, "Finished in") || starts_with_str(t, "Pending:") {
            self.close();
            self.done = true;
            return;
        }
        match failure_number_rest_v(t) {
            Some(rest) => {
                self.close();
                self.name = Some(rest);
                self.msg = Vec::new();
                self.loc = None;
                assert(self.msg@.map_values(|x: Vec<char>| x@) =~= seq![]);
            },
            None => {
                if self.name.is_none() {
                } else if starts_with_str(t, "# ./") || starts_with_str(t, "# /") {
                    proof {
                        reveal_strlit("# ");
                    }
                    self.loc = Some(crate::adapters::javascript::trim_start_str_v(t, "# "));
                } else if starts_with_str(t, "Failure/Error:") {
                    let k = chars_of("Failure/Error:").len();
                    let n = t.len();
                    let tail = slice(t, k, n);
                    assert(tail@ =~= t@.skip("Failure/Error:"@.len() as int));
                    let m = trim_v(&tail);
                    if m.len() > 0 {
                        self.push_msg(m);
                    }
                } else if t.len() > 0 {
                    let c = slice(t, 0, t.len());
                    assert(c@ =~= t@);
                    self.push_msg(c);
                }
            },
        }
    }

    fn minitest_step(&mut self, t: &Vec<char>)
        requires
            (!is_mt_header(t@) && old(self).state().inside && old(self).state().name is None && is_mt_name_line(t@)
                && find_char(t@, ']') is Some) ==> find_char(t@, ']')->0 > find_char(t@, '[')->0,
        ensures
            final(self).state() == mf_step(old(self).state(), t@),
    {
        let header = (ends_with_str(t, "Failure:") || ends_with_str(t, "Error:")) && t.len() > 0 && crate::text::is_ascii_digit(t[0]);
        if header {
            self.close();
            self.inside = true;
            self.msg = Vec::new();
            self.loc = None;
            assert(self.msg@.map_values(|x: Vec<char>| x@) =~= seq![]);
            return;
        }
        if self.inside && self.name.is_none() {
            if contains_char(t, '#') && contains_char(t, '[') {
                let b = match find_char_v(t, '[') {
                    Some(b) => b,
                    None => 0,
                };
                let head = slice(t, 0, b);
                assert(head@ =~= t@.take(b as int));
                let np = trim_v(&head);
                let tn = match find_char_v(&np, '#') {
                    Some(h) => {
                        let pn = np.len();
                        let x = slice(&np, h + 1, pn);
                        assert(x@ =~= np@.skip(h + 1));
                        x
                    },
                    None => np,
                };
                self.name = Some(tn);
                match find_char_v(t, ']') {
                    Some(cb) => {
                        self.loc = Some(slice(t, b + 1, cb));
                    },
                    None => {},
                }
            } else if t.len() > 0 {
                let c = slice(t, 0, t.len());
                assert(c@ =~= t@);
                self.name = Some(c);
            }
            return;
        }
        if self.inside {
            if t.len() == 0 {
                self.close();
                self.inside = false;
                self.msg = Vec::new();
                assert(self.msg@.map_values(|x: Vec<char>| x@) =~= seq![]);
            } else {
                let c = slice(t, 0, t.len());
                assert(c@ =~= t@);
                self.push_msg(c);
            }
        }
    }
}

fn rspec_failures_v(ls: &Vec<Vec<char>>) -> (r: Vec<RspecFailure>)
    ensures
        rspec_failures_view(r@) == rspec_failures(ls@.map_values(|l: Vec<char>| l@)),
{
    let ghost lv = ls@.map_values(|l: Vec<char>| l@);
    let mut rd = BlockReader::new();
    let mut i: usize = 0;
    while i < ls.len()
        invariant
            i <= ls.len(),
            lv == ls@.map_values(|l: Vec<char>| l@),
            rd.state() == rf_fold(lv.take(i as int)),
        decreases ls.len() - i,
    {
        assert(lv.take(i + 1).drop_last() =~= lv.take(i as int));
        assert(lv.take(i + 1).last() == ls@[i as int]@);
        rd.rspec_step(&trim_v(&ls[i]));
        i += 1;
    }
    assert(lv.take(ls.len() as int) =~= lv);
    rd.close();
    let ghost goal = rd.state().out;
    let mut out: Vec<RspecFailure> = Vec::new();
    let mut j: usize = 0;
    while j < rd.out.len()
        invariant
            j <= rd.out.len(),
            goal == rd.out@.map_values(|t: (Vec<char>, Vec<char>, Option<Vec<char>>)| triple_view(t)),
            rspec_failures_view(out@) == goal.take(j as int),
        decreases rd.out.len() - j,
    {
        let t = &rd.out[j];
        let f = RspecFailure {
            name: string_of(&t.0),
            message: string_of(&t.1),
            location: match &t.2 {
                Some(l) => Some(string_of(l)),
                None => None,
            },
        };
        assert(f@ == goal[j as int]);
        let ghost before = rspec_failures_view(out@);
        out.push(f);
        assert(rspec_failures_view(out@) =~= before.push(f@));
        assert(goal.take(j + 1) =~= goal.take(j as int).push(goal[j as int]));
        j += 1;
    }
    assert(goal.take(rd.out.len() as int) =~= goal);
    out
}

fn minitest_failures_v(ls: &Vec<Vec<char>>) -> (r: Vec<MinitestFailure>)
    requires
        mf_ok(ls@.map_values(|l: Vec<char>| l@)),
    ensures
        minitest_failures_view(r@) == minitest_failures(ls@.map_values(|l: Vec<char>| l@)),
{
    let ghost lv = ls@.map_values(|l: Vec<char>| l@);
    let mut rd = BlockReader::new();
    let mut i: usize = 0;
    while i < ls.len()
        invariant
            i <= ls.len(),
            lv == ls@.map_values(|l: Vec<char>| l@),
            mf_ok(lv),
            rd.state() == mf_fold(lv.take(i as int)),
        decreases ls.len() - i,
    {
        assert(lv.take(i + 1).drop_last() =~= lv.take(i as int));
        assert(lv.take(i + 1).last() == ls@[i as int]@);
        proof {
            lemma_mf_ok_prefix(lv, (i + 1) as int);
        }
        rd.minitest_step(&trim_v(&ls[i]));
        i += 1;
    }
    assert(lv.take(ls.len() as int) =~= lv);
    rd.close();
    let ghost goal = rd.state().out;
    let mut out: Vec<MinitestFailure> = Vec::new();
    let mut j: usize = 0;
    while j < rd.out.len()
        invariant
            j <= rd.out.len(),
            goal == rd.out@.map_values(|t: (Vec<char>, Vec<char>, Option<Vec<char>>)| triple_view(t)),
            minitest_failures_view(out@) == goal.take(j as int),
        decreases rd.out.len() - j,
    {
        let t = &rd.out[j];
        let f = MinitestFailure {
            name: string_of(&t.0),
            message: string_of(&t.1),
            location: match &t.2 {
                Some(l) => Some(string_of(l)),
                None => None,
            },
        };
        assert(f@ == goal[j as int]);
        let ghost before = minitest_failures_view(out@);
        out.push(f);
        assert(minitest_failures_view(out@) =~= before.push(f@));
        assert(goal.take(j + 1) =~= goal.take(j as int).push(goal[j as int]));
        j += 1;
    }
    assert(goal.take(rd.out.len() as int) =~= goal);
    out
}

proof fn lemma_mf_ok_prefix(ls: Seq<Seq<char>>, n: int)
    requires
        0 < n <= ls.len(),
        mf_ok(ls),
    ensures
        mf_ok(ls.take(n)),
        ({
            let st = mf_fold(ls.take(n - 1));
            let t = trim(ls[n - 1]);
            (!is_mt_header(t) && st.inside && st.name is None && is_mt_name_line(t) && find_char(t, ']') is Some)
                ==> find_char(t, ']')->0 > find_char(t, '[')->0
        }),
    decreases ls.len() - n,
{
    if n == ls.len() {
        assert(ls.take(n) =~= ls);
    } else {
        lemma_mf_ok_prefix(ls, n + 1);
        assert(ls.take(n + 1).drop_last() =~= ls.take(n));
    }
    let p = ls.take(n);
    assert(mf_ok(p));
    assert(p.drop_last() =~= ls.take(n - 1));
    assert(p.last() == ls[n - 1]);
    let st = mf_fold(p.drop_last());
    let t = trim(p.last());
    assert((!is_mt_header(t) && st.inside && st.name is None && is_mt_name_line(t) && find_char(t, ']') is Some)
        ==> find_char(t, ']')->0 > find_char(t, '[')->0);
}

/// Parse the failure blocks of RSpec output.
pub fn parse_rspec_failures(output: &str) -> (r: Vec<RspecFailure>)
    ensures
        rspec_failures_view(r@) == rspec_failures(lines(output@)),
{
    let ls = crate::text::lines_of(output);
    assert(ls@.map_values(|l: Vec<char>| l@) =~= lines(output@));
    rspec_failures_v(&ls)
}

/// Parse the failure blocks of Minitest output.
pub fn parse_minitest_failures(output: &str) -> (r: Vec<MinitestFailure>)
    requires
        mf_ok(lines(output@)),
    ensures
        minitest_failures_view(r@) == minitest_failures(lines(output@)),
{
    let ls = crate::text::lines_of(output);
    assert(ls@.map_values(|l: Vec<char>| l@) =~= lines(output@));
    minitest_failures_v(&ls)
}


// ---------------------------------------------------------------------------
// Error enrichment
// ---------------------------------------------------------------------------

/// The first RSpec failure whose name contains the case name, or is
/// contained in it.
pub open spec fn rspec_match(fs: Seq<RubyFailView>, name: Seq<char>) -> Option<RubyFailView>
    decreases fs.len(),
{
    if fs.len() == 0 {
        None
    } else if contains(fs[0].name, name) || contains(name, fs[0].name) {
        Some(fs[0])
    } else {
        rspec_match(fs.drop_first(), name)
    }
}

/// The first Minitest failure named exactly as the case, or whose name the
/// case name contains.
pub open spec fn minitest_match(fs: Seq<RubyFailView>, name: Seq<char>) -> Option<RubyFailView>
    decreases fs.len(),
{
    if fs.len() == 0 {
        None
    } else if fs[0].name == name || contains(name, fs[0].name) {
        Some(fs[0])
    } else {
        minitest_match(fs.drop_first(), name)
    }
}

/// The failure block that explains a case: an RSpec match first, else a
/// Minitest match.
pub open spec fn ruby_pick(rf: Seq<RubyFailView>, mf: Seq<RubyFailView>, name: Seq<char>) -> Option<RubyFailView> {
    match rspec_match(rf, name) {
        Some(f) => Some(f),
        None => minitest_match(mf, name),
    }
}

/// A failed case without an error takes the message (cut at 500 bytes) and
/// location of the block that explains it; other cases stay as they are.
pub open spec fn ruby_enrich_case(c: CaseView, rf: Seq<RubyFailView>, mf: Seq<RubyFailView>) -> CaseView {
    if c.status == TestStatus::Failed && c.error is None {
        match ruby_pick(rf, mf, c.name) {
            Some(f) => CaseView {
                error: Some(ErrorView { message: cut_to(f.message, 500), location: f.location }),
                ..c
            },
            None => c,
        }
    } else {
        c
    }
}

pub open spec fn ruby_enrich(suites: Seq<SuiteView>, rf: Seq<RubyFailView>, mf: Seq<RubyFailView>) -> Seq<SuiteView> {
    suites.map_values(|s: SuiteView| SuiteView { name: s.name, tests: s.tests.map_values(|c: CaseView| ruby_enrich_case(c, rf, mf)) })
}

/// Every message that will be cut can be cut at its 500th byte.
pub open spec fn ruby_enrich_ok(suites: Seq<SuiteView>, rf: Seq<RubyFailView>, mf: Seq<RubyFailView>) -> bool {
    forall|i: int, j: int|
        0 <= i < suites.len() && 0 <= j < suites[i].tests.len() && suites[i].tests[j].status == TestStatus::Failed
            && suites[i].tests[j].error is None ==> (
        #[trigger] ruby_pick(rf, mf, suites[i].tests[j].name) matches Some(f) ==> cut_ok(f.message))
}

fn rspec_match_v(fs: &[RspecFailure], name: &Vec<char>) -> (r: Option<usize>)
    ensures
        match r {
            Some(k) => k < fs@.len() && rspec_match(rspec_failures_view(fs@), name@) == Some(fs@[k as int]@),
            None => rspec_match(rspec_failures_view(fs@), name@) is None,
        },
{
    let ghost fv = rspec_failures_view(fs@);
    let mut k: usize = 0;
    assert(fv.skip(0) =~= fv);
    while k < fs.len()
        invariant
            k <= fs@.len(),
            fv == rspec_failures_view(fs@),
            rspec_match(fv, name@) == rspec_match(fv.skip(k as int), name@),
        decreases fs@.len() - k,
    {
        assert(fv.skip(k as int)[0] == fs@[k as int]@);
        assert(fv.skip(k as int).drop_first() =~= fv.skip(k + 1));
        let fname = chars_of_string(&fs[k].name);
        if crate::text::contains_v(&fname, name) || crate::text::contains_v(name, &fname) {
            return Some(k);
        }
        k += 1;
    }
    None
}

fn minitest_match_v(fs: &[MinitestFailure], name: &Vec<char>) -> (r: Option<usize>)
    ensures
        match r {
            Some(k) => k < fs@.len() && minitest_match(minitest_failures_view(fs@), name@) == Some(fs@[k as int]@),
            None => minitest_match(minitest_failures_view(fs@), name@) is None,
        },
{
    let ghost fv = minitest_failures_view(fs@);
    let mut k: usize = 0;
    assert(fv.skip(0) =~= fv);
    while k < fs.len()
        invariant
            k <= fs@.len(),
            fv == minitest_failures_view(fs@),
            minitest_match(fv, name@) == minitest_match(fv.skip(k as int), name@),
        decreases fs@.len() - k,
    {
        assert(fv.skip(k as int)[0] == fs@[k as int]@);
        assert(fv.skip(k as int).drop_first() =~= fv.skip(k + 1));
        let fname = chars_of_string(&fs[k].name);
        if eq(&fname, name) || crate::text::contains_v(name, &fname) {
            return Some(k);
        }
        k += 1;
    }
    None
}

fn error_from(message: &String, location: &Option<String>) -> (e: TestError)
    requires
        cut_ok(message@),
    ensures
        e@ == (ErrorView { message: cut_to(message@, 500), location: opt_str_view(*location) }),
{
    let m = truncate_message(message.as_str(), 500);
    let loc = match location {
        Some(l) => Some(string_of(&chars_of_string(l))),
        None => None,
    };
    TestError { message: m, location: loc }
}

fn ruby_enrich_case_v(c: TestCase, rf: &[RspecFailure], mf: &[MinitestFailure]) -> (r: TestCase)
    requires
        c@.status == TestStatus::Failed && c@.error is None ==> (
            ruby_pick(rspec_failures_view(rf@), minitest_failures_view(mf@), c@.name) matches Some(f) ==> cut_ok(f.message)),
    ensures
        r@ == ruby_enrich_case(c@, rspec_failures_view(rf@), minitest_failures_view(mf@)),
{
    let failed = match c.status {
        TestStatus::Failed => true,
        _ => false,
    };
    if !failed || c.error.is_some() {
        return c;
    }
    let name = chars_of_string(&c.name);
    match rspec_match_v(rf, &name) {
        Some(k) => {
            let f = &rf[k];
            let e = error_from(&f.message, &f.location);
            TestCase { name: c.name, status: c.status, duration: c.duration, error: Some(e) }
        },
        None => match minitest_match_v(mf, &name) {
            Some(k) => {
                let f = &mf[k];
                let e = error_from(&f.message, &f.location);
                TestCase { name: c.name, status: c.status, duration: c.duration, error: Some(e) }
            },
            None => c,
        },
    }
}

/// Give failed cases without an error the message and location of the
/// failure block that explains them.
pub fn enrich_with_errors(suites: Vec<TestSuite>, rspec_failures: &[RspecFailure], minitest_failures: &[MinitestFailure]) -> (r: Vec<TestSuite>)
    requires
        ruby_enrich_ok(suites_view(suites@), rspec_failures_view(rspec_failures@), minitest_failures_view(minitest_failures@)),
    ensures
        suites_view(r@) == ruby_enrich(suites_view(suites@), rspec_failures_view(rspec_failures@), minitest_failures_view(minitest_failures@)),
{
    let ghost sv = suites_view(suites@);
    let ghost rv = rspec_failures_view(rspec_failures@);
    let ghost mv = minitest_failures_view(minitest_failures@);
    let ghost goal = ruby_enrich(sv, rv, mv);
    let mut out: Vec<TestSuite> = Vec::new();
    let ghost total: int = suites.len() as int;
    let mut rest = suites;
    let mut i: usize = 0;
    assert(rest@ =~= suites@.skip(0));
    while rest.len() > 0
        invariant
            i <= sv.len(),
            i + rest@.len() == suites@.len(),
            total == suites@.len(),
            total <= usize::MAX,
            rest@ == suites@.skip(i as int),
            sv == suites_view(suites@),
            rv == rspec_failures_view(rspec_failures@),
            mv == minitest_failures_view(minitest_failures@),
            goal == ruby_enrich(sv, rv, mv),
            ruby_enrich_ok(sv, rv, mv),
            suites_view(out@) == goal.take(i as int),
        decreases rest.len(),
    {
        let s = rest.remove(0);
        assert(s == suites@[i as int]);
        assert(rest@ =~= suites@.skip(i + 1));
        let ghost si = sv[i as int];
        let mut tests: Vec<TestCase> = Vec::new();
        let ghost n: int = s.tests.len() as int;
        let mut src = s.tests;
        let mut j: usize = 0;
        assert(src@ =~= s.tests@.skip(0));
        while src.len() > 0
            invariant
                j <= si.tests.len(),
                j + src@.len() == s.tests@.len(),
                n == s.tests@.len(),
                n <= usize::MAX,
                si == sv[i as int],
                si.tests == cases_view(s.tests@),
                src@ == s.tests@.skip(j as int),
                0 <= i < sv.len(),
                ruby_enrich_ok(sv, rv, mv),
                rv == rspec_failures_view(rspec_failures@),
                mv == minitest_failures_view(minitest_failures@),
                cases_view(tests@) == si.tests.take(j as int).map_values(|c: CaseView| ruby_enrich_case(c, rv, mv)),
            decreases src.len(),
        {
            let c = src.remove(0);
            assert(c == s.tests@[j as int]);
            assert(src@ =~= s.tests@.skip(j + 1));
            assert(c@ == si.tests[j as int]);
            proof {
                let _ = ruby_pick(rv, mv, sv[i as int].tests[j as int].name);
            }
            let e = ruby_enrich_case_v(c, rspec_failures, minitest_failures);
            let ghost before = tests@;
            tests.push(e);
            assert(cases_view(tests@) =~= cases_view(before).push(e@));
            assert(si.tests.take(j + 1).map_values(|c: CaseView| ruby_enrich_case(c, rv, mv))
                =~= si.tests.take(j as int).map_values(|c: CaseView| ruby_enrich_case(c, rv, mv)).push(ruby_enrich_case(si.tests[j as int], rv, mv)));
            j += 1;
        }
        assert(si.tests.take(j as int) =~= si.tests);
        let ns = TestSuite { name: s.name, tests };
        let ghost before = out@;
        out.push(ns);
        assert(suites_view(out@) =~= suites_view(before).push(ns@));
        assert(goal.take(i + 1) =~= goal.take(i as int).push(goal[i as int]));
        i += 1;
    }
    assert(goal.take(i as int) =~= goal);
    out
}


// ---------------------------------------------------------------------------
// The run
// ---------------------------------------------------------------------------

/// Some suite has a case.
pub open spec fn any_cases(ss: Seq<SuiteView>) -> bool {
    exists|i: int| 0 <= i < ss.len() && #[trigger] ss[i].tests.len() > 0
}

/// Output mentioning examples is RSpec output; other output is Minitest
/// output.
pub open spec fn is_rspec_output(c: Seq<char>) -> bool {
    contains(c, "example"@) || contains(c, "Example"@)
}

/// The suites before enrichment: the verbose suites when they hold a case,
/// else the one summary suite.
pub open spec fn ruby_suites(c: Seq<char>, exit_code: i32) -> Seq<SuiteView> {
    let ls = lines(c);
    if is_rspec_output(c) {
        let v = rspec_verbose(ls);
        if any_cases(v) { v } else { seq![rspec_summary_suite(ls, exit_code)] }
    } else {
        let v = minitest_verbose(ls);
        if any_cases(v) { v } else { seq![minitest_summary_suite(ls, exit_code)] }
    }
}

/// Output that can be read without a cut falling inside a character and
/// without counts overflowing.
pub open spec fn ruby_readable(stdout: Seq<char>, stderr: Seq<char>, exit_code: i32) -> bool {
    let c = stdout + seq!['\n'] + stderr;
    let ls = lines(c);
    &&& is_rspec_output(c) && !any_cases(rspec_verbose(ls)) ==> ruby_summary_fits(ls, true)
    &&& !is_rspec_output(c) && !any_cases(minitest_verbose(ls)) ==> ruby_summary_fits(ls, false)
    &&& mf_ok(ls)
    &&& ruby_enrich_ok(ruby_suites(c, exit_code), rspec_failures(ls), minitest_failures(ls))
    &&& ruby_duration_safe(ls)
}

/// The run RSpec or Minitest output describes (stdout and stderr joined by
/// a newline).
pub open spec fn ruby_run(stdout: Seq<char>, stderr: Seq<char>, exit_code: i32) -> RunView {
    let c = stdout + seq!['\n'] + stderr;
    let ls = lines(c);
    RunView {
        suites: ruby_enrich(ruby_suites(c, exit_code), rspec_failures(ls), minitest_failures(ls)),
        duration: match ruby_duration(ls) {
            Some(d) => d,
            None => 0,
        },
        raw_exit_code: exit_code,
    }
}

fn any_cases_v(ss: &Vec<TestSuite>) -> (b: bool)
    ensures
        b == any_cases(suites_view(ss@)),
{
    let ghost sv = suites_view(ss@);
    let mut k: usize = 0;
    while k < ss.len()
        invariant
            k <= ss.len(),
            sv == suites_view(ss@),
            forall|i: int| 0 <= i < k ==> #[trigger] sv[i].tests.len() == 0,
        decreases ss.len() - k,
    {
        assert(sv[k as int].tests.len() == ss@[k as int].tests.len());
        if ss[k].tests.len() > 0 {
            return true;
        }
        k += 1;
    }
    false
}

fn ruby_duration_safe_v(ls: &Vec<Vec<char>>) -> (b: bool)
    ensures
        b == ruby_duration_safe(ls@.map_values(|l: Vec<char>| l@)),
{
    let ghost lv = ls@.map_values(|l: Vec<char>| l@);
    let mut i: usize = 0;
    assert(lv.skip(0) =~= lv);
    while i < ls.len()
        invariant
            i <= ls.len(),
            lv == ls@.map_values(|l: Vec<char>| l@),
            ruby_duration_safe(lv) == ruby_duration_safe(lv.skip(i as int)),
        decreases ls.len() - i,
    {
        assert(lv.skip(i as int)[0] == ls@[i as int]@);
        assert(lv.skip(i as int).drop_first() =~= lv.skip(i + 1));
        let l = &ls[i];
        if contains_str(l, "Finished in") && (contains_str(l, "second") || contains_str(l, "runs/s")) {
            match crate::adapters::elixir::fin_check_v(l) {
                None => {
                    return false;
                },
                Some(found) => {
                    if found {
                        return true;
                    }
                },
            }
        }
        i += 1;
    }
    assert(lv.skip(ls.len() as int) =~= seq![]);
    true
}

fn mf_ok_v(ls: &Vec<Vec<char>>) -> (b: bool)
    ensures
        b == mf_ok(ls@.map_values(|l: Vec<char>| l@)),
{
    let ghost lv = ls@.map_values(|l: Vec<char>| l@);
    let mut rd = BlockReader::new();
    let mut i: usize = 0;
    assert(lv.take(0) =~= seq![]);
    while i < ls.len()
        invariant
            i <= ls.len(),
            lv == ls@.map_values(|l: Vec<char>| l@),
            rd.state() == mf_fold(lv.take(i as int)),
            mf_ok(lv.take(i as int)),
        decreases ls.len() - i,
    {
        let ghost p = lv.take(i + 1);
        assert(p.drop_last() =~= lv.take(i as int));
        assert(p.last() == ls@[i as int]@);
        let t = trim_v(&ls[i]);
        let header = (ends_with_str(&t, "Failure:") || ends_with_str(&t, "Error:")) && t.len() > 0
            && crate::text::is_ascii_digit(t[0]);
        assert(header == is_mt_header(t@));
        if !header && rd.inside && rd.name.is_none() && contains_char(&t, '#') && contains_char(&t, '[') {
            match find_char_v(&t, ']') {
                Some(cb) => {
                    let ob = match find_char_v(&t, '[') {
                        Some(ob) => ob,
                        None => 0,
                    };
                    if cb <= ob {
                        proof {
                            if mf_ok(lv) {
                                lemma_mf_ok_prefix(lv, (i + 1) as int);
                            }
                        }
                        return false;
                    }
                },
                None => {},
            }
        }
        rd.minitest_step(&t);
        assert(mf_ok(p));
        i += 1;
    }
    assert(lv.take(ls.len() as int) =~= lv);
    true
}

fn ruby_enrich_ok_v(suites: &Vec<TestSuite>, rf: &[RspecFailure], mf: &[MinitestFailure]) -> (b: bool)
    ensures
        b == ruby_enrich_ok(suites_view(suites@), rspec_failures_view(rf@), minitest_failures_view(mf@)),
{
    let ghost sv = suites_view(suites@);
    let ghost rv = rspec_failures_view(rf@);
    let ghost mv = minitest_failures_view(mf@);
    let mut i: usize = 0;
    while i < suites.len()
        invariant
            i <= suites.len(),
            sv == suites_view(suites@),
            rv == rspec_failures_view(rf@),
            mv == minitest_failures_view(mf@),
            forall|ii: int, jj: int|
                0 <= ii < i && 0 <= jj < sv[ii].tests.len() && sv[ii].tests[jj].status == TestStatus::Failed
                    && sv[ii].tests[jj].error is None ==> (
                #[trigger] ruby_pick(rv, mv, sv[ii].tests[jj].name) matches Some(f) ==> cut_ok(f.message)),
        decreases suites.len() - i,
    {
        let s = &suites[i];
        assert(sv[i as int] == s@);
        let mut j: usize = 0;
        while j < s.tests.len()
            invariant
                j <= s.tests.len(),
                i < suites.len(),
                s == &suites[i as int],
                sv == suites_view(suites@),
                rv == rspec_failures_view(rf@),
                mv == minitest_failures_view(mf@),
                sv[i as int] == s@,
                forall|ii: int, jj: int|
                    0 <= ii < i && 0 <= jj < sv[ii].tests.len() && sv[ii].tests[jj].status == TestStatus::Failed
                        && sv[ii].tests[jj].error is None ==> (
                    #[trigger] ruby_pick(rv, mv, sv[ii].tests[jj].name) matches Some(f) ==> cut_ok(f.message)),
                forall|jj: int|
                    0 <= jj < j && sv[i as int].tests[jj].status == TestStatus::Failed
                        && sv[i as int].tests[jj].error is None ==> (
                    #[trigger] ruby_pick(rv, mv, sv[i as int].tests[jj].name) matches Some(f) ==> cut_ok(f.message)),
            decreases s.tests.len() - j,
        {
            let c = &s.tests[j];
            assert(sv[i as int].tests[j as int] == c@);
            let failed = match c.status {
                TestStatus::Failed => true,
                _ => false,
            };
            if failed && c.error.is_none() {
                let name = chars_of_string(&c.name);
                let m: Option<Vec<char>> = match rspec_match_v(rf, &name) {
                    Some(k) => Some(chars_of_string(&rf[k].message)),
                    None => match minitest_match_v(mf, &name) {
                        Some(k) => Some(chars_of_string(&mf[k].message)),
                        None => None,
                    },
                };
                match m {
                    Some(m) => {
                        if !crate::adapters::elixir::cut_ok_v(&m) {
                            assert(!ruby_enrich_ok(sv, rv, mv)) by {
                                assert(ruby_pick(rv, mv, sv[i as int].tests[j as int].name) matches Some(f) && f.message == m@);
                            }
                            return false;
                        }
                    },
                    None => {},
                }
            }
            j += 1;
        }
        assert forall|ii: int, jj: int|
            0 <= ii < i + 1 && 0 <= jj < sv[ii].tests.len() && sv[ii].tests[jj].status == TestStatus::Failed
                && sv[ii].tests[jj].error is None implies (
            #[trigger] ruby_pick(rv, mv, sv[ii].tests[jj].name) matches Some(f) ==> cut_ok(f.message)) by {
            if ii == i as int {
            }
        }
        i += 1;
    }
    true
}

impl RubyAdapter {
    /// Whether the output can be read: counts fit in machine words, every
    /// message to be cut can be cut at its 500th byte, and every place read
    /// is inside its line.
    pub fn readable(&self, stdout: &str, stderr: &str, exit_code: i32) -> (b: bool)
        ensures
            b == ruby_readable(stdout@, stderr@, exit_code),
    {
        let mut combined = chars_of(stdout);
        combined.push('\n');
        append_str(&mut combined, stderr);
        assert(combined@ =~= stdout@ + seq!['\n'] + stderr@);
        let ls = lines_v(&combined);
        let ghost lv = ls@.map_values(|l: Vec<char>| l@);
        assert(lv =~= lines(stdout@ + seq!['\n'] + stderr@));
        if !mf_ok_v(&ls) || !ruby_duration_safe_v(&ls) {
            return false;
        }
        let suites = if contains_str(&combined, "example") || contains_str(&combined, "Example") {
            let v = rspec_verbose_v(&ls);
            if any_cases_v(&v) {
                v
            } else {
                if !ruby_summary_fits_v(&ls, true) {
                    return false;
                }
                let mut w: Vec<TestSuite> = Vec::new();
                let s = rspec_summary_suite_v(&ls, exit_code);
                w.push(s);
                assert(suites_view(w@) =~= seq![s@]);
                w
            }
        } else {
            let v = minitest_verbose_v(&ls);
            if any_cases_v(&v) {
                v
            } else {
                if !ruby_summary_fits_v(&ls, false) {
                    return false;
                }
                let mut w: Vec<TestSuite> = Vec::new();
                let s = minitest_summary_suite_v(&ls, exit_code);
                w.push(s);
                assert(suites_view(w@) =~= seq![s@]);
                w
            }
        };
        let rf = rspec_failures_v(&ls);
        let mf = minitest_failures_v(&ls);
        ruby_enrich_ok_v(&suites, rf.as_slice(), mf.as_slice())
    }

    /// Parse RSpec or Minitest output into a run.
    pub fn parse_output(&self, stdout: &str, stderr: &str, exit_code: i32) -> (r: TestRunResult)
        requires
            ruby_readable(stdout@, stderr@, exit_code),
        ensures
            r@ == ruby_run(stdout@, stderr@, exit_code),
    {
        let mut combined = chars_of(stdout);
        combined.push('\n');
        append_str(&mut combined, stderr);
        assert(combined@ =~= stdout@ + seq!['\n'] + stderr@);
        let ls = lines_v(&combined);
        let ghost lv = ls@.map_values(|l: Vec<char>| l@);
        assert(lv =~= lines(stdout@ + seq!['\n'] + stderr@));
        let suites = if contains_str(&combined, "example") || contains_str(&combined, "Example") {
            let v = rspec_verbose_v(&ls);
            if any_cases_v(&v) {
                v
            } else {
                let mut w: Vec<TestSuite> = Vec::new();
                let s = rspec_summary_suite_v(&ls, exit_code);
                w.push(s);
                assert(suites_view(w@) =~= seq![s@]);
                w
            }
        } else {
            let v = minitest_verbose_v(&ls);
            if any_cases_v(&v) {
                v
            } else {
                let mut w: Vec<TestSuite> = Vec::new();
                let s = minitest_summary_suite_v(&ls, exit_code);
                w.push(s);
                assert(suites_view(w@) =~= seq![s@]);
                w
            }
        };
        let rf = rspec_failures_v(&ls);
        let mf = minitest_failures_v(&ls);
        let suites = enrich_with_errors(suites, rf.as_slice(), mf.as_slice());
        let duration = match ruby_duration_v(&ls) {
            Some(d) => d,
            None => Duration::zero(),
        };
        TestRunResult { suites, duration, raw_exit_code: exit_code }
    }
}

} // verus!
