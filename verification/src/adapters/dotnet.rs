//! `dotnet test` console output and TRX reports.

use vstd::prelude::*;
use crate::adapters::{
    CaseView, ErrorView, RunView, SuiteView, TestCase, TestError, TestRunResult, TestStatus,
    TestSuite, cases_view, opt_str_view, suites_view,
};
use crate::adapters::elixir::opt_chars;
use crate::adapters::javascript::{strip_prefix, trim_start_str};
use crate::adapters::python::{counted_suite, counted_suite_v};
use crate::adapters::util::{combined_chars, combined_spec, truncatable, truncatable_v, truncate_chars, truncated};
use crate::duration::{Duration, decimal_nanos, decimal_parts, decimal_parts_v, frac_prefix, frac_value_v, parse_millis, parse_secs, MAX_NANOS};
use crate::num::{digits_val, min_nat, parse_usize, parse_usize_spec};
use crate::text::{
    append, append_str, chars_of, chars_of_string, contains, contains_char, contains_str, ends_with,
    eq, find, find_char, find_char_v, find_str, is_digit, join, join_v, lines, lines_v, occurs_at, rfind, slice,
    split_char, split_char_v, starts_with, starts_with_str, string_of, trim, trim_v, words,
    words_v,
};

verus! {

/// Adapter for .NET projects tested with `dotnet test`.
pub struct DotnetAdapter;

impl DotnetAdapter {
    pub fn new() -> (a: Self) {
        DotnetAdapter
    }

    /// Name of this adapter for display.
    pub fn name(&self) -> (r: &'static str)
        ensures
            r@ == "C#/.NET"@,
    {
        "C#/.NET"
    }
}

impl Default for DotnetAdapter {
    fn default() -> (a: Self) {
        DotnetAdapter
    }
}

// ---------------------------------------------------------------------------
// Result lines
// ---------------------------------------------------------------------------

/// Status and rest of a line starting with `Passed `, `Failed ` or `Skipped `.
pub open spec fn result_prefix(t: Seq<char>) -> Option<(TestStatus, Seq<char>)> {
    match strip_prefix(t, "Passed "@) {
        Some(r) => Some((TestStatus::Passed, r)),
        None => match strip_prefix(t, "Failed "@) {
            Some(r) => Some((TestStatus::Failed, r)),
            None => match strip_prefix(t, "Skipped "@) {
                Some(r) => Some((TestStatus::Skipped, r)),
                None => None,
            },
        },
    }
}

/// A real test result (not build noise): after the status word comes a
/// name with a `[duration]` suffix, or a dotted name (`Namespace.Class.Test`).
pub open spec fn is_result_line(t: Seq<char>) -> bool {
    match result_prefix(t) {
        Some((_, rest)) => {
            let name_part = if words(rest).len() > 0 { words(rest)[0] } else { seq![] };
            (ends_with(rest, "]"@) && contains(rest, seq!['['])) || (contains(name_part, seq!['.'])
                && !starts_with(name_part, "."@))
        },
        None => false,
    }
}

fn strip_prefix_v(s: &Vec<char>, p: &str) -> (r: Option<Vec<char>>)
    ensures
        match r {
            Some(x) => strip_prefix(s@, p@) == Some(x@),
            None => strip_prefix(s@, p@) is None,
        },
{
    if starts_with_str(s, p) {
        let k = chars_of(p).len();
        let n = s.len();
        let x = slice(s, k, n);
        assert(x@ =~= s@.skip(p@.len() as int));
        Some(x)
    } else {
        None
    }
}

fn result_prefix_v(t: &Vec<char>) -> (r: Option<(TestStatus, Vec<char>)>)
    ensures
        match r {
            Some((st, x)) => result_prefix(t@) == Some((st, x@)),
            None => result_prefix(t@) is None,
        },
{
    if let Some(x) = strip_prefix_v(t, "Passed ") {
        return Some((TestStatus::Passed, x));
    }
    if let Some(x) = strip_prefix_v(t, "Failed ") {
        return Some((TestStatus::Failed, x));
    }
    if let Some(x) = strip_prefix_v(t, "Skipped ") {
        return Some((TestStatus::Skipped, x));
    }
    None
}

fn is_result_line_v(t: &Vec<char>) -> (b: bool)
    ensures
        b == is_result_line(t@),
{
    match result_prefix_v(t) {
        Some((_, rest)) => {
            if crate::text::ends_with_str(&rest, "]") && contains_char(&rest, '[') {
                return true;
            }
            let w = words_v(&rest);
            let ghost wv = w@.map_values(|x: Vec<char>| x@);
            let name_part = if w.len() > 0 {
                assert(w@[0]@ == wv[0]);
                slice(&w[0], 0, w[0].len())
            } else {
                Vec::new()
            };
            assert(w.len() > 0 ==> name_part@ =~= wv[0]);
            assert(w.len() == 0 ==> name_part@ =~= Seq::<char>::empty());
            contains_char(&name_part, '.') && !starts_with_str(&name_part, ".")
        },
        None => false,
    }
}

/// Nanoseconds of a result time such as `2 ms`, `< 1 ms` or `1.5 s`
/// (zero when it does not read).
pub open spec fn test_duration(s: Seq<char>) -> nat {
    let parts = words(trim_start_str(trim(s), "< "@));
    if parts.len() >= 2 {
        if parts[1] == "ms"@ {
            match decimal_nanos(parts[0], 1_000_000, 6, 1) {
                Some(d) => d,
                None => 0,
            }
        } else if parts[1] == "s"@ {
            match decimal_nanos(parts[0], 1_000_000_000, 9, 1) {
                Some(d) => d,
                None => 0,
            }
        } else {
            0
        }
    } else {
        0
    }
}

fn test_duration_v(s: &Vec<char>) -> (d: Duration)
    ensures
        d.ns() == test_duration(s@),
{
    proof {
        reveal_strlit("< ");
    }
    let clean = crate::adapters::javascript::trim_start_str_v(&trim_v(s), "< ");
    let parts = words_v(&clean);
    let ghost pv = parts@.map_values(|x: Vec<char>| x@);
    if parts.len() >= 2 {
        assert(parts@[0]@ == pv[0]);
        assert(parts@[1]@ == pv[1]);
        if eq(&parts[1], &chars_of("ms")) {
            match parse_millis(&parts[0]) {
                Some(d) => d,
                None => Duration::zero(),
            }
        } else if eq(&parts[1], &chars_of("s")) {
            match parse_secs(&parts[0]) {
                Some(d) => d,
                None => Duration::zero(),
            }
        } else {
            Duration::zero()
        }
    } else {
        Duration::zero()
    }
}

/// Parse a result time such as `2 ms` or `< 1 ms`.
pub fn parse_dotnet_test_duration(dur_str: &str) -> (d: Duration)
    ensures
        d.ns() == test_duration(dur_str@),
{
    test_duration_v(&chars_of(dur_str))
}

/// Name and time of a result line's rest: the name before the last `[`,
/// the time inside the brackets (the last character dropped).
pub open spec fn result_case(rest: Seq<char>) -> (Seq<char>, nat) {
    match rfind(rest, seq!['[']) {
        Some(b) => (trim(rest.take(b)), test_duration(rest.subrange(b + 1, rest.len() - 1))),
        None => (rest, 0),
    }
}

/// The rest of a result line can be cut before its last character (one
/// byte) and after its last `[`.
pub open spec fn result_case_ok(rest: Seq<char>) -> bool {
    match rfind(rest, seq!['[']) {
        Some(b) => b + 1 <= rest.len() - 1 && (rest.last() as u32) < 0x80,
        None => true,
    }
}

fn result_case_v(rest: &Vec<char>) -> (r: (Vec<char>, Duration))
    requires
        result_case_ok(rest@),
    ensures
        (r.0@, r.1.ns()) == result_case(rest@),
{
    let mut open: Vec<char> = Vec::new();
    open.push('[');
    assert(open@ =~= seq!['[']);
    match crate::text::rfind_v(rest, &open) {
        Some(b) => {
            assert(rfind(rest@, seq!['[']) == Some(b as int));
            assert(result_case_ok(rest@));
            assert(b + 1 <= rest@.len() - 1);
            let head = slice(rest, 0, b);
            assert(head@ =~= rest@.take(b as int));
            let hi = rest.len() - 1;
            let lo = b + 1;
            let inner = slice(rest, lo, hi);
            (trim_v(&head), test_duration_v(&inner))
        },
        None => (slice(rest, 0, rest.len()), Duration::zero()),
    }
}

/// The result-line cases of the output, in order.
pub open spec fn dotnet_cases(ls: Seq<Seq<char>>) -> Seq<CaseView>
    decreases ls.len(),
{
    if ls.len() == 0 {
        seq![]
    } else {
        let t = trim(ls.last());
        dotnet_cases(ls.drop_last()) + if is_result_line(t) {
            let (st, rest) = result_prefix(t)->0;
            let (name, d) = result_case(rest);
            seq![CaseView { name: name, status: st, duration: d, error: None }]
        } else {
            seq![]
        }
    }
}

/// Counts of the summary section: `(total, passed, failed, skipped, found)`,
/// later lines overriding earlier ones.
pub open spec fn dotnet_counts(ls: Seq<Seq<char>>) -> (usize, usize, usize, usize, bool)
    decreases ls.len(),
{
    if ls.len() == 0 {
        (0, 0, 0, 0, false)
    } else {
        let c = dotnet_counts(ls.drop_last());
        let t = trim(ls.last());
        let num = |r: Seq<char>| match parse_usize_spec(trim(r)) {
            Some(n) => n,
            None => 0usize,
        };
        match strip_prefix(t, "Total tests:"@) {
            Some(r) => (num(r), c.1, c.2, c.3, true),
            None => match strip_prefix(t, "Passed:"@) {
                Some(r) => (c.0, num(r), c.2, c.3, c.4),
                None => match strip_prefix(t, "Failed:"@) {
                    Some(r) => (c.0, c.1, num(r), c.3, c.4),
                    None => match strip_prefix(t, "Skipped:"@) {
                        Some(r) => (c.0, c.1, c.2, num(r), c.4),
                        None => c,
                    },
                },
            },
        }
    }
}

/// Passing cases of the summary: as listed, or the rest of the total when
/// none are listed.
pub open spec fn summary_passed(c: (usize, usize, usize, usize, bool)) -> nat {
    if c.1 == 0 && c.2 + c.3 < c.0 { (c.0 - c.2 - c.3) as nat } else { c.1 as nat }
}

/// The one suite of a run: its result-line cases, else cases made from the
/// summary counts when it gives a positive total.
pub open spec fn dotnet_suite(ls: Seq<Seq<char>>, exit_code: i32) -> SuiteView {
    let cases = dotnet_cases(ls);
    let c = dotnet_counts(ls);
    if cases.len() > 0 {
        SuiteView { name: "tests"@, tests: cases }
    } else if c.4 && c.0 > 0 {
        counted_suite(summary_passed(c), c.2 as nat, c.3 as nat, "skipped_test_"@, exit_code)
    } else {
        counted_suite(0, 0, 0, "skipped_test_"@, exit_code)
    }
}

/// Every result line can be read (see `result_case_ok`).
pub open spec fn dotnet_lines_ok(ls: Seq<Seq<char>>) -> bool {
    forall|k: int| 0 <= k < ls.len() && is_result_line(trim(#[trigger] ls[k])) ==> result_case_ok((result_prefix(trim(ls[k]))->0).1)
}

fn count_after(r: &Vec<char>) -> (n: usize)
    ensures
        n == match parse_usize_spec(trim(r@)) {
            Some(n) => n,
            None => 0usize,
        },
{
    match parse_usize(&trim_v(r)) {
        Some(n) => n,
        None => 0,
    }
}

fn result_case_ok_v(rest: &Vec<char>) -> (b: bool)
    ensures
        b == result_case_ok(rest@),
{
    let mut open: Vec<char> = Vec::new();
    open.push('[');
    assert(open@ =~= seq!['[']);
    match crate::text::rfind_v(rest, &open) {
        Some(b) => rest.len() > 0 && b < rest.len() - 1 && (rest[rest.len() - 1] as u32) < 0x80,
        None => true,
    }
}

fn dotnet_lines_ok_v(ls: &Vec<Vec<char>>) -> (b: bool)
    ensures
        b == dotnet_lines_ok(ls@.map_values(|l: Vec<char>| l@)),
{
    let ghost lv = ls@.map_values(|l: Vec<char>| l@);
    let mut i: usize = 0;
    while i < ls.len()
        invariant
            i <= ls.len(),
            lv == ls@.map_values(|l: Vec<char>| l@),
            forall|k: int| 0 <= k < i && is_result_line(trim(#[trigger] lv[k])) ==> result_case_ok((result_prefix(trim(lv[k]))->0).1),
        decreases ls.len() - i,
    {
        let t = trim_v(&ls[i]);
        assert(lv[i as int] == ls@[i as int]@);
        if is_result_line_v(&t) {
            match result_prefix_v(&t) {
                Some((_, rest)) => {
                    if !result_case_ok_v(&rest) {
                        return false;
                    }
                },
                None => {},
            }
        }
        i += 1;
    }
    true
}

fn dotnet_suite_v(ls: &Vec<Vec<char>>, exit_code: i32) -> (s: TestSuite)
    requires
        dotnet_lines_ok(ls@.map_values(|l: Vec<char>| l@)),
    ensures
        s@ == dotnet_suite(ls@.map_values(|l: Vec<char>| l@), exit_code),
{
    let ghost lv = ls@.map_values(|l: Vec<char>| l@);
    let mut tests: Vec<TestCase> = Vec::new();
    let mut c: (usize, usize, usize, usize, bool) = (0, 0, 0, 0, false);
    let mut i: usize = 0;
    assert(cases_view(tests@) =~= seq![]);
    while i < ls.len()
        invariant
            i <= ls.len(),
            lv == ls@.map_values(|l: Vec<char>| l@),
            dotnet_lines_ok(lv),
            cases_view(tests@) == dotnet_cases(lv.take(i as int)),
            c == dotnet_counts(lv.take(i as int)),
        decreases ls.len() - i,
    {
        assert(lv.take(i + 1).drop_last() =~= lv.take(i as int));
        assert(lv.take(i + 1).last() == ls@[i as int]@);
        let t = trim_v(&ls[i]);
        let ghost before = cases_view(tests@);
        if is_result_line_v(&t) {
            assert(lv[i as int] == ls@[i as int]@);
            let (st, rest) = match result_prefix_v(&t) {
                Some(p) => p,
                None => (TestStatus::Passed, Vec::new()),
            };
            let (name, d) = result_case_v(&rest);
            let case = TestCase { name: string_of(&name), status: st, duration: d, error: None };
            tests.push(case);
            assert(cases_view(tests@) =~= before + seq![case@]);
        } else {
            assert(cases_view(tests@) =~= before + seq![]);
        }
        if let Some(r) = strip_prefix_v(&t, "Total tests:") {
            c = (count_after(&r), c.1, c.2, c.3, true);
        } else if let Some(r) = strip_prefix_v(&t, "Passed:") {
            c = (c.0, count_after(&r), c.2, c.3, c.4);
        } else if let Some(r) = strip_prefix_v(&t, "Failed:") {
            c = (c.0, c.1, count_after(&r), c.3, c.4);
        } else if let Some(r) = strip_prefix_v(&t, "Skipped:") {
            c = (c.0, c.1, c.2, count_after(&r), c.4);
        }
        i += 1;
    }
    assert(lv.take(ls.len() as int) =~= lv);
    if tests.len() > 0 {
        TestSuite { name: string_of(&chars_of("tests")), tests }
    } else if c.4 && c.0 > 0 {
        let passed = if c.1 == 0 && (c.2 as u128) + (c.3 as u128) < (c.0 as u128) { c.0 - c.2 - c.3 } else { c.1 };
        counted_suite_v(passed, c.2, c.3, "skipped_test_", exit_code)
    } else {
        counted_suite_v(0, 0, 0, "skipped_test_", exit_code)
    }
}

// ---------------------------------------------------------------------------
// Run duration
// ---------------------------------------------------------------------------

/// The digits and dots of `s`, in order.
pub open spec fn digits_and_dots(s: Seq<char>) -> Seq<char>
    decreases s.len(),
{
    if s.len() == 0 {
        seq![]
    } else {
        digits_and_dots(s.drop_last()) + if is_digit(s.last()) || s.last() == '.' { seq![s.last()] } else { seq![] }
    }
}

/// The time of a `Total time: 1.234 Seconds` or `Duration: 1.234 s` line:
/// all its digits and dots read as seconds.
pub open spec fn total_time(t: Seq<char>) -> Option<nat> {
    if starts_with(t, "Total time:"@) || starts_with(t, "Duration:"@) {
        decimal_nanos(digits_and_dots(t), 1_000_000_000, 9, 1)
    } else {
        None
    }
}

pub open spec fn dotnet_duration(ls: Seq<Seq<char>>) -> Option<nat>
    decreases ls.len(),
{
    if ls.len() == 0 {
        None
    } else {
        match total_time(trim(ls[0])) {
            Some(d) => Some(d),
            None => dotnet_duration(ls.drop_first()),
        }
    }
}

fn digits_and_dots_v(s: &Vec<char>) -> (r: Vec<char>)
    ensures
        r@ == digits_and_dots(s@),
{
    let mut out: Vec<char> = Vec::new();
    let mut i: usize = 0;
    while i < s.len()
        invariant
            i <= s.len(),
            out@ == digits_and_dots(s@.take(i as int)),
        decreases s.len() - i,
    {
        assert(s@.take(i + 1).drop_last() =~= s@.take(i as int));
        let c = s[i];
        if crate::text::is_ascii_digit(c) || c == '.' {
            out.push(c);
        }
        assert(out@ =~= digits_and_dots(s@.take(i + 1)));
        i += 1;
    }
    assert(s@.take(s.len() as int) =~= s@);
    out
}

fn dotnet_duration_v(ls: &Vec<Vec<char>>) -> (r: Option<Duration>)
    ensures
        match r {
            Some(d) => dotnet_duration(ls@.map_values(|l: Vec<char>| l@)) == Some(d.ns()),
            None => dotnet_duration(ls@.map_values(|l: Vec<char>| l@)) is None,
        },
{
    let ghost lv = ls@.map_values(|l: Vec<char>| l@);
    let mut i: usize = 0;
    assert(lv.skip(0) =~= lv);
    while i < ls.len()
        invariant
            i <= ls.len(),
            lv == ls@.map_values(|l: Vec<char>| l@),
            dotnet_duration(lv) == dotnet_duration(lv.skip(i as int)),
        decreases ls.len() - i,
    {
        assert(lv.skip(i as int)[0] == ls@[i as int]@);
        assert(lv.skip(i as int).drop_first() =~= lv.skip(i + 1));
        let t = trim_v(&ls[i]);
        if starts_with_str(&t, "Total time:") || starts_with_str(&t, "Duration:") {
            if let Some(d) = parse_secs(&digits_and_dots_v(&t)) {
                return Some(d);
            }
        }
        i += 1;
    }
    None
}

// ---------------------------------------------------------------------------
// Failure blocks
// ---------------------------------------------------------------------------

/// A failure block of `dotnet test` output.
pub struct DotnetFailure {
    pub test_name: String,
    pub message: String,
    pub stack_trace: Option<String>,
    pub location: Option<String>,
}

pub struct DnFailView {
    pub test_name: Seq<char>,
    pub message: Seq<char>,
    pub stack_trace: Option<Seq<char>>,
    pub location: Option<Seq<char>>,
}

impl View for DotnetFailure {
    type V = DnFailView;

    open spec fn view(&self) -> DnFailView {
        DnFailView {
            test_name: self.test_name@,
            message: self.message@,
            stack_trace: opt_str_view(self.stack_trace),
            location: opt_str_view(self.location),
        }
    }
}

pub open spec fn dn_failures_view(fs: Seq<DotnetFailure>) -> Seq<DnFailView> {
    fs.map_values(|f: DotnetFailure| f@)
}

/// `file:line` of a stack frame: the text after ` in `, else the whole frame
/// when it names a `.cs`/`.fs` file and a line.
pub open spec fn dotnet_location(l: Seq<char>) -> Option<Seq<char>> {
    match find(l, " in "@) {
        Some(idx) if trim(l.skip(idx + 4)).len() > 0 => Some(trim(l.skip(idx + 4))),
        _ => if (contains(l, ".cs:"@) || contains(l, ".fs:"@)) && contains(l, "line "@) {
            Some(trim(l))
        } else {
            None
        },
    }
}

fn dotnet_location_v(l: &Vec<char>) -> (r: Option<Vec<char>>)
    ensures
        match r {
            Some(x) => dotnet_location(l@) == Some(x@),
            None => dotnet_location(l@) is None,
        },
{
    match find_str(l, " in ") {
        Some(idx) => {
            proof {
                reveal_strlit(" in ");
            }
            let n = l.len();
            let after = slice(l, idx + 4, n);
            assert(after@ =~= l@.skip(idx + 4));
            let path = trim_v(&after);
            if path.len() > 0 {
                return Some(path);
            }
        },
        None => {},
    }
    if (contains_str(l, ".cs:") || contains_str(l, ".fs:")) && contains_str(l, "line ") {
        Some(trim_v(l))
    } else {
        None
    }
}

/// Find the file location in a .NET stack trace line.
pub fn extract_dotnet_location(line: &str) -> (r: Option<String>)
    ensures
        match r {
            Some(x) => dotnet_location(line@) == Some(x@),
            None => dotnet_location(line@) is None,
        },
{
    match dotnet_location_v(&chars_of(line)) {
        Some(x) => Some(string_of(&x)),
        None => None,
    }
}

/// A line that ends a failure block.
pub open spec fn is_block_stop(l: Seq<char>) -> bool {
    is_result_line(l) || starts_with(l, "X "@) || starts_with(l, "Test Run"@) || starts_with(l, "Total tests:"@)
}

/// The block after a failed result: `(end, message lines, stack lines)`,
/// `Error Message:` and `Stack Trace:` switching between the two.
pub open spec fn dn_block(ls: Seq<Seq<char>>, k: int, msgs: Seq<Seq<char>>, stack: Seq<Seq<char>>, in_msg: bool, in_stack: bool) -> (int, Seq<Seq<char>>, Seq<Seq<char>>)
    decreases ls.len() - k,
{
    if k < 0 || k >= ls.len() {
        (k, msgs, stack)
    } else {
        let l = trim(ls[k]);
        if starts_with(l, "Error Message:"@) {
            dn_block(ls, k + 1, msgs, stack, true, false)
        } else if starts_with(l, "Stack Trace:"@) {
            dn_block(ls, k + 1, msgs, stack, false, true)
        } else if is_block_stop(l) {
            (k, msgs, stack)
        } else if in_msg && l.len() > 0 {
            dn_block(ls, k + 1, msgs.push(l), stack, in_msg, in_stack)
        } else if in_stack && l.len() > 0 {
            dn_block(ls, k + 1, msgs, stack.push(l), in_msg, in_stack)
        } else {
            dn_block(ls, k + 1, msgs, stack, in_msg, in_stack)
        }
    }
}

pub proof fn lemma_dn_block(ls: Seq<Seq<char>>, k: int, msgs: Seq<Seq<char>>, stack: Seq<Seq<char>>, in_msg: bool, in_stack: bool)
    requires
        0 <= k <= ls.len(),
    ensures
        k <= dn_block(ls, k, msgs, stack, in_msg, in_stack).0 <= ls.len(),
    decreases ls.len() - k,
{
    if k < ls.len() {
        let l = trim(ls[k]);
        if starts_with(l, "Error Message:"@) {
            lemma_dn_block(ls, k + 1, msgs, stack, true, false);
        } else if starts_with(l, "Stack Trace:"@) {
            lemma_dn_block(ls, k + 1, msgs, stack, false, true);
        } else if is_block_stop(l) {
        } else if in_msg && l.len() > 0 {
            lemma_dn_block(ls, k + 1, msgs.push(l), stack, in_msg, in_stack);
        } else if in_stack && l.len() > 0 {
            lemma_dn_block(ls, k + 1, msgs, stack.push(l), in_msg, in_stack);
        } else {
            lemma_dn_block(ls, k + 1, msgs, stack, in_msg, in_stack);
        }
    }
}

/// A failed result line: `Failed ` (a real result) or `X `.
pub open spec fn is_failed_header(t: Seq<char>) -> bool {
    if starts_with(t, "Failed "@) { is_result_line(t) } else { starts_with(t, "X "@) }
}

/// The name of a failed result line: before the last `[`.
pub open spec fn failed_name(t: Seq<char>) -> Seq<char> {
    let rest = match strip_prefix(t, "Failed "@) {
        Some(r) => r,
        None => match strip_prefix(t, "X "@) {
            Some(r) => r,
            None => seq![],
        },
    };
    match rfind(rest, seq!['[']) {
        Some(b) => trim(rest.take(b)),
        None => rest,
    }
}

/// The location in the first stack line that has one.
pub open spec fn first_location(stack: Seq<Seq<char>>) -> Option<Seq<char>>
    decreases stack.len(),
{
    if stack.len() == 0 {
        None
    } else {
        match dotnet_location(stack[0]) {
            Some(x) => Some(x),
            None => first_location(stack.drop_first()),
        }
    }
}

/// A failure block before its message is cut.
pub struct DnRaw {
    pub test_name: Seq<char>,
    pub msgs: Seq<Seq<char>>,
    pub stack: Seq<Seq<char>>,
}

/// The failure blocks from line `i` on.
pub open spec fn dn_raw_from(ls: Seq<Seq<char>>, i: int) -> Seq<DnRaw>
    decreases ls.len() - i,
{
    if i < 0 || i >= ls.len() {
        seq![]
    } else {
        let t = trim(ls[i]);
        if is_failed_header(t) {
            let (e, msgs, stack) = dn_block(ls, i + 1, seq![], seq![], false, false);
            proof {
                lemma_dn_block(ls, i + 1, seq![], seq![], false, false);
            }
            seq![DnRaw { test_name: failed_name(t), msgs: msgs, stack: stack }] + dn_raw_from(ls, e)
        } else {
            dn_raw_from(ls, i + 1)
        }
    }
}

/// The failure a block describes: the message lines joined by newlines and
/// cut to 500 bytes (`Test failed` without any), the first five stack lines,
/// and the first location in the stack.
pub open spec fn dn_failure(r: DnRaw) -> DnFailView {
    DnFailView {
        test_name: r.test_name,
        message: if r.msgs.len() == 0 { "Test failed"@ } else { truncated(join(r.msgs, "\n"@), 500) },
        stack_trace: if r.stack.len() == 0 {
            None
        } else {
            Some(join(if r.stack.len() > 5 { r.stack.take(5) } else { r.stack }, "\n"@))
        },
        location: first_location(r.stack),
    }
}

pub open spec fn dotnet_failures(ls: Seq<Seq<char>>) -> Seq<DnFailView> {
    dn_raw_from(ls, 0).map_values(|r: DnRaw| dn_failure(r))
}

/// Every failure message can be cut to 500 bytes between characters.
pub open spec fn dotnet_failures_ok(ls: Seq<Seq<char>>) -> bool {
    forall|k: int| 0 <= k < dn_raw_from(ls, 0).len() ==> truncatable(join(#[trigger] dn_raw_from(ls, 0)[k].msgs, "\n"@), 500)
}

fn join_first(ls: &Vec<Vec<char>>, n: usize, sep: &str) -> (r: Vec<char>)
    ensures
        r@ == join(if ls@.len() > n { ls@.map_values(|x: Vec<char>| x@).take(n as int) } else { ls@.map_values(|x: Vec<char>| x@) }, sep@),
{
    let mut first: Vec<Vec<char>> = Vec::new();
    let m = if ls.len() > n { n } else { ls.len() };
    let ghost lv = ls@.map_values(|x: Vec<char>| x@);
    let mut j: usize = 0;
    while j < m
        invariant
            j <= m,
            m <= ls.len(),
            lv == ls@.map_values(|x: Vec<char>| x@),
            first@.map_values(|p: Vec<char>| p@) == lv.take(j as int),
        decreases m - j,
    {
        let c = slice(&ls[j], 0, ls[j].len());
        assert(c@ =~= lv[j as int]);
        let ghost before = first@.map_values(|p: Vec<char>| p@);
        first.push(c);
        assert(first@.map_values(|p: Vec<char>| p@) =~= before.push(c@));
        assert(lv.take(j + 1) =~= lv.take(j as int).push(lv[j as int]));
        j += 1;
    }
    assert(ls@.len() <= n ==> lv.take(m as int) =~= lv);
    join_v(&first, &chars_of(sep))
}

/// The failures, or `None` when some block's message cannot be cut.
fn dotnet_failures_v(ls: &Vec<Vec<char>>) -> (r: Option<Vec<DotnetFailure>>)
    ensures
        r is Some <==> dotnet_failures_ok(ls@.map_values(|l: Vec<char>| l@)),
        r matches Some(v) ==> dn_failures_view(v@) == dotnet_failures(ls@.map_values(|l: Vec<char>| l@)),
{
    let ghost lv = ls@.map_values(|l: Vec<char>| l@);
    let ghost raw = dn_raw_from(lv, 0);
    let ghost mut done: Seq<DnRaw> = seq![];
    let mut out: Vec<DotnetFailure> = Vec::new();
    let mut i: usize = 0;
    assert(done + dn_raw_from(lv, 0) =~= raw);
    while i < ls.len()
        invariant
            i <= ls.len(),
            lv == ls@.map_values(|l: Vec<char>| l@),
            raw == dn_raw_from(lv, 0),
            forall|q: int| 0 <= q < done.len() ==> truncatable(join(#[trigger] done[q].msgs, "\n"@), 500),
            done + dn_raw_from(lv, i as int) == raw,
            dn_failures_view(out@) == done.map_values(|r: DnRaw| dn_failure(r)),
        decreases ls.len() - i,
    {
        let t = trim_v(&ls[i]);
        assert(t@ == trim(lv[i as int]));
        let failed = if starts_with_str(&t, "Failed ") { is_result_line_v(&t) } else { starts_with_str(&t, "X ") };
        if failed {
            let rest = match strip_prefix_v(&t, "Failed ") {
                Some(r) => r,
                None => match strip_prefix_v(&t, "X ") {
                    Some(r) => r,
                    None => Vec::new(),
                },
            };
            let mut open: Vec<char> = Vec::new();
            open.push('[');
            assert(open@ =~= seq!['[']);
            let name = match crate::text::rfind_v(&rest, &open) {
                Some(b) => {
                    let head = slice(&rest, 0, b);
                    assert(head@ =~= rest@.take(b as int));
                    trim_v(&head)
                },
                None => rest,
            };
            assert(name@ == failed_name(t@));
            let mut msgs: Vec<Vec<char>> = Vec::new();
            let mut stack: Vec<Vec<char>> = Vec::new();
            let mut in_msg = false;
            let mut in_stack = false;
            let mut k = i + 1;
            assert(msgs@.map_values(|x: Vec<char>| x@) =~= seq![]);
            assert(stack@.map_values(|x: Vec<char>| x@) =~= seq![]);
            proof {
                lemma_dn_block(lv, i + 1, seq![], seq![], false, false);
            }
            let ghost target = dn_block(lv, i + 1, seq![], seq![], false, false);
            while k < ls.len()
                invariant
                    i + 1 <= k <= ls.len(),
                    lv == ls@.map_values(|l: Vec<char>| l@),
                    dn_block(lv, k as int, msgs@.map_values(|x: Vec<char>| x@), stack@.map_values(|x: Vec<char>| x@), in_msg, in_stack) == target,
                ensures
                    i + 1 <= k <= ls.len(),
                    dn_block(lv, k as int, msgs@.map_values(|x: Vec<char>| x@), stack@.map_values(|x: Vec<char>| x@), in_msg, in_stack) == target,
                    k < ls.len() ==> ({
                        let l = trim(lv[k as int]);
                        !starts_with(l, "Error Message:"@) && !starts_with(l, "Stack Trace:"@) && is_block_stop(l)
                    }),
                decreases ls.len() - k,
            {
                let l = trim_v(&ls[k]);
                assert(l@ == trim(lv[k as int]));
                if starts_with_str(&l, "Error Message:") {
                    in_msg = true;
                    in_stack = false;
                    k += 1;
                    continue;
                }
                if starts_with_str(&l, "Stack Trace:") {
                    in_msg = false;
                    in_stack = true;
                    k += 1;
                    continue;
                }
                if is_result_line_v(&l) || starts_with_str(&l, "X ") || starts_with_str(&l, "Test Run") || starts_with_str(&l, "Total tests:") {
                    break;
                }
                if in_msg && l.len() > 0 {
                    let ghost before = msgs@.map_values(|x: Vec<char>| x@);
                    msgs.push(l);
                    assert(msgs@.map_values(|x: Vec<char>| x@) =~= before.push(trim(lv[k as int])));
                } else if in_stack && l.len() > 0 {
                    let ghost before = stack@.map_values(|x: Vec<char>| x@);
                    stack.push(l);
                    assert(stack@.map_values(|x: Vec<char>| x@) =~= before.push(trim(lv[k as int])));
                }
                k += 1;
            }
            let ghost r = DnRaw { test_name: name@, msgs: msgs@.map_values(|x: Vec<char>| x@), stack: stack@.map_values(|x: Vec<char>| x@) };
            assert(target == (k as int, r.msgs, r.stack));
            assert(dn_raw_from(lv, i as int) == seq![r] + dn_raw_from(lv, k as int));
            assert(raw[done.len() as int] == r);
            let sep = chars_of("\n");
            let joined = join_v(&msgs, &sep);
            if !truncatable_v(&joined, 500) {
                assert(!dotnet_failures_ok(lv)) by {
                    assert(raw[done.len() as int] == r);
                }
                return None;
            }
            let message = if msgs.len() == 0 {
                chars_of("Test failed")
            } else {
                truncate_chars(&joined, 500)
            };
            let stack_trace = if stack.len() == 0 { None } else { Some(string_of(&join_first(&stack, 5, "\n"))) };
            let mut location: Option<Vec<char>> = None;
            let mut j: usize = 0;
            let ghost sv = stack@.map_values(|x: Vec<char>| x@);
            assert(sv.skip(0) =~= sv);
            while j < stack.len() && location.is_none()
                invariant
                    j <= stack.len(),
                    sv == stack@.map_values(|x: Vec<char>| x@),
                    match location {
                        Some(x) => first_location(sv) == Some(x@),
                        None => first_location(sv) == first_location(sv.skip(j as int)),
                    },
                decreases stack.len() - j,
            {
                assert(sv.skip(j as int)[0] == stack@[j as int]@);
                assert(sv.skip(j as int).drop_first() =~= sv.skip(j + 1));
                location = dotnet_location_v(&stack[j]);
                j += 1;
            }
            let f = DotnetFailure {
                test_name: string_of(&name),
                message: string_of(&message),
                stack_trace,
                location: match location {
                    Some(x) => Some(string_of(&x)),
                    None => None,
                },
            };
            assert(f@ == dn_failure(r));
            let ghost before = dn_failures_view(out@);
            out.push(f);
            assert(dn_failures_view(out@) =~= before.push(f@));
            proof {
                done = done.push(r);
            }
            assert(done + dn_raw_from(lv, k as int) =~= raw);
            assert(dn_failures_view(out@) =~= done.map_values(|r: DnRaw| dn_failure(r)));
            i = k;
            continue;
        }
        i += 1;
    }
    assert(done =~= raw);
    Some(out)
}

/// Parse the failure blocks of `dotnet test` output.
pub fn parse_dotnet_failures(output: &str) -> (r: Vec<DotnetFailure>)
    requires
        dotnet_failures_ok(lines(output@)),
    ensures
        dn_failures_view(r@) == dotnet_failures(lines(output@)),
{
    let ls = crate::text::lines_of(output);
    assert(ls@.map_values(|l: Vec<char>| l@) =~= lines(output@));
    match dotnet_failures_v(&ls) {
        Some(v) => v,
        None => Vec::new(),
    }
}

// ---------------------------------------------------------------------------
// Errors from failure blocks
// ---------------------------------------------------------------------------

/// A failure names a test when the names are equal or one ends with the
/// other (names may be namespace-qualified).
pub open spec fn dn_name_matches(f: DnFailView, name: Seq<char>) -> bool {
    f.test_name == name || ends_with(f.test_name, name) || ends_with(name, f.test_name)
}

pub open spec fn first_dn_failure(fs: Seq<DnFailView>, name: Seq<char>) -> Option<DnFailView>
    decreases fs.len(),
{
    if fs.len() == 0 {
        None
    } else if dn_name_matches(fs[0], name) {
        Some(fs[0])
    } else {
        first_dn_failure(fs.drop_first(), name)
    }
}

/// The failure for a test: the first that names it, else the only one.
pub open spec fn dn_match(fs: Seq<DnFailView>, name: Seq<char>) -> Option<DnFailView> {
    match first_dn_failure(fs, name) {
        Some(f) => Some(f),
        None => if fs.len() == 1 { Some(fs[0]) } else { None },
    }
}

pub open spec fn dn_enrich_case(c: CaseView, fs: Seq<DnFailView>) -> CaseView {
    if c.status != TestStatus::Failed || c.error is Some {
        c
    } else {
        match dn_match(fs, c.name) {
            Some(f) => CaseView { error: Some(ErrorView { message: f.message, location: f.location }), ..c },
            None => c,
        }
    }
}

pub open spec fn dn_enrich(suites: Seq<SuiteView>, fs: Seq<DnFailView>) -> Seq<SuiteView> {
    suites.map_values(|s: SuiteView| SuiteView { name: s.name, tests: s.tests.map_values(|c: CaseView| dn_enrich_case(c, fs)) })
}

fn dn_match_v(fs: &Vec<DotnetFailure>, name: &Vec<char>) -> (r: Option<usize>)
    ensures
        match r {
            Some(k) => k < fs.len() && dn_match(dn_failures_view(fs@), name@) == Some(fs@[k as int]@),
            None => dn_match(dn_failures_view(fs@), name@) is None,
        },
{
    let ghost fv = dn_failures_view(fs@);
    let mut k: usize = 0;
    assert(fv.skip(0) =~= fv);
    while k < fs.len()
        invariant
            k <= fs.len(),
            fv == dn_failures_view(fs@),
            first_dn_failure(fv, name@) == first_dn_failure(fv.skip(k as int), name@),
        decreases fs.len() - k,
    {
        assert(fv.skip(k as int)[0] == fs@[k as int]@);
        assert(fv.skip(k as int).drop_first() =~= fv.skip(k + 1));
        let fname = chars_of_string(&fs[k].test_name);
        if eq(&fname, name) || crate::text::ends_with_v(&fname, name) || crate::text::ends_with_v(name, &fname) {
            return Some(k);
        }
        k += 1;
    }
    if fs.len() == 1 {
        Some(0)
    } else {
        None
    }
}

fn clone_opt(o: &Option<String>) -> (r: Option<String>)
    ensures
        opt_str_view(r) == opt_str_view(*o),
{
    match o {
        Some(l) => Some(string_of(&chars_of_string(l))),
        None => None,
    }
}

/// Give failed cases without an error the details of their failure block.
pub fn enrich_with_errors(suites: &mut Vec<TestSuite>, failures: &Vec<DotnetFailure>)
    ensures
        suites_view(final(suites)@) == dn_enrich(suites_view(old(suites)@), dn_failures_view(failures@)),
{
    let ghost sv = suites_view(suites@);
    let ghost fv = dn_failures_view(failures@);
    let ghost goal = dn_enrich(sv, fv);
    let mut rest: Vec<TestSuite> = Vec::new();
    std::mem::swap(&mut rest, suites);
    let ghost orig = rest@;
    let ghost total: int = rest.len() as int;
    let mut i: usize = 0;
    assert(rest@ =~= orig.skip(0));
    assert(suites_view(suites@) =~= goal.take(0));
    while rest.len() > 0
        invariant
            i + rest@.len() == orig.len(),
            total == orig.len(),
            total <= usize::MAX,
            rest@ == orig.skip(i as int),
            sv == suites_view(orig),
            fv == dn_failures_view(failures@),
            goal == dn_enrich(sv, fv),
            suites_view(suites@) == goal.take(i as int),
        decreases rest.len(),
    {
        let s = rest.remove(0);
        assert(s == orig[i as int]);
        assert(rest@ =~= orig.skip(i + 1));
        let ghost si = sv[i as int];
        let mut tests: Vec<TestCase> = Vec::new();
        let ghost n: int = s.tests.len() as int;
        let mut src = s.tests;
        let mut j: usize = 0;
        assert(src@ =~= s.tests@.skip(0));
        while src.len() > 0
            invariant
                j + src@.len() == s.tests@.len(),
                n == s.tests@.len(),
                n <= usize::MAX,
                si == sv[i as int],
                si.tests == cases_view(s.tests@),
                src@ == s.tests@.skip(j as int),
                fv == dn_failures_view(failures@),
                cases_view(tests@) == si.tests.take(j as int).map_values(|c: CaseView| dn_enrich_case(c, fv)),
            decreases src.len(),
        {
            let c = src.remove(0);
            assert(c == s.tests@[j as int]);
            assert(src@ =~= s.tests@.skip(j + 1));
            assert(c@ == si.tests[j as int]);
            let e = if c.status != TestStatus::Failed || c.error.is_some() {
                c
            } else {
                match dn_match_v(failures, &chars_of_string(&c.name)) {
                    Some(k) => {
                        let f = &failures[k];
                        let message = string_of(&chars_of_string(&f.message));
                        let location = clone_opt(&f.location);
                        TestCase { name: c.name, status: c.status, duration: c.duration, error: Some(TestError { message, location }) }
                    },
                    None => c,
                }
            };
            assert(e@ == dn_enrich_case(si.tests[j as int], fv));
            let ghost before = tests@;
            tests.push(e);
            assert(cases_view(tests@) =~= cases_view(before).push(e@));
            assert(si.tests.take(j + 1).map_values(|c: CaseView| dn_enrich_case(c, fv))
                =~= si.tests.take(j as int).map_values(|c: CaseView| dn_enrich_case(c, fv)).push(dn_enrich_case(si.tests[j as int], fv)));
            j += 1;
        }
        assert(si.tests.take(j as int) =~= si.tests);
        let ns = TestSuite { name: s.name, tests };
        let ghost before = suites@;
        suites.push(ns);
        assert(suites_view(suites@) =~= suites_view(before).push(ns@));
        assert(goal.take(i + 1) =~= goal.take(i as int).push(goal[i as int]));
        i += 1;
    }
    assert(goal.take(i as int) =~= goal);
}

// ---------------------------------------------------------------------------
// The run
// ---------------------------------------------------------------------------

/// Output that can be read: result lines can be cut, failure messages can be
/// cut between characters.
pub open spec fn dotnet_readable(stdout: Seq<char>, stderr: Seq<char>) -> bool {
    let ls = lines(combined_spec(stdout, stderr));
    dotnet_lines_ok(ls) && dotnet_failures_ok(ls)
}

/// The run `dotnet test` output describes (stdout and stderr combined): one
/// suite of result-line or summary cases, failed ones given the details of
/// their failure blocks; the time of the first `Total time:` or `Duration:`
/// line.
pub open spec fn dotnet_run(stdout: Seq<char>, stderr: Seq<char>, exit_code: i32) -> RunView {
    let ls = lines(combined_spec(stdout, stderr));
    RunView {
        suites: dn_enrich(seq![dotnet_suite(ls, exit_code)], dotnet_failures(ls)),
        duration: match dotnet_duration(ls) {
            Some(d) => d,
            None => 0,
        },
        raw_exit_code: exit_code,
    }
}

impl DotnetAdapter {
    /// Parse `dotnet test` output into a run.
    /// Whether `parse_output` can read this output: result lines end in a
    /// closed ASCII bracket and failure messages can be cut.
    pub fn readable(&self, stdout: &str, stderr: &str, exit_code: i32) -> (b: bool)
        ensures
            b == dotnet_readable(stdout@, stderr@),
    {
        let combined = combined_chars(stdout, stderr);
        let ls = lines_v(&combined);
        assert(ls@.map_values(|l: Vec<char>| l@) =~= lines(combined_spec(stdout@, stderr@)));
        dotnet_lines_ok_v(&ls) && dotnet_failures_v(&ls).is_some()
    }

    pub fn parse_output(&self, stdout: &str, stderr: &str, exit_code: i32) -> (r: TestRunResult)
        requires
            dotnet_readable(stdout@, stderr@),
        ensures
            r@ == dotnet_run(stdout@, stderr@, exit_code),
    {
        let combined = combined_chars(stdout, stderr);
        let ls = lines_v(&combined);
        let ghost lv = ls@.map_values(|l: Vec<char>| l@);
        assert(lv =~= lines(combined_spec(stdout@, stderr@)));
        let mut suites: Vec<TestSuite> = Vec::new();
        let s = dotnet_suite_v(&ls, exit_code);
        suites.push(s);
        assert(suites_view(suites@) =~= seq![s@]);
        let failures = match dotnet_failures_v(&ls) {
            Some(v) => v,
            None => Vec::new(),
        };
        if failures.len() > 0 {
            enrich_with_errors(&mut suites, &failures);
        } else {
            assert(dn_enrich(suites_view(suites@), dn_failures_view(failures@)) =~= suites_view(suites@)) by {
                assert(s@.tests.map_values(|c: CaseView| dn_enrich_case(c, dn_failures_view(failures@))) =~= s@.tests);
            }
        }
        let duration = match dotnet_duration_v(&ls) {
            Some(d) => d,
            None => Duration::zero(),
        };
        TestRunResult { suites, duration, raw_exit_code: exit_code }
    }
}

// ---------------------------------------------------------------------------
// TRX reports
// ---------------------------------------------------------------------------

/// The value of `attr="..."` in an element.
pub open spec fn trx_attr(e: Seq<char>, attr: Seq<char>) -> Option<Seq<char>> {
    let pattern = attr + "=\""@;
    match find(e, pattern) {
        Some(st) => {
            let vs = st + pattern.len();
            match find_char(e.skip(vs), '"') {
                Some(ve) => Some(e.subrange(vs, vs + ve)),
                None => None,
            }
        },
        None => None,
    }
}

pub(crate) fn trx_attr_v(e: &Vec<char>, attr: &Vec<char>) -> (r: Option<Vec<char>>)
    ensures
        match r {
            Some(x) => trx_attr(e@, attr@) == Some(x@),
            None => trx_attr(e@, attr@) is None,
        },
{
    let mut pattern = slice(attr, 0, attr.len());
    append_str(&mut pattern, "=\"");
    assert(pattern@ =~= attr@ + "=\""@);
    match crate::text::find_v(e, &pattern) {
        Some(st) => {
            assert(occurs_at(e@, pattern@, st as int));
            let n = e.len();
            let pl = pattern.len();
            let vs = st + pl;
            let rest = slice(e, vs, n);
            assert(rest@ =~= e@.skip(vs as int));
            match find_char_v(&rest, '"') {
                Some(ve) => {
                    let x = slice(e, vs, vs + ve);
                    Some(x)
                },
                None => None,
            }
        },
        None => None,
    }
}

/// Extract an attribute's value from a TRX element.
pub fn extract_trx_attr(element: &str, attr: &str) -> (r: Option<String>)
    ensures
        match r {
            Some(x) => trx_attr(element@, attr@) == Some(x@),
            None => trx_attr(element@, attr@) is None,
        },
{
    match trx_attr_v(&chars_of(element), &chars_of(attr)) {
        Some(x) => Some(string_of(&x)),
        None => None,
    }
}

/// The trimmed text between the first `open` tag and the next `close` tag.
pub open spec fn trx_tag(e: Seq<char>, open: Seq<char>, close: Seq<char>) -> Option<Seq<char>> {
    match find(e, open) {
        Some(ms) => match find(e.skip(ms), close) {
            Some(me) => Some(trim(e.subrange(ms + open.len(), ms + me))),
            None => None,
        },
        None => None,
    }
}

/// A closing tag cannot start inside its opening tag.
proof fn lemma_close_after_open(rest: Seq<char>, open: Seq<char>, close: Seq<char>)
    requires
        starts_with(rest, open),
        open.len() >= 2,
        close.len() >= 2,
        close[0] == '<',
        close[1] == '/',
        open[1] != '/',
        forall|j: int| 1 <= j < open.len() ==> open[j] != '<',
    ensures
        forall|j: int| 0 <= j < open.len() ==> !occurs_at(rest, close, j),
{
    assert forall|j: int| 0 <= j < open.len() implies !occurs_at(rest, close, j) by {
        if occurs_at(rest, close, j) {
            assert(rest.subrange(j, j + close.len())[0] == close[0]);
            assert(rest.subrange(j, j + close.len())[1] == close[1]);
            assert(rest.take(open.len() as int)[j] == open[j]);
            if j + 1 < open.len() {
                assert(rest.take(open.len() as int)[j + 1] == open[j + 1]);
            }
            if j == 0 {
                assert(rest[1] == open[1]);
            } else {
                assert(rest[j] == open[j]);
            }
        }
    }
}

fn trx_tag_v(e: &Vec<char>, open: &str, close: &str) -> (r: Option<Vec<char>>)
    requires
        open@.len() >= 2,
        close@.len() >= 2,
        close@[0] == '<',
        close@[1] == '/',
        open@[1] != '/',
        forall|j: int| 1 <= j < open@.len() ==> open@[j] != '<',
    ensures
        match r {
            Some(x) => trx_tag(e@, open@, close@) == Some(x@),
            None => trx_tag(e@, open@, close@) is None,
        },
{
    let ov = chars_of(open);
    match find_str(e, open) {
        Some(ms) => {
            let n = e.len();
            let rest = slice(e, ms, n);
            assert(rest@ =~= e@.skip(ms as int));
            assert(starts_with(rest@, open@)) by {
                assert(rest@.take(open@.len() as int) =~= e@.subrange(ms as int, ms + open@.len()));
            }
            match find_str(&rest, close) {
                Some(me) => {
                    proof {
                        lemma_close_after_open(rest@, open@, close@);
                    }
                    assert(me >= ov.len());
                    let inner = slice(e, ms + ov.len(), ms + me);
                    Some(trim_v(&inner))
                },
                None => None,
            }
        },
        None => None,
    }
}

/// Extract the `<Message>` text of a TRX element.
pub fn extract_trx_error_message(element: &str) -> (r: Option<String>)
    ensures
        match r {
            Some(x) => trx_tag(element@, "<Message>"@, "</Message>"@) == Some(x@),
            None => trx_tag(element@, "<Message>"@, "</Message>"@) is None,
        },
{
    proof {
        reveal_strlit("<Message>");
        reveal_strlit("</Message>");
    }
    match trx_tag_v(&chars_of(element), "<Message>", "</Message>") {
        Some(x) => Some(string_of(&x)),
        None => None,
    }
}

/// Extract the `<StackTrace>` text of a TRX element.
pub fn extract_trx_stack_trace(element: &str) -> (r: Option<String>)
    ensures
        match r {
            Some(x) => trx_tag(element@, "<StackTrace>"@, "</StackTrace>"@) == Some(x@),
            None => trx_tag(element@, "<StackTrace>"@, "</StackTrace>"@) is None,
        },
{
    proof {
        reveal_strlit("<StackTrace>");
        reveal_strlit("</StackTrace>");
    }
    match trx_tag_v(&chars_of(element), "<StackTrace>", "</StackTrace>") {
        Some(x) => Some(string_of(&x)),
        None => None,
    }
}

/// Signed nanoseconds of one `hh`, `mm` or `ss.fff` field in units of
/// `unit` nanoseconds (zero when it is not a number; whole parts beyond
/// 2^64 count as 2^64, fraction digits past the ninth are dropped).
pub open spec fn signed_field(p: Seq<char>, unit: nat, per: nat) -> int {
    match decimal_parts(p) {
        None => 0,
        Some((neg, ip, fp)) => {
            let v = min_nat(digits_val(ip), 0x1_0000_0000_0000_0000) * unit + digits_val(frac_prefix(fp, 9)) * per;
            if neg { -v } else { v as int }
        },
    }
}

/// Nanoseconds of a TRX duration `hh:mm:ss.fff` (zero for another shape or
/// a negative total, saturating at the largest duration).
pub open spec fn trx_duration(s: Seq<char>) -> nat {
    let parts = split_char(s, ':');
    if parts.len() == 3 {
        let t = signed_field(parts[0], 3_600_000_000_000, 3600) + signed_field(parts[1], 60_000_000_000, 60)
            + signed_field(parts[2], 1_000_000_000, 1);
        if t <= 0 { 0 } else { min_nat(t as nat, MAX_NANOS as nat) }
    } else {
        0
    }
}

pub(crate) fn signed_field_pub(p: &Vec<char>, unit: u128, per: u128) -> (r: i128)
    requires
        unit <= 3_600_000_000_000,
        per <= 3600,
    ensures
        r == signed_field(p@, unit as nat, per as nat),
        -100_000_000_000_000_000_000_000_000_000_000i128 <= r <= 100_000_000_000_000_000_000_000_000_000_000i128,
{
    match decimal_parts_v(p) {
        None => 0,
        Some((neg, ip, fp)) => {
            let fv = frac_value_v(&fp, 9);
            let iv = crate::num::digits_value_capped(&ip, 0x1_0000_0000_0000_0000u128);
            assert(iv * unit <= 0x1_0000_0000_0000_0000u128 * 3_600_000_000_000u128) by (nonlinear_arith)
                requires
                    iv <= 0x1_0000_0000_0000_0000u128,
                    unit <= 3_600_000_000_000u128,
            ;
            assert(fv * per <= 1_000_000_000u128 * 3600u128) by (nonlinear_arith)
                requires
                    fv < 1_000_000_000u128,
                    per <= 3600u128,
            ;
            let v = (iv * unit + fv * per) as i128;
            if neg { -v } else { v }
        },
    }
}

fn trx_duration_v(s: &Vec<char>) -> (d: Duration)
    ensures
        d.ns() == trx_duration(s@),
{
    let parts = split_char_v(s, ':');
    let ghost pv = parts@.map_values(|x: Vec<char>| x@);
    if parts.len() == 3 {
        assert(parts@[0]@ == pv[0]);
        assert(parts@[1]@ == pv[1]);
        assert(parts@[2]@ == pv[2]);
        let t = signed_field_pub(&parts[0], 3_600_000_000_000, 3600) + signed_field_pub(&parts[1], 60_000_000_000, 60)
            + signed_field_pub(&parts[2], 1_000_000_000, 1);
        if t <= 0 {
            Duration::zero()
        } else {
            Duration::from_nanos_u128(t as u128)
        }
    } else {
        Duration::zero()
    }
}

/// Parse a TRX duration (`00:00:01.500`).
pub fn parse_trx_duration(s: &str) -> (d: Duration)
    ensures
        d.ns() == trx_duration(s@),
{
    trx_duration_v(&chars_of(s))
}

/// The case a `<UnitTestResult>` element describes: `Passed`, `Failed`,
/// `NotExecuted`/`Inconclusive` (skipped) or any other outcome (failed);
/// failed ones carry the `<Message>` and the location in `<StackTrace>`.
pub open spec fn trx_case(e: Seq<char>) -> CaseView {
    let outcome = match trx_attr(e, "outcome"@) {
        Some(o) => o,
        None => seq![],
    };
    let status = if outcome == "Passed"@ {
        TestStatus::Passed
    } else if outcome == "Failed"@ {
        TestStatus::Failed
    } else if outcome == "NotExecuted"@ || outcome == "Inconclusive"@ {
        TestStatus::Skipped
    } else {
        TestStatus::Failed
    };
    CaseView {
        name: match trx_attr(e, "testName"@) {
            Some(n) => n,
            None => "unknown"@,
        },
        status: status,
        duration: trx_duration(match trx_attr(e, "duration"@) {
            Some(d) => d,
            None => seq![],
        }),
        error: if status == TestStatus::Failed {
            Some(ErrorView {
                message: match trx_tag(e, "<Message>"@, "</Message>"@) {
                    Some(m) => m,
                    None => "Test failed"@,
                },
                location: match trx_tag(e, "<StackTrace>"@, "</StackTrace>"@) {
                    Some(st) => dotnet_location(st),
                    None => None,
                },
            })
        } else {
            None
        },
    }
}

/// End of the element starting at `a`: after `</UnitTestResult>`, else
/// after the next `/>`.
pub open spec fn trx_end(c: Seq<char>, a: int) -> Option<int> {
    match find(c.skip(a), "</UnitTestResult>"@) {
        Some(cl) => Some(a + cl + 17),
        None => match find(c.skip(a), "/>"@) {
            Some(sc) => Some(a + sc + 2),
            None => None,
        },
    }
}

pub proof fn lemma_trx_end(c: Seq<char>, a: int)
    requires
        0 <= a <= c.len(),
    ensures
        trx_end(c, a) matches Some(e) ==> a < e <= c.len(),
{
    reveal_strlit("</UnitTestResult>");
    reveal_strlit("/>");
    crate::text::lemma_find_from_bounds(c.skip(a), "</UnitTestResult>"@, 0);
    crate::text::lemma_find_from_bounds(c.skip(a), "/>"@, 0);
}

/// The `<UnitTestResult>` cases from position `from` on.
pub open spec fn trx_from(c: Seq<char>, from: int) -> Seq<CaseView>
    decreases c.len() - from,
{
    if from < 0 || from > c.len() {
        seq![]
    } else {
        match find(c.skip(from), "<UnitTestResult"@) {
            None => seq![],
            Some(st) => {
                proof {
                    crate::text::lemma_find_from_bounds(c.skip(from), "<UnitTestResult"@, 0);
                    lemma_trx_end(c, from + st);
                }
                match trx_end(c, from + st) {
                    Some(e) => seq![trx_case(c.subrange(from + st, e))] + trx_from(c, e),
                    None => seq![],
                }
            },
        }
    }
}

/// The suites of a TRX report: one with its cases, or none without any.
pub open spec fn trx_suites(c: Seq<char>) -> Seq<SuiteView> {
    let cases = trx_from(c, 0);
    if cases.len() == 0 { seq![] } else { seq![SuiteView { name: "tests"@, tests: cases }] }
}

fn trx_case_v(e: &Vec<char>) -> (r: TestCase)
    ensures
        r@ == trx_case(e@),
{
    let outcome = match trx_attr_v(e, &chars_of("outcome")) {
        Some(o) => o,
        None => Vec::new(),
    };
    let status = if eq(&outcome, &chars_of("Passed")) {
        TestStatus::Passed
    } else if eq(&outcome, &chars_of("Failed")) {
        TestStatus::Failed
    } else if eq(&outcome, &chars_of("NotExecuted")) || eq(&outcome, &chars_of("Inconclusive")) {
        TestStatus::Skipped
    } else {
        TestStatus::Failed
    };
    assert(status == trx_case(e@).status);
    let name = match trx_attr_v(e, &chars_of("testName")) {
        Some(n) => n,
        None => chars_of("unknown"),
    };
    let dur = match trx_attr_v(e, &chars_of("duration")) {
        Some(d) => d,
        None => Vec::new(),
    };
    assert(dur@ == match trx_attr(e@, "duration"@) {
        Some(d) => d,
        None => Seq::<char>::empty(),
    });
    let duration = trx_duration_v(&dur);
    let error = if status == TestStatus::Failed {
        proof {
            reveal_strlit("<Message>");
            reveal_strlit("</Message>");
            reveal_strlit("<StackTrace>");
            reveal_strlit("</StackTrace>");
        }
        let message = match trx_tag_v(e, "<Message>", "</Message>") {
            Some(m) => m,
            None => chars_of("Test failed"),
        };
        let location = match trx_tag_v(e, "<StackTrace>", "</StackTrace>") {
            Some(st) => match dotnet_location_v(&st) {
                Some(l) => Some(string_of(&l)),
                None => None,
            },
            None => None,
        };
        Some(TestError { message: string_of(&message), location })
    } else {
        None
    };
    TestCase { name: string_of(&name), status, duration, error }
}

/// Parse the content of a TRX report into suites.
pub fn parse_trx_content(content: &str) -> (r: Vec<TestSuite>)
    ensures
        suites_view(r@) == trx_suites(content@),
{
    let c = chars_of(content);
    let mut tests: Vec<TestCase> = Vec::new();
    let mut from: usize = 0;
    assert(cases_view(tests@) + trx_from(c@, 0) =~= trx_from(c@, 0));
    loop
        invariant
            from <= c.len() + 1,
            c@ == content@,
            cases_view(tests@) + trx_from(c@, from as int) == trx_from(c@, 0),
        ensures
            cases_view(tests@) == trx_from(c@, 0),
        decreases c.len() + 1 - from,
    {
        if from > c.len() {
            assert(cases_view(tests@) + seq![] =~= cases_view(tests@));
            break;
        }
        let n = c.len();
        let rest = slice(&c, from, n);
        assert(rest@ =~= c@.skip(from as int));
        let st = match find_str(&rest, "<UnitTestResult") {
            Some(st) => st,
            None => {
                assert(cases_view(tests@) + seq![] =~= cases_view(tests@));
                break;
            },
        };
        proof {
            crate::text::lemma_find_from_bounds(c@.skip(from as int), "<UnitTestResult"@, 0);
        }
        let a = from + st;
        let tail = slice(&c, a, n);
        assert(tail@ =~= c@.skip(a as int));
        let end = match find_str(&tail, "</UnitTestResult>") {
            Some(cl) => {
                proof {
                    reveal_strlit("</UnitTestResult>");
                }
                a + cl + 17
            },
            None => match find_str(&tail, "/>") {
                Some(sc) => {
                    proof {
                        reveal_strlit("/>");
                    }
                    a + sc + 2
                },
                None => {
                    proof {
                        lemma_trx_end(c@, a as int);
                    }
                    assert(trx_end(c@, a as int) is None);
                    assert(cases_view(tests@) + seq![] =~= cases_view(tests@));
                    break;
                },
            },
        };
        proof {
            lemma_trx_end(c@, a as int);
        }
        assert(trx_end(c@, a as int) == Some(end as int));
        let element = slice(&c, a, end);
        let case = trx_case_v(&element);
        let ghost before = cases_view(tests@);
        tests.push(case);
        assert(cases_view(tests@) =~= before.push(case@));
        assert(trx_from(c@, from as int) == seq![case@] + trx_from(c@, end as int));
        assert(cases_view(tests@) + trx_from(c@, end as int) =~= trx_from(c@, 0));
        from = end;
    }
    if tests.len() == 0 {
        Vec::new()
    } else {
        let mut v: Vec<TestSuite> = Vec::new();
        let s = TestSuite { name: string_of(&chars_of("tests")), tests };
        v.push(s);
        assert(suites_view(v@) =~= seq![s@]);
        v
    }
}

} // verus!
