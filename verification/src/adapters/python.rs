//! pytest (and unittest) output.

use vstd::prelude::*;
use crate::adapters::{
    CaseView, ErrorView, RunView, SuiteView, TestCase, TestError, TestRunResult, TestStatus,
    TestSuite, cases_view, suites_view,
};
use crate::adapters::rust::last_message;
use crate::adapters::util::{utf8_len, utf8_len_v};
use crate::duration::{Duration, decimal_nanos, parse_secs};
use crate::num::{decimal, fmt_usize, parse_usize, parse_usize_spec};
use crate::text::{
    append, append_str, chars_of, contains, contains_str, ends_with, ends_with_str, find, join,
    join_v, lines, lines_v, num_prefix, num_prefix_len, occurs_at, rfind, slice, split_char,
    split_char_v, starts_with, starts_with_str, string_of, trim, trim_char, trim_char_v, trim_v,
    words, words_v,
};

verus! {

/// Adapter for Python projects (pytest, Django, unittest).
pub struct PythonAdapter;

impl PythonAdapter {
    pub fn new() -> (a: Self) {
        PythonAdapter
    }

    /// Name of this adapter for display.
    pub fn name(&self) -> (r: &'static str)
        ensures
            r@ == "Python"@,
    {
        "Python"
    }
}

impl Default for PythonAdapter {
    fn default() -> (a: Self) {
        PythonAdapter
    }
}

// ---------------------------------------------------------------------------
// Verbose result lines
// ---------------------------------------------------------------------------

/// The status words of verbose pytest lines, in the order they are tried.
pub open spec fn pytest_statuses() -> Seq<Seq<char>> {
    seq!["PASSED"@, "FAILED"@, "SKIPPED"@, "ERROR"@, "XFAIL"@, "XPASS"@]
}

/// What the `k`-th status word counts as: `SKIPPED`, `XFAIL` and `XPASS` are
/// skips, `ERROR` a failure.
pub open spec fn pytest_status(k: int) -> TestStatus {
    if k == 0 {
        TestStatus::Passed
    } else if k == 2 || k == 4 || k == 5 {
        TestStatus::Skipped
    } else {
        TestStatus::Failed
    }
}

/// ASCII whitespace (`u8::is_ascii_whitespace`).
pub open spec fn is_ascii_ws(c: char) -> bool {
    c == ' ' || c == '\t' || c == '\n' || c == '\x0C' || c == '\r'
}

/// The test path before the last occurrence of `word`, when the word stands
/// at the start or after whitespace and the path holds `::`.
pub open spec fn status_path(line: Seq<char>, word: Seq<char>) -> Option<Seq<char>> {
    match rfind(line, word) {
        Some(idx) => if idx > 0 && !is_ascii_ws(line[idx - 1]) {
            None
        } else if contains(trim(line.take(idx)), "::"@) {
            Some(trim(line.take(idx)))
        } else {
            None
        },
        None => None,
    }
}

/// The first status word, from the `k`-th on, whose test path can be read.
pub open spec fn pytest_line_from(line: Seq<char>, k: int) -> Option<(Seq<char>, int)>
    decreases 6 - k,
{
    if k < 0 || k >= 6 {
        None
    } else {
        match status_path(line, pytest_statuses()[k]) {
            Some(p) => Some((p, k)),
            None => pytest_line_from(line, k + 1),
        }
    }
}

/// Test path and status-word index of a verbose line
/// (`tests/test_foo.py::test_bar PASSED  [ 50%]`).
pub open spec fn pytest_line(line: Seq<char>) -> Option<(Seq<char>, int)> {
    pytest_line_from(line, 0)
}

fn is_ascii_ws_v(c: char) -> (b: bool)
    ensures
        b == is_ascii_ws(c),
{
    c == ' ' || c == '\t' || c == '\n' || c == '\x0C' || c == '\r'
}

fn status_path_v(line: &Vec<char>, word: &str) -> (r: Option<Vec<char>>)
    ensures
        match r {
            Some(p) => status_path(line@, word@) == Some(p@),
            None => status_path(line@, word@) is None,
        },
{
    let w = chars_of(word);
    match crate::text::rfind_v(line, &w) {
        Some(idx) => {
            if idx > 0 && !is_ascii_ws_v(line[idx - 1]) {
                None
            } else {
                let head = slice(line, 0, idx);
                assert(head@ =~= line@.take(idx as int));
                let p = trim_v(&head);
                if contains_str(&p, "::") {
                    Some(p)
                } else {
                    None
                }
            }
        },
        None => None,
    }
}

fn pytest_line_v(line: &Vec<char>) -> (r: Option<(Vec<char>, usize)>)
    ensures
        match r {
            Some((p, k)) => pytest_line(line@) == Some((p@, k as int)),
            None => pytest_line(line@) is None,
        },
{
    proof {
        reveal_with_fuel(pytest_line_from, 7);
    }
    if let Some(p) = status_path_v(line, "PASSED") {
        return Some((p, 0));
    }
    if let Some(p) = status_path_v(line, "FAILED") {
        return Some((p, 1));
    }
    if let Some(p) = status_path_v(line, "SKIPPED") {
        return Some((p, 2));
    }
    if let Some(p) = status_path_v(line, "ERROR") {
        return Some((p, 3));
    }
    if let Some(p) = status_path_v(line, "XFAIL") {
        return Some((p, 4));
    }
    if let Some(p) = status_path_v(line, "XPASS") {
        return Some((p, 5));
    }
    None
}

fn status_word(k: usize) -> (w: &'static str)
    requires
        k < 6,
    ensures
        w@ == pytest_statuses()[k as int],
{
    if k == 0 {
        "PASSED"
    } else if k == 1 {
        "FAILED"
    } else if k == 2 {
        "SKIPPED"
    } else if k == 3 {
        "ERROR"
    } else if k == 4 {
        "XFAIL"
    } else {
        "XPASS"
    }
}

/// Parse a verbose pytest line into the test path and its status word.
pub fn parse_pytest_line(line: &str) -> (r: Option<(String, String)>)
    ensures
        match r {
            Some((p, w)) => pytest_line(line@) matches Some((q, k)) && p@ == q && w@ == pytest_statuses()[k],
            None => pytest_line(line@) is None,
        },
{
    let l = chars_of(line);
    match pytest_line_v(&l) {
        Some((p, k)) => {
            proof {
                lemma_pytest_line_index(l@, 0);
            }
            let w = chars_of(status_word(k));
            Some((string_of(&p), string_of(&w)))
        },
        None => None,
    }
}

proof fn lemma_pytest_line_index(line: Seq<char>, k: int)
    ensures
        pytest_line_from(line, k) matches Some((_, j)) ==> 0 <= j < 6,
    decreases 6 - k,
{
    if 0 <= k < 6 {
        lemma_pytest_line_index(line, k + 1);
    }
}

// ---------------------------------------------------------------------------
// Test paths
// ---------------------------------------------------------------------------

/// The part of `s` before the first `sep` (all of `s` without one).
pub open spec fn first_piece(s: Seq<char>, sep: Seq<char>) -> Seq<char> {
    match find(s, sep) {
        Some(i) => s.take(i),
        None => s,
    }
}

/// The part of `s` after the last of the non-overlapping occurrences of
/// `sep` found from the left (`str::split(sep).last()`).
pub open spec fn last_piece(s: Seq<char>, sep: Seq<char>) -> Seq<char>
    decreases s.len(),
{
    if sep.len() == 0 {
        s
    } else {
        match find(s, sep) {
            Some(i) => {
                proof {
                    crate::text::lemma_find_from_bounds(s, sep, 0);
                }
                last_piece(s.skip(i + sep.len()), sep)
            },
            None => s,
        }
    }
}

pub(crate) fn first_piece_v(s: &Vec<char>, sep: &Vec<char>) -> (r: Vec<char>)
    ensures
        r@ == first_piece(s@, sep@),
{
    match crate::text::find_v(s, sep) {
        Some(i) => {
            let r = slice(s, 0, i);
            assert(r@ =~= s@.take(i as int));
            r
        },
        None => slice(s, 0, s.len()),
    }
}

pub(crate) fn last_piece_v(s: &Vec<char>, sep: &Vec<char>) -> (r: Vec<char>)
    requires
        sep.len() > 0,
    ensures
        r@ == last_piece(s@, sep@),
{
    let mut cur = slice(s, 0, s.len());
    assert(cur@ =~= s@);
    loop
        invariant
            sep.len() > 0,
            last_piece(s@, sep@) == last_piece(cur@, sep@),
        decreases cur.len(),
    {
        match crate::text::find_v(&cur, sep) {
            Some(i) => {
                assert(occurs_at(cur@, sep@, i as int));
                let n = cur.len();
                let next = slice(&cur, i + sep.len(), n);
                assert(next@ =~= cur@.skip(i + sep.len()));
                cur = next;
            },
            None => {
                return cur;
            },
        }
    }
}

// ---------------------------------------------------------------------------
// Run duration
// ---------------------------------------------------------------------------

/// Seconds after the first `" in "` of a line, if they read as a number.
pub open spec fn in_secs(line: Seq<char>) -> Option<nat> {
    match find(line, " in "@) {
        Some(idx) => {
            let after = line.skip(idx + " in "@.len());
            decimal_nanos(after.take(num_prefix_len(after) as int), 1_000_000_000, 9, 1)
        },
        None => None,
    }
}

/// The first line time of a pytest summary (`... in 0.32s`).
pub open spec fn pytest_duration(ls: Seq<Seq<char>>) -> Option<nat>
    decreases ls.len(),
{
    if ls.len() == 0 {
        None
    } else {
        match in_secs(ls[0]) {
            Some(d) => Some(d),
            None => pytest_duration(ls.drop_first()),
        }
    }
}

fn in_secs_v(line: &Vec<char>) -> (r: Option<Duration>)
    ensures
        match r {
            Some(d) => in_secs(line@) == Some(d.ns()),
            None => in_secs(line@) is None,
        },
{
    let pat = chars_of(" in ");
    match crate::text::find_v(line, &pat) {
        Some(idx) => {
            assert(occurs_at(line@, pat@, idx as int));
            let n = line.len();
            let k = pat.len();
            let after = slice(line, idx + k, n);
            assert(after@ =~= line@.skip(idx + " in "@.len()));
            parse_secs(&num_prefix(&after))
        },
        None => None,
    }
}

fn pytest_duration_v(ls: &Vec<Vec<char>>) -> (r: Option<Duration>)
    ensures
        match r {
            Some(d) => pytest_duration(ls@.map_values(|l: Vec<char>| l@)) == Some(d.ns()),
            None => pytest_duration(ls@.map_values(|l: Vec<char>| l@)) is None,
        },
{
    let ghost lv = ls@.map_values(|l: Vec<char>| l@);
    let mut i: usize = 0;
    assert(lv.skip(0) =~= lv);
    while i < ls.len()
        invariant
            i <= ls.len(),
            lv == ls@.map_values(|l: Vec<char>| l@),
            pytest_duration(lv) == pytest_duration(lv.skip(i as int)),
        decreases ls.len() - i,
    {
        assert(lv.skip(i as int)[0] == ls@[i as int]@);
        assert(lv.skip(i as int).drop_first() =~= lv.skip(i + 1));
        if let Some(d) = in_secs_v(&ls[i]) {
            return Some(d);
        }
        i += 1;
    }
    None
}

/// Parse the run time from a pytest summary like `"in 0.32s"`.
pub fn parse_pytest_duration(output: &str) -> (r: Option<Duration>)
    ensures
        match r {
            Some(d) => pytest_duration(lines(output@)) == Some(d.ns()),
            None => pytest_duration(lines(output@)) is None,
        },
{
    let ls = crate::text::lines_of(output);
    assert(ls@.map_values(|l: Vec<char>| l@) =~= lines(output@));
    pytest_duration_v(&ls)
}

// ---------------------------------------------------------------------------
// The FAILURES section
// ---------------------------------------------------------------------------

/// A line that closes a failure block: a long `____ name ____` header or a
/// long `====` rule.
pub open spec fn ends_py_block(l: Seq<char>) -> bool {
    (starts_with(l, "_"@) && ends_with(l, "_"@) && utf8_len(l) > 5) || (starts_with(l, "="@) && utf8_len(l) > 5)
}

/// First line at or after `k` (trimmed) that closes a failure block, or the end.
pub open spec fn py_block_end(ls: Seq<Seq<char>>, k: int) -> int
    decreases ls.len() - k,
{
    if k < 0 {
        0
    } else if k >= ls.len() {
        k
    } else if ends_py_block(trim(ls[k])) {
        k
    } else {
        py_block_end(ls, k + 1)
    }
}

pub proof fn lemma_py_block_end(ls: Seq<Seq<char>>, k: int)
    requires
        0 <= k,
    ensures
        k <= py_block_end(ls, k),
        k <= ls.len() ==> py_block_end(ls, k) <= ls.len(),
    decreases ls.len() - k,
{
    if k < ls.len() && !ends_py_block(trim(ls[k])) {
        lemma_py_block_end(ls, k + 1);
    }
}

/// An assertion line: `E` followed by a space or a tab.
pub open spec fn is_e_line(l: Seq<char>) -> bool {
    starts_with(l, "E "@) || starts_with(l, seq!['E', '\t'])
}

/// The assertion messages of lines `[k, e)`, without the leading `E`.
pub open spec fn py_err_lines(ls: Seq<Seq<char>>, k: int, e: int) -> Seq<Seq<char>>
    decreases e - k,
{
    if k >= e || k < 0 || e > ls.len() {
        seq![]
    } else {
        py_err_lines(ls, k, e - 1) + if is_e_line(trim(ls[e - 1])) {
            seq![trim(trim(ls[e - 1]).skip(1))]
        } else {
            seq![]
        }
    }
}

/// A `path.py:line: Error` location line.
pub open spec fn is_location_line(l: Seq<char>) -> bool {
    contains(l, ".py:"@) && contains(l, seq![':']) && !starts_with(l, ">"@) && !starts_with(l, "E"@)
}

/// `file:line` of a location line.
pub open spec fn location_of(l: Seq<char>) -> Option<Seq<char>> {
    let parts = split_char(l, ':');
    if parts.len() >= 2 {
        Some(trim(parts[0]) + ":"@ + trim(parts[1]))
    } else {
        None
    }
}

/// The location given last among lines `[k, e)`.
pub open spec fn py_location(ls: Seq<Seq<char>>, k: int, e: int) -> Option<Seq<char>>
    decreases e - k,
{
    if k >= e || k < 0 || e > ls.len() {
        None
    } else {
        let l = trim(ls[e - 1]);
        if is_location_line(l) && location_of(l) is Some {
            location_of(l)
        } else {
            py_location(ls, k, e - 1)
        }
    }
}

/// The assertion messages joined by `" | "`, followed by ` (location)`.
pub open spec fn py_message(errs: Seq<Seq<char>>, loc: Option<Seq<char>>) -> Seq<char> {
    match loc {
        Some(x) => join(errs, " | "@) + " ("@ + x + ")"@,
        None => join(errs, " | "@),
    }
}

/// The name in a `____ name ____` header.
pub open spec fn header_name(t: Seq<char>) -> Seq<char> {
    trim(trim_char(t, '_'))
}

/// A rule that ends the FAILURES section.
pub open spec fn ends_failures(t: Seq<char>) -> bool {
    starts_with(t, "="@) && (contains(t, "short test summary"@) || contains(t, "passed"@)
        || contains(t, "failed"@) || contains(t, "error"@))
}

/// `(test name, message)` for each failure block from line `i` on, where
/// `inside` tells whether the FAILURES section has begun. Blocks without an
/// assertion line give nothing.
pub open spec fn py_failures_from(ls: Seq<Seq<char>>, i: int, inside: bool) -> Seq<(Seq<char>, Seq<char>)>
    decreases ls.len() - i,
{
    if i < 0 || i >= ls.len() {
        seq![]
    } else {
        let t = trim(ls[i]);
        if contains(t, "FAILURES"@) && starts_with(t, "="@) {
            py_failures_from(ls, i + 1, true)
        } else if inside && ends_failures(t) {
            seq![]
        } else if inside && starts_with(t, "_"@) && ends_with(t, "_"@) && header_name(t).len() > 0 {
            let e = py_block_end(ls, i + 1);
            let errs = py_err_lines(ls, i + 1, e);
            proof {
                lemma_py_block_end(ls, i + 1);
            }
            (if errs.len() > 0 {
                seq![(header_name(t), py_message(errs, py_location(ls, i + 1, e)))]
            } else {
                seq![]
            }) + py_failures_from(ls, e, inside)
        } else {
            py_failures_from(ls, i + 1, inside)
        }
    }
}

fn ends_py_block_v(l: &Vec<char>) -> (b: bool)
    ensures
        b == ends_py_block(l@),
{
    let n = utf8_len_v(l);
    (starts_with_str(l, "_") && ends_with_str(l, "_") && n > 5) || (starts_with_str(l, "=") && n > 5)
}

fn location_of_v(l: &Vec<char>) -> (r: Option<Vec<char>>)
    ensures
        match r {
            Some(x) => location_of(l@) == Some(x@),
            None => location_of(l@) is None,
        },
{
    let parts = split_char_v(l, ':');
    let ghost pv = parts@.map_values(|p: Vec<char>| p@);
    if parts.len() >= 2 {
        assert(parts@[0]@ == pv[0]);
        assert(parts@[1]@ == pv[1]);
        let mut x = trim_v(&parts[0]);
        append_str(&mut x, ":");
        append(&mut x, &trim_v(&parts[1]));
        Some(x)
    } else {
        None
    }
}

fn parse_pytest_failures(ls: &Vec<Vec<char>>) -> (r: Vec<(Vec<char>, Vec<char>)>)
    ensures
        r@.map_values(|p: (Vec<char>, Vec<char>)| (p.0@, p.1@)) == py_failures_from(
            ls@.map_values(|l: Vec<char>| l@),
            0,
            false,
        ),
{
    let ghost lv = ls@.map_values(|l: Vec<char>| l@);
    let mut out: Vec<(Vec<char>, Vec<char>)> = Vec::new();
    let mut inside = false;
    let mut i: usize = 0;
    assert(out@.map_values(|p: (Vec<char>, Vec<char>)| (p.0@, p.1@)) + py_failures_from(lv, 0, false) =~= py_failures_from(lv, 0, false));
    while i < ls.len()
        invariant
            i <= ls.len(),
            lv == ls@.map_values(|l: Vec<char>| l@),
            out@.map_values(|p: (Vec<char>, Vec<char>)| (p.0@, p.1@)) + py_failures_from(lv, i as int, inside)
                == py_failures_from(lv, 0, false),
        ensures
            out@.map_values(|p: (Vec<char>, Vec<char>)| (p.0@, p.1@)) == py_failures_from(lv, 0, false),
        decreases ls.len() - i,
    {
        let t = trim_v(&ls[i]);
        assert(t@ == trim(lv[i as int]));
        if contains_str(&t, "FAILURES") && starts_with_str(&t, "=") {
            inside = true;
            if i + 1 == ls.len() {
                assert(out@.map_values(|p: (Vec<char>, Vec<char>)| (p.0@, p.1@)) + seq![] =~= out@.map_values(|p: (Vec<char>, Vec<char>)| (p.0@, p.1@)));
            }
            i += 1;
            continue;
        }
        if inside && starts_with_str(&t, "=") && (contains_str(&t, "short test summary") || contains_str(&t, "passed")
            || contains_str(&t, "failed") || contains_str(&t, "error")) {
            assert(py_failures_from(lv, i as int, inside) == Seq::<(Seq<char>, Seq<char>)>::empty());
            assert(out@.map_values(|p: (Vec<char>, Vec<char>)| (p.0@, p.1@)) + seq![] =~= out@.map_values(|p: (Vec<char>, Vec<char>)| (p.0@, p.1@)));
            break;
        }
        if inside && starts_with_str(&t, "_") && ends_with_str(&t, "_") {
            let name = trim_v(&trim_char_v(&t, '_'));
            if name.len() > 0 {
                let mut errs: Vec<Vec<char>> = Vec::new();
                let mut loc: Option<Vec<char>> = None;
                let mut k = i + 1;
                proof {
                    lemma_py_block_end(lv, i + 1);
                }
                while k < ls.len() && !ends_py_block_v(&trim_v(&ls[k]))
                    invariant
                        i + 1 <= k <= ls.len(),
                        lv == ls@.map_values(|l: Vec<char>| l@),
                        py_block_end(lv, (i + 1) as int) == py_block_end(lv, k as int),
                        errs@.map_values(|p: Vec<char>| p@) == py_err_lines(lv, (i + 1) as int, k as int),
                        match loc {
                            Some(x) => py_location(lv, (i + 1) as int, k as int) == Some(x@),
                            None => py_location(lv, (i + 1) as int, k as int) is None,
                        },
                    decreases ls.len() - k,
                {
                    let l = trim_v(&ls[k]);
                    assert(l@ == trim(lv[k as int]));
                    let ghost before = errs@.map_values(|p: Vec<char>| p@);
                    if starts_with_str(&l, "E ") || (l.len() >= 2 && l[0] == 'E' && l[1] == '\t') {
                        proof {
                            reveal_strlit("E ");
                            if !starts_with(l@, "E "@) {
                                assert(l@.take(2) =~= seq!['E', '\t']);
                            }
                        }
                        let n = l.len();
                        let tail = slice(&l, 1, n);
                        assert(tail@ =~= l@.skip(1));
                        let m = trim_v(&tail);
                        errs.push(m);
                        assert(errs@.map_values(|p: Vec<char>| p@) =~= before + seq![trim(l@.skip(1))]);
                    } else {
                        proof {
                            if l@.len() >= 2 && l@.take(2) =~= seq!['E', '\t'] {
                                assert(l@[0] == 'E' && l@[1] == '\t');
                            }
                        }
                        assert(before + seq![] =~= before);
                    }
                    if contains_str(&l, ".py:") && crate::text::contains_char(&l, ':') && !starts_with_str(&l, ">")
                        && !starts_with_str(&l, "E") {
                        if let Some(x) = location_of_v(&l) {
                            loc = Some(x);
                        }
                    }
                    k += 1;
                }
                proof {
                    if k < ls.len() {
                        assert(ends_py_block(trim(lv[k as int])));
                    }
                    assert(py_block_end(lv, k as int) == k);
                }
                let ghost before = out@.map_values(|p: (Vec<char>, Vec<char>)| (p.0@, p.1@));
                if errs.len() > 0 {
                    let sep = chars_of(" | ");
                    let mut msg = join_v(&errs, &sep);
                    match loc {
                        Some(x) => {
                            append_str(&mut msg, " (");
                            append(&mut msg, &x);
                            append_str(&mut msg, ")");
                        },
                        None => {},
                    }
                    let ghost nm = name@;
                    let ghost mm = msg@;
                    out.push((name, msg));
                    assert(out@.map_values(|p: (Vec<char>, Vec<char>)| (p.0@, p.1@)) =~= before + seq![(nm, mm)]);
                } else {
                    assert(before + seq![] =~= before);
                }
                i = k;
                continue;
            }
        }
        i += 1;
    }
    out
}

// ---------------------------------------------------------------------------
// Summary line
// ---------------------------------------------------------------------------

/// Counts `(passed, failed, skipped)` after reading one comma-separated part
/// such as `"2 failed"`: a leading number sets the count its words name.
pub open spec fn summary_part(acc: (usize, usize, usize), part: Seq<char>) -> (usize, usize, usize) {
    let p = trim(part);
    let w = words(p);
    if w.len() > 0 && parse_usize_spec(w[0]) is Some {
        let n = parse_usize_spec(w[0])->0;
        if contains(p, "passed"@) {
            (n, acc.1, acc.2)
        } else if contains(p, "failed"@) || contains(p, "error"@) {
            (acc.0, n, acc.2)
        } else if contains(p, "skipped"@) {
            (acc.0, acc.1, n)
        } else {
            acc
        }
    } else {
        acc
    }
}

pub open spec fn summary_parts(acc: (usize, usize, usize), ps: Seq<Seq<char>>) -> (usize, usize, usize)
    decreases ps.len(),
{
    if ps.len() == 0 {
        acc
    } else {
        summary_part(summary_parts(acc, ps.drop_last()), ps.last())
    }
}

/// A line without surrounding whitespace and `=` rules.
pub open spec fn summary_text(line: Seq<char>) -> Seq<char> {
    trim(trim_char(trim(line), '='))
}

pub open spec fn summary_line(acc: (usize, usize, usize), line: Seq<char>) -> (usize, usize, usize) {
    let t = summary_text(line);
    if contains(t, "passed"@) || contains(t, "failed"@) || contains(t, "error"@) {
        summary_parts(acc, split_char(t, ','))
    } else {
        acc
    }
}

/// `(passed, failed, skipped)` as the summary lines give them, later lines
/// overriding earlier ones.
pub open spec fn summary_counts(ls: Seq<Seq<char>>) -> (usize, usize, usize)
    decreases ls.len(),
{
    if ls.len() == 0 {
        (0, 0, 0)
    } else {
        summary_line(summary_counts(ls.drop_last()), ls.last())
    }
}

pub open spec fn numbered_case(prefix: Seq<char>, k: int, status: TestStatus) -> CaseView {
    CaseView { name: prefix + decimal((k + 1) as nat), status: status, duration: 0, error: None }
}

/// The suite made from summary counts: `pp<k>` passing, `fp<k>` failing
/// and `sp<k>` skipped cases, or, when all counts are zero, one
/// `test_suite` case that passes exactly when the exit code is 0.
pub open spec fn prefixed_suite(name: Seq<char>, pp: Seq<char>, fp: Seq<char>, sp: Seq<char>, p: nat, f: nat, sk: nat, exit_code: i32) -> SuiteView {
    let tests = Seq::new(p, |k: int| numbered_case(pp, k, TestStatus::Passed))
        + Seq::new(f, |k: int| numbered_case(fp, k, TestStatus::Failed))
        + Seq::new(sk, |k: int| numbered_case(sp, k, TestStatus::Skipped));
    SuiteView {
        name: name,
        tests: if tests.len() == 0 {
            seq![CaseView {
                name: "test_suite"@,
                status: if exit_code == 0 { TestStatus::Passed } else { TestStatus::Failed },
                duration: 0,
                error: None,
            }]
        } else {
            tests
        },
    }
}

/// The suite `tests` made from summary counts: `test_<k>` passing,
/// `failed_test_<k>` failing and `<skip_prefix><k>` skipped cases.
pub open spec fn counted_suite(p: nat, f: nat, sk: nat, skip_prefix: Seq<char>, exit_code: i32) -> SuiteView {
    prefixed_suite("tests"@, "test_"@, "failed_test_"@, skip_prefix, p, f, sk, exit_code)
}

/// The suite a run without verbose lines is given, from the summary counts.
pub open spec fn summary_suite(ls: Seq<Seq<char>>, exit_code: i32) -> SuiteView {
    let c = summary_counts(ls);
    counted_suite(c.0 as nat, c.1 as nat, c.2 as nat, "skipped_test_"@, exit_code)
}

fn summary_part_v(acc: (usize, usize, usize), part: &Vec<char>) -> (r: (usize, usize, usize))
    ensures
        r == summary_part(acc, part@),
{
    let p = trim_v(part);
    let w = words_v(&p);
    let ghost wv = w@.map_values(|x: Vec<char>| x@);
    if w.len() > 0 {
        assert(w@[0]@ == wv[0]);
        match parse_usize(&w[0]) {
            Some(n) => {
                if contains_str(&p, "passed") {
                    (n, acc.1, acc.2)
                } else if contains_str(&p, "failed") || contains_str(&p, "error") {
                    (acc.0, n, acc.2)
                } else if contains_str(&p, "skipped") {
                    (acc.0, acc.1, n)
                } else {
                    acc
                }
            },
            None => acc,
        }
    } else {
        acc
    }
}

fn summary_counts_v(ls: &Vec<Vec<char>>) -> (r: (usize, usize, usize))
    ensures
        r == summary_counts(ls@.map_values(|l: Vec<char>| l@)),
{
    let ghost lv = ls@.map_values(|l: Vec<char>| l@);
    let mut acc: (usize, usize, usize) = (0, 0, 0);
    let mut i: usize = 0;
    while i < ls.len()
        invariant
            i <= ls.len(),
            lv == ls@.map_values(|l: Vec<char>| l@),
            acc == summary_counts(lv.take(i as int)),
        decreases ls.len() - i,
    {
        assert(lv.take(i + 1).drop_last() =~= lv.take(i as int));
        assert(lv.take(i + 1).last() == ls@[i as int]@);
        let t = trim_v(&trim_char_v(&trim_v(&ls[i]), '='));
        if contains_str(&t, "passed") || contains_str(&t, "failed") || contains_str(&t, "error") {
            let parts = split_char_v(&t, ',');
            let ghost pv = parts@.map_values(|x: Vec<char>| x@);
            let ghost start = acc;
            let mut j: usize = 0;
            while j < parts.len()
                invariant
                    j <= parts.len(),
                    pv == parts@.map_values(|x: Vec<char>| x@),
                    acc == summary_parts(start, pv.take(j as int)),
                decreases parts.len() - j,
            {
                assert(pv.take(j + 1).drop_last() =~= pv.take(j as int));
                assert(pv.take(j + 1).last() == parts@[j as int]@);
                acc = summary_part_v(acc, &parts[j]);
                j += 1;
            }
            assert(pv.take(parts.len() as int) =~= pv);
        }
        i += 1;
    }
    assert(lv.take(ls.len() as int) =~= lv);
    acc
}

fn numbered_case_v(prefix: &str, k: usize, status: TestStatus) -> (t: TestCase)
    requires
        k < usize::MAX,
    ensures
        t@ == numbered_case(prefix@, k as int, status),
{
    let mut name = chars_of(prefix);
    append(&mut name, &fmt_usize(k + 1));
    TestCase { name: string_of(&name), status, duration: Duration::zero(), error: None }
}

pub(crate) fn prefixed_suite_v(name: &str, pp: &str, fp: &str, skip_prefix: &str, p: usize, f: usize, sk: usize, exit_code: i32) -> (s: TestSuite)
    ensures
        s@ == prefixed_suite(name@, pp@, fp@, skip_prefix@, p as nat, f as nat, sk as nat, exit_code),
{
    let c = (p, f, sk);
    let ghost goal = prefixed_suite(name@, pp@, fp@, skip_prefix@, p as nat, f as nat, sk as nat, exit_code);
    let ghost all = Seq::new(c.0 as nat, |k: int| numbered_case(pp@, k, TestStatus::Passed))
        + Seq::new(c.1 as nat, |k: int| numbered_case(fp@, k, TestStatus::Failed))
        + Seq::new(c.2 as nat, |k: int| numbered_case(skip_prefix@, k, TestStatus::Skipped));
    let mut tests: Vec<TestCase> = Vec::new();
    let mut i: usize = 0;
    while i < c.0
        invariant
            i <= c.0,
            all.len() == c.0 + c.1 + c.2,
            all == Seq::new(c.0 as nat, |k: int| numbered_case(pp@, k, TestStatus::Passed))
                + Seq::new(c.1 as nat, |k: int| numbered_case(fp@, k, TestStatus::Failed))
                + Seq::new(c.2 as nat, |k: int| numbered_case(skip_prefix@, k, TestStatus::Skipped)),
            cases_view(tests@) == all.take(i as int),
        decreases c.0 - i,
    {
        let t = numbered_case_v(pp, i, TestStatus::Passed);
        let ghost before = tests@;
        tests.push(t);
        assert(cases_view(tests@) =~= cases_view(before).push(t@));
        assert(all[i as int] == t@);
        assert(all.take(i + 1) =~= all.take(i as int).push(all[i as int]));
        i += 1;
    }
    let mut i: usize = 0;
    while i < c.1
        invariant
            i <= c.1,
            all.len() == c.0 + c.1 + c.2,
            all == Seq::new(c.0 as nat, |k: int| numbered_case(pp@, k, TestStatus::Passed))
                + Seq::new(c.1 as nat, |k: int| numbered_case(fp@, k, TestStatus::Failed))
                + Seq::new(c.2 as nat, |k: int| numbered_case(skip_prefix@, k, TestStatus::Skipped)),
            cases_view(tests@) == all.take(c.0 + i),
        decreases c.1 - i,
    {
        let t = numbered_case_v(fp, i, TestStatus::Failed);
        let ghost before = tests@;
        tests.push(t);
        assert(cases_view(tests@) =~= cases_view(before).push(t@));
        assert(all[c.0 + i] == t@);
        assert(all.take(c.0 + i + 1) =~= all.take(c.0 + i).push(all[c.0 + i]));
        i += 1;
    }
    let mut i: usize = 0;
    while i < c.2
        invariant
            i <= c.2,
            all.len() == c.0 + c.1 + c.2,
            all == Seq::new(c.0 as nat, |k: int| numbered_case(pp@, k, TestStatus::Passed))
                + Seq::new(c.1 as nat, |k: int| numbered_case(fp@, k, TestStatus::Failed))
                + Seq::new(c.2 as nat, |k: int| numbered_case(skip_prefix@, k, TestStatus::Skipped)),
            cases_view(tests@) == all.take(c.0 + c.1 + i),
        decreases c.2 - i,
    {
        let t = numbered_case_v(skip_prefix, i, TestStatus::Skipped);
        let ghost before = tests@;
        tests.push(t);
        assert(cases_view(tests@) =~= cases_view(before).push(t@));
        assert(all[c.0 + c.1 + i] == t@);
        assert(all.take(c.0 + c.1 + i + 1) =~= all.take(c.0 + c.1 + i).push(all[c.0 + c.1 + i]));
        i += 1;
    }
    assert(all.take(all.len() as int) =~= all);
    if tests.len() == 0 {
        let status = if exit_code == 0 { TestStatus::Passed } else { TestStatus::Failed };
        tests.push(TestCase { name: string_of(&chars_of("test_suite")), status, duration: Duration::zero(), error: None });
        assert(cases_view(tests@) =~= goal.tests);
    }
    TestSuite { name: string_of(&chars_of(name)), tests }
}

// ---------------------------------------------------------------------------
// The run
// ---------------------------------------------------------------------------

pub struct PyState {
    pub suites: Seq<SuiteView>,
    pub cur: Seq<char>,
    pub tests: Seq<CaseView>,
}

pub open spec fn found_error(m: Option<Seq<char>>) -> Option<ErrorView> {
    match m {
        Some(msg) => Some(ErrorView { message: msg, location: None }),
        None => None,
    }
}

/// The message for a failed test: the one recorded for its full path, else
/// the one recorded for its name.
pub open spec fn py_error(fails: Seq<(Seq<char>, Seq<char>)>, path: Seq<char>, name: Seq<char>) -> Option<ErrorView> {
    match last_message(fails, path) {
        Some(m) => found_error(Some(m)),
        None => found_error(last_message(fails, name)),
    }
}

/// Effect of one output line: a verbose result line adds a case to the suite
/// of its file, closing the previous suite when the file changes.
pub open spec fn py_step(st: PyState, line: Seq<char>, fails: Seq<(Seq<char>, Seq<char>)>) -> PyState {
    match pytest_line(trim(line)) {
        Some((path, k)) => {
            let suite = first_piece(path, "::"@);
            let name = last_piece(path, "::"@);
            let status = pytest_status(k);
            let err = if status == TestStatus::Failed { py_error(fails, path, name) } else { None };
            let case = CaseView { name: name, status: status, duration: 0, error: err };
            if suite != st.cur && st.tests.len() > 0 {
                PyState { suites: st.suites.push(SuiteView { name: st.cur, tests: st.tests }), cur: suite, tests: seq![case] }
            } else {
                PyState { suites: st.suites, cur: suite, tests: st.tests.push(case) }
            }
        },
        None => st,
    }
}

pub open spec fn py_fold(ls: Seq<Seq<char>>, fails: Seq<(Seq<char>, Seq<char>)>) -> PyState
    decreases ls.len(),
{
    if ls.len() == 0 {
        PyState { suites: seq![], cur: "tests"@, tests: seq![] }
    } else {
        py_step(py_fold(ls.drop_last(), fails), ls.last(), fails)
    }
}

/// The run pytest output describes (stdout and stderr joined by a newline):
/// one suite per test file in order of appearance, or the summary suite when
/// no verbose line is found; the time of the first `in <secs>` line.
pub open spec fn py_run(stdout: Seq<char>, stderr: Seq<char>, exit_code: i32) -> RunView {
    let ls = lines(stdout + seq!['\n'] + stderr);
    let st = py_fold(ls, py_failures_from(ls, 0, false));
    let suites = if st.tests.len() > 0 {
        st.suites.push(SuiteView { name: st.cur, tests: st.tests })
    } else {
        st.suites
    };
    RunView {
        suites: if suites.len() == 0 { seq![summary_suite(ls, exit_code)] } else { suites },
        duration: match pytest_duration(ls) {
            Some(d) => d,
            None => 0,
        },
        raw_exit_code: exit_code,
    }
}

struct PyParser {
    suites: Vec<TestSuite>,
    cur: Vec<char>,
    tests: Vec<TestCase>,
}

impl PyParser {
    spec fn state(&self) -> PyState {
        PyState { suites: suites_view(self.suites@), cur: self.cur@, tests: cases_view(self.tests@) }
    }

    fn step(&mut self, line: &Vec<char>, fails: &Vec<(Vec<char>, Vec<char>)>)
        ensures
            final(self).state() == py_step(old(self).state(), line@, fails@.map_values(|p: (Vec<char>, Vec<char>)| (p.0@, p.1@))),
    {
        let t = trim_v(line);
        match pytest_line_v(&t) {
            Some((path, k)) => {
                proof {
                    lemma_pytest_line_index(t@, 0);
                }
                let sep = chars_of("::");
                proof {
                    reveal_strlit("::");
                }
                let suite = first_piece_v(&path, &sep);
                let name = last_piece_v(&path, &sep);
                let status = if k == 0 {
                    TestStatus::Passed
                } else if k == 2 || k == 4 || k == 5 {
                    TestStatus::Skipped
                } else {
                    TestStatus::Failed
                };
                let error = if status == TestStatus::Failed {
                    match crate::adapters::rust::last_message_pub(fails, &path) {
                        Some(m) => Some(TestError { message: string_of(&m), location: None }),
                        None => match crate::adapters::rust::last_message_pub(fails, &name) {
                            Some(m) => Some(TestError { message: string_of(&m), location: None }),
                            None => None,
                        },
                    }
                } else {
                    None
                };
                let case = TestCase { name: string_of(&name), status, duration: Duration::zero(), error };
                if !crate::text::eq(&suite, &self.cur) && self.tests.len() > 0 {
                    let mut tests: Vec<TestCase> = Vec::new();
                    std::mem::swap(&mut tests, &mut self.tests);
                    let s = TestSuite { name: string_of(&self.cur), tests };
                    let ghost before = self.suites@;
                    self.suites.push(s);
                    assert(suites_view(self.suites@) =~= suites_view(before).push(s@));
                    self.tests.push(case);
                    assert(cases_view(self.tests@) =~= seq![case@]);
                } else {
                    let ghost before = self.tests@;
                    self.tests.push(case);
                    assert(cases_view(self.tests@) =~= cases_view(before).push(case@));
                }
                self.cur = suite;
            },
            None => {},
        }
    }
}

impl PythonAdapter {
    /// Parse pytest (or unittest) output into a run.
    pub fn parse_output(&self, stdout: &str, stderr: &str, exit_code: i32) -> (r: TestRunResult)
        ensures
            r@ == py_run(stdout@, stderr@, exit_code),
    {
        let mut combined = chars_of(stdout);
        combined.push('\n');
        append_str(&mut combined, stderr);
        assert(combined@ =~= stdout@ + seq!['\n'] + stderr@);
        let ls = lines_v(&combined);
        let ghost lv = ls@.map_values(|l: Vec<char>| l@);
        assert(lv =~= lines(stdout@ + seq!['\n'] + stderr@));
        let fails = parse_pytest_failures(&ls);
        let ghost fv = fails@.map_values(|p: (Vec<char>, Vec<char>)| (p.0@, p.1@));
        let mut p = PyParser { suites: Vec::new(), cur: chars_of("tests"), tests: Vec::new() };
        assert(suites_view(p.suites@) =~= seq![]);
        assert(cases_view(p.tests@) =~= seq![]);
        let mut i: usize = 0;
        while i < ls.len()
            invariant
                i <= ls.len(),
                lv == ls@.map_values(|l: Vec<char>| l@),
                fv == fails@.map_values(|p: (Vec<char>, Vec<char>)| (p.0@, p.1@)),
                p.state() == py_fold(lv.take(i as int), fv),
            decreases ls.len() - i,
        {
            assert(lv.take(i + 1).drop_last() =~= lv.take(i as int));
            assert(lv.take(i + 1).last() == ls@[i as int]@);
            p.step(&ls[i], &fails);
            i += 1;
        }
        assert(lv.take(ls.len() as int) =~= lv);
        let mut suites = p.suites;
        if p.tests.len() > 0 {
            let s = TestSuite { name: string_of(&p.cur), tests: p.tests };
            let ghost before = suites@;
            suites.push(s);
            assert(suites_view(suites@) =~= suites_view(before).push(s@));
        }
        if suites.len() == 0 {
            let s = summary_suite_v(&ls, exit_code);
            suites.push(s);
            assert(suites_view(suites@) =~= seq![s@]);
        }
        let duration = match pytest_duration_v(&ls) {
            Some(d) => d,
            None => Duration::zero(),
        };
        TestRunResult { suites, duration, raw_exit_code: exit_code }
    }
}

pub(crate) fn counted_suite_v(p: usize, f: usize, sk: usize, skip_prefix: &str, exit_code: i32) -> (s: TestSuite)
    ensures
        s@ == counted_suite(p as nat, f as nat, sk as nat, skip_prefix@, exit_code),
{
    prefixed_suite_v("tests", "test_", "failed_test_", skip_prefix, p, f, sk, exit_code)
}

fn summary_suite_v(ls: &Vec<Vec<char>>, exit_code: i32) -> (s: TestSuite)
    ensures
        s@ == summary_suite(ls@.map_values(|l: Vec<char>| l@), exit_code),
{
    let c = summary_counts_v(ls);
    counted_suite_v(c.0, c.1, c.2, "skipped_test_", exit_code)
}

} // verus!
