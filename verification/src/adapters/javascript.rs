//! Jest, Vitest, Mocha and AVA output.

use vstd::prelude::*;
use crate::adapters::{
    CaseView, ErrorView, RunView, SuiteView, TestCase, TestError, TestRunResult, TestStatus,
    TestSuite, cases_view, suites_view, total_cases,
};
use crate::adapters::python::{first_piece, first_piece_v, found_error, last_piece, last_piece_v};
use crate::adapters::rust::last_message;
use crate::adapters::util::{strip_suffix, strip_suffix_v};
use crate::duration::{Duration, decimal_nanos, parse_decimal_duration, parse_secs};
use crate::num::{decimal, fmt_u128, min_nat, parse_usize, parse_usize_spec};
use crate::text::{
    append, append_str, chars_of, contains, contains_char, contains_str, find, find_str, join, join_v, lines,
    lines_v, occurs_at, rfind, slice, split_char, split_char_v, starts_with, starts_with_str,
    string_of, trim, trim_end_char, trim_end_char_v, trim_start, trim_start_v, trim_v, words,
    words_v,
};

verus! {

/// Adapter for JavaScript and TypeScript projects (Jest, Vitest, Mocha, AVA).
pub struct JavaScriptAdapter;

/// Which configuration files a JavaScript project directory holds.
pub struct JsProjectFiles {
    /// `vitest.config.ts`, `.js` or `.mts`.
    pub vitest_config: bool,
    /// `bunfig.toml`.
    pub bunfig: bool,
    /// `bun.lockb` or `bun.lock`.
    pub bun_lock: bool,
    /// `jest.config.ts`, `.js`, `.cjs` or `.mjs`.
    pub jest_config: bool,
    /// `.mocharc.yml`, `.json` or `.js`.
    pub mocha_config: bool,
    /// `ava.config.js`, `.cjs` or `.mjs`.
    pub ava_config: bool,
}

/// The test framework a JavaScript project uses, from its configuration
/// files and the text of its `package.json`: Vitest first, then Bun's own
/// runner (with a Bun config and lock file, unless only Jest is named),
/// then Jest, Mocha and AVA.
pub open spec fn js_framework_spec(f: JsProjectFiles, content: Seq<char>) -> Option<Seq<char>> {
    if f.vitest_config || contains(content, "\"vitest\""@) {
        Some("vitest"@)
    } else if f.bunfig && f.bun_lock && (contains(content, "\"bun:test\""@) || !contains(content, "\"jest\""@)) {
        Some("bun"@)
    } else if f.jest_config || contains(content, "\"jest\""@) {
        Some("jest"@)
    } else if f.mocha_config || contains(content, "\"mocha\""@) {
        Some("mocha"@)
    } else if f.ava_config || contains(content, "\"ava\""@) {
        Some("ava"@)
    } else {
        None
    }
}

pub open spec fn opt_static_view(r: Option<&'static str>) -> Option<Seq<char>> {
    match r {
        Some(s) => Some(s@),
        None => None,
    }
}

/// Choose the test framework of a JavaScript project (see
/// `js_framework_spec`).
pub fn js_framework(files: &JsProjectFiles, package_json: &str) -> (r: Option<&'static str>)
    ensures
        opt_static_view(r) == js_framework_spec(*files, package_json@),
{
    let content = chars_of(package_json);
    if files.vitest_config || contains_str(&content, "\"vitest\"") {
        Some("vitest")
    } else if files.bunfig && files.bun_lock && (contains_str(&content, "\"bun:test\"") || !contains_str(&content, "\"jest\"")) {
        Some("bun")
    } else if files.jest_config || contains_str(&content, "\"jest\"") {
        Some("jest")
    } else if files.mocha_config || contains_str(&content, "\"mocha\"") {
        Some("mocha")
    } else if files.ava_config || contains_str(&content, "\"ava\"") {
        Some("ava")
    } else {
        None
    }
}

impl JavaScriptAdapter {
    pub fn new() -> (a: Self) {
        JavaScriptAdapter
    }

    /// Name of this adapter for display.
    pub fn name(&self) -> (r: &'static str)
        ensures
            r@ == "JavaScript"@,
    {
        "JavaScript"
    }
}

impl Default for JavaScriptAdapter {
    fn default() -> (a: Self) {
        JavaScriptAdapter
    }
}

// ---------------------------------------------------------------------------
// Text helpers
// ---------------------------------------------------------------------------

pub open spec fn is_ascii_alpha(c: char) -> bool {
    ('a' <= c && c <= 'z') || ('A' <= c && c <= 'Z')
}

/// First index at or after `j` of an ASCII letter.
pub open spec fn alpha_from(s: Seq<char>, j: int) -> Option<int>
    decreases s.len() - j,
{
    if j < 0 || j >= s.len() {
        None
    } else if is_ascii_alpha(s[j]) {
        Some(j)
    } else {
        alpha_from(s, j + 1)
    }
}

pub proof fn lemma_alpha_from(s: Seq<char>, j: int)
    requires
        0 <= j,
    ensures
        alpha_from(s, j) matches Some(k) ==> j <= k < s.len(),
    decreases s.len() - j,
{
    if j < s.len() && !is_ascii_alpha(s[j]) {
        lemma_alpha_from(s, j + 1);
    }
}

/// `s` without ANSI escapes: `ESC [ ... letter` sequences go whole, any
/// other escape takes the next character with it.
pub open spec fn strip_ansi(s: Seq<char>) -> Seq<char>
    decreases s.len(),
{
    if s.len() == 0 {
        seq![]
    } else if s[0] != '\x1b' {
        seq![s[0]] + strip_ansi(s.drop_first())
    } else if s.len() == 1 {
        seq![]
    } else if s[1] != '[' {
        strip_ansi(s.skip(2))
    } else {
        match alpha_from(s, 2) {
            Some(j) => {
                proof {
                    lemma_alpha_from(s, 2);
                }
                strip_ansi(s.skip(j + 1))
            },
            None => seq![],
        }
    }
}

fn strip_ansi_v(s: &Vec<char>) -> (r: Vec<char>)
    ensures
        r@ == strip_ansi(s@),
{
    let mut out: Vec<char> = Vec::new();
    let mut i: usize = 0;
    assert(s@.skip(0) =~= s@);
    while i < s.len()
        invariant
            i <= s.len(),
            out@ + strip_ansi(s@.skip(i as int)) == strip_ansi(s@),
        decreases s.len() - i,
    {
        let ghost rest = s@.skip(i as int);
        if s[i] != '\x1b' {
            assert(rest.drop_first() =~= s@.skip(i + 1));
            out.push(s[i]);
            assert(out@ + strip_ansi(s@.skip(i + 1)) =~= strip_ansi(s@));
            i += 1;
        } else if i + 1 == s.len() {
            assert(strip_ansi(rest) =~= seq![]);
            assert(out@ + seq![] =~= out@);
            i += 1;
            assert(strip_ansi(s@.skip(i as int)) =~= seq![]);
        } else if s[i + 1] != '[' {
            assert(rest.skip(2) =~= s@.skip(i + 2));
            i += 2;
        } else {
            let mut j = i + 2;
            while j < s.len() && !(('a' <= s[j] && s[j] <= 'z') || ('A' <= s[j] && s[j] <= 'Z'))
                invariant
                    i + 2 <= j <= s.len(),
                    rest == s@.skip(i as int),
                    alpha_from(rest, 2) == alpha_from(rest, j - i),
                decreases s.len() - j,
            {
                j += 1;
            }
            if j < s.len() {
                assert(alpha_from(rest, j - i) == Some(j - i));
                assert(rest.skip(j - i + 1) =~= s@.skip(j + 1));
                i = j + 1;
            } else {
                assert(alpha_from(rest, j - i) is None);
                assert(out@ + seq![] =~= out@);
                i = s.len();
                assert(strip_ansi(s@.skip(i as int)) =~= seq![]);
            }
        }
    }
    assert(strip_ansi(s@.skip(i as int)) =~= seq![]);
    assert(out@ + seq![] =~= out@);
    out
}

/// `s` with every occurrence of `p` (found from the left) removed.
pub open spec fn remove_all(s: Seq<char>, p: Seq<char>) -> Seq<char>
    decreases s.len(),
{
    if p.len() == 0 {
        s
    } else {
        match find(s, p) {
            Some(i) => {
                proof {
                    crate::text::lemma_find_from_bounds(s, p, 0);
                }
                s.take(i) + remove_all(s.skip(i + p.len()), p)
            },
            None => s,
        }
    }
}

fn remove_all_v(s: &Vec<char>, p: &str) -> (r: Vec<char>)
    requires
        p@.len() > 0,
    ensures
        r@ == remove_all(s@, p@),
{
    let pv = chars_of(p);
    let mut out: Vec<char> = Vec::new();
    let mut cur = slice(s, 0, s.len());
    assert(cur@ =~= s@);
    loop
        invariant
            pv@ == p@,
            p@.len() > 0,
            out@ + remove_all(cur@, p@) == remove_all(s@, p@),
        decreases cur.len(),
    {
        match crate::text::find_v(&cur, &pv) {
            Some(i) => {
                assert(occurs_at(cur@, pv@, i as int));
                let n = cur.len();
                let k = pv.len();
                let head = slice(&cur, 0, i);
                let next = slice(&cur, i + k, n);
                assert(head@ =~= cur@.take(i as int));
                assert(next@ =~= cur@.skip(i + p@.len()));
                append(&mut out, &head);
                assert(out@ + remove_all(next@, p@) =~= remove_all(s@, p@));
                cur = next;
            },
            None => {
                append(&mut out, &cur);
                return out;
            },
        }
    }
}

/// `s` without as many leading copies of `p` as there are.
pub open spec fn trim_start_str(s: Seq<char>, p: Seq<char>) -> Seq<char>
    decreases s.len(),
{
    if p.len() > 0 && starts_with(s, p) {
        trim_start_str(s.skip(p.len() as int), p)
    } else {
        s
    }
}

pub(crate) fn trim_start_str_v(s: &Vec<char>, p: &str) -> (r: Vec<char>)
    requires
        p@.len() > 0,
    ensures
        r@ == trim_start_str(s@, p@),
{
    let k = chars_of(p).len();
    let mut cur = slice(s, 0, s.len());
    assert(cur@ =~= s@);
    while starts_with_str(&cur, p)
        invariant
            k == p@.len(),
            p@.len() > 0,
            trim_start_str(s@, p@) == trim_start_str(cur@, p@),
        decreases cur.len(),
    {
        let n = cur.len();
        let next = slice(&cur, k, n);
        assert(next@ =~= cur@.skip(p@.len() as int));
        cur = next;
    }
    cur
}

// ---------------------------------------------------------------------------
// Times
// ---------------------------------------------------------------------------

/// Nanoseconds of a whole number of milliseconds read from `num` (the
/// fraction dropped, negatives zero, saturating at `u64::MAX` ms; zero when
/// `num` is not a number).
pub open spec fn floor_ms_ns(num: Seq<char>) -> nat {
    match decimal_nanos(num, 1_000_000, 0, 0) {
        Some(d) => min_nat(d, (u64::MAX as nat) * 1_000_000),
        None => 0,
    }
}

/// Nanoseconds of a number of seconds read from `num`, zero when it is not
/// a number.
pub open spec fn secs_ns(num: Seq<char>) -> nat {
    match decimal_nanos(num, 1_000_000_000, 9, 1) {
        Some(d) => d,
        None => 0,
    }
}

fn floor_ms_v(num: &Vec<char>) -> (d: Duration)
    ensures
        d.ns() == floor_ms_ns(num@),
{
    match parse_decimal_duration(num, 1_000_000, 0, 0) {
        Some(d) => {
            let cap: u128 = 18_446_744_073_709_551_615_000_000u128;
            if d.as_nanos() > cap {
                Duration::from_nanos_u128(cap)
            } else {
                d
            }
        },
        None => Duration::zero(),
    }
}

fn secs_v(num: &Vec<char>) -> (d: Duration)
    ensures
        d.ns() == secs_ns(num@),
{
    match parse_secs(num) {
        Some(d) => d,
        None => Duration::zero(),
    }
}

/// Name and time of a result line such as `should add numbers (5 ms)`: the
/// time is in the last parentheses, in milliseconds when it says `ms`, else
/// in seconds.
pub open spec fn jest_test_line(line: Seq<char>) -> (Seq<char>, nat) {
    let t = trim(line);
    match (rfind(t, seq!['(']), rfind(t, seq![')'])) {
        (Some(ps), Some(pe)) => {
            let timing = t.subrange(ps + 1, pe);
            let num = trim(remove_all(remove_all(timing, "ms"@), "s"@));
            (trim(t.take(ps)), if contains(timing, "ms"@) { floor_ms_ns(num) } else { secs_ns(num) })
        },
        _ => (t, 0),
    }
}

/// The time parentheses of a result line, if any, close after they open.
pub open spec fn jest_line_ok(line: Seq<char>) -> bool {
    let t = trim(line);
    match (rfind(t, seq!['(']), rfind(t, seq![')'])) {
        (Some(ps), Some(pe)) => ps < pe,
        _ => true,
    }
}

fn jest_test_line_v(line: &Vec<char>) -> (r: (Vec<char>, Duration))
    requires
        jest_line_ok(line@),
    ensures
        (r.0@, r.1.ns()) == jest_test_line(line@),
{
    let t = trim_v(line);
    let mut open: Vec<char> = Vec::new();
    open.push('(');
    let mut close: Vec<char> = Vec::new();
    close.push(')');
    assert(open@ =~= seq!['(']);
    assert(close@ =~= seq![')']);
    match (crate::text::rfind_v(&t, &open), crate::text::rfind_v(&t, &close)) {
        (Some(ps), Some(pe)) => {
            proof {
                reveal_strlit("ms");
                reveal_strlit("s");
            }
            let timing = slice(&t, ps + 1, pe);
            let num = trim_v(&remove_all_v(&remove_all_v(&timing, "ms"), "s"));
            let head = slice(&t, 0, ps);
            assert(head@ =~= t@.take(ps as int));
            let d = if contains_str(&timing, "ms") { floor_ms_v(&num) } else { secs_v(&num) };
            (trim_v(&head), d)
        },
        _ => (t, Duration::zero()),
    }
}

/// Split a result line like `should work (5 ms)` into name and time.
pub fn parse_jest_test_line(line: &str) -> (r: (String, Duration))
    requires
        jest_line_ok(line@),
    ensures
        (r.0@, r.1.ns()) == jest_test_line(line@),
{
    let (n, d) = jest_test_line_v(&chars_of(line));
    (string_of(&n), d)
}

/// Time from a `Time:  1.234 s` line: the first number followed by a word
/// starting with `s` (seconds) or `ms`.
pub open spec fn time_from(ws: Seq<Seq<char>>, k: int) -> Option<nat>
    decreases ws.len() - k,
{
    if k < 0 || k + 1 >= ws.len() {
        None
    } else if decimal_nanos(ws[k], 1_000_000_000, 9, 1) is Some && starts_with(ws[k + 1], "s"@) {
        Some(secs_ns(ws[k]))
    } else if decimal_nanos(ws[k], 1_000_000_000, 9, 1) is Some && starts_with(ws[k + 1], "ms"@) {
        Some(floor_ms_ns(ws[k]))
    } else {
        time_from(ws, k + 1)
    }
}

/// Time from a Vitest `Duration  30.18s (...)` line.
pub open spec fn vitest_duration(t: Seq<char>) -> Option<nat> {
    if starts_with(t, "Duration"@) && !contains(t, seq![':']) && words(t.skip(8)).len() > 0 {
        let d = words(t.skip(8))[0];
        match strip_suffix(d, "s"@) {
            Some(x) if decimal_nanos(x, 1_000_000_000, 9, 1) is Some => Some(secs_ns(x)),
            _ => match strip_suffix(d, "ms"@) {
                Some(x) if decimal_nanos(x, 1_000_000_000, 9, 1) is Some => Some(floor_ms_ns(x)),
                _ => None,
            },
        }
    } else {
        None
    }
}

/// The time of a (trimmed) line, if it gives one.
pub open spec fn line_time(t: Seq<char>) -> Option<nat> {
    if contains(t, "Time:"@) && time_from(words(t), 0) is Some {
        time_from(words(t), 0)
    } else {
        vitest_duration(t)
    }
}

/// The first time given by a line.
pub open spec fn jest_duration(ls: Seq<Seq<char>>) -> Option<nat>
    decreases ls.len(),
{
    if ls.len() == 0 {
        None
    } else {
        match line_time(trim(ls[0])) {
            Some(d) => Some(d),
            None => jest_duration(ls.drop_first()),
        }
    }
}

fn is_number_v(w: &Vec<char>) -> (b: bool)
    ensures
        b == (decimal_nanos(w@, 1_000_000_000, 9, 1) is Some),
{
    parse_secs(w).is_some()
}

fn line_time_v(t: &Vec<char>) -> (r: Option<Duration>)
    ensures
        match r {
            Some(d) => line_time(t@) == Some(d.ns()),
            None => line_time(t@) is None,
        },
{
    if contains_str(t, "Time:") {
        let ws = words_v(t);
        let ghost wv = ws@.map_values(|x: Vec<char>| x@);
        let mut k: usize = 0;
        assert(wv == words(t@));
        while ws.len() > 0 && k < ws.len() - 1
            invariant
                k <= ws.len(),
                wv == ws@.map_values(|x: Vec<char>| x@),
                wv == words(t@),
                contains(t@, "Time:"@),
                time_from(wv, 0) == time_from(wv, k as int),
            decreases ws.len() - k,
        {
            assert(ws@[k as int]@ == wv[k as int]);
            assert(ws@[k + 1]@ == wv[k + 1]);
            if is_number_v(&ws[k]) {
                if starts_with_str(&ws[k + 1], "s") {
                    assert(time_from(wv, k as int) == Some(secs_ns(wv[k as int])));
                    return Some(secs_v(&ws[k]));
                } else if starts_with_str(&ws[k + 1], "ms") {
                    assert(time_from(wv, k as int) == Some(floor_ms_ns(wv[k as int])));
                    return Some(floor_ms_v(&ws[k]));
                }
            }
            k += 1;
        }
    }
    if starts_with_str(t, "Duration") && !contains_char(t, ':') {
        proof {
            reveal_strlit("Duration");
        }
        let n = t.len();
        let rest = slice(t, 8, n);
        assert(rest@ =~= t@.skip(8));
        let ws = words_v(&rest);
        let ghost wv = ws@.map_values(|x: Vec<char>| x@);
        if ws.len() > 0 {
            assert(ws@[0]@ == wv[0]);
            if let Some(x) = strip_suffix_v(&ws[0], "s") {
                if is_number_v(&x) {
                    return Some(secs_v(&x));
                }
            }
            if let Some(x) = strip_suffix_v(&ws[0], "ms") {
                if is_number_v(&x) {
                    return Some(floor_ms_v(&x));
                }
            }
        }
    }
    None
}

fn jest_duration_v(ls: &Vec<Vec<char>>) -> (r: Option<Duration>)
    ensures
        match r {
            Some(d) => jest_duration(ls@.map_values(|l: Vec<char>| l@)) == Some(d.ns()),
            None => jest_duration(ls@.map_values(|l: Vec<char>| l@)) is None,
        },
{
    let ghost lv = ls@.map_values(|l: Vec<char>| l@);
    let mut i: usize = 0;
    assert(lv.skip(0) =~= lv);
    while i < ls.len()
        invariant
            i <= ls.len(),
            lv == ls@.map_values(|l: Vec<char>| l@),
            jest_duration(lv) == jest_duration(lv.skip(i as int)),
        decreases ls.len() - i,
    {
        assert(lv.skip(i as int)[0] == ls@[i as int]@);
        assert(lv.skip(i as int).drop_first() =~= lv.skip(i + 1));
        if let Some(d) = line_time_v(&trim_v(&ls[i])) {
            return Some(d);
        }
        i += 1;
    }
    None
}

/// Parse the run time from `Time:  1.234 s` (Jest) or `Duration  30.18s`
/// (Vitest).
pub fn parse_jest_duration(output: &str) -> (r: Option<Duration>)
    ensures
        match r {
            Some(d) => jest_duration(lines(output@)) == Some(d.ns()),
            None => jest_duration(lines(output@)) is None,
        },
{
    let ls = crate::text::lines_of(output);
    assert(ls@.map_values(|l: Vec<char>| l@) =~= lines(output@));
    jest_duration_v(&ls)
}

// ---------------------------------------------------------------------------
// Failure blocks
// ---------------------------------------------------------------------------

/// A line that ends a `●` failure block.
pub open spec fn is_js_block_end(l: Seq<char>) -> bool {
    starts_with(l, seq!['●']) || starts_with(l, "Test Suites:"@) || starts_with(l, "Tests:"@)
}

pub open spec fn js_block_end(ls: Seq<Seq<char>>, k: int) -> int
    decreases ls.len() - k,
{
    if k < 0 {
        0
    } else if k >= ls.len() {
        k
    } else if is_js_block_end(trim(ls[k])) {
        k
    } else {
        js_block_end(ls, k + 1)
    }
}

pub proof fn lemma_js_block_end(ls: Seq<Seq<char>>, k: int)
    requires
        0 <= k,
    ensures
        k <= js_block_end(ls, k),
        k <= ls.len() ==> js_block_end(ls, k) <= ls.len(),
    decreases ls.len() - k,
{
    if k < ls.len() && !is_js_block_end(trim(ls[k])) {
        lemma_js_block_end(ls, k + 1);
    }
}

/// A line of a failure block worth keeping: not blank, not a code frame
/// (`|`), not a stack frame (`at `).
pub open spec fn is_js_error_line(l: Seq<char>) -> bool {
    l.len() > 0 && !starts_with(l, "|"@) && !starts_with(l, "at "@)
}

pub open spec fn js_err_lines(ls: Seq<Seq<char>>, k: int, e: int) -> Seq<Seq<char>>
    decreases e - k,
{
    if k >= e || k < 0 || e > ls.len() {
        seq![]
    } else {
        js_err_lines(ls, k, e - 1) + if is_js_error_line(trim(ls[e - 1])) { seq![trim(ls[e - 1])] } else { seq![] }
    }
}

/// The first four kept lines joined by `" | "`.
pub open spec fn js_message(errs: Seq<Seq<char>>) -> Seq<char> {
    join(if errs.len() > 4 { errs.take(4) } else { errs }, " | "@)
}

/// `(test name, message)` pairs of the `●` failure blocks from line `i` on;
/// a block titled `describe › test` is also recorded under `test`.
pub open spec fn js_failures_from(ls: Seq<Seq<char>>, i: int) -> Seq<(Seq<char>, Seq<char>)>
    decreases ls.len() - i,
{
    if i < 0 || i >= ls.len() {
        seq![]
    } else {
        let t = trim(ls[i]);
        if starts_with(t, seq!['●']) && trim(t.skip(1)).len() > 0 {
            let name = trim(t.skip(1));
            let e = js_block_end(ls, i + 1);
            let errs = js_err_lines(ls, i + 1, e);
            proof {
                lemma_js_block_end(ls, i + 1);
            }
            (if errs.len() > 0 {
                let short = last_piece(name, " › "@);
                seq![(name, js_message(errs))] + if short != name { seq![(short, js_message(errs))] } else { seq![] }
            } else {
                seq![]
            }) + js_failures_from(ls, e)
        } else {
            js_failures_from(ls, i + 1)
        }
    }
}

fn js_failures_v(ls: &Vec<Vec<char>>) -> (r: Vec<(Vec<char>, Vec<char>)>)
    ensures
        r@.map_values(|p: (Vec<char>, Vec<char>)| (p.0@, p.1@)) == js_failures_from(ls@.map_values(|l: Vec<char>| l@), 0),
{
    let ghost lv = ls@.map_values(|l: Vec<char>| l@);
    let mut out: Vec<(Vec<char>, Vec<char>)> = Vec::new();
    let mut i: usize = 0;
    assert(out@.map_values(|p: (Vec<char>, Vec<char>)| (p.0@, p.1@)) + js_failures_from(lv, 0) =~= js_failures_from(lv, 0));
    while i < ls.len()
        invariant
            i <= ls.len(),
            lv == ls@.map_values(|l: Vec<char>| l@),
            out@.map_values(|p: (Vec<char>, Vec<char>)| (p.0@, p.1@)) + js_failures_from(lv, i as int) == js_failures_from(lv, 0),
        decreases ls.len() - i,
    {
        let t = trim_v(&ls[i]);
        assert(t@ == trim(lv[i as int]));
        let bullet = t.len() > 0 && t[0] == '●';
        proof {
            if bullet {
                assert(t@.take(1) =~= seq!['●']);
            } else if starts_with(t@, seq!['●']) {
                assert(t@.take(1)[0] == t@[0]);
                assert(seq!['●'][0] == '●');
            }
        }
        assert(bullet == starts_with(t@, seq!['●']));
        if bullet {
            let n = t.len();
            let tail = slice(&t, 1, n);
            assert(tail@ =~= t@.skip(1));
            let name = trim_v(&tail);
            if name.len() > 0 {
                let mut errs: Vec<Vec<char>> = Vec::new();
                let mut k = i + 1;
                proof {
                    lemma_js_block_end(lv, i + 1);
                }
                while k < ls.len() && !(starts_with_str(&trim_v(&ls[k]), "●") || starts_with_str(&trim_v(&ls[k]), "Test Suites:")
                    || starts_with_str(&trim_v(&ls[k]), "Tests:"))
                    invariant
                        i + 1 <= k <= ls.len(),
                        lv == ls@.map_values(|l: Vec<char>| l@),
                        js_block_end(lv, (i + 1) as int) == js_block_end(lv, k as int),
                        errs@.map_values(|p: Vec<char>| p@) == js_err_lines(lv, (i + 1) as int, k as int),
                    decreases ls.len() - k,
                {
                    proof {
                        reveal_strlit("●");
                        assert("●"@ =~= seq!['●']);
                    }
                    let l = trim_v(&ls[k]);
                    assert(l@ == trim(lv[k as int]));
                    let ghost before = errs@.map_values(|p: Vec<char>| p@);
                    if l.len() > 0 && !starts_with_str(&l, "|") && !starts_with_str(&l, "at ") {
                        errs.push(l);
                        assert(errs@.map_values(|p: Vec<char>| p@) =~= before + seq![trim(lv[k as int])]);
                    } else {
                        assert(before + seq![] =~= before);
                    }
                    k += 1;
                }
                proof {
                    reveal_strlit("●");
                    assert("●"@ =~= seq!['●']);
                    if k < ls.len() {
                        assert(is_js_block_end(trim(lv[k as int])));
                    }
                    assert(js_block_end(lv, k as int) == k);
                }
                let ghost before = out@.map_values(|p: (Vec<char>, Vec<char>)| (p.0@, p.1@));
                if errs.len() > 0 {
                    let sep = chars_of(" | ");
                    let msg = if errs.len() > 4 {
                        let mut first: Vec<Vec<char>> = Vec::new();
                        let mut j: usize = 0;
                        while j < 4
                            invariant
                                j <= 4,
                                errs.len() > 4,
                                first@.map_values(|p: Vec<char>| p@) == errs@.map_values(|p: Vec<char>| p@).take(j as int),
                            decreases 4 - j,
                        {
                            let c = slice(&errs[j], 0, errs[j].len());
                            assert(c@ =~= errs@[j as int]@);
                            let ghost before = first@.map_values(|p: Vec<char>| p@);
                            first.push(c);
                            assert(first@.map_values(|p: Vec<char>| p@) =~= before.push(c@));
                            assert(first@.map_values(|p: Vec<char>| p@) =~= errs@.map_values(|p: Vec<char>| p@).take(j + 1));
                            j += 1;
                        }
                        join_v(&first, &sep)
                    } else {
                        join_v(&errs, &sep)
                    };
                    let arrow = chars_of(" › ");
                    proof {
                        reveal_strlit(" › ");
                    }
                    let short = last_piece_v(&name, &arrow);
                    let ghost nm = name@;
                    let ghost mm = msg@;
                    let ghost sm = short@;
                    let same = crate::text::eq(&short, &name);
                    let m2 = slice(&msg, 0, msg.len());
                    assert(m2@ =~= msg@);
                    out.push((name, msg));
                    if !same {
                        out.push((short, m2));
                        assert(out@.map_values(|p: (Vec<char>, Vec<char>)| (p.0@, p.1@)) =~= before + (seq![(nm, mm)] + seq![(sm, mm)]));
                    } else {
                        assert(out@.map_values(|p: (Vec<char>, Vec<char>)| (p.0@, p.1@)) =~= before + (seq![(nm, mm)] + seq![]));
                    }
                } else {
                    assert(before + seq![] =~= before);
                }
                i = k;
                continue;
            }
        }
        i += 1;
    }
    assert(out@.map_values(|p: (Vec<char>, Vec<char>)| (p.0@, p.1@)) + seq![] =~= out@.map_values(|p: (Vec<char>, Vec<char>)| (p.0@, p.1@)));
    out
}

// ---------------------------------------------------------------------------
// Summary lines
// ---------------------------------------------------------------------------

/// `test_` for passing cases, `failed_` for the others.
pub open spec fn case_prefix(st: TestStatus) -> Seq<char> {
    if st == TestStatus::Passed { "test_"@ } else { "failed_"@ }
}

/// `n` cases of one status numbered `base + 1`, `base + 1 + step`, ...
pub open spec fn named_cases(st: TestStatus, n: nat, base: nat, step: nat) -> Seq<CaseView> {
    Seq::new(n, |k: int| CaseView {
        name: case_prefix(st) + decimal((base + step * k + 1) as nat),
        status: st,
        duration: 0,
        error: None,
    })
}

/// The status a summary word names.
pub open spec fn part_status(p: Seq<char>) -> Option<TestStatus> {
    if contains(p, "passed"@) {
        Some(TestStatus::Passed)
    } else if contains(p, "failed"@) {
        Some(TestStatus::Failed)
    } else if contains(p, "skipped"@) || contains(p, "todo"@) {
        Some(TestStatus::Skipped)
    } else {
        None
    }
}

proof fn lemma_count_concat(a: Seq<CaseView>, b: Seq<CaseView>, st: TestStatus)
    ensures
        crate::adapters::count_status(a + b, st) == crate::adapters::count_status(a, st) + crate::adapters::count_status(b, st),
    decreases b.len(),
{
    if b.len() == 0 {
        assert(a + b =~= a);
    } else {
        lemma_count_concat(a, b.drop_last(), st);
        assert((a + b).drop_last() =~= a + b.drop_last());
        assert((a + b).last() == b.last());
    }
}

proof fn lemma_count_named(st: TestStatus, n: nat, base: nat, step: nat, q: TestStatus)
    ensures
        crate::adapters::count_status(named_cases(st, n, base, step), q) == if st == q { n } else { 0 },
    decreases n,
{
    if n > 0 {
        lemma_count_named(st, (n - 1) as nat, base, step, q);
        assert(named_cases(st, n, base, step).drop_last() =~= named_cases(st, (n - 1) as nat, base, step));
    } else {
        assert(named_cases(st, n, base, step) =~= Seq::<CaseView>::empty());
    }
}

/// A Jest summary part `N <word>` adds `N` cases of the status its word
/// names and none of any other: `passed` names passed cases; `failed`
/// failed ones; `skipped` or `todo` skipped ones.
pub proof fn law_jest_part_counts(acc: Seq<CaseView>, part: Seq<char>, st: TestStatus)
    requires
        words(trim(part)).len() > 0,
        parse_usize_spec(words(trim(part))[0]) is Some,
    ensures
        ({
            let p = trim(part);
            let n = parse_usize_spec(words(p)[0])->0 as nat;
            let named = match st {
                TestStatus::Passed => contains(p, "passed"@),
                TestStatus::Failed => !contains(p, "passed"@) && contains(p, "failed"@),
                TestStatus::Skipped => !contains(p, "passed"@) && !contains(p, "failed"@)
                    && (contains(p, "skipped"@) || contains(p, "todo"@)),
            };
            crate::adapters::count_status(jest_part(acc, part), st)
                == crate::adapters::count_status(acc, st) + if named { n } else { 0 }
        }),
{
    let p = trim(part);
    let n = parse_usize_spec(words(p)[0])->0 as nat;
    if part_status(p) is Some {
        let k = part_status(p)->0;
        lemma_count_concat(acc, named_cases(k, n, 0, 1), st);
        lemma_count_named(k, n, 0, 1, st);
    }
}

/// Cases after one Jest part such as `"2 passed"`.
pub open spec fn jest_part(acc: Seq<CaseView>, part: Seq<char>) -> Seq<CaseView> {
    let p = trim(part);
    let w = words(p);
    if w.len() > 0 && parse_usize_spec(w[0]) is Some && part_status(p) is Some {
        acc + named_cases(part_status(p)->0, parse_usize_spec(w[0])->0 as nat, 0, 1)
    } else {
        acc
    }
}

pub open spec fn jest_parts(acc: Seq<CaseView>, ps: Seq<Seq<char>>) -> Seq<CaseView>
    decreases ps.len(),
{
    if ps.len() == 0 {
        acc
    } else {
        jest_part(jest_parts(acc, ps.drop_last()), ps.last())
    }
}

/// Cases after the `count status` word pairs of a Vitest segment from the
/// `k`-th word on; the numbering follows the cases made so far.
pub open spec fn vitest_pairs(acc: Seq<CaseView>, w: Seq<Seq<char>>, k: int) -> Seq<CaseView>
    decreases w.len() - k,
{
    if k < 0 || k + 1 >= w.len() {
        acc
    } else {
        let next = if parse_usize_spec(w[k]) is Some && part_status(trim_end_char(w[k + 1], ')')) is Some {
            acc + named_cases(part_status(trim_end_char(w[k + 1], ')'))->0, parse_usize_spec(w[k])->0 as nat, acc.len(), 2)
        } else {
            acc
        };
        vitest_pairs(next, w, k + 1)
    }
}

pub open spec fn vitest_segs(acc: Seq<CaseView>, segs: Seq<Seq<char>>) -> Seq<CaseView>
    decreases segs.len(),
{
    if segs.len() == 0 {
        acc
    } else {
        vitest_pairs(vitest_segs(acc, segs.drop_last()), words(trim(segs.last())), 0)
    }
}

/// `Tests:  5 passed, 2 failed, 7 total` (Jest).
pub open spec fn is_jest_summary(t: Seq<char>) -> bool {
    contains(t, "Tests:"@) && contains(t, "total"@)
}

/// `Tests  10 failed | 3565 passed (3575)` (Vitest).
pub open spec fn is_vitest_summary(t: Seq<char>) -> bool {
    starts_with(t, "Tests"@) && !contains(t, seq![':']) && (contains(t, "passed"@) || contains(t, "failed"@))
}

/// `30 tests failed` (AVA).
pub open spec fn is_ava_summary(t: Seq<char>) -> bool {
    contains(t, "tests passed"@) || contains(t, "tests failed"@) || contains(t, "test passed"@) || contains(t, "test failed"@)
}

/// Cases after one (trimmed) summary line.
pub open spec fn summary_step(acc: Seq<CaseView>, t: Seq<char>) -> Seq<CaseView> {
    if is_jest_summary(t) {
        jest_parts(acc, split_char(first_piece(t.skip(find(t, "Tests:"@)->0 + 6), "Tests:"@), ','))
    } else if is_vitest_summary(t) {
        vitest_segs(acc, split_char(trim(trim_start_str(t, "Tests"@)), '|'))
    } else if is_ava_summary(t) && words(t).len() > 0 && parse_usize_spec(words(t)[0]) is Some {
        acc + named_cases(
            if contains(t, "passed"@) { TestStatus::Passed } else { TestStatus::Failed },
            parse_usize_spec(words(t)[0])->0 as nat,
            acc.len(),
            2,
        )
    } else {
        acc
    }
}

pub open spec fn js_summary_cases(ls: Seq<Seq<char>>) -> Seq<CaseView>
    decreases ls.len(),
{
    if ls.len() == 0 {
        seq![]
    } else {
        summary_step(js_summary_cases(ls.drop_last()), trim(ls.last()))
    }
}

/// The suite the summary lines describe, or one `test_suite` case that
/// passes exactly when the exit code is 0.
pub open spec fn js_summary_suite(ls: Seq<Seq<char>>, exit_code: i32) -> SuiteView {
    let cases = js_summary_cases(ls);
    SuiteView {
        name: "tests"@,
        tests: if cases.len() == 0 {
            seq![CaseView {
                name: "test_suite"@,
                status: if exit_code == 0 { TestStatus::Passed } else { TestStatus::Failed },
                duration: 0,
                error: None,
            }]
        } else {
            cases
        },
    }
}

fn push_named(tests: &mut Vec<TestCase>, st: TestStatus, n: usize, base: usize, step: usize)
    requires
        step <= 2,
    ensures
        cases_view(final(tests)@) == cases_view(old(tests)@) + named_cases(st, n as nat, base as nat, step as nat),
{
    let ghost start = cases_view(tests@);
    let ghost goal = named_cases(st, n as nat, base as nat, step as nat);
    let mut i: usize = 0;
    assert(start + goal.take(0) =~= start);
    while i < n
        invariant
            i <= n,
            step <= 2,
            goal == named_cases(st, n as nat, base as nat, step as nat),
            cases_view(tests@) == start + goal.take(i as int),
        decreases n - i,
    {
        assert((step as u128) * (i as u128) <= 2 * (usize::MAX as u128)) by (nonlinear_arith)
            requires
                step <= 2,
                i <= usize::MAX,
        ;
        let idx: u128 = base as u128 + (step as u128) * (i as u128) + 1;
        let mut name = if st == TestStatus::Passed { chars_of("test_") } else { chars_of("failed_") };
        append(&mut name, &fmt_u128(idx));
        let c = TestCase { name: string_of(&name), status: st, duration: Duration::zero(), error: None };
        assert(c@ == goal[i as int]);
        let ghost before = tests@;
        tests.push(c);
        assert(cases_view(tests@) =~= cases_view(before).push(c@));
        assert(goal.take(i + 1) =~= goal.take(i as int).push(goal[i as int]));
        i += 1;
    }
    assert(goal.take(n as int) =~= goal);
}

fn part_status_v(p: &Vec<char>) -> (r: Option<TestStatus>)
    ensures
        r == part_status(p@),
{
    if contains_str(p, "passed") {
        Some(TestStatus::Passed)
    } else if contains_str(p, "failed") {
        Some(TestStatus::Failed)
    } else if contains_str(p, "skipped") || contains_str(p, "todo") {
        Some(TestStatus::Skipped)
    } else {
        None
    }
}

fn summary_step_v(tests: &mut Vec<TestCase>, t: &Vec<char>)
    ensures
        cases_view(final(tests)@) == summary_step(cases_view(old(tests)@), t@),
{
    if contains_str(t, "Tests:") && contains_str(t, "total") {
        let at = match find_str(t, "Tests:") {
            Some(a) => a,
            None => 0,
        };
        proof {
            reveal_strlit("Tests:");
        }
        let n = t.len();
        let rest = slice(t, at + 6, n);
        assert(rest@ =~= t@.skip(find(t@, "Tests:"@)->0 + 6));
        let after = first_piece_v(&rest, &chars_of("Tests:"));
        let parts = split_char_v(&after, ',');
        let ghost pv = parts@.map_values(|x: Vec<char>| x@);
        let ghost start = cases_view(tests@);
        let mut j: usize = 0;
        while j < parts.len()
            invariant
                j <= parts.len(),
                pv == parts@.map_values(|x: Vec<char>| x@),
                cases_view(tests@) == jest_parts(start, pv.take(j as int)),
            decreases parts.len() - j,
        {
            assert(pv.take(j + 1).drop_last() =~= pv.take(j as int));
            assert(pv.take(j + 1).last() == parts@[j as int]@);
            let p = trim_v(&parts[j]);
            let w = words_v(&p);
            let ghost wv = w@.map_values(|x: Vec<char>| x@);
            if w.len() > 0 {
                assert(w@[0]@ == wv[0]);
                match (parse_usize(&w[0]), part_status_v(&p)) {
                    (Some(cnt), Some(st)) => {
                        push_named(tests, st, cnt, 0, 1);
                    },
                    _ => {},
                }
            }
            j += 1;
        }
        assert(pv.take(parts.len() as int) =~= pv);
    } else if starts_with_str(t, "Tests") && !contains_char(t, ':') && (contains_str(t, "passed") || contains_str(t, "failed")) {
        proof {
            reveal_strlit("Tests");
        }
        let after = trim_v(&trim_start_str_v(t, "Tests"));
        let segs = split_char_v(&after, '|');
        let ghost sv = segs@.map_values(|x: Vec<char>| x@);
        let ghost start = cases_view(tests@);
        let mut j: usize = 0;
        while j < segs.len()
            invariant
                j <= segs.len(),
                sv == segs@.map_values(|x: Vec<char>| x@),
                cases_view(tests@) == vitest_segs(start, sv.take(j as int)),
            decreases segs.len() - j,
        {
            assert(sv.take(j + 1).drop_last() =~= sv.take(j as int));
            assert(sv.take(j + 1).last() == segs@[j as int]@);
            let w = words_v(&trim_v(&segs[j]));
            let ghost wv = w@.map_values(|x: Vec<char>| x@);
            let ghost seg_start = cases_view(tests@);
            let mut k: usize = 0;
            while w.len() > 0 && k < w.len() - 1
                invariant
                    k <= w.len(),
                    wv == w@.map_values(|x: Vec<char>| x@),
                    vitest_pairs(seg_start, wv, 0) == vitest_pairs(cases_view(tests@), wv, k as int),
                decreases w.len() - k,
            {
                assert(w@[k as int]@ == wv[k as int]);
                assert(w@[k + 1]@ == wv[k + 1]);
                let sw = trim_end_char_v(&w[k + 1], ')');
                match (parse_usize(&w[k]), part_status_v(&sw)) {
                    (Some(cnt), Some(st)) => {
                        let base = tests.len();
                        push_named(tests, st, cnt, base, 2);
                    },
                    _ => {},
                }
                k += 1;
            }
            proof {
                if w.len() > 0 {
                    assert(vitest_pairs(cases_view(tests@), wv, k as int) == cases_view(tests@));
                } else {
                    assert(vitest_pairs(seg_start, wv, 0) == seg_start);
                }
            }
            j += 1;
        }
        assert(sv.take(segs.len() as int) =~= sv);
    } else if contains_str(t, "tests passed") || contains_str(t, "tests failed") || contains_str(t, "test passed")
        || contains_str(t, "test failed") {
        let w = words_v(t);
        let ghost wv = w@.map_values(|x: Vec<char>| x@);
        if w.len() > 0 {
            assert(w@[0]@ == wv[0]);
            if let Some(cnt) = parse_usize(&w[0]) {
                let st = if contains_str(t, "passed") { TestStatus::Passed } else { TestStatus::Failed };
                let base = tests.len();
                push_named(tests, st, cnt, base, 2);
            }
        }
    }
}

fn js_summary_suite_v(ls: &Vec<Vec<char>>, exit_code: i32) -> (s: TestSuite)
    ensures
        s@ == js_summary_suite(ls@.map_values(|l: Vec<char>| l@), exit_code),
{
    let ghost lv = ls@.map_values(|l: Vec<char>| l@);
    let mut tests: Vec<TestCase> = Vec::new();
    let mut i: usize = 0;
    assert(cases_view(tests@) =~= seq![]);
    while i < ls.len()
        invariant
            i <= ls.len(),
            lv == ls@.map_values(|l: Vec<char>| l@),
            cases_view(tests@) == js_summary_cases(lv.take(i as int)),
        decreases ls.len() - i,
    {
        assert(lv.take(i + 1).drop_last() =~= lv.take(i as int));
        assert(lv.take(i + 1).last() == ls@[i as int]@);
        summary_step_v(&mut tests, &trim_v(&ls[i]));
        i += 1;
    }
    assert(lv.take(ls.len() as int) =~= lv);
    if tests.len() == 0 {
        let status = if exit_code == 0 { TestStatus::Passed } else { TestStatus::Failed };
        tests.push(TestCase { name: string_of(&chars_of("test_suite")), status, duration: Duration::zero(), error: None });
        assert(cases_view(tests@) =~= js_summary_suite(lv, exit_code).tests);
    }
    TestSuite { name: string_of(&chars_of("tests")), tests }
}

// ---------------------------------------------------------------------------
// The run
// ---------------------------------------------------------------------------

/// The status a result mark stands for: `✓ √ ✔` pass, `○` skip,
/// `✕ × ✘` fail.
pub open spec fn mark_status(c: char) -> Option<TestStatus> {
    if c == '✓' || c == '√' || c == '✔' {
        Some(TestStatus::Passed)
    } else if c == '○' {
        Some(TestStatus::Skipped)
    } else if c == '✕' || c == '×' || c == '✘' {
        Some(TestStatus::Failed)
    } else {
        None
    }
}

pub open spec fn strip_prefix(s: Seq<char>, p: Seq<char>) -> Option<Seq<char>> {
    if starts_with(s, p) { Some(s.skip(p.len() as int)) } else { None }
}

/// What follows the mark of a result line, without an AVA `[fail]: ` tag.
pub open spec fn mark_rest(t: Seq<char>) -> Seq<char> {
    let r = trim_start(t.skip(1));
    match strip_prefix(r, "[fail]: "@) {
        Some(x) => x,
        None => r,
    }
}

/// A Vitest/AVA line with a mark between spaces.
pub open spec fn vitest_marked(t: Seq<char>) -> bool {
    contains(t, " ✓ "@) || contains(t, " ✕ "@) || contains(t, " × "@) || contains(t, " ✔ "@) || contains(t, " ✘ "@)
}

/// The name of such a line: the line without its ` mark ` pieces and
/// `[fail]: ` tag.
pub open spec fn vitest_name(t: Seq<char>) -> Seq<char> {
    let n = trim(remove_all(remove_all(remove_all(remove_all(remove_all(t, " ✓ "@), " ✕ "@), " × "@), " ✔ "@), " ✘ "@));
    match strip_prefix(n, "[fail]: "@) {
        Some(x) => x,
        None => n,
    }
}

pub struct JsState {
    pub suites: Seq<SuiteView>,
    pub cur: Seq<char>,
    pub tests: Seq<CaseView>,
}

/// Effect of one output line: `PASS file`/`FAIL file` starts a suite (the
/// cases so far closing the previous one when it has a name); a mark line,
/// or a Vitest line with a mark, adds a case, failed ones taking the message
/// recorded for their name.
pub open spec fn js_step(st: JsState, line: Seq<char>, fails: Seq<(Seq<char>, Seq<char>)>) -> JsState {
    let t = trim(line);
    if starts_with(t, "PASS "@) || starts_with(t, "FAIL "@) {
        let close = st.cur.len() > 0 && st.tests.len() > 0;
        JsState {
            suites: if close { st.suites.push(SuiteView { name: st.cur, tests: st.tests }) } else { st.suites },
            cur: if words(t).len() > 1 { words(t)[1] } else { "tests"@ },
            tests: if close { seq![] } else { st.tests },
        }
    } else if t.len() > 0 && mark_status(t[0]) is Some {
        let status = mark_status(t[0])->0;
        let (name, dur) = jest_test_line(mark_rest(t));
        let err = if status == TestStatus::Failed { found_error(last_message(fails, name)) } else { None };
        JsState { tests: st.tests.push(CaseView { name: name, status: status, duration: dur, error: err }), ..st }
    } else if vitest_marked(t) && !starts_with(t, "Test"@) {
        let status = if contains(t, " ✓ "@) || contains(t, " ✔ "@) { TestStatus::Passed } else { TestStatus::Failed };
        let name = vitest_name(t);
        let err = if status == TestStatus::Failed { found_error(last_message(fails, name)) } else { None };
        JsState { tests: st.tests.push(CaseView { name: name, status: status, duration: 0, error: err }), ..st }
    } else {
        st
    }
}

pub open spec fn js_fold(ls: Seq<Seq<char>>, fails: Seq<(Seq<char>, Seq<char>)>) -> JsState
    decreases ls.len(),
{
    if ls.len() == 0 {
        JsState { suites: seq![], cur: seq![], tests: seq![] }
    } else {
        js_step(js_fold(ls.drop_last(), fails), ls.last(), fails)
    }
}

/// The lines of JS output after ANSI escapes are removed.
pub open spec fn js_lines(stdout: Seq<char>, stderr: Seq<char>) -> Seq<Seq<char>> {
    lines(strip_ansi(stdout + seq!['\n'] + stderr))
}

/// A (trimmed) line that can be read: not a lone `●`, and a mark line has
/// text after its mark whose time parentheses close after they open.
pub open spec fn js_line_ok(t: Seq<char>) -> bool {
    &&& t != seq!['●']
    &&& (t.len() > 0 && mark_status(t[0]) is Some) ==> t.len() >= 2 && jest_line_ok(mark_rest(t))
}

pub open spec fn js_readable(stdout: Seq<char>, stderr: Seq<char>) -> bool {
    forall|k: int| 0 <= k < js_lines(stdout, stderr).len() ==> js_line_ok(trim(#[trigger] js_lines(stdout, stderr)[k]))
}

/// The run JS test output describes (stdout and stderr joined by a newline):
/// the suites of the result lines, or the summary suite when there are none
/// or it counts more (and more than one) cases.
pub open spec fn js_run(stdout: Seq<char>, stderr: Seq<char>, exit_code: i32) -> RunView {
    let ls = js_lines(stdout, stderr);
    let st = js_fold(ls, js_failures_from(ls, 0));
    let suites = if st.tests.len() > 0 {
        st.suites.push(SuiteView { name: if st.cur.len() == 0 { "tests"@ } else { st.cur }, tests: st.tests })
    } else {
        st.suites
    };
    let summary = js_summary_suite(ls, exit_code);
    RunView {
        suites: if suites.len() == 0 || (summary.tests.len() > total_cases(suites) && summary.tests.len() > 1) {
            seq![summary]
        } else {
            suites
        },
        duration: match jest_duration(ls) {
            Some(d) => d,
            None => 0,
        },
        raw_exit_code: exit_code,
    }
}

fn mark_status_v(c: char) -> (r: Option<TestStatus>)
    ensures
        r == mark_status(c),
{
    if c == '✓' || c == '√' || c == '✔' {
        Some(TestStatus::Passed)
    } else if c == '○' {
        Some(TestStatus::Skipped)
    } else if c == '✕' || c == '×' || c == '✘' {
        Some(TestStatus::Failed)
    } else {
        None
    }
}

fn strip_fail_tag(r: Vec<char>) -> (x: Vec<char>)
    ensures
        x@ == match strip_prefix(r@, "[fail]: "@) {
            Some(y) => y,
            None => r@,
        },
{
    if starts_with_str(&r, "[fail]: ") {
        let k = chars_of("[fail]: ").len();
        let n = r.len();
        let y = slice(&r, k, n);
        assert(y@ =~= r@.skip("[fail]: "@.len() as int));
        y
    } else {
        r
    }
}

struct JsParser {
    suites: Vec<TestSuite>,
    cur: Vec<char>,
    tests: Vec<TestCase>,
}

impl JsParser {
    spec fn state(&self) -> JsState {
        JsState { suites: suites_view(self.suites@), cur: self.cur@, tests: cases_view(self.tests@) }
    }

    fn push_case(&mut self, name: Vec<char>, status: TestStatus, duration: Duration, fails: &Vec<(Vec<char>, Vec<char>)>)
        ensures
            final(self).state() == (JsState {
                tests: old(self).state().tests.push(CaseView {
                    name: name@,
                    status: status,
                    duration: duration.ns(),
                    error: if status == TestStatus::Failed {
                        found_error(last_message(fails@.map_values(|p: (Vec<char>, Vec<char>)| (p.0@, p.1@)), name@))
                    } else {
                        None
                    },
                }),
                ..old(self).state()
            }),
    {
        let error = if status == TestStatus::Failed {
            match crate::adapters::rust::last_message_pub(fails, &name) {
                Some(m) => Some(TestError { message: string_of(&m), location: None }),
                None => None,
            }
        } else {
            None
        };
        let c = TestCase { name: string_of(&name), status, duration, error };
        let ghost before = self.tests@;
        self.tests.push(c);
        assert(cases_view(self.tests@) =~= cases_view(before).push(c@));
    }

    fn step(&mut self, line: &Vec<char>, fails: &Vec<(Vec<char>, Vec<char>)>)
        requires
            js_line_ok(trim(line@)),
        ensures
            final(self).state() == js_step(old(self).state(), line@, fails@.map_values(|p: (Vec<char>, Vec<char>)| (p.0@, p.1@))),
    {
        let t = trim_v(line);
        if starts_with_str(&t, "PASS ") || starts_with_str(&t, "FAIL ") {
            if self.cur.len() > 0 && self.tests.len() > 0 {
                let mut tests: Vec<TestCase> = Vec::new();
                std::mem::swap(&mut tests, &mut self.tests);
                let s = TestSuite { name: string_of(&self.cur), tests };
                let ghost before = self.suites@;
                self.suites.push(s);
                assert(suites_view(self.suites@) =~= suites_view(before).push(s@));
                assert(cases_view(self.tests@) =~= seq![]);
            }
            let w = words_v(&t);
            let ghost wv = w@.map_values(|x: Vec<char>| x@);
            if w.len() > 1 {
                assert(w@[1]@ == wv[1]);
                self.cur = slice(&w[1], 0, w[1].len());
                assert(self.cur@ =~= wv[1]);
            } else {
                self.cur = chars_of("tests");
            }
            return;
        }
        let status = if t.len() > 0 { mark_status_v(t[0]) } else { None };
        match status {
            Some(st) => {
                let n = t.len();
                let tail = slice(&t, 1, n);
                assert(tail@ =~= t@.skip(1));
                let rest = strip_fail_tag(trim_start_v(&tail));
                let (name, dur) = jest_test_line_v(&rest);
                self.push_case(name, st, dur, fails);
            },
            None => {
                if (contains_str(&t, " ✓ ") || contains_str(&t, " ✕ ") || contains_str(&t, " × ") || contains_str(&t, " ✔ ")
                    || contains_str(&t, " ✘ ")) && !starts_with_str(&t, "Test") {
                    proof {
                        reveal_strlit(" ✓ ");
                        reveal_strlit(" ✕ ");
                        reveal_strlit(" × ");
                        reveal_strlit(" ✔ ");
                        reveal_strlit(" ✘ ");
                    }
                    let st = if contains_str(&t, " ✓ ") || contains_str(&t, " ✔ ") { TestStatus::Passed } else { TestStatus::Failed };
                    let a = remove_all_v(&t, " ✓ ");
                    let b = remove_all_v(&a, " ✕ ");
                    let c = remove_all_v(&b, " × ");
                    let d = remove_all_v(&c, " ✔ ");
                    let e = remove_all_v(&d, " ✘ ");
                    let name = strip_fail_tag(trim_v(&e));
                    self.push_case(name, st, Duration::zero(), fails);
                }
            },
        }
    }
}

fn jest_line_ok_v(line: &Vec<char>) -> (b: bool)
    ensures
        b == jest_line_ok(line@),
{
    let t = trim_v(line);
    let open_paren = vec!['('];
    let close_paren = vec![')'];
    assert(open_paren@ =~= seq!['(']);
    assert(close_paren@ =~= seq![')']);
    match (crate::text::rfind_v(&t, &open_paren), crate::text::rfind_v(&t, &close_paren)) {
        (Some(ps), Some(pe)) => ps < pe,
        _ => true,
    }
}

fn js_line_ok_v(t: &Vec<char>) -> (b: bool)
    ensures
        b == js_line_ok(t@),
{
    if t.len() == 1 && t[0] == '●' {
        assert(t@ =~= seq!['●']);
        return false;
    }
    assert(t@ != seq!['●']) by {
        if t@ == seq!['●'] {
            assert(t@.len() == 1 && t@[0] == '●');
        }
    }
    if t.len() > 0 && mark_status_v(t[0]).is_some() {
        if t.len() < 2 {
            return false;
        }
        let n = t.len();
        let tail = slice(t, 1, n);
        assert(tail@ =~= t@.skip(1));
        let r = strip_fail_tag(trim_start_v(&tail));
        return jest_line_ok_v(&r);
    }
    true
}

impl JavaScriptAdapter {
    /// Whether `parse_output` can read this output: every line is one it
    /// reads without failing.
    pub fn readable(&self, stdout: &str, stderr: &str, exit_code: i32) -> (b: bool)
        ensures
            b == js_readable(stdout@, stderr@),
    {
        let mut raw = chars_of(stdout);
        raw.push('\n');
        append_str(&mut raw, stderr);
        assert(raw@ =~= stdout@ + seq!['\n'] + stderr@);
        let combined = strip_ansi_v(&raw);
        let ls = lines_v(&combined);
        let ghost lv = ls@.map_values(|l: Vec<char>| l@);
        assert(lv =~= js_lines(stdout@, stderr@));
        let mut i: usize = 0;
        while i < ls.len()
            invariant
                i <= ls.len(),
                lv == ls@.map_values(|l: Vec<char>| l@),
                lv == js_lines(stdout@, stderr@),
                forall|k: int| 0 <= k < i ==> js_line_ok(trim(#[trigger] lv[k])),
            decreases ls.len() - i,
        {
            let t = trim_v(&ls[i]);
            if !js_line_ok_v(&t) {
                assert(lv[i as int] == ls@[i as int]@);
                return false;
            }
            i += 1;
        }
        true
    }

    /// Parse Jest, Vitest, Mocha or AVA output into a run.
    pub fn parse_output(&self, stdout: &str, stderr: &str, exit_code: i32) -> (r: TestRunResult)
        requires
            js_readable(stdout@, stderr@),
        ensures
            r@ == js_run(stdout@, stderr@, exit_code),
    {
        let mut raw = chars_of(stdout);
        raw.push('\n');
        append_str(&mut raw, stderr);
        assert(raw@ =~= stdout@ + seq!['\n'] + stderr@);
        let combined = strip_ansi_v(&raw);
        let ls = lines_v(&combined);
        let ghost lv = ls@.map_values(|l: Vec<char>| l@);
        assert(lv =~= js_lines(stdout@, stderr@));
        let fails = js_failures_v(&ls);
        let ghost fv = fails@.map_values(|p: (Vec<char>, Vec<char>)| (p.0@, p.1@));
        let mut p = JsParser { suites: Vec::new(), cur: Vec::new(), tests: Vec::new() };
        assert(suites_view(p.suites@) =~= seq![]);
        assert(cases_view(p.tests@) =~= seq![]);
        let mut i: usize = 0;
        while i < ls.len()
            invariant
                i <= ls.len(),
                lv == ls@.map_values(|l: Vec<char>| l@),
                lv == js_lines(stdout@, stderr@),
                js_readable(stdout@, stderr@),
                fv == fails@.map_values(|p: (Vec<char>, Vec<char>)| (p.0@, p.1@)),
                p.state() == js_fold(lv.take(i as int), fv),
            decreases ls.len() - i,
        {
            assert(lv.take(i + 1).drop_last() =~= lv.take(i as int));
            assert(lv.take(i + 1).last() == ls@[i as int]@);
            assert(js_line_ok(trim(lv[i as int])));
            p.step(&ls[i], &fails);
            i += 1;
        }
        assert(lv.take(ls.len() as int) =~= lv);
        let mut suites = p.suites;
        if p.tests.len() > 0 {
            let name = if p.cur.len() == 0 { chars_of("tests") } else { p.cur };
            let s = TestSuite { name: string_of(&name), tests: p.tests };
            let ghost before = suites@;
            suites.push(s);
            assert(suites_view(suites@) =~= suites_view(before).push(s@));
        }
        let summary = js_summary_suite_v(&ls, exit_code);
        // total number of inline cases
        let ghost sv = suites_view(suites@);
        let mut total: u128 = 0;
        let mut k: usize = 0;
        while k < suites.len()
            invariant
                k <= suites.len(),
                sv == suites_view(suites@),
                total == total_cases(sv.take(k as int)),
                total <= k * (usize::MAX as u128),
            decreases suites.len() - k,
        {
            assert(sv.take(k + 1).drop_last() =~= sv.take(k as int));
            assert(sv.take(k + 1).last() == suites@[k as int]@);
            assert(k * (usize::MAX as u128) + (usize::MAX as u128) == (k + 1) * (usize::MAX as u128)) by (nonlinear_arith);
            assert((k + 1) * (usize::MAX as u128) <= (usize::MAX as u128) * (usize::MAX as u128)) by (nonlinear_arith)
                requires
                    k + 1 <= usize::MAX,
            ;
            total = total + suites[k].tests.len() as u128;
            k += 1;
        }
        assert(sv.take(suites.len() as int) =~= sv);
        let suites = if suites.len() == 0 || (summary.tests.len() as u128 > total && summary.tests.len() > 1) {
            let mut v: Vec<TestSuite> = Vec::new();
            v.push(summary);
            assert(suites_view(v@) =~= seq![summary@]);
            v
        } else {
            suites
        };
        let duration = match jest_duration_v(&ls) {
            Some(d) => d,
            None => Duration::zero(),
        };
        TestRunResult { suites, duration, raw_exit_code: exit_code }
    }
}

} // verus!
