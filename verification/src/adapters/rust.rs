//! `cargo test` output.

use vstd::prelude::*;
use crate::adapters::{
    CaseView, ErrorView, RunView, SuiteView, TestCase, TestError, TestRunResult, TestStatus,
    TestSuite, cases_view, suites_view,
};
use crate::adapters::util::{combined_chars, combined_spec, ensure_non_empty, non_empty_spec};
use crate::duration::{Duration, decimal_nanos, parse_secs};
use crate::text::{
    occurs_at,
    chars_of, contains, contains_str, ends_with, ends_with_str, eq, find, find_str, join, join_v,
    lines, lines_of, lines_v, num_prefix, num_prefix_len, rfind, rfind_str, rfind_v, slice,
    starts_with, starts_with_str, string_of, trim, trim_char, trim_char_v, trim_end_char,
    trim_end_char_v, trim_v, words, words_v,
};

verus! {

/// Adapter for Rust projects tested with `cargo test`.
pub struct RustAdapter;

impl RustAdapter {
    pub fn new() -> (a: Self) {
        RustAdapter
    }

    /// Name of this adapter for display.
    pub fn name(&self) -> (r: &'static str)
        ensures
            r@ == "Rust"@,
    {
        "Rust"
    }
}

impl Default for RustAdapter {
    fn default() -> (a: Self) {
        RustAdapter
    }
}

// ---------------------------------------------------------------------------
// Failure messages
// ---------------------------------------------------------------------------

/// A line that ends a failure block.
pub open spec fn ends_failure_block(l: Seq<char>) -> bool {
    starts_with(l, "---- "@) || l == "failures:"@ || starts_with(l, "test result:"@)
}

/// Index of the first line at or after `k` that ends a failure block.
pub open spec fn block_end(ls: Seq<Seq<char>>, k: int) -> int
    decreases ls.len() - k,
{
    if k < 0 || k >= ls.len() {
        if k < 0 { 0 } else { k }
    } else if ends_failure_block(trim(ls[k])) {
        k
    } else {
        block_end(ls, k + 1)
    }
}

pub proof fn lemma_block_end(ls: Seq<Seq<char>>, k: int)
    requires
        0 <= k,
    ensures
        k <= block_end(ls, k),
        k <= ls.len() ==> block_end(ls, k) <= ls.len(),
    decreases ls.len() - k,
{
    if k < ls.len() && !ends_failure_block(trim(ls[k])) {
        lemma_block_end(ls, k + 1);
    }
}

/// What one line inside a failure block contributes to the message.
pub open spec fn block_line_message(l: Seq<char>) -> Seq<Seq<char>> {
    if starts_with(l, "thread '"@) && contains(l, "panicked at"@) {
        match find(l, "panicked at "@) {
            Some(at) => seq![trim_char(trim_char(l.skip(at + "panicked at "@.len()), '\''), '"')],
            None => seq![],
        }
    } else if l.len() > 0 && !starts_with(l, "note:"@) && !starts_with(l, "stack backtrace:"@) {
        seq![l]
    } else {
        seq![]
    }
}

/// Message parts of the lines `[k, e)`.
pub open spec fn block_messages(ls: Seq<Seq<char>>, k: int, e: int) -> Seq<Seq<char>>
    decreases e - k,
{
    if k >= e || k < 0 || e > ls.len() {
        seq![]
    } else {
        block_messages(ls, k, e - 1) + block_line_message(trim(ls[e - 1]))
    }
}

/// Whether a (trimmed) line opens the failure block of a test.
pub open spec fn is_block_header(t: Seq<char>) -> bool {
    starts_with(t, "---- "@) && ends_with(t, " stdout ----"@) && t.len() > 17
}

/// Failure messages from line `i` on: per failed test its name and its
/// message lines joined by `" | "` (blocks without message lines omitted).
pub open spec fn failures_from(ls: Seq<Seq<char>>, i: int) -> Seq<(Seq<char>, Seq<char>)>
    decreases ls.len() - i,
{
    if i < 0 || i >= ls.len() {
        seq![]
    } else {
        let t = trim(ls[i]);
        if is_block_header(t) {
            let name = trim(t.subrange(5, t.len() - 12));
            let e = block_end(ls, i + 1);
            let msgs = block_messages(ls, i + 1, e);
            proof {
                lemma_block_end(ls, i + 1);
            }
            (if msgs.len() > 0 { seq![(name, join(msgs, " | "@))] } else { seq![] }) + failures_from(ls, e)
        } else {
            failures_from(ls, i + 1)
        }
    }
}

/// The message recorded last for `name`.
pub open spec fn last_message(fs: Seq<(Seq<char>, Seq<char>)>, name: Seq<char>) -> Option<Seq<char>>
    decreases fs.len(),
{
    if fs.len() == 0 {
        None
    } else if fs.last().0 == name {
        Some(fs.last().1)
    } else {
        last_message(fs.drop_last(), name)
    }
}

fn block_line_message_v(l: &Vec<char>) -> (r: Option<Vec<char>>)
    ensures
        match r {
            Some(m) => block_line_message(l@) == seq![m@],
            None => block_line_message(l@) == Seq::<Seq<char>>::empty(),
        },
{
    if starts_with_str(l, "thread '") && contains_str(l, "panicked at") {
        let pat = chars_of("panicked at ");
        match crate::text::find_v(l, &pat) {
            Some(at) => {
                let n = pat.len();
                assert(occurs_at(l@, pat@, at as int));
                let ln = l.len();
                assert(at + n <= ln);
                let after = slice(l, at + n, ln);
                assert(after@ =~= l@.skip(at + "panicked at "@.len()));
                let m = trim_char_v(&trim_char_v(&after, '\''), '"');
                Some(m)
            },
            None => None,
        }
    } else if l.len() > 0 && !starts_with_str(l, "note:") && !starts_with_str(l, "stack backtrace:") {
        let r = slice(l, 0, l.len());
        assert(r@ =~= l@);
        Some(r)
    } else {
        None
    }
}

fn ends_block_v(line: &Vec<char>) -> (b: bool)
    ensures
        b == ends_failure_block(trim(line@)),
{
    let l = trim_v(line);
    starts_with_str(&l, "---- ") || eq(&l, &chars_of("failures:")) || starts_with_str(&l, "test result:")
}

/// Failure messages per failed test, from `---- name stdout ----` blocks.
fn parse_cargo_failures(ls: &Vec<Vec<char>>) -> (r: Vec<(Vec<char>, Vec<char>)>)
    ensures
        r@.map_values(|p: (Vec<char>, Vec<char>)| (p.0@, p.1@)) == failures_from(
            ls@.map_values(|l: Vec<char>| l@),
            0,
        ),
{
    let ghost lv = ls@.map_values(|l: Vec<char>| l@);
    let mut out: Vec<(Vec<char>, Vec<char>)> = Vec::new();
    let mut i: usize = 0;
    let ghost base: Seq<(Seq<char>, Seq<char>)> = seq![];
    assert(out@.map_values(|p: (Vec<char>, Vec<char>)| (p.0@, p.1@)) + failures_from(lv, 0) =~= failures_from(lv, 0));
    while i < ls.len()
        invariant
            i <= ls.len(),
            lv == ls@.map_values(|l: Vec<char>| l@),
            out@.map_values(|p: (Vec<char>, Vec<char>)| (p.0@, p.1@)) + failures_from(lv, i as int) == failures_from(lv, 0),
        decreases ls.len() - i,
    {
        let t = trim_v(&ls[i]);
        assert(t@ == trim(lv[i as int]));
        if starts_with_str(&t, "---- ") && ends_with_str(&t, " stdout ----") && t.len() > 17 {
            let name = trim_v(&slice(&t, 5, t.len() - 12));
            let mut msgs: Vec<Vec<char>> = Vec::new();
            let mut k = i + 1;
            proof {
                lemma_block_end(lv, i + 1);
            }
            while k < ls.len() && !ends_block_v(&ls[k])
                invariant
                    i + 1 <= k <= ls.len(),
                    lv == ls@.map_values(|l: Vec<char>| l@),
                    block_end(lv, (i + 1) as int) == block_end(lv, k as int),
                    msgs@.map_values(|p: Vec<char>| p@) == block_messages(lv, (i + 1) as int, k as int),
                decreases ls.len() - k,
            {
                let l = trim_v(&ls[k]);
                assert(l@ == trim(lv[k as int]));
                let ghost before = msgs@.map_values(|p: Vec<char>| p@);
                match block_line_message_v(&l) {
                    Some(m) => {
                        msgs.push(m);
                        assert(msgs@.map_values(|p: Vec<char>| p@) =~= before + block_line_message(l@));
                    },
                    None => {
                        assert(msgs@.map_values(|p: Vec<char>| p@) =~= before + block_line_message(l@));
                    },
                }
                k += 1;
            }
            proof {
                if k < ls.len() {
                    assert(ends_failure_block(trim(lv[k as int])));
                }
                assert(block_end(lv, k as int) == k);
            }
            let ghost before = out@.map_values(|p: (Vec<char>, Vec<char>)| (p.0@, p.1@));
            if msgs.len() > 0 {
                let sep = chars_of(" | ");
                let joined = join_v(&msgs, &sep);
                let ghost nm = name@;
                let ghost jm = joined@;
                out.push((name, joined));
                assert(out@.map_values(|p: (Vec<char>, Vec<char>)| (p.0@, p.1@)) =~= before + seq![(nm, jm)]);
            } else {
                assert(out@.map_values(|p: (Vec<char>, Vec<char>)| (p.0@, p.1@)) =~= before + seq![]);
            }
            i = k;
        } else {
            i += 1;
        }
    }
    assert(out@.map_values(|p: (Vec<char>, Vec<char>)| (p.0@, p.1@)) + seq![] =~= out@.map_values(|p: (Vec<char>, Vec<char>)| (p.0@, p.1@)));
    out
}

pub fn last_message_pub(fs: &Vec<(Vec<char>, Vec<char>)>, name: &Vec<char>) -> (r: Option<Vec<char>>)
    ensures
        match r {
            Some(m) => last_message(fs@.map_values(|p: (Vec<char>, Vec<char>)| (p.0@, p.1@)), name@) == Some(m@),
            None => last_message(fs@.map_values(|p: (Vec<char>, Vec<char>)| (p.0@, p.1@)), name@) is None,
        },
{
    let ghost fv = fs@.map_values(|p: (Vec<char>, Vec<char>)| (p.0@, p.1@));
    let mut i = fs.len();
    assert(fv.take(i as int) =~= fv);
    while i > 0
        invariant
            i <= fs.len(),
            fv == fs@.map_values(|p: (Vec<char>, Vec<char>)| (p.0@, p.1@)),
            last_message(fv, name@) == last_message(fv.take(i as int), name@),
        decreases i,
    {
        assert(fv.take(i as int).drop_last() =~= fv.take(i - 1));
        assert(fv.take(i as int).last() == fv[i - 1]);
        if eq(&fs[i - 1].0, name) {
            return Some(slice(&fs[i - 1].1, 0, fs[i - 1].1.len()));
        }
        i -= 1;
    }
    None
}

// ---------------------------------------------------------------------------
// Durations
// ---------------------------------------------------------------------------

/// Per-test time from `--report-time` output: the seconds between the last
/// `<` and the last `>` (trailing `s` removed).
pub open spec fn report_time(line: Seq<char>) -> Option<nat> {
    let t = trim(line);
    match (rfind(t, seq!['<']), rfind(t, seq!['>'])) {
        (Some(s), Some(e)) => if s < e {
            decimal_nanos(trim_end_char(t.subrange(s + 1, e), 's'), 1_000_000_000, 9, 1)
        } else {
            None
        },
        _ => None,
    }
}

fn parse_report_time(line: &Vec<char>) -> (r: Option<Duration>)
    ensures
        match r {
            Some(d) => report_time(line@) == Some(d.ns()),
            None => report_time(line@) is None,
        },
{
    let t = trim_v(line);
    let mut lt: Vec<char> = Vec::new();
    lt.push('<');
    let mut gt: Vec<char> = Vec::new();
    gt.push('>');
    assert(lt@ =~= seq!['<'] && gt@ =~= seq!['>']);
    match (rfind_v(&t, &lt), rfind_v(&t, &gt)) {
        (Some(s), Some(e)) => {
            if s < e {
                let inner = slice(&t, s + 1, e);
                parse_secs(&trim_end_char_v(&inner, 's'))
            } else {
                None
            }
        },
        _ => None,
    }
}

/// Total time from the first `finished in <secs>` line whose number parses.
pub open spec fn cargo_duration_from(ls: Seq<Seq<char>>, i: int) -> Option<nat>
    decreases ls.len() - i,
{
    if i < 0 || i >= ls.len() {
        None
    } else {
        match find(ls[i], "finished in "@) {
            Some(idx) => {
                let after = ls[i].skip(idx + 12);
                match decimal_nanos(after.take(num_prefix_len(after) as int), 1_000_000_000, 9, 1) {
                    Some(d) => Some(d),
                    None => cargo_duration_from(ls, i + 1),
                }
            },
            None => cargo_duration_from(ls, i + 1),
        }
    }
}

fn parse_cargo_duration_lines(ls: &Vec<Vec<char>>) -> (r: Option<Duration>)
    ensures
        match r {
            Some(d) => cargo_duration_from(ls@.map_values(|l: Vec<char>| l@), 0) == Some(d.ns()),
            None => cargo_duration_from(ls@.map_values(|l: Vec<char>| l@), 0) is None,
        },
{
    let ghost lv = ls@.map_values(|l: Vec<char>| l@);
    let mut i: usize = 0;
    while i < ls.len()
        invariant
            i <= ls.len(),
            lv == ls@.map_values(|l: Vec<char>| l@),
            cargo_duration_from(lv, 0) == cargo_duration_from(lv, i as int),
        decreases ls.len() - i,
    {
        assert(lv[i as int] == ls@[i as int]@);
        let pat = chars_of("finished in ");
        if let Some(idx) = crate::text::find_v(&ls[i], &pat) {
            proof {
                reveal_strlit("finished in ");
            }
            assert(pat@.len() == 12);
            let ln = ls[i].len();
            assert(occurs_at(ls@[i as int]@, pat@, idx as int));
            assert(idx + pat.len() <= ln);
            let after = slice(&ls[i], idx + pat.len(), ln);
            assert(after@ =~= lv[i as int].skip(idx + 12));
            let num = num_prefix(&after);
            if let Some(d) = parse_secs(&num) {
                return Some(d);
            }
        }
        i += 1;
    }
    None
}

/// The total duration `cargo test` reports.
pub fn parse_cargo_duration(output: &str) -> (r: Option<Duration>)
    ensures
        match r {
            Some(d) => cargo_duration_from(lines(output@), 0) == Some(d.ns()),
            None => cargo_duration_from(lines(output@), 0) is None,
        },
{
    let ls = lines_of(output);
    assert(ls@.map_values(|l: Vec<char>| l@) =~= lines(output@));
    parse_cargo_duration_lines(&ls)
}

// ---------------------------------------------------------------------------
// Output
// ---------------------------------------------------------------------------

/// Parser state: finished suites, current suite name, current cases.
pub struct CargoState {
    pub suites: Seq<SuiteView>,
    pub name: Seq<char>,
    pub tests: Seq<CaseView>,
}

/// Finished suites with the current one added, if it has cases.
pub open spec fn flushed(st: CargoState) -> Seq<SuiteView> {
    if st.tests.len() > 0 { st.suites.push(SuiteView { name: st.name, tests: st.tests }) } else { st.suites }
}

/// A passing line with its time, as `--report-time` prints it:
/// `test name ... ok <0.123s>`.
pub open spec fn timed_ok(t: Seq<char>) -> bool {
    ends_with(t, ">"@) && contains(t, " ... ok <"@)
}

/// Status a `test ... <outcome>` line reports.
pub open spec fn line_status(t: Seq<char>) -> Option<TestStatus> {
    if ends_with(t, " ok"@) || timed_ok(t) {
        Some(TestStatus::Passed)
    } else if ends_with(t, " FAILED"@) {
        Some(TestStatus::Failed)
    } else if ends_with(t, " ignored"@) {
        Some(TestStatus::Skipped)
    } else {
        None
    }
}

/// Effect of one output line on the parser state.
pub open spec fn cargo_step(st: CargoState, line: Seq<char>, fails: Seq<(Seq<char>, Seq<char>)>) -> CargoState {
    let t = trim(line);
    if starts_with(t, "running "@) && (ends_with(t, " tests"@) || ends_with(t, " test"@)) {
        CargoState { suites: flushed(st), name: st.name, tests: seq![] }
    } else if starts_with(t, "test result:"@) {
        st
    } else if starts_with(t, "test "@) {
        match line_status(t) {
            None => st,
            Some(status) => {
                let wp = t.skip("test "@.len() as int);
                let time_src = if ends_with(t, " ok"@) { t.take(t.len() - " ok"@.len()) } else { t };
                let name = match rfind(wp, " ... "@) {
                    Some(i) => wp.take(i),
                    None => wp,
                };
                let suite = match rfind(name, "::"@) {
                    Some(i) => name.take(i),
                    None => st.name,
                };
                let dur = match report_time(time_src) {
                    Some(d) => d,
                    None => 0,
                };
                let err = if status == TestStatus::Failed {
                    match last_message(fails, name) {
                        Some(m) => Some(ErrorView { message: m, location: None }),
                        None => None,
                    }
                } else {
                    None
                };
                CargoState {
                    suites: st.suites,
                    name: suite,
                    tests: st.tests.push(CaseView { name: name, status: status, duration: dur, error: err }),
                }
            },
        }
    } else if starts_with(t, "Running "@) {
        let parts = words(t);
        CargoState {
            suites: flushed(st),
            name: if parts.len() >= 3 { join(parts.subrange(1, parts.len() - 1), seq![' ']) } else { st.name },
            tests: seq![],
        }
    } else {
        st
    }
}

/// Parser state after the lines `ls`.
pub open spec fn cargo_fold(ls: Seq<Seq<char>>, fails: Seq<(Seq<char>, Seq<char>)>) -> CargoState
    decreases ls.len(),
{
    if ls.len() == 0 {
        CargoState { suites: seq![], name: "tests"@, tests: seq![] }
    } else {
        cargo_step(cargo_fold(ls.drop_last(), fails), ls.last(), fails)
    }
}

/// A recorded test's suite is the test's path without its last `::`
/// segment: suite, `::` and a last segment holding no `::` give the test's
/// name back.  A name without `::` keeps the current suite.
pub proof fn law_cargo_suite_is_module_path(st: CargoState, line: Seq<char>, fails: Seq<(Seq<char>, Seq<char>)>)
    ensures
        ({
            let r = cargo_step(st, line, fails);
            r.tests.len() == st.tests.len() + 1 ==> {
                let name = r.tests.last().name;
                &&& contains(name, "::"@) ==> exists|last: Seq<char>| r.name + "::"@ + last == name && !contains(last, "::"@)
                &&& !contains(name, "::"@) ==> r.name == st.name
            }
        }),
{
    let r = cargo_step(st, line, fails);
    if r.tests.len() == st.tests.len() + 1 {
        let t = trim(line);
        assert(!(starts_with(t, "running "@) && (ends_with(t, " tests"@) || ends_with(t, " test"@))));
        assert(!starts_with(t, "test result:"@));
        assert(starts_with(t, "test "@));
        assert(line_status(t) is Some);
        let wp = t.skip("test "@.len() as int);
        let name = match rfind(wp, " ... "@) {
            Some(i) => wp.take(i),
            None => wp,
        };
        assert(r.tests.last().name == name);
        let sep = "::"@;
        reveal_strlit("::");
        assert(sep.len() == 2);
        crate::text::lemma_rfind_to_bounds(name, sep, name.len() - 2);
        crate::text::lemma_find_from_bounds(name, sep, 0);
        if contains(name, sep) {
            let j = find(name, sep)->0;
            assert(occurs_at(name, sep, j));
            let i = rfind(name, sep)->0;
            assert(occurs_at(name, sep, i));
            assert(r.name == name.take(i));
            let last = name.skip(i + 2);
            assert(name.subrange(i, i + 2) == sep);
            assert(name.take(i) + sep + last =~= name);
            crate::text::lemma_find_from_bounds(last, sep, 0);
            if contains(last, sep) {
                let k = find(last, sep)->0;
                assert(occurs_at(last, sep, k));
                assert(name.subrange(i + 2 + k, i + 2 + k + 2) =~= last.subrange(k, k + 2));
                assert(occurs_at(name, sep, i + 2 + k));
            }
            assert(r.name + sep + last == name && !contains(last, sep));
        } else {
            if rfind(name, sep) is Some {
                let i = rfind(name, sep)->0;
                assert(occurs_at(name, sep, i));
            }
        }
    }
}

/// The run `cargo test` output describes.
pub open spec fn cargo_run(stdout: Seq<char>, stderr: Seq<char>, exit_code: i32) -> RunView {
    let ls = lines(combined_spec(stdout, stderr));
    let fails = failures_from(ls, 0);
    RunView {
        suites: non_empty_spec(flushed(cargo_fold(ls, fails)), exit_code, "tests"@),
        duration: match cargo_duration_from(ls, 0) {
            Some(d) => d,
            None => 0,
        },
        raw_exit_code: exit_code,
    }
}

struct CargoParser {
    suites: Vec<TestSuite>,
    name: Vec<char>,
    tests: Vec<TestCase>,
}

impl CargoParser {
    spec fn state(&self) -> CargoState {
        CargoState { suites: suites_view(self.suites@), name: self.name@, tests: cases_view(self.tests@) }
    }

    fn flush(&mut self)
        ensures
            suites_view(final(self).suites@) == flushed(old(self).state()),
            final(self).name@ == old(self).name@,
            final(self).tests@.len() == 0,
    {
        if self.tests.len() > 0 {
            let mut tests: Vec<TestCase> = Vec::new();
            std::mem::swap(&mut tests, &mut self.tests);
            let s = TestSuite { name: string_of(&self.name), tests };
            let ghost before = self.suites@;
            self.suites.push(s);
            assert(suites_view(self.suites@) =~= suites_view(before).push(s@));
        }
    }

    fn step(&mut self, line: &Vec<char>, fails: &Vec<(Vec<char>, Vec<char>)>)
        ensures
            final(self).state() == cargo_step(
                old(self).state(),
                line@,
                fails@.map_values(|p: (Vec<char>, Vec<char>)| (p.0@, p.1@)),
            ),
    {
        let ghost fv = fails@.map_values(|p: (Vec<char>, Vec<char>)| (p.0@, p.1@));
        let t = trim_v(line);
        if starts_with_str(&t, "running ") && (ends_with_str(&t, " tests") || ends_with_str(&t, " test")) {
            self.flush();
            assert(cases_view(self.tests@) =~= seq![]);
            return;
        }
        if starts_with_str(&t, "test result:") {
            return;
        }
        if starts_with_str(&t, "test ") {
            let plain_ok = ends_with_str(&t, " ok");
            let status = if plain_ok || (ends_with_str(&t, ">") && contains_str(&t, " ... ok <")) {
                TestStatus::Passed
            } else if ends_with_str(&t, " FAILED") {
                TestStatus::Failed
            } else if ends_with_str(&t, " ignored") {
                TestStatus::Skipped
            } else {
                return;
            };
            let plen = chars_of("test ").len();
            let wp = slice(&t, plen, t.len());
            assert(wp@ =~= t@.skip("test "@.len() as int));
            let time_src = if plain_ok {
                let ok = chars_of(" ok").len();
                let r = slice(&t, 0, t.len() - ok);
                assert(r@ =~= t@.take(t@.len() - " ok"@.len()));
                r
            } else {
                slice(&t, 0, t.len())
            };
            assert(t@.subrange(0, t@.len() as int) =~= t@);
            let name = match rfind_str(&wp, " ... ") {
                Some(i) => {
                    let r = slice(&wp, 0, i);
                    assert(r@ =~= wp@.take(i as int));
                    r
                },
                None => slice(&wp, 0, wp.len()),
            };
            assert(wp@.subrange(0, wp@.len() as int) =~= wp@);
            if let Some(i) = rfind_str(&name, "::") {
                let r = slice(&name, 0, i);
                assert(r@ =~= name@.take(i as int));
                self.name = r;
            }
            let duration = match parse_report_time(&time_src) {
                Some(d) => d,
                None => Duration::zero(),
            };
            let error = if status == TestStatus::Failed {
                match last_message_pub(fails, &name) {
                    Some(m) => Some(TestError { message: string_of(&m), location: None }),
                    None => None,
                }
            } else {
                None
            };
            let case = TestCase { name: string_of(&name), status, duration, error };
            let ghost before = self.tests@;
            self.tests.push(case);
            assert(cases_view(self.tests@) =~= cases_view(before).push(case@));
            return;
        }
        if starts_with_str(&t, "Running ") {
            self.flush();
            assert(cases_view(self.tests@) =~= seq![]);
            let parts = words_v(&t);
            if parts.len() >= 3 {
                let mut mid: Vec<Vec<char>> = Vec::new();
                let ghost pv = parts@.map_values(|p: Vec<char>| p@);
                let mut k: usize = 1;
                while k < parts.len() - 1
                    invariant
                        1 <= k <= parts.len() - 1,
                        pv == parts@.map_values(|p: Vec<char>| p@),
                        mid@.map_values(|p: Vec<char>| p@) == pv.subrange(1, k as int),
                    decreases parts.len() - 1 - k,
                {
                    let ghost before = mid@.map_values(|p: Vec<char>| p@);
                    mid.push(slice(&parts[k], 0, parts[k].len()));
                    assert(parts@[k as int]@.subrange(0, parts@[k as int]@.len() as int) =~= pv[k as int]);
                    assert(mid@.map_values(|p: Vec<char>| p@) =~= before.push(pv[k as int]));
                    assert(pv.subrange(1, k + 1) =~= pv.subrange(1, k as int).push(pv[k as int]));
                    k += 1;
                }
                let mut sp: Vec<char> = Vec::new();
                sp.push(' ');
                assert(sp@ =~= seq![' ']);
                self.name = join_v(&mid, &sp);
            }
            return;
        }
    }
}

impl RustAdapter {
    /// Parse `cargo test` output into a run.
    pub fn parse_output(&self, stdout: &str, stderr: &str, exit_code: i32) -> (r: TestRunResult)
        ensures
            r@ == cargo_run(stdout@, stderr@, exit_code),
    {
        let combined = combined_chars(stdout, stderr);
        let ls = lines_v(&combined);
        let ghost lv = ls@.map_values(|l: Vec<char>| l@);
        assert(lv =~= lines(combined@));
        let fails = parse_cargo_failures(&ls);
        let ghost fv = fails@.map_values(|p: (Vec<char>, Vec<char>)| (p.0@, p.1@));
        let mut p = CargoParser { suites: Vec::new(), name: chars_of("tests"), tests: Vec::new() };
        assert(suites_view(p.suites@) =~= seq![]);
        assert(cases_view(p.tests@) =~= seq![]);
        let mut i: usize = 0;
        while i < ls.len()
            invariant
                i <= ls.len(),
                lv == ls@.map_values(|l: Vec<char>| l@),
                fv == fails@.map_values(|p: (Vec<char>, Vec<char>)| (p.0@, p.1@)),
                p.state() == cargo_fold(lv.take(i as int), fv),
            decreases ls.len() - i,
        {
            assert(lv.take(i + 1).drop_last() =~= lv.take(i as int));
            assert(lv.take(i + 1).last() == ls@[i as int]@);
            p.step(&ls[i], &fails);
            i += 1;
        }
        assert(lv.take(ls.len() as int) =~= lv);
        p.flush();
        let mut suites = p.suites;
        ensure_non_empty(&mut suites, exit_code, "tests");
        let duration = match parse_cargo_duration_lines(&ls) {
            Some(d) => d,
            None => Duration::zero(),
        };
        TestRunResult { suites, duration, raw_exit_code: exit_code }
    }
}

} // verus!
