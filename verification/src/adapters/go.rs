//! `go test -v` output.

use vstd::prelude::*;
use crate::adapters::{
    CaseView, ErrorView, RunView, SuiteView, TestCase, TestError, TestRunResult, TestStatus,
    TestSuite, cases_view, suites_view,
};
use crate::adapters::util::{ensure_non_empty, non_empty_spec};
use crate::adapters::rust::last_message;
use crate::duration::{Duration, decimal_nanos, parse_secs, MAX_NANOS};
use crate::num::min_nat;
use crate::text::{
    append, chars_of, contains, contains_char, eq, join, join_v, lines, lines_v, slice,
    split_char, split_char_v, starts_with, starts_with_str, string_of, trim, trim_any, trim_any_v,
    trim_end_char, trim_end_char_v, trim_v, words, words_v,
};

verus! {

/// Adapter for Go projects tested with `go test`.
pub struct GoAdapter;

impl GoAdapter {
    pub fn new() -> (a: Self) {
        GoAdapter
    }

    /// Name of this adapter for display.
    pub fn name(&self) -> (r: &'static str)
        ensures
            r@ == "Go"@,
    {
        "Go"
    }
}

impl Default for GoAdapter {
    fn default() -> (a: Self) {
        GoAdapter
    }
}

/// A line marking the end of a test's output.
pub open spec fn is_go_marker(l: Seq<char>) -> bool {
    starts_with(l, "--- FAIL:"@) || starts_with(l, "--- PASS:"@) || starts_with(l, "--- SKIP:"@)
        || starts_with(l, "=== RUN"@)
}

/// First line at or after `k` (trimmed) that is a marker, or the end.
pub open spec fn go_block_end(ls: Seq<Seq<char>>, k: int) -> int
    decreases ls.len() - k,
{
    if k < 0 {
        0
    } else if k >= ls.len() {
        k
    } else if is_go_marker(trim(ls[k])) {
        k
    } else {
        go_block_end(ls, k + 1)
    }
}

pub proof fn lemma_go_block_end(ls: Seq<Seq<char>>, k: int)
    requires
        0 <= k,
    ensures
        k <= go_block_end(ls, k),
        k <= ls.len() ==> go_block_end(ls, k) <= ls.len(),
    decreases ls.len() - k,
{
    if k < ls.len() && !is_go_marker(trim(ls[k])) {
        lemma_go_block_end(ls, k + 1);
    }
}

/// Non-empty trimmed lines of `[k, e)`.
pub open spec fn go_messages(ls: Seq<Seq<char>>, k: int, e: int) -> Seq<Seq<char>>
    decreases e - k,
{
    if k >= e || k < 0 || e > ls.len() {
        seq![]
    } else {
        go_messages(ls, k, e - 1) + if trim(ls[e - 1]).len() > 0 { seq![trim(ls[e - 1])] } else { seq![] }
    }
}

/// Failure messages of failed tests from line `i` on: the output between
/// `=== RUN <name>` and `--- FAIL:` joined by `" | "`.
pub open spec fn go_failures_from(ls: Seq<Seq<char>>, i: int) -> Seq<(Seq<char>, Seq<char>)>
    decreases ls.len() - i,
{
    if i < 0 || i >= ls.len() {
        seq![]
    } else {
        let t = trim(ls[i]);
        if starts_with(t, "=== RUN"@) && trim(t.skip("=== RUN"@.len() as int)).len() > 0 {
            let name = trim(t.skip("=== RUN"@.len() as int));
            let e = go_block_end(ls, i + 1);
            let msgs = go_messages(ls, i + 1, e);
            proof {
                lemma_go_block_end(ls, i + 1);
            }
            (if e < ls.len() && starts_with(trim(ls[e]), "--- FAIL:"@) && msgs.len() > 0 {
                seq![(name, join(msgs, " | "@))]
            } else {
                seq![]
            }) + go_failures_from(ls, e)
        } else {
            go_failures_from(ls, i + 1)
        }
    }
}

fn is_go_marker_v(line: &Vec<char>) -> (b: bool)
    ensures
        b == is_go_marker(trim(line@)),
{
    let l = trim_v(line);
    starts_with_str(&l, "--- FAIL:") || starts_with_str(&l, "--- PASS:") || starts_with_str(&l, "--- SKIP:")
        || starts_with_str(&l, "=== RUN")
}

fn parse_go_failures(ls: &Vec<Vec<char>>) -> (r: Vec<(Vec<char>, Vec<char>)>)
    ensures
        r@.map_values(|p: (Vec<char>, Vec<char>)| (p.0@, p.1@)) == go_failures_from(ls@.map_values(|l: Vec<char>| l@), 0),
{
    let ghost lv = ls@.map_values(|l: Vec<char>| l@);
    let mut out: Vec<(Vec<char>, Vec<char>)> = Vec::new();
    let mut i: usize = 0;
    assert(out@.map_values(|p: (Vec<char>, Vec<char>)| (p.0@, p.1@)) + go_failures_from(lv, 0) =~= go_failures_from(lv, 0));
    while i < ls.len()
        invariant
            i <= ls.len(),
            lv == ls@.map_values(|l: Vec<char>| l@),
            out@.map_values(|p: (Vec<char>, Vec<char>)| (p.0@, p.1@)) + go_failures_from(lv, i as int) == go_failures_from(lv, 0),
        decreases ls.len() - i,
    {
        let t = trim_v(&ls[i]);
        assert(t@ == trim(lv[i as int]));
        if starts_with_str(&t, "=== RUN") {
            let n = chars_of("=== RUN").len();
            let ghost tv = t@;
            let rest = slice(&t, n, t.len());
            assert(rest@ =~= tv.skip("=== RUN"@.len() as int));
            let name = trim_v(&rest);
            if name.len() > 0 {
                let mut msgs: Vec<Vec<char>> = Vec::new();
                let mut k = i + 1;
                proof {
                    lemma_go_block_end(lv, i + 1);
                }
                while k < ls.len() && !is_go_marker_v(&ls[k])
                    invariant
                        i + 1 <= k <= ls.len(),
                        lv == ls@.map_values(|l: Vec<char>| l@),
                        go_block_end(lv, (i + 1) as int) == go_block_end(lv, k as int),
                        msgs@.map_values(|p: Vec<char>| p@) == go_messages(lv, (i + 1) as int, k as int),
                    decreases ls.len() - k,
                {
                    let l = trim_v(&ls[k]);
                    assert(l@ == trim(lv[k as int]));
                    let ghost before = msgs@.map_values(|p: Vec<char>| p@);
                    if l.len() > 0 {
                        msgs.push(l);
                        assert(msgs@.map_values(|p: Vec<char>| p@) =~= before + seq![trim(lv[k as int])]);
                    } else {
                        assert(before + seq![] =~= before);
                    }
                    k += 1;
                }
                proof {
                    if k < ls.len() {
                        assert(is_go_marker(trim(lv[k as int])));
                    }
                    assert(go_block_end(lv, k as int) == k);
                }
                let ghost before = out@.map_values(|p: (Vec<char>, Vec<char>)| (p.0@, p.1@));
                let failed = k < ls.len() && starts_with_str(&trim_v(&ls[k]), "--- FAIL:");
                if failed && msgs.len() > 0 {
                    let sep = chars_of(" | ");
                    let joined = join_v(&msgs, &sep);
                    let ghost nm = name@;
                    let ghost jm = joined@;
                    out.push((name, joined));
                    assert(out@.map_values(|p: (Vec<char>, Vec<char>)| (p.0@, p.1@)) =~= before + seq![(nm, jm)]);
                } else {
                    assert(before + seq![] =~= before);
                }
                i = k;
                continue;
            }
        }
        i += 1;
    }
    assert(out@.map_values(|p: (Vec<char>, Vec<char>)| (p.0@, p.1@)) + seq![] =~= out@.map_values(|p: (Vec<char>, Vec<char>)| (p.0@, p.1@)));
    out
}

/// A package result line: `ok`/`FAIL`, tab-separated.
pub open spec fn is_package_line(t: Seq<char>) -> bool {
    (starts_with(t, "ok"@) || starts_with(t, "FAIL"@)) && contains(t, seq!['\t'])
}

/// Seconds of a `(0.05s)` token.
pub open spec fn go_token_secs(tok: Seq<char>) -> Option<nat> {
    decimal_nanos(trim_any(tok, seq!['(', ')', 's']), 1_000_000_000, 9, 1)
}

pub struct GoState {
    pub suites: Seq<SuiteView>,
    pub pkg: Seq<char>,
    pub tests: Seq<CaseView>,
}

/// Status of a `--- PASS:`/`--- FAIL:`/`--- SKIP:` line.
pub open spec fn go_status(t: Seq<char>) -> Option<TestStatus> {
    if starts_with(t, "--- PASS:"@) {
        Some(TestStatus::Passed)
    } else if starts_with(t, "--- FAIL:"@) {
        Some(TestStatus::Failed)
    } else if starts_with(t, "--- SKIP:"@) {
        Some(TestStatus::Skipped)
    } else {
        None
    }
}

/// Effect of one output line on the parser state.
pub open spec fn go_step(st: GoState, line: Seq<char>, fails: Seq<(Seq<char>, Seq<char>)>) -> GoState {
    let t = trim(line);
    match go_status(t) {
        Some(status) => {
            let pieces = split_char(t, ':');
            let rest = if pieces.len() > 1 { trim(pieces[1]) } else { seq![] };
            let parts = words(rest);
            let name = if parts.len() > 0 { parts[0] } else { "unknown"@ };
            let dur = if parts.len() > 1 {
                match go_token_secs(parts[1]) {
                    Some(d) => d,
                    None => 0,
                }
            } else {
                0
            };
            let err = if status == TestStatus::Failed {
                match last_message(fails, name) {
                    Some(m) => Some(ErrorView { message: m, location: None }),
                    None => None,
                }
            } else {
                None
            };
            GoState {
                suites: st.suites,
                pkg: st.pkg,
                tests: st.tests.push(CaseView { name: name, status: status, duration: dur, error: err }),
            }
        },
        None => if is_package_line(t) {
            let parts = split_char(t, '\t');
            let pkg = if parts.len() > 1 { trim(parts[1]) } else { seq![] };
            GoState {
                suites: if st.tests.len() > 0 {
                    st.suites.push(SuiteView { name: pkg, tests: st.tests })
                } else {
                    st.suites
                },
                pkg: pkg,
                tests: seq![],
            }
        } else {
            st
        },
    }
}

pub open spec fn go_fold(ls: Seq<Seq<char>>, fails: Seq<(Seq<char>, Seq<char>)>) -> GoState
    decreases ls.len(),
{
    if ls.len() == 0 {
        GoState { suites: seq![], pkg: seq![], tests: seq![] }
    } else {
        go_step(go_fold(ls.drop_last(), fails), ls.last(), fails)
    }
}

/// Seconds on a package line: its last tab-separated field, trimmed, with
/// trailing `s` removed.
pub open spec fn package_secs(t: Seq<char>) -> Option<nat> {
    let parts = split_char(t, '\t');
    decimal_nanos(trim_end_char(trim(parts.last()), 's'), 1_000_000_000, 9, 1)
}

/// Sum of the package times of lines `[0, n)`, and whether any was found.
pub open spec fn go_total(ls: Seq<Seq<char>>) -> (nat, bool)
    decreases ls.len(),
{
    if ls.len() == 0 {
        (0, false)
    } else {
        let (sum, found) = go_total(ls.drop_last());
        let t = trim(ls.last());
        if is_package_line(t) && package_secs(t) is Some {
            (min_nat(sum + package_secs(t)->0, MAX_NANOS as nat), true)
        } else {
            (sum, found)
        }
    }
}

proof fn lemma_go_total_capped(ls: Seq<Seq<char>>)
    ensures
        go_total(ls).0 <= MAX_NANOS,
    decreases ls.len(),
{
    if ls.len() > 0 {
        lemma_go_total_capped(ls.drop_last());
    }
}

/// The total time of `go test` output adds up over its package lines: the
/// total of two pieces of output one after the other is the sum of their
/// totals (capped at the largest duration), and a time was found in the
/// whole when one was found in either piece.
pub proof fn law_go_total_adds_up(a: Seq<Seq<char>>, b: Seq<Seq<char>>)
    ensures
        go_total(a + b).0 == min_nat(go_total(a).0 + go_total(b).0, MAX_NANOS as nat),
        go_total(a + b).1 == (go_total(a).1 || go_total(b).1),
    decreases b.len(),
{
    lemma_go_total_capped(a);
    if b.len() == 0 {
        assert(a + b =~= a);
    } else {
        law_go_total_adds_up(a, b.drop_last());
        assert((a + b).drop_last() =~= a + b.drop_last());
        assert((a + b).last() == b.last());
        lemma_go_total_capped(b.drop_last());
    }
}

/// A package result line contributes its time: the total of one such line
/// is the time it gives.
pub proof fn law_go_total_one_line(l: Seq<char>)
    requires
        is_package_line(trim(l)),
        package_secs(trim(l)) is Some,
    ensures
        go_total(seq![l]).1,
        go_total(seq![l]).0 == min_nat(package_secs(trim(l))->0, MAX_NANOS as nat),
{
    assert(seq![l].drop_last() =~= Seq::<Seq<char>>::empty());
    assert(seq![l].last() == l);
    assert(go_total(seq![l].drop_last()) == (0nat, false));
}

/// The run `go test -v` output describes (stdout and stderr joined by a
/// newline).
pub open spec fn go_run(stdout: Seq<char>, stderr: Seq<char>, exit_code: i32) -> RunView {
    let ls = lines(stdout + seq!['\n'] + stderr);
    let st = go_fold(ls, go_failures_from(ls, 0));
    let suites = if st.tests.len() > 0 {
        st.suites.push(SuiteView { name: if st.pkg.len() == 0 { "tests"@ } else { st.pkg }, tests: st.tests })
    } else {
        st.suites
    };
    let (sum, found) = go_total(ls);
    RunView {
        suites: non_empty_spec(suites, exit_code, "tests"@),
        duration: if found { sum } else { 0 },
        raw_exit_code: exit_code,
    }
}

struct GoParser {
    suites: Vec<TestSuite>,
    pkg: Vec<char>,
    tests: Vec<TestCase>,
}

impl GoParser {
    spec fn state(&self) -> GoState {
        GoState { suites: suites_view(self.suites@), pkg: self.pkg@, tests: cases_view(self.tests@) }
    }

    fn step(&mut self, line: &Vec<char>, fails: &Vec<(Vec<char>, Vec<char>)>)
        ensures
            final(self).state() == go_step(old(self).state(), line@, fails@.map_values(|p: (Vec<char>, Vec<char>)| (p.0@, p.1@))),
    {
        let t = trim_v(line);
        let status = if starts_with_str(&t, "--- PASS:") {
            Some(TestStatus::Passed)
        } else if starts_with_str(&t, "--- FAIL:") {
            Some(TestStatus::Failed)
        } else if starts_with_str(&t, "--- SKIP:") {
            Some(TestStatus::Skipped)
        } else {
            None
        };
        match status {
            Some(status) => {
                let pieces = split_char_v(&t, ':');
                let ghost pv = pieces@.map_values(|p: Vec<char>| p@);
                let rest = if pieces.len() > 1 {
                    assert(pieces@[1]@ == pv[1]);
                    trim_v(&pieces[1])
                } else {
                    Vec::new()
                };
                assert(pieces.len() <= 1 ==> rest@ =~= seq![]);
                let parts = words_v(&rest);
                let ghost wv = parts@.map_values(|p: Vec<char>| p@);
                let name = if parts.len() > 0 {
                    assert(parts@[0]@ == wv[0]);
                    slice(&parts[0], 0, parts[0].len())
                } else {
                    chars_of("unknown")
                };
                assert(parts.len() > 0 ==> name@ =~= wv[0]);
                let duration = if parts.len() > 1 {
                    assert(parts@[1]@ == wv[1]);
                    let mut cs: Vec<char> = Vec::new();
                    cs.push('(');
                    cs.push(')');
                    cs.push('s');
                    assert(cs@ =~= seq!['(', ')', 's']);
                    match parse_secs(&trim_any_v(&parts[1], &cs)) {
                        Some(d) => d,
                        None => Duration::zero(),
                    }
                } else {
                    Duration::zero()
                };
                let error = if status == TestStatus::Failed {
                    match crate::adapters::rust::last_message_pub(fails, &name) {
                        Some(m) => Some(TestError { message: string_of(&m), location: None }),
                        None => None,
                    }
                } else {
                    None
                };
                let case = TestCase { name: string_of(&name), status, duration, error };
                let ghost before = self.tests@;
                self.tests.push(case);
                assert(cases_view(self.tests@) =~= cases_view(before).push(case@));
            },
            None => {
                if (starts_with_str(&t, "ok") || starts_with_str(&t, "FAIL")) && crate::text::contains_char(&t, '\t') {
                    let parts = split_char_v(&t, '\t');
                    let ghost pv = parts@.map_values(|p: Vec<char>| p@);
                    let pkg = if parts.len() > 1 {
                        assert(parts@[1]@ == pv[1]);
                        trim_v(&parts[1])
                    } else {
                        Vec::new()
                    };
                    assert(parts.len() <= 1 ==> pkg@ =~= seq![]);
                    if self.tests.len() > 0 {
                        let mut tests: Vec<TestCase> = Vec::new();
                        std::mem::swap(&mut tests, &mut self.tests);
                        let sname = string_of(&pkg);
                        let s = TestSuite { name: sname, tests };
                        let ghost before = self.suites@;
                        self.suites.push(s);
                        assert(suites_view(self.suites@) =~= suites_view(before).push(s@));
                    }
                    self.pkg = pkg;
                    assert(cases_view(self.tests@) =~= seq![]);
                }
            },
        }
    }
}

fn package_secs_v(t: &Vec<char>) -> (r: Option<Duration>)
    ensures
        match r {
            Some(d) => package_secs(t@) == Some(d.ns()),
            None => package_secs(t@) is None,
        },
{
    let parts = split_char_v(t, '\t');
    let ghost pv = parts@.map_values(|p: Vec<char>| p@);
    proof {
        crate::text::lemma_split_nonempty(t@, '\t');
    }
    let last = &parts[parts.len() - 1];
    assert(last@ == pv.last());
    parse_secs(&trim_end_char_v(&trim_v(last), 's'))
}

fn go_total_v(ls: &Vec<Vec<char>>) -> (r: (Duration, bool))
    ensures
        (r.0.ns(), r.1) == go_total(ls@.map_values(|l: Vec<char>| l@)),
{
    let ghost lv = ls@.map_values(|l: Vec<char>| l@);
    let mut total = Duration::zero();
    let mut found = false;
    let mut i: usize = 0;
    while i < ls.len()
        invariant
            i <= ls.len(),
            lv == ls@.map_values(|l: Vec<char>| l@),
            (total.ns(), found) == go_total(lv.take(i as int)),
        decreases ls.len() - i,
    {
        assert(lv.take(i + 1).drop_last() =~= lv.take(i as int));
        assert(lv.take(i + 1).last() == ls@[i as int]@);
        let t = trim_v(&ls[i]);
        if (starts_with_str(&t, "ok") || starts_with_str(&t, "FAIL")) && crate::text::contains_char(&t, '\t') {
            if let Some(d) = package_secs_v(&t) {
                total = total.saturating_add(d);
                found = true;
            }
        }
        i += 1;
    }
    assert(lv.take(ls.len() as int) =~= lv);
    (total, found)
}

/// Total of the times on package result lines, if any line has one.
pub fn parse_go_total_duration(output: &str) -> (r: Option<Duration>)
    ensures
        match r {
            Some(d) => go_total(lines(output@)).1 && d.ns() == go_total(lines(output@)).0,
            None => !go_total(lines(output@)).1,
        },
{
    let ls = crate::text::lines_of(output);
    assert(ls@.map_values(|l: Vec<char>| l@) =~= lines(output@));
    let (total, found) = go_total_v(&ls);
    if found { Some(total) } else { None }
}

impl GoAdapter {
    /// Parse `go test -v` output into a run.
    pub fn parse_output(&self, stdout: &str, stderr: &str, exit_code: i32) -> (r: TestRunResult)
        ensures
            r@ == go_run(stdout@, stderr@, exit_code),
    {
        let mut combined = chars_of(stdout);
        combined.push('\n');
        crate::text::append_str(&mut combined, stderr);
        assert(combined@ =~= stdout@ + seq!['\n'] + stderr@);
        let ls = lines_v(&combined);
        let ghost lv = ls@.map_values(|l: Vec<char>| l@);
        assert(lv =~= lines(stdout@ + seq!['\n'] + stderr@));
        let fails = parse_go_failures(&ls);
        let ghost fv = fails@.map_values(|p: (Vec<char>, Vec<char>)| (p.0@, p.1@));
        let mut p = GoParser { suites: Vec::new(), pkg: Vec::new(), tests: Vec::new() };
        assert(suites_view(p.suites@) =~= seq![]);
        assert(cases_view(p.tests@) =~= seq![]);
        let mut i: usize = 0;
        while i < ls.len()
            invariant
                i <= ls.len(),
                lv == ls@.map_values(|l: Vec<char>| l@),
                fv == fails@.map_values(|p: (Vec<char>, Vec<char>)| (p.0@, p.1@)),
                p.state() == go_fold(lv.take(i as int), fv),
            decreases ls.len() - i,
        {
            assert(lv.take(i + 1).drop_last() =~= lv.take(i as int));
            assert(lv.take(i + 1).last() == ls@[i as int]@);
            p.step(&ls[i], &fails);
            i += 1;
        }
        assert(lv.take(ls.len() as int) =~= lv);
        if p.tests.len() > 0 {
            let mut tests: Vec<TestCase> = Vec::new();
            std::mem::swap(&mut tests, &mut p.tests);
            let sname = if p.pkg.len() == 0 { string_of(&chars_of("tests")) } else { string_of(&p.pkg) };
            let s = TestSuite { name: sname, tests };
            let ghost before = p.suites@;
            p.suites.push(s);
            assert(suites_view(p.suites@) =~= suites_view(before).push(s@));
        }
        let mut suites = p.suites;
        ensure_non_empty(&mut suites, exit_code, "tests");
        let (total, found) = go_total_v(&ls);
        let duration = if found { total } else { Duration::zero() };
        TestRunResult { suites, duration, raw_exit_code: exit_code }
    }
}

} // verus!
