//! ExUnit (`mix test`) output, plain and `--trace`.

use vstd::prelude::*;
use crate::adapters::{
    CaseView, ErrorView, RunView, SuiteView, TestCase, TestError, TestRunResult, TestStatus,
    TestSuite, cases_view, opt_str_view, suites_view,
};
use crate::adapters::python::{counted_suite, counted_suite_v, first_piece};
use crate::adapters::util::{chars_in_bytes, chars_in_bytes_ok, strip_suffix, strip_suffix_v, take_bytes, utf8_len, utf8_len_v};
use crate::duration::{Duration, decimal_nanos, parse_millis, parse_secs};
use crate::num::{fmt_usize, parse_usize, parse_usize_spec};
use crate::text::{
    append, append_str, chars_of, contains, contains_char, contains_str, find, find_char,
    find_char_v, find_str, is_digit, join, join_v, lines, lines_v, num_prefix, num_prefix_len,
    occurs_at, rfind, slice, split_char, split_char_v, starts_with, starts_with_str, string_of,
    trim, trim_end_char, trim_end_char_v, trim_v, words, words_v,
};

verus! {

/// Adapter for Elixir projects tested with ExUnit.
pub struct ElixirAdapter;

impl ElixirAdapter {
    pub fn new() -> (a: Self) {
        ElixirAdapter
    }

    /// Name of this adapter for display.
    pub fn name(&self) -> (r: &'static str)
        ensures
            r@ == "Elixir"@,
    {
        "Elixir"
    }
}

impl Default for ElixirAdapter {
    fn default() -> (a: Self) {
        ElixirAdapter
    }
}

// ---------------------------------------------------------------------------
// Failure blocks
// ---------------------------------------------------------------------------

/// A failure block of ExUnit output.
pub struct ExUnitFailure {
    pub name: String,
    pub module: String,
    pub message: String,
    pub location: Option<String>,
}

pub struct FailureView {
    pub name: Seq<char>,
    pub module: Seq<char>,
    pub message: Seq<char>,
    pub location: Option<Seq<char>>,
}

impl View for ExUnitFailure {
    type V = FailureView;

    open spec fn view(&self) -> FailureView {
        FailureView {
            name: self.name@,
            module: self.module@,
            message: self.message@,
            location: opt_str_view(self.location),
        }
    }
}

pub open spec fn failures_view(fs: Seq<ExUnitFailure>) -> Seq<FailureView> {
    fs.map_values(|f: ExUnitFailure| f@)
}

/// `(name, module)` of a header such as `1) test adds (MyApp.CalcTest)`: the
/// line starts with a digit and holds `) test ` (or `) doctest `); the
/// module is in the last parentheses after it.
pub open spec fn failure_header(l: Seq<char>) -> Option<(Seq<char>, Seq<char>)> {
    if l.len() == 0 || !is_digit(l[0]) {
        None
    } else {
        let marker = if contains(l, ") test "@) {
            Some(") test "@)
        } else if contains(l, ") doctest "@) {
            Some(") doctest "@)
        } else {
            None
        };
        match marker {
            None => None,
            Some(m) => {
                let after = l.skip(find(l, m)->0 + m.len());
                match rfind(after, seq!['(']) {
                    Some(ps) => Some((trim(after.take(ps)), trim_end_char(after.skip(ps + 1), ')'))),
                    None => Some((trim(after), seq![])),
                }
            },
        }
    }
}

fn header_after(l: &Vec<char>, marker: &str) -> (r: Option<(Vec<char>, Vec<char>)>)
    requires
        contains(l@, marker@),
    ensures
        match r {
            Some((n, m)) => {
                let after = l@.skip(find(l@, marker@)->0 + marker@.len());
                match rfind(after, seq!['(']) {
                    Some(ps) => n@ == trim(after.take(ps)) && m@ == trim_end_char(after.skip(ps + 1), ')'),
                    None => n@ == trim(after) && m@ == Seq::<char>::empty(),
                }
            },
            None => false,
        },
{
    let mv = chars_of(marker);
    match find_str(l, marker) {
        Some(idx) => {
            let k = mv.len();
            let ln = l.len();
            let after = slice(l, idx + k, ln);
            assert(after@ =~= l@.skip(find(l@, marker@)->0 + marker@.len()));
            let mut open: Vec<char> = Vec::new();
            open.push('(');
            assert(open@ =~= seq!['(']);
            match crate::text::rfind_v(&after, &open) {
                Some(ps) => {
                    let an = after.len();
                    let head = slice(&after, 0, ps);
                    assert(head@ =~= after@.take(ps as int));
                    let tail = slice(&after, ps + 1, an);
                    assert(tail@ =~= after@.skip(ps + 1));
                    Some((trim_v(&head), trim_end_char_v(&tail, ')')))
                },
                None => {
                    let e: Vec<char> = Vec::new();
                    assert(e@ =~= Seq::<char>::empty());
                    Some((trim_v(&after), e))
                },
            }
        },
        None => None,
    }
}

fn failure_header_v(l: &Vec<char>) -> (r: Option<(Vec<char>, Vec<char>)>)
    ensures
        match r {
            Some((n, m)) => failure_header(l@) == Some((n@, m@)),
            None => failure_header(l@) is None,
        },
{
    if l.len() == 0 || !crate::text::is_ascii_digit(l[0]) {
        return None;
    }
    if contains_str(l, ") test ") {
        header_after(l, ") test ")
    } else if contains_str(l, ") doctest ") {
        header_after(l, ") doctest ")
    } else {
        None
    }
}

/// Parse a failure header like `1) test adds two numbers (MyApp.CalculatorTest)`
/// into the test name and the module.
pub fn parse_exunit_failure_header(line: &str) -> (r: Option<(String, String)>)
    ensures
        match r {
            Some((n, m)) => failure_header(line@) == Some((n@, m@)),
            None => failure_header(line@) is None,
        },
{
    match failure_header_v(&chars_of(line)) {
        Some((n, m)) => Some((string_of(&n), string_of(&m))),
        None => None,
    }
}

/// State of the failure-block reader.
pub struct FailState {
    pub out: Seq<FailureView>,
    pub name: Option<Seq<char>>,
    pub module: Seq<char>,
    pub msg: Seq<Seq<char>>,
    pub loc: Option<Seq<char>>,
    pub inside: bool,
    pub done: bool,
}

/// The failure recorded for the current block.
pub open spec fn record(name: Seq<char>, module: Seq<char>, msg: Seq<Seq<char>>, loc: Option<Seq<char>>) -> FailureView {
    FailureView { name: name, module: module, message: trim(join(msg, "\n"@)), location: loc }
}

/// `st` with its open block, if any, recorded and closed.
pub open spec fn close_block(st: FailState) -> FailState {
    match st.name {
        Some(n) => FailState {
            out: st.out.push(record(n, st.module, st.msg, st.loc)),
            name: None,
            loc: None,
            ..st
        },
        None => st,
    }
}

/// Effect of one (trimmed) line: a header opens a block; inside a block a
/// `test/` or `lib/` line is the location, a blank line after some message
/// ends the block, `Finished in` ends the reading, other lines are message.
pub open spec fn fail_step(st: FailState, t: Seq<char>) -> FailState {
    if st.done {
        st
    } else {
        match failure_header(t) {
            Some((n, m)) => {
                let c = close_block(st);
                FailState { out: c.out, name: Some(n), module: m, msg: seq![], loc: None, inside: true, done: false }
            },
            None => if !st.inside {
                st
            } else if starts_with(t, "test/"@) || starts_with(t, "lib/"@) {
                FailState { loc: Some(t), ..st }
            } else if t.len() == 0 && st.msg.len() > 0 {
                FailState { inside: false, msg: seq![], ..close_block(st) }
            } else if starts_with(t, "Finished in"@) {
                FailState { done: true, ..close_block(st) }
            } else if t.len() > 0 {
                FailState { msg: st.msg.push(t), ..st }
            } else {
                st
            },
        }
    }
}

pub open spec fn fail_fold(ls: Seq<Seq<char>>) -> FailState
    decreases ls.len(),
{
    if ls.len() == 0 {
        FailState { out: seq![], name: None, module: seq![], msg: seq![], loc: None, inside: false, done: false }
    } else {
        fail_step(fail_fold(ls.drop_last()), trim(ls.last()))
    }
}

/// The failure blocks of ExUnit output, in order.
pub open spec fn exunit_failures(ls: Seq<Seq<char>>) -> Seq<FailureView> {
    close_block(fail_fold(ls)).out
}

struct FailReader {
    out: Vec<ExUnitFailure>,
    name: Option<Vec<char>>,
    module: Vec<char>,
    msg: Vec<Vec<char>>,
    loc: Option<Vec<char>>,
    inside: bool,
    done: bool,
}

pub open spec fn opt_chars(o: Option<Vec<char>>) -> Option<Seq<char>> {
    match o {
        Some(v) => Some(v@),
        None => None,
    }
}

impl FailReader {
    spec fn state(&self) -> FailState {
        FailState {
            out: failures_view(self.out@),
            name: opt_chars(self.name),
            module: self.module@,
            msg: self.msg@.map_values(|m: Vec<char>| m@),
            loc: opt_chars(self.loc),
            inside: self.inside,
            done: self.done,
        }
    }

    fn close(&mut self)
        ensures
            final(self).state() == close_block(old(self).state()),
    {
        let name = self.name.take();
        match name {
            Some(n) => {
                let sep = chars_of("\n");
                let message = trim_v(&join_v(&self.msg, &sep));
                let loc = self.loc.take();
                let location = match loc {
                    Some(l) => Some(string_of(&l)),
                    None => None,
                };
                let f = ExUnitFailure {
                    name: string_of(&n),
                    module: string_of(&self.module),
                    message: string_of(&message),
                    location,
                };
                let ghost before = self.out@;
                self.out.push(f);
                assert(failures_view(self.out@) =~= failures_view(before).push(f@));
            },
            None => {},
        }
    }

    fn step(&mut self, t: &Vec<char>)
        ensures
            final(self).state() == fail_step(old(self).state(), t@),
    {
        if self.done {
            return;
        }
        match failure_header_v(t) {
            Some((n, m)) => {
                self.close();
                self.name = Some(n);
                self.module = m;
                self.msg = Vec::new();
                self.loc = None;
                self.inside = true;
                assert(self.msg@.map_values(|x: Vec<char>| x@) =~= seq![]);
            },
            None => {
                if !self.inside {
                } else if starts_with_str(t, "test/") || starts_with_str(t, "lib/") {
                    let c = slice(t, 0, t.len());
                    assert(c@ =~= t@);
                    self.loc = Some(c);
                } else if t.len() == 0 && self.msg.len() > 0 {
                    self.close();
                    self.inside = false;
                    self.msg = Vec::new();
                    assert(self.msg@.map_values(|x: Vec<char>| x@) =~= seq![]);
                } else if starts_with_str(t, "Finished in") {
                    self.close();
                    self.done = true;
                } else if t.len() > 0 {
                    let ghost before = self.msg@.map_values(|x: Vec<char>| x@);
                    let c = slice(t, 0, t.len());
                    assert(c@ =~= t@);
                    self.msg.push(c);
                    assert(self.msg@.map_values(|x: Vec<char>| x@) =~= before.push(t@));
                }
            },
        }
    }
}

fn exunit_failures_v(ls: &Vec<Vec<char>>) -> (r: Vec<ExUnitFailure>)
    ensures
        failures_view(r@) == exunit_failures(ls@.map_values(|l: Vec<char>| l@)),
{
    let ghost lv = ls@.map_values(|l: Vec<char>| l@);
    let mut rd = FailReader {
        out: Vec::new(),
        name: None,
        module: Vec::new(),
        msg: Vec::new(),
        loc: None,
        inside: false,
        done: false,
    };
    assert(failures_view(rd.out@) =~= seq![]);
    assert(rd.msg@.map_values(|x: Vec<char>| x@) =~= seq![]);
    assert(rd.module@ =~= seq![]);
    let mut i: usize = 0;
    while i < ls.len()
        invariant
            i <= ls.len(),
            lv == ls@.map_values(|l: Vec<char>| l@),
            rd.state() == fail_fold(lv.take(i as int)),
        decreases ls.len() - i,
    {
        assert(lv.take(i + 1).drop_last() =~= lv.take(i as int));
        assert(lv.take(i + 1).last() == ls@[i as int]@);
        let t = trim_v(&ls[i]);
        rd.step(&t);
        i += 1;
    }
    assert(lv.take(ls.len() as int) =~= lv);
    rd.close();
    rd.out
}

/// Parse the failure blocks of ExUnit output.
pub fn parse_exunit_failures(output: &str) -> (r: Vec<ExUnitFailure>)
    ensures
        failures_view(r@) == exunit_failures(lines(output@)),
{
    let ls = crate::text::lines_of(output);
    assert(ls@.map_values(|l: Vec<char>| l@) =~= lines(output@));
    exunit_failures_v(&ls)
}

// ---------------------------------------------------------------------------
// `--trace` output
// ---------------------------------------------------------------------------

/// Name, duration and status of a trace line after `* test `:
/// `greets the world (0.50ms) [L#4]`. An `(excluded)` test is skipped; the
/// milliseconds in the first parentheses give the duration; a trailing
/// `[L#n]` is dropped.
pub open spec fn trace_line(s: Seq<char>) -> (Seq<char>, nat, TestStatus) {
    if contains(s, "(excluded)"@) {
        (trim(first_piece(s, "(excluded)"@)), 0, TestStatus::Skipped)
    } else {
        let (name0, dur) = match find_char(s, '(') {
            Some(ps) => match find_char(s.skip(ps), ')') {
                Some(pe) => {
                    let d = match strip_suffix(s.subrange(ps + 1, ps + pe), "ms"@) {
                        Some(num) => match decimal_nanos(num, 1_000_000, 6, 1) {
                            Some(d) => d,
                            None => 0,
                        },
                        None => 0,
                    };
                    (trim(s.take(ps)), d)
                },
                None => (s, 0),
            },
            None => (s, 0),
        };
        let name = match rfind(name0, seq!['[']) {
            Some(b) => trim(name0.take(b)),
            None => name0,
        };
        (name, dur, if contains(s, "** (ExUnit.AssertionError)"@) { TestStatus::Failed } else { TestStatus::Passed })
    }
}

fn trace_line_v(s: &Vec<char>) -> (r: (Vec<char>, Duration, TestStatus))
    ensures
        (r.0@, r.1.ns(), r.2) == trace_line(s@),
{
    if contains_str(s, "(excluded)") {
        let sep = chars_of("(excluded)");
        let head = crate::adapters::python::first_piece_v(s, &sep);
        return (trim_v(&head), Duration::zero(), TestStatus::Skipped);
    }
    let mut name = slice(s, 0, s.len());
    assert(name@ =~= s@);
    let mut duration = Duration::zero();
    match find_char_v(s, '(') {
        Some(ps) => {
            let n = s.len();
            let rest = slice(s, ps, n);
            assert(rest@ =~= s@.skip(ps as int));
            match find_char_v(&rest, ')') {
                Some(pe) => {
                    let ts = slice(s, ps + 1, ps + pe);
                    match strip_suffix_v(&ts, "ms") {
                        Some(num) => {
                            match parse_millis(&num) {
                                Some(d) => {
                                    duration = d;
                                },
                                None => {},
                            }
                        },
                        None => {},
                    }
                    let head = slice(s, 0, ps);
                    assert(head@ =~= s@.take(ps as int));
                    name = trim_v(&head);
                },
                None => {},
            }
        },
        None => {},
    }
    let mut open: Vec<char> = Vec::new();
    open.push('[');
    assert(open@ =~= seq!['[']);
    match crate::text::rfind_v(&name, &open) {
        Some(b) => {
            let head = slice(&name, 0, b);
            assert(head@ =~= name@.take(b as int));
            name = trim_v(&head);
        },
        None => {},
    }
    let status = if contains_str(s, "** (ExUnit.AssertionError)") { TestStatus::Failed } else { TestStatus::Passed };
    (name, duration, status)
}

/// Parse a trace line after `* test ` into name, duration and status.
pub fn parse_trace_test_line(s: &str) -> (r: (String, Duration, TestStatus))
    ensures
        (r.0@, r.1.ns(), r.2) == trace_line(s@),
{
    let (n, d, st) = trace_line_v(&chars_of(s));
    (string_of(&n), d, st)
}

/// `a` sorts before `b` (by character, as `str` comparison does).
pub open spec fn lex_lt(a: Seq<char>, b: Seq<char>) -> bool
    decreases a.len(),
{
    if a.len() == 0 {
        b.len() > 0
    } else if b.len() == 0 {
        false
    } else if a[0] != b[0] {
        (a[0] as u32) < (b[0] as u32)
    } else {
        lex_lt(a.drop_first(), b.drop_first())
    }
}

/// First position from `j` on of a group named `key`.
pub open spec fn group_index_from(gs: Seq<SuiteView>, key: Seq<char>, j: int) -> Option<int>
    decreases gs.len() - j,
{
    if j < 0 || j >= gs.len() {
        None
    } else if gs[j].name == key {
        Some(j)
    } else {
        group_index_from(gs, key, j + 1)
    }
}

/// First position from `j` on of a group whose name sorts after `key`, or
/// the end.
pub open spec fn sorted_pos_from(gs: Seq<SuiteView>, key: Seq<char>, j: int) -> int
    decreases gs.len() - j,
{
    if j < 0 || j >= gs.len() {
        gs.len() as int
    } else if lex_lt(key, gs[j].name) {
        j
    } else {
        sorted_pos_from(gs, key, j + 1)
    }
}

/// `c` added to the group of `key`, a new group being placed in name order.
pub open spec fn group_add(gs: Seq<SuiteView>, key: Seq<char>, c: CaseView) -> Seq<SuiteView> {
    match group_index_from(gs, key, 0) {
        Some(j) => gs.update(j, SuiteView { name: key, tests: gs[j].tests.push(c) }),
        None => gs.insert(sorted_pos_from(gs, key, 0), SuiteView { name: key, tests: seq![c] }),
    }
}

pub struct TraceState {
    pub groups: Seq<SuiteView>,
    pub module: Seq<char>,
}

/// A module header such as `MyApp.CalculatorTest [test/calculator_test.exs]`.
pub open spec fn is_module_header(t: Seq<char>) -> bool {
    !starts_with(t, "*"@) && t.len() > 0 && contains(t, seq!['[']) && contains(t, "test/"@)
}

/// Effect of one (trimmed) line: a module header sets the module; a
/// `* test ` or `* doctest ` line adds a case to the module's group.
pub open spec fn trace_step(st: TraceState, t: Seq<char>) -> TraceState {
    if is_module_header(t) {
        TraceState { groups: st.groups, module: trim(t.take(find_char(t, '[')->0)) }
    } else if starts_with(t, "* test "@) {
        let (n, d, s) = trace_line(t.skip("* test "@.len() as int));
        TraceState {
            groups: group_add(st.groups, st.module, CaseView { name: n, status: s, duration: d, error: None }),
            module: st.module,
        }
    } else if starts_with(t, "* doctest "@) {
        let (n, d, s) = trace_line(t.skip("* doctest "@.len() as int));
        TraceState {
            groups: group_add(st.groups, st.module, CaseView { name: "doctest "@ + n, status: s, duration: d, error: None }),
            module: st.module,
        }
    } else {
        st
    }
}

pub open spec fn trace_fold(ls: Seq<Seq<char>>) -> TraceState
    decreases ls.len(),
{
    if ls.len() == 0 {
        TraceState { groups: seq![], module: "tests"@ }
    } else {
        trace_step(trace_fold(ls.drop_last()), trim(ls.last()))
    }
}

/// The suites of `--trace` output: one per module, in name order, each with
/// its cases in order of appearance.
pub open spec fn exunit_trace(ls: Seq<Seq<char>>) -> Seq<SuiteView> {
    trace_fold(ls).groups
}

fn lex_lt_v(a: &Vec<char>, b: &Vec<char>) -> (r: bool)
    ensures
        r == lex_lt(a@, b@),
{
    let mut i: usize = 0;
    assert(a@.skip(0) =~= a@);
    assert(b@.skip(0) =~= b@);
    while i < a.len() && i < b.len() && a[i] == b[i]
        invariant
            i <= a.len(),
            i <= b.len(),
            lex_lt(a@, b@) == lex_lt(a@.skip(i as int), b@.skip(i as int)),
        decreases a.len() - i,
    {
        assert(a@.skip(i as int).drop_first() =~= a@.skip(i + 1));
        assert(b@.skip(i as int).drop_first() =~= b@.skip(i + 1));
        i += 1;
    }
    if i == a.len() {
        i < b.len()
    } else if i == b.len() {
        false
    } else {
        (a[i] as u32) < (b[i] as u32)
    }
}

pub(crate) fn group_add_v(gs: &mut Vec<TestSuite>, key: &Vec<char>, c: TestCase)
    ensures
        suites_view(final(gs)@) == group_add(suites_view(old(gs)@), key@, c@),
{
    let ghost gv = suites_view(gs@);
    let mut j: usize = 0;
    while j < gs.len()
        invariant
            j <= gs.len(),
            gv == suites_view(gs@),
            gv == suites_view(old(gs)@),
            group_index_from(gv, key@, 0) == group_index_from(gv, key@, j as int),
        decreases gs.len() - j,
    {
        let nm = crate::text::chars_of_string(&gs[j].name);
        if crate::text::eq(&nm, key) {
            assert(gv[j as int].name == key@);
            assert(group_index_from(gv, key@, j as int) == Some(j as int));
            let mut s = gs.remove(j);
            assert(s@ == gv[j as int]);
            let ghost mid = gs@;
            s.tests.push(c);
            assert(cases_view(s.tests@) =~= gv[j as int].tests.push(c@));
            gs.insert(j, s);
            assert(suites_view(gs@) =~= gv.update(j as int, SuiteView { name: key@, tests: gv[j as int].tests.push(c@) }));
            return;
        }
        j += 1;
    }
    let mut p: usize = 0;
    while p < gs.len() && !lex_lt_v(key, &crate::text::chars_of_string(&gs[p].name))
        invariant
            p <= gs.len(),
            gv == suites_view(gs@),
            gv == suites_view(old(gs)@),
            sorted_pos_from(gv, key@, 0) == sorted_pos_from(gv, key@, p as int),
        decreases gs.len() - p,
    {
        p += 1;
    }
    let mut tests: Vec<TestCase> = Vec::new();
    tests.push(c);
    assert(cases_view(tests@) =~= seq![c@]);
    let s = TestSuite { name: string_of(key), tests };
    gs.insert(p, s);
    assert(suites_view(gs@) =~= gv.insert(p as int, SuiteView { name: key@, tests: seq![c@] }));
}

fn exunit_trace_v(ls: &Vec<Vec<char>>) -> (r: Vec<TestSuite>)
    ensures
        suites_view(r@) == exunit_trace(ls@.map_values(|l: Vec<char>| l@)),
{
    let ghost lv = ls@.map_values(|l: Vec<char>| l@);
    let mut groups: Vec<TestSuite> = Vec::new();
    let mut module = chars_of("tests");
    assert(suites_view(groups@) =~= seq![]);
    let mut i: usize = 0;
    while i < ls.len()
        invariant
            i <= ls.len(),
            lv == ls@.map_values(|l: Vec<char>| l@),
            (TraceState { groups: suites_view(groups@), module: module@ }) == trace_fold(lv.take(i as int)),
        decreases ls.len() - i,
    {
        assert(lv.take(i + 1).drop_last() =~= lv.take(i as int));
        assert(lv.take(i + 1).last() == ls@[i as int]@);
        let t = trim_v(&ls[i]);
        let n = t.len();
        if !starts_with_str(&t, "*") && n > 0 && contains_char(&t, '[') && contains_str(&t, "test/") {
            match find_char_v(&t, '[') {
                Some(b) => {
                    let head = slice(&t, 0, b);
                    assert(head@ =~= t@.take(b as int));
                    module = trim_v(&head);
                },
                None => {},
            }
        } else if starts_with_str(&t, "* test ") {
            let k = chars_of("* test ").len();
            let rest = slice(&t, k, n);
            assert(rest@ =~= t@.skip("* test "@.len() as int));
            let (nm, d, st) = trace_line_v(&rest);
            let c = TestCase { name: string_of(&nm), status: st, duration: d, error: None };
            group_add_v(&mut groups, &module, c);
        } else if starts_with_str(&t, "* doctest ") {
            let k = chars_of("* doctest ").len();
            let rest = slice(&t, k, n);
            assert(rest@ =~= t@.skip("* doctest "@.len() as int));
            let (nm, d, st) = trace_line_v(&rest);
            let mut full = chars_of("doctest ");
            append(&mut full, &nm);
            let c = TestCase { name: string_of(&full), status: st, duration: d, error: None };
            group_add_v(&mut groups, &module, c);
        }
        i += 1;
    }
    assert(lv.take(ls.len() as int) =~= lv);
    groups
}

/// Parse ExUnit `--trace` output into one suite per module.
pub fn parse_exunit_trace(output: &str) -> (r: Vec<TestSuite>)
    ensures
        suites_view(r@) == exunit_trace(lines(output@)),
{
    let ls = crate::text::lines_of(output);
    assert(ls@.map_values(|l: Vec<char>| l@) =~= lines(output@));
    exunit_trace_v(&ls)
}

// ---------------------------------------------------------------------------
// Summary line
// ---------------------------------------------------------------------------

/// Counts `(tests, failures, excluded)` after one comma-separated part such
/// as `"3 doctests"`: test and doctest counts add up, the others are set.
pub open spec fn ex_part(acc: (int, int, int), part: Seq<char>) -> (int, int, int) {
    let w = words(trim(part));
    if w.len() >= 2 {
        let count: int = match parse_usize_spec(w[0]) {
            Some(n) => n as int,
            None => 0,
        };
        if starts_with(w[1], "test"@) || starts_with(w[1], "doctest"@) {
            (acc.0 + count, acc.1, acc.2)
        } else if starts_with(w[1], "failure"@) {
            (acc.0, count, acc.2)
        } else if starts_with(w[1], "excluded"@) || starts_with(w[1], "skipped"@) {
            (acc.0, acc.1, count)
        } else {
            acc
        }
    } else {
        acc
    }
}

pub open spec fn ex_parts(ps: Seq<Seq<char>>) -> (int, int, int)
    decreases ps.len(),
{
    if ps.len() == 0 {
        (0, 0, 0)
    } else {
        ex_part(ex_parts(ps.drop_last()), ps.last())
    }
}

/// A line such as `3 doctests, 5 tests, 1 failure, 1 excluded`.
pub open spec fn is_ex_summary(t: Seq<char>) -> bool {
    (contains(t, "test"@) || contains(t, "doctest"@)) && contains(t, "failure"@)
}

pub open spec fn line_counts(t: Seq<char>) -> (int, int, int) {
    ex_parts(split_char(t, ','))
}

pub open spec fn counts_something(c: (int, int, int)) -> bool {
    c.0 > 0 || c.1 > 0
}

/// The counts of the first summary line that counts a test or a failure.
pub open spec fn ex_summary(ls: Seq<Seq<char>>) -> Option<(int, int, int)>
    decreases ls.len(),
{
    if ls.len() == 0 {
        None
    } else {
        let t = trim(ls[0]);
        if is_ex_summary(t) && counts_something(line_counts(t)) {
            Some(line_counts(t))
        } else {
            ex_summary(ls.drop_first())
        }
    }
}

/// The sums formed while reading summary lines, up to the one that is used,
/// fit in a machine word.
pub open spec fn ex_summary_fits(ls: Seq<Seq<char>>) -> bool
    decreases ls.len(),
{
    if ls.len() == 0 {
        true
    } else {
        let t = trim(ls[0]);
        if is_ex_summary(t) {
            let c = line_counts(t);
            c.0 <= usize::MAX && if counts_something(c) {
                c.1 + c.2 <= usize::MAX
            } else {
                ex_summary_fits(ls.drop_first())
            }
        } else {
            ex_summary_fits(ls.drop_first())
        }
    }
}

/// The suite of a run without trace lines: from the summary, passing cases
/// being the tests that neither failed nor were excluded.
pub open spec fn ex_summary_suite(ls: Seq<Seq<char>>, exit_code: i32) -> SuiteView {
    match ex_summary(ls) {
        Some(c) => counted_suite(
            if c.0 >= c.1 + c.2 { (c.0 - (c.1 + c.2)) as nat } else { 0 },
            c.1 as nat,
            c.2 as nat,
            "excluded_test_"@,
            exit_code,
        ),
        None => counted_suite(0, 0, 0, "excluded_test_"@, exit_code),
    }
}

proof fn lemma_ex_parts(ps: Seq<Seq<char>>, j: int)
    requires
        0 <= j <= ps.len(),
    ensures
        ex_parts(ps.take(j)).0 <= ex_parts(ps).0,
        ex_parts(ps).0 >= 0,
        ex_parts(ps).1 >= 0,
        ex_parts(ps).2 >= 0,
    decreases ps.len(),
{
    if ps.len() > 0 {
        if j == ps.len() {
            assert(ps.take(j) =~= ps);
        } else {
            assert(ps.drop_last().take(j) =~= ps.take(j));
        }
        lemma_ex_parts(ps.drop_last(), if j == ps.len() { 0 } else { j });
    }
}

fn ex_part_v(acc: (usize, usize, usize), part: &Vec<char>, Ghost(bound): Ghost<int>) -> (r: (usize, usize, usize))
    requires
        ex_part((acc.0 as int, acc.1 as int, acc.2 as int), part@).0 <= bound <= usize::MAX,
    ensures
        (r.0 as int, r.1 as int, r.2 as int) == ex_part((acc.0 as int, acc.1 as int, acc.2 as int), part@),
{
    let w = words_v(&trim_v(part));
    let ghost wv = w@.map_values(|x: Vec<char>| x@);
    if w.len() >= 2 {
        assert(w@[0]@ == wv[0]);
        assert(w@[1]@ == wv[1]);
        let count: usize = match parse_usize(&w[0]) {
            Some(n) => n,
            None => 0,
        };
        if starts_with_str(&w[1], "test") || starts_with_str(&w[1], "doctest") {
            (acc.0 + count, acc.1, acc.2)
        } else if starts_with_str(&w[1], "failure") {
            (acc.0, count, acc.2)
        } else if starts_with_str(&w[1], "excluded") || starts_with_str(&w[1], "skipped") {
            (acc.0, acc.1, count)
        } else {
            acc
        }
    } else {
        acc
    }
}

fn line_counts_v(t: &Vec<char>) -> (r: (usize, usize, usize))
    requires
        line_counts(t@).0 <= usize::MAX,
    ensures
        (r.0 as int, r.1 as int, r.2 as int) == line_counts(t@),
{
    let parts = split_char_v(t, ',');
    let ghost pv = parts@.map_values(|x: Vec<char>| x@);
    let mut acc: (usize, usize, usize) = (0, 0, 0);
    let mut j: usize = 0;
    while j < parts.len()
        invariant
            j <= parts.len(),
            pv == parts@.map_values(|x: Vec<char>| x@),
            pv == split_char(t@, ','),
            ex_parts(pv).0 <= usize::MAX,
            (acc.0 as int, acc.1 as int, acc.2 as int) == ex_parts(pv.take(j as int)),
        decreases parts.len() - j,
    {
        assert(pv.take(j + 1).drop_last() =~= pv.take(j as int));
        assert(pv.take(j + 1).last() == parts@[j as int]@);
        proof {
            lemma_ex_parts(pv, j + 1);
        }
        acc = ex_part_v(acc, &parts[j], Ghost(ex_parts(pv).0));
        j += 1;
    }
    assert(pv.take(parts.len() as int) =~= pv);
    acc
}

/// The counts of a summary line, or `None` when the tests overflow a
/// machine word.
fn line_counts_checked_v(t: &Vec<char>) -> (r: Option<(usize, usize, usize)>)
    ensures
        r is None <==> line_counts(t@).0 > usize::MAX,
        r matches Some(c) ==> (c.0 as int, c.1 as int, c.2 as int) == line_counts(t@),
{
    let parts = split_char_v(t, ',');
    let ghost pv = parts@.map_values(|x: Vec<char>| x@);
    let mut acc: (usize, usize, usize) = (0, 0, 0);
    let mut j: usize = 0;
    while j < parts.len()
        invariant
            j <= parts.len(),
            pv == parts@.map_values(|x: Vec<char>| x@),
            pv == split_char(t@, ','),
            (acc.0 as int, acc.1 as int, acc.2 as int) == ex_parts(pv.take(j as int)),
        decreases parts.len() - j,
    {
        assert(pv.take(j + 1).drop_last() =~= pv.take(j as int));
        assert(pv.take(j + 1).last() == parts@[j as int]@);
        let w = words_v(&trim_v(&parts[j]));
        let ghost wv = w@.map_values(|x: Vec<char>| x@);
        if w.len() >= 2 {
            assert(w@[0]@ == wv[0]);
            assert(w@[1]@ == wv[1]);
            let count: usize = match parse_usize(&w[0]) {
                Some(n) => n,
                None => 0,
            };
            if starts_with_str(&w[1], "test") || starts_with_str(&w[1], "doctest") {
                match acc.0.checked_add(count) {
                    Some(v) => {
                        acc = (v, acc.1, acc.2);
                    },
                    None => {
                        proof {
                            lemma_ex_parts(pv, j + 1);
                        }
                        return None;
                    },
                }
            } else if starts_with_str(&w[1], "failure") {
                acc = (acc.0, count, acc.2);
            } else if starts_with_str(&w[1], "excluded") || starts_with_str(&w[1], "skipped") {
                acc = (acc.0, acc.1, count);
            }
        }
        j += 1;
    }
    assert(pv.take(parts.len() as int) =~= pv);
    Some(acc)
}

fn ex_summary_fits_v(ls: &Vec<Vec<char>>) -> (b: bool)
    ensures
        b == ex_summary_fits(ls@.map_values(|l: Vec<char>| l@)),
{
    let ghost lv = ls@.map_values(|l: Vec<char>| l@);
    let mut i: usize = 0;
    assert(lv.skip(0) =~= lv);
    while i < ls.len()
        invariant
            i <= ls.len(),
            lv == ls@.map_values(|l: Vec<char>| l@),
            ex_summary_fits(lv) == ex_summary_fits(lv.skip(i as int)),
        decreases ls.len() - i,
    {
        assert(lv.skip(i as int)[0] == ls@[i as int]@);
        assert(lv.skip(i as int).drop_first() =~= lv.skip(i + 1));
        let t = trim_v(&ls[i]);
        if (contains_str(&t, "test") || contains_str(&t, "doctest")) && contains_str(&t, "failure") {
            match line_counts_checked_v(&t) {
                None => {
                    return false;
                },
                Some(c) => {
                    if c.0 > 0 || c.1 > 0 {
                        return (c.1 as u128) + (c.2 as u128) <= usize::MAX as u128;
                    }
                },
            }
        }
        i += 1;
    }
    assert(lv.skip(ls.len() as int) =~= seq![]);
    true
}

fn ex_summary_suite_v(ls: &Vec<Vec<char>>, exit_code: i32) -> (s: TestSuite)
    requires
        ex_summary_fits(ls@.map_values(|l: Vec<char>| l@)),
    ensures
        s@ == ex_summary_suite(ls@.map_values(|l: Vec<char>| l@), exit_code),
{
    let ghost lv = ls@.map_values(|l: Vec<char>| l@);
    let mut i: usize = 0;
    assert(lv.skip(0) =~= lv);
    while i < ls.len()
        invariant
            i <= ls.len(),
            lv == ls@.map_values(|l: Vec<char>| l@),
            ex_summary(lv) == ex_summary(lv.skip(i as int)),
            ex_summary_fits(lv.skip(i as int)),
        decreases ls.len() - i,
    {
        assert(lv.skip(i as int)[0] == ls@[i as int]@);
        assert(lv.skip(i as int).drop_first() =~= lv.skip(i + 1));
        let t = trim_v(&ls[i]);
        if (contains_str(&t, "test") || contains_str(&t, "doctest")) && contains_str(&t, "failure") {
            let c = line_counts_v(&t);
            if c.0 > 0 || c.1 > 0 {
                proof {
                    lemma_ex_parts(split_char(t@, ','), 0);
                }
                let passed = c.0.saturating_sub(c.1 + c.2);
                return counted_suite_v(passed, c.1, c.2, "excluded_test_", exit_code);
            }
        }
        i += 1;
    }
    counted_suite_v(0, 0, 0, "excluded_test_", exit_code)
}

// ---------------------------------------------------------------------------
// Run duration
// ---------------------------------------------------------------------------

/// A line that may give the run time: `Finished in 0.03 seconds (...)`.
pub open spec fn fin_candidate(l: Seq<char>) -> bool {
    contains(l, "Finished in"@) && contains(l, "second"@)
}

/// The character after `Finished in` exists and is a single byte, so the
/// text after it can be cut there.
pub open spec fn fin_safe(l: Seq<char>) -> bool {
    let idx = find(l, "Finished in"@)->0;
    idx + 11 < l.len() && (l[idx + 11] as u32) < 0x80
}

/// Seconds given after `Finished in `.
pub open spec fn fin_secs(l: Seq<char>) -> Option<nat> {
    let after = trim(l.skip(find(l, "Finished in"@)->0 + 12));
    decimal_nanos(after.take(num_prefix_len(after) as int), 1_000_000_000, 9, 1)
}

/// The time of the first `Finished in` line whose seconds read as a number.
pub open spec fn exunit_duration(ls: Seq<Seq<char>>) -> Option<nat>
    decreases ls.len(),
{
    if ls.len() == 0 {
        None
    } else if fin_candidate(ls[0]) && fin_secs(ls[0]) is Some {
        fin_secs(ls[0])
    } else {
        exunit_duration(ls.drop_first())
    }
}

/// Every `Finished in` line read before the time is found can be cut after
/// the words.
pub open spec fn exunit_duration_safe(ls: Seq<Seq<char>>) -> bool
    decreases ls.len(),
{
    if ls.len() == 0 {
        true
    } else if fin_candidate(ls[0]) {
        fin_safe(ls[0]) && (fin_secs(ls[0]) is Some || exunit_duration_safe(ls.drop_first()))
    } else {
        exunit_duration_safe(ls.drop_first())
    }
}

fn exunit_duration_v(ls: &Vec<Vec<char>>) -> (r: Option<Duration>)
    requires
        exunit_duration_safe(ls@.map_values(|l: Vec<char>| l@)),
    ensures
        match r {
            Some(d) => exunit_duration(ls@.map_values(|l: Vec<char>| l@)) == Some(d.ns()),
            None => exunit_duration(ls@.map_values(|l: Vec<char>| l@)) is None,
        },
{
    let ghost lv = ls@.map_values(|l: Vec<char>| l@);
    let mut i: usize = 0;
    assert(lv.skip(0) =~= lv);
    while i < ls.len()
        invariant
            i <= ls.len(),
            lv == ls@.map_values(|l: Vec<char>| l@),
            exunit_duration(lv) == exunit_duration(lv.skip(i as int)),
            exunit_duration_safe(lv.skip(i as int)),
        decreases ls.len() - i,
    {
        assert(lv.skip(i as int)[0] == ls@[i as int]@);
        assert(lv.skip(i as int).drop_first() =~= lv.skip(i + 1));
        let l = &ls[i];
        if contains_str(l, "Finished in") && contains_str(l, "second") {
            match find_str(l, "Finished in") {
                Some(idx) => {
                    let n = l.len();
                    let after = slice(l, idx + 12, n);
                    assert(after@ =~= l@.skip(find(l@, "Finished in"@)->0 + 12));
                    if let Some(d) = parse_secs(&num_prefix(&trim_v(&after))) {
                        return Some(d);
                    }
                },
                None => {},
            }
        }
        i += 1;
    }
    None
}

/// Whether the text after `Finished in` can be cut (`None` when it cannot)
/// and, when it can, whether it gives the seconds.
pub(crate) fn fin_check_v(l: &Vec<char>) -> (r: Option<bool>)
    requires
        contains(l@, "Finished in"@),
    ensures
        match r {
            None => !fin_safe(l@),
            Some(b) => fin_safe(l@) && b == (fin_secs(l@) is Some),
        },
{
    match find_str(l, "Finished in") {
        Some(idx) => {
            let n = l.len();
            if !(idx < n && n - idx > 11 && (l[idx + 11] as u32) < 0x80) {
                return None;
            }
            let after = slice(l, idx + 12, n);
            assert(after@ =~= l@.skip(find(l@, "Finished in"@)->0 + 12));
            let num = num_prefix(&trim_v(&after));
            Some(parse_secs(&num).is_some())
        },
        None => {
            proof {
                reveal_strlit("Finished in");
                crate::text::lemma_find_from_bounds(l@, "Finished in"@, 0);
            }
            None
        },
    }
}

fn exunit_duration_safe_v(ls: &Vec<Vec<char>>) -> (b: bool)
    ensures
        b == exunit_duration_safe(ls@.map_values(|l: Vec<char>| l@)),
{
    let ghost lv = ls@.map_values(|l: Vec<char>| l@);
    let mut i: usize = 0;
    assert(lv.skip(0) =~= lv);
    while i < ls.len()
        invariant
            i <= ls.len(),
            lv == ls@.map_values(|l: Vec<char>| l@),
            exunit_duration_safe(lv) == exunit_duration_safe(lv.skip(i as int)),
        decreases ls.len() - i,
    {
        assert(lv.skip(i as int)[0] == ls@[i as int]@);
        assert(lv.skip(i as int).drop_first() =~= lv.skip(i + 1));
        let l = &ls[i];
        if contains_str(l, "Finished in") && contains_str(l, "second") {
            match fin_check_v(l) {
                None => {
                    return false;
                },
                Some(found) => {
                    if found {
                        return true;
                    }
                },
            }
        }
        i += 1;
    }
    assert(lv.skip(ls.len() as int) =~= seq![]);
    true
}

/// Parse the run time from `Finished in 0.03 seconds`.
pub fn parse_exunit_duration(output: &str) -> (r: Option<Duration>)
    requires
        exunit_duration_safe(lines(output@)),
    ensures
        match r {
            Some(d) => exunit_duration(lines(output@)) == Some(d.ns()),
            None => exunit_duration(lines(output@)) is None,
        },
{
    let ls = crate::text::lines_of(output);
    assert(ls@.map_values(|l: Vec<char>| l@) =~= lines(output@));
    exunit_duration_v(&ls)
}

// ---------------------------------------------------------------------------
// Errors from failure blocks
// ---------------------------------------------------------------------------

/// A failure block names the test when either name contains the other.
pub open spec fn failure_matches(f: FailureView, name: Seq<char>) -> bool {
    contains(f.name, name) || contains(name, f.name)
}

/// The first failure block that names the test.
pub open spec fn first_failure(fs: Seq<FailureView>, name: Seq<char>) -> Option<FailureView>
    decreases fs.len(),
{
    if fs.len() == 0 {
        None
    } else if failure_matches(fs[0], name) {
        Some(fs[0])
    } else {
        first_failure(fs.drop_first(), name)
    }
}

/// A message cut to its first 500 bytes, marked with `...`.
pub open spec fn cut_message(m: Seq<char>) -> Seq<char> {
    if utf8_len(m) > 500 {
        m.take(chars_in_bytes(m, 500)->0 as int) + "..."@
    } else {
        m
    }
}

/// A message that is short, or can be cut at its 500th byte.
pub open spec fn cut_ok(m: Seq<char>) -> bool {
    utf8_len(m) > 500 ==> chars_in_bytes(m, 500) is Some
}

/// Whether a message can be cut at 500 bytes.
pub(crate) fn cut_ok_v(m: &Vec<char>) -> (b: bool)
    ensures
        b == cut_ok(m@),
{
    utf8_len_v(m) <= 500 || chars_in_bytes_ok(m, 500)
}

/// A case named by a failure block fails, with the block's message and
/// location unless it has an error already.
pub open spec fn enrich_case(c: CaseView, fs: Seq<FailureView>) -> CaseView {
    match first_failure(fs, c.name) {
        Some(f) => CaseView {
            status: TestStatus::Failed,
            error: if c.error is None {
                Some(ErrorView { message: cut_message(f.message), location: f.location })
            } else {
                c.error
            },
            ..c
        },
        None => c,
    }
}

pub open spec fn enrich_suites(suites: Seq<SuiteView>, fs: Seq<FailureView>) -> Seq<SuiteView> {
    suites.map_values(|s: SuiteView| SuiteView { name: s.name, tests: s.tests.map_values(|c: CaseView| enrich_case(c, fs)) })
}

/// Every message that will be cut can be cut.
pub open spec fn enrich_ok(suites: Seq<SuiteView>, fs: Seq<FailureView>) -> bool {
    forall|i: int, j: int|
        0 <= i < suites.len() && 0 <= j < suites[i].tests.len() && suites[i].tests[j].error is None ==> (
        #[trigger] first_failure(fs, suites[i].tests[j].name) matches Some(f) ==> cut_ok(f.message))
}

fn first_failure_v(fs: &Vec<ExUnitFailure>, name: &Vec<char>) -> (r: Option<usize>)
    ensures
        match r {
            Some(k) => k < fs.len() && first_failure(failures_view(fs@), name@) == Some(fs@[k as int]@),
            None => first_failure(failures_view(fs@), name@) is None,
        },
{
    let ghost fv = failures_view(fs@);
    let mut k: usize = 0;
    assert(fv.skip(0) =~= fv);
    while k < fs.len()
        invariant
            k <= fs.len(),
            fv == failures_view(fs@),
            first_failure(fv, name@) == first_failure(fv.skip(k as int), name@),
        decreases fs.len() - k,
    {
        assert(fv.skip(k as int)[0] == fs@[k as int]@);
        assert(fv.skip(k as int).drop_first() =~= fv.skip(k + 1));
        let fname = crate::text::chars_of_string(&fs[k].name);
        if crate::text::contains_v(&fname, name) || crate::text::contains_v(name, &fname) {
            return Some(k);
        }
        k += 1;
    }
    None
}

fn enrich_case_v(c: TestCase, fs: &Vec<ExUnitFailure>) -> (r: TestCase)
    requires
        c.error is None ==> (first_failure(failures_view(fs@), c@.name) matches Some(f) ==> cut_ok(f.message)),
    ensures
        r@ == enrich_case(c@, failures_view(fs@)),
{
    let name = crate::text::chars_of_string(&c.name);
    match first_failure_v(fs, &name) {
        Some(k) => {
            let f = &fs[k];
            let error = match c.error {
                None => {
                    let m = crate::text::chars_of_string(&f.message);
                    let message = if utf8_len_v(&m) > 500 {
                        let mut cut = take_bytes(&m, 500);
                        append_str(&mut cut, "...");
                        cut
                    } else {
                        m
                    };
                    let location = match &f.location {
                        Some(l) => Some(string_of(&crate::text::chars_of_string(l))),
                        None => None,
                    };
                    Some(TestError { message: string_of(&message), location })
                },
                Some(e) => Some(e),
            };
            TestCase { name: c.name, status: TestStatus::Failed, duration: c.duration, error }
        },
        None => c,
    }
}

/// Mark the cases named by failure blocks as failed and give them the
/// blocks' messages.
fn enrich_ok_v(suites: &Vec<TestSuite>, failures: &Vec<ExUnitFailure>) -> (b: bool)
    ensures
        b == enrich_ok(suites_view(suites@), failures_view(failures@)),
{
    let ghost sv = suites_view(suites@);
    let ghost fv = failures_view(failures@);
    let mut i: usize = 0;
    while i < suites.len()
        invariant
            i <= suites.len(),
            sv == suites_view(suites@),
            fv == failures_view(failures@),
            forall|ii: int, jj: int|
                0 <= ii < i && 0 <= jj < sv[ii].tests.len() && sv[ii].tests[jj].error is None ==> (
                #[trigger] first_failure(fv, sv[ii].tests[jj].name) matches Some(f) ==> cut_ok(f.message)),
        decreases suites.len() - i,
    {
        let s = &suites[i];
        assert(sv[i as int] == s@);
        let mut j: usize = 0;
        while j < s.tests.len()
            invariant
                j <= s.tests.len(),
                i < suites.len(),
                s == &suites[i as int],
                sv == suites_view(suites@),
                fv == failures_view(failures@),
                sv[i as int] == s@,
                forall|ii: int, jj: int|
                    0 <= ii < i && 0 <= jj < sv[ii].tests.len() && sv[ii].tests[jj].error is None ==> (
                    #[trigger] first_failure(fv, sv[ii].tests[jj].name) matches Some(f) ==> cut_ok(f.message)),
                forall|jj: int|
                    0 <= jj < j && sv[i as int].tests[jj].error is None ==> (
                    #[trigger] first_failure(fv, sv[i as int].tests[jj].name) matches Some(f) ==> cut_ok(f.message)),
            decreases s.tests.len() - j,
        {
            let c = &s.tests[j];
            assert(sv[i as int].tests[j as int] == c@);
            if c.error.is_none() {
                let name = crate::text::chars_of_string(&c.name);
                match first_failure_v(failures, &name) {
                    Some(k) => {
                        let m = crate::text::chars_of_string(&failures[k].message);
                        if !cut_ok_v(&m) {
                            assert(sv[i as int].tests[j as int].error is None);
                            assert(first_failure(fv, sv[i as int].tests[j as int].name) == Some(failures@[k as int]@));
                            assert(failures@[k as int]@.message == m@);
                            assert(!enrich_ok(sv, fv));
                            return false;
                        }
                    },
                    None => {},
                }
            }
            j += 1;
        }
        assert forall|ii: int, jj: int|
            0 <= ii < i + 1 && 0 <= jj < sv[ii].tests.len() && sv[ii].tests[jj].error is None implies (
            #[trigger] first_failure(fv, sv[ii].tests[jj].name) matches Some(f) ==> cut_ok(f.message)) by {
            if ii == i as int {
            }
        }
        i += 1;
    }
    true
}

pub fn enrich_exunit_errors(suites: Vec<TestSuite>, failures: &Vec<ExUnitFailure>) -> (r: Vec<TestSuite>)
    requires
        enrich_ok(suites_view(suites@), failures_view(failures@)),
    ensures
        suites_view(r@) == enrich_suites(suites_view(suites@), failures_view(failures@)),
{
    let ghost sv = suites_view(suites@);
    let ghost fv = failures_view(failures@);
    let ghost goal = enrich_suites(sv, fv);
    let mut out: Vec<TestSuite> = Vec::new();
    let ghost total: int = suites.len() as int;
    let mut rest = suites;
    let mut i: usize = 0;
    assert(rest@ =~= suites@.skip(0));
    while rest.len() > 0
        invariant
            i <= sv.len(),
            i + rest@.len() == suites@.len(),
            total == suites@.len(),
            total <= usize::MAX,
            rest@ == suites@.skip(i as int),
            sv == suites_view(suites@),
            fv == failures_view(failures@),
            goal == enrich_suites(sv, fv),
            enrich_ok(sv, fv),
            suites_view(out@) == goal.take(i as int),
        decreases rest.len(),
    {
        let s = rest.remove(0);
        assert(s == suites@[i as int]);
        assert(rest@ =~= suites@.skip(i + 1));
        let ghost si = sv[i as int];
        let mut tests: Vec<TestCase> = Vec::new();
        let ghost n: int = s.tests.len() as int;
        let mut src = s.tests;
        let mut j: usize = 0;
        assert(src@ =~= s.tests@.skip(0));
        while src.len() > 0
            invariant
                j <= si.tests.len(),
                j + src@.len() == s.tests@.len(),
                n == s.tests@.len(),
                n <= usize::MAX,
                si == sv[i as int],
                si.tests == cases_view(s.tests@),
                src@ == s.tests@.skip(j as int),
                0 <= i < sv.len(),
                enrich_ok(sv, fv),
                fv == failures_view(failures@),
                cases_view(tests@) == si.tests.take(j as int).map_values(|c: CaseView| enrich_case(c, fv)),
            decreases src.len(),
        {
            let c = src.remove(0);
            assert(c == s.tests@[j as int]);
            assert(src@ =~= s.tests@.skip(j + 1));
            assert(c@ == si.tests[j as int]);
            proof {
                if c.error is None {
                    assert(sv[i as int].tests[j as int].error is None);
                    let _ = first_failure(fv, sv[i as int].tests[j as int].name);
                }
            }
            let e = enrich_case_v(c, failures);
            let ghost before = tests@;
            tests.push(e);
            assert(cases_view(tests@) =~= cases_view(before).push(e@));
            assert(si.tests.take(j + 1).map_values(|c: CaseView| enrich_case(c, fv))
                =~= si.tests.take(j as int).map_values(|c: CaseView| enrich_case(c, fv)).push(enrich_case(si.tests[j as int], fv)));
            j += 1;
        }
        assert(si.tests.take(j as int) =~= si.tests);
        let ns = TestSuite { name: s.name, tests };
        let ghost before = out@;
        out.push(ns);
        assert(suites_view(out@) =~= suites_view(before).push(ns@));
        assert(goal.take(i + 1) =~= goal.take(i as int).push(goal[i as int]));
        i += 1;
    }
    assert(goal.take(i as int) =~= goal);
    out
}

// ---------------------------------------------------------------------------
// The run
// ---------------------------------------------------------------------------

/// Output that can be read without a cut falling inside a character and
/// without counts overflowing.
pub open spec fn exunit_readable(stdout: Seq<char>, stderr: Seq<char>, exit_code: i32) -> bool {
    let ls = lines(stdout + seq!['\n'] + stderr);
    let trace = exunit_trace(ls);
    &&& trace.len() == 0 ==> ex_summary_fits(ls)
    &&& enrich_ok(if trace.len() > 0 { trace } else { seq![ex_summary_suite(ls, exit_code)] }, exunit_failures(ls))
    &&& exunit_duration_safe(ls)
}

/// The run ExUnit output describes (stdout and stderr joined by a newline):
/// the trace suites when there are trace lines, else the summary suite; the
/// cases named by failure blocks failed.
pub open spec fn ex_run(stdout: Seq<char>, stderr: Seq<char>, exit_code: i32) -> RunView {
    let ls = lines(stdout + seq!['\n'] + stderr);
    let trace = exunit_trace(ls);
    let suites = if trace.len() > 0 { trace } else { seq![ex_summary_suite(ls, exit_code)] };
    RunView {
        suites: enrich_suites(suites, exunit_failures(ls)),
        duration: match exunit_duration(ls) {
            Some(d) => d,
            None => 0,
        },
        raw_exit_code: exit_code,
    }
}

impl ElixirAdapter {
    /// Parse ExUnit output into a run.
    /// Whether `parse_output` can read this output: summary counts fit when
    /// the summary is used, failure messages can be cut, and the run time
    /// can be cut out.
    pub fn readable(&self, stdout: &str, stderr: &str, exit_code: i32) -> (b: bool)
        ensures
            b == exunit_readable(stdout@, stderr@, exit_code),
    {
        let mut combined = chars_of(stdout);
        combined.push('\n');
        append_str(&mut combined, stderr);
        assert(combined@ =~= stdout@ + seq!['\n'] + stderr@);
        let ls = lines_v(&combined);
        assert(ls@.map_values(|l: Vec<char>| l@) =~= lines(stdout@ + seq!['\n'] + stderr@));
        let trace = exunit_trace_v(&ls);
        let suites = if trace.len() > 0 {
            trace
        } else {
            if !ex_summary_fits_v(&ls) {
                return false;
            }
            let mut v: Vec<TestSuite> = Vec::new();
            let s = ex_summary_suite_v(&ls, exit_code);
            v.push(s);
            assert(suites_view(v@) =~= seq![s@]);
            v
        };
        let failures = exunit_failures_v(&ls);
        enrich_ok_v(&suites, &failures) && exunit_duration_safe_v(&ls)
    }

    pub fn parse_output(&self, stdout: &str, stderr: &str, exit_code: i32) -> (r: TestRunResult)
        requires
            exunit_readable(stdout@, stderr@, exit_code),
        ensures
            r@ == ex_run(stdout@, stderr@, exit_code),
    {
        let mut combined = chars_of(stdout);
        combined.push('\n');
        append_str(&mut combined, stderr);
        assert(combined@ =~= stdout@ + seq!['\n'] + stderr@);
        let ls = lines_v(&combined);
        let ghost lv = ls@.map_values(|l: Vec<char>| l@);
        assert(lv =~= lines(stdout@ + seq!['\n'] + stderr@));
        let trace = exunit_trace_v(&ls);
        let mut any = false;
        let mut k: usize = 0;
        while k < trace.len()
            invariant
                k <= trace.len(),
                any ==> trace.len() > 0,
            decreases trace.len() - k,
        {
            if trace[k].tests.len() > 0 {
                any = true;
            }
            k += 1;
        }
        let suites = if trace.len() > 0 {
            trace
        } else {
            let mut v: Vec<TestSuite> = Vec::new();
            let s = ex_summary_suite_v(&ls, exit_code);
            v.push(s);
            assert(suites_view(v@) =~= seq![s@]);
            v
        };
        let failures = exunit_failures_v(&ls);
        let suites = enrich_exunit_errors(suites, &failures);
        let duration = match exunit_duration_v(&ls) {
            Some(d) => d,
            None => Duration::zero(),
        };
        TestRunResult { suites, duration, raw_exit_code: exit_code }
    }
}

} // verus!
