//! Maven Surefire and Gradle output, and Surefire XML reports.

use vstd::prelude::*;
use crate::adapters::{
    CaseView, ErrorView, RunView, SuiteView, TestCase, TestError, TestRunResult, TestStatus,
    TestSuite, cases_view, opt_str_view, suites_view,
};
use crate::adapters::elixir::{cut_ok, cut_ok_v, group_add, group_add_v, opt_chars};
use crate::adapters::javascript::strip_prefix;
use crate::adapters::python::{counted_suite, counted_suite_v, prefixed_suite, prefixed_suite_v};
use crate::adapters::ruby::{cut_to, saturating_sub, strip_prefix_v, truncate_message};
use crate::adapters::util::{ensure_non_empty, non_empty_spec, strip_suffix, strip_suffix_v};
use crate::duration::{Duration, decimal_nanos, parse_secs};
use crate::num::{parse_usize, parse_usize_spec};
use crate::text::{
    append, append_str, chars_of, chars_of_string, contains, contains_char, contains_str, ends_with,
    ends_with_str, eq, find, find_char, find_char_v, find_str, join, join_v, lines, lines_v,
    num_prefix, num_prefix_len, occurs_at, rfind, rfind_str, slice, split_char, split_char_v,
    starts_with, starts_with_str, string_of, trim, trim_v, words, words_v,
};

verus! {

/// Adapter for Java projects built with Maven or Gradle.
pub struct JavaAdapter;

impl JavaAdapter {
    pub fn new() -> (a: Self) {
        JavaAdapter
    }

    /// Name of this adapter for display.
    pub fn name(&self) -> (r: &'static str)
        ensures
            r@ == "Java"@,
    {
        "Java"
    }
}

impl Default for JavaAdapter {
    fn default() -> (a: Self) {
        JavaAdapter
    }
}

// ---------------------------------------------------------------------------
// Maven Surefire console output
// ---------------------------------------------------------------------------

/// A Maven line without its `[INFO] ` or `[ERROR] ` tag, trimmed.
pub open spec fn maven_console_clean(t: Seq<char>) -> Seq<char> {
    trim(
        match strip_prefix(t, "[INFO] "@) {
            Some(r) => r,
            None => match strip_prefix(t, "[ERROR] "@) {
                Some(r) => r,
                None => t,
            },
        },
    )
}

/// A count after a label, zero when it is not a number.
pub open spec fn count_or_zero(s: Seq<char>) -> int {
    match parse_usize_spec(s) {
        Some(n) => n as int,
        None => 0,
    }
}

/// Effect of one comma-separated part of a `Tests run:` line on the counts
/// (run, failures, errors, skipped).
pub open spec fn surefire_part(acc: (int, int, int, int), part: Seq<char>) -> (int, int, int, int) {
    let p = trim(part);
    match strip_prefix(p, "Tests run:"@) {
        Some(r) => (count_or_zero(trim(r)), acc.1, acc.2, acc.3),
        None => match strip_prefix(p, "Failures:"@) {
            Some(r) => (acc.0, count_or_zero(trim(r)), acc.2, acc.3),
            None => match strip_prefix(p, "Errors:"@) {
                Some(r) => (acc.0, acc.1, count_or_zero(trim(r)), acc.3),
                None => match strip_prefix(p, "Skipped:"@) {
                    Some(r) => (acc.0, acc.1, acc.2, count_or_zero(trim(r))),
                    None => acc,
                },
            },
        },
    }
}

pub open spec fn surefire_parts(ps: Seq<Seq<char>>) -> (int, int, int, int)
    decreases ps.len(),
{
    if ps.len() == 0 { (0, 0, 0, 0) } else { surefire_part(surefire_parts(ps.drop_last()), ps.last()) }
}

pub open spec fn surefire_counts(line: Seq<char>) -> (int, int, int, int) {
    surefire_parts(split_char(line, ','))
}

/// Failures, errors and skips of a result line add up within a machine
/// word.
pub open spec fn surefire_fits(line: Seq<char>) -> bool {
    let c = surefire_counts(line);
    c.1 + c.2 + c.3 <= usize::MAX
}

/// The suite a `Tests run:` line describes: `test_<k>` passing,
/// `failed_test_<k>` failing (failures and errors) and `skipped_test_<k>`
/// cases; none when it counts neither runs nor failures.
pub open spec fn surefire_result(line: Seq<char>, suite_name: Seq<char>) -> Option<SuiteView> {
    let c = surefire_counts(line);
    if c.0 == 0 && c.1 == 0 {
        None
    } else {
        Some(prefixed_suite(
            suite_name, "test_"@, "failed_test_"@, "skipped_test_"@,
            saturating_sub(c.0, c.1 + c.2 + c.3), (c.1 + c.2) as nat, c.3 as nat, 0,
        ))
    }
}

proof fn lemma_surefire_bounds(ps: Seq<Seq<char>>)
    ensures
        0 <= surefire_parts(ps).0 <= usize::MAX,
        0 <= surefire_parts(ps).1 <= usize::MAX,
        0 <= surefire_parts(ps).2 <= usize::MAX,
        0 <= surefire_parts(ps).3 <= usize::MAX,
    decreases ps.len(),
{
    if ps.len() > 0 {
        lemma_surefire_bounds(ps.drop_last());
    }
}

fn count_or_zero_v(s: &Vec<char>) -> (n: usize)
    ensures
        n == count_or_zero(s@),
{
    match parse_usize(s) {
        Some(n) => n,
        None => 0,
    }
}

fn surefire_part_v(acc: (usize, usize, usize, usize), part: &Vec<char>) -> (r: (usize, usize, usize, usize))
    ensures
        (r.0 as int, r.1 as int, r.2 as int, r.3 as int) == surefire_part((acc.0 as int, acc.1 as int, acc.2 as int, acc.3 as int), part@),
{
    let p = trim_v(part);
    match strip_prefix_v(&p, "Tests run:") {
        Some(r) => (count_or_zero_v(&trim_v(&r)), acc.1, acc.2, acc.3),
        None => match strip_prefix_v(&p, "Failures:") {
            Some(r) => (acc.0, count_or_zero_v(&trim_v(&r)), acc.2, acc.3),
            None => match strip_prefix_v(&p, "Errors:") {
                Some(r) => (acc.0, acc.1, count_or_zero_v(&trim_v(&r)), acc.3),
                None => match strip_prefix_v(&p, "Skipped:") {
                    Some(r) => (acc.0, acc.1, acc.2, count_or_zero_v(&trim_v(&r))),
                    None => acc,
                },
            },
        },
    }
}

fn surefire_counts_v(line: &Vec<char>) -> (r: (usize, usize, usize, usize))
    ensures
        (r.0 as int, r.1 as int, r.2 as int, r.3 as int) == surefire_counts(line@),
{
    let ps = split_char_v(line, ',');
    let ghost pv = ps@.map_values(|p: Vec<char>| p@);
    let mut acc: (usize, usize, usize, usize) = (0, 0, 0, 0);
    let mut i: usize = 0;
    while i < ps.len()
        invariant
            i <= ps.len(),
            pv == ps@.map_values(|p: Vec<char>| p@),
            pv == split_char(line@, ','),
            (acc.0 as int, acc.1 as int, acc.2 as int, acc.3 as int) == surefire_parts(pv.take(i as int)),
        decreases ps.len() - i,
    {
        assert(pv.take(i + 1).drop_last() =~= pv.take(i as int));
        acc = surefire_part_v(acc, &ps[i]);
        i += 1;
    }
    assert(pv.take(ps.len() as int) =~= pv);
    acc
}

fn surefire_result_v(line: &Vec<char>, suite_name: &Vec<char>) -> (r: Option<TestSuite>)
    requires
        surefire_fits(line@),
    ensures
        match r {
            Some(s) => surefire_result(line@, suite_name@) == Some(s@),
            None => surefire_result(line@, suite_name@) is None,
        },
{
    let c = surefire_counts_v(line);
    if c.0 == 0 && c.1 == 0 {
        return None;
    }
    let failed = c.1 + c.2;
    let gone = failed + c.3;
    let passed = if c.0 >= gone { c.0 - gone } else { 0 };
    let name = string_of(suite_name);
    let s = prefixed_suite_v(name.as_str(), "test_", "failed_test_", "skipped_test_", passed, failed, c.3, 0);
    Some(s)
}

/// Reading state of Maven console output: the suites read so far and the
/// class named by the last `Running` line.
pub struct MavenState {
    pub suites: Seq<SuiteView>,
    pub current: Seq<char>,
}

pub open spec fn mv_step(st: MavenState, line: Seq<char>) -> MavenState {
    let c = maven_console_clean(trim(line));
    match strip_prefix(c, "Running "@) {
        Some(rest) => MavenState { current: trim(rest), ..st },
        None => if starts_with(c, "Tests run:"@) && st.current.len() > 0 {
            match surefire_result(c, st.current) {
                Some(s) => MavenState { suites: st.suites.push(s), ..st },
                None => st,
            }
        } else {
            st
        },
    }
}

pub open spec fn mv_fold(ls: Seq<Seq<char>>) -> MavenState
    decreases ls.len(),
{
    if ls.len() == 0 {
        MavenState { suites: seq![], current: seq![] }
    } else {
        mv_step(mv_fold(ls.drop_last()), ls.last())
    }
}

/// Every result line that is read has counts that fit.
pub open spec fn maven_ok(ls: Seq<Seq<char>>) -> bool
    decreases ls.len(),
{
    if ls.len() == 0 {
        true
    } else {
        let st = mv_fold(ls.drop_last());
        let c = maven_console_clean(trim(ls.last()));
        maven_ok(ls.drop_last()) && ((strip_prefix(c, "Running "@) is None && starts_with(c, "Tests run:"@)
            && st.current.len() > 0) ==> surefire_fits(c))
    }
}

/// Some earlier suite has this name.
pub open spec fn has_suite_named(ss: Seq<SuiteView>, n: Seq<char>) -> bool {
    exists|i: int| 0 <= i < ss.len() && #[trigger] ss[i].name == n
}

/// The suites with the later repeats of a name left out.
pub open spec fn first_of_each_name(ss: Seq<SuiteView>) -> Seq<SuiteView>
    decreases ss.len(),
{
    if ss.len() == 0 {
        ss
    } else {
        let d = first_of_each_name(ss.drop_last());
        if has_suite_named(d, ss.last().name) { d } else { d.push(ss.last()) }
    }
}

/// The suites of Maven console output: one per class result line (the
/// summary that repeats a class name is left out), or a placeholder.
pub open spec fn maven_suites(ls: Seq<Seq<char>>, exit_code: i32) -> Seq<SuiteView> {
    let ss = mv_fold(ls).suites;
    let d = if ss.len() > 1 { first_of_each_name(ss) } else { ss };
    non_empty_spec(d, exit_code, "tests"@)
}

fn maven_console_clean_v(t: &Vec<char>) -> (r: Vec<char>)
    ensures
        r@ == maven_console_clean(t@),
{
    match strip_prefix_v(t, "[INFO] ") {
        Some(r) => trim_v(&r),
        None => match strip_prefix_v(t, "[ERROR] ") {
            Some(r) => trim_v(&r),
            None => trim_v(t),
        },
    }
}

fn first_of_each_name_v(ss: Vec<TestSuite>) -> (r: Vec<TestSuite>)
    ensures
        suites_view(r@) == first_of_each_name(suites_view(ss@)),
{
    let ghost sv = suites_view(ss@);
    let mut out: Vec<TestSuite> = Vec::new();
    let mut rest = ss;
    let ghost total: int = rest.len() as int;
    let mut i: usize = 0;
    assert(rest@ =~= ss@.skip(0));
    assert(sv.take(0) =~= seq![]);
    while rest.len() > 0
        invariant
            i <= sv.len(),
            i + rest@.len() == ss@.len(),
            total == ss@.len(),
            total <= usize::MAX,
            rest@ == ss@.skip(i as int),
            sv == suites_view(ss@),
            suites_view(out@) == first_of_each_name(sv.take(i as int)),
        decreases rest.len(),
    {
        let s = rest.remove(0);
        assert(s == ss@[i as int]);
        assert(rest@ =~= ss@.skip(i + 1));
        assert(sv.take(i + 1).drop_last() =~= sv.take(i as int));
        let ghost ov = suites_view(out@);
        let nm = chars_of_string(&s.name);
        let mut seen = false;
        let mut k: usize = 0;
        while k < out.len()
            invariant
                k <= out.len(),
                ov == suites_view(out@),
                nm@ == s.name@,
                seen <==> exists|j: int| 0 <= j < k && #[trigger] ov[j].name == nm@,
            decreases out.len() - k,
        {
            let on = chars_of_string(&out[k].name);
            assert(ov[k as int].name == on@);
            if eq(&on, &nm) {
                seen = true;
            }
            k += 1;
        }
        assert(seen == has_suite_named(ov, sv[i as int].name));
        if !seen {
            out.push(s);
            assert(suites_view(out@) =~= ov.push(s@));
        }
        i += 1;
    }
    assert(sv.take(i as int) =~= sv);
    out
}

fn maven_suites_v(ls: &Vec<Vec<char>>, exit_code: i32) -> (r: Vec<TestSuite>)
    requires
        maven_ok(ls@.map_values(|l: Vec<char>| l@)),
    ensures
        suites_view(r@) == maven_suites(ls@.map_values(|l: Vec<char>| l@), exit_code),
{
    let ghost lv = ls@.map_values(|l: Vec<char>| l@);
    let mut suites: Vec<TestSuite> = Vec::new();
    let mut current: Vec<char> = Vec::new();
    let mut i: usize = 0;
    while i < ls.len()
        invariant
            i <= ls.len(),
            lv == ls@.map_values(|l: Vec<char>| l@),
            maven_ok(lv),
            suites_view(suites@) == mv_fold(lv.take(i as int)).suites,
            current@ == mv_fold(lv.take(i as int)).current,
        decreases ls.len() - i,
    {
        proof {
            lemma_maven_ok_prefix(lv, i + 1);
        }
        assert(lv.take(i + 1).drop_last() =~= lv.take(i as int));
        assert(lv.take(i + 1).last() == ls@[i as int]@);
        let c = maven_console_clean_v(&trim_v(&ls[i]));
        match strip_prefix_v(&c, "Running ") {
            Some(rest) => {
                current = trim_v(&rest);
            },
            None => {
                if starts_with_str(&c, "Tests run:") && current.len() > 0 {
                    match surefire_result_v(&c, &current) {
                        Some(s) => {
                            let ghost before = suites_view(suites@);
                            suites.push(s);
                            assert(suites_view(suites@) =~= before.push(s@));
                        },
                        None => {},
                    }
                }
            },
        }
        i += 1;
    }
    assert(lv.take(ls.len() as int) =~= lv);
    let mut d = if suites.len() > 1 { first_of_each_name_v(suites) } else { suites };
    ensure_non_empty(&mut d, exit_code, "tests");
    d
}

/// Whether every result line that is read has counts that fit.
fn maven_ok_v(ls: &Vec<Vec<char>>) -> (b: bool)
    ensures
        b == maven_ok(ls@.map_values(|l: Vec<char>| l@)),
{
    let ghost lv = ls@.map_values(|l: Vec<char>| l@);
    let mut current: Vec<char> = Vec::new();
    let mut i: usize = 0;
    assert(lv.take(0) =~= seq![]);
    while i < ls.len()
        invariant
            i <= ls.len(),
            lv == ls@.map_values(|l: Vec<char>| l@),
            maven_ok(lv.take(i as int)),
            current@ == mv_fold(lv.take(i as int)).current,
        decreases ls.len() - i,
    {
        assert(lv.take(i + 1).drop_last() =~= lv.take(i as int));
        assert(lv.take(i + 1).last() == ls@[i as int]@);
        let c = maven_console_clean_v(&trim_v(&ls[i]));
        match strip_prefix_v(&c, "Running ") {
            Some(rest) => {
                current = trim_v(&rest);
            },
            None => {
                if starts_with_str(&c, "Tests run:") && current.len() > 0 {
                    let n = surefire_counts_v(&c);
                    if (n.1 as u128) + (n.2 as u128) + (n.3 as u128) > usize::MAX as u128 {
                        assert(!maven_ok(lv)) by {
                            if maven_ok(lv) {
                                lemma_maven_ok_prefix(lv, i + 1);
                            }
                        }
                        return false;
                    }
                }
            },
        }
        i += 1;
    }
    assert(lv.take(ls.len() as int) =~= lv);
    true
}

proof fn lemma_maven_ok_prefix(ls: Seq<Seq<char>>, n: int)
    requires
        0 < n <= ls.len(),
        maven_ok(ls),
    ensures
        maven_ok(ls.take(n)),
        maven_ok(ls.take(n - 1)),
        ({
            let st = mv_fold(ls.take(n - 1));
            let c = maven_console_clean(trim(ls[n - 1]));
            (strip_prefix(c, "Running "@) is None && starts_with(c, "Tests run:"@) && st.current.len() > 0)
                ==> surefire_fits(c)
        }),
    decreases ls.len() - n,
{
    if n == ls.len() {
        assert(ls.take(n) =~= ls);
    } else {
        lemma_maven_ok_prefix(ls, n + 1);
        assert(ls.take(n + 1).drop_last() =~= ls.take(n));
    }
    let p = ls.take(n);
    assert(maven_ok(p));
    assert(p.drop_last() =~= ls.take(n - 1));
    assert(p.last() == ls[n - 1]);
}

// ---------------------------------------------------------------------------
// Gradle console output
// ---------------------------------------------------------------------------

/// A Gradle result line such as `com.example.AppTest > testAdd PASSED`.
pub open spec fn is_gradle_case_line(t: Seq<char>) -> bool {
    contains(t, " > "@) && (ends_with(t, "PASSED"@) || ends_with(t, "FAILED"@) || ends_with(t, "SKIPPED"@))
}

/// The class and the case of a Gradle result line.
pub open spec fn gradle_entry(t: Seq<char>) -> (Seq<char>, CaseView) {
    let a = find(t, " > "@)->0;
    let rest = t.skip(a + 3);
    let name = match rfind(rest, seq![' ']) {
        Some(k) => trim(rest.take(k)),
        None => rest,
    };
    let status = if ends_with(t, "PASSED"@) {
        TestStatus::Passed
    } else if ends_with(t, "FAILED"@) {
        TestStatus::Failed
    } else {
        TestStatus::Skipped
    };
    (trim(t.take(a)), CaseView { name: name, status: status, duration: 0, error: None })
}

/// The Gradle result lines grouped by class, classes in name order.
pub open spec fn gradle_groups(ls: Seq<Seq<char>>) -> Seq<SuiteView>
    decreases ls.len(),
{
    if ls.len() == 0 {
        seq![]
    } else {
        let g = gradle_groups(ls.drop_last());
        let t = trim(ls.last());
        if is_gradle_case_line(t) {
            let e = gradle_entry(t);
            group_add(g, e.0, e.1)
        } else {
            g
        }
    }
}

/// The number in front of a part of a summary line, if any.
pub open spec fn lead_count(p: Seq<char>) -> Option<usize> {
    let w = words(p);
    if w.len() > 0 { parse_usize_spec(w[0]) } else { None }
}

/// Effect of one part of `3 tests completed, 1 failed` on (passed, failed).
pub open spec fn gradle_part(acc: (int, int), part: Seq<char>) -> (int, int) {
    let p = trim(part);
    let a = if contains(p, "completed"@) && lead_count(p) is Some { (lead_count(p)->0 as int, acc.1) } else { acc };
    if contains(p, "failed"@) && lead_count(p) is Some {
        let f = lead_count(p)->0 as int;
        (saturating_sub(a.0, f) as int, f)
    } else {
        a
    }
}

pub open spec fn gradle_parts(acc: (int, int), ps: Seq<Seq<char>>) -> (int, int)
    decreases ps.len(),
{
    if ps.len() == 0 { acc } else { gradle_part(gradle_parts(acc, ps.drop_last()), ps.last()) }
}

pub open spec fn gradle_summary_counts(ls: Seq<Seq<char>>) -> (int, int)
    decreases ls.len(),
{
    if ls.len() == 0 {
        (0, 0)
    } else {
        let acc = gradle_summary_counts(ls.drop_last());
        let t = trim(ls.last());
        if contains(t, "tests completed"@) { gradle_parts(acc, split_char(t, ',')) } else { acc }
    }
}

/// The suite `tests` made from Gradle's `X tests completed, Y failed`.
pub open spec fn gradle_summary_suite(ls: Seq<Seq<char>>, exit_code: i32) -> SuiteView {
    let c = gradle_summary_counts(ls);
    counted_suite(c.0 as nat, c.1 as nat, 0, "skipped_test_"@, exit_code)
}

/// The suites of Gradle output: the grouped result lines, else the summary.
pub open spec fn gradle_suites(ls: Seq<Seq<char>>, exit_code: i32) -> Seq<SuiteView> {
    let g = gradle_groups(ls);
    if g.len() == 0 { seq![gradle_summary_suite(ls, exit_code)] } else { g }
}

fn gradle_entry_v(t: &Vec<char>) -> (r: (Vec<char>, TestCase))
    requires
        is_gradle_case_line(t@),
    ensures
        r.0@ == gradle_entry(t@).0,
        r.1@ == gradle_entry(t@).1,
{
    proof {
        reveal_strlit(" > ");
        reveal_strlit(" ");
    }
    let a = match find_str(t, " > ") {
        Some(a) => a,
        None => {
            proof {
                assert(false);
            }
            0
        },
    };
    assert(occurs_at(t@, " > "@, a as int));
    let n = t.len();
    let rest = slice(t, a + 3, n);
    assert(rest@ =~= t@.skip(a + 3));
    let name = match rfind_str(&rest, " ") {
        Some(k) => {
            assert(" "@ =~= seq![' ']);
            let h = slice(&rest, 0, k);
            assert(h@ =~= rest@.take(k as int));
            trim_v(&h)
        },
        None => {
            assert(" "@ =~= seq![' ']);
            rest
        },
    };
    let status = if ends_with_str(t, "PASSED") {
        TestStatus::Passed
    } else if ends_with_str(t, "FAILED") {
        TestStatus::Failed
    } else {
        TestStatus::Skipped
    };
    let head = slice(t, 0, a);
    assert(head@ =~= t@.take(a as int));
    (trim_v(&head), TestCase { name: string_of(&name), status, duration: Duration::zero(), error: None })
}

fn lead_count_v(p: &Vec<char>) -> (r: Option<usize>)
    ensures
        r == lead_count(p@),
{
    let w = words_v(p);
    if w.len() > 0 {
        assert(w@[0]@ == words(p@)[0]);
        parse_usize(&w[0])
    } else {
        None
    }
}

fn gradle_part_v(acc: (usize, usize), part: &Vec<char>) -> (r: (usize, usize))
    ensures
        (r.0 as int, r.1 as int) == gradle_part((acc.0 as int, acc.1 as int), part@),
{
    let p = trim_v(part);
    let mut a = acc;
    if contains_str(&p, "completed") {
        match lead_count_v(&p) {
            Some(n) => {
                a = (n, acc.1);
            },
            None => {},
        }
    }
    if contains_str(&p, "failed") {
        match lead_count_v(&p) {
            Some(f) => {
                a = (if a.0 >= f { a.0 - f } else { 0 }, f);
            },
            None => {},
        }
    }
    a
}

fn gradle_parts_v(acc: (usize, usize), t: &Vec<char>) -> (r: (usize, usize))
    ensures
        (r.0 as int, r.1 as int) == gradle_parts((acc.0 as int, acc.1 as int), split_char(t@, ',')),
{
    let ps = split_char_v(t, ',');
    let ghost pv = ps@.map_values(|p: Vec<char>| p@);
    let ghost start = (acc.0 as int, acc.1 as int);
    let mut cur = acc;
    let mut j: usize = 0;
    assert(pv.take(0) =~= seq![]);
    while j < ps.len()
        invariant
            j <= ps.len(),
            pv == ps@.map_values(|p: Vec<char>| p@),
            start == (acc.0 as int, acc.1 as int),
            (cur.0 as int, cur.1 as int) == gradle_parts(start, pv.take(j as int)),
        decreases ps.len() - j,
    {
        assert(pv.take(j + 1).drop_last() =~= pv.take(j as int));
        cur = gradle_part_v(cur, &ps[j]);
        j += 1;
    }
    assert(pv.take(ps.len() as int) =~= pv);
    cur
}

fn gradle_summary_counts_v(ls: &Vec<Vec<char>>) -> (r: (usize, usize))
    ensures
        (r.0 as int, r.1 as int) == gradle_summary_counts(ls@.map_values(|l: Vec<char>| l@)),
{
    let ghost lv = ls@.map_values(|l: Vec<char>| l@);
    let mut acc: (usize, usize) = (0, 0);
    let mut i: usize = 0;
    while i < ls.len()
        invariant
            i <= ls.len(),
            lv == ls@.map_values(|l: Vec<char>| l@),
            (acc.0 as int, acc.1 as int) == gradle_summary_counts(lv.take(i as int)),
        decreases ls.len() - i,
    {
        assert(lv.take(i + 1).drop_last() =~= lv.take(i as int));
        assert(lv.take(i + 1).last() == ls@[i as int]@);
        let t = trim_v(&ls[i]);
        if contains_str(&t, "tests completed") {
            acc = gradle_parts_v(acc, &t);
        }
        i += 1;
    }
    assert(lv.take(ls.len() as int) =~= lv);
    acc
}

fn gradle_suites_v(ls: &Vec<Vec<char>>, exit_code: i32) -> (r: Vec<TestSuite>)
    ensures
        suites_view(r@) == gradle_suites(ls@.map_values(|l: Vec<char>| l@), exit_code),
{
    let ghost lv = ls@.map_values(|l: Vec<char>| l@);
    let mut groups: Vec<TestSuite> = Vec::new();
    assert(suites_view(groups@) =~= seq![]);
    let mut i: usize = 0;
    while i < ls.len()
        invariant
            i <= ls.len(),
            lv == ls@.map_values(|l: Vec<char>| l@),
            suites_view(groups@) == gradle_groups(lv.take(i as int)),
        decreases ls.len() - i,
    {
        assert(lv.take(i + 1).drop_last() =~= lv.take(i as int));
        assert(lv.take(i + 1).last() == ls@[i as int]@);
        let t = trim_v(&ls[i]);
        if contains_str(&t, " > ") && (ends_with_str(&t, "PASSED") || ends_with_str(&t, "FAILED") || ends_with_str(&t, "SKIPPED")) {
            let (key, c) = gradle_entry_v(&t);
            group_add_v(&mut groups, &key, c);
        }
        i += 1;
    }
    assert(lv.take(ls.len() as int) =~= lv);
    if groups.len() == 0 {
        let c = gradle_summary_counts_v(ls);
        let s = counted_suite_v(c.0, c.1, 0, "skipped_test_", exit_code);
        let mut v: Vec<TestSuite> = Vec::new();
        v.push(s);
        assert(suites_view(v@) =~= seq![s@]);
        v
    } else {
        groups
    }
}

// ---------------------------------------------------------------------------
// Duration
// ---------------------------------------------------------------------------

/// The leading digits and dots of the trimmed text, read as seconds.
pub open spec fn lead_secs(s: Seq<char>) -> Option<nat> {
    let t = trim(s);
    decimal_nanos(t.take(num_prefix_len(t) as int), 1_000_000_000, 9, 1)
}

/// The time a line reports: after `Time elapsed:`, else after the last
/// ` in ` of a `BUILD SUCCESSFUL`/`BUILD FAILED` line.
pub open spec fn java_line_time(l: Seq<char>) -> Option<nat> {
    let a = match find(l, "Time elapsed:"@) {
        Some(i) => lead_secs(l.skip(i + 13)),
        None => None,
    };
    if a is Some {
        a
    } else if (contains(l, "BUILD SUCCESSFUL"@) || contains(l, "BUILD FAILED"@)) && contains(l, " in "@) {
        match rfind(l, " in "@) {
            Some(i) => lead_secs(l.skip(i + 4)),
            None => None,
        }
    } else {
        None
    }
}

/// The first time a line reports.
pub open spec fn java_duration(ls: Seq<Seq<char>>) -> Option<nat>
    decreases ls.len(),
{
    if ls.len() == 0 {
        None
    } else {
        match java_line_time(ls[0]) {
            Some(d) => Some(d),
            None => java_duration(ls.drop_first()),
        }
    }
}

fn lead_secs_v(s: &Vec<char>) -> (r: Option<Duration>)
    ensures
        match r {
            Some(d) => lead_secs(s@) == Some(d.ns()),
            None => lead_secs(s@) is None,
        },
{
    let t = trim_v(s);
    parse_secs(&num_prefix(&t))
}

fn java_line_time_v(l: &Vec<char>) -> (r: Option<Duration>)
    ensures
        match r {
            Some(d) => java_line_time(l@) == Some(d.ns()),
            None => java_line_time(l@) is None,
        },
{
    let n = l.len();
    match find_str(l, "Time elapsed:") {
        Some(i) => {
            assert(occurs_at(l@, "Time elapsed:"@, i as int));
            proof {
                reveal_strlit("Time elapsed:");
            }
            let after = slice(l, i + 13, n);
            assert(after@ =~= l@.skip(i + 13));
            match lead_secs_v(&after) {
                Some(d) => {
                    return Some(d);
                },
                None => {},
            }
        },
        None => {},
    }
    if (contains_str(l, "BUILD SUCCESSFUL") || contains_str(l, "BUILD FAILED")) && contains_str(l, " in ") {
        match rfind_str(l, " in ") {
            Some(i) => {
                proof {
                    reveal_strlit(" in ");
                }
                let after = slice(l, i + 4, n);
                assert(after@ =~= l@.skip(i + 4));
                lead_secs_v(&after)
            },
            None => None,
        }
    } else {
        None
    }
}

fn java_duration_v(ls: &Vec<Vec<char>>) -> (r: Option<Duration>)
    ensures
        match r {
            Some(d) => java_duration(ls@.map_values(|l: Vec<char>| l@)) == Some(d.ns()),
            None => java_duration(ls@.map_values(|l: Vec<char>| l@)) is None,
        },
{
    let ghost lv = ls@.map_values(|l: Vec<char>| l@);
    let mut i: usize = 0;
    assert(lv.skip(0) =~= lv);
    while i < ls.len()
        invariant
            i <= ls.len(),
            lv == ls@.map_values(|l: Vec<char>| l@),
            java_duration(lv) == java_duration(lv.skip(i as int)),
        decreases ls.len() - i,
    {
        assert(lv.skip(i as int)[0] == ls@[i as int]@);
        assert(lv.skip(i as int).drop_first() =~= lv.skip(i + 1));
        match java_line_time_v(&ls[i]) {
            Some(d) => {
                return Some(d);
            },
            None => {},
        }
        i += 1;
    }
    None
}

/// The duration of a Maven or Gradle run.
pub fn parse_java_duration(output: &str) -> (r: Option<Duration>)
    ensures
        match r {
            Some(d) => java_duration(lines(output@)) == Some(d.ns()),
            None => java_duration(lines(output@)) is None,
        },
{
    let ls = crate::text::lines_of(output);
    assert(ls@.map_values(|l: Vec<char>| l@) =~= lines(output@));
    java_duration_v(&ls)
}


// ---------------------------------------------------------------------------
// Failure details
// ---------------------------------------------------------------------------

/// A test failure read from Maven or Gradle output.
#[derive(Debug, Clone)]
pub struct JavaTestFailure {
    /// The full test name, such as `testAdd(com.example.MathTest)`.
    pub test_name: String,
    /// The short method name.
    pub method_name: String,
    /// The error message.
    pub message: String,
    /// The first lines of the stack trace.
    pub stack_trace: Option<String>,
}

pub struct JavaFailView {
    pub test_name: Seq<char>,
    pub method_name: Seq<char>,
    pub message: Seq<char>,
    pub stack_trace: Option<Seq<char>>,
}

impl View for JavaTestFailure {
    type V = JavaFailView;

    open spec fn view(&self) -> JavaFailView {
        JavaFailView {
            test_name: self.test_name@,
            method_name: self.method_name@,
            message: self.message@,
            stack_trace: opt_str_view(self.stack_trace),
        }
    }
}

pub open spec fn java_failures_view(fs: Seq<JavaTestFailure>) -> Seq<JavaFailView> {
    fs.map_values(|f: JavaTestFailure| f@)
}

fn make_failure(test_name: &Vec<char>, method_name: &Vec<char>, message: &Vec<char>, stack_trace: &Option<Vec<char>>) -> (f: JavaTestFailure)
    ensures
        f@ == (JavaFailView { test_name: test_name@, method_name: method_name@, message: message@, stack_trace: opt_chars(*stack_trace) }),
{
    JavaTestFailure {
        test_name: string_of(test_name),
        method_name: string_of(method_name),
        message: string_of(message),
        stack_trace: match stack_trace {
            Some(st) => Some(string_of(st)),
            None => None,
        },
    }
}

/// A Maven line without its `[INFO] `, `[ERROR] ` or `[WARNING] ` tag,
/// trimmed.
pub open spec fn maven_stripped(l: Seq<char>) -> Seq<char> {
    trim(
        match strip_prefix(l, "[INFO] "@) {
            Some(r) => r,
            None => match strip_prefix(l, "[ERROR] "@) {
                Some(r) => r,
                None => match strip_prefix(l, "[WARNING] "@) {
                    Some(r) => r,
                    None => l,
                },
            },
        },
    )
}

fn maven_stripped_v(l: &Vec<char>) -> (r: Vec<char>)
    ensures
        r@ == maven_stripped(l@),
{
    match strip_prefix_v(l, "[INFO] ") {
        Some(r) => trim_v(&r),
        None => match strip_prefix_v(l, "[ERROR] ") {
            Some(r) => trim_v(&r),
            None => match strip_prefix_v(l, "[WARNING] ") {
                Some(r) => trim_v(&r),
                None => trim_v(l),
            },
        },
    }
}

/// Strip a Maven log tag (`[INFO] `, `[ERROR] ` or `[WARNING] `) and trim.
pub fn strip_maven_prefix(line: &str) -> (r: String)
    ensures
        r@ == maven_stripped(line@),
{
    string_of(&maven_stripped_v(&chars_of(line)))
}

/// A failure line `method(Class): message`.
pub open spec fn maven_failure_line(l: Seq<char>) -> Option<JavaFailView> {
    match find_char(l, '(') {
        None => None,
        Some(po) => match find_char(l, ')') {
            None => None,
            Some(pc) => if pc <= po {
                None
            } else {
                let message = if pc + 1 < l.len() {
                    let rest = l.skip(pc + 1);
                    trim(
                        match strip_prefix(rest, ":"@) {
                            Some(r) => r,
                            None => match strip_prefix(rest, ": "@) {
                                Some(r) => r,
                                None => rest,
                            },
                        },
                    )
                } else {
                    seq![]
                };
                Some(JavaFailView {
                    test_name: trim(l.take(pc + 1)),
                    method_name: trim(l.take(po)),
                    message: message,
                    stack_trace: None,
                })
            },
        },
    }
}

fn maven_failure_line_v(l: &Vec<char>) -> (r: Option<JavaTestFailure>)
    ensures
        match r {
            Some(f) => maven_failure_line(l@) == Some(f@),
            None => maven_failure_line(l@) is None,
        },
{
    let po = match find_char_v(l, '(') {
        Some(k) => k,
        None => {
            return None;
        },
    };
    let pc = match find_char_v(l, ')') {
        Some(k) => k,
        None => {
            return None;
        },
    };
    if pc <= po {
        return None;
    }
    let n = l.len();
    let message = if pc + 1 < n {
        let rest = slice(l, pc + 1, n);
        assert(rest@ =~= l@.skip(pc + 1));
        match strip_prefix_v(&rest, ":") {
            Some(r) => trim_v(&r),
            None => match strip_prefix_v(&rest, ": ") {
                Some(r) => trim_v(&r),
                None => trim_v(&rest),
            },
        }
    } else {
        Vec::new()
    };
    let tn = slice(l, 0, pc + 1);
    assert(tn@ =~= l@.take(pc + 1));
    let mn = slice(l, 0, po);
    assert(mn@ =~= l@.take(po as int));
    let f = make_failure(&trim_v(&tn), &trim_v(&mn), &message, &None);
    assert(message@ =~= maven_failure_line(l@)->0.message);
    Some(f)
}

/// Parse one Maven failure line `testDivide(com.example.AppTest): message`.
pub fn parse_maven_failure_line(line: &str) -> (r: Option<JavaTestFailure>)
    ensures
        match r {
            Some(f) => maven_failure_line(line@) == Some(f@),
            None => maven_failure_line(line@) is None,
        },
{
    maven_failure_line_v(&chars_of(line))
}

/// Reading state of a failure section: the failures read and whether the
/// reader is inside the section.
pub struct SectionState {
    pub out: Seq<JavaFailView>,
    pub inside: bool,
}

/// `Failed tests:` and `Tests in error:` open the section; a blank line or
/// `Tests run:` ends it; inside it, each failure line is read.
pub open spec fn sec_step(st: SectionState, line: Seq<char>) -> SectionState {
    let c = maven_stripped(trim(line));
    if c == "Failed tests:"@ || c == "Tests in error:"@ {
        SectionState { inside: true, ..st }
    } else if st.inside {
        if c.len() == 0 || starts_with(c, "Tests run:"@) {
            SectionState { inside: false, ..st }
        } else {
            match maven_failure_line(c) {
                Some(f) => SectionState { out: st.out.push(f), ..st },
                None => st,
            }
        }
    } else {
        st
    }
}

pub open spec fn sec_fold(ls: Seq<Seq<char>>) -> SectionState
    decreases ls.len(),
{
    if ls.len() == 0 { SectionState { out: seq![], inside: false } } else { sec_step(sec_fold(ls.drop_last()), ls.last()) }
}

/// The failures of Maven's `Failed tests:` and `Tests in error:` sections.
pub open spec fn maven_section_failures(ls: Seq<Seq<char>>) -> Seq<JavaFailView> {
    sec_fold(ls).out
}

fn maven_section_v(ls: &Vec<Vec<char>>) -> (r: Vec<JavaTestFailure>)
    ensures
        java_failures_view(r@) == maven_section_failures(ls@.map_values(|l: Vec<char>| l@)),
{
    let ghost lv = ls@.map_values(|l: Vec<char>| l@);
    let mut out: Vec<JavaTestFailure> = Vec::new();
    let mut inside = false;
    let mut i: usize = 0;
    while i < ls.len()
        invariant
            i <= ls.len(),
            lv == ls@.map_values(|l: Vec<char>| l@),
            java_failures_view(out@) == sec_fold(lv.take(i as int)).out,
            inside == sec_fold(lv.take(i as int)).inside,
        decreases ls.len() - i,
    {
        assert(lv.take(i + 1).drop_last() =~= lv.take(i as int));
        assert(lv.take(i + 1).last() == ls@[i as int]@);
        let c = maven_stripped_v(&trim_v(&ls[i]));
        if eq(&c, &chars_of("Failed tests:")) || eq(&c, &chars_of("Tests in error:")) {
            inside = true;
        } else if inside {
            if c.len() == 0 || starts_with_str(&c, "Tests run:") {
                inside = false;
            } else {
                match maven_failure_line_v(&c) {
                    Some(f) => {
                        let ghost before = java_failures_view(out@);
                        out.push(f);
                        assert(java_failures_view(out@) =~= before.push(f@));
                    },
                    None => {},
                }
            }
        }
        i += 1;
    }
    assert(lv.take(ls.len() as int) =~= lv);
    out
}

/// Parse Maven's `Failed tests:` and `Tests in error:` sections.
pub fn parse_maven_failed_tests_section(output: &str) -> (r: Vec<JavaTestFailure>)
    ensures
        java_failures_view(r@) == maven_section_failures(lines(output@)),
{
    let ls = crate::text::lines_of(output);
    assert(ls@.map_values(|l: Vec<char>| l@) =~= lines(output@));
    maven_section_v(&ls)
}

/// A message cut at 500 bytes, marked with `...`.
pub fn truncate_java_message(msg: &str, max_len: usize) -> (r: String)
    requires
        crate::adapters::util::utf8_len(msg@) > max_len ==> crate::adapters::util::chars_in_bytes(msg@, max_len as nat) is Some,
    ensures
        r@ == cut_to(msg@, max_len as nat),
{
    truncate_message(msg, max_len)
}

fn cut500(m: &Vec<char>) -> (r: Vec<char>)
    requires
        cut_ok(m@),
    ensures
        r@ == cut_to(m@, 500),
{
    let s = truncate_message(string_of(m).as_str(), 500);
    chars_of_string(&s)
}


/// Reading state of Gradle failure blocks.
pub struct GfState {
    pub out: Seq<JavaFailView>,
    pub open: bool,
    pub test_name: Seq<char>,
    pub method: Seq<char>,
    pub msgs: Seq<Seq<char>>,
    pub stack: Seq<Seq<char>>,
}

/// At most the first five lines.
pub open spec fn first_five(s: Seq<Seq<char>>) -> Seq<Seq<char>> {
    if s.len() <= 5 { s } else { s.take(5) }
}

/// The failure of the open block.
pub open spec fn gf_block(st: GfState) -> JavaFailView {
    JavaFailView {
        test_name: st.test_name,
        method_name: st.method,
        message: cut_to(join(st.msgs, "\n"@), 500),
        stack_trace: if st.stack.len() == 0 { None } else { Some(join(first_five(st.stack), "\n"@)) },
    }
}

pub open spec fn gf_close(st: GfState) -> GfState {
    if st.open { GfState { out: st.out.push(gf_block(st)), open: false, ..st } } else { st }
}

/// An indented line: four spaces or a tab in front.
pub open spec fn is_indented(l: Seq<char>) -> bool {
    starts_with(l, "    "@) || starts_with(l, "\t"@)
}

/// A Gradle failure header: `Class > method FAILED`.
pub open spec fn is_gradle_failure_header(t: Seq<char>) -> bool {
    contains(t, " > "@) && ends_with(t, "FAILED"@)
}

/// Indented lines after a header are its message (stack lines start with
/// `at `); any other line closes the block and may open the next.
pub open spec fn gf_step(st: GfState, l: Seq<char>) -> GfState {
    if st.open && is_indented(l) {
        let c = trim(l);
        if starts_with(c, "at "@) {
            GfState { stack: st.stack.push(c), ..st }
        } else if c.len() > 0 {
            GfState { msgs: st.msgs.push(c), ..st }
        } else {
            st
        }
    } else {
        let s2 = gf_close(st);
        let t = trim(l);
        if is_gradle_failure_header(t) {
            let a = find(t, " > "@)->0;
            let rest = t.skip(a + 3);
            let method = trim(
                match strip_suffix(rest, " FAILED"@) {
                    Some(r) => r,
                    None => rest,
                },
            );
            GfState { open: true, test_name: t.take(a) + "."@ + method, method: method, msgs: seq![], stack: seq![], ..s2 }
        } else {
            s2
        }
    }
}

pub open spec fn gf_empty() -> GfState {
    GfState { out: seq![], open: false, test_name: seq![], method: seq![], msgs: seq![], stack: seq![] }
}

pub open spec fn gf_fold(ls: Seq<Seq<char>>) -> GfState
    decreases ls.len(),
{
    if ls.len() == 0 { gf_empty() } else { gf_step(gf_fold(ls.drop_last()), ls.last()) }
}

/// The Gradle failure blocks, in order.
pub open spec fn gradle_failures(ls: Seq<Seq<char>>) -> Seq<JavaFailView> {
    gf_close(gf_fold(ls)).out
}

/// A block's message can be cut when it is closed.
pub open spec fn gf_close_ok(st: GfState) -> bool {
    st.open ==> cut_ok(join(st.msgs, "\n"@))
}

/// Every block's message can be cut.
pub open spec fn gf_ok(ls: Seq<Seq<char>>) -> bool
    decreases ls.len(),
{
    if ls.len() == 0 {
        true
    } else {
        let st = gf_fold(ls.drop_last());
        gf_ok(ls.drop_last()) && (!(st.open && is_indented(ls.last())) ==> gf_close_ok(st))
    }
}

proof fn lemma_gf_ok_prefix(ls: Seq<Seq<char>>, n: int)
    requires
        0 < n <= ls.len(),
        gf_ok(ls),
    ensures
        gf_ok(ls.take(n)),
        ({
            let st = gf_fold(ls.take(n - 1));
            !(st.open && is_indented(ls[n - 1])) ==> gf_close_ok(st)
        }),
    decreases ls.len() - n,
{
    if n == ls.len() {
        assert(ls.take(n) =~= ls);
    } else {
        lemma_gf_ok_prefix(ls, n + 1);
        assert(ls.take(n + 1).drop_last() =~= ls.take(n));
    }
    let p = ls.take(n);
    assert(gf_ok(p));
    assert(p.drop_last() =~= ls.take(n - 1));
    assert(p.last() == ls[n - 1]);
}

struct GradleReader {
    out: Vec<JavaTestFailure>,
    open: bool,
    test_name: Vec<char>,
    method: Vec<char>,
    msgs: Vec<Vec<char>>,
    stack: Vec<Vec<char>>,
}

impl GradleReader {
    spec fn state(&self) -> GfState {
        GfState {
            out: java_failures_view(self.out@),
            open: self.open,
            test_name: self.test_name@,
            method: self.method@,
            msgs: self.msgs@.map_values(|m: Vec<char>| m@),
            stack: self.stack@.map_values(|m: Vec<char>| m@),
        }
    }

    fn close_ok(&self) -> (b: bool)
        ensures
            b == gf_close_ok(self.state()),
    {
        if !self.open {
            return true;
        }
        cut_ok_v(&join_v(&self.msgs, &chars_of("\n")))
    }

    fn close(&mut self)
        requires
            gf_close_ok(old(self).state()),
        ensures
            final(self).state() == gf_close(old(self).state()),
    {
        if self.open {
            let ghost st = self.state();
            let nl = chars_of("\n");
            let message = cut500(&join_v(&self.msgs, &nl));
            let stack = if self.stack.len() == 0 {
                None
            } else {
                let mut first: Vec<Vec<char>> = Vec::new();
                let mut k: usize = 0;
                let lim = if self.stack.len() <= 5 { self.stack.len() } else { 5 };
                while k < lim
                    invariant
                        k <= lim,
                        lim <= self.stack@.len(),
                        lim == if self.stack@.len() <= 5 { self.stack@.len() } else { 5 },
                        first@.map_values(|m: Vec<char>| m@) == self.stack@.map_values(|m: Vec<char>| m@).take(k as int),
                    decreases lim - k,
                {
                    let ghost before = first@.map_values(|m: Vec<char>| m@);
                    let x = slice(&self.stack[k], 0, self.stack[k].len());
                    assert(x@ =~= self.stack@[k as int]@);
                    first.push(x);
                    let ghost sm = self.stack@.map_values(|m: Vec<char>| m@);
                    assert(first@.map_values(|m: Vec<char>| m@) =~= before.push(x@));
                    assert(sm[k as int] == self.stack@[k as int]@);
                    assert(sm.take(k + 1) =~= sm.take(k as int).push(sm[k as int]));
                    k += 1;
                }
                assert(first@.map_values(|m: Vec<char>| m@) =~= first_five(st.stack));
                Some(join_v(&first, &nl))
            };
            let f = make_failure(&self.test_name, &self.method, &message, &stack);
            assert(f@ == gf_block(st));
            let ghost before = java_failures_view(self.out@);
            self.out.push(f);
            assert(java_failures_view(self.out@) =~= before.push(f@));
            self.open = false;
        }
    }

    fn step(&mut self, l: &Vec<char>)
        requires
            !(old(self).state().open && is_indented(l@)) ==> gf_close_ok(old(self).state()),
        ensures
            final(self).state() == gf_step(old(self).state(), l@),
    {
        if self.open && (starts_with_str(l, "    ") || starts_with_str(l, "\t")) {
            let c = trim_v(l);
            if starts_with_str(&c, "at ") {
                let ghost before = self.stack@.map_values(|m: Vec<char>| m@);
                self.stack.push(c);
                assert(self.stack@.map_values(|m: Vec<char>| m@) =~= before.push(trim(l@)));
            } else if c.len() > 0 {
                let ghost before = self.msgs@.map_values(|m: Vec<char>| m@);
                self.msgs.push(c);
                assert(self.msgs@.map_values(|m: Vec<char>| m@) =~= before.push(trim(l@)));
            }
            return;
        }
        self.close();
        let t = trim_v(l);
        if contains_str(&t, " > ") && ends_with_str(&t, "FAILED") {
            proof {
                reveal_strlit(" > ");
            }
            let a = match find_str(&t, " > ") {
                Some(a) => a,
                None => {
                    proof {
                        assert(false);
                    }
                    0
                },
            };
            assert(occurs_at(t@, " > "@, a as int));
            let n = t.len();
            let rest = slice(&t, a + 3, n);
            assert(rest@ =~= t@.skip(a + 3));
            let method = match strip_suffix_v(&rest, " FAILED") {
                Some(r) => trim_v(&r),
                None => trim_v(&rest),
            };
            let mut name = slice(&t, 0, a);
            assert(name@ =~= t@.take(a as int));
            name.push('.');
            append(&mut name, &method);
            assert(name@ =~= t@.take(a as int) + "."@ + method@) by {
                reveal_strlit(".");
            }
            self.open = true;
            self.test_name = name;
            self.method = method;
            self.msgs = Vec::new();
            self.stack = Vec::new();
            assert(self.msgs@.map_values(|m: Vec<char>| m@) =~= seq![]);
            assert(self.stack@.map_values(|m: Vec<char>| m@) =~= seq![]);
        }
    }
}

/// Whether every Gradle failure block's message can be cut.
fn gf_all_ok_v(ls: &Vec<Vec<char>>) -> (b: bool)
    ensures
        b == (gf_ok(ls@.map_values(|l: Vec<char>| l@)) && gf_close_ok(gf_fold(ls@.map_values(|l: Vec<char>| l@)))),
{
    let ghost lv = ls@.map_values(|l: Vec<char>| l@);
    let mut rd = GradleReader {
        out: Vec::new(),
        open: false,
        test_name: Vec::new(),
        method: Vec::new(),
        msgs: Vec::new(),
        stack: Vec::new(),
    };
    assert(rd.state() =~= gf_empty()) by {
        assert(java_failures_view(rd.out@) =~= seq![]);
        assert(rd.msgs@.map_values(|m: Vec<char>| m@) =~= seq![]);
        assert(rd.stack@.map_values(|m: Vec<char>| m@) =~= seq![]);
    }
    let mut i: usize = 0;
    assert(lv.take(0) =~= seq![]);
    while i < ls.len()
        invariant
            i <= ls.len(),
            lv == ls@.map_values(|l: Vec<char>| l@),
            gf_ok(lv.take(i as int)),
            rd.state() == gf_fold(lv.take(i as int)),
        decreases ls.len() - i,
    {
        assert(lv.take(i + 1).drop_last() =~= lv.take(i as int));
        assert(lv.take(i + 1).last() == ls@[i as int]@);
        let indented = starts_with_str(&ls[i], "    ") || starts_with_str(&ls[i], "\t");
        if !(rd.open && indented) && !rd.close_ok() {
            assert(!gf_ok(lv)) by {
                if gf_ok(lv) {
                    lemma_gf_ok_prefix(lv, i + 1);
                }
            }
            return false;
        }
        rd.step(&ls[i]);
        i += 1;
    }
    assert(lv.take(ls.len() as int) =~= lv);
    rd.close_ok()
}

fn gradle_failures_v(ls: &Vec<Vec<char>>) -> (r: Vec<JavaTestFailure>)
    requires
        gf_ok(ls@.map_values(|l: Vec<char>| l@)),
        gf_close_ok(gf_fold(ls@.map_values(|l: Vec<char>| l@))),
    ensures
        java_failures_view(r@) == gradle_failures(ls@.map_values(|l: Vec<char>| l@)),
{
    let ghost lv = ls@.map_values(|l: Vec<char>| l@);
    let mut rd = GradleReader {
        out: Vec::new(),
        open: false,
        test_name: Vec::new(),
        method: Vec::new(),
        msgs: Vec::new(),
        stack: Vec::new(),
    };
    assert(rd.state() =~= gf_empty()) by {
        assert(java_failures_view(rd.out@) =~= seq![]);
        assert(rd.msgs@.map_values(|m: Vec<char>| m@) =~= seq![]);
        assert(rd.stack@.map_values(|m: Vec<char>| m@) =~= seq![]);
    }
    let mut i: usize = 0;
    while i < ls.len()
        invariant
            i <= ls.len(),
            lv == ls@.map_values(|l: Vec<char>| l@),
            gf_ok(lv),
            rd.state() == gf_fold(lv.take(i as int)),
        decreases ls.len() - i,
    {
        proof {
            lemma_gf_ok_prefix(lv, i + 1);
        }
        assert(lv.take(i + 1).drop_last() =~= lv.take(i as int));
        assert(lv.take(i + 1).last() == ls@[i as int]@);
        rd.step(&ls[i]);
        i += 1;
    }
    assert(lv.take(ls.len() as int) =~= lv);
    rd.close();
    rd.out
}

/// Parse Gradle failure blocks (`Class > method FAILED` and the indented
/// lines after it).
pub fn parse_gradle_failures(output: &str) -> (r: Vec<JavaTestFailure>)
    requires
        gf_ok(lines(output@)),
        gf_close_ok(gf_fold(lines(output@))),
    ensures
        java_failures_view(r@) == gradle_failures(lines(output@)),
{
    let ls = crate::text::lines_of(output);
    assert(ls@.map_values(|l: Vec<char>| l@) =~= lines(output@));
    gradle_failures_v(&ls)
}


/// The method of a reference `AppTest.testDivide:42`: after the last dot,
/// before the first colon.
pub open spec fn method_of_ref(r: Seq<char>) -> Seq<char> {
    let seg = match rfind(r, "."@) {
        Some(k) => r.skip(k + 1),
        None => r,
    };
    match find_char(seg, ':') {
        Some(k) => seg.take(k),
        None => seg,
    }
}

/// A line of Maven's `[ERROR] Failures:` list: it has a dot, and a colon or
/// a space.
pub open spec fn is_error_entry(c: Seq<char>) -> bool {
    contains(c, "."@) && (contains(c, ":"@) || contains(c, " "@))
}

/// The message of such a line: what follows its first space.
pub open spec fn error_entry_message(c: Seq<char>) -> Seq<char> {
    match find_char(c, ' ') {
        Some(k) => c.skip(k + 1),
        None => seq![],
    }
}

pub open spec fn error_entry(c: Seq<char>) -> JavaFailView {
    let r = match find_char(c, ' ') {
        Some(k) => c.take(k),
        None => c,
    };
    JavaFailView { test_name: r, method_name: method_of_ref(r), message: cut_to(error_entry_message(c), 500), stack_trace: None }
}

/// `Failures:` and `Errors:` open the list; `Tests run:` or a `[` line
/// ends it.
pub open spec fn me_step(st: SectionState, line: Seq<char>) -> SectionState {
    let c = maven_stripped(trim(line));
    if c == "Failures:"@ || c == "Errors:"@ {
        SectionState { inside: true, ..st }
    } else if st.inside && c.len() > 0 {
        if is_error_entry(c) {
            SectionState { out: st.out.push(error_entry(c)), ..st }
        } else if starts_with(c, "Tests run:"@) || starts_with(c, "["@) {
            SectionState { inside: false, ..st }
        } else {
            st
        }
    } else {
        st
    }
}

pub open spec fn me_fold(ls: Seq<Seq<char>>) -> SectionState
    decreases ls.len(),
{
    if ls.len() == 0 { SectionState { out: seq![], inside: false } } else { me_step(me_fold(ls.drop_last()), ls.last()) }
}

/// The failures of Maven's `[ERROR] Failures:` list.
pub open spec fn maven_error_failures(ls: Seq<Seq<char>>) -> Seq<JavaFailView> {
    me_fold(ls).out
}

/// Every message of the list that is read can be cut.
pub open spec fn me_ok(ls: Seq<Seq<char>>) -> bool
    decreases ls.len(),
{
    if ls.len() == 0 {
        true
    } else {
        let st = me_fold(ls.drop_last());
        let c = maven_stripped(trim(ls.last()));
        me_ok(ls.drop_last()) && ((!(c == "Failures:"@ || c == "Errors:"@) && st.inside && c.len() > 0 && is_error_entry(c))
            ==> cut_ok(error_entry_message(c)))
    }
}

proof fn lemma_me_ok_prefix(ls: Seq<Seq<char>>, n: int)
    requires
        0 < n <= ls.len(),
        me_ok(ls),
    ensures
        me_ok(ls.take(n)),
        ({
            let st = me_fold(ls.take(n - 1));
            let c = maven_stripped(trim(ls[n - 1]));
            (!(c == "Failures:"@ || c == "Errors:"@) && st.inside && c.len() > 0 && is_error_entry(c))
                ==> cut_ok(error_entry_message(c))
        }),
    decreases ls.len() - n,
{
    if n == ls.len() {
        assert(ls.take(n) =~= ls);
    } else {
        lemma_me_ok_prefix(ls, n + 1);
        assert(ls.take(n + 1).drop_last() =~= ls.take(n));
    }
    let p = ls.take(n);
    assert(me_ok(p));
    assert(p.drop_last() =~= ls.take(n - 1));
    assert(p.last() == ls[n - 1]);
}

fn method_of_ref_v(r: &Vec<char>) -> (m: Vec<char>)
    ensures
        m@ == method_of_ref(r@),
{
    let n = r.len();
    proof {
        reveal_strlit(".");
    }
    let seg = match rfind_str(r, ".") {
        Some(k) => {
            assert(occurs_at(r@, "."@, k as int));
            let x = slice(r, k + 1, n);
            assert(x@ =~= r@.skip(k + 1));
            x
        },
        None => slice(r, 0, n),
    };
    assert(seg@ =~= (match rfind(r@, "."@) {
        Some(k) => r@.skip(k + 1),
        None => r@,
    }));
    match find_char_v(&seg, ':') {
        Some(k) => {
            let x = slice(&seg, 0, k);
            assert(x@ =~= seg@.take(k as int));
            x
        },
        None => seg,
    }
}

fn error_entry_v(c: &Vec<char>) -> (f: JavaTestFailure)
    requires
        cut_ok(error_entry_message(c@)),
    ensures
        f@ == error_entry(c@),
{
    let n = c.len();
    let (r, m) = match find_char_v(c, ' ') {
        Some(k) => {
            let r = slice(c, 0, k);
            assert(r@ =~= c@.take(k as int));
            let m = slice(c, k + 1, n);
            assert(m@ =~= c@.skip(k + 1));
            (r, m)
        },
        None => (slice(c, 0, n), Vec::new()),
    };
    assert(r@ =~= error_entry(c@).test_name);
    assert(m@ =~= error_entry_message(c@));
    let method = method_of_ref_v(&r);
    let message = cut500(&m);
    make_failure(&r, &method, &message, &None)
}

/// Whether every message of Maven's error list that is read can be cut.
fn me_ok_v(ls: &Vec<Vec<char>>) -> (b: bool)
    ensures
        b == me_ok(ls@.map_values(|l: Vec<char>| l@)),
{
    let ghost lv = ls@.map_values(|l: Vec<char>| l@);
    let mut inside = false;
    let mut i: usize = 0;
    assert(lv.take(0) =~= seq![]);
    while i < ls.len()
        invariant
            i <= ls.len(),
            lv == ls@.map_values(|l: Vec<char>| l@),
            me_ok(lv.take(i as int)),
            inside == me_fold(lv.take(i as int)).inside,
        decreases ls.len() - i,
    {
        assert(lv.take(i + 1).drop_last() =~= lv.take(i as int));
        assert(lv.take(i + 1).last() == ls@[i as int]@);
        let c = maven_stripped_v(&trim_v(&ls[i]));
        if eq(&c, &chars_of("Failures:")) || eq(&c, &chars_of("Errors:")) {
            inside = true;
        } else if inside && c.len() > 0 {
            if contains_str(&c, ".") && (contains_str(&c, ":") || contains_str(&c, " ")) {
                let n = c.len();
                let m = match find_char_v(&c, ' ') {
                    Some(k) => {
                        let m = slice(&c, k + 1, n);
                        assert(m@ =~= c@.skip(k + 1));
                        m
                    },
                    None => Vec::new(),
                };
                assert(m@ == error_entry_message(c@));
                if !cut_ok_v(&m) {
                    assert(!me_ok(lv)) by {
                        if me_ok(lv) {
                            lemma_me_ok_prefix(lv, i + 1);
                        }
                    }
                    return false;
                }
            } else if starts_with_str(&c, "Tests run:") || starts_with_str(&c, "[") {
                inside = false;
            }
        }
        i += 1;
    }
    assert(lv.take(ls.len() as int) =~= lv);
    true
}

fn maven_error_failures_v(ls: &Vec<Vec<char>>) -> (r: Vec<JavaTestFailure>)
    requires
        me_ok(ls@.map_values(|l: Vec<char>| l@)),
    ensures
        java_failures_view(r@) == maven_error_failures(ls@.map_values(|l: Vec<char>| l@)),
{
    let ghost lv = ls@.map_values(|l: Vec<char>| l@);
    let mut out: Vec<JavaTestFailure> = Vec::new();
    let mut inside = false;
    let mut i: usize = 0;
    while i < ls.len()
        invariant
            i <= ls.len(),
            lv == ls@.map_values(|l: Vec<char>| l@),
            me_ok(lv),
            java_failures_view(out@) == me_fold(lv.take(i as int)).out,
            inside == me_fold(lv.take(i as int)).inside,
        decreases ls.len() - i,
    {
        proof {
            lemma_me_ok_prefix(lv, i + 1);
        }
        assert(lv.take(i + 1).drop_last() =~= lv.take(i as int));
        assert(lv.take(i + 1).last() == ls@[i as int]@);
        let c = maven_stripped_v(&trim_v(&ls[i]));
        if eq(&c, &chars_of("Failures:")) || eq(&c, &chars_of("Errors:")) {
            inside = true;
        } else if inside && c.len() > 0 {
            if contains_str(&c, ".") && (contains_str(&c, ":") || contains_str(&c, " ")) {
                let f = error_entry_v(&c);
                let ghost before = java_failures_view(out@);
                out.push(f);
                assert(java_failures_view(out@) =~= before.push(f@));
            } else if starts_with_str(&c, "Tests run:") || starts_with_str(&c, "[") {
                inside = false;
            }
        }
        i += 1;
    }
    assert(lv.take(ls.len() as int) =~= lv);
    out
}

/// Parse Maven's `[ERROR] Failures:` list.
pub fn parse_maven_error_failures(output: &str) -> (r: Vec<JavaTestFailure>)
    requires
        me_ok(lines(output@)),
    ensures
        java_failures_view(r@) == maven_error_failures(lines(output@)),
{
    let ls = crate::text::lines_of(output);
    assert(ls@.map_values(|l: Vec<char>| l@) =~= lines(output@));
    maven_error_failures_v(&ls)
}

/// The failures of a run: Maven's sections, else Gradle's blocks, else
/// Maven's error list.
pub open spec fn java_failures(ls: Seq<Seq<char>>) -> Seq<JavaFailView> {
    let a = maven_section_failures(ls);
    if a.len() > 0 {
        a
    } else {
        let b = gradle_failures(ls);
        if b.len() > 0 { b } else { maven_error_failures(ls) }
    }
}

/// The messages of the readers that run can be cut.
pub open spec fn java_failures_ok(ls: Seq<Seq<char>>) -> bool {
    &&& maven_section_failures(ls).len() == 0 ==> gf_ok(ls) && gf_close_ok(gf_fold(ls))
    &&& maven_section_failures(ls).len() == 0 && gradle_failures(ls).len() == 0 ==> me_ok(ls)
}

fn java_failures_ok_v(ls: &Vec<Vec<char>>) -> (b: bool)
    ensures
        b == java_failures_ok(ls@.map_values(|l: Vec<char>| l@)),
{
    let a = maven_section_v(ls);
    if a.len() > 0 {
        return true;
    }
    if !gf_all_ok_v(ls) {
        return false;
    }
    let g = gradle_failures_v(ls);
    if g.len() > 0 {
        return true;
    }
    me_ok_v(ls)
}

fn java_failures_v(ls: &Vec<Vec<char>>) -> (r: Vec<JavaTestFailure>)
    requires
        java_failures_ok(ls@.map_values(|l: Vec<char>| l@)),
    ensures
        java_failures_view(r@) == java_failures(ls@.map_values(|l: Vec<char>| l@)),
{
    let a = maven_section_v(ls);
    if a.len() > 0 {
        return a;
    }
    let b = gradle_failures_v(ls);
    if b.len() > 0 {
        return b;
    }
    maven_error_failures_v(ls)
}

/// Parse the failure details of Maven or Gradle output.
pub fn parse_java_failures(output: &str) -> (r: Vec<JavaTestFailure>)
    requires
        java_failures_ok(lines(output@)),
    ensures
        java_failures_view(r@) == java_failures(lines(output@)),
{
    let ls = crate::text::lines_of(output);
    assert(ls@.map_values(|l: Vec<char>| l@) =~= lines(output@));
    java_failures_v(&ls)
}

// ---------------------------------------------------------------------------
// Matching failures to cases
// ---------------------------------------------------------------------------

/// A failure names a case: by method, by `.method` at the end of its full
/// name, by containing the case name, or by suite and method.
pub open spec fn java_names(f: JavaFailView, test: Seq<char>, suite: Seq<char>) -> bool {
    test == f.method_name || ends_with(f.test_name, "."@ + test) || contains(f.test_name, test)
        || (contains(f.test_name, suite) && f.method_name == test)
}

pub open spec fn first_java_match(fs: Seq<JavaFailView>, test: Seq<char>, suite: Seq<char>) -> Option<JavaFailView>
    decreases fs.len(),
{
    if fs.len() == 0 {
        None
    } else if java_names(fs[0], test, suite) {
        Some(fs[0])
    } else {
        first_java_match(fs.drop_first(), test, suite)
    }
}

/// The failure for a case: the first that names it, else the only failure
/// for a `failed_test_<k>` case.
pub open spec fn java_match(fs: Seq<JavaFailView>, test: Seq<char>, suite: Seq<char>) -> Option<JavaFailView> {
    match first_java_match(fs, test, suite) {
        Some(f) => Some(f),
        None => if fs.len() == 1 && starts_with(test, "failed_test_"@) { Some(fs[0]) } else { None },
    }
}

fn java_match_v(fs: &[JavaTestFailure], test: &Vec<char>, suite: &Vec<char>) -> (r: Option<usize>)
    ensures
        match r {
            Some(k) => k < fs@.len() && java_match(java_failures_view(fs@), test@, suite@) == Some(fs@[k as int]@),
            None => java_match(java_failures_view(fs@), test@, suite@) is None,
        },
{
    let ghost fv = java_failures_view(fs@);
    let mut dot_test = chars_of(".");
    append(&mut dot_test, test);
    assert(dot_test@ =~= "."@ + test@) by {
        reveal_strlit(".");
    }
    let mut k: usize = 0;
    assert(fv.skip(0) =~= fv);
    while k < fs.len()
        invariant
            k <= fs@.len(),
            fv == java_failures_view(fs@),
            dot_test@ == "."@ + test@,
            first_java_match(fv, test@, suite@) == first_java_match(fv.skip(k as int), test@, suite@),
        decreases fs@.len() - k,
    {
        assert(fv.skip(k as int)[0] == fs@[k as int]@);
        assert(fv.skip(k as int).drop_first() =~= fv.skip(k + 1));
        let tn = chars_of_string(&fs[k].test_name);
        let mn = chars_of_string(&fs[k].method_name);
        if eq(test, &mn) || crate::text::ends_with_v(&tn, &dot_test) || crate::text::contains_v(&tn, test)
            || (crate::text::contains_v(&tn, suite) && eq(&mn, test)) {
            return Some(k);
        }
        k += 1;
    }
    if fs.len() == 1 && starts_with_str(test, "failed_test_") {
        Some(0)
    } else {
        None
    }
}

/// The failure that explains a test of a suite.
pub fn find_matching_java_failure<'a>(test_name: &str, suite_name: &str, failures: &'a [JavaTestFailure]) -> (r: Option<&'a JavaTestFailure>)
    ensures
        match r {
            Some(f) => java_match(java_failures_view(failures@), test_name@, suite_name@) == Some(f@),
            None => java_match(java_failures_view(failures@), test_name@, suite_name@) is None,
        },
{
    match java_match_v(failures, &chars_of(test_name), &chars_of(suite_name)) {
        Some(k) => Some(&failures[k]),
        None => None,
    }
}

/// The first line of a text, if it has one.
pub open spec fn first_line(s: Seq<char>) -> Option<Seq<char>> {
    if lines(s).len() > 0 { Some(lines(s)[0]) } else { None }
}

/// A failed case without an error takes the message of its failure and
/// the first stack line as location.
pub open spec fn java_enrich_case(c: CaseView, suite: Seq<char>, fs: Seq<JavaFailView>) -> CaseView {
    if c.status != TestStatus::Failed || c.error is Some {
        c
    } else {
        match java_match(fs, c.name, suite) {
            Some(f) => CaseView {
                error: Some(ErrorView {
                    message: f.message,
                    location: match f.stack_trace {
                        Some(st) => first_line(st),
                        None => None,
                    },
                }),
                ..c
            },
            None => c,
        }
    }
}

pub open spec fn java_enrich(suites: Seq<SuiteView>, fs: Seq<JavaFailView>) -> Seq<SuiteView> {
    suites.map_values(|s: SuiteView| SuiteView { name: s.name, tests: s.tests.map_values(|c: CaseView| java_enrich_case(c, s.name, fs)) })
}

fn first_line_v(s: &String) -> (r: Option<String>)
    ensures
        opt_str_view(r) == first_line(s@),
{
    let ls = lines_v(&chars_of_string(s));
    if ls.len() > 0 {
        Some(string_of(&ls[0]))
    } else {
        None
    }
}

fn java_enrich_case_v(c: TestCase, suite: &Vec<char>, fs: &[JavaTestFailure]) -> (r: TestCase)
    ensures
        r@ == java_enrich_case(c@, suite@, java_failures_view(fs@)),
{
    if c.status != TestStatus::Failed || c.error.is_some() {
        return c;
    }
    match java_match_v(fs, &chars_of_string(&c.name), suite) {
        Some(k) => {
            let f = &fs[k];
            let message = string_of(&chars_of_string(&f.message));
            let location = match &f.stack_trace {
                Some(st) => first_line_v(st),
                None => None,
            };
            TestCase { name: c.name, status: c.status, duration: c.duration, error: Some(TestError { message, location }) }
        },
        None => c,
    }
}

/// Give failed cases without an error the details of their failure.
pub fn enrich_with_errors(suites: &mut Vec<TestSuite>, failures: &[JavaTestFailure])
    ensures
        suites_view(final(suites)@) == java_enrich(suites_view(old(suites)@), java_failures_view(failures@)),
{
    let ghost sv = suites_view(suites@);
    let ghost fv = java_failures_view(failures@);
    let ghost goal = java_enrich(sv, fv);
    let mut rest: Vec<TestSuite> = Vec::new();
    std::mem::swap(&mut rest, suites);
    let ghost orig = rest@;
    let ghost total: int = rest.len() as int;
    let mut i: usize = 0;
    assert(rest@ =~= orig.skip(0));
    assert(suites_view(suites@) =~= goal.take(0));
    while rest.len() > 0
        invariant
            i + rest@.len() == orig.len(),
            total == orig.len(),
            total <= usize::MAX,
            rest@ == orig.skip(i as int),
            sv == suites_view(orig),
            fv == java_failures_view(failures@),
            goal == java_enrich(sv, fv),
            suites_view(suites@) == goal.take(i as int),
        decreases rest.len(),
    {
        let s = rest.remove(0);
        assert(s == orig[i as int]);
        assert(rest@ =~= orig.skip(i + 1));
        let ghost si = sv[i as int];
        let sname = chars_of_string(&s.name);
        let mut tests: Vec<TestCase> = Vec::new();
        let ghost n: int = s.tests.len() as int;
        let mut src = s.tests;
        let mut j: usize = 0;
        assert(src@ =~= s.tests@.skip(0));
        while src.len() > 0
            invariant
                j + src@.len() == s.tests@.len(),
                n == s.tests@.len(),
                n <= usize::MAX,
                si == sv[i as int],
                si.tests == cases_view(s.tests@),
                sname@ == si.name,
                src@ == s.tests@.skip(j as int),
                fv == java_failures_view(failures@),
                cases_view(tests@) == si.tests.take(j as int).map_values(|c: CaseView| java_enrich_case(c, si.name, fv)),
            decreases src.len(),
        {
            let c = src.remove(0);
            assert(c == s.tests@[j as int]);
            assert(src@ =~= s.tests@.skip(j + 1));
            assert(c@ == si.tests[j as int]);
            let e = java_enrich_case_v(c, &sname, failures);
            let ghost before = tests@;
            tests.push(e);
            assert(cases_view(tests@) =~= cases_view(before).push(e@));
            assert(si.tests.take(j + 1).map_values(|c: CaseView| java_enrich_case(c, si.name, fv))
                =~= si.tests.take(j as int).map_values(|c: CaseView| java_enrich_case(c, si.name, fv)).push(java_enrich_case(si.tests[j as int], si.name, fv)));
            j += 1;
        }
        assert(si.tests.take(j as int) =~= si.tests);
        let ns = TestSuite { name: s.name, tests };
        let ghost before = suites@;
        suites.push(ns);
        assert(suites_view(suites@) =~= suites_view(before).push(ns@));
        assert(goal.take(i + 1) =~= goal.take(i as int).push(goal[i as int]));
        i += 1;
    }
    assert(goal.take(i as int) =~= goal);
}


// ---------------------------------------------------------------------------
// Surefire XML reports
// ---------------------------------------------------------------------------

/// `s` with each occurrence of `p`, from left to right, replaced by `r`.
pub open spec fn replace_all(s: Seq<char>, p: Seq<char>, r: Seq<char>) -> Seq<char>
    decreases s.len(),
{
    if p.len() == 0 {
        s
    } else {
        match find(s, p) {
            Some(i) => {
                proof {
                    crate::text::lemma_find_from_bounds(s, p, 0);
                }
                s.take(i) + r + replace_all(s.skip(i + p.len()), p, r)
            },
            None => s,
        }
    }
}

pub(crate) fn replace_all_v(s: &Vec<char>, p: &str, r: &str) -> (out: Vec<char>)
    requires
        p@.len() > 0,
    ensures
        out@ == replace_all(s@, p@, r@),
{
    let pv = chars_of(p);
    let mut out: Vec<char> = Vec::new();
    let mut cur = slice(s, 0, s.len());
    assert(cur@ =~= s@);
    loop
        invariant
            pv@ == p@,
            p@.len() > 0,
            out@ + replace_all(cur@, p@, r@) == replace_all(s@, p@, r@),
        decreases cur.len(),
    {
        match crate::text::find_v(&cur, &pv) {
            Some(i) => {
                assert(occurs_at(cur@, pv@, i as int));
                let n = cur.len();
                let k = pv.len();
                let head = slice(&cur, 0, i);
                let next = slice(&cur, i + k, n);
                assert(head@ =~= cur@.take(i as int));
                assert(next@ =~= cur@.skip(i + p@.len()));
                append(&mut out, &head);
                append_str(&mut out, r);
                assert(out@ + replace_all(next@, p@, r@) =~= replace_all(s@, p@, r@));
                cur = next;
            },
            None => {
                append(&mut out, &cur);
                return out;
            },
        }
    }
}

/// The five basic XML entities decoded, one after the other.
pub open spec fn xml_unescape_spec(s: Seq<char>) -> Seq<char> {
    replace_all(
        replace_all(
            replace_all(replace_all(replace_all(s, "&lt;"@, "<"@), "&gt;"@, ">"@), "&amp;"@, "&"@),
            "&quot;"@,
            "\""@,
        ),
        "&apos;"@,
        "'"@,
    )
}

fn xml_unescape_v(s: &Vec<char>) -> (r: Vec<char>)
    ensures
        r@ == xml_unescape_spec(s@),
{
    proof {
        reveal_strlit("&lt;");
        reveal_strlit("&gt;");
        reveal_strlit("&amp;");
        reveal_strlit("&quot;");
        reveal_strlit("&apos;");
    }
    let a = replace_all_v(s, "&lt;", "<");
    let b = replace_all_v(&a, "&gt;", ">");
    let c = replace_all_v(&b, "&amp;", "&");
    let d = replace_all_v(&c, "&quot;", "\"");
    replace_all_v(&d, "&apos;", "'")
}

/// Decode the basic XML entities.
pub fn xml_unescape(s: &str) -> (r: String)
    ensures
        r@ == xml_unescape_spec(s@),
{
    string_of(&xml_unescape_v(&chars_of(s)))
}

/// The value of `attr` in the first `<tag` element, read up to its `>`.
pub open spec fn xml_attr(content: Seq<char>, tag: Seq<char>, attr: Seq<char>) -> Option<Seq<char>> {
    match find(content, "<"@ + tag) {
        Some(ts) => {
            let tc = content.skip(ts);
            match find_char(tc, '>') {
                Some(te) => crate::adapters::dotnet::trx_attr(tc.take(te), attr),
                None => None,
            }
        },
        None => None,
    }
}

fn xml_attr_v(content: &Vec<char>, tag: &str, attr: &str) -> (r: Option<Vec<char>>)
    ensures
        match r {
            Some(x) => xml_attr(content@, tag@, attr@) == Some(x@),
            None => xml_attr(content@, tag@, attr@) is None,
        },
{
    let mut open = chars_of("<");
    append_str(&mut open, tag);
    assert(open@ =~= "<"@ + tag@);
    match crate::text::find_v(content, &open) {
        Some(ts) => {
            let n = content.len();
            let tc = slice(content, ts, n);
            assert(tc@ =~= content@.skip(ts as int));
            match find_char_v(&tc, '>') {
                Some(te) => {
                    let tt = slice(&tc, 0, te);
                    assert(tt@ =~= tc@.take(te as int));
                    crate::adapters::dotnet::trx_attr_v(&tt, &chars_of(attr))
                },
                None => None,
            }
        },
        None => None,
    }
}

/// Extract an attribute's value from the first `<tag` element.
pub fn extract_xml_attr(content: &str, tag: &str, attr: &str) -> (r: Option<String>)
    ensures
        match r {
            Some(x) => xml_attr(content@, tag@, attr@) == Some(x@),
            None => xml_attr(content@, tag@, attr@) is None,
        },
{
    match xml_attr_v(&chars_of(content), tag, attr) {
        Some(x) => Some(string_of(&x)),
        None => None,
    }
}

/// Just past the `/>` of an element whose opening tag, starting before
/// `from`, closes itself.
pub open spec fn self_closing_end(c: Seq<char>, from: int) -> Option<int> {
    let rem = c.skip(from);
    match find_char(rem, '>') {
        Some(fc) => if fc > 0 && rem[fc - 1] == '/' { Some(from + fc + 1) } else { None },
        None => None,
    }
}

fn self_closing_end_v(c: &Vec<char>, from: usize) -> (r: Option<usize>)
    requires
        from <= c.len(),
    ensures
        match r {
            Some(e) => self_closing_end(c@, from as int) == Some(e as int) && from < e <= c.len(),
            None => self_closing_end(c@, from as int) is None,
        },
{
    let n = c.len();
    let rem = slice(c, from, n);
    assert(rem@ =~= c@.skip(from as int));
    match find_char_v(&rem, '>') {
        Some(fc) => {
            if fc > 0 && rem[fc - 1] == '/' {
                Some(from + fc + 1)
            } else {
                None
            }
        },
        None => None,
    }
}

/// Find the end of a self-closing element from `from` on.
pub fn find_self_closing_end(content: &str, from: usize) -> (r: Option<usize>)
    requires
        from <= content@.len(),
    ensures
        match r {
            Some(e) => self_closing_end(content@, from as int) == Some(e as int),
            None => self_closing_end(content@, from as int) is None,
        },
{
    self_closing_end_v(&chars_of(content), from)
}

/// The end of the `<testcase` element whose attributes start at `cs`, and
/// whether it closes itself.
pub open spec fn testcase_end(c: Seq<char>, cs: int) -> Option<(int, bool)> {
    match self_closing_end(c, cs) {
        Some(e) => Some((e, true)),
        None => match find(c.skip(cs), "</testcase>"@) {
            Some(cl) => Some((cs + cl + 11, false)),
            None => None,
        },
    }
}

/// The case a `<testcase>` element describes.
pub open spec fn surefire_case(tc: Seq<char>, self_closing: bool) -> CaseView {
    let name = match xml_attr(tc, "testcase"@, "name"@) {
        Some(n) => n,
        None => "unknown"@,
    };
    let time = match xml_attr(tc, "testcase"@, "time"@) {
        Some(t) => t,
        None => seq![],
    };
    let duration = match decimal_nanos(time, 1_000_000_000, 9, 1) {
        Some(d) => d,
        None => 0,
    };
    if self_closing {
        CaseView { name: name, status: TestStatus::Passed, duration: duration, error: None }
    } else if contains(tc, "<failure"@) {
        let msg = match xml_attr(tc, "failure"@, "message"@) {
            Some(m) => m,
            None => "Test failed"@,
        };
        let location = match xml_attr(tc, "failure"@, "type"@) {
            Some(t) => Some("type: "@ + t),
            None => None,
        };
        CaseView {
            name: name,
            status: TestStatus::Failed,
            duration: duration,
            error: Some(ErrorView { message: xml_unescape_spec(msg), location: location }),
        }
    } else if contains(tc, "<error"@) {
        let msg = match xml_attr(tc, "error"@, "message"@) {
            Some(m) => m,
            None => "Test error"@,
        };
        CaseView {
            name: name,
            status: TestStatus::Failed,
            duration: duration,
            error: Some(ErrorView { message: xml_unescape_spec(msg), location: None }),
        }
    } else if contains(tc, "<skipped"@) {
        CaseView { name: name, status: TestStatus::Skipped, duration: duration, error: None }
    } else {
        CaseView { name: name, status: TestStatus::Passed, duration: duration, error: None }
    }
}

pub proof fn lemma_testcase_end_after(c: Seq<char>, cs: int)
    requires
        0 <= cs <= c.len(),
    ensures
        testcase_end(c, cs) matches Some((e, _)) ==> cs < e <= c.len(),
{
    reveal_strlit("</testcase>");
    let rem = c.skip(cs);
    crate::text::lemma_find_from_bounds(rem, seq!['>'], 0);
    crate::text::lemma_find_from_bounds(rem, "</testcase>"@, 0);
}

/// The cases of the `<testcase>` elements from position `from` on.
pub open spec fn surefire_cases(c: Seq<char>, from: int) -> Seq<CaseView>
    decreases c.len() - from,
{
    if from < 0 || from > c.len() {
        seq![]
    } else {
        match find(c.skip(from), "<testcase"@) {
            None => seq![],
            Some(k) => {
                proof {
                    crate::text::lemma_find_from_bounds(c.skip(from), "<testcase"@, 0);
                    reveal_strlit("<testcase");
                    lemma_testcase_end_after(c, from + k + 9);
                }
                match testcase_end(c, from + k + 9) {
                    None => seq![],
                    Some((e, sc)) => seq![surefire_case(c.subrange(from + k, e), sc)] + surefire_cases(c, e),
                }
            },
        }
    }
}

/// The suite a Surefire XML report describes, when it names a suite and
/// has a case.
pub open spec fn surefire_xml(c: Seq<char>) -> Option<SuiteView> {
    match xml_attr(c, "testsuite"@, "name"@) {
        None => None,
        Some(n) => {
            let cs = surefire_cases(c, 0);
            if cs.len() == 0 { None } else { Some(SuiteView { name: n, tests: cs }) }
        },
    }
}

fn opt_or(o: Option<Vec<char>>, d: &str) -> (r: Vec<char>)
    ensures
        r@ == match o {
            Some(x) => x@,
            None => d@,
        },
{
    match o {
        Some(x) => x,
        None => chars_of(d),
    }
}

fn surefire_case_v(tc: &Vec<char>, self_closing: bool) -> (r: TestCase)
    ensures
        r@ == surefire_case(tc@, self_closing),
{
    let name = opt_or(xml_attr_v(tc, "testcase", "name"), "unknown");
    let time = opt_or(xml_attr_v(tc, "testcase", "time"), "");
    proof {
        reveal_strlit("");
    }
    let duration = match parse_secs(&time) {
        Some(d) => d,
        None => Duration::zero(),
    };
    let name = string_of(&name);
    if self_closing {
        TestCase { name, status: TestStatus::Passed, duration, error: None }
    } else if contains_str(tc, "<failure") {
        let msg = opt_or(xml_attr_v(tc, "failure", "message"), "Test failed");
        let location = match xml_attr_v(tc, "failure", "type") {
            Some(t) => {
                let mut l = chars_of("type: ");
                append(&mut l, &t);
                Some(string_of(&l))
            },
            None => None,
        };
        let message = string_of(&xml_unescape_v(&msg));
        TestCase { name, status: TestStatus::Failed, duration, error: Some(TestError { message, location }) }
    } else if contains_str(tc, "<error") {
        let msg = opt_or(xml_attr_v(tc, "error", "message"), "Test error");
        let message = string_of(&xml_unescape_v(&msg));
        TestCase { name, status: TestStatus::Failed, duration, error: Some(TestError { message, location: None }) }
    } else if contains_str(tc, "<skipped") {
        TestCase { name, status: TestStatus::Skipped, duration, error: None }
    } else {
        TestCase { name, status: TestStatus::Passed, duration, error: None }
    }
}

fn surefire_cases_v(c: &Vec<char>) -> (r: Vec<TestCase>)
    ensures
        cases_view(r@) == surefire_cases(c@, 0),
{
    let n = c.len();
    let mut tests: Vec<TestCase> = Vec::new();
    let mut from: usize = 0;
    let mut done = false;
    assert(cases_view(tests@) =~= seq![]);
    assert(surefire_cases(c@, 0) =~= cases_view(tests@) + surefire_cases(c@, 0));
    while !done
        invariant
            from <= n,
            n == c@.len(),
            surefire_cases(c@, 0) == cases_view(tests@) + (if done { seq![] } else { surefire_cases(c@, from as int) }),
        decreases n - from + (if done { 0int } else { 1int }),
    {
        proof {
            reveal_strlit("<testcase");
            reveal_strlit("</testcase>");
        }
        let rest = slice(c, from, n);
        assert(rest@ =~= c@.skip(from as int));
        match find_str(&rest, "<testcase") {
            None => {
                done = true;
                assert(cases_view(tests@) + seq![] =~= cases_view(tests@));
            },
            Some(k) => {
                assert(occurs_at(rest@, "<testcase"@, k as int));
                let abs = from + k;
                let cs = abs + 9;
                proof {
                    lemma_testcase_end_after(c@, cs as int);
                }
                let end = match self_closing_end_v(c, cs) {
                    Some(e) => Some((e, true)),
                    None => {
                        let after = slice(c, cs, n);
                        assert(after@ =~= c@.skip(cs as int));
                        match find_str(&after, "</testcase>") {
                            Some(cl) => {
                                assert(occurs_at(after@, "</testcase>"@, cl as int));
                                Some((cs + cl + 11, false))
                            },
                            None => None,
                        }
                    },
                };
                match end {
                    None => {
                        done = true;
                        assert(cases_view(tests@) + seq![] =~= cases_view(tests@));
                    },
                    Some((e, sc)) => {
                        assert(testcase_end(c@, cs as int) == Some((e as int, sc)));
                        let tc = slice(c, abs, e);
                        let case = surefire_case_v(&tc, sc);
                        let ghost before = cases_view(tests@);
                        tests.push(case);
                        assert(cases_view(tests@) =~= before.push(case@));
                        assert(surefire_cases(c@, from as int) =~= seq![case@] + surefire_cases(c@, e as int));
                        assert(before + surefire_cases(c@, from as int) =~= cases_view(tests@) + surefire_cases(c@, e as int));
                        from = e;
                    },
                }
            },
        }
    }
    assert(cases_view(tests@) + seq![] =~= cases_view(tests@));
    tests
}

/// Parse one Surefire (JUnit XML) report.
pub fn parse_single_surefire_xml(content: &str) -> (r: Option<TestSuite>)
    ensures
        match r {
            Some(s) => surefire_xml(content@) == Some(s@),
            None => surefire_xml(content@) is None,
        },
{
    let c = chars_of(content);
    let name = match xml_attr_v(&c, "testsuite", "name") {
        Some(n) => n,
        None => {
            return None;
        },
    };
    let tests = surefire_cases_v(&c);
    if tests.len() == 0 {
        return None;
    }
    Some(TestSuite { name: string_of(&name), tests })
}

// ---------------------------------------------------------------------------
// The run
// ---------------------------------------------------------------------------

/// Output mentioning `Tests run:` is Maven output; other output is Gradle
/// output.
pub open spec fn is_maven_output(c: Seq<char>) -> bool {
    contains(c, "Tests run:"@)
}

/// Output whose counts fit and whose failure messages can be cut.
pub open spec fn java_readable(stdout: Seq<char>, stderr: Seq<char>) -> bool {
    let c = stdout + seq!['\n'] + stderr;
    let ls = lines(c);
    &&& is_maven_output(c) ==> maven_ok(ls)
    &&& java_failures_ok(ls)
}

/// The run Maven or Gradle output describes (stdout and stderr joined by a
/// newline).
pub open spec fn java_run(stdout: Seq<char>, stderr: Seq<char>, exit_code: i32) -> RunView {
    let c = stdout + seq!['\n'] + stderr;
    let ls = lines(c);
    let suites = if is_maven_output(c) { maven_suites(ls, exit_code) } else { gradle_suites(ls, exit_code) };
    let fs = java_failures(ls);
    RunView {
        suites: if fs.len() > 0 { java_enrich(suites, fs) } else { suites },
        duration: match java_duration(ls) {
            Some(d) => d,
            None => 0,
        },
        raw_exit_code: exit_code,
    }
}

impl JavaAdapter {
    /// Parse Maven or Gradle output into a run.
    /// Whether `parse_output` can read this output: Maven result counts fit
    /// and the failure messages that are read can be cut.
    pub fn readable(&self, stdout: &str, stderr: &str, exit_code: i32) -> (b: bool)
        ensures
            b == java_readable(stdout@, stderr@),
    {
        let mut combined = chars_of(stdout);
        combined.push('\n');
        append_str(&mut combined, stderr);
        assert(combined@ =~= stdout@ + seq!['\n'] + stderr@);
        let ls = lines_v(&combined);
        assert(ls@.map_values(|l: Vec<char>| l@) =~= lines(stdout@ + seq!['\n'] + stderr@));
        if contains_str(&combined, "Tests run:") && !maven_ok_v(&ls) {
            return false;
        }
        java_failures_ok_v(&ls)
    }

    pub fn parse_output(&self, stdout: &str, stderr: &str, exit_code: i32) -> (r: TestRunResult)
        requires
            java_readable(stdout@, stderr@),
        ensures
            r@ == java_run(stdout@, stderr@, exit_code),
    {
        let mut combined = chars_of(stdout);
        combined.push('\n');
        append_str(&mut combined, stderr);
        assert(combined@ =~= stdout@ + seq!['\n'] + stderr@);
        let ls = lines_v(&combined);
        let ghost lv = ls@.map_values(|l: Vec<char>| l@);
        assert(lv =~= lines(stdout@ + seq!['\n'] + stderr@));
        let mut suites = if contains_str(&combined, "Tests run:") {
            maven_suites_v(&ls, exit_code)
        } else {
            gradle_suites_v(&ls, exit_code)
        };
        let failures = java_failures_v(&ls);
        if failures.len() > 0 {
            enrich_with_errors(&mut suites, failures.as_slice());
        }
        let duration = match java_duration_v(&ls) {
            Some(d) => d,
            None => Duration::zero(),
        };
        TestRunResult { suites, duration, raw_exit_code: exit_code }
    }
}

} // verus!
