//! Cobertura XML coverage reports.

use vstd::prelude::*;
use crate::adapters::dotnet::{trx_attr, trx_attr_v};
use crate::num::{parse_usize, parse_usize_spec};
use crate::coverage::{FileCovView, FileCoverage, files_cov_view};
use crate::coverage::parsers::{HitList, file_of_hits, hits_max};
use crate::num::{parse_u64, parse_u64_spec};
use crate::text::{
    chars_of, contains, contains_v, eq, find_char, find_char_v, lines, slice, starts_with, starts_with_str,
    string_of, trim, trim_v,
};

verus! {

/// The value of `attr="..."` in a line of XML.
pub fn extract_attr_value(line: &str, attr: &str) -> (r: Option<String>)
    ensures
        match r {
            Some(x) => trx_attr(line@, attr@) == Some(x@),
            None => trx_attr(line@, attr@) is None,
        },
{
    match trx_attr_v(&chars_of(line), &chars_of(attr)) {
        Some(x) => Some(string_of(&x)),
        None => None,
    }
}

/// The value of `attr` when the line holds a `<element ` tag.
pub open spec fn element_attr(line: Seq<char>, element: Seq<char>, attr: Seq<char>) -> Option<Seq<char>> {
    if contains(line, "<"@ + element + " "@) { trx_attr(line, attr) } else { None }
}

/// Extract an attribute of a given element from a line of XML.
pub fn extract_attr(line: &str, element: &str, attr: &str) -> (r: Option<String>)
    ensures
        match r {
            Some(x) => element_attr(line@, element@, attr@) == Some(x@),
            None => element_attr(line@, element@, attr@) is None,
        },
{
    let mut open = chars_of("<");
    crate::text::append_str(&mut open, element);
    crate::text::append_str(&mut open, " ");
    assert(open@ =~= "<"@ + element@ + " "@);
    if !contains_v(&chars_of(line), &open) {
        return None;
    }
    extract_attr_value(line, attr)
}

/// The parentheses of a condition such as `50% (1/2)` are in order when
/// both are there.
pub open spec fn condition_ok(cond: Seq<char>) -> bool {
    match (find_char(cond, '('), find_char(cond, ')')) {
        (Some(ps), Some(pe)) => ps < pe,
        _ => true,
    }
}

/// A count, zero when it is not one.
pub open spec fn count_or_zero(s: Seq<char>) -> usize {
    match parse_usize_spec(trim(s)) {
        Some(n) => n,
        None => 0,
    }
}

/// (total, covered) of a condition `50% (1/2)`: the numbers around the
/// slash inside the parentheses; (0, 0) without them.
pub open spec fn condition_counts(cond: Seq<char>) -> (usize, usize) {
    match (find_char(cond, '('), find_char(cond, ')')) {
        (Some(ps), Some(pe)) => {
            let inner = cond.subrange(ps + 1, pe);
            match find_char(inner, '/') {
                Some(sl) => (count_or_zero(inner.skip(sl + 1)), count_or_zero(inner.take(sl))),
                None => (0, 0),
            }
        },
        _ => (0, 0),
    }
}

fn count_or_zero_v(s: &Vec<char>) -> (n: usize)
    ensures
        n == count_or_zero(s@),
{
    match parse_usize(&trim_v(s)) {
        Some(n) => n,
        None => 0,
    }
}

/// Parse a condition-coverage text like `50% (1/2)` into (total, covered).
pub fn parse_condition_coverage(cond: &str) -> (r: (usize, usize))
    requires
        condition_ok(cond@),
    ensures
        r == condition_counts(cond@),
{
    let c = chars_of(cond);
    let ps = match find_char_v(&c, '(') {
        Some(k) => k,
        None => {
            return (0, 0);
        },
    };
    let pe = match find_char_v(&c, ')') {
        Some(k) => k,
        None => {
            return (0, 0);
        },
    };
    let inner = slice(&c, ps + 1, pe);
    match find_char_v(&inner, '/') {
        Some(sl) => {
            let m = inner.len();
            let covered = slice(&inner, 0, sl);
            let total = slice(&inner, sl + 1, m);
            assert(covered@ =~= inner@.take(sl as int));
            assert(total@ =~= inner@.skip(sl + 1));
            (count_or_zero_v(&total), count_or_zero_v(&covered))
        },
        None => (0, 0),
    }
}


/// Reading state of a Cobertura report: the files read, whether a class
/// is open, its `filename`, its line hits and its branch counts.
pub struct CbState {
    pub files: Seq<FileCovView>,
    pub open: bool,
    pub path: Seq<char>,
    pub hits: Seq<(usize, u64)>,
    pub tb: nat,
    pub cb: nat,
}

pub open spec fn cb_closed(st: CbState) -> Seq<FileCovView> {
    if st.open { st.files.push(file_of_hits(crate::history::path_of(st.path), st.hits, st.tb, st.cb)) } else { st.files }
}

/// A `<class ... filename="...">` line closes the open class and opens one.
pub open spec fn cb_class(st: CbState, t: Seq<char>) -> CbState {
    if element_attr(t, "class"@, "filename"@) is Some {
        CbState { files: cb_closed(st), open: true, path: element_attr(t, "class"@, "filename"@)->0, hits: seq![], tb: 0, cb: 0 }
    } else {
        st
    }
}

/// The number and hits of a `<line>` element.
pub open spec fn line_hits_of(t: Seq<char>) -> Option<(usize, u64)> {
    match (trx_attr(t, "number"@), trx_attr(t, "hits"@)) {
        (Some(n), Some(h)) => match (parse_usize_spec(n), parse_u64_spec(h)) {
            (Some(l), Some(c)) => Some((l, c)),
            _ => None,
        },
        _ => None,
    }
}

/// The condition of a branch line (`branch="true"`), if it has one.
pub open spec fn branch_condition(t: Seq<char>) -> Option<Seq<char>> {
    if trx_attr(t, "branch"@) == Some("true"@) { trx_attr(t, "condition-coverage"@) } else { None }
}

pub open spec fn is_line_element(t: Seq<char>) -> bool {
    starts_with(t, "<line "@) || starts_with(t, "<line>"@)
}

/// A `<line>` element adds its hits (the larger count wins) and, on a
/// branch line, its condition's branch counts.
pub open spec fn cb_line(st: CbState, t: Seq<char>) -> CbState {
    if is_line_element(t) {
        let s1 = match line_hits_of(t) {
            Some((l, c)) => CbState { hits: hits_max(st.hits, l, c), ..st },
            None => st,
        };
        match branch_condition(t) {
            Some(cond) => {
                let bc = condition_counts(cond);
                CbState { tb: s1.tb + bc.0 as nat, cb: s1.cb + bc.1 as nat, ..s1 }
            },
            None => s1,
        }
    } else {
        st
    }
}

/// `</class>` closes the open class.
pub open spec fn cb_end(st: CbState, t: Seq<char>) -> CbState {
    if starts_with(t, "</class>"@) && st.open {
        CbState { files: cb_closed(st), open: false, path: seq![], hits: seq![], tb: 0, cb: 0 }
    } else {
        st
    }
}

pub open spec fn cb_step(st: CbState, t: Seq<char>) -> CbState {
    cb_end(cb_line(cb_class(st, t), t), t)
}

pub open spec fn cb_fold(ls: Seq<Seq<char>>) -> CbState
    decreases ls.len(),
{
    if ls.len() == 0 {
        CbState { files: seq![], open: false, path: seq![], hits: seq![], tb: 0, cb: 0 }
    } else {
        cb_step(cb_fold(ls.drop_last()), trim(ls.last()))
    }
}

/// The files of a Cobertura report, a class left open at the end included.
pub open spec fn cobertura_files(ls: Seq<Seq<char>>) -> Seq<FileCovView> {
    cb_closed(cb_fold(ls))
}

/// Every branch condition read has its parentheses in order, and the
/// branch counts of each class fit in a machine word.
pub open spec fn cobertura_ok(ls: Seq<Seq<char>>) -> bool
    decreases ls.len(),
{
    if ls.len() == 0 {
        true
    } else {
        let t = trim(ls.last());
        let s1 = cb_class(cb_fold(ls.drop_last()), t);
        cobertura_ok(ls.drop_last()) && ((is_line_element(t) && branch_condition(t) is Some) ==> {
            let cond = branch_condition(t)->0;
            &&& condition_ok(cond)
            &&& s1.tb + condition_counts(cond).0 <= usize::MAX
            &&& s1.cb + condition_counts(cond).1 <= usize::MAX
        })
    }
}

proof fn lemma_cobertura_ok_prefix(ls: Seq<Seq<char>>, n: int)
    requires
        0 < n <= ls.len(),
        cobertura_ok(ls),
    ensures
        cobertura_ok(ls.take(n)),
        ({
            let t = trim(ls[n - 1]);
            let s1 = cb_class(cb_fold(ls.take(n - 1)), t);
            (is_line_element(t) && branch_condition(t) is Some) ==> {
                let cond = branch_condition(t)->0;
                &&& condition_ok(cond)
                &&& s1.tb + condition_counts(cond).0 <= usize::MAX
                &&& s1.cb + condition_counts(cond).1 <= usize::MAX
            }
        }),
    decreases ls.len() - n,
{
    if n == ls.len() {
        assert(ls.take(n) =~= ls);
    } else {
        lemma_cobertura_ok_prefix(ls, n + 1);
        assert(ls.take(n + 1).drop_last() =~= ls.take(n));
    }
    let p = ls.take(n);
    assert(cobertura_ok(p));
    assert(p.drop_last() =~= ls.take(n - 1));
    assert(p.last() == ls[n - 1]);
}

fn attr_v(t: &Vec<char>, attr: &str) -> (r: Option<Vec<char>>)
    ensures
        match r {
            Some(x) => trx_attr(t@, attr@) == Some(x@),
            None => trx_attr(t@, attr@) is None,
        },
{
    trx_attr_v(t, &chars_of(attr))
}

/// Parse a Cobertura XML report into the coverage of its classes' files.
pub fn parse_cobertura_files(content: &str) -> (r: Vec<FileCoverage>)
    requires
        cobertura_ok(lines(content@)),
    ensures
        files_cov_view(r@) == cobertura_files(lines(content@)),
{
    let ls = crate::text::lines_of(content);
    let ghost lv = ls@.map_values(|l: Vec<char>| l@);
    assert(lv =~= lines(content@));
    let mut files: Vec<FileCoverage> = Vec::new();
    let mut path: Option<Vec<char>> = None;
    let mut hits = HitList::new();
    let mut tb: usize = 0;
    let mut cb: usize = 0;
    let mut i: usize = 0;
    while i < ls.len()
        invariant
            i <= ls.len(),
            lv == ls@.map_values(|l: Vec<char>| l@),
            cobertura_ok(lv),
            files_cov_view(files@) == cb_fold(lv.take(i as int)).files,
            path is Some == cb_fold(lv.take(i as int)).open,
            path matches Some(p) ==> p@ == cb_fold(lv.take(i as int)).path,
            hits.pairs@ == cb_fold(lv.take(i as int)).hits,
            tb == cb_fold(lv.take(i as int)).tb,
            cb == cb_fold(lv.take(i as int)).cb,
        decreases ls.len() - i,
    {
        proof {
            lemma_cobertura_ok_prefix(lv, i + 1);
        }
        assert(lv.take(i + 1).drop_last() =~= lv.take(i as int));
        assert(lv.take(i + 1).last() == ls@[i as int]@);
        let t = trim_v(&ls[i]);
        let class_tag = chars_of("<class ");
        assert(class_tag@ =~= "<"@ + "class"@ + " "@) by {
            reveal_strlit("<class ");
            reveal_strlit("<");
            reveal_strlit("class");
            reveal_strlit(" ");
        }
        if contains_v(&t, &class_tag) {
            match attr_v(&t, "filename") {
                Some(name) => {
                    match path {
                        Some(p) => {
                            let f = hits.to_file(string_of(&p).as_str(), tb, cb);
                            let ghost before = files_cov_view(files@);
                            files.push(f);
                            assert(files_cov_view(files@) =~= before.push(crate::coverage::file_cov_view(f)));
                        },
                        None => {},
                    }
                    path = Some(name);
                    hits.clear();
                    tb = 0;
                    cb = 0;
                },
                None => {},
            }
        }
        if starts_with_str(&t, "<line ") || starts_with_str(&t, "<line>") {
            match (attr_v(&t, "number"), attr_v(&t, "hits")) {
                (Some(n), Some(h)) => match (parse_usize(&n), parse_u64(&h)) {
                    (Some(l), Some(c)) => {
                        hits.add_max(l, c);
                    },
                    _ => {},
                },
                _ => {},
            }
            match attr_v(&t, "branch") {
                Some(b) => {
                    if eq(&b, &chars_of("true")) {
                        match attr_v(&t, "condition-coverage") {
                            Some(cond) => {
                                let bc = parse_condition_coverage(string_of(&cond).as_str());
                                tb = tb + bc.0;
                                cb = cb + bc.1;
                            },
                            None => {},
                        }
                    }
                },
                None => {},
            }
        }
        if starts_with_str(&t, "</class>") {
            match path {
                Some(p) => {
                    let f = hits.to_file(string_of(&p).as_str(), tb, cb);
                    let ghost before = files_cov_view(files@);
                    files.push(f);
                    assert(files_cov_view(files@) =~= before.push(crate::coverage::file_cov_view(f)));
                    path = None;
                    hits.clear();
                    tb = 0;
                    cb = 0;
                },
                None => {},
            }
        }
        i += 1;
    }
    assert(lv.take(ls.len() as int) =~= lv);
    match path {
        Some(p) => {
            let f = hits.to_file(string_of(&p).as_str(), tb, cb);
            let ghost before = files_cov_view(files@);
            files.push(f);
            assert(files_cov_view(files@) =~= before.push(crate::coverage::file_cov_view(f)));
        },
        None => {},
    }
    files
}

} // verus!
