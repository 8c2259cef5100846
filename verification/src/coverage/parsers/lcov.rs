//! LCOV trace files (`SF:`, `DA:`, `BRDA:` and `end_of_record` records).

use vstd::prelude::*;
use crate::adapters::javascript::strip_prefix;
use crate::adapters::ruby::strip_prefix_v;
use crate::coverage::{FileCovView, FileCoverage, files_cov_view};
use crate::coverage::parsers::{HitList, file_of_hits, hits_max};
use crate::num::{parse_u64, parse_u64_spec, parse_usize, parse_usize_spec};
use crate::text::{chars_of, eq, find_char, find_char_v, lines, slice, string_of, trim, trim_v};

verus! {

/// What follows the `n`-th comma, if there are `n` commas.
pub open spec fn after_commas(s: Seq<char>, n: nat) -> Option<Seq<char>>
    decreases n,
{
    if n == 0 {
        Some(s)
    } else {
        match find_char(s, ',') {
            Some(k) => after_commas(s.skip(k + 1), (n - 1) as nat),
            None => None,
        }
    }
}

/// Reading state of an LCOV file: the files read, whether a record is
/// open, its path (the text after `SF:`), its line hits and its branch
/// counts.
pub struct LcState {
    pub files: Seq<FileCovView>,
    pub open: bool,
    pub path: Seq<char>,
    pub hits: Seq<(usize, u64)>,
    pub tb: nat,
    pub cb: nat,
}

/// The files read with the open record closed.
pub open spec fn lc_closed(st: LcState) -> Seq<FileCovView> {
    if st.open { st.files.push(file_of_hits(crate::history::path_of(st.path), st.hits, st.tb, st.cb)) } else { st.files }
}

/// A `DA:line,count` record's line and count.
pub open spec fn da_record(da: Seq<char>) -> Option<(usize, u64)> {
    match find_char(da, ',') {
        Some(k) => match (parse_usize_spec(trim(da.take(k))), parse_u64_spec(trim(da.skip(k + 1)))) {
            (Some(l), Some(c)) => Some((l, c)),
            _ => None,
        },
        None => None,
    }
}

/// Effect of one (trimmed) line: `SF:` opens a record, `DA:` adds line
/// hits (the larger count wins), `BRDA:` with four fields counts a branch
/// (covered unless taken is `-` or `0`), `end_of_record` closes the record.
pub open spec fn lc_step(st: LcState, t: Seq<char>) -> LcState {
    match strip_prefix(t, "SF:"@) {
        Some(p) => LcState { open: true, path: trim(p), hits: seq![], tb: 0, cb: 0, ..st },
        None => match strip_prefix(t, "DA:"@) {
            Some(da) => match da_record(da) {
                Some((l, c)) => LcState { hits: hits_max(st.hits, l, c), ..st },
                None => st,
            },
            None => match strip_prefix(t, "BRDA:"@) {
                Some(b) => match after_commas(b, 3) {
                    Some(taken) => LcState {
                        tb: st.tb + 1,
                        cb: if trim(taken) != "-"@ && trim(taken) != "0"@ { st.cb + 1 } else { st.cb },
                        ..st
                    },
                    None => st,
                },
                None => if t == "end_of_record"@ {
                    LcState { files: lc_closed(st), open: false, path: seq![], hits: seq![], tb: 0, cb: 0 }
                } else {
                    st
                },
            },
        },
    }
}

pub open spec fn lc_fold(ls: Seq<Seq<char>>) -> LcState
    decreases ls.len(),
{
    if ls.len() == 0 {
        LcState { files: seq![], open: false, path: seq![], hits: seq![], tb: 0, cb: 0 }
    } else {
        lc_step(lc_fold(ls.drop_last()), trim(ls.last()))
    }
}

/// The files of an LCOV trace, a record left open at the end included.
pub open spec fn lcov_files(ls: Seq<Seq<char>>) -> Seq<FileCovView> {
    lc_closed(lc_fold(ls))
}

/// A reading state with `f` put before the files it has read.
pub open spec fn lc_after(f: Seq<FileCovView>, st: LcState) -> LcState {
    LcState { files: f + st.files, ..st }
}

proof fn lemma_lc_step_after(f: Seq<FileCovView>, st: LcState, t: Seq<char>)
    ensures
        lc_step(lc_after(f, st), t) == lc_after(f, lc_step(st, t)),
{
    assert(lc_closed(lc_after(f, st)) =~= f + lc_closed(st));
    assert(lc_after(f, st).files =~= f + st.files);
}

proof fn lemma_end_of_record_step(st: LcState)
    ensures
        lc_step(st, "end_of_record"@) == lc_after(lc_closed(st), lc_fold(seq![])),
{
    reveal_strlit("end_of_record");
    reveal_strlit("SF:");
    reveal_strlit("DA:");
    reveal_strlit("BRDA:");
    let e = "end_of_record"@;
    assert(e[0] == 'e');
    assert(!crate::text::starts_with(e, "SF:"@)) by { assert(e.take(3)[0] != "SF:"@[0]); }
    assert(!crate::text::starts_with(e, "DA:"@)) by { assert(e.take(3)[0] != "DA:"@[0]); }
    assert(!crate::text::starts_with(e, "BRDA:"@)) by { assert(e.take(5)[0] != "BRDA:"@[0]); }
    assert(lc_closed(st) + Seq::<FileCovView>::empty() =~= lc_closed(st));
}

proof fn lemma_lc_fold_after_end(a: Seq<Seq<char>>, b: Seq<Seq<char>>)
    ensures
        lc_fold(a + seq!["end_of_record"@] + b) == lc_after(lcov_files(a), lc_fold(b)),
    decreases b.len(),
{
    let a1 = a + seq!["end_of_record"@];
    if b.len() == 0 {
        assert(a1 + b =~= a1);
        assert(a1.drop_last() =~= a);
        lemma_trim_plain_word();
        lemma_end_of_record_step(lc_fold(a));
    } else {
        lemma_lc_fold_after_end(a, b.drop_last());
        assert((a1 + b).drop_last() =~= a1 + b.drop_last());
        assert((a1 + b).last() == b.last());
        lemma_lc_step_after(lcov_files(a), lc_fold(b.drop_last()), trim(b.last()));
    }
}

proof fn lemma_trim_plain_word()
    ensures
        trim("end_of_record"@) == "end_of_record"@,
{
    reveal_strlit("end_of_record");
    let e = "end_of_record"@;
    crate::text::lemma_trim_start_is_suffix(e);
    let s1 = crate::text::trim_start(e);
    if s1.len() < e.len() {
        assert(crate::text::is_ws(e[0]));
    }
    assert(s1 =~= e);
    crate::text::lemma_trim_end_is_prefix(e);
    let s2 = crate::text::trim_end(e);
    if s2.len() < e.len() {
        assert(crate::text::is_ws(e[e.len() - 1]));
    }
    assert(s2 =~= e);
}

/// `end_of_record` closes a record: the files of a trace with records
/// `a`, then `end_of_record`, then `b` are the files of `a` followed by the
/// files of `b`.  In particular each record closed this way gives its own
/// file, whatever follows.
pub proof fn law_lcov_records_concat(a: Seq<Seq<char>>, b: Seq<Seq<char>>)
    ensures
        lcov_files(a + seq!["end_of_record"@] + b) == lcov_files(a) + lcov_files(b),
{
    lemma_lc_fold_after_end(a, b);
    let st = lc_fold(b);
    assert(lc_closed(lc_after(lcov_files(a), st)) =~= lcov_files(a) + lc_closed(st));
}

/// A trace of one `SF:` line is one file with that path and no lines.
pub proof fn law_lcov_one_record(l: Seq<char>)
    requires
        strip_prefix(trim(l), "SF:"@) is Some,
    ensures
        lcov_files(seq![l]) == seq![file_of_hits(crate::history::path_of(trim(strip_prefix(trim(l), "SF:"@)->0)), seq![], 0, 0)],
{
    assert(seq![l].drop_last() =~= Seq::<Seq<char>>::empty());
    assert(seq![l].last() == l);
    let st0 = lc_fold(seq![l].drop_last());
    assert(st0 == lc_fold(Seq::<Seq<char>>::empty()));
    assert(st0.files.len() == 0);
    let st = lc_fold(seq![l]);
    assert(st == lc_step(st0, trim(l)));
    assert(st.open && st.files =~= Seq::<FileCovView>::empty());
    assert(lc_closed(st) =~= seq![file_of_hits(crate::history::path_of(st.path), st.hits, st.tb, st.cb)]);
}

fn after_commas_v(s: &Vec<char>, n: usize) -> (r: Option<Vec<char>>)
    ensures
        match r {
            Some(x) => after_commas(s@, n as nat) == Some(x@),
            None => after_commas(s@, n as nat) is None,
        },
{
    let mut cur = slice(s, 0, s.len());
    assert(cur@ =~= s@);
    let mut k: usize = n;
    while k > 0
        invariant
            k <= n,
            after_commas(s@, n as nat) == after_commas(cur@, k as nat),
        decreases k,
    {
        match find_char_v(&cur, ',') {
            Some(j) => {
                let m = cur.len();
                let next = slice(&cur, j + 1, m);
                assert(next@ =~= cur@.skip(j + 1));
                cur = next;
            },
            None => {
                return None;
            },
        }
        k -= 1;
    }
    Some(cur)
}

fn da_record_v(da: &Vec<char>) -> (r: Option<(usize, u64)>)
    ensures
        r == da_record(da@),
{
    match find_char_v(da, ',') {
        Some(k) => {
            let m = da.len();
            let a = slice(da, 0, k);
            let b = slice(da, k + 1, m);
            assert(a@ =~= da@.take(k as int));
            assert(b@ =~= da@.skip(k + 1));
            match (parse_usize(&trim_v(&a)), parse_u64(&trim_v(&b))) {
                (Some(l), Some(c)) => Some((l, c)),
                _ => None,
            }
        },
        None => None,
    }
}

/// Parse an LCOV trace into the coverage of its files.
pub fn parse_lcov_files(content: &str) -> (r: Vec<FileCoverage>)
    ensures
        files_cov_view(r@) == lcov_files(lines(content@)),
{
    let ls = crate::text::lines_of(content);
    let ghost lv = ls@.map_values(|l: Vec<char>| l@);
    assert(lv =~= lines(content@));
    let mut files: Vec<FileCoverage> = Vec::new();
    let mut path: Option<Vec<char>> = None;
    let mut hits = HitList::new();
    let mut tb: usize = 0;
    let mut cb: usize = 0;
    let mut i: usize = 0;
    while i < ls.len()
        invariant
            i <= ls.len(),
            lv == ls@.map_values(|l: Vec<char>| l@),
            cb <= tb <= i,
            files_cov_view(files@) == lc_fold(lv.take(i as int)).files,
            path is Some == lc_fold(lv.take(i as int)).open,
            path matches Some(p) ==> p@ == lc_fold(lv.take(i as int)).path,
            hits.pairs@ == lc_fold(lv.take(i as int)).hits,
            tb == lc_fold(lv.take(i as int)).tb,
            cb == lc_fold(lv.take(i as int)).cb,
        decreases ls.len() - i,
    {
        assert(lv.take(i + 1).drop_last() =~= lv.take(i as int));
        assert(lv.take(i + 1).last() == ls@[i as int]@);
        let t = trim_v(&ls[i]);
        match strip_prefix_v(&t, "SF:") {
            Some(p) => {
                path = Some(trim_v(&p));
                hits.clear();
                tb = 0;
                cb = 0;
            },
            None => match strip_prefix_v(&t, "DA:") {
                Some(da) => match da_record_v(&da) {
                    Some((l, c)) => {
                        hits.add_max(l, c);
                    },
                    None => {},
                },
                None => match strip_prefix_v(&t, "BRDA:") {
                    Some(b) => match after_commas_v(&b, 3) {
                        Some(taken) => {
                            let tt = trim_v(&taken);
                            tb = tb + 1;
                            if !eq(&tt, &chars_of("-")) && !eq(&tt, &chars_of("0")) {
                                cb = cb + 1;
                            }
                        },
                        None => {},
                    },
                    None => {
                        if eq(&t, &chars_of("end_of_record")) {
                            match path {
                                Some(p) => {
                                    let f = hits.to_file(string_of(&p).as_str(), tb, cb);
                                    let ghost before = files_cov_view(files@);
                                    files.push(f);
                                    assert(files_cov_view(files@) =~= before.push(crate::coverage::file_cov_view(f)));
                                },
                                None => {},
                            }
                            path = None;
                            hits.clear();
                            tb = 0;
                            cb = 0;
                        }
                    },
                },
            },
        }
        i += 1;
    }
    assert(lv.take(ls.len() as int) =~= lv);
    match path {
        Some(p) => {
            let f = hits.to_file(string_of(&p).as_str(), tb, cb);
            let ghost before = files_cov_view(files@);
            files.push(f);
            assert(files_cov_view(files@) =~= before.push(crate::coverage::file_cov_view(f)));
        },
        None => {},
    }
    files
}

} // verus!
