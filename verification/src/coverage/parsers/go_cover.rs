//! Go coverage profiles (`-coverprofile`).

use vstd::prelude::*;
use crate::coverage::{FileCovView, FileCoverage, files_cov_view};
use crate::coverage::parsers::{HitList, file_of_hits, hits_max};
use crate::num::{parse_u64, parse_u64_spec, parse_usize, parse_usize_spec};
use crate::text::{
    chars_of, contains, contains_char, find_char, find_char_v, join, join_v, rfind, rfind_str, slice,
    split_char, split_char_v, string_of, words, words_v, lines, starts_with, starts_with_str, trim, trim_v, eq,
    chars_of_string,
};

verus! {

/// One block of a coverage profile line.
#[derive(Debug, Clone)]
pub struct CoverageBlock {
    pub file: String,
    pub start_line: usize,
    pub end_line: usize,
    pub count: u64,
}

pub struct BlockView {
    pub file: Seq<char>,
    pub start_line: usize,
    pub end_line: usize,
    pub count: u64,
}

impl View for CoverageBlock {
    type V = BlockView;

    open spec fn view(&self) -> BlockView {
        BlockView { file: self.file@, start_line: self.start_line, end_line: self.end_line, count: self.count }
    }
}

/// The line number before the first dot of `line.col`.
pub open spec fn line_of(pos: Seq<char>) -> Option<usize> {
    parse_usize_spec(split_char(pos, '.')[0])
}

/// A profile line `file:start.col,end.col statements count`: the file is
/// before the last colon; three words follow.
pub open spec fn coverage_block(l: Seq<char>) -> Option<BlockView> {
    match rfind(l, ":"@) {
        None => None,
        Some(c) => {
            let ws = words(l.skip(c + 1));
            if ws.len() != 3 {
                None
            } else {
                match parse_u64_spec(ws[2]) {
                    None => None,
                    Some(count) => match find_char(ws[0], ',') {
                        None => None,
                        Some(k) => match (line_of(ws[0].take(k)), line_of(ws[0].skip(k + 1))) {
                            (Some(s), Some(e)) => Some(BlockView { file: l.take(c), start_line: s, end_line: e, count: count }),
                            _ => None,
                        },
                    },
                }
            }
        },
    }
}

fn line_of_v(pos: &Vec<char>) -> (r: Option<usize>)
    ensures
        r == line_of(pos@),
{
    let ps = split_char_v(pos, '.');
    proof {
        crate::text::lemma_split_nonempty(pos@, '.');
    }
    assert(ps@[0]@ == split_char(pos@, '.')[0]);
    parse_usize(&ps[0])
}

/// Parse one coverage profile line.
pub fn parse_coverage_line(line: &str) -> (r: Option<CoverageBlock>)
    ensures
        match r {
            Some(b) => coverage_block(line@) == Some(b@),
            None => coverage_block(line@) is None,
        },
{
    let l = chars_of(line);
    proof {
        reveal_strlit(":");
    }
    let c = match rfind_str(&l, ":") {
        Some(c) => c,
        None => {
            return None;
        },
    };
    let n = l.len();
    let rest = slice(&l, c + 1, n);
    assert(rest@ =~= l@.skip(c + 1));
    let ws = words_v(&rest);
    assert(ws@.map_values(|w: Vec<char>| w@) =~= words(rest@));
    if ws.len() != 3 {
        return None;
    }
    assert(ws@[2]@ == words(rest@)[2]);
    assert(ws@[0]@ == words(rest@)[0]);
    let count = match parse_u64(&ws[2]) {
        Some(x) => x,
        None => {
            return None;
        },
    };
    let range = &ws[0];
    let k = match find_char_v(range, ',') {
        Some(k) => k,
        None => {
            return None;
        },
    };
    let m = range.len();
    let a = slice(range, 0, k);
    let b = slice(range, k + 1, m);
    assert(a@ =~= range@.take(k as int));
    assert(b@ =~= range@.skip(k + 1));
    match (line_of_v(&a), line_of_v(&b)) {
        (Some(s), Some(e)) => {
            let file = slice(&l, 0, c);
            assert(file@ =~= l@.take(c as int));
            Some(CoverageBlock { file: string_of(&file), start_line: s, end_line: e, count })
        },
        _ => None,
    }
}

/// A module path `domain/user/project/rest` shortened to `rest`; other
/// paths are kept.
pub open spec fn simplified_go_path(path: Seq<char>) -> Seq<char> {
    let parts = split_char(path, '/');
    if parts.len() > 3 && contains(parts[0], "."@) { join(parts.skip(3), "/"@) } else { path }
}

/// Shorten a Go module path to a path within the module.
pub fn simplify_go_path(path: &str) -> (r: String)
    ensures
        r@ == simplified_go_path(path@),
{
    let p = chars_of(path);
    let parts = split_char_v(&p, '/');
    let ghost pv = parts@.map_values(|x: Vec<char>| x@);
    if parts.len() > 3 && crate::text::contains_str(&parts[0], ".") {
        let mut rest: Vec<Vec<char>> = Vec::new();
        let mut i: usize = 3;
        while i < parts.len()
            invariant
                3 <= i <= parts.len(),
                pv == parts@.map_values(|x: Vec<char>| x@),
                rest@.map_values(|x: Vec<char>| x@) == pv.subrange(3, i as int),
            decreases parts.len() - i,
        {
            let x = slice(&parts[i], 0, parts[i].len());
            assert(x@ =~= pv[i as int]);
            let ghost before = rest@.map_values(|x: Vec<char>| x@);
            rest.push(x);
            assert(rest@.map_values(|x: Vec<char>| x@) =~= before.push(pv[i as int]));
            assert(pv.subrange(3, i + 1) =~= pv.subrange(3, i as int).push(pv[i as int]));
            i += 1;
        }
        assert(pv.subrange(3, parts.len() as int) =~= pv.skip(3));
        assert(parts@[0]@ == pv[0]);
        string_of(&join_v(&rest, &chars_of("/")))
    } else {
        assert(parts.len() > 3 ==> parts@[0]@ == pv[0]);
        string_of(&p)
    }
}


/// The hits after marking lines `s..=e` with `c` (the larger count wins).
pub open spec fn mark_lines(ps: Seq<(usize, u64)>, s: int, e: int, c: u64) -> Seq<(usize, u64)>
    decreases e - s + 1,
{
    if e < s { ps } else { hits_max(mark_lines(ps, s, e - 1, c), e as usize, c) }
}

/// Position of the group of a file.
pub open spec fn group_of(gs: Seq<(Seq<char>, Seq<(usize, u64)>)>, file: Seq<char>) -> Option<int>
    decreases gs.len(),
{
    if gs.len() == 0 {
        None
    } else if gs.last().0 == file && group_of(gs.drop_last(), file) is None {
        Some(gs.len() - 1)
    } else {
        group_of(gs.drop_last(), file)
    }
}

/// A block marks its lines in its file's group (a new group for a new
/// file).
pub open spec fn add_block(gs: Seq<(Seq<char>, Seq<(usize, u64)>)>, b: BlockView) -> Seq<(Seq<char>, Seq<(usize, u64)>)> {
    match group_of(gs, b.file) {
        Some(i) => gs.update(i, (b.file, mark_lines(gs[i].1, b.start_line as int, b.end_line as int, b.count))),
        None => gs.push((b.file, mark_lines(seq![], b.start_line as int, b.end_line as int, b.count))),
    }
}

/// The files of a profile with their line hits, in order of first
/// appearance; the mode line, blank lines and lines that are no block are
/// skipped.
pub open spec fn go_groups(ls: Seq<Seq<char>>) -> Seq<(Seq<char>, Seq<(usize, u64)>)>
    decreases ls.len(),
{
    if ls.len() == 0 {
        seq![]
    } else {
        let gs = go_groups(ls.drop_last());
        let t = trim(ls.last());
        if t.len() == 0 || starts_with(t, "mode:"@) {
            gs
        } else {
            match coverage_block(t) {
                Some(b) => add_block(gs, b),
                None => gs,
            }
        }
    }
}

/// The coverage of each file of a profile (paths shortened as
/// `simplified_go_path` does).
pub open spec fn go_cover_files(ls: Seq<Seq<char>>) -> Seq<FileCovView> {
    go_groups(ls).map_values(|g: (Seq<char>, Seq<(usize, u64)>)| file_of_hits(crate::history::path_of(simplified_go_path(g.0)), g.1, 0, 0))
}

proof fn lemma_group_of_bounds(gs: Seq<(Seq<char>, Seq<(usize, u64)>)>, file: Seq<char>)
    ensures
        group_of(gs, file) matches Some(i) ==> 0 <= i < gs.len() && gs[i].0 == file,
    decreases gs.len(),
{
    if gs.len() > 0 {
        lemma_group_of_bounds(gs.drop_last(), file);
    }
}

proof fn lemma_group_of_prefix(gs: Seq<(Seq<char>, Seq<(usize, u64)>)>, i: int, file: Seq<char>)
    requires
        0 <= i < gs.len(),
        gs[i].0 == file,
        group_of(gs.take(i), file) is None,
    ensures
        group_of(gs, file) == Some(i),
    decreases gs.len() - i,
{
    if i == gs.len() - 1 {
        assert(gs.drop_last() =~= gs.take(i));
    } else {
        assert(gs.drop_last().take(i) =~= gs.take(i));
        assert(gs.drop_last()[i] == gs[i]);
        lemma_group_of_prefix(gs.drop_last(), i, file);
    }
}

pub open spec fn groups_view(gs: Seq<(Vec<char>, HitList)>) -> Seq<(Seq<char>, Seq<(usize, u64)>)> {
    gs.map_values(|g: (Vec<char>, HitList)| (g.0@, g.1.pairs@))
}

fn mark_lines_v(h: &mut HitList, s: usize, e: usize, c: u64)
    ensures
        final(h).pairs@ == mark_lines(old(h).pairs@, s as int, e as int, c),
{
    let ghost orig = h.pairs@;
    if e < s {
        return;
    }
    let mut ln: usize = s;
    let mut done = false;
    while !done
        invariant
            s <= ln <= e,
            !done ==> h.pairs@ == mark_lines(orig, s as int, ln as int - 1, c),
            done ==> h.pairs@ == mark_lines(orig, s as int, e as int, c),
        decreases e - ln + (if done { 0int } else { 1int }),
    {
        h.add_max(ln, c);
        if ln == e {
            done = true;
        } else {
            ln = ln + 1;
        }
    }
}

fn add_block_v(gs: &mut Vec<(Vec<char>, HitList)>, b: CoverageBlock)
    ensures
        groups_view(final(gs)@) == add_block(groups_view(old(gs)@), b@),
{
    let ghost gv = groups_view(gs@);
    let file = crate::text::chars_of_string(&b.file);
    let mut i: usize = 0;
    let mut found: Option<usize> = None;
    while i < gs.len()
        invariant
            i <= gs.len(),
            gv == groups_view(gs@),
            file@ == b.file@,
            found is None ==> group_of(gv.take(i as int), file@) is None,
            found matches Some(k) ==> k < gs.len() && group_of(gv, file@) == Some(k as int),
        decreases gs.len() - i,
    {
        if found.is_none() {
            assert(gv.take(i + 1).drop_last() =~= gv.take(i as int));
            if eq(&gs[i].0, &file) {
                proof {
                    lemma_group_of_prefix(gv, i as int, file@);
                }
                found = Some(i);
            }
        }
        i += 1;
    }
    match found {
        Some(k) => {
            proof {
                lemma_group_of_bounds(gv, file@);
            }
            let ghost old_gs = gs@;
            let mut entry = gs.remove(k);
            assert(entry == old_gs[k as int]);
            assert(gv[k as int] == (entry.0@, entry.1.pairs@));
            mark_lines_v(&mut entry.1, b.start_line, b.end_line, b.count);
            gs.insert(k, entry);
            assert(gs@ =~= old_gs.update(k as int, entry));
            assert(entry.0@ == b@.file);
            assert(groups_view(gs@) =~= gv.update(k as int, (b@.file, entry.1.pairs@)));
            assert(groups_view(gs@) =~= add_block(gv, b@));
        },
        None => {
            assert(gv.take(gv.len() as int) =~= gv);
            let mut h = HitList::new();
            mark_lines_v(&mut h, b.start_line, b.end_line, b.count);
            let ghost before = groups_view(gs@);
            gs.push((file, h));
            assert(groups_view(gs@) =~= add_block(gv, b@));
        },
    }
}

/// Parse a Go coverage profile into the coverage of its files.
pub fn parse_go_cover_files(content: &str) -> (r: Vec<FileCoverage>)
    ensures
        files_cov_view(r@) == go_cover_files(lines(content@)),
{
    let ls = crate::text::lines_of(content);
    let ghost lv = ls@.map_values(|l: Vec<char>| l@);
    assert(lv =~= lines(content@));
    let mut gs: Vec<(Vec<char>, HitList)> = Vec::new();
    assert(groups_view(gs@) =~= seq![]);
    let mut i: usize = 0;
    while i < ls.len()
        invariant
            i <= ls.len(),
            lv == ls@.map_values(|l: Vec<char>| l@),
            groups_view(gs@) == go_groups(lv.take(i as int)),
        decreases ls.len() - i,
    {
        assert(lv.take(i + 1).drop_last() =~= lv.take(i as int));
        assert(lv.take(i + 1).last() == ls@[i as int]@);
        let t = trim_v(&ls[i]);
        if !(t.len() == 0 || starts_with_str(&t, "mode:")) {
            match parse_coverage_line(string_of(&t).as_str()) {
                Some(b) => {
                    add_block_v(&mut gs, b);
                },
                None => {},
            }
        }
        i += 1;
    }
    assert(lv.take(ls.len() as int) =~= lv);
    let ghost gv = groups_view(gs@);
    let mut files: Vec<FileCoverage> = Vec::new();
    let mut k: usize = 0;
    while k < gs.len()
        invariant
            k <= gs.len(),
            gv == groups_view(gs@),
            files_cov_view(files@) == gv.take(k as int).map_values(|g: (Seq<char>, Seq<(usize, u64)>)| file_of_hits(crate::history::path_of(simplified_go_path(g.0)), g.1, 0, 0)),
        decreases gs.len() - k,
    {
        let path = simplify_go_path(string_of(&gs[k].0).as_str());
        assert(gv[k as int].0 == gs@[k as int].0@);
        let f = gs[k].1.to_file(path.as_str(), 0, 0);
        let ghost before = files_cov_view(files@);
        files.push(f);
        assert(files_cov_view(files@) =~= before.push(crate::coverage::file_cov_view(f)));
        assert(gv.take(k + 1).map_values(|g: (Seq<char>, Seq<(usize, u64)>)| file_of_hits(crate::history::path_of(simplified_go_path(g.0)), g.1, 0, 0))
            =~= gv.take(k as int).map_values(|g: (Seq<char>, Seq<(usize, u64)>)| file_of_hits(crate::history::path_of(simplified_go_path(g.0)), g.1, 0, 0)).push(file_of_hits(crate::history::path_of(simplified_go_path(gv[k as int].0)), gv[k as int].1, 0, 0)));
        k += 1;
    }
    assert(gv.take(gs.len() as int) =~= gv);
    files
}

} // verus!
