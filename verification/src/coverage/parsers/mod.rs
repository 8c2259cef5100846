//! Parsers for coverage report formats, and the per-line hit lists they
//! build.

use vstd::prelude::*;
use std::collections::HashMap;
use crate::coverage::{FileCovView, FileCoverage};

pub mod cobertura;
pub mod go_cover;
pub mod jacoco;
pub mod lcov;

verus! {

broadcast use vstd::std_specs::hash::group_hash_axioms;

/// Position of the first entry for `line`.
pub open spec fn hit_index(ps: Seq<(usize, u64)>, line: usize) -> Option<int>
    decreases ps.len(),
{
    if ps.len() == 0 {
        None
    } else if ps.last().0 == line && hit_index(ps.drop_last(), line) is None {
        Some(ps.len() - 1)
    } else {
        hit_index(ps.drop_last(), line)
    }
}

/// The list with `count` hits for `line`, keeping the larger count when
/// the line is there already.
pub open spec fn hits_max(ps: Seq<(usize, u64)>, line: usize, count: u64) -> Seq<(usize, u64)> {
    match hit_index(ps, line) {
        Some(i) => ps.update(i, (line, if ps[i].1 >= count { ps[i].1 } else { count })),
        None => ps.push((line, count)),
    }
}

/// The list with `count` hits for `line`, replacing an earlier count.
pub open spec fn hits_set(ps: Seq<(usize, u64)>, line: usize, count: u64) -> Seq<(usize, u64)> {
    match hit_index(ps, line) {
        Some(i) => ps.update(i, (line, count)),
        None => ps.push((line, count)),
    }
}

/// The hits as a map from line to count.
pub open spec fn hits_map(ps: Seq<(usize, u64)>) -> Map<usize, u64>
    decreases ps.len(),
{
    if ps.len() == 0 { Map::empty() } else { hits_map(ps.drop_last()).insert(ps.last().0, ps.last().1) }
}

/// Number of lines that were hit.
pub open spec fn hit_lines(ps: Seq<(usize, u64)>) -> nat
    decreases ps.len(),
{
    if ps.len() == 0 { 0 } else { hit_lines(ps.drop_last()) + if ps.last().1 > 0 { 1nat } else { 0nat } }
}

/// The coverage of the file at `path` with these hits and branch counts.
pub open spec fn file_of_hits(path: std::path::PathBuf, ps: Seq<(usize, u64)>, tb: nat, cb: nat) -> FileCovView {
    FileCovView {
        path: path,
        total_lines: ps.len() as usize,
        covered_lines: hit_lines(ps) as usize,
        uncovered_ranges: seq![],
        line_hits: hits_map(ps),
        total_branches: tb as usize,
        covered_branches: cb as usize,
    }
}

proof fn lemma_hit_index_bounds(ps: Seq<(usize, u64)>, line: usize)
    ensures
        hit_index(ps, line) matches Some(i) ==> 0 <= i < ps.len() && ps[i].0 == line,
    decreases ps.len(),
{
    if ps.len() > 0 {
        lemma_hit_index_bounds(ps.drop_last(), line);
    }
}

proof fn lemma_hit_lines_le(ps: Seq<(usize, u64)>)
    ensures
        hit_lines(ps) <= ps.len(),
    decreases ps.len(),
{
    if ps.len() > 0 {
        lemma_hit_lines_le(ps.drop_last());
    }
}

/// Line hits gathered line by line.
pub struct HitList {
    pub pairs: Vec<(usize, u64)>,
}

impl HitList {
    pub fn new() -> (h: HitList)
        ensures
            h.pairs@ == Seq::<(usize, u64)>::empty(),
    {
        HitList { pairs: Vec::new() }
    }

    fn index_of(&self, line: usize) -> (r: Option<usize>)
        ensures
            match r {
                Some(i) => i < self.pairs@.len() && hit_index(self.pairs@, line) == Some(i as int),
                None => hit_index(self.pairs@, line) is None,
            },
    {
        let ghost ps = self.pairs@;
        let mut i: usize = 0;
        while i < self.pairs.len()
            invariant
                i <= self.pairs.len(),
                ps == self.pairs@,
                hit_index(ps.take(i as int), line) is None,
            decreases self.pairs.len() - i,
        {
            assert(ps.take(i + 1).drop_last() =~= ps.take(i as int));
            if self.pairs[i].0 == line {
                proof {
                    lemma_hit_index_prefix(ps, i as int, line);
                }
                return Some(i);
            }
            i += 1;
        }
        assert(ps.take(ps.len() as int) =~= ps);
        None
    }

    /// Record `count` hits for `line`, keeping the larger count.
    pub fn add_max(&mut self, line: usize, count: u64)
        ensures
            final(self).pairs@ == hits_max(old(self).pairs@, line, count),
    {
        match self.index_of(line) {
            Some(i) => {
                let old_count = self.pairs[i].1;
                let c = if old_count >= count { old_count } else { count };
                self.pairs.set(i, (line, c));
            },
            None => {
                self.pairs.push((line, count));
            },
        }
    }

    /// Record `count` hits for `line`, replacing an earlier count.
    pub fn set(&mut self, line: usize, count: u64)
        ensures
            final(self).pairs@ == hits_set(old(self).pairs@, line, count),
    {
        match self.index_of(line) {
            Some(i) => {
                self.pairs.set(i, (line, count));
            },
            None => {
                self.pairs.push((line, count));
            },
        }
    }

    /// Forget all hits.
    pub fn clear(&mut self)
        ensures
            final(self).pairs@ == Seq::<(usize, u64)>::empty(),
    {
        self.pairs = Vec::new();
    }

    /// The hits as a map.
    pub fn to_map(&self) -> (m: HashMap<usize, u64>)
        ensures
            m@ == hits_map(self.pairs@),
    {
        let ghost ps = self.pairs@;
        let mut m: HashMap<usize, u64> = HashMap::new();
        let mut i: usize = 0;
        while i < self.pairs.len()
            invariant
                i <= self.pairs.len(),
                ps == self.pairs@,
                m@ == hits_map(ps.take(i as int)),
            decreases self.pairs.len() - i,
        {
            assert(ps.take(i + 1).drop_last() =~= ps.take(i as int));
            m.insert(self.pairs[i].0, self.pairs[i].1);
            i += 1;
        }
        assert(ps.take(ps.len() as int) =~= ps);
        m
    }

    /// The number of lines that were hit.
    pub fn hit_count(&self) -> (n: usize)
        ensures
            n == hit_lines(self.pairs@),
    {
        let ghost ps = self.pairs@;
        let mut n: usize = 0;
        let mut i: usize = 0;
        while i < self.pairs.len()
            invariant
                i <= self.pairs.len(),
                ps == self.pairs@,
                n == hit_lines(ps.take(i as int)),
            decreases self.pairs.len() - i,
        {
            assert(ps.take(i + 1).drop_last() =~= ps.take(i as int));
            proof {
                lemma_hit_lines_le(ps.take(i as int));
            }
            if self.pairs[i].1 > 0 {
                n = n + 1;
            }
            i += 1;
        }
        assert(ps.take(ps.len() as int) =~= ps);
        n
    }

    /// The coverage of a file at `path` with these hits and branch counts.
    pub fn to_file(&self, path: &str, total_branches: usize, covered_branches: usize) -> (f: FileCoverage)
        ensures
            crate::coverage::file_cov_view(f) == file_of_hits(crate::history::path_of(path@), self.pairs@, total_branches as nat, covered_branches as nat),
    {
        let f = FileCoverage {
            path: crate::history::path_from(path),
            total_lines: self.pairs.len(),
            covered_lines: self.hit_count(),
            uncovered_ranges: Vec::new(),
            line_hits: self.to_map(),
            total_branches,
            covered_branches,
        };
        assert(f.uncovered_ranges@ =~= seq![]);
        f
    }
}

proof fn lemma_hit_index_prefix(ps: Seq<(usize, u64)>, i: int, line: usize)
    requires
        0 <= i < ps.len(),
        ps[i].0 == line,
        hit_index(ps.take(i), line) is None,
    ensures
        hit_index(ps, line) == Some(i),
    decreases ps.len() - i,
{
    if i == ps.len() - 1 {
        assert(ps.drop_last() =~= ps.take(i));
    } else {
        assert(ps.drop_last().take(i) =~= ps.take(i));
        assert(ps.drop_last()[i] == ps[i]);
        lemma_hit_index_prefix(ps.drop_last(), i, line);
    }
}

} // verus!
