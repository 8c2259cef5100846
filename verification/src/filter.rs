//! Test filters: name patterns with `*` wildcards, status and suite filters.

use vstd::prelude::*;
use crate::adapters::{
    CaseView, SuiteView, TestCase, TestRunResult, TestStatus, TestSuite, cases_view, clone_cases,
    count_status, suites_view, total_cases, total_status,
};
use crate::num::min_nat;
use crate::text::{
    chars_of, chars_of_string, contains, contains_char, contains_v, ends_with, ends_with_v,
    find_from, find_from_v, lemma_find_from_bounds, matches_at, occurs_at, slice, split_char,
    starts_with, starts_with_v, string_of, trim, trim_v, eq as chars_eq, find_char, find_char_v, split_char_v,
};

verus! {

/// A segment in a glob pattern.
#[derive(Debug)]
pub enum GlobSegment {
    /// A literal string to match.
    Literal(String),
    /// A wildcard matching any characters.
    Wildcard,
}

/// A single filter pattern that can match test names.
#[derive(Debug)]
pub enum FilterPattern {
    /// Exact string match.
    Exact(String),
    /// Prefix match (pattern ends with `*`).
    Prefix(String),
    /// Suffix match (pattern starts with `*`).
    Suffix(String),
    /// Contains match (pattern starts and ends with `*`).
    Contains(String),
    /// Simple glob with `*` wildcards.
    Glob(Vec<GlobSegment>),
}

/// A compiled test filter that can match test cases by name pattern.
#[derive(Debug)]
pub struct TestFilter {
    includes: Vec<FilterPattern>,
    exclude: Vec<FilterPattern>,
    status_filter: Vec<TestStatus>,
    suite_filter: Option<String>,
}

// ---------------------------------------------------------------------------
// Views
// ---------------------------------------------------------------------------

pub enum SegView {
    Literal(Seq<char>),
    Wildcard,
}

pub enum PatternView {
    Exact(Seq<char>),
    Prefix(Seq<char>),
    Suffix(Seq<char>),
    Contains(Seq<char>),
    Glob(Seq<SegView>),
}

pub struct FilterView {
    pub includes: Seq<PatternView>,
    pub exclude: Seq<PatternView>,
    pub status: Seq<TestStatus>,
    pub suite: Option<Seq<char>>,
}

impl View for GlobSegment {
    type V = SegView;

    open spec fn view(&self) -> SegView {
        match self {
            GlobSegment::Literal(s) => SegView::Literal(s@),
            GlobSegment::Wildcard => SegView::Wildcard,
        }
    }
}

pub open spec fn segs_view(s: Seq<GlobSegment>) -> Seq<SegView> {
    s.map_values(|g: GlobSegment| g@)
}

impl View for FilterPattern {
    type V = PatternView;

    open spec fn view(&self) -> PatternView {
        match self {
            FilterPattern::Exact(s) => PatternView::Exact(s@),
            FilterPattern::Prefix(s) => PatternView::Prefix(s@),
            FilterPattern::Suffix(s) => PatternView::Suffix(s@),
            FilterPattern::Contains(s) => PatternView::Contains(s@),
            FilterPattern::Glob(g) => PatternView::Glob(segs_view(g@)),
        }
    }
}

pub open spec fn patterns_view(s: Seq<FilterPattern>) -> Seq<PatternView> {
    s.map_values(|p: FilterPattern| p@)
}

impl View for TestFilter {
    type V = FilterView;

    closed spec fn view(&self) -> FilterView {
        FilterView {
            includes: patterns_view(self.includes@),
            exclude: patterns_view(self.exclude@),
            status: self.status_filter@,
            suite: crate::adapters::opt_str_view(self.suite_filter),
        }
    }
}

// ---------------------------------------------------------------------------
// Pattern parsing
// ---------------------------------------------------------------------------

pub open spec fn has_star(s: Seq<char>) -> bool {
    contains(s, seq!['*'])
}

/// State after reading a prefix of a glob: segments so far and the pending
/// literal text.
pub open spec fn glob_state(p: Seq<char>) -> (Seq<SegView>, Seq<char>)
    decreases p.len(),
{
    if p.len() == 0 {
        (seq![], seq![])
    } else {
        let (segs, cur) = glob_state(p.drop_last());
        let c = p.last();
        if c == '*' {
            let segs2 = if cur.len() > 0 { segs.push(SegView::Literal(cur)) } else { segs };
            let segs3 = if segs2.len() > 0 && segs2.last() is Wildcard { segs2 } else { segs2.push(SegView::Wildcard) };
            (segs3, seq![])
        } else {
            (segs, cur.push(c))
        }
    }
}

/// Segments of a glob pattern: maximal `*`-free runs as literals, each run
/// of `*` as one wildcard.
pub open spec fn glob_segments(p: Seq<char>) -> Seq<SegView> {
    let (segs, cur) = glob_state(p);
    if cur.len() > 0 { segs.push(SegView::Literal(cur)) } else { segs }
}

/// The pattern a string denotes.
pub open spec fn parse_spec(p: Seq<char>) -> PatternView {
    if !has_star(p) {
        PatternView::Exact(p)
    } else if p[0] == '*' && !has_star(p.drop_first()) {
        PatternView::Suffix(p.drop_first())
    } else if p.last() == '*' && !has_star(p.drop_last()) {
        PatternView::Prefix(p.drop_last())
    } else if p[0] == '*' && p.last() == '*' && !has_star(p.subrange(1, p.len() - 1)) {
        PatternView::Contains(p.subrange(1, p.len() - 1))
    } else {
        PatternView::Glob(glob_segments(p))
    }
}

/// Glob segments produced by parsing have non-empty literals.
pub open spec fn literals_nonempty(segs: Seq<SegView>) -> bool {
    forall|i: int| 0 <= i < segs.len() ==> (#[trigger] segs[i] matches SegView::Literal(l) ==> l.len() > 0)
}

pub open spec fn pattern_wf(p: PatternView) -> bool {
    p matches PatternView::Glob(g) ==> literals_nonempty(g)
}

proof fn lemma_glob_state_wf(p: Seq<char>)
    ensures
        literals_nonempty(glob_state(p).0),
    decreases p.len(),
{
    if p.len() > 0 {
        lemma_glob_state_wf(p.drop_last());
        let (segs, cur) = glob_state(p.drop_last());
        let c = p.last();
        if c == '*' {
            let segs2 = if cur.len() > 0 { segs.push(SegView::Literal(cur)) } else { segs };
            assert(literals_nonempty(segs2)) by {
                assert forall|i: int| 0 <= i < segs2.len() implies (#[trigger] segs2[i] matches SegView::Literal(l) ==> l.len() > 0) by {
                    if i < segs.len() {
                        assert(segs2[i] == segs[i]);
                    }
                }
            }
            let segs3 = if segs2.len() > 0 && segs2.last() is Wildcard { segs2 } else { segs2.push(SegView::Wildcard) };
            assert(literals_nonempty(segs3)) by {
                assert forall|i: int| 0 <= i < segs3.len() implies (#[trigger] segs3[i] matches SegView::Literal(l) ==> l.len() > 0) by {
                    if i < segs2.len() {
                        assert(segs3[i] == segs2[i]);
                    }
                }
            }
        }
    }
}

pub proof fn lemma_parse_wf(p: Seq<char>)
    ensures
        pattern_wf(parse_spec(p)),
{
    lemma_glob_state_wf(p);
    let (segs, cur) = glob_state(p);
    let g = glob_segments(p);
    assert(literals_nonempty(g)) by {
        assert forall|i: int| 0 <= i < g.len() implies (#[trigger] g[i] matches SegView::Literal(l) ==> l.len() > 0) by {
            if i < segs.len() {
                assert(g[i] == segs[i]);
            }
        }
    }
}

/// The text a segment stands for when written back: a literal's text, or
/// one `*` for a wildcard.
pub open spec fn seg_text(s: SegView) -> Seq<char> {
    match s {
        SegView::Literal(l) => l,
        SegView::Wildcard => seq!['*'],
    }
}

/// Segments written back one after the other.
pub open spec fn joined(segs: Seq<SegView>) -> Seq<char>
    decreases segs.len(),
{
    if segs.len() == 0 { seq![] } else { joined(segs.drop_last()) + seg_text(segs.last()) }
}

/// A text with each run of `*` shortened to one `*`.
pub open spec fn collapse_stars(p: Seq<char>) -> Seq<char>
    decreases p.len(),
{
    if p.len() == 0 {
        seq![]
    } else {
        let c = collapse_stars(p.drop_last());
        if p.last() == '*' && c.len() > 0 && c.last() == '*' { c } else { c.push(p.last()) }
    }
}

pub open spec fn star_free(s: Seq<char>) -> bool {
    forall|i: int| 0 <= i < s.len() ==> #[trigger] s[i] != '*'
}

/// Neighbouring segments differ in kind: literals and wildcards alternate.
pub open spec fn alternating(segs: Seq<SegView>) -> bool {
    forall|i: int, j: int| 0 <= i && j == i + 1 && j < segs.len()
        ==> (#[trigger] segs[i] is Wildcard) != (#[trigger] segs[j] is Wildcard)
}

pub open spec fn literals_star_free(segs: Seq<SegView>) -> bool {
    forall|i: int| 0 <= i < segs.len() ==> (#[trigger] segs[i] matches SegView::Literal(l) ==> star_free(l))
}

proof fn lemma_joined_push(segs: Seq<SegView>, x: SegView)
    ensures
        joined(segs.push(x)) == joined(segs) + seg_text(x),
{
    assert(segs.push(x).drop_last() =~= segs);
}

proof fn lemma_push_keeps(segs: Seq<SegView>, x: SegView)
    requires
        alternating(segs),
        literals_star_free(segs),
        segs.len() > 0 ==> (segs.last() is Wildcard) != (x is Wildcard),
        x matches SegView::Literal(l) ==> star_free(l),
    ensures
        alternating(segs.push(x)),
        literals_star_free(segs.push(x)),
{
    let t = segs.push(x);
    assert forall|i: int, j: int| 0 <= i && j == i + 1 && j < t.len()
        implies (#[trigger] t[i] is Wildcard) != (#[trigger] t[j] is Wildcard) by {
        if j < segs.len() {
            assert(t[i] == segs[i] && t[j] == segs[j]);
        } else {
            assert(t[i] == segs.last());
        }
    }
    assert forall|i: int| 0 <= i < t.len() implies (#[trigger] t[i] matches SegView::Literal(l) ==> star_free(l)) by {
        if i < segs.len() {
            assert(t[i] == segs[i]);
        }
    }
}

proof fn lemma_glob_state_shape(p: Seq<char>)
    ensures
        joined(glob_state(p).0) + glob_state(p).1 == collapse_stars(p),
        star_free(glob_state(p).1),
        glob_state(p).0.len() > 0 ==> glob_state(p).0.last() is Wildcard,
        alternating(glob_state(p).0),
        literals_star_free(glob_state(p).0),
    decreases p.len(),
{
    if p.len() == 0 {
        assert(joined(seq![]) + seq![] =~= seq![]);
    } else {
        let pre = p.drop_last();
        lemma_glob_state_shape(pre);
        let (segs, cur) = glob_state(pre);
        let c = p.last();
        let cp = collapse_stars(pre);
        if c == '*' {
            if cur.len() > 0 {
                let segs2 = segs.push(SegView::Literal(cur));
                lemma_joined_push(segs, SegView::Literal(cur));
                lemma_push_keeps(segs, SegView::Literal(cur));
                let segs3 = segs2.push(SegView::Wildcard);
                lemma_joined_push(segs2, SegView::Wildcard);
                lemma_push_keeps(segs2, SegView::Wildcard);
                assert(cp.last() == cur.last());
                assert(joined(segs3) + seq![] =~= cp.push('*'));
            } else if segs.len() > 0 {
                assert(segs.drop_last().push(segs.last()) =~= segs);
                lemma_joined_push(segs.drop_last(), segs.last());
                assert(cp =~= joined(segs));
                assert(cp.last() == '*');
                assert(joined(segs) + seq![] =~= cp);
            } else {
                let segs3 = segs.push(SegView::Wildcard);
                lemma_joined_push(segs, SegView::Wildcard);
                lemma_push_keeps(segs, SegView::Wildcard);
                assert(cp =~= seq![]);
                assert(joined(segs3) + seq![] =~= cp.push('*'));
            }
        } else {
            assert(joined(segs) + cur.push(c) =~= (joined(segs) + cur).push(c));
            assert forall|i: int| 0 <= i < cur.push(c).len() implies #[trigger] cur.push(c)[i] != '*' by {
                if i < cur.len() {
                    assert(cur.push(c)[i] == cur[i]);
                }
            }
        }
    }
}

/// A glob splits into literals and wildcards that alternate; literals are
/// non-empty and hold no `*`; and writing the segments back, a wildcard as
/// one `*`, gives the pattern with each run of `*` shortened to one.
pub proof fn law_glob_segments_shape(p: Seq<char>)
    ensures
        joined(glob_segments(p)) == collapse_stars(p),
        alternating(glob_segments(p)),
        literals_nonempty(glob_segments(p)),
        literals_star_free(glob_segments(p)),
{
    lemma_glob_state_shape(p);
    lemma_glob_state_wf(p);
    let (segs, cur) = glob_state(p);
    let g = glob_segments(p);
    if cur.len() > 0 {
        lemma_joined_push(segs, SegView::Literal(cur));
        lemma_push_keeps(segs, SegView::Literal(cur));
    } else {
        assert(joined(segs) + cur =~= joined(segs));
    }
    assert forall|i: int| 0 <= i < g.len() implies (#[trigger] g[i] matches SegView::Literal(l) ==> l.len() > 0) by {
        if i < segs.len() {
            assert(g[i] == segs[i]);
        }
    }
}

/// Parse a glob pattern into segments.
pub fn parse_glob_segments(pattern: &str) -> (r: Vec<GlobSegment>)
    ensures
        segs_view(r@) == glob_segments(pattern@),
{
    let p = chars_of(pattern);
    let mut segments: Vec<GlobSegment> = Vec::new();
    let mut current: Vec<char> = Vec::new();
    let mut i: usize = 0;
    while i < p.len()
        invariant
            i <= p.len(),
            p@ == pattern@,
            (segs_view(segments@), current@) == glob_state(p@.take(i as int)),
        decreases p.len() - i,
    {
        let c = p[i];
        assert(p@.take(i + 1).drop_last() =~= p@.take(i as int));
        assert(p@.take(i + 1).last() == c);
        if c == '*' {
            if current.len() > 0 {
                let lit = GlobSegment::Literal(string_of(&current));
                let ghost before = segments@;
                segments.push(lit);
                assert(segs_view(segments@) =~= segs_view(before).push(lit@));
                current = Vec::new();
            }
            let last_is_wild = segments.len() > 0 && match &segments[segments.len() - 1] {
                GlobSegment::Wildcard => true,
                _ => false,
            };
            if !last_is_wild {
                let ghost before = segments@;
                segments.push(GlobSegment::Wildcard);
                assert(segs_view(segments@) =~= segs_view(before).push(SegView::Wildcard));
            }
            assert(current@ =~= seq![]);
        } else {
            current.push(c);
        }
        i += 1;
    }
    assert(p@.take(p.len() as int) =~= p@);
    if current.len() > 0 {
        let lit = GlobSegment::Literal(string_of(&current));
        let ghost before = segments@;
        segments.push(lit);
        assert(segs_view(segments@) =~= segs_view(before).push(lit@));
    }
    segments
}

// ---------------------------------------------------------------------------
// Matching
// ---------------------------------------------------------------------------

/// Deepest segment index the matcher explores.
pub open spec fn max_depth() -> nat {
    1024
}

/// Whether `s[pos..]` matches the segments from `si` on (the matcher gives
/// up beyond segment index 1024).
pub open spec fn glob_at(segs: Seq<SegView>, s: Seq<char>, si: nat, pos: int) -> bool
    decreases segs.len() - si, 0int,
{
    if si > max_depth() {
        false
    } else if si >= segs.len() {
        pos == s.len()
    } else {
        match segs[si as int] {
            SegView::Literal(l) => occurs_at(s, l, pos) && glob_at(segs, s, si + 1, pos + l.len()),
            SegView::Wildcard => si + 1 == segs.len() || glob_any_from(segs, s, si + 1, pos),
        }
    }
}

/// Whether `s[k..]` matches the segments from `si` on for some `k >= pos`.
pub open spec fn glob_any_from(segs: Seq<SegView>, s: Seq<char>, si: nat, pos: int) -> bool
    decreases segs.len() - si, s.len() + 2 - pos,
{
    if pos < 0 || pos > s.len() {
        false
    } else {
        glob_at(segs, s, si, pos) || glob_any_from(segs, s, si, pos + 1)
    }
}

/// A piece of text a segment accepts: a literal's own text, or any text
/// for a wildcard.
pub open spec fn seg_accepts(seg: SegView, w: Seq<char>) -> bool {
    match seg {
        SegView::Literal(l) => w == l,
        SegView::Wildcard => true,
    }
}

/// `ws` gives each segment a piece it accepts.
pub open spec fn pieces_for(segs: Seq<SegView>, ws: Seq<Seq<char>>) -> bool {
    ws.len() == segs.len() && forall|i: int| 0 <= i < ws.len() ==> seg_accepts(#[trigger] segs[i], ws[i])
}

/// Matching by splitting: the text cuts into one piece per segment, each
/// piece accepted by its segment.
pub open spec fn split_matches(segs: Seq<SegView>, t: Seq<char>) -> bool {
    exists|ws: Seq<Seq<char>>| #[trigger] pieces_for(segs, ws) && ws.flatten() == t
}

proof fn lemma_flatten_cons(w: Seq<char>, ws: Seq<Seq<char>>)
    ensures
        (seq![w] + ws).flatten() == w + ws.flatten(),
{
    let c = seq![w] + ws;
    assert(c.first() == w);
    assert(c.drop_first() =~= ws);
}

proof fn lemma_any_from(segs: Seq<SegView>, s: Seq<char>, si: nat, pos: int)
    requires
        0 <= pos <= s.len(),
    ensures
        glob_any_from(segs, s, si, pos) == exists|k: int| pos <= k <= s.len() && #[trigger] glob_at(segs, s, si, k),
    decreases s.len() + 2 - pos,
{
    assert(glob_any_from(segs, s, si, pos) == (glob_at(segs, s, si, pos) || glob_any_from(segs, s, si, pos + 1)));
    if pos < s.len() {
        lemma_any_from(segs, s, si, pos + 1);
        if exists|k: int| pos <= k <= s.len() && #[trigger] glob_at(segs, s, si, k) {
            let k = choose|k: int| pos <= k <= s.len() && #[trigger] glob_at(segs, s, si, k);
            if k > pos {
                assert(pos + 1 <= k <= s.len() && glob_at(segs, s, si, k));
            }
        }
    } else {
        if exists|k: int| pos <= k <= s.len() && #[trigger] glob_at(segs, s, si, k) {
            let k = choose|k: int| pos <= k <= s.len() && #[trigger] glob_at(segs, s, si, k);
            assert(k == pos);
        }
        assert(!glob_any_from(segs, s, si, pos + 1));
    }
}

proof fn lemma_glob_at_split(segs: Seq<SegView>, s: Seq<char>, si: nat, pos: int)
    requires
        segs.len() <= max_depth(),
        si <= segs.len(),
        0 <= pos <= s.len(),
    ensures
        glob_at(segs, s, si, pos) == split_matches(segs.skip(si as int), s.skip(pos)),
    decreases segs.len() - si,
{
    let rest = segs.skip(si as int);
    let t = s.skip(pos);
    if si == segs.len() {
        if pos == s.len() {
            assert(pieces_for(rest, seq![]));
            assert(Seq::<Seq<char>>::empty().flatten() =~= t);
        } else if split_matches(rest, t) {
            let ws = choose|ws: Seq<Seq<char>>| #[trigger] pieces_for(rest, ws) && ws.flatten() == t;
            assert(ws.len() == 0);
            assert(t.len() > 0);
        }
    } else {
        let nrest = segs.skip((si + 1) as int);
        assert(rest.drop_first() =~= nrest);
        assert(rest[0] == segs[si as int]);
        // a split of `t` gives a first piece and a split of the rest
        if split_matches(rest, t) {
            let ws = choose|ws: Seq<Seq<char>>| #[trigger] pieces_for(rest, ws) && ws.flatten() == t;
            let w0 = ws[0];
            let wr = ws.drop_first();
            assert(seq![w0] + wr =~= ws);
            lemma_flatten_cons(w0, wr);
            assert(pieces_for(nrest, wr)) by {
                assert forall|i: int| 0 <= i < wr.len() implies seg_accepts(#[trigger] nrest[i], wr[i]) by {
                    assert(seg_accepts(rest[i + 1], ws[i + 1]));
                }
            }
            assert(seg_accepts(rest[0], ws[0]));
            let k = pos + w0.len();
            assert(t =~= w0 + wr.flatten());
            assert(t.skip(w0.len() as int) =~= wr.flatten());
            assert(k <= s.len());
            assert(s.skip(k) =~= t.skip(w0.len() as int));
            assert(split_matches(nrest, s.skip(k)));
            lemma_glob_at_split(segs, s, si + 1, k);
            match segs[si as int] {
                SegView::Literal(l) => {
                    assert(s.subrange(pos, pos + l.len()) =~= w0);
                    assert(occurs_at(s, l, pos));
                },
                SegView::Wildcard => {
                    if si + 1 < segs.len() {
                        lemma_any_from(segs, s, si + 1, pos);
                        assert(pos <= k <= s.len() && glob_at(segs, s, si + 1, k));
                    }
                },
            }
        }
        // and a match gives a split
        if glob_at(segs, s, si, pos) {
            match segs[si as int] {
                SegView::Literal(l) => {
                    let k = pos + l.len();
                    lemma_glob_at_split(segs, s, si + 1, k);
                    let wr = choose|ws: Seq<Seq<char>>| #[trigger] pieces_for(nrest, ws) && ws.flatten() == s.skip(k);
                    let ws = seq![l] + wr;
                    lemma_flatten_cons(l, wr);
                    assert(s.subrange(pos, k) == l);
                    assert(ws.flatten() =~= t);
                    assert(pieces_for(rest, ws)) by {
                        assert forall|i: int| 0 <= i < ws.len() implies seg_accepts(#[trigger] rest[i], ws[i]) by {
                            if i > 0 {
                                assert(ws[i] == wr[i - 1]);
                                assert(rest[i] == nrest[i - 1]);
                            }
                        }
                    }
                },
                SegView::Wildcard => {
                    if si + 1 == segs.len() {
                        let ws = seq![t];
                        assert(nrest.len() == 0);
                        lemma_flatten_cons(t, seq![]);
                        assert(seq![t] + Seq::<Seq<char>>::empty() =~= ws);
                        assert(ws.flatten() =~= t);
                        assert(pieces_for(rest, ws));
                    } else {
                        lemma_any_from(segs, s, si + 1, pos);
                        let k = choose|k: int| pos <= k <= s.len() && #[trigger] glob_at(segs, s, si + 1, k);
                        lemma_glob_at_split(segs, s, si + 1, k);
                        let wr = choose|ws: Seq<Seq<char>>| #[trigger] pieces_for(nrest, ws) && ws.flatten() == s.skip(k);
                        let w0 = s.subrange(pos, k);
                        let ws = seq![w0] + wr;
                        lemma_flatten_cons(w0, wr);
                        assert(ws.flatten() =~= t);
                        assert(pieces_for(rest, ws)) by {
                            assert forall|i: int| 0 <= i < ws.len() implies seg_accepts(#[trigger] rest[i], ws[i]) by {
                                if i > 0 {
                                    assert(ws[i] == wr[i - 1]);
                                    assert(rest[i] == nrest[i - 1]);
                                }
                            }
                        }
                    }
                },
            }
        }
    }
}

/// A glob of at most 1024 segments matches a name exactly when the name
/// splits into one piece per segment: each literal's own text, any text
/// for each wildcard.
pub proof fn law_glob_is_split_matching(segs: Seq<SegView>, name: Seq<char>)
    requires
        segs.len() <= max_depth(),
    ensures
        glob_at(segs, name, 0, 0) == split_matches(segs, name),
{
    lemma_glob_at_split(segs, name, 0, 0);
    assert(segs.skip(0) =~= segs);
    assert(name.skip(0) =~= name);
}

/// Whether a name matches a pattern.
pub open spec fn pattern_matches(p: PatternView, name: Seq<char>) -> bool {
    match p {
        PatternView::Exact(s) => name == s,
        PatternView::Prefix(s) => starts_with(name, s),
        PatternView::Suffix(s) => ends_with(name, s),
        PatternView::Contains(s) => contains(name, s),
        PatternView::Glob(g) => glob_at(g, name, 0, 0),
    }
}

/// Positions where the literal `l` does not start cannot begin a match of
/// segments that start with `l`.
proof fn lemma_any_from_skip(segs: Seq<SegView>, s: Seq<char>, si: nat, l: Seq<char>, from: int, to: int)
    requires
        si < segs.len(),
        segs[si as int] == SegView::Literal(l),
        0 <= from <= to <= s.len() + 1,
        forall|k: int| from <= k < to ==> !occurs_at(s, l, k),
    ensures
        glob_any_from(segs, s, si, from) == glob_any_from(segs, s, si, to),
    decreases to - from,
{
    if from < to {
        lemma_any_from_skip(segs, s, si, l, from + 1, to);
        assert(!occurs_at(s, l, from));
        assert(!glob_at(segs, s, si, from));
        assert(glob_any_from(segs, s, si, from) == glob_any_from(segs, s, si, from + 1));
    }
}

fn glob_match_rec(segments: &Vec<GlobSegment>, s: &Vec<char>, seg_idx: usize, str_idx: usize) -> (r: bool)
    requires
        literals_nonempty(segs_view(segments@)),
        str_idx <= s.len(),
    ensures
        r == glob_at(segs_view(segments@), s@, seg_idx as nat, str_idx as int),
    decreases segments.len() - seg_idx,
{
    let ghost sv = segs_view(segments@);
    if seg_idx > 1024 {
        return false;
    }
    if seg_idx >= segments.len() {
        return str_idx == s.len();
    }
    assert(sv[seg_idx as int] == segments@[seg_idx as int]@);
    match &segments[seg_idx] {
        GlobSegment::Literal(lit) => {
            let lv = chars_of_string(lit);
            if matches_at(s, &lv, str_idx) {
                glob_match_rec(segments, s, seg_idx + 1, str_idx + lv.len())
            } else {
                false
            }
        },
        GlobSegment::Wildcard => {
            if seg_idx + 1 == segments.len() {
                return true;
            }
            assert(sv[seg_idx + 1] == segments@[seg_idx + 1]@);
            match &segments[seg_idx + 1] {
                GlobSegment::Literal(next_lit) => {
                    let lv = chars_of_string(next_lit);
                    assert(lv@.len() > 0);
                    let ghost nx = (seg_idx + 1) as nat;
                    let mut search = str_idx;
                    while search < s.len()
                        invariant
                            str_idx <= search <= s.len(),
                            sv == segs_view(segments@),
                            literals_nonempty(sv),
                            nx == seg_idx + 1,
                            seg_idx <= 1024,
                            sv[seg_idx as int] == SegView::Wildcard,
                            seg_idx + 1 < segments.len(),
                            sv[seg_idx + 1] == SegView::Literal(lv@),
                            lv@.len() > 0,
                            glob_any_from(sv, s@, nx, str_idx as int) == glob_any_from(sv, s@, nx, search as int),
                        decreases s.len() - search,
                    {
                        match find_from_v(s, &lv, search) {
                            None => {
                                proof {
                                    lemma_find_from_bounds(s@, lv@, search as int);
                                    lemma_any_from_skip(sv, s@, nx, lv@, search as int, (s@.len() + 1) as int);
                                    assert(!glob_any_from(sv, s@, nx, (s@.len() + 1) as int));
                                }
                                return false;
                            },
                            Some(abs) => {
                                proof {
                                    lemma_find_from_bounds(s@, lv@, search as int);
                                    lemma_any_from_skip(sv, s@, nx, lv@, search as int, abs as int);
                                }
                                if glob_match_rec(segments, s, seg_idx + 1, abs) {
                                    assert(glob_any_from(sv, s@, nx, abs as int));
                                    return true;
                                }
                                search = abs + 1;
                            },
                        }
                    }
                    proof {
                        lemma_any_from_skip(sv, s@, nx, lv@, search as int, (s@.len() + 1) as int);
                        assert(!glob_any_from(sv, s@, nx, (s@.len() + 1) as int));
                    }
                    false
                },
                GlobSegment::Wildcard => {
                    let ghost nx = (seg_idx + 1) as nat;
                    let mut i = str_idx;
                    while i < s.len()
                        invariant
                            str_idx <= i <= s.len(),
                            sv == segs_view(segments@),
                            literals_nonempty(sv),
                            nx == seg_idx + 1,
                            seg_idx <= 1024,
                            sv[seg_idx as int] == SegView::Wildcard,
                            seg_idx + 1 < segments.len(),
                            glob_any_from(sv, s@, nx, str_idx as int) == glob_any_from(sv, s@, nx, i as int),
                        decreases s.len() - i,
                    {
                        if glob_match_rec(segments, s, seg_idx + 1, i) {
                            assert(glob_any_from(sv, s@, nx, i as int));
                            return true;
                        }
                        i += 1;
                    }
                    let last = glob_match_rec(segments, s, seg_idx + 1, i);
                    assert(!glob_any_from(sv, s@, nx, i + 1));
                    last
                },
            }
        },
    }
}

/// Match a glob pattern against a string.
pub fn glob_match(segments: &Vec<GlobSegment>, s: &str) -> (r: bool)
    requires
        literals_nonempty(segs_view(segments@)),
    ensures
        r == glob_at(segs_view(segments@), s@, 0, 0),
{
    let sv = chars_of(s);
    glob_match_rec(segments, &sv, 0, 0)
}

impl FilterPattern {
    /// Parse a string pattern into a filter pattern.
    pub fn parse(pattern: &str) -> (r: FilterPattern)
        ensures
            r@ == parse_spec(pattern@),
    {
        let p = chars_of(pattern);
        if !contains_char(&p, '*') {
            return FilterPattern::Exact(string_of(&p));
        }
        let n = p.len();
        assert(n > 0);
        let tail = slice(&p, 1, n);
        assert(tail@ =~= p@.drop_first());
        if p[0] == '*' && !contains_char(&tail, '*') {
            return FilterPattern::Suffix(string_of(&tail));
        }
        let head = slice(&p, 0, n - 1);
        assert(head@ =~= p@.drop_last());
        if p[n - 1] == '*' && !contains_char(&head, '*') {
            return FilterPattern::Prefix(string_of(&head));
        }
        if p[0] == '*' && p[n - 1] == '*' && n >= 2 {
            let mid = slice(&p, 1, n - 1);
            if !contains_char(&mid, '*') {
                return FilterPattern::Contains(string_of(&mid));
            }
        }
        FilterPattern::Glob(parse_glob_segments(pattern))
    }

    /// Check if a test name matches this pattern.
    pub fn matches(&self, name: &str) -> (r: bool)
        requires
            pattern_wf(self@),
        ensures
            r == pattern_matches(self@, name@),
    {
        let nv = chars_of(name);
        match self {
            FilterPattern::Exact(s) => chars_eq(&nv, &chars_of_string(s)),
            FilterPattern::Prefix(p) => starts_with_v(&nv, &chars_of_string(p)),
            FilterPattern::Suffix(p) => ends_with_v(&nv, &chars_of_string(p)),
            FilterPattern::Contains(p) => contains_v(&nv, &chars_of_string(p)),
            FilterPattern::Glob(g) => glob_match(g, name),
        }
    }
}


// ---------------------------------------------------------------------------
// Filters
// ---------------------------------------------------------------------------

pub open spec fn all_wf(ps: Seq<PatternView>) -> bool {
    forall|i: int| 0 <= i < ps.len() ==> pattern_wf(#[trigger] ps[i])
}

/// Some pattern of `ps` matches `name`.
pub open spec fn any_matches(ps: Seq<PatternView>, name: Seq<char>) -> bool {
    exists|i: int| 0 <= i < ps.len() && pattern_matches(#[trigger] ps[i], name)
}

/// Whether a case of suite `suite` passes the filter: suite name contains
/// the suite filter, status among the allowed ones (if any), no exclude
/// pattern matches and, if there are include patterns, one matches.
pub open spec fn filter_matches(f: FilterView, t: CaseView, suite: Seq<char>) -> bool {
    &&& (f.suite matches Some(sf) ==> contains(suite, sf))
    &&& (f.status.len() > 0 ==> f.status.contains(t.status))
    &&& !any_matches(f.exclude, t.name)
    &&& (f.includes.len() > 0 ==> any_matches(f.includes, t.name))
}

pub open spec fn filter_active(f: FilterView) -> bool {
    f.includes.len() > 0 || f.exclude.len() > 0 || f.status.len() > 0 || f.suite is Some
}

/// Patterns of a comma-separated list: pieces trimmed, empty ones dropped.
pub open spec fn csv_patterns(pieces: Seq<Seq<char>>) -> Seq<PatternView>
    decreases pieces.len(),
{
    if pieces.len() == 0 {
        seq![]
    } else {
        let t = trim(pieces.last());
        csv_patterns(pieces.drop_last()) + if t.len() > 0 { seq![parse_spec(t)] } else { seq![] }
    }
}

/// Cases of `tests` that pass the filter, in order.
pub open spec fn kept_cases(f: FilterView, tests: Seq<CaseView>, suite: Seq<char>) -> Seq<CaseView>
    decreases tests.len(),
{
    if tests.len() == 0 {
        seq![]
    } else if filter_matches(f, tests.last(), suite) {
        kept_cases(f, tests.drop_last(), suite).push(tests.last())
    } else {
        kept_cases(f, tests.drop_last(), suite)
    }
}

/// Suites after filtering: suites outside the suite filter and suites left
/// without cases are dropped.
pub open spec fn kept_suites(f: FilterView, suites: Seq<SuiteView>) -> Seq<SuiteView>
    decreases suites.len(),
{
    if suites.len() == 0 {
        seq![]
    } else {
        let rest = kept_suites(f, suites.drop_last());
        let s = suites.last();
        let kept = kept_cases(f, s.tests, s.name);
        if (f.suite matches Some(sf) && !contains(s.name, sf)) || kept.len() == 0 {
            rest
        } else {
            rest.push(SuiteView { name: s.name, tests: kept })
        }
    }
}

/// The result of applying a filter to a run.
pub open spec fn apply_spec(f: FilterView, r: crate::adapters::RunView) -> crate::adapters::RunView {
    if !filter_active(f) {
        r
    } else {
        crate::adapters::RunView { suites: kept_suites(f, r.suites), duration: r.duration, raw_exit_code: r.raw_exit_code }
    }
}

proof fn lemma_kept_cases_match(f: FilterView, tests: Seq<CaseView>, suite: Seq<char>)
    ensures
        forall|j: int| 0 <= j < kept_cases(f, tests, suite).len() ==> filter_matches(f, #[trigger] kept_cases(f, tests, suite)[j], suite),
    decreases tests.len(),
{
    if tests.len() > 0 {
        lemma_kept_cases_match(f, tests.drop_last(), suite);
        let prev = kept_cases(f, tests.drop_last(), suite);
        let k = kept_cases(f, tests, suite);
        assert forall|j: int| 0 <= j < k.len() implies filter_matches(f, #[trigger] k[j], suite) by {
            if j < prev.len() {
                assert(k[j] == prev[j]);
            }
        }
    }
}

proof fn lemma_kept_cases_fixed(f: FilterView, tests: Seq<CaseView>, suite: Seq<char>)
    requires
        forall|j: int| 0 <= j < tests.len() ==> filter_matches(f, #[trigger] tests[j], suite),
    ensures
        kept_cases(f, tests, suite) == tests,
    decreases tests.len(),
{
    if tests.len() > 0 {
        let t = tests.drop_last();
        assert forall|j: int| 0 <= j < t.len() implies filter_matches(f, #[trigger] t[j], suite) by {
            assert(t[j] == tests[j]);
        }
        lemma_kept_cases_fixed(f, t, suite);
        assert(filter_matches(f, tests[tests.len() - 1], suite));
        assert(t.push(tests.last()) =~= tests);
    }
}

/// A suite kept by the filter: it passes the suite filter and has cases,
/// all of which pass the filter.
pub open spec fn suite_kept_shape(f: FilterView, s: SuiteView) -> bool {
    &&& (f.suite matches Some(sf) ==> contains(s.name, sf))
    &&& s.tests.len() > 0
    &&& forall|j: int| 0 <= j < s.tests.len() ==> filter_matches(f, #[trigger] s.tests[j], s.name)
}

proof fn lemma_kept_suites_shape(f: FilterView, suites: Seq<SuiteView>)
    ensures
        forall|i: int| 0 <= i < kept_suites(f, suites).len() ==> suite_kept_shape(f, #[trigger] kept_suites(f, suites)[i]),
    decreases suites.len(),
{
    if suites.len() > 0 {
        lemma_kept_suites_shape(f, suites.drop_last());
        let s = suites.last();
        lemma_kept_cases_match(f, s.tests, s.name);
        let prev = kept_suites(f, suites.drop_last());
        let k = kept_suites(f, suites);
        assert forall|i: int| 0 <= i < k.len() implies suite_kept_shape(f, #[trigger] k[i]) by {
            if i < prev.len() {
                assert(k[i] == prev[i]);
            }
        }
    }
}

proof fn lemma_kept_suites_fixed(f: FilterView, suites: Seq<SuiteView>)
    requires
        forall|i: int| 0 <= i < suites.len() ==> suite_kept_shape(f, #[trigger] suites[i]),
    ensures
        kept_suites(f, suites) == suites,
    decreases suites.len(),
{
    if suites.len() > 0 {
        let rest = suites.drop_last();
        assert forall|i: int| 0 <= i < rest.len() implies suite_kept_shape(f, #[trigger] rest[i]) by {
            assert(rest[i] == suites[i]);
        }
        lemma_kept_suites_fixed(f, rest);
        let s = suites.last();
        assert(suite_kept_shape(f, suites[suites.len() - 1]));
        lemma_kept_cases_fixed(f, s.tests, s.name);
        assert(rest.push(SuiteView { name: s.name, tests: s.tests }) =~= suites);
    }
}

/// Filtering twice gives what filtering once gives.
pub proof fn law_filter_idempotent(f: FilterView, r: crate::adapters::RunView)
    ensures
        apply_spec(f, apply_spec(f, r)) == apply_spec(f, r),
{
    if filter_active(f) {
        lemma_kept_suites_shape(f, r.suites);
        lemma_kept_suites_fixed(f, kept_suites(f, r.suites));
    }
}

/// Every case left by a filter passes it.
pub proof fn law_filter_keeps_only_matches(f: FilterView, r: crate::adapters::RunView)
    requires
        filter_active(f),
    ensures
        forall|i: int, j: int|
            0 <= i < apply_spec(f, r).suites.len() && 0 <= j < apply_spec(f, r).suites[i].tests.len()
                ==> filter_matches(f, apply_spec(f, r).suites[i].tests[j], apply_spec(f, r).suites[i].name),
{
    lemma_kept_suites_shape(f, r.suites);
    let out = apply_spec(f, r).suites;
    assert forall|i: int, j: int| 0 <= i < out.len() && 0 <= j < out[i].tests.len()
        implies filter_matches(f, out[i].tests[j], out[i].name) by {
        assert(suite_kept_shape(f, out[i]));
    }
}

/// The filter `include_pattern(p)` makes of `f`.
pub open spec fn with_include(f: FilterView, p: Seq<char>) -> FilterView {
    FilterView { includes: f.includes.push(parse_spec(p)), ..f }
}

/// The filter made by calling `include_pattern` on `f` with each piece of
/// `pieces`, trimmed, in order, skipping the empty ones.
pub open spec fn include_each(f: FilterView, pieces: Seq<Seq<char>>) -> FilterView
    decreases pieces.len(),
{
    if pieces.len() == 0 {
        f
    } else {
        let g = include_each(f, pieces.drop_last());
        let t = trim(pieces.last());
        if t.len() > 0 { with_include(g, t) } else { g }
    }
}

/// Adding a comma-separated list of include patterns is adding each
/// trimmed, non-empty piece with `include_pattern`, in order.
pub proof fn law_include_csv_is_repeated_include(f: FilterView, pieces: Seq<Seq<char>>)
    ensures
        include_each(f, pieces) == (FilterView { includes: f.includes + csv_patterns(pieces), ..f }),
    decreases pieces.len(),
{
    if pieces.len() > 0 {
        law_include_csv_is_repeated_include(f, pieces.drop_last());
        let t = trim(pieces.last());
        let prev = csv_patterns(pieces.drop_last());
        if t.len() > 0 {
            assert(f.includes + csv_patterns(pieces) =~= (f.includes + prev).push(parse_spec(t)));
        } else {
            assert(f.includes + csv_patterns(pieces) =~= f.includes + prev);
        }
    }
}

/// A filter without constraints is inactive; adding an include or exclude
/// pattern, a status or a suite name makes any filter active.
pub proof fn law_builders_activate(f: FilterView, p: Seq<char>, st: TestStatus, name: Seq<char>)
    ensures
        f.includes.len() == 0 && f.exclude.len() == 0 && f.status.len() == 0 && f.suite is None
            ==> !filter_active(f),
        filter_active(with_include(f, p)),
        filter_active(FilterView { exclude: f.exclude.push(parse_spec(p)), ..f }),
        filter_active(FilterView { status: f.status.push(st), ..f }),
        filter_active(FilterView { suite: Some(name), ..f }),
{
}

/// A call of one of the filter's builder methods, with its argument.
pub enum BuilderCall {
    Include(Seq<char>),
    Exclude(Seq<char>),
    IncludeCsv(Seq<char>),
    ExcludeCsv(Seq<char>),
    Status(TestStatus),
    Suite(Seq<char>),
}

/// The filter a builder call makes of `f` (what the method's contract
/// states).
pub open spec fn apply_call(f: FilterView, c: BuilderCall) -> FilterView {
    match c {
        BuilderCall::Include(p) => with_include(f, p),
        BuilderCall::Exclude(p) => FilterView { exclude: f.exclude.push(parse_spec(p)), ..f },
        BuilderCall::IncludeCsv(l) => FilterView { includes: f.includes + csv_patterns(split_char(l, ',')), ..f },
        BuilderCall::ExcludeCsv(l) => FilterView { exclude: f.exclude + csv_patterns(split_char(l, ',')), ..f },
        BuilderCall::Status(st) => FilterView { status: f.status.push(st), ..f },
        BuilderCall::Suite(n) => FilterView { suite: Some(n), ..f },
    }
}

/// The filter made by a sequence of builder calls on `f`, in order.
pub open spec fn apply_calls(f: FilterView, cs: Seq<BuilderCall>) -> FilterView
    decreases cs.len(),
{
    if cs.len() == 0 { f } else { apply_call(apply_calls(f, cs.drop_last()), cs.last()) }
}

/// A builder call that adds a constraint: any call but a comma list
/// without a non-blank piece.
pub open spec fn adds_constraint(c: BuilderCall) -> bool {
    match c {
        BuilderCall::IncludeCsv(l) => csv_patterns(split_char(l, ',')).len() > 0,
        BuilderCall::ExcludeCsv(l) => csv_patterns(split_char(l, ',')).len() > 0,
        _ => true,
    }
}

/// The filter `TestFilter::new` makes.
pub open spec fn empty_filter() -> FilterView {
    FilterView { includes: seq![], exclude: seq![], status: seq![], suite: None }
}

proof fn lemma_apply_calls_active(f: FilterView, cs: Seq<BuilderCall>)
    ensures
        filter_active(apply_calls(f, cs))
            == (filter_active(f) || exists|i: int| 0 <= i < cs.len() && adds_constraint(#[trigger] cs[i])),
    decreases cs.len(),
{
    if cs.len() > 0 {
        let d = cs.drop_last();
        lemma_apply_calls_active(f, d);
        if exists|i: int| 0 <= i < d.len() && adds_constraint(#[trigger] d[i]) {
            let i = choose|i: int| 0 <= i < d.len() && adds_constraint(#[trigger] d[i]);
            assert(cs[i] == d[i]);
        }
        if exists|i: int| 0 <= i < cs.len() && adds_constraint(#[trigger] cs[i]) {
            let i = choose|i: int| 0 <= i < cs.len() && adds_constraint(#[trigger] cs[i]);
            if i < d.len() {
                assert(d[i] == cs[i]);
            }
        }
    }
}

/// A filter built from `TestFilter::new` by any sequence of builder calls
/// is active exactly when some call added a constraint: an include,
/// exclude, status or suite, or a comma list with a non-blank piece.
pub proof fn law_active_after_builders(cs: Seq<BuilderCall>)
    ensures
        filter_active(apply_calls(empty_filter(), cs))
            == exists|i: int| 0 <= i < cs.len() && adds_constraint(#[trigger] cs[i]),
{
    lemma_apply_calls_active(empty_filter(), cs);
}

proof fn lemma_kept_cases_len(f: FilterView, tests: Seq<CaseView>, suite: Seq<char>)
    ensures
        kept_cases(f, tests, suite).len() <= tests.len(),
    decreases tests.len(),
{
    if tests.len() > 0 {
        lemma_kept_cases_len(f, tests.drop_last(), suite);
    }
}

proof fn lemma_kept_suites_counts(f: FilterView, suites: Seq<SuiteView>)
    ensures
        kept_suites(f, suites).len() <= suites.len(),
        total_cases(kept_suites(f, suites)) <= total_cases(suites),
    decreases suites.len(),
{
    if suites.len() > 0 {
        lemma_kept_suites_counts(f, suites.drop_last());
        let s = suites.last();
        lemma_kept_cases_len(f, s.tests, s.name);
        let rest = kept_suites(f, suites.drop_last());
        let k = kept_suites(f, suites);
        if k.len() > rest.len() {
            assert(k.drop_last() =~= rest);
        }
    }
}

/// Filtering never adds suites or cases.
pub proof fn law_filter_never_adds(f: FilterView, r: crate::adapters::RunView)
    ensures
        apply_spec(f, r).suites.len() <= r.suites.len(),
        total_cases(apply_spec(f, r).suites) <= total_cases(r.suites),
{
    lemma_kept_suites_counts(f, r.suites);
}

proof fn lemma_names_in_count(tests: Seq<CaseView>, suite: Seq<char>)
    ensures
        names_in(tests, suite, |t: CaseView, s: Seq<char>| is_failed(t, s)).len()
            == count_status(tests, TestStatus::Failed),
    decreases tests.len(),
{
    if tests.len() > 0 {
        lemma_names_in_count(tests.drop_last(), suite);
    }
}

/// There are as many failed test names as failed cases in the run.
pub proof fn law_failed_names_count(suites: Seq<SuiteView>)
    ensures
        names_where(suites, |t: CaseView, s: Seq<char>| is_failed(t, s)).len()
            == total_status(suites, TestStatus::Failed),
    decreases suites.len(),
{
    if suites.len() > 0 {
        law_failed_names_count(suites.drop_last());
        lemma_names_in_count(suites.last().tests, suites.last().name);
    }
}

/// Any case at all.
pub open spec fn any_case(t: CaseView, suite: Seq<char>) -> bool {
    true
}

proof fn lemma_names_in_kept(f: FilterView, tests: Seq<CaseView>, suite: Seq<char>)
    ensures
        names_in(tests, suite, |t: CaseView, s: Seq<char>| filter_matches(f, t, s))
            == names_in(kept_cases(f, tests, suite), suite, |t: CaseView, s: Seq<char>| any_case(t, s)),
    decreases tests.len(),
{
    if tests.len() > 0 {
        lemma_names_in_kept(f, tests.drop_last(), suite);
        let k = kept_cases(f, tests, suite);
        if filter_matches(f, tests.last(), suite) {
            assert(k.drop_last() =~= kept_cases(f, tests.drop_last(), suite));
        }
    }
}

proof fn lemma_names_in_none(f: FilterView, tests: Seq<CaseView>, suite: Seq<char>)
    requires
        f.suite matches Some(sf) && !contains(suite, sf),
    ensures
        names_in(tests, suite, |t: CaseView, s: Seq<char>| filter_matches(f, t, s)) =~= seq![],
    decreases tests.len(),
{
    if tests.len() > 0 {
        lemma_names_in_none(f, tests.drop_last(), suite);
    }
}

proof fn lemma_names_where_kept(f: FilterView, suites: Seq<SuiteView>)
    ensures
        names_where(suites, |t: CaseView, s: Seq<char>| filter_matches(f, t, s))
            == names_where(kept_suites(f, suites), |t: CaseView, s: Seq<char>| any_case(t, s)),
    decreases suites.len(),
{
    if suites.len() > 0 {
        lemma_names_where_kept(f, suites.drop_last());
        let s = suites.last();
        lemma_names_in_kept(f, s.tests, s.name);
        let kept = kept_cases(f, s.tests, s.name);
        let rest = kept_suites(f, suites.drop_last());
        if f.suite matches Some(sf) && !contains(s.name, sf) {
            lemma_names_in_none(f, s.tests, s.name);
        } else if kept.len() == 0 {
            assert(names_in(kept, s.name, |t: CaseView, s: Seq<char>| any_case(t, s)) =~= seq![]);
        } else {
            let k = kept_suites(f, suites);
            assert(k.drop_last() =~= rest);
        }
    }
}

proof fn lemma_names_in_all(f: FilterView, tests: Seq<CaseView>, suite: Seq<char>)
    requires
        !filter_active(f),
    ensures
        names_in(tests, suite, |t: CaseView, s: Seq<char>| filter_matches(f, t, s))
            == names_in(tests, suite, |t: CaseView, s: Seq<char>| any_case(t, s)),
    decreases tests.len(),
{
    if tests.len() > 0 {
        lemma_names_in_all(f, tests.drop_last(), suite);
    }
}

proof fn lemma_names_where_all(f: FilterView, suites: Seq<SuiteView>)
    requires
        !filter_active(f),
    ensures
        names_where(suites, |t: CaseView, s: Seq<char>| filter_matches(f, t, s))
            == names_where(suites, |t: CaseView, s: Seq<char>| any_case(t, s)),
    decreases suites.len(),
{
    if suites.len() > 0 {
        lemma_names_where_all(f, suites.drop_last());
        lemma_names_in_all(f, suites.last().tests, suites.last().name);
    }
}

/// The names of the cases that pass a filter are the names of all cases
/// left after applying it, in the same order.
pub proof fn law_matching_names_are_applied_names(f: FilterView, r: crate::adapters::RunView)
    ensures
        names_where(r.suites, |t: CaseView, s: Seq<char>| filter_matches(f, t, s))
            == names_where(apply_spec(f, r).suites, |t: CaseView, s: Seq<char>| any_case(t, s)),
{
    if filter_active(f) {
        lemma_names_where_kept(f, r.suites);
    } else {
        lemma_names_where_all(f, r.suites);
    }
}

impl TestFilter {
    #[verifier::type_invariant]
    spec fn inv(self) -> bool {
        all_wf(patterns_view(self.includes@)) && all_wf(patterns_view(self.exclude@))
    }

    /// A filter with no constraints (matches everything).
    pub fn new() -> (f: Self)
        ensures
            f@.includes.len() == 0,
            f@.exclude.len() == 0,
            f@.status.len() == 0,
            f@.suite is None,
    {
        let f = TestFilter { includes: Vec::new(), exclude: Vec::new(), status_filter: Vec::new(), suite_filter: None };
        assert(patterns_view(f.includes@) =~= seq![]);
        assert(patterns_view(f.exclude@) =~= seq![]);
        f
    }

    /// Add an include pattern.
    pub fn include_pattern(self, pattern: &str) -> (f: Self)
        ensures
            f@ == (FilterView { includes: self@.includes.push(parse_spec(pattern@)), ..self@ }),
    {
        proof { use_type_invariant(&self); }
        let p = FilterPattern::parse(pattern);
        proof { lemma_parse_wf(pattern@); }
        let TestFilter { includes, exclude, status_filter, suite_filter } = self;
        let mut includes = includes;
        let ghost before = includes@;
        includes.push(p);
        assert(patterns_view(includes@) =~= patterns_view(before).push(p@));
        TestFilter { includes, exclude, status_filter, suite_filter }
    }

    /// Add an exclude pattern.
    pub fn exclude(self, pattern: &str) -> (f: Self)
        ensures
            f@ == (FilterView { exclude: self@.exclude.push(parse_spec(pattern@)), ..self@ }),
    {
        proof { use_type_invariant(&self); }
        let p = FilterPattern::parse(pattern);
        proof { lemma_parse_wf(pattern@); }
        let TestFilter { includes, exclude, status_filter, suite_filter } = self;
        let mut exclude = exclude;
        let ghost before = exclude@;
        exclude.push(p);
        assert(patterns_view(exclude@) =~= patterns_view(before).push(p@));
        TestFilter { includes, exclude, status_filter, suite_filter }
    }

    /// Add include patterns from a comma-separated list.
    pub fn include_csv(self, patterns: &str) -> (f: Self)
        ensures
            f@ == (FilterView { includes: self@.includes + csv_patterns(split_char(patterns@, ',')), ..self@ }),
    {
        proof { use_type_invariant(&self); }
        let TestFilter { includes, exclude, status_filter, suite_filter } = self;
        let includes = push_csv(includes, patterns);
        TestFilter { includes, exclude, status_filter, suite_filter }
    }

    /// Add exclude patterns from a comma-separated list.
    pub fn exclude_csv(self, patterns: &str) -> (f: Self)
        ensures
            f@ == (FilterView { exclude: self@.exclude + csv_patterns(split_char(patterns@, ',')), ..self@ }),
    {
        proof { use_type_invariant(&self); }
        let TestFilter { includes, exclude, status_filter, suite_filter } = self;
        let exclude = push_csv(exclude, patterns);
        TestFilter { includes, exclude, status_filter, suite_filter }
    }

    /// Only show tests with the given status.
    pub fn status(self, status: TestStatus) -> (f: Self)
        ensures
            f@ == (FilterView { status: self@.status.push(status), ..self@ }),
    {
        proof { use_type_invariant(&self); }
        let TestFilter { includes, exclude, status_filter, suite_filter } = self;
        let mut status_filter = status_filter;
        status_filter.push(status);
        TestFilter { includes, exclude, status_filter, suite_filter }
    }

    /// Only show tests from suites whose name contains `name`.
    pub fn suite(self, name: &str) -> (f: Self)
        ensures
            f@ == (FilterView { suite: Some(name@), ..self@ }),
    {
        proof { use_type_invariant(&self); }
        let TestFilter { includes, exclude, status_filter, suite_filter } = self;
        TestFilter { includes, exclude, status_filter, suite_filter: Some(string_of(&chars_of(name))) }
    }

    /// Whether this filter has any constraint.
    pub fn is_active(&self) -> (b: bool)
        ensures
            b == filter_active(self@),
    {
        self.includes.len() > 0 || self.exclude.len() > 0 || self.status_filter.len() > 0
            || self.suite_filter.is_some()
    }

    /// Whether a test case of suite `suite_name` passes this filter.
    pub fn matches(&self, test: &TestCase, suite_name: &str) -> (b: bool)
        ensures
            b == filter_matches(self@, test@, suite_name@),
    {
        proof { use_type_invariant(self); }
        if let Some(sf) = &self.suite_filter {
            if !contains_v(&chars_of(suite_name), &chars_of_string(sf)) {
                return false;
            }
        }
        if self.status_filter.len() > 0 {
            let mut found = false;
            let mut i: usize = 0;
            while i < self.status_filter.len()
                invariant
                    i <= self.status_filter.len(),
                    found == (exists|k: int| 0 <= k < i && self.status_filter@[k] == test.status),
                decreases self.status_filter.len() - i,
            {
                if self.status_filter[i] == test.status {
                    found = true;
                }
                i += 1;
            }
            if !found {
                assert(!self@.status.contains(test.status));
                return false;
            }
            assert(self@.status.contains(test.status));
        }
        if any_pattern_matches(&self.exclude, test.name.as_str()) {
            return false;
        }
        if self.includes.len() > 0 && !any_pattern_matches(&self.includes, test.name.as_str()) {
            return false;
        }
        true
    }

    /// Apply this filter to a run, returning a filtered copy.
    pub fn apply(&self, result: &TestRunResult) -> (r: TestRunResult)
        ensures
            r@ == apply_spec(self@, result@),
    {
        if !self.is_active() {
            return result.clone();
        }
        let ghost rs = suites_view(result.suites@);
        let mut suites: Vec<TestSuite> = Vec::new();
        let mut i: usize = 0;
        while i < result.suites.len()
            invariant
                i <= result.suites.len(),
                rs == suites_view(result.suites@),
                suites_view(suites@) == kept_suites(self@, rs.take(i as int)),
            decreases result.suites.len() - i,
        {
            let suite = &result.suites[i];
            assert(rs.take(i + 1).drop_last() =~= rs.take(i as int));
            assert(rs.take(i + 1).last() == suite@);
            let in_suite = match &self.suite_filter {
                Some(sf) => contains_v(&chars_of_string(&suite.name), &chars_of_string(sf)),
                None => true,
            };
            let tests = self.kept(&suite.tests, &suite.name);
            if in_suite && tests.len() > 0 {
                let ghost before = suites@;
                let ns = TestSuite { name: suite.name.clone(), tests };
                suites.push(ns);
                assert(suites_view(suites@) =~= suites_view(before).push(ns@));
            }
            i += 1;
        }
        assert(rs.take(result.suites.len() as int) =~= rs);
        TestRunResult { suites, duration: result.duration, raw_exit_code: result.raw_exit_code }
    }

    /// Copies of the cases of a suite that pass the filter.
    fn kept(&self, tests: &Vec<TestCase>, suite_name: &String) -> (r: Vec<TestCase>)
        ensures
            cases_view(r@) == kept_cases(self@, cases_view(tests@), suite_name@),
    {
        let ghost cv = cases_view(tests@);
        let mut r: Vec<TestCase> = Vec::new();
        let mut i: usize = 0;
        while i < tests.len()
            invariant
                i <= tests.len(),
                cv == cases_view(tests@),
                cases_view(r@) == kept_cases(self@, cv.take(i as int), suite_name@),
            decreases tests.len() - i,
        {
            assert(cv.take(i + 1).drop_last() =~= cv.take(i as int));
            assert(cv.take(i + 1).last() == tests@[i as int]@);
            if self.matches(&tests[i], suite_name.as_str()) {
                let c = tests[i].clone();
                let ghost before = r@;
                r.push(c);
                assert(cases_view(r@) =~= cases_view(before).push(c@));
            }
            i += 1;
        }
        assert(cv.take(tests.len() as int) =~= cv);
        r
    }
}

/// Whether some pattern in `ps` matches `name`.
fn any_pattern_matches(ps: &Vec<FilterPattern>, name: &str) -> (b: bool)
    requires
        all_wf(patterns_view(ps@)),
    ensures
        b == any_matches(patterns_view(ps@), name@),
{
    let ghost pv = patterns_view(ps@);
    let mut i: usize = 0;
    while i < ps.len()
        invariant
            i <= ps.len(),
            pv == patterns_view(ps@),
            all_wf(pv),
            forall|k: int| 0 <= k < i ==> !pattern_matches(#[trigger] pv[k], name@),
        decreases ps.len() - i,
    {
        assert(pv[i as int] == ps@[i as int]@);
        assert(pattern_wf(pv[i as int]));
        if ps[i].matches(name) {
            return true;
        }
        i += 1;
    }
    false
}

/// `ps` followed by the patterns of a comma-separated list.
fn push_csv(ps: Vec<FilterPattern>, patterns: &str) -> (r: Vec<FilterPattern>)
    requires
        all_wf(patterns_view(ps@)),
    ensures
        patterns_view(r@) == patterns_view(ps@) + csv_patterns(split_char(patterns@, ',')),
        all_wf(patterns_view(r@)),
{
    let pieces = split_char_v(&chars_of(patterns), ',');
    let ghost pv = pieces@.map_values(|p: Vec<char>| p@);
    let mut r = ps;
    let ghost base = patterns_view(r@);
    let mut i: usize = 0;
    while i < pieces.len()
        invariant
            i <= pieces.len(),
            pv == pieces@.map_values(|p: Vec<char>| p@),
            pv == split_char(patterns@, ','),
            patterns_view(r@) == base + csv_patterns(pv.take(i as int)),
            all_wf(patterns_view(r@)),
        decreases pieces.len() - i,
    {
        assert(pv.take(i + 1).drop_last() =~= pv.take(i as int));
        assert(pv.take(i + 1).last() == pieces@[i as int]@);
        let t = trim_v(&pieces[i]);
        let ghost before = patterns_view(r@);
        if t.len() > 0 {
            let ts = string_of(&t);
            let p = FilterPattern::parse(ts.as_str());
            proof { lemma_parse_wf(t@); }
            r.push(p);
            assert(patterns_view(r@) =~= before.push(p@));
            assert(before + seq![parse_spec(t@)] =~= before.push(p@));
        } else {
            assert(before + seq![] =~= before);
        }
        assert(patterns_view(r@) =~= base + csv_patterns(pv.take(i + 1)));
        i += 1;
    }
    assert(pv.take(pieces.len() as int) =~= pv);
    r
}

/// Build a filter from an include list, an exclude list and a failed-only
/// flag.
pub fn build_filter(include_list: Option<&str>, exclude_list: Option<&str>, failed_only: bool) -> (f: TestFilter)
    ensures
        f@.includes == match include_list { Some(s) => csv_patterns(split_char(s@, ',')), None => seq![] },
        f@.exclude == match exclude_list { Some(s) => csv_patterns(split_char(s@, ',')), None => seq![] },
        f@.status == if failed_only { seq![TestStatus::Failed] } else { seq![] },
        f@.suite is None,
{
    let mut filter = TestFilter::new();
    if let Some(inc) = include_list {
        filter = filter.include_csv(inc);
    }
    if let Some(exc) = exclude_list {
        filter = filter.exclude_csv(exc);
    }
    if failed_only {
        filter = filter.status(TestStatus::Failed);
    }
    filter
}

/// Counts before and after filtering.
pub struct FilterSummary {
    /// Total tests before filtering.
    pub total_before: usize,
    /// Total tests after filtering.
    pub total_after: usize,
    /// Number of tests removed.
    pub filtered_out: usize,
    /// Number of suites removed entirely.
    pub suites_removed: usize,
}

/// Apply a filter and compute summary statistics.
pub fn filter_with_summary(filter: &TestFilter, result: &TestRunResult) -> (r: (TestRunResult, FilterSummary))
    ensures
        r.0@ == apply_spec(filter@, result@),
        r.1.total_before == min_nat(total_cases(result@.suites), usize::MAX as nat),
        r.1.total_after == min_nat(total_cases(r.0@.suites), usize::MAX as nat),
        r.1.filtered_out == crate::adapters::util::sat_sub(r.1.total_before as nat, r.1.total_after as nat),
        r.1.suites_removed == crate::adapters::util::sat_sub(result@.suites.len(), r.0@.suites.len()),
{
    let total_before = result.total_tests();
    let suites_before = result.suites.len();
    let filtered = filter.apply(result);
    let total_after = filtered.total_tests();
    let suites_after = filtered.suites.len();
    let summary = FilterSummary {
        total_before,
        total_after,
        filtered_out: total_before.saturating_sub(total_after),
        suites_removed: suites_before.saturating_sub(suites_after),
    };
    (filtered, summary)
}

/// Names of the cases of `suites` satisfying `pred`, suite by suite.
pub open spec fn names_where(suites: Seq<SuiteView>, pred: spec_fn(CaseView, Seq<char>) -> bool) -> Seq<Seq<char>>
    decreases suites.len(),
{
    if suites.len() == 0 {
        seq![]
    } else {
        names_where(suites.drop_last(), pred) + names_in(suites.last().tests, suites.last().name, pred)
    }
}

pub open spec fn names_in(tests: Seq<CaseView>, suite: Seq<char>, pred: spec_fn(CaseView, Seq<char>) -> bool) -> Seq<Seq<char>>
    decreases tests.len(),
{
    if tests.len() == 0 {
        seq![]
    } else {
        names_in(tests.drop_last(), suite, pred) + if pred(tests.last(), suite) { seq![tests.last().name] } else { seq![] }
    }
}

pub open spec fn is_failed(t: CaseView, suite: Seq<char>) -> bool {
    t.status == TestStatus::Failed
}

/// Names of the failed tests of a run, in order (for re-running).
pub fn failed_test_names(result: &TestRunResult) -> (r: Vec<String>)
    ensures
        r@.map_values(|s: String| s@) == names_where(result@.suites, |t: CaseView, s: Seq<char>| is_failed(t, s)),
{
    let ghost pred = |t: CaseView, s: Seq<char>| is_failed(t, s);
    let ghost rs = suites_view(result.suites@);
    let mut names: Vec<String> = Vec::new();
    let mut i: usize = 0;
    while i < result.suites.len()
        invariant
            i <= result.suites.len(),
            rs == suites_view(result.suites@),
            pred == (|t: CaseView, s: Seq<char>| is_failed(t, s)),
            names@.map_values(|s: String| s@) == names_where(rs.take(i as int), pred),
        decreases result.suites.len() - i,
    {
        let suite = &result.suites[i];
        assert(rs.take(i + 1).drop_last() =~= rs.take(i as int));
        assert(rs.take(i + 1).last() == suite@);
        let ghost base = names@.map_values(|s: String| s@);
        let ghost cv = suite@.tests;
        let mut j: usize = 0;
        while j < suite.tests.len()
            invariant
                j <= suite.tests.len(),
                cv == cases_view(suite.tests@),
                pred == (|t: CaseView, s: Seq<char>| is_failed(t, s)),
                names@.map_values(|s: String| s@) == base + names_in(cv.take(j as int), suite@.name, pred),
            decreases suite.tests.len() - j,
        {
            assert(cv.take(j + 1).drop_last() =~= cv.take(j as int));
            assert(cv.take(j + 1).last() == suite.tests@[j as int]@);
            let ghost before = names@.map_values(|s: String| s@);
            if suite.tests[j].status == TestStatus::Failed {
                let n = suite.tests[j].name.clone();
                names.push(n);
                assert(names@.map_values(|s: String| s@) =~= before.push(n@));
            }
            assert(names@.map_values(|s: String| s@) =~= base + names_in(cv.take(j + 1), suite@.name, pred));
            j += 1;
        }
        assert(cv.take(suite.tests.len() as int) =~= cv);
        i += 1;
    }
    assert(rs.take(result.suites.len() as int) =~= rs);
    names
}

/// Names of the tests of a run that pass a filter, in order.
pub fn matching_test_names(filter: &TestFilter, result: &TestRunResult) -> (r: Vec<String>)
    ensures
        r@.map_values(|s: String| s@) == names_where(result@.suites, |t: CaseView, s: Seq<char>| filter_matches(filter@, t, s)),
{
    let ghost pred = |t: CaseView, s: Seq<char>| filter_matches(filter@, t, s);
    let ghost rs = suites_view(result.suites@);
    let mut names: Vec<String> = Vec::new();
    let mut i: usize = 0;
    while i < result.suites.len()
        invariant
            i <= result.suites.len(),
            rs == suites_view(result.suites@),
            pred == (|t: CaseView, s: Seq<char>| filter_matches(filter@, t, s)),
            names@.map_values(|s: String| s@) == names_where(rs.take(i as int), pred),
        decreases result.suites.len() - i,
    {
        let suite = &result.suites[i];
        assert(rs.take(i + 1).drop_last() =~= rs.take(i as int));
        assert(rs.take(i + 1).last() == suite@);
        let ghost base = names@.map_values(|s: String| s@);
        let ghost cv = suite@.tests;
        let mut j: usize = 0;
        while j < suite.tests.len()
            invariant
                j <= suite.tests.len(),
                cv == cases_view(suite.tests@),
                pred == (|t: CaseView, s: Seq<char>| filter_matches(filter@, t, s)),
                names@.map_values(|s: String| s@) == base + names_in(cv.take(j as int), suite@.name, pred),
            decreases suite.tests.len() - j,
        {
            assert(cv.take(j + 1).drop_last() =~= cv.take(j as int));
            assert(cv.take(j + 1).last() == suite.tests@[j as int]@);
            let ghost before = names@.map_values(|s: String| s@);
            if filter.matches(&suite.tests[j], suite.name.as_str()) {
                let n = suite.tests[j].name.clone();
                names.push(n);
                assert(names@.map_values(|s: String| s@) =~= before.push(n@));
            }
            assert(names@.map_values(|s: String| s@) =~= base + names_in(cv.take(j + 1), suite@.name, pred));
            j += 1;
        }
        assert(cv.take(suite.tests.len() as int) =~= cv);
        i += 1;
    }
    assert(rs.take(result.suites.len() as int) =~= rs);
    names
}

} // verus!
