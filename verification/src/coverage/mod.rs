//! Coverage data: report formats, per-file coverage, the coverage tool of
//! each adapter, file selection patterns and uncovered line ranges.

use vstd::prelude::*;
use std::collections::HashMap;
use crate::adapters::php::{ascii_only, lowercase, to_lowercase};
use crate::adapters::zig::ascii_lower;
use crate::text::{
    chars_of, chars_of_string, ends_with, eq, find, find_from, find_from_v, find_v, occurs_at, slice, split_char,
    split_char_v, starts_with,
    string_of,
};

pub mod parsers;

verus! {

broadcast use vstd::std_specs::hash::group_hash_axioms;

/// Output format for coverage reports.
#[derive(Debug, Clone, Copy, PartialEq, Eq, Structural)]
pub enum CoverageFormat {
    /// Text summary only
    Summary,
    /// LCOV format
    Lcov,
    /// Cobertura XML
    Cobertura,
    /// HTML report
    Html,
    /// JSON data
    Json,
}

/// The format a lower-cased name selects.
pub open spec fn format_named(lower: Seq<char>) -> CoverageFormat {
    if lower == "lcov"@ {
        CoverageFormat::Lcov
    } else if lower == "cobertura"@ || lower == "xml"@ {
        CoverageFormat::Cobertura
    } else if lower == "html"@ {
        CoverageFormat::Html
    } else if lower == "json"@ {
        CoverageFormat::Json
    } else {
        CoverageFormat::Summary
    }
}

/// The format an already lower-cased name selects.
pub fn format_from_lower(lower: &str) -> (f: CoverageFormat)
    ensures
        f == format_named(lower@),
{
    let v = chars_of(lower);
    if eq(&v, &chars_of("lcov")) {
        CoverageFormat::Lcov
    } else if eq(&v, &chars_of("cobertura")) || eq(&v, &chars_of("xml")) {
        CoverageFormat::Cobertura
    } else if eq(&v, &chars_of("html")) {
        CoverageFormat::Html
    } else if eq(&v, &chars_of("json")) {
        CoverageFormat::Json
    } else {
        CoverageFormat::Summary
    }
}

/// The file extension of a format.
pub open spec fn format_extension(f: CoverageFormat) -> Seq<char> {
    match f {
        CoverageFormat::Summary => "txt"@,
        CoverageFormat::Lcov => "lcov"@,
        CoverageFormat::Cobertura => "xml"@,
        CoverageFormat::Html => "html"@,
        CoverageFormat::Json => "json"@,
    }
}

/// Reading a format name ignores ASCII case: two ASCII names that differ
/// only in the case of their letters select the same format.
pub proof fn law_format_ignores_ascii_case(s: Seq<char>, t: Seq<char>)
    requires
        ascii_only(s),
        ascii_only(t),
        ascii_lower(s) == ascii_lower(t),
    ensures
        format_named(ascii_lower(s)) == format_named(ascii_lower(t)),
{
}

/// A format's extension, read back as a name, selects the format again.
pub proof fn law_extension_names_format(f: CoverageFormat)
    ensures
        ascii_only(format_extension(f)),
        format_named(ascii_lower(format_extension(f))) == f,
{
    reveal_strlit("txt");
    reveal_strlit("lcov");
    reveal_strlit("xml");
    reveal_strlit("html");
    reveal_strlit("json");
    reveal_strlit("cobertura");
    let e = format_extension(f);
    assert(ascii_lower(e) =~= e);
    assert("txt"@[0] != "xml"@[0]);
    assert("txt"@ != "xml"@);
    assert("lcov"@.len() != "cobertura"@.len());
    assert("html"@[0] != "lcov"@[0]);
    assert("json"@[0] != "lcov"@[0] && "json"@[0] != "html"@[0]);
    assert("html"@ != "lcov"@ && "json"@ != "lcov"@ && "json"@ != "html"@);
}

impl CoverageFormat {
    /// Parse a format name, ignoring case; unknown names give `Summary`.
    pub fn from_str_lossy(s: &str) -> (f: CoverageFormat)
        ensures
            f == format_named(lowercase(s@)),
            ascii_only(s@) ==> f == format_named(ascii_lower(s@)),
    {
        let lower = to_lowercase(s);
        format_from_lower(lower.as_str())
    }

    /// File extension for this format.
    pub fn extension(&self) -> (r: &'static str)
        ensures
            r@ == format_extension(*self),
    {
        match self {
            CoverageFormat::Summary => "txt",
            CoverageFormat::Lcov => "lcov",
            CoverageFormat::Cobertura => "xml",
            CoverageFormat::Html => "html",
            CoverageFormat::Json => "json",
        }
    }
}

/// Coverage data for a single file.
#[derive(Debug, Clone)]
pub struct FileCoverage {
    /// Relative path to the file
    pub path: std::path::PathBuf,
    /// Total executable lines
    pub total_lines: usize,
    /// Number of lines with coverage
    pub covered_lines: usize,
    /// Uncovered line ranges: [(start, end), ...]
    pub uncovered_ranges: Vec<(usize, usize)>,
    /// Per-line hit counts: line_number -> hit_count
    pub line_hits: HashMap<usize, u64>,
    /// Total branches in the file
    pub total_branches: usize,
    /// Covered branches
    pub covered_branches: usize,
}

impl FileCoverage {
    /// Whether this file has full line coverage: every line of a file with
    /// lines is covered.
    pub fn is_fully_covered(&self) -> (b: bool)
        ensures
            b == (self.covered_lines == self.total_lines && self.total_lines > 0),
    {
        self.covered_lines == self.total_lines && self.total_lines > 0
    }
}

/// A file's path and coverage numbers, its line hits as a map.
pub struct FileCovView {
    pub path: std::path::PathBuf,
    pub total_lines: usize,
    pub covered_lines: usize,
    pub uncovered_ranges: Seq<(usize, usize)>,
    pub line_hits: Map<usize, u64>,
    pub total_branches: usize,
    pub covered_branches: usize,
}

/// What a file's coverage states.
pub open spec fn file_cov_view(f: FileCoverage) -> FileCovView {
    FileCovView {
        path: f.path,
        total_lines: f.total_lines,
        covered_lines: f.covered_lines,
        uncovered_ranges: f.uncovered_ranges@,
        line_hits: f.line_hits@,
        total_branches: f.total_branches,
        covered_branches: f.covered_branches,
    }
}

pub open spec fn files_cov_view(fs: Seq<FileCoverage>) -> Seq<FileCovView> {
    fs.map_values(|f: FileCoverage| file_cov_view(f))
}

/// Adapter-specific coverage configurations.
#[derive(Debug, Clone)]
pub struct AdapterCoverageConfig {
    /// Adapter name
    pub adapter: String,
    /// Coverage tool to use
    pub tool: String,
    /// Extra arguments for coverage collection
    pub extra_args: Vec<String>,
    /// Environment variables for coverage, as (name, value) pairs
    pub env: Vec<(String, String)>,
}

pub struct ToolView {
    pub adapter: Seq<char>,
    pub tool: Seq<char>,
    pub extra_args: Seq<Seq<char>>,
    pub env: Seq<(Seq<char>, Seq<char>)>,
}

impl View for AdapterCoverageConfig {
    type V = ToolView;

    open spec fn view(&self) -> ToolView {
        ToolView {
            adapter: self.adapter@,
            tool: self.tool@,
            extra_args: self.extra_args@.map_values(|a: String| a@),
            env: self.env@.map_values(|p: (String, String)| (p.0@, p.1@)),
        }
    }
}

pub open spec fn tool_view(adapter: Seq<char>, tool: Seq<char>, args: Seq<Seq<char>>) -> ToolView {
    ToolView { adapter: adapter, tool: tool, extra_args: args, env: seq![] }
}

/// The coverage tool of each known adapter.
pub open spec fn coverage_tool(adapter: Seq<char>) -> Option<ToolView> {
    if adapter == "rust"@ {
        Some(tool_view("rust"@, "cargo-llvm-cov"@, seq!["--lcov"@, "--output-path"@]))
    } else if adapter == "python"@ {
        Some(tool_view("python"@, "coverage"@, seq!["run"@, "-m"@, "pytest"@]))
    } else if adapter == "javascript"@ {
        Some(tool_view("javascript"@, "built-in"@, seq!["--coverage"@]))
    } else if adapter == "go"@ {
        Some(tool_view("go"@, "go-cover"@, seq!["-coverprofile=coverage.out"@]))
    } else if adapter == "java"@ {
        Some(tool_view("java"@, "jacoco"@, seq![]))
    } else if adapter == "cpp"@ {
        Some(tool_view("cpp"@, "gcov"@, seq!["--coverage"@]))
    } else if adapter == "ruby"@ {
        Some(ToolView { adapter: "ruby"@, tool: "simplecov"@, extra_args: seq![], env: seq![("COVERAGE"@, "true"@)] })
    } else if adapter == "elixir"@ {
        Some(tool_view("elixir"@, "mix-cover"@, seq!["--cover"@]))
    } else if adapter == "dotnet"@ {
        Some(tool_view("dotnet"@, "xplat-coverage"@, seq!["--collect:\"XPlat Code Coverage\""@]))
    } else {
        None
    }
}

fn owned(s: &str) -> (r: String)
    ensures
        r@ == s@,
{
    string_of(&chars_of(s))
}

fn make_tool(adapter: &str, tool_name: &str, args: Vec<String>) -> (c: AdapterCoverageConfig)
    ensures
        c@ == tool_view(adapter@, tool_name@, args@.map_values(|a: String| a@)),
{
    let env: Vec<(String, String)> = Vec::new();
    let c = AdapterCoverageConfig { adapter: owned(adapter), tool: owned(tool_name), extra_args: args, env };
    assert(c@.env =~= seq![]);
    c
}

fn one(a: &str) -> (r: Vec<String>)
    ensures
        r@.map_values(|x: String| x@) == seq![a@],
{
    let mut v: Vec<String> = Vec::new();
    v.push(owned(a));
    assert(v@.map_values(|x: String| x@) =~= seq![a@]);
    v
}

fn two(a: &str, b: &str) -> (r: Vec<String>)
    ensures
        r@.map_values(|x: String| x@) == seq![a@, b@],
{
    let mut v = one(a);
    let ghost before = v@.map_values(|x: String| x@);
    let s = owned(b);
    v.push(s);
    assert(v@.map_values(|x: String| x@) =~= before.push(s@));
    assert(v@.map_values(|x: String| x@) =~= seq![a@, b@]);
    v
}

fn three(a: &str, b: &str, c: &str) -> (r: Vec<String>)
    ensures
        r@.map_values(|x: String| x@) == seq![a@, b@, c@],
{
    let mut v = two(a, b);
    let ghost before = v@.map_values(|x: String| x@);
    let s = owned(c);
    v.push(s);
    assert(v@.map_values(|x: String| x@) =~= before.push(s@));
    assert(v@.map_values(|x: String| x@) =~= seq![a@, b@, c@]);
    v
}

/// The coverage tool and its settings for an adapter, if one is known.
pub fn default_coverage_tool(adapter: &str) -> (r: Option<AdapterCoverageConfig>)
    ensures
        match r {
            Some(c) => coverage_tool(adapter@) == Some(c@),
            None => coverage_tool(adapter@) is None,
        },
{
    let a = chars_of(adapter);
    if eq(&a, &chars_of("rust")) {
        let c = make_tool("rust", "cargo-llvm-cov", two("--lcov", "--output-path"));
        Some(c)
    } else if eq(&a, &chars_of("python")) {
        let c = make_tool("python", "coverage", three("run", "-m", "pytest"));
        Some(c)
    } else if eq(&a, &chars_of("javascript")) {
        let c = make_tool("javascript", "built-in", one("--coverage"));
        Some(c)
    } else if eq(&a, &chars_of("go")) {
        let c = make_tool("go", "go-cover", one("-coverprofile=coverage.out"));
        Some(c)
    } else if eq(&a, &chars_of("java")) {
        let none: Vec<String> = Vec::new();
        let c = make_tool("java", "jacoco", none);
        assert(c@.extra_args =~= seq![]);
        Some(c)
    } else if eq(&a, &chars_of("cpp")) {
        let c = make_tool("cpp", "gcov", one("--coverage"));
        Some(c)
    } else if eq(&a, &chars_of("ruby")) {
        let mut env: Vec<(String, String)> = Vec::new();
        env.push((owned("COVERAGE"), owned("true")));
        let c = AdapterCoverageConfig { adapter: owned("ruby"), tool: owned("simplecov"), extra_args: Vec::new(), env };
        assert(c@.extra_args =~= seq![]);
        assert(c@.env =~= seq![("COVERAGE"@, "true"@)]);
        Some(c)
    } else if eq(&a, &chars_of("elixir")) {
        let c = make_tool("elixir", "mix-cover", one("--cover"));
        Some(c)
    } else if eq(&a, &chars_of("dotnet")) {
        let c = make_tool("dotnet", "xplat-coverage", one("--collect:\"XPlat Code Coverage\""));
        Some(c)
    } else {
        None
    }
}

// ---------------------------------------------------------------------------
// Selection patterns
// ---------------------------------------------------------------------------

/// Whether the text from `pos` on matches `*` followed by the parts `ps`
/// joined by `*`: each `*` stands for any (possibly empty) text.
pub open spec fn tail_at(ps: Seq<Seq<char>>, t: Seq<char>, pos: int) -> bool
    decreases ps.len(),
{
    if ps.len() == 0 {
        false
    } else if ps.len() == 1 {
        0 <= pos && pos + ps[0].len() <= t.len() && ends_with(t, ps[0])
    } else {
        exists|k: int| pos <= k && #[trigger] occurs_at(t, ps[0], k) && tail_at(ps.drop_first(), t, k + ps[0].len())
    }
}

/// Glob matching: `*` stands for any (possibly empty) text; a pattern
/// without `*` must equal the text.
pub open spec fn glob(pattern: Seq<char>, text: Seq<char>) -> bool {
    let parts = split_char(pattern, '*');
    if parts.len() <= 1 {
        text == pattern
    } else {
        starts_with(text, parts[0]) && tail_at(parts.drop_first(), text, parts[0].len() as int)
    }
}

/// Matching further along only gets harder: what matches from `q` on
/// matches from any earlier `pos` too.
proof fn lemma_tail_at_earlier(ps: Seq<Seq<char>>, t: Seq<char>, pos: int, q: int)
    requires
        0 <= pos <= q,
        tail_at(ps, t, q),
    ensures
        tail_at(ps, t, pos),
{
    if ps.len() > 1 {
        let k = choose|k: int| q <= k && #[trigger] occurs_at(t, ps[0], k) && tail_at(ps.drop_first(), t, k + ps[0].len());
        assert(pos <= k && occurs_at(t, ps[0], k) && tail_at(ps.drop_first(), t, k + ps[0].len()));
    }
}

/// Taking the first occurrence of the next part loses no match.
proof fn lemma_tail_at_first(ps: Seq<Seq<char>>, t: Seq<char>, pos: int)
    requires
        ps.len() > 1,
        0 <= pos,
    ensures
        match find_from(t, ps[0], pos) {
            Some(f) => tail_at(ps, t, pos) == tail_at(ps.drop_first(), t, f + ps[0].len()),
            None => !tail_at(ps, t, pos),
        },
{
    crate::text::lemma_find_from_bounds(t, ps[0], pos);
    match find_from(t, ps[0], pos) {
        Some(f) => {
            if tail_at(ps, t, pos) {
                let k = choose|k: int| pos <= k && #[trigger] occurs_at(t, ps[0], k) && tail_at(ps.drop_first(), t, k + ps[0].len());
                assert(f <= k);
                lemma_tail_at_earlier(ps.drop_first(), t, f + ps[0].len(), k + ps[0].len());
            }
            if tail_at(ps.drop_first(), t, f + ps[0].len()) {
                assert(occurs_at(t, ps[0], f));
            }
        },
        None => {
            if tail_at(ps, t, pos) {
                let k = choose|k: int| pos <= k && #[trigger] occurs_at(t, ps[0], k) && tail_at(ps.drop_first(), t, k + ps[0].len());
                assert(!occurs_at(t, ps[0], k));
            }
        },
    }
}

/// Match a text against a `*` glob pattern.
pub fn glob_match(pattern: &str, text: &str) -> (b: bool)
    ensures
        b == glob(pattern@, text@),
{
    let p = chars_of(pattern);
    let t = chars_of(text);
    let parts = split_char_v(&p, '*');
    let ghost pv = parts@.map_values(|x: Vec<char>| x@);
    if parts.len() <= 1 {
        return eq(&t, &p);
    }
    let n = parts.len();
    assert(parts@[0]@ == pv[0]);
    if !crate::text::starts_with_v(&t, &parts[0]) {
        return false;
    }
    let tn = t.len();
    let mut pos: usize = parts[0].len();
    let mut i: usize = 1;
    assert(pv.subrange(1, n as int) =~= pv.drop_first());
    while i + 1 < n
        invariant
            1 <= i < n,
            n == parts.len(),
            pos <= t@.len(),
            tn == t@.len(),
            pv == parts@.map_values(|x: Vec<char>| x@),
            glob(pattern@, text@) == tail_at(pv.subrange(i as int, n as int), t@, pos as int),
            p@ == pattern@,
            t@ == text@,
        decreases n - i,
    {
        let ghost ps = pv.subrange(i as int, n as int);
        assert(parts@[i as int]@ == ps[0]);
        proof {
            lemma_tail_at_first(ps, t@, pos as int);
        }
        assert(ps.drop_first() =~= pv.subrange(i + 1, n as int));
        match find_from_v(&t, &parts[i], pos) {
            None => {
                return false;
            },
            Some(f) => {
                let li = parts[i].len();
                assert(li == parts@[i as int]@.len());
                assert(f + li <= tn);
                pos = f + li;
            },
        }
        i += 1;
    }
    let last = &parts[n - 1];
    assert(last@ == pv.subrange(i as int, n as int)[0]);
    last.len() <= t.len() - pos && crate::text::ends_with_v(&t, last)
}

/// A path is kept when it matches some includes pattern (or there are
/// none) and matches no excludes pattern.
pub open spec fn included(path: Seq<char>, includes: Seq<Seq<char>>, excludes: Seq<Seq<char>>) -> bool {
    &&& includes.len() == 0 || exists|i: int| 0 <= i < includes.len() && glob(#[trigger] includes[i], path)
    &&& !exists|j: int| 0 <= j < excludes.len() && glob(#[trigger] excludes[j], path)
}

pub open spec fn strings_view(xs: Seq<String>) -> Seq<Seq<char>> {
    xs.map_values(|s: String| s@)
}

fn any_glob(patterns: &[String], path: &str) -> (b: bool)
    ensures
        b == exists|i: int| 0 <= i < patterns@.len() && glob(#[trigger] strings_view(patterns@)[i], path@),
{
    let ghost pv = strings_view(patterns@);
    let mut i: usize = 0;
    while i < patterns.len()
        invariant
            i <= patterns@.len(),
            pv == strings_view(patterns@),
            forall|j: int| 0 <= j < i ==> !glob(#[trigger] pv[j], path@),
        decreases patterns@.len() - i,
    {
        assert(pv[i as int] == patterns@[i as int]@);
        if glob_match(patterns[i].as_str(), path) {
            return true;
        }
        i += 1;
    }
    false
}

/// Whether a file (by its path text) is kept by includes and excludes
/// patterns.
pub fn should_include_file(path: &str, includes: &[String], excludes: &[String]) -> (b: bool)
    ensures
        b == included(path@, strings_view(includes@), strings_view(excludes@)),
{
    if includes.len() > 0 && !any_glob(includes, path) {
        return false;
    }
    !any_glob(excludes, path)
}

// ---------------------------------------------------------------------------
// Uncovered line ranges
// ---------------------------------------------------------------------------

/// A line that is executable and was never hit.
pub open spec fn uncovered_line(m: Map<usize, u64>, line: int) -> bool {
    m.contains_key(line as usize) && m[line as usize] == 0
}

/// The ranges closed after lines `1..=k`, and the start of the open one.
pub open spec fn ranges_upto(m: Map<usize, u64>, k: int) -> (Seq<(usize, usize)>, Option<usize>)
    decreases k,
{
    if k <= 0 {
        (seq![], None)
    } else {
        let prev = ranges_upto(m, k - 1);
        if uncovered_line(m, k) {
            (prev.0, if prev.1 is None { Some(k as usize) } else { prev.1 })
        } else {
            match prev.1 {
                Some(s) => (prev.0.push((s, (k - 1) as usize)), None),
                None => (prev.0, None),
            }
        }
    }
}

/// The maximal runs of consecutive uncovered lines among `1..=total`.
pub open spec fn uncovered_ranges_spec(m: Map<usize, u64>, total: usize) -> Seq<(usize, usize)> {
    let st = ranges_upto(m, total as int);
    match st.1 {
        Some(s) => st.0.push((s, total)),
        None => st.0,
    }
}

/// Contiguous uncovered line ranges from per-line hit data.
pub fn compute_uncovered_ranges(line_hits: &HashMap<usize, u64>, total_lines: usize) -> (r: Vec<(usize, usize)>)
    ensures
        r@ == uncovered_ranges_spec(line_hits@, total_lines),
{
    let mut ranges: Vec<(usize, usize)> = Vec::new();
    let mut start: Option<usize> = None;
    let mut k: usize = 0;
    while k < total_lines
        invariant
            k <= total_lines,
            (ranges@, start) == ranges_upto(line_hits@, k as int),
            start matches Some(s) ==> 1 <= s <= k,
        decreases total_lines - k,
    {
        let line = k + 1;
        let uncovered = match line_hits.get(&line) {
            Some(h) => *h == 0,
            None => false,
        };
        assert(uncovered == uncovered_line(line_hits@, line as int));
        if uncovered {
            if start.is_none() {
                start = Some(line);
            }
        } else {
            match start {
                Some(s) => {
                    ranges.push((s, line - 1));
                    start = None;
                },
                None => {},
            }
        }
        k += 1;
    }
    match start {
        Some(s) => {
            ranges.push((s, total_lines));
        },
        None => {},
    }
    ranges
}


// ---------------------------------------------------------------------------
// Laws
// ---------------------------------------------------------------------------

/// The shape of the ranges after lines `1..=k`: each closed range lies in
/// `1..k` and holds only uncovered lines; ranges come in order with a gap
/// between them; an open range starts after the last closed one and runs
/// over uncovered lines up to `k`.
pub open spec fn ranges_shape(m: Map<usize, u64>, k: int, rs: Seq<(usize, usize)>, st: Option<usize>) -> bool {
    &&& forall|i: int| 0 <= i < rs.len() ==> 1 <= (#[trigger] rs[i]).0 <= rs[i].1 < k
    &&& forall|i: int, l: int| #![trigger rs[i], uncovered_line(m, l)] 0 <= i < rs.len() && rs[i].0 <= l <= rs[i].1 ==> uncovered_line(m, l)
    &&& forall|i: int| 0 <= i < rs.len() - 1 ==> (#[trigger] rs[i]).1 + 1 < rs[i + 1].0
    &&& match st {
        Some(s) => {
            &&& 1 <= s <= k
            &&& forall|l: int| s <= l <= k ==> uncovered_line(m, l)
            &&& rs.len() > 0 ==> rs.last().1 + 1 < s
        },
        None => rs.len() > 0 ==> rs.last().1 + 1 <= k,
    }
}

proof fn lemma_ranges_shape(m: Map<usize, u64>, k: int)
    requires
        0 <= k <= usize::MAX,
    ensures
        ranges_shape(m, k, ranges_upto(m, k).0, ranges_upto(m, k).1),
    decreases k,
{
    if k > 0 {
        lemma_ranges_shape(m, k - 1);
        let prev = ranges_upto(m, k - 1);
        let cur = ranges_upto(m, k);
        if !uncovered_line(m, k) {
            if let Some(s) = prev.1 {
                let rs = cur.0;
                assert(rs == prev.0.push((s, (k - 1) as usize)));
                assert forall|i: int, l: int| #![trigger rs[i], uncovered_line(m, l)] 0 <= i < rs.len() && rs[i].0 <= l <= rs[i].1 implies uncovered_line(m, l) by {
                    if i < prev.0.len() {
                        assert(rs[i] == prev.0[i]);
                    }
                }
                assert forall|i: int| 0 <= i < rs.len() - 1 implies (#[trigger] rs[i]).1 + 1 < rs[i + 1].0 by {
                    assert(rs[i] == prev.0[i]);
                    if i + 1 < prev.0.len() {
                        assert(rs[i + 1] == prev.0[i + 1]);
                    }
                }
                assert forall|i: int| 0 <= i < rs.len() implies 1 <= (#[trigger] rs[i]).0 <= rs[i].1 < k by {
                    if i < prev.0.len() {
                        assert(rs[i] == prev.0[i]);
                    }
                }
            }
        }
    }
}

/// The uncovered ranges lie within the file, hold only lines that are
/// executable and never hit, and come in order with covered or
/// non-executable lines between them.
pub proof fn law_uncovered_ranges_sound(m: Map<usize, u64>, total: usize)
    ensures
        forall|i: int| 0 <= i < uncovered_ranges_spec(m, total).len() ==> {
            let r = #[trigger] uncovered_ranges_spec(m, total)[i];
            1 <= r.0 <= r.1 <= total
        },
        forall|i: int, l: int| #![trigger uncovered_ranges_spec(m, total)[i], uncovered_line(m, l)]
            0 <= i < uncovered_ranges_spec(m, total).len()
            && uncovered_ranges_spec(m, total)[i].0 <= l <= uncovered_ranges_spec(m, total)[i].1
            ==> uncovered_line(m, l),
        forall|i: int| 0 <= i < uncovered_ranges_spec(m, total).len() - 1
            ==> (#[trigger] uncovered_ranges_spec(m, total)[i]).1 + 1 < uncovered_ranges_spec(m, total)[i + 1].0,
{
    lemma_ranges_shape(m, total as int);
    let st = ranges_upto(m, total as int);
    let out = uncovered_ranges_spec(m, total);
    if let Some(s) = st.1 {
        assert(out == st.0.push((s, total)));
        assert forall|i: int| 0 <= i < out.len() implies {
            let r = #[trigger] out[i];
            1 <= r.0 <= r.1 <= total
        } by {
            if i < st.0.len() {
                assert(out[i] == st.0[i]);
            }
        }
        assert forall|i: int, l: int| #![trigger out[i], uncovered_line(m, l)] 0 <= i < out.len() && out[i].0 <= l <= out[i].1 implies uncovered_line(m, l) by {
            if i < st.0.len() {
                assert(out[i] == st.0[i]);
            }
        }
        assert forall|i: int| 0 <= i < out.len() - 1 implies (#[trigger] out[i]).1 + 1 < out[i + 1].0 by {
            assert(out[i] == st.0[i]);
            if i + 1 < st.0.len() {
                assert(out[i + 1] == st.0[i + 1]);
            }
        }
    }
}

/// Line `l` lies in one of the ranges `rs`.
pub open spec fn in_some_range(rs: Seq<(usize, usize)>, l: int) -> bool {
    exists|i: int| 0 <= i < rs.len() && #[trigger] rs[i].0 <= l && l <= rs[i].1
}

proof fn lemma_ranges_complete(m: Map<usize, u64>, k: int)
    requires
        0 <= k <= usize::MAX,
    ensures
        forall|l: int| 1 <= l <= k && #[trigger] uncovered_line(m, l) ==> {
            ||| in_some_range(ranges_upto(m, k).0, l)
            ||| (ranges_upto(m, k).1 matches Some(s) && s <= l)
        },
    decreases k,
{
    if k > 0 {
        lemma_ranges_complete(m, k - 1);
        lemma_ranges_shape(m, k - 1);
        let prev = ranges_upto(m, k - 1);
        let cur = ranges_upto(m, k);
        assert forall|l: int| 1 <= l <= k && #[trigger] uncovered_line(m, l) implies {
            ||| in_some_range(cur.0, l)
            ||| (cur.1 matches Some(s) && s <= l)
        } by {
            if l < k {
                if in_some_range(prev.0, l) {
                    let i = choose|i: int| 0 <= i < prev.0.len() && #[trigger] prev.0[i].0 <= l && l <= prev.0[i].1;
                    assert(cur.0[i] == prev.0[i]);
                    assert(cur.0[i].0 <= l && l <= cur.0[i].1);
                } else {
                    let s = prev.1->0;
                    if !uncovered_line(m, k) {
                        let j = prev.0.len() as int;
                        assert(cur.0[j] == (s, (k - 1) as usize));
                        assert(cur.0[j].0 <= l && l <= cur.0[j].1);
                    }
                }
            }
        }
    }
}

/// Every executable line of the file that was never hit lies in one of the
/// uncovered ranges.
pub proof fn law_uncovered_ranges_complete(m: Map<usize, u64>, total: usize, l: int)
    requires
        1 <= l <= total,
        uncovered_line(m, l),
    ensures
        in_some_range(uncovered_ranges_spec(m, total), l),
{
    lemma_ranges_complete(m, total as int);
    let st = ranges_upto(m, total as int);
    let out = uncovered_ranges_spec(m, total);
    if in_some_range(st.0, l) {
        let i = choose|i: int| 0 <= i < st.0.len() && #[trigger] st.0[i].0 <= l && l <= st.0[i].1;
        assert(out[i] == st.0[i]);
        assert(out[i].0 <= l && l <= out[i].1);
    } else {
        let s = st.1->0;
        let j = st.0.len() as int;
        assert(out[j] == (s, total));
        assert(out[j].0 <= l && l <= out[j].1);
    }
}

/// With no include and no exclude patterns every file is kept.
pub proof fn law_no_patterns_keep_all(path: Seq<char>)
    ensures
        included(path, seq![], seq![]),
{
}

/// A pattern without `*` matches exactly the text equal to it.
pub proof fn law_literal_glob(pattern: Seq<char>, text: Seq<char>)
    requires
        !crate::text::contains(pattern, "*"@),
    ensures
        glob(pattern, text) <==> text == pattern,
{
    reveal_strlit("*");
    assert(seq!['*'] =~= "*"@);
    crate::text::lemma_find_from_bounds(pattern, seq!['*'], 0);
    assert(split_char(pattern, '*') =~= seq![pattern]);
}

} // verus!
