use std::collections::HashMap;
use std::path::{Path, PathBuf};
use testx::coverage::{
    compute_uncovered_ranges, default_coverage_tool, glob_match, should_include_file, CoverageFormat,
    FileCoverage,
};


fn make_file(path: &str, total: usize, covered: usize) -> FileCoverage {
    let mut line_hits = HashMap::new();
    for i in 1..=total {
        line_hits.insert(i, if i <= covered { 1 } else { 0 });
    }
    FileCoverage {
        path: PathBuf::from(path),
        total_lines: total,
        covered_lines: covered,
        uncovered_ranges: Vec::new(),
        line_hits,
        total_branches: 0,
        covered_branches: 0,
    }
}

#[test]
fn file_fully_covered() {
    let full = make_file("full.rs", 50, 50);
    let partial = make_file("partial.rs", 50, 40);
    let empty = make_file("empty.rs", 0, 0);
    assert!(full.is_fully_covered());
    assert!(!partial.is_fully_covered());
    assert!(!empty.is_fully_covered());
}

#[test]
fn format_from_str() {
    assert_eq!(CoverageFormat::from_str_lossy("lcov"), CoverageFormat::Lcov);
    assert_eq!(
        CoverageFormat::from_str_lossy("cobertura"),
        CoverageFormat::Cobertura
    );
    assert_eq!(
        CoverageFormat::from_str_lossy("XML"),
        CoverageFormat::Cobertura
    );
    assert_eq!(CoverageFormat::from_str_lossy("html"), CoverageFormat::Html);
    assert_eq!(CoverageFormat::from_str_lossy("json"), CoverageFormat::Json);
    assert_eq!(
        CoverageFormat::from_str_lossy("unknown"),
        CoverageFormat::Summary
    );
}

#[test]
fn format_extension() {
    assert_eq!(CoverageFormat::Summary.extension(), "txt");
    assert_eq!(CoverageFormat::Lcov.extension(), "lcov");
    assert_eq!(CoverageFormat::Cobertura.extension(), "xml");
}

#[test]
fn default_coverage_tools() {
    assert!(default_coverage_tool("rust").is_some());
    assert!(default_coverage_tool("python").is_some());
    assert!(default_coverage_tool("javascript").is_some());
    assert!(default_coverage_tool("go").is_some());
    assert!(default_coverage_tool("java").is_some());
    assert!(default_coverage_tool("cpp").is_some());
    assert!(default_coverage_tool("ruby").is_some());
    assert!(default_coverage_tool("elixir").is_some());
    assert!(default_coverage_tool("dotnet").is_some());
    assert!(default_coverage_tool("unknown").is_none());
}

#[test]
fn uncovered_ranges() {
    let mut hits = HashMap::new();
    hits.insert(1, 5); // covered
    hits.insert(2, 0); // uncovered
    hits.insert(3, 0); // uncovered
    hits.insert(4, 3); // covered
    hits.insert(5, 0); // uncovered

    let ranges = compute_uncovered_ranges(&hits, 5);
    assert_eq!(ranges, vec![(2, 3), (5, 5)]);
}

#[test]
fn uncovered_ranges_all_covered() {
    let mut hits = HashMap::new();
    hits.insert(1, 1);
    hits.insert(2, 1);
    hits.insert(3, 1);
    let ranges = compute_uncovered_ranges(&hits, 3);
    assert!(ranges.is_empty());
}

#[test]
fn glob_match_simple() {
    assert!(glob_match("*.rs", "foo.rs"));
    assert!(glob_match("src/*.rs", "src/main.rs"));
    assert!(!glob_match("*.rs", "foo.py"));
}

#[test]
fn glob_match_double_star() {
    assert!(glob_match("src/*", "src/foo/bar.rs"));
}

#[test]
fn glob_match_exact() {
    assert!(glob_match("main.rs", "main.rs"));
    assert!(!glob_match("main.rs", "src/main.rs"));
}

#[test]
fn should_include_defaults() {
    let path = Path::new("src/main.rs");
    assert!(should_include_file(&path.to_string_lossy(), &[], &[]));
}

#[test]
fn should_include_with_include() {
    let path = Path::new("src/main.rs");
    assert!(should_include_file(&path.to_string_lossy(), &["src/*".into()], &[]));
    assert!(!should_include_file(&path.to_string_lossy(), &["tests/*".into()], &[]));
}

#[test]
fn should_include_with_exclude() {
    let path = Path::new("src/vendor/lib.rs");
    assert!(!should_include_file(&path.to_string_lossy(), &[], &["*vendor*".into()]));
    assert!(should_include_file(&path.to_string_lossy(), &[], &["*test*".into()]));
}

#[test]
fn coverage_format_case_insensitive() {
    assert_eq!(CoverageFormat::from_str_lossy("LCOV"), CoverageFormat::Lcov);
    assert_eq!(CoverageFormat::from_str_lossy("Json"), CoverageFormat::Json);
    assert_eq!(CoverageFormat::Html.extension(), "html");
}

#[test]
fn coverage_ruby_tool_sets_env() {
    let c = default_coverage_tool("ruby").unwrap();
    assert_eq!(c.tool, "simplecov");
    assert_eq!(c.env, vec![("COVERAGE".to_string(), "true".to_string())]);
    let r = default_coverage_tool("rust").unwrap();
    assert_eq!(r.extra_args, vec!["--lcov".to_string(), "--output-path".to_string()]);
}

#[test]
fn coverage_glob_edge_cases() {
    assert!(glob_match("*", ""));
    assert!(!glob_match("a*b", "ab_c"));
    assert!(glob_match("a*b*", "axxbyy"));
    assert!(!glob_match("b*", "ab"));
}

#[test]
fn coverage_ranges_gap_closes_run() {
    let mut hits = HashMap::new();
    hits.insert(1, 0);
    hits.insert(3, 0);
    let ranges = compute_uncovered_ranges(&hits, 4);
    assert_eq!(ranges, vec![(1, 1), (3, 3)]);
}

#[test]
fn format_extension_reads_back_as_the_format() {
    for f in [
        CoverageFormat::Summary,
        CoverageFormat::Lcov,
        CoverageFormat::Cobertura,
        CoverageFormat::Html,
        CoverageFormat::Json,
    ] {
        assert_eq!(CoverageFormat::from_str_lossy(f.extension()), f);
        assert_eq!(CoverageFormat::from_str_lossy(&f.extension().to_ascii_uppercase()), f);
    }
    assert_eq!(CoverageFormat::from_str_lossy("HtMl"), CoverageFormat::Html);
    assert_eq!(CoverageFormat::from_str_lossy("yaml"), CoverageFormat::Summary);
}

#[test]
fn coverage_glob_star_stands_for_any_text() {
    assert!(glob_match("*.rs", "x.rs.rs"));
    assert!(glob_match("src/*.rs", "src/a.rs.rs"));
    assert!(glob_match("a*b*c", "abxbc"));
    assert!(!glob_match("a*a", "a"));
    assert!(glob_match("a*a", "aa"));
    assert!(!glob_match("*.rs", "main.py"));
    assert!(should_include_file("x.rs.rs", &["*.rs".to_string()], &[]));
}
