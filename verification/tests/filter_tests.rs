use testx::adapters::{TestCase, TestRunResult, TestStatus, TestSuite};
use testx::duration::Duration;
use testx::filter::{
    build_filter, failed_test_names, filter_with_summary, glob_match, matching_test_names,
    parse_glob_segments, FilterPattern, GlobSegment, TestFilter,
};

fn make_test(name: &str, status: TestStatus) -> TestCase {
    TestCase { name: name.into(), status, duration: Duration::from_millis(1), error: None }
}

fn make_suite(name: &str, tests: Vec<TestCase>) -> TestSuite {
    TestSuite { name: name.into(), tests }
}

fn make_result(suites: Vec<TestSuite>) -> TestRunResult {
    TestRunResult { suites, duration: Duration::from_millis(100), raw_exit_code: 0 }
}

#[test]
fn pattern_exact() {
    let p = FilterPattern::parse("test_add");
    assert!(p.matches("test_add"));
    assert!(!p.matches("test_add_extra"));
    assert!(!p.matches("test"));
}

#[test]
fn pattern_prefix() {
    let p = FilterPattern::parse("test_*");
    assert!(p.matches("test_add"));
    assert!(p.matches("test_"));
    assert!(!p.matches("other_add"));
}

#[test]
fn pattern_suffix() {
    let p = FilterPattern::parse("*_add");
    assert!(p.matches("test_add"));
    assert!(p.matches("_add"));
    assert!(!p.matches("test_sub"));
}

#[test]
fn pattern_contains() {
    let p = FilterPattern::parse("*divide*");
    assert!(p.matches("test_divide_by_zero"));
    assert!(p.matches("divide"));
    assert!(!p.matches("test_add"));
}

#[test]
fn pattern_glob() {
    let p = FilterPattern::parse("test_*_basic_*");
    assert!(p.matches("test_math_basic_add"));
    assert!(p.matches("test_str_basic_concat"));
    assert!(!p.matches("test_math_advanced_add"));
}

#[test]
fn pattern_exact_no_wildcard() {
    let p = FilterPattern::parse("hello");
    assert!(matches!(p, FilterPattern::Exact(_)));
}

#[test]
fn filter_include_single() {
    let filter = TestFilter::new().include_pattern("test_add");
    assert!(filter.matches(&make_test("test_add", TestStatus::Passed), "suite"));
    assert!(!filter.matches(&make_test("test_sub", TestStatus::Passed), "suite"));
}

#[test]
fn filter_include_csv() {
    let filter = TestFilter::new().include_csv("test_add, test_sub");
    assert!(filter.matches(&make_test("test_add", TestStatus::Passed), "s"));
    assert!(filter.matches(&make_test("test_sub", TestStatus::Passed), "s"));
    assert!(!filter.matches(&make_test("test_mul", TestStatus::Passed), "s"));
}

#[test]
fn include_csv_is_repeated_include() {
    let a = TestFilter::new().include_csv(" test_add ,, *_sub");
    let b = TestFilter::new().include_pattern("test_add").include_pattern("*_sub");
    for name in ["test_add", "x_sub", "test_mul", ""] {
        let t = make_test(name, TestStatus::Passed);
        assert_eq!(a.matches(&t, "s"), b.matches(&t, "s"));
    }
    assert_eq!(a.is_active(), b.is_active());
}

#[test]
fn filter_exclude() {
    let filter = TestFilter::new().exclude("*slow*");
    assert!(filter.matches(&make_test("test_fast", TestStatus::Passed), "s"));
    assert!(!filter.matches(&make_test("test_slow_add", TestStatus::Passed), "s"));
}

#[test]
fn filter_status() {
    let filter = TestFilter::new().status(TestStatus::Failed);
    assert!(!filter.matches(&make_test("test", TestStatus::Passed), "s"));
    assert!(filter.matches(&make_test("test", TestStatus::Failed), "s"));
}

#[test]
fn filter_suite() {
    let filter = TestFilter::new().suite("MathTest");
    assert!(filter.matches(&make_test("test", TestStatus::Passed), "MathTest"));
    assert!(!filter.matches(&make_test("test", TestStatus::Passed), "StringTest"));
}

#[test]
fn filter_combined() {
    let filter = TestFilter::new().include_pattern("test_*").exclude("*slow*").status(TestStatus::Failed);
    assert!(!filter.matches(&make_test("test_add", TestStatus::Passed), "s"));
    assert!(filter.matches(&make_test("test_add", TestStatus::Failed), "s"));
    assert!(!filter.matches(&make_test("test_slow", TestStatus::Failed), "s"));
    assert!(!filter.matches(&make_test("other", TestStatus::Failed), "s"));
}

#[test]
fn filter_empty_matches_all() {
    let filter = TestFilter::new();
    assert!(!filter.is_active());
    assert!(filter.matches(&make_test("anything", TestStatus::Passed), "any"));
}

#[test]
fn builders_make_filter_active() {
    assert!(TestFilter::new().include_pattern("x").is_active());
    assert!(TestFilter::new().exclude("x").is_active());
    assert!(TestFilter::new().status(TestStatus::Skipped).is_active());
    assert!(TestFilter::new().suite("").is_active());
}

#[test]
fn apply_filter_to_result() {
    let result = make_result(vec![make_suite(
        "tests",
        vec![
            make_test("test_add", TestStatus::Passed),
            make_test("test_sub", TestStatus::Passed),
            make_test("test_div", TestStatus::Failed),
        ],
    )]);
    let filtered = TestFilter::new().status(TestStatus::Failed).apply(&result);
    assert_eq!(filtered.total_tests(), 1);
    assert_eq!(filtered.suites[0].tests[0].name, "test_div");
}

#[test]
fn apply_filter_removes_empty_suites() {
    let result = make_result(vec![
        make_suite("MathTest", vec![make_test("test_add", TestStatus::Passed)]),
        make_suite("StringTest", vec![make_test("test_upper", TestStatus::Passed)]),
    ]);
    let filtered = TestFilter::new().suite("MathTest").apply(&result);
    assert_eq!(filtered.suites.len(), 1);
    assert_eq!(filtered.suites[0].name, "MathTest");
}

#[test]
fn apply_no_filter_returns_clone() {
    let result = make_result(vec![make_suite("tests", vec![make_test("test_add", TestStatus::Passed)])]);
    let filtered = TestFilter::new().apply(&result);
    assert_eq!(filtered.total_tests(), result.total_tests());
}

#[test]
fn filtering_twice_is_filtering_once_and_adds_nothing() {
    let result = make_result(vec![
        make_suite("a", vec![make_test("t1", TestStatus::Failed), make_test("t2", TestStatus::Passed)]),
        make_suite("b", vec![make_test("t3", TestStatus::Passed)]),
    ]);
    let f = TestFilter::new().status(TestStatus::Failed);
    let once = f.apply(&result);
    let twice = f.apply(&once);
    assert_eq!(once.suites.len(), 1);
    assert_eq!(twice.suites.len(), once.suites.len());
    assert_eq!(twice.total_tests(), once.total_tests());
    assert!(once.total_tests() <= result.total_tests());
}

#[test]
fn glob_segments_parsing() {
    let segs = parse_glob_segments("test_*_basic_*");
    assert_eq!(segs.len(), 4);
    assert!(matches!(&segs[0], GlobSegment::Literal(s) if s == "test_"));
    assert!(matches!(&segs[1], GlobSegment::Wildcard));
    assert!(matches!(&segs[2], GlobSegment::Literal(s) if s == "_basic_"));
    assert!(matches!(&segs[3], GlobSegment::Wildcard));
}

#[test]
fn glob_segments_collapse_star_runs() {
    let segs = parse_glob_segments("**a***b");
    assert_eq!(segs.len(), 4);
    assert!(matches!(&segs[0], GlobSegment::Wildcard));
    assert!(matches!(&segs[1], GlobSegment::Literal(s) if s == "a"));
    assert!(matches!(&segs[2], GlobSegment::Wildcard));
    assert!(matches!(&segs[3], GlobSegment::Literal(s) if s == "b"));
}

#[test]
fn glob_match_basic() {
    let segs = parse_glob_segments("hello");
    assert!(glob_match(&segs, "hello"));
    assert!(!glob_match(&segs, "hell"));
}

#[test]
fn glob_match_wildcard() {
    let segs = parse_glob_segments("*");
    assert!(glob_match(&segs, "anything"));
    assert!(glob_match(&segs, ""));
}

#[test]
fn glob_match_complex() {
    let segs = parse_glob_segments("test_*_*_end");
    assert!(glob_match(&segs, "test_a_b_end"));
    assert!(glob_match(&segs, "test_foo_bar_end"));
    assert!(!glob_match(&segs, "test_end"));
}

#[test]
fn build_filter_basic() {
    let filter = build_filter(Some("test_*"), Some("*slow*"), false);
    assert!(filter.is_active());
    assert!(filter.matches(&make_test("test_fast", TestStatus::Passed), "s"));
    assert!(!filter.matches(&make_test("test_slow", TestStatus::Passed), "s"));
}

#[test]
fn build_filter_failed_only() {
    let filter = build_filter(None, None, true);
    assert!(filter.is_active());
    assert!(!filter.matches(&make_test("test", TestStatus::Passed), "s"));
    assert!(filter.matches(&make_test("test", TestStatus::Failed), "s"));
}

#[test]
fn build_filter_none() {
    assert!(!build_filter(None, None, false).is_active());
}

#[test]
fn filter_with_summary_test() {
    let result = make_result(vec![make_suite(
        "tests",
        vec![
            make_test("test_a", TestStatus::Passed),
            make_test("test_b", TestStatus::Failed),
            make_test("test_c", TestStatus::Passed),
        ],
    )]);
    let filter = TestFilter::new().status(TestStatus::Failed);
    let (filtered, summary) = filter_with_summary(&filter, &result);
    assert_eq!(summary.total_before, 3);
    assert_eq!(summary.total_after, 1);
    assert_eq!(summary.filtered_out, 2);
    assert_eq!(filtered.total_failed(), 1);
}

#[test]
fn failed_test_names_test() {
    let result = make_result(vec![make_suite(
        "tests",
        vec![
            make_test("test_a", TestStatus::Passed),
            make_test("test_b", TestStatus::Failed),
            make_test("test_c", TestStatus::Failed),
        ],
    )]);
    let names = failed_test_names(&result);
    assert_eq!(names, vec!["test_b", "test_c"]);
    assert_eq!(names.len(), result.total_failed());
}

#[test]
fn matching_test_names_test() {
    let result = make_result(vec![make_suite(
        "tests",
        vec![
            make_test("test_add", TestStatus::Passed),
            make_test("test_sub", TestStatus::Passed),
            make_test("other", TestStatus::Passed),
        ],
    )]);
    let filter = TestFilter::new().include_pattern("test_*");
    let names = matching_test_names(&filter, &result);
    assert_eq!(names, vec!["test_add", "test_sub"]);
    let applied = filter.apply(&result);
    let applied_names: Vec<String> = applied.suites.iter().flat_map(|s| s.tests.iter().map(|t| t.name.clone())).collect();
    assert_eq!(names, applied_names);
}

#[test]
fn exclude_csv_multiple() {
    let filter = TestFilter::new().exclude_csv("*slow*, *flaky*, *skip*");
    assert!(filter.matches(&make_test("test_fast", TestStatus::Passed), "s"));
    assert!(!filter.matches(&make_test("test_slow", TestStatus::Passed), "s"));
    assert!(!filter.matches(&make_test("test_flaky", TestStatus::Passed), "s"));
    assert!(!filter.matches(&make_test("test_skip_me", TestStatus::Passed), "s"));
}
