use testx::adapters::util::{
    combined_output, count_pattern, extract_count, extract_error_context, fallback_result,
    format_duration, parse_duration_str, parse_summary_line, synthetic_tests_from_counts,
    truncate, xml_escape, SummaryCounts, SummaryPatterns,
};
use testx::adapters::TestStatus;
use testx::duration::Duration;

#[test]
fn combined_output_both() {
    let result = combined_output("stdout text", "stderr text");
    assert_eq!(result, "stdout text\nstderr text");
}

#[test]
fn combined_output_stdout_only() {
    let result = combined_output("stdout text", "");
    assert_eq!(result, "stdout text");
}

#[test]
fn combined_output_stderr_only() {
    let result = combined_output("", "stderr text");
    assert_eq!(result, "stderr text");
}

#[test]
fn combined_output_both_empty() {
    let result = combined_output("", "");
    assert_eq!(result, "");
}

#[test]
fn combined_output_trims_whitespace() {
    let result = combined_output("  stdout  ", "  stderr  ");
    assert_eq!(result, "stdout\nstderr");
}

#[test]
fn fallback_result_pass() {
    let result = fallback_result(0, "Rust", "all ok", "");
    assert_eq!(result.total_tests(), 1);
    assert!(result.is_success());
    assert_eq!(result.suites[0].tests[0].error, None);
}

#[test]
fn fallback_result_fail() {
    let result = fallback_result(1, "Python", "", "error happened");
    assert_eq!(result.total_tests(), 1);
    assert!(!result.is_success());
    assert!(result.suites[0].tests[0].error.is_some());
}

#[test]
fn fallback_result_fail_no_output() {
    let result = fallback_result(2, "Go", "", "");
    assert!(result.suites[0].tests[0]
        .error
        .as_ref()
        .unwrap()
        .message
        .contains("exited with code 2"));
}

#[test]
fn parse_duration_milliseconds() {
    assert_eq!(parse_duration_str("5ms"), Some(Duration::from_millis(5)));
    assert_eq!(parse_duration_str("123ms"), Some(Duration::from_millis(123)));
    assert_eq!(parse_duration_str("0ms"), Some(Duration::from_millis(0)));
}

#[test]
fn parse_duration_milliseconds_with_space() {
    assert_eq!(parse_duration_str("5 ms"), Some(Duration::from_millis(5)));
}

#[test]
fn parse_duration_seconds() {
    assert_eq!(parse_duration_str("1.5s"), Some(Duration::from_millis(1500)));
    assert_eq!(parse_duration_str("0.01s"), Some(Duration::from_millis(10)));
}

#[test]
fn parse_duration_seconds_long_form() {
    assert_eq!(parse_duration_str("2.5 sec"), Some(Duration::from_millis(2500)));
    assert_eq!(parse_duration_str("1 seconds"), Some(Duration::from_secs(1)));
}

#[test]
fn parse_duration_with_parens() {
    assert_eq!(parse_duration_str("(5ms)"), Some(Duration::from_millis(5)));
}

#[test]
fn parse_duration_minutes() {
    assert_eq!(parse_duration_str("1.5min"), Some(Duration::from_secs(90)));
}

#[test]
fn parse_duration_invalid() {
    assert_eq!(parse_duration_str("hello"), None);
    assert_eq!(parse_duration_str(""), None);
    assert_eq!(parse_duration_str("abc ms"), None);
}

#[test]
fn parse_duration_negative_is_zero() {
    assert_eq!(parse_duration_str("-5ms"), Some(Duration::zero()));
}

#[test]
fn parse_duration_truncates_to_nanoseconds() {
    assert_eq!(parse_duration_str("0.0000000019s"), Some(Duration::from_nanos(1)));
    assert_eq!(parse_duration_str(".5s"), Some(Duration::from_millis(500)));
    assert_eq!(parse_duration_str("2m"), Some(Duration::from_secs(120)));
}

#[test]
fn extract_count_simple() {
    assert_eq!(extract_count("3 passed", &["passed"]), Some(3));
    assert_eq!(extract_count("12 failed", &["failed"]), Some(12));
    assert_eq!(extract_count("0 skipped", &["skipped"]), Some(0));
}

#[test]
fn extract_count_multiple_keywords() {
    assert_eq!(extract_count("5 passed", &["passed", "ok"]), Some(5));
    assert_eq!(extract_count("5 ok", &["passed", "ok"]), Some(5));
}

#[test]
fn extract_count_in_summary() {
    let line = "3 passed, 1 failed, 2 skipped";
    assert_eq!(extract_count(line, &["passed"]), Some(3));
    assert_eq!(extract_count(line, &["failed"]), Some(1));
    assert_eq!(extract_count(line, &["skipped"]), Some(2));
}

#[test]
fn extract_count_not_found() {
    assert_eq!(extract_count("all fine", &["passed"]), None);
}

#[test]
fn extract_count_falls_through_unparsable_keyword() {
    assert_eq!(extract_count("passed, 4 ok", &["passed", "ok"]), Some(4));
}

#[test]
fn parse_summary_line_full() {
    let patterns = SummaryPatterns {
        passed: &["passed"],
        failed: &["failed"],
        skipped: &["skipped"],
    };
    let counts = parse_summary_line("3 passed, 1 failed, 2 skipped", &patterns);
    assert_eq!(counts.passed, 3);
    assert_eq!(counts.failed, 1);
    assert_eq!(counts.skipped, 2);
}

#[test]
fn summary_counts_has_any() {
    let empty = SummaryCounts::default();
    assert!(!empty.has_any());
    let with_passed = SummaryCounts {
        passed: 1,
        ..Default::default()
    };
    assert!(with_passed.has_any());
}

#[test]
fn summary_counts_computed_total() {
    let counts = SummaryCounts {
        passed: 3,
        failed: 1,
        skipped: 2,
        total: 0,
        duration: None,
    };
    assert_eq!(counts.computed_total(), 6);
    let with_total = SummaryCounts {
        total: 10,
        ..Default::default()
    };
    assert_eq!(with_total.computed_total(), 10);
}

#[test]
fn synthetic_tests_from_counts_all_types() {
    let counts = SummaryCounts {
        passed: 2,
        failed: 1,
        skipped: 1,
        total: 4,
        duration: None,
    };
    let tests = synthetic_tests_from_counts(&counts, "tests");
    assert_eq!(tests.len(), 4);
    assert_eq!(tests.iter().filter(|t| t.status == TestStatus::Passed).count(), 2);
    assert_eq!(tests.iter().filter(|t| t.status == TestStatus::Failed).count(), 1);
    assert_eq!(tests.iter().filter(|t| t.status == TestStatus::Skipped).count(), 1);
}

#[test]
fn synthetic_tests_names_and_messages() {
    let counts = SummaryCounts {
        passed: 1,
        failed: 1,
        skipped: 0,
        total: 0,
        duration: None,
    };
    let tests = synthetic_tests_from_counts(&counts, "suite_x");
    assert_eq!(tests[0].name, "test 1 (passed)");
    assert_eq!(tests[1].name, "test 1 (failed)");
    assert_eq!(tests[1].error.as_ref().unwrap().message, "Test failed in suite_x");
}

#[test]
fn synthetic_tests_empty_counts() {
    let counts = SummaryCounts::default();
    let tests = synthetic_tests_from_counts(&counts, "tests");
    assert!(tests.is_empty());
}

#[test]
fn xml_escape_special_chars() {
    assert_eq!(xml_escape("a & b"), "a &amp; b");
    assert_eq!(xml_escape("<tag>"), "&lt;tag&gt;");
    assert_eq!(xml_escape("\"quoted\""), "&quot;quoted&quot;");
    assert_eq!(xml_escape("it's"), "it&apos;s");
}

#[test]
fn xml_escape_no_special() {
    assert_eq!(xml_escape("hello world"), "hello world");
}

#[test]
fn format_duration_zero() {
    assert_eq!(format_duration(Duration::zero()), "");
}

#[test]
fn format_duration_milliseconds() {
    assert_eq!(format_duration(Duration::from_millis(42)), "42ms");
    assert_eq!(format_duration(Duration::from_millis(999)), "999ms");
}

#[test]
fn format_duration_seconds() {
    assert_eq!(format_duration(Duration::from_millis(1500)), "1.50s");
    assert_eq!(format_duration(Duration::from_secs(5)), "5.00s");
}

#[test]
fn format_duration_minutes() {
    assert_eq!(format_duration(Duration::from_secs(90)), "1m30s");
    assert_eq!(format_duration(Duration::from_secs(120)), "2m0s");
}

#[test]
fn truncate_short_string() {
    assert_eq!(truncate("hello", 10), "hello");
}

#[test]
fn truncate_long_string() {
    assert_eq!(truncate("hello world foo bar", 10), "hello w...");
}

#[test]
fn truncate_exact_length() {
    assert_eq!(truncate("hello", 5), "hello");
}

#[test]
fn truncate_counts_bytes() {
    assert_eq!(truncate("h\u{e9}llo world", 8), "h\u{e9}ll...");
}

#[test]
fn extract_error_context_found() {
    let output = "line 1\nline 2\nFAILED test_foo\nline 4\nline 5";
    let ctx = extract_error_context(output, 3);
    assert!(ctx.is_some());
    assert!(ctx.unwrap().contains("FAILED test_foo"));
}

#[test]
fn extract_error_context_window() {
    let output = "a\nb\nc\nFAILED x\nd\ne\nf";
    assert_eq!(extract_error_context(output, 2).unwrap(), "b\nc\nFAILED x\nd");
}

#[test]
fn extract_error_context_not_found() {
    let output = "all tests passed\neverything is fine";
    assert!(extract_error_context(output, 3).is_none());
}

#[test]
fn extract_error_context_at_start() {
    let output = "FAILED immediately\nmore info\neven more";
    let ctx = extract_error_context(output, 3).unwrap();
    assert!(ctx.contains("FAILED immediately"));
}

#[test]
fn count_pattern_basic() {
    let output = "ok test_1\nFAIL test_2\nok test_3\nFAIL test_4";
    assert_eq!(count_pattern(output, "ok"), 2);
    assert_eq!(count_pattern(output, "FAIL"), 2);
}

#[test]
fn count_pattern_none() {
    assert_eq!(count_pattern("hello world", "FAIL"), 0);
}

#[test]
fn extract_error_context_unbounded_window() {
    assert_eq!(extract_error_context("FAILED x\nmore", usize::MAX).unwrap(), "FAILED x\nmore");
}
