use testx::adapters::python::{parse_pytest_duration, parse_pytest_line, PythonAdapter};
use testx::duration::Duration;


#[test]
fn parse_pytest_verbose_output() {
    let stdout = r#"
============================= test session starts ==============================
collected 4 items

tests/test_math.py::test_add PASSED                                      [ 25%]
tests/test_math.py::test_subtract PASSED                                 [ 50%]
tests/test_math.py::test_multiply FAILED                                 [ 75%]
tests/test_string.py::test_upper PASSED                                  [100%]

=================================== FAILURES ===================================
________________________________ test_multiply _________________________________

    def test_multiply():
>       assert multiply(2, 3) == 7
E       assert 6 == 7
E         +  where 6 = multiply(2, 3)

tests/test_math.py:10: AssertionError
=========================== short test summary info ============================
FAILED tests/test_math.py::test_multiply - assert 6 == 7
============================== 3 passed, 1 failed in 0.12s =====================
"#;
    let adapter = PythonAdapter::new();
    let result = adapter.parse_output(stdout, "", 1);

    assert_eq!(result.total_tests(), 4);
    assert_eq!(result.total_passed(), 3);
    assert_eq!(result.total_failed(), 1);
    assert!(!result.is_success());
    assert_eq!(result.suites.len(), 2); // two test files
    assert_eq!(result.duration, Duration::from_millis(120));

    // Verify error message was captured
    let failed: Vec<_> = result.suites.iter().flat_map(|s| s.failures()).collect();
    assert_eq!(failed.len(), 1);
    assert!(failed[0].error.is_some());
    assert!(
        failed[0]
            .error
            .as_ref()
            .unwrap()
            .message
            .contains("assert 6 == 7")
    );
}

#[test]
fn parse_pytest_all_pass() {
    let stdout = "========================= 5 passed in 0.32s =========================\n";
    let adapter = PythonAdapter::new();
    let result = adapter.parse_output(stdout, "", 0);

    assert_eq!(result.total_tests(), 5);
    assert_eq!(result.total_passed(), 5);
    assert!(result.is_success());
}

#[test]
fn parse_pytest_with_skipped() {
    let stdout = r#"
tests/test_foo.py::test_a PASSED
tests/test_foo.py::test_b SKIPPED
tests/test_foo.py::test_c PASSED

========================= 2 passed, 1 skipped in 0.05s =========================
"#;
    let adapter = PythonAdapter::new();
    let result = adapter.parse_output(stdout, "", 0);

    assert_eq!(result.total_passed(), 2);
    assert_eq!(result.total_skipped(), 1);
    assert!(result.is_success());
}

#[test]
fn parse_pytest_class_based() {
    let stdout = r#"
tests/test_calc.py::TestCalculator::test_add PASSED
tests/test_calc.py::TestCalculator::test_div FAILED
"#;
    let adapter = PythonAdapter::new();
    let result = adapter.parse_output(stdout, "", 1);

    assert_eq!(result.total_tests(), 2);
    assert_eq!(result.total_passed(), 1);
    assert_eq!(result.total_failed(), 1);
}

#[test]
fn parse_pytest_summary_only() {
    let stdout = "===== 10 passed, 2 failed, 3 skipped in 1.50s =====\n";
    let adapter = PythonAdapter::new();
    let result = adapter.parse_output(stdout, "", 1);

    assert_eq!(result.total_passed(), 10);
    assert_eq!(result.total_failed(), 2);
    assert_eq!(result.total_skipped(), 3);
    assert_eq!(result.total_tests(), 15);
}

#[test]
fn parse_pytest_duration_extraction() {
    assert_eq!(
        parse_pytest_duration("=== 1 passed in 2.34s ==="),
        Some(Duration::from_millis(2340))
    );
    assert_eq!(parse_pytest_duration("no duration here"), None);
}

#[test]
fn parse_pytest_line_function() {
    assert_eq!(
        parse_pytest_line("tests/test_foo.py::test_bar PASSED                    [ 50%]"),
        Some(("tests/test_foo.py::test_bar".into(), "PASSED".into()))
    );
    assert_eq!(parse_pytest_line("collected 5 items"), None);
    assert_eq!(parse_pytest_line(""), None);
}

#[test]
fn parse_pytest_empty_output() {
    let adapter = PythonAdapter::new();
    let result = adapter.parse_output("", "", 0);

    assert_eq!(result.total_tests(), 1);
    assert!(result.is_success());
}

#[test]
fn parse_pytest_xfail_xpass() {
    let stdout = r#"
tests/test_edge.py::test_expected_fail XFAIL
tests/test_edge.py::test_unexpected_pass XPASS

========================= 2 xfailed in 0.05s =========================
"#;
    let adapter = PythonAdapter::new();
    let result = adapter.parse_output(stdout, "", 0);

    // XFAIL and XPASS should be counted as skipped
    assert_eq!(result.total_skipped(), 2);
    assert!(result.is_success());
}

#[test]
fn parse_pytest_parametrized() {
    let stdout = r#"
tests/test_math.py::test_add[1-2-3] PASSED
tests/test_math.py::test_add[0-0-0] PASSED
tests/test_math.py::test_add[-1-1-0] PASSED

========================= 3 passed in 0.01s =========================
"#;
    let adapter = PythonAdapter::new();
    let result = adapter.parse_output(stdout, "", 0);

    assert_eq!(result.total_tests(), 3);
    assert_eq!(result.total_passed(), 3);
}

#[test]
fn parse_pytest_error_status() {
    let stdout = r#"
tests/test_math.py::test_setup ERROR

========================= 1 error in 0.10s =========================
"#;
    let adapter = PythonAdapter::new();
    let result = adapter.parse_output(stdout, "", 1);

    assert_eq!(result.total_failed(), 1);
    assert!(!result.is_success());
}

#[test]
fn pytest_failure_message_has_location() {
    let stdout = r#"
tests/test_math.py::test_add PASSED                                      [ 50%]
tests/test_math.py::test_multiply FAILED                                 [100%]

=================================== FAILURES ===================================
________________________________ test_multiply _________________________________

    def test_multiply():
>       assert multiply(2, 3) == 7
E       assert 6 == 7
E         +  where 6 = multiply(2, 3)

tests/test_math.py:10: AssertionError
=========================== short test summary info ============================
"#;
    let result = PythonAdapter::new().parse_output(stdout, "", 1);
    let failed = result.suites[0].failures();
    assert_eq!(failed.len(), 1);
    assert_eq!(
        failed[0].error.as_ref().unwrap().message,
        "assert 6 == 7 | +  where 6 = multiply(2, 3) (tests/test_math.py:10)"
    );
    assert_eq!(failed[0].error.as_ref().unwrap().location, None);
}

#[test]
fn pytest_suites_follow_files() {
    let stdout = "tests/a.py::test_one PASSED\ntests/b.py::TestK::test_two FAILED\ntests/a.py::test_three SKIPPED\n";
    let result = PythonAdapter::new().parse_output(stdout, "", 1);
    let names: Vec<&str> = result.suites.iter().map(|s| s.name.as_str()).collect();
    assert_eq!(names, vec!["tests/a.py", "tests/b.py", "tests/a.py"]);
    assert_eq!(result.suites[1].tests[0].name, "test_two");
    assert!(result.suites[1].tests[0].error.is_none());
}

#[test]
fn pytest_summary_case_names() {
    let result = PythonAdapter::new().parse_output("== 1 passed, 1 failed, 1 skipped in 3s ==\n", "", 1);
    let names: Vec<&str> = result.suites[0].tests.iter().map(|t| t.name.as_str()).collect();
    assert_eq!(names, vec!["test_1", "failed_test_1", "skipped_test_1"]);
    assert_eq!(result.suites[0].name, "tests");
    assert_eq!(result.duration, Duration::from_secs(3));
}

#[test]
fn pytest_empty_output_failing_exit() {
    let result = PythonAdapter::new().parse_output("", "", 2);
    assert_eq!(result.total_failed(), 1);
    assert_eq!(result.suites[0].tests[0].name, "test_suite");
}

#[test]
fn pytest_line_status_must_follow_space() {
    assert_eq!(parse_pytest_line("tests/x.py::test_PASSED"), None);
    assert_eq!(
        parse_pytest_line("tests/x.py::test_a XFAIL"),
        Some(("tests/x.py::test_a".to_string(), "XFAIL".to_string()))
    );
}
