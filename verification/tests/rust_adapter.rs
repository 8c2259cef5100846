use testx::adapters::rust::{parse_cargo_duration, RustAdapter};
use testx::adapters::{TestCase, TestRunResult, TestStatus, TestSuite};
use testx::duration::Duration;


#[test]
fn parse_cargo_test_output() {
    let stdout = r#"
running 3 tests
test tests::test_add ... ok
test tests::test_subtract ... ok
test tests::test_multiply ... FAILED

failures:

---- tests::test_multiply stdout ----
thread 'tests::test_multiply' panicked at 'assertion failed'

failures:
    tests::test_multiply

test result: FAILED. 2 passed; 1 failed; 0 ignored; 0 measured; 0 filtered out; finished in 0.01s
"#;
    let adapter = RustAdapter::new();
    let result = adapter.parse_output(stdout, "", 101);

    assert_eq!(result.total_tests(), 3);
    assert_eq!(result.total_passed(), 2);
    assert_eq!(result.total_failed(), 1);
    assert!(!result.is_success());
    assert_eq!(result.duration, Duration::from_millis(10));

    // Verify error message was captured
    let failed = &result.suites[0].failures();
    assert_eq!(failed.len(), 1);
    assert!(failed[0].error.is_some());
    assert!(
        failed[0]
            .error
            .as_ref()
            .unwrap()
            .message
            .contains("assertion failed")
    );
}

#[test]
fn parse_cargo_all_pass() {
    let stdout = r#"
running 2 tests
test tests::test_a ... ok
test tests::test_b ... ok

test result: ok. 2 passed; 0 failed; 0 ignored; 0 measured; 0 filtered out; finished in 0.00s
"#;
    let adapter = RustAdapter::new();
    let result = adapter.parse_output(stdout, "", 0);

    assert_eq!(result.total_passed(), 2);
    assert!(result.is_success());
}

#[test]
fn parse_cargo_with_ignored() {
    let stdout = r#"
running 3 tests
test tests::test_a ... ok
test tests::test_b ... ignored
test tests::test_c ... ok

test result: ok. 2 passed; 0 failed; 1 ignored; 0 measured; 0 filtered out; finished in 0.00s
"#;
    let adapter = RustAdapter::new();
    let result = adapter.parse_output(stdout, "", 0);

    assert_eq!(result.total_passed(), 2);
    assert_eq!(result.total_skipped(), 1);
    assert!(result.is_success());
}

#[test]
fn parse_cargo_duration_extraction() {
    assert_eq!(
        parse_cargo_duration(
            "test result: ok. 2 passed; 0 failed; 0 ignored; finished in 1.23s"
        ),
        Some(Duration::from_millis(1230))
    );
    assert_eq!(parse_cargo_duration("no duration"), None);
}

#[test]
fn parse_cargo_empty_output() {
    let adapter = RustAdapter::new();
    let result = adapter.parse_output("", "", 0);

    assert_eq!(result.total_tests(), 1);
    assert!(result.is_success());
}

#[test]
fn parse_cargo_multiple_targets() {
    let stdout = r#"
   Compiling testx v0.1.0
     Running unittests src/lib.rs (target/debug/deps/testx-abc123)

running 2 tests
test lib_test_a ... ok
test lib_test_b ... ok

test result: ok. 2 passed; 0 failed; 0 ignored; finished in 0.01s

     Running unittests src/main.rs (target/debug/deps/testx-def456)

running 1 test
test main_test ... ok

test result: ok. 1 passed; 0 failed; 0 ignored; finished in 0.00s
"#;
    let adapter = RustAdapter::new();
    let result = adapter.parse_output(stdout, "", 0);

    assert_eq!(result.total_tests(), 3);
    assert_eq!(result.total_passed(), 3);
    assert!(result.is_success());
    assert!(result.suites.len() >= 2);
}

#[test]
fn parse_cargo_all_failures() {
    let stdout = r#"
running 2 tests
test tests::test_x ... FAILED
test tests::test_y ... FAILED

failures:

---- tests::test_x stdout ----
thread 'tests::test_x' panicked at 'not yet implemented'

---- tests::test_y stdout ----
thread 'tests::test_y' panicked at 'todo'

failures:
    tests::test_x
    tests::test_y

test result: FAILED. 0 passed; 2 failed; 0 ignored; finished in 0.02s
"#;
    let adapter = RustAdapter::new();
    let result = adapter.parse_output(stdout, "", 101);

    assert_eq!(result.total_tests(), 2);
    assert_eq!(result.total_failed(), 2);
    assert_eq!(result.total_passed(), 0);
    assert!(!result.is_success());

    // Both should have error messages
    let suite = &result.suites[0];
    for tc in suite.failures() {
        assert!(tc.error.is_some());
    }
}

#[test]
fn parse_cargo_stderr_output() {
    // Some output goes to stderr (compilation messages)
    let stderr = r#"
running 1 test
test basic ... ok

test result: ok. 1 passed; 0 failed; 0 ignored; finished in 0.00s
"#;
    let adapter = RustAdapter::new();
    let result = adapter.parse_output("", stderr, 0);

    assert_eq!(result.total_tests(), 1);
    assert!(result.is_success());
}

#[test]
fn slowest_tests_ordering() {
    let result = TestRunResult {
        suites: vec![TestSuite {
            name: "tests".into(),
            tests: vec![
                TestCase {
                    name: "fast".into(),
                    status: TestStatus::Passed,
                    duration: Duration::from_millis(10),
                    error: None,
                },
                TestCase {
                    name: "slow".into(),
                    status: TestStatus::Passed,
                    duration: Duration::from_millis(500),
                    error: None,
                },
                TestCase {
                    name: "medium".into(),
                    status: TestStatus::Passed,
                    duration: Duration::from_millis(100),
                    error: None,
                },
            ],
        }],
        duration: Duration::from_millis(610),
        raw_exit_code: 0,
    };

    let slowest = result.slowest_tests(2);
    assert_eq!(slowest.len(), 2);
    assert_eq!(slowest[0].1.name, "slow");
    assert_eq!(slowest[1].1.name, "medium");
}

#[test]
fn test_suite_helpers() {
    let suite = TestSuite {
        name: "test".into(),
        tests: vec![
            TestCase {
                name: "a".into(),
                status: TestStatus::Passed,
                duration: Duration::from_millis(0),
                error: None,
            },
            TestCase {
                name: "b".into(),
                status: TestStatus::Failed,
                duration: Duration::from_millis(0),
                error: Some(testx::adapters::TestError {
                    message: "boom".into(),
                    location: None,
                }),
            },
            TestCase {
                name: "c".into(),
                status: TestStatus::Skipped,
                duration: Duration::from_millis(0),
                error: None,
            },
        ],
    };

    assert_eq!(suite.passed(), 1);
    assert_eq!(suite.failed(), 1);
    assert_eq!(suite.skipped(), 1);
    assert!(!suite.is_passed());
    assert_eq!(suite.failures().len(), 1);
    assert_eq!(suite.failures()[0].name, "b");
}

#[test]
fn rust_report_time_form_keeps_its_time() {
    let r = RustAdapter::new().parse_output("running 1 test\ntest tests::a ... ok <0.500s>\n", "", 0);
    assert_eq!(r.total_tests(), 1);
    assert_eq!(r.total_passed(), 1);
    assert_eq!(r.suites[0].name, "tests");
    assert_eq!(r.suites[0].tests[0].name, "tests::a");
    assert_eq!(r.suites[0].tests[0].duration, Duration::from_millis(500));
}
