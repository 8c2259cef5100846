use testx::adapters::go::{parse_go_total_duration, GoAdapter};
use testx::adapters::TestStatus;
use testx::duration::Duration;


#[test]
fn parse_go_verbose_output() {
    let stdout = r#"
=== RUN   TestAdd
--- PASS: TestAdd (0.00s)
=== RUN   TestSubtract
--- PASS: TestSubtract (0.00s)
=== RUN   TestDivide
    math_test.go:15: expected 2, got 0
--- FAIL: TestDivide (0.05s)
FAIL
FAIL	github.com/user/mathpkg	0.052s
"#;
    let adapter = GoAdapter::new();
    let result = adapter.parse_output(stdout, "", 1);

    assert_eq!(result.total_tests(), 3);
    assert_eq!(result.total_passed(), 2);
    assert_eq!(result.total_failed(), 1);
    assert!(!result.is_success());

    // Verify error message was captured
    let failed = &result.suites[0].failures();
    assert_eq!(failed.len(), 1);
    assert!(failed[0].error.is_some());
    assert!(
        failed[0]
            .error
            .as_ref()
            .unwrap()
            .message
            .contains("expected 2, got 0")
    );
}

#[test]
fn parse_go_all_pass() {
    let stdout = r#"
=== RUN   TestHello
--- PASS: TestHello (0.00s)
=== RUN   TestWorld
--- PASS: TestWorld (0.01s)
ok  	github.com/user/pkg	0.015s
"#;
    let adapter = GoAdapter::new();
    let result = adapter.parse_output(stdout, "", 0);

    assert_eq!(result.total_passed(), 2);
    assert_eq!(result.total_failed(), 0);
    assert!(result.is_success());
}

#[test]
fn parse_go_skipped() {
    let stdout = r#"
=== RUN   TestFoo
--- SKIP: TestFoo (0.00s)
ok  	github.com/user/pkg	0.001s
"#;
    let adapter = GoAdapter::new();
    let result = adapter.parse_output(stdout, "", 0);

    assert_eq!(result.total_skipped(), 1);
    assert!(result.is_success());
}

#[test]
fn parse_go_multiple_packages() {
    let stdout = r#"
=== RUN   TestA
--- PASS: TestA (0.00s)
ok  	github.com/user/pkg/a	0.005s
=== RUN   TestB
--- FAIL: TestB (0.02s)
FAIL	github.com/user/pkg/b	0.025s
"#;
    let adapter = GoAdapter::new();
    let result = adapter.parse_output(stdout, "", 1);

    assert_eq!(result.total_tests(), 2);
    assert_eq!(result.total_passed(), 1);
    assert_eq!(result.total_failed(), 1);
}

#[test]
fn parse_go_duration() {
    let output = "ok  \tgithub.com/user/pkg\t1.234s\n";
    let dur = parse_go_total_duration(output).unwrap();
    assert_eq!(dur, Duration::from_millis(1234));
}

#[test]
fn parse_go_empty_output() {
    let adapter = GoAdapter::new();
    let result = adapter.parse_output("", "", 0);

    assert_eq!(result.total_tests(), 1);
    assert!(result.is_success());
}

#[test]
fn parse_go_subtests() {
    let stdout = r#"
=== RUN   TestMath
=== RUN   TestMath/Add
--- PASS: TestMath/Add (0.00s)
=== RUN   TestMath/Subtract
--- PASS: TestMath/Subtract (0.00s)
--- PASS: TestMath (0.00s)
ok  	github.com/user/pkg	0.003s
"#;
    let adapter = GoAdapter::new();
    let result = adapter.parse_output(stdout, "", 0);

    // Should capture parent and subtests
    assert!(result.total_passed() >= 2);
    assert!(result.is_success());
}

#[test]
fn parse_go_panic_output() {
    let stdout = r#"
=== RUN   TestCrash
--- FAIL: TestCrash (0.00s)
panic: runtime error: index out of range [recovered]
FAIL	github.com/user/pkg	0.001s
"#;
    let adapter = GoAdapter::new();
    let result = adapter.parse_output(stdout, "", 1);

    assert_eq!(result.total_failed(), 1);
    assert!(!result.is_success());
}

#[test]
fn parse_go_no_test_files() {
    let stdout = "?   \tgithub.com/user/pkg\t[no test files]\n";
    let adapter = GoAdapter::new();
    let result = adapter.parse_output(stdout, "", 0);

    // Should create a synthetic passing suite
    assert!(result.is_success());
}

#[test]
fn go_tests_belong_to_the_package_line_that_follows_them() {
    let stdout = "=== RUN   TestA\n--- PASS: TestA (0.00s)\nok  \tgithub.com/user/pkg/a\t0.005s\n=== RUN   TestB\n--- FAIL: TestB (0.02s)\nFAIL\tgithub.com/user/pkg/b\t0.025s\n";
    let r = GoAdapter::new().parse_output(stdout, "", 1);
    assert_eq!(r.suites.len(), 2);
    assert_eq!(r.suites[0].name, "github.com/user/pkg/a");
    assert_eq!(r.suites[0].tests.len(), 1);
    assert_eq!(r.suites[0].tests[0].name, "TestA");
    assert_eq!(r.suites[0].tests[0].status, TestStatus::Passed);
    assert_eq!(r.suites[1].name, "github.com/user/pkg/b");
    assert_eq!(r.suites[1].tests.len(), 1);
    assert_eq!(r.suites[1].tests[0].name, "TestB");
    assert_eq!(r.suites[1].tests[0].status, TestStatus::Failed);
    assert_eq!(r.total_tests(), 2);
}
