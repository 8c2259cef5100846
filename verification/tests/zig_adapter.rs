use testx::adapters::util::truncate;
use testx::adapters::zig::{
    enrich_with_errors, extract_zig_location, extract_zig_test_name, find_zig_error_message,
    is_zig_compile_error, is_zig_source_location, parse_zig_compile_error, parse_zig_failures,
    ZigAdapter, ZigTestFailure,
};
use testx::adapters::{TestCase, TestStatus, TestSuite};
use testx::duration::Duration;


#[test]
fn parse_zig_detailed_output() {
    let stdout = r#"
Test [1/3] test.basic add... OK
Test [2/3] test.advanced... OK
Test [3/3] test.edge case... FAIL
2 passed; 1 failed.
"#;
    let adapter = ZigAdapter::new();
    let result = adapter.parse_output(stdout, "", 1);

    assert_eq!(result.total_tests(), 3);
    assert_eq!(result.total_passed(), 2);
    assert_eq!(result.total_failed(), 1);
    assert!(!result.is_success());
}

#[test]
fn parse_zig_all_pass() {
    let stdout = r#"
Test [1/2] test.add... OK
Test [2/2] test.sub... OK
All 2 tests passed.
"#;
    let adapter = ZigAdapter::new();
    let result = adapter.parse_output(stdout, "", 0);

    assert_eq!(result.total_tests(), 2);
    assert_eq!(result.total_passed(), 2);
    assert!(result.is_success());
}

#[test]
fn parse_zig_summary_only() {
    let stdout = "All 5 tests passed.\n";
    let adapter = ZigAdapter::new();
    let result = adapter.parse_output(stdout, "", 0);

    assert_eq!(result.total_tests(), 5);
    assert_eq!(result.total_passed(), 5);
    assert!(result.is_success());
}

#[test]
fn parse_zig_summary_with_failures() {
    let stdout = "2 passed; 3 failed.\n";
    let adapter = ZigAdapter::new();
    let result = adapter.parse_output(stdout, "", 1);

    assert_eq!(result.total_tests(), 5);
    assert_eq!(result.total_passed(), 2);
    assert_eq!(result.total_failed(), 3);
}

#[test]
fn parse_zig_empty_output() {
    let adapter = ZigAdapter::new();
    let result = adapter.parse_output("", "", 0);

    assert_eq!(result.total_tests(), 1);
    assert!(result.is_success());
}

#[test]
fn parse_zig_skipped_test() {
    let stdout = "Test [1/2] test.basic... OK\nTest [2/2] test.skip... SKIP\n";
    let adapter = ZigAdapter::new();
    let result = adapter.parse_output(stdout, "", 0);

    assert_eq!(result.total_tests(), 2);
    assert_eq!(result.total_passed(), 1);
    assert_eq!(result.total_skipped(), 1);
}

#[test]
fn parse_zig_failure_with_error_details() {
    let stdout = r#"
Test [1/2] test.basic... OK
Test [2/2] test.edge case... FAIL
/home/user/src/main.zig:42:5: 0x1234abcd in test.edge case (test)
    unreachable
/usr/lib/zig/std/debug.zig:100:0: in std.debug.panicImpl

1 passed; 1 failed.
"#;
    let adapter = ZigAdapter::new();
    let result = adapter.parse_output(stdout, "", 1);

    assert_eq!(result.total_tests(), 2);
    assert_eq!(result.total_failed(), 1);
    let failed = result.suites[0]
        .tests
        .iter()
        .find(|t| t.status == TestStatus::Failed)
        .unwrap();
    assert!(failed.error.is_some());
    let err = failed.error.as_ref().unwrap();
    assert!(err.location.is_some());
}

#[test]
fn parse_zig_failures_basic() {
    let output = r#"
Test [1/1] test.divide... FAIL
/home/user/src/math.zig:10:12: 0x1234 in test.divide (test)
    integer overflow
"#;
    let failures = parse_zig_failures(output);
    assert_eq!(failures.len(), 1);
    assert_eq!(failures[0].test_name, "test.divide");
    assert!(failures[0].location.is_some());
}

#[test]
fn parse_zig_compile_error_test() {
    let output = "src/main.zig:42:5: error: expected type 'u32', found 'i32'\n";
    let failures = parse_zig_failures(output);
    assert_eq!(failures.len(), 1);
    assert_eq!(failures[0].test_name, "compile_error");
    assert!(failures[0].message.contains("expected type"));
}

#[test]
fn parse_zig_panic_test() {
    let output = r#"
thread 12345 panic: integer overflow
/home/user/src/math.zig:10:12: in test_fn
"#;
    let failures = parse_zig_failures(output);
    assert_eq!(failures.len(), 1);
    assert!(failures[0].message.contains("integer overflow"));
}

#[test]
fn extract_zig_test_name_test() {
    assert_eq!(
        extract_zig_test_name("Test [1/3] test.basic add... OK"),
        "test.basic add"
    );
    assert_eq!(
        extract_zig_test_name("Test [2/3] test.edge... FAIL"),
        "test.edge"
    );
}

#[test]
fn is_zig_source_location_test() {
    assert!(is_zig_source_location(
        "/home/user/src/main.zig:42:5: in test"
    ));
    assert!(is_zig_source_location("src/math.zig:10:12: error"));
    assert!(!is_zig_source_location("not a location"));
    assert!(!is_zig_source_location(
        "some text.zig without colon numbers"
    ));
}

#[test]
fn extract_zig_location_test() {
    assert_eq!(
        extract_zig_location("/home/user/src/main.zig:42:5: 0x1234 in test"),
        "/home/user/src/main.zig:42:5"
    );
    assert_eq!(
        extract_zig_location("src/math.zig:10:12: error: boom"),
        "src/math.zig:10:12"
    );
}

#[test]
fn find_zig_error_message_test() {
    let lines = vec![
        "/src/main.zig:42:5: 0x1234".into(),
        "unreachable".into(),
        "/lib/debug.zig:100:0: in something".into(),
    ];
    let msg = find_zig_error_message(&lines);
    assert_eq!(msg, "unreachable");
}

#[test]
fn find_zig_error_message_with_error() {
    let lines = vec![
        "error: expected type 'u32'".into(),
        "some other line".into(),
    ];
    let msg = find_zig_error_message(&lines);
    assert!(msg.contains("error:"));
}

#[test]
fn is_zig_compile_error_test() {
    assert!(is_zig_compile_error(
        "src/main.zig:42:5: error: expected type"
    ));
    assert!(!is_zig_compile_error("not a compile error"));
}

#[test]
fn parse_zig_compile_error_line() {
    let (loc, msg) =
        parse_zig_compile_error("src/main.zig:42:5: error: expected type 'u32', found 'i32'");
    assert_eq!(loc, "src/main.zig:42:5");
    assert_eq!(msg, "expected type 'u32', found 'i32'");
}

#[test]
fn zig_truncate_test() {
    assert_eq!(truncate("short", 100), "short");
    let long = "z".repeat(600);
    let truncated = truncate(&long, 500);
    assert!(truncated.ends_with("..."));
}

#[test]
fn zig_enrich_with_errors_test() {
    let mut suites = vec![TestSuite {
        name: "tests".into(),
        tests: vec![
            TestCase {
                name: "test.add".into(),
                status: TestStatus::Passed,
                duration: Duration::from_millis(0),
                error: None,
            },
            TestCase {
                name: "test.edge".into(),
                status: TestStatus::Failed,
                duration: Duration::from_millis(0),
                error: None,
            },
        ],
    }];
    let failures = vec![ZigTestFailure {
        test_name: "test.edge".into(),
        message: "unreachable".into(),
        location: Some("/src/main.zig:42:5".into()),
    }];
    enrich_with_errors(&mut suites, &failures);
    assert!(suites[0].tests[0].error.is_none());
    let err = suites[0].tests[1].error.as_ref().unwrap();
    assert_eq!(err.message, "unreachable");
    assert!(err.location.as_ref().unwrap().contains("main.zig:42:5"));
}

#[test]
fn parse_zig_test_integration() {
    let stdout = r#"
Test [1/3] test.basic add... OK
Test [2/3] test.advanced... OK
Test [3/3] test.edge case... FAIL
/src/main.zig:42:5: 0x1234 in test.edge case
    error: assertion failed
2 passed; 1 failed.
"#;
    let adapter = ZigAdapter::new();
    let result = adapter.parse_output(stdout, "", 1);

    assert_eq!(result.total_tests(), 3);
    assert_eq!(result.total_passed(), 2);
    assert_eq!(result.total_failed(), 1);
    let failed = result.suites[0]
        .tests
        .iter()
        .find(|t| t.status == TestStatus::Failed)
        .unwrap();
    assert!(failed.error.is_some());
}

#[test]
fn zig_error_detail_prefers_informative_line() {
    let stdout = "Test [1/1] test.edge case... FAIL\n/src/main.zig:42:5: 0x1234 in test.edge case\n    error: assertion failed\n";
    let result = ZigAdapter::new().parse_output(stdout, "", 1);
    let err = result.suites[0].tests[0].error.as_ref().unwrap();
    assert_eq!(err.message, "error: assertion failed");
    assert_eq!(err.location.as_deref(), Some("/src/main.zig:42:5"));
}

#[test]
fn zig_single_failure_fills_unmatched_case() {
    let mut suites = vec![TestSuite {
        name: "tests".into(),
        tests: vec![TestCase { name: "failed_test_1".into(), status: TestStatus::Failed, duration: Duration::zero(), error: None }],
    }];
    let failures = vec![ZigTestFailure { test_name: "panic".into(), message: "boom".into(), location: None }];
    enrich_with_errors(&mut suites, &failures);
    assert_eq!(suites[0].tests[0].error.as_ref().unwrap().message, "boom");
}

#[test]
fn zig_time_label_gives_duration() {
    let result = ZigAdapter::new().parse_output("All 1 tests passed.\ntime: 0.25s\n", "", 0);
    assert_eq!(result.duration, Duration::from_millis(250));
}

#[test]
fn zig_location_without_column() {
    assert_eq!(extract_zig_location("a.zig:7: note"), "a.zig:7");
    assert_eq!(extract_zig_location("no location here"), "no location here");
}

#[test]
fn zig_panic_failure_location_lookahead() {
    let failures = parse_zig_failures("thread 1 panic: reached unreachable\nx\ny\nsrc/a.zig:3:9: in f\n");
    assert_eq!(failures.len(), 1);
    assert_eq!(failures[0].test_name, "panic");
    assert_eq!(failures[0].message, "reached unreachable");
    assert_eq!(failures[0].location.as_deref(), Some("src/a.zig:3:9"));
}

#[test]
fn zig_readable_accepts_ordinary_output() {
    let a = ZigAdapter::new();
    assert!(a.readable("All 3 tests passed.\n", ""));
}
