use testx::adapters::cpp::{
    extract_ctest_name, extract_file_line_location, first_meaningful_line, is_cpp_error_line,
    parse_ctest_duration, parse_ctest_failures, parse_gtest_duration, parse_gtest_output,
    split_gtest_name, truncate_output, CppAdapter,
};
use testx::adapters::TestStatus;
use testx::duration::Duration;


#[test]
fn parse_ctest_detailed_output() {
    let stdout = r#"
Test project /home/user/project/build
    Start 1: test_basic
1/3 Test #1: test_basic ...................   Passed    0.01 sec
    Start 2: test_advanced
2/3 Test #2: test_advanced ................   Passed    0.02 sec
    Start 3: test_edge
3/3 Test #3: test_edge ....................***Failed    0.01 sec

67% tests passed, 1 tests failed out of 3

Total Test time (real) =   0.04 sec
"#;
    let adapter = CppAdapter::new();
    let result = adapter.parse_output(stdout, "", 1);

    assert_eq!(result.total_tests(), 3);
    assert_eq!(result.total_passed(), 2);
    assert_eq!(result.total_failed(), 1);
    assert!(!result.is_success());
}

#[test]
fn parse_ctest_all_pass() {
    let stdout = r#"
Test project /home/user/project/build
    Start 1: test_one
1/2 Test #1: test_one .....................   Passed    0.01 sec
    Start 2: test_two
2/2 Test #2: test_two .....................   Passed    0.01 sec

100% tests passed, 0 tests failed out of 2

Total Test time (real) =   0.02 sec
"#;
    let adapter = CppAdapter::new();
    let result = adapter.parse_output(stdout, "", 0);

    assert_eq!(result.total_tests(), 2);
    assert_eq!(result.total_passed(), 2);
    assert!(result.is_success());
}

#[test]
fn parse_ctest_summary_only() {
    let stdout = "67% tests passed, 1 tests failed out of 3\n";
    let adapter = CppAdapter::new();
    let result = adapter.parse_output(stdout, "", 1);

    assert_eq!(result.total_tests(), 3);
    assert_eq!(result.total_passed(), 2);
    assert_eq!(result.total_failed(), 1);
}

#[test]
fn parse_ctest_empty_output() {
    let adapter = CppAdapter::new();
    let result = adapter.parse_output("", "", 0);

    assert_eq!(result.total_tests(), 1);
    assert!(result.is_success());
}

#[test]
fn parse_ctest_duration_value() {
    assert_eq!(
        parse_ctest_duration("Total Test time (real) =   0.05 sec"),
        Some(Duration::from_millis(50))
    );
}

#[test]
fn parse_gtest_detailed_output() {
    let stdout = r#"
[==========] Running 3 tests from 1 test suite.
[----------] 3 tests from MathTest
[ RUN      ] MathTest.TestAdd
[       OK ] MathTest.TestAdd (0 ms)
[ RUN      ] MathTest.TestSub
[       OK ] MathTest.TestSub (1 ms)
[ RUN      ] MathTest.TestDiv
test_math.cpp:42: Failure
Expected equality of these values:
  divide(10, 3)
    Which is: 3
  4
[  FAILED  ] MathTest.TestDiv (0 ms)
[----------] 3 tests from MathTest (1 ms total)
[==========] 3 tests from 1 test suite ran. (1 ms total)
[  PASSED  ] 2 tests.
[  FAILED  ] 1 test, listed below:
[  FAILED  ] MathTest.TestDiv
"#;
    let suites = parse_gtest_output(stdout);
    assert_eq!(suites.len(), 1);
    assert_eq!(suites[0].name, "MathTest");
    assert_eq!(suites[0].tests.len(), 3);
    assert_eq!(suites[0].tests[0].name, "TestAdd");
    assert_eq!(suites[0].tests[0].status, TestStatus::Passed);
    assert_eq!(suites[0].tests[2].name, "TestDiv");
    assert_eq!(suites[0].tests[2].status, TestStatus::Failed);
    assert!(suites[0].tests[2].error.is_some());
}

#[test]
fn parse_gtest_all_pass() {
    let stdout = r#"
[==========] Running 2 tests from 1 test suite.
[ RUN      ] MathTest.TestAdd
[       OK ] MathTest.TestAdd (0 ms)
[ RUN      ] MathTest.TestSub
[       OK ] MathTest.TestSub (0 ms)
[==========] 2 tests from 1 test suite ran. (0 ms total)
[  PASSED  ] 2 tests.
"#;
    let suites = parse_gtest_output(stdout);
    assert_eq!(suites.len(), 1);
    assert_eq!(suites[0].tests.len(), 2);
    assert!(
        suites[0]
            .tests
            .iter()
            .all(|t| t.status == TestStatus::Passed)
    );
}

#[test]
fn parse_gtest_multiple_suites() {
    let stdout = r#"
[ RUN      ] MathTest.TestAdd
[       OK ] MathTest.TestAdd (0 ms)
[ RUN      ] StringTest.TestUpper
[       OK ] StringTest.TestUpper (0 ms)
"#;
    let suites = parse_gtest_output(stdout);
    assert_eq!(suites.len(), 2);
}

#[test]
fn parse_gtest_failure_with_error_details() {
    let stdout = r#"
[ RUN      ] MathTest.TestDiv
test_math.cpp:42: Failure
Expected: 4
  Actual: 3
[  FAILED  ] MathTest.TestDiv (0 ms)
"#;
    let suites = parse_gtest_output(stdout);
    let err = suites[0].tests[0].error.as_ref().unwrap();
    assert!(err.location.is_some());
    assert!(err.location.as_ref().unwrap().contains("test_math.cpp:42"));
}

#[test]
fn parse_gtest_duration_test() {
    assert_eq!(
        parse_gtest_duration("[       OK ] MathTest.TestAdd (123 ms)"),
        Duration::from_millis(123)
    );
    assert_eq!(
        parse_gtest_duration("[  FAILED  ] MathTest.TestDiv (0 ms)"),
        Duration::from_millis(0)
    );
}

#[test]
fn split_gtest_name_test() {
    assert_eq!(
        split_gtest_name("MathTest.TestAdd"),
        ("MathTest".into(), "TestAdd".into())
    );
    assert_eq!(
        split_gtest_name("SimpleTest"),
        ("tests".into(), "SimpleTest".into())
    );
}

#[test]
fn is_cpp_error_line_test() {
    assert!(is_cpp_error_line("ASSERT_EQ failed"));
    assert!(is_cpp_error_line("error: expected 4"));
    assert!(is_cpp_error_line("Failure"));
    assert!(is_cpp_error_line("Segfault at 0x0"));
    assert!(!is_cpp_error_line("Running tests..."));
}

#[test]
fn extract_file_line_location_test() {
    assert_eq!(
        extract_file_line_location("test.cpp:42: Failure"),
        Some("test.cpp:42".into())
    );
    assert_eq!(
        extract_file_line_location("main.c:10: error: boom"),
        Some("main.c:10".into())
    );
    assert_eq!(
        extract_file_line_location("test.hpp(15): fatal"),
        Some("test.hpp(15)".into())
    );
    assert!(extract_file_line_location("no file here").is_none());
}

#[test]
fn extract_ctest_name_test() {
    assert_eq!(
        extract_ctest_name("1/3 Test #1: test_basic ...................   Passed    0.01 sec"),
        "test_basic"
    );
}

#[test]
fn parse_ctest_failures_with_output() {
    let output = r#"
1/2 Test #1: test_pass ...................   Passed    0.01 sec
2/2 Test #2: test_edge ....................***Failed    0.01 sec
ASSERT_EQ(4, result) failed
  Expected: 4
  Actual: 3
test_edge.cpp:42: Failure

67% tests passed, 1 tests failed out of 2
"#;
    let failures = parse_ctest_failures(output);
    assert_eq!(failures.len(), 1);
    assert_eq!(failures[0].test_name, "test_edge");
    assert!(failures[0].error_line.is_some());
}

#[test]
fn truncate_output_test() {
    assert_eq!(truncate_output("short", 100), "short");
    let long = "x".repeat(1000);
    let truncated = truncate_output(&long, 800);
    assert!(truncated.ends_with("..."));
}

#[test]
fn first_meaningful_line_test() {
    assert_eq!(
        first_meaningful_line("---\n\nHello world\nmore"),
        "Hello world"
    );
    assert_eq!(first_meaningful_line("first"), "first");
}

#[test]
fn parse_ctest_with_gtest_output() {
    let stdout = r#"
Test project /home/user/project/build
    Start 1: gtest_math
1/1 Test #1: gtest_math .....................***Failed    0.01 sec
[==========] Running 2 tests from 1 test suite.
[ RUN      ] MathTest.TestAdd
[       OK ] MathTest.TestAdd (0 ms)
[ RUN      ] MathTest.TestDiv
test.cpp:10: Failure
Expected: 4
  Actual: 3
[  FAILED  ] MathTest.TestDiv (0 ms)
[  PASSED  ] 1 test.
[  FAILED  ] 1 test, listed below:
[  FAILED  ] MathTest.TestDiv

67% tests passed, 1 tests failed out of 1

Total Test time (real) =   0.01 sec
"#;
    let adapter = CppAdapter::new();
    let result = adapter.parse_output(stdout, "", 1);

    // GTest output should be preferred
    assert_eq!(result.suites.len(), 1);
    assert_eq!(result.suites[0].name, "MathTest");
    assert_eq!(result.total_tests(), 2);
    assert_eq!(result.total_passed(), 1);
    assert_eq!(result.total_failed(), 1);
}
#[test]
fn cpp_enrich_uses_error_line_and_location() {
    let stdout = "1/1 Test #1: t1 ....***Failed    0.01 sec\nOutput:\n-------\nboom happened\nexpected 4 at x\n  at t1.cpp:7\n-------\n0% tests passed, 1 tests failed out of 1\n";
    let result = CppAdapter::new().parse_output(stdout, "", 1);
    let err = result.suites[0].tests[0].error.as_ref().unwrap();
    assert_eq!(err.message, "expected 4 at x");
    assert_eq!(err.location.as_deref(), Some("at t1.cpp:7"));
}

#[test]
fn cpp_first_meaningful_falls_back() {
    assert_eq!(first_meaningful_line("---\n==="), "---");
    assert_eq!(first_meaningful_line(""), "unknown error");
}

#[test]
fn cpp_location_paren_without_close_tries_next() {
    assert_eq!(extract_file_line_location("a.cpp( b.h:3"), Some("a.cpp( b.h:3".into()));
}

#[test]
fn cpp_gtest_duration_needs_ms() {
    assert_eq!(parse_gtest_duration("[       OK ] T (2 s)"), Duration::from_millis(0));
    assert_eq!(parse_gtest_duration("[       OK ] T"), Duration::from_millis(0));
}

#[test]
fn cpp_gtest_unfinished_test_passes() {
    let suites = parse_gtest_output("[ RUN      ] A.B\nsome output\n");
    assert_eq!(suites.len(), 1);
    assert_eq!(suites[0].tests[0].status, TestStatus::Passed);
}

#[test]
fn cpp_ctest_not_run_is_skipped() {
    let stdout = "1/1 Test #1: t .....***Not Run   0.00 sec\n";
    let result = CppAdapter::new().parse_output(stdout, "", 1);
    assert_eq!(result.total_skipped(), 1);
}
