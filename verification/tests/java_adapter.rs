use testx::adapters::java::{
    enrich_with_errors, extract_xml_attr, parse_gradle_failures, parse_java_duration,
    parse_maven_error_failures, parse_maven_failed_tests_section, parse_maven_failure_line,
    find_matching_java_failure, parse_java_failures, parse_single_surefire_xml, strip_maven_prefix, truncate_java_message, xml_unescape,
    JavaAdapter, JavaTestFailure,
};
use testx::adapters::{TestCase, TestStatus, TestSuite};
use testx::duration::Duration;


#[test]
fn parse_maven_surefire_output() {
    let stdout = r#"
[INFO] -------------------------------------------------------
[INFO]  T E S T S
[INFO] -------------------------------------------------------
[INFO] Running com.example.AppTest
[INFO] Tests run: 3, Failures: 1, Errors: 0, Skipped: 0, Time elapsed: 0.05 s
[INFO]
[INFO] Results:
[INFO]
[INFO] Tests run: 3, Failures: 1, Errors: 0, Skipped: 0
[INFO]
[INFO] BUILD FAILURE
"#;
    let adapter = JavaAdapter::new();
    let result = adapter.parse_output(stdout, "", 1);

    assert_eq!(result.total_tests(), 3);
    assert_eq!(result.total_passed(), 2);
    assert_eq!(result.total_failed(), 1);
    assert!(!result.is_success());
}

#[test]
fn parse_maven_all_pass() {
    let stdout = r#"
[INFO] Running com.example.MathTest
[INFO] Tests run: 5, Failures: 0, Errors: 0, Skipped: 0, Time elapsed: 0.12 s
[INFO] BUILD SUCCESS
"#;
    let adapter = JavaAdapter::new();
    let result = adapter.parse_output(stdout, "", 0);

    assert_eq!(result.total_tests(), 5);
    assert_eq!(result.total_passed(), 5);
    assert!(result.is_success());
}

#[test]
fn parse_maven_with_skipped() {
    let stdout = r#"
[INFO] Running com.example.AppTest
[INFO] Tests run: 4, Failures: 0, Errors: 0, Skipped: 2, Time elapsed: 0.03 s
"#;
    let adapter = JavaAdapter::new();
    let result = adapter.parse_output(stdout, "", 0);

    assert_eq!(result.total_passed(), 2);
    assert_eq!(result.total_skipped(), 2);
    assert!(result.is_success());
}

#[test]
fn parse_maven_with_errors() {
    let stdout = r#"
[INFO] Running com.example.AppTest
[INFO] Tests run: 3, Failures: 0, Errors: 2, Skipped: 0, Time elapsed: 0.01 s
"#;
    let adapter = JavaAdapter::new();
    let result = adapter.parse_output(stdout, "", 1);

    assert_eq!(result.total_failed(), 2);
    assert!(!result.is_success());
}

#[test]
fn parse_gradle_test_output() {
    let stdout = r#"
> Task :test

com.example.AppTest > testAdd PASSED
com.example.AppTest > testSubtract PASSED
com.example.AppTest > testDivide FAILED

3 tests completed, 1 failed

BUILD FAILED in 2s
"#;
    let adapter = JavaAdapter::new();
    let result = adapter.parse_output(stdout, "", 1);

    assert_eq!(result.total_tests(), 3);
    assert_eq!(result.total_passed(), 2);
    assert_eq!(result.total_failed(), 1);
    assert!(!result.is_success());
}

#[test]
fn parse_gradle_all_pass() {
    let stdout = r#"
> Task :test

com.example.MathTest > testAdd PASSED
com.example.MathTest > testMultiply PASSED

BUILD SUCCESSFUL in 3s
"#;
    let adapter = JavaAdapter::new();
    let result = adapter.parse_output(stdout, "", 0);

    assert_eq!(result.total_tests(), 2);
    assert_eq!(result.total_passed(), 2);
    assert!(result.is_success());
}

#[test]
fn parse_gradle_multiple_suites() {
    let stdout = r#"
com.example.MathTest > testAdd PASSED
com.example.StringTest > testUpper PASSED
com.example.StringTest > testLower FAILED

3 tests completed, 1 failed
"#;
    let adapter = JavaAdapter::new();
    let result = adapter.parse_output(stdout, "", 1);

    assert_eq!(result.suites.len(), 2);
    assert_eq!(result.total_tests(), 3);
}

#[test]
fn parse_java_empty_output() {
    let adapter = JavaAdapter::new();
    let result = adapter.parse_output("", "", 0);

    assert_eq!(result.total_tests(), 1);
    assert!(result.is_success());
}

#[test]
fn parse_java_duration_maven() {
    assert_eq!(
        parse_java_duration(
            "[INFO] Tests run: 3, Failures: 0, Errors: 0, Skipped: 0, Time elapsed: 1.23 s"
        ),
        Some(Duration::from_millis(1230))
    );
}

#[test]
fn parse_java_duration_gradle() {
    assert_eq!(
        parse_java_duration("BUILD SUCCESSFUL in 5s"),
        Some(Duration::from_secs(5))
    );
}

#[test]
fn parse_maven_failed_tests_section_test() {
    let output = r#"
[ERROR] Failed tests:
[ERROR]   testDivide(com.example.MathTest): expected:<4> but was:<3>
[ERROR]   testModulo(com.example.MathTest): ArithmeticException
[ERROR]
[ERROR] Tests run: 5, Failures: 2, Errors: 0, Skipped: 0
"#;
    let failures = parse_maven_failed_tests_section(output);
    assert_eq!(failures.len(), 2);
    assert_eq!(failures[0].method_name, "testDivide");
    assert!(failures[0].message.contains("expected:<4>"));
    assert_eq!(failures[1].method_name, "testModulo");
}

#[test]
fn parse_maven_failure_line_test() {
    let failure =
        parse_maven_failure_line("testAdd(com.example.MathTest): expected 5 got 4").unwrap();
    assert_eq!(failure.method_name, "testAdd");
    assert_eq!(failure.test_name, "testAdd(com.example.MathTest)");
    assert_eq!(failure.message, "expected 5 got 4");
}

#[test]
fn parse_maven_failure_line_no_message() {
    let failure = parse_maven_failure_line("testAdd(com.example.MathTest)").unwrap();
    assert_eq!(failure.method_name, "testAdd");
    assert!(failure.message.is_empty());
}

#[test]
fn parse_gradle_failure_blocks() {
    let output = r#"
> Task :test

com.example.AppTest > testAdd PASSED
com.example.AppTest > testDivide FAILED
    org.opentest4j.AssertionFailedError: expected: <4> but was: <3>
        at com.example.AppTest.testDivide(AppTest.java:42)

3 tests completed, 1 failed
"#;
    let failures = parse_gradle_failures(output);
    assert_eq!(failures.len(), 1);
    assert_eq!(failures[0].method_name, "testDivide");
    assert!(failures[0].message.contains("AssertionFailedError"));
    assert!(failures[0].stack_trace.is_some());
}

#[test]
fn parse_gradle_multiple_failures() {
    let output = r#"
com.example.Test > methodA FAILED
    java.lang.RuntimeException: boom
com.example.Test > methodB FAILED
    java.lang.NullPointerException
        at com.example.Test.methodB(Test.java:10)
"#;
    let failures = parse_gradle_failures(output);
    assert_eq!(failures.len(), 2);
    assert_eq!(failures[0].method_name, "methodA");
    assert_eq!(failures[1].method_name, "methodB");
}

#[test]
fn parse_maven_error_failures_test() {
    let output = r#"
[ERROR] Failures:
[ERROR]   AppTest.testDivide:42 expected:<4> but was:<3>
[ERROR]
"#;
    let failures = parse_maven_error_failures(output);
    assert_eq!(failures.len(), 1);
    assert_eq!(failures[0].method_name, "testDivide");
}

#[test]
fn strip_maven_prefix_test() {
    assert_eq!(strip_maven_prefix("[INFO] Hello"), "Hello");
    assert_eq!(strip_maven_prefix("[ERROR] Fail"), "Fail");
    assert_eq!(strip_maven_prefix("[WARNING] Warn"), "Warn");
    assert_eq!(strip_maven_prefix("No prefix"), "No prefix");
}

#[test]
fn java_enrich_with_errors_test() {
    let mut suites = vec![TestSuite {
        name: "com.example.AppTest".into(),
        tests: vec![
            TestCase {
                name: "testAdd".into(),
                status: TestStatus::Passed,
                duration: Duration::from_millis(0),
                error: None,
            },
            TestCase {
                name: "testDivide".into(),
                status: TestStatus::Failed,
                duration: Duration::from_millis(0),
                error: None,
            },
        ],
    }];
    let failures = vec![JavaTestFailure {
        test_name: "com.example.AppTest.testDivide".into(),
        method_name: "testDivide".into(),
        message: "expected 4 got 3".into(),
        stack_trace: Some("at com.example.AppTest.testDivide(AppTest.java:42)".into()),
    }];
    enrich_with_errors(&mut suites, &failures);
    assert!(suites[0].tests[0].error.is_none());
    let err = suites[0].tests[1].error.as_ref().unwrap();
    assert_eq!(err.message, "expected 4 got 3");
    assert!(err.location.is_some());
}

#[test]
fn truncate_java_message_test() {
    assert_eq!(truncate_java_message("short", 100), "short");
    let long = "x".repeat(600);
    let truncated = truncate_java_message(&long, 500);
    assert!(truncated.ends_with("..."));
    assert_eq!(truncated.len(), 503);
}

#[test]
fn parse_surefire_xml_basic() {
    let xml = r#"<?xml version="1.0" encoding="UTF-8"?>
<testsuite name="com.example.MathTest" tests="3" failures="1" errors="0" skipped="0" time="0.05">
  <testcase name="testAdd" classname="com.example.MathTest" time="0.01"/>
  <testcase name="testSub" classname="com.example.MathTest" time="0.02"/>
  <testcase name="testDiv" classname="com.example.MathTest" time="0.02">
    <failure message="expected:&lt;4&gt; but was:&lt;3&gt;" type="AssertionError">
      stack trace here
    </failure>
  </testcase>
</testsuite>"#;
    let suite = parse_single_surefire_xml(xml).unwrap();
    assert_eq!(suite.name, "com.example.MathTest");
    assert_eq!(suite.tests.len(), 3);
    assert_eq!(suite.tests[0].status, TestStatus::Passed);
    assert_eq!(suite.tests[0].name, "testAdd");
    assert_eq!(suite.tests[2].status, TestStatus::Failed);
    let err = suite.tests[2].error.as_ref().unwrap();
    assert!(err.message.contains("expected:<4>"));
}

#[test]
fn parse_surefire_xml_with_skipped() {
    let xml = r#"<testsuite name="Test" tests="2" failures="0" errors="0" skipped="1" time="0.01">
  <testcase name="testA" classname="Test" time="0.005"/>
  <testcase name="testB" classname="Test" time="0.005">
    <skipped/>
  </testcase>
</testsuite>"#;
    let suite = parse_single_surefire_xml(xml).unwrap();
    assert_eq!(suite.tests.len(), 2);
    assert_eq!(suite.tests[0].status, TestStatus::Passed);
    assert_eq!(suite.tests[1].status, TestStatus::Skipped);
}

#[test]
fn parse_surefire_xml_with_error() {
    let xml = r#"<testsuite name="Test" tests="1" failures="0" errors="1" time="0.01">
  <testcase name="testBroken" classname="Test" time="0.001">
    <error message="NullPointerException" type="java.lang.NullPointerException">
      at Test.testBroken(Test.java:5)
    </error>
  </testcase>
</testsuite>"#;
    let suite = parse_single_surefire_xml(xml).unwrap();
    assert_eq!(suite.tests[0].status, TestStatus::Failed);
    assert!(
        suite.tests[0]
            .error
            .as_ref()
            .unwrap()
            .message
            .contains("NullPointerException")
    );
}

#[test]
fn parse_surefire_xml_empty() {
    assert!(parse_single_surefire_xml("<testsuite name=\"Test\"></testsuite>").is_none());
}

#[test]
fn extract_xml_attr_test() {
    assert_eq!(
        extract_xml_attr(r#"<tag name="value">"#, "tag", "name"),
        Some("value".into())
    );
    assert_eq!(
        extract_xml_attr(r#"<tag foo="bar" baz="qux">"#, "tag", "baz"),
        Some("qux".into())
    );
    assert!(extract_xml_attr(r#"<tag>"#, "tag", "name").is_none());
}

#[test]
fn xml_unescape_test() {
    assert_eq!(
        xml_unescape("expected:&lt;4&gt; but was:&lt;3&gt;"),
        "expected:<4> but was:<3>"
    );
    assert_eq!(xml_unescape("&amp;&quot;&apos;"), "&\"'");
}

#[test]
fn parse_java_failures_integration() {
    let output = r#"
[INFO] -------------------------------------------------------
[INFO]  T E S T S
[INFO] -------------------------------------------------------
[INFO] Running com.example.AppTest
[ERROR] Tests run: 3, Failures: 1, Errors: 0, Skipped: 0

Failed tests:
  testDivide(com.example.AppTest): expected:<4> but was:<3>

[INFO] BUILD FAILURE
"#;
    let adapter = JavaAdapter::new();
    let result = adapter.parse_output(output, "", 1);
    assert_eq!(result.total_tests(), 3);
    assert_eq!(result.total_failed(), 1);
}

#[test]
fn java_gradle_suites_sorted_by_name() {
    let stdout = "com.z.ZTest > a PASSED\ncom.a.ATest > b FAILED\ncom.z.ZTest > c SKIPPED\n";
    let result = JavaAdapter::new().parse_output(stdout, "", 1);
    assert_eq!(result.suites.len(), 2);
    assert_eq!(result.suites[0].name, "com.a.ATest");
    assert_eq!(result.suites[1].name, "com.z.ZTest");
    assert_eq!(result.suites[1].tests[1].name, "c");
    assert_eq!(result.suites[1].tests[1].status, TestStatus::Skipped);
}

#[test]
fn java_maven_repeated_summary_dropped() {
    let stdout = "[INFO] Running com.A\n[INFO] Tests run: 2, Failures: 0, Errors: 0, Skipped: 0\n[INFO] Tests run: 2, Failures: 0, Errors: 0, Skipped: 0\n";
    let result = JavaAdapter::new().parse_output(stdout, "", 0);
    assert_eq!(result.suites.len(), 1);
    assert_eq!(result.total_tests(), 2);
}

#[test]
fn java_gradle_summary_fallback() {
    let result = JavaAdapter::new().parse_output("5 tests completed, 2 failed\n", "", 1);
    assert_eq!(result.total_passed(), 3);
    assert_eq!(result.total_failed(), 2);
}

#[test]
fn java_single_failure_explains_synthetic_case() {
    let failures = vec![JavaTestFailure {
        test_name: "x".into(),
        method_name: "y".into(),
        message: "m".into(),
        stack_trace: None,
    }];
    assert!(find_matching_java_failure("failed_test_1", "S", &failures).is_some());
    assert!(find_matching_java_failure("other", "S", &failures).is_none());
}

#[test]
fn java_failures_prefer_maven_section() {
    let output = "Failed tests:\n  t(C): boom\n\nA > t FAILED\n    err\n";
    let fs = parse_java_failures(output);
    assert_eq!(fs.len(), 1);
    assert_eq!(fs[0].message, "boom");
}

#[test]
fn java_xml_unescape_in_order() {
    assert_eq!(xml_unescape("&amp;lt;"), "&lt;");
}

#[test]
fn java_gradle_stack_keeps_five_lines() {
    let output = "A > t FAILED\n    boom\n    at 1\n    at 2\n    at 3\n    at 4\n    at 5\n    at 6\n";
    let fs = parse_gradle_failures(output);
    assert_eq!(fs[0].stack_trace.as_deref(), Some("at 1\nat 2\nat 3\nat 4\nat 5"));
    assert_eq!(fs[0].test_name, "A.t");
}

#[test]
fn java_surefire_case_durations() {
    let xml = "<testsuite name=\"S\"><testcase name=\"a\" time=\"1.5\"/></testsuite>";
    let suite = parse_single_surefire_xml(xml).unwrap();
    assert_eq!(suite.tests[0].duration, Duration::from_millis(1500));
}
