use testx::adapters::dotnet::{
    enrich_with_errors, extract_dotnet_location, extract_trx_attr, extract_trx_error_message,
    extract_trx_stack_trace, parse_dotnet_failures, parse_dotnet_test_duration, parse_trx_content,
    parse_trx_duration, DotnetAdapter, DotnetFailure,
};
use testx::adapters::util::truncate;
use testx::adapters::{TestCase, TestStatus, TestSuite};
use testx::duration::Duration;


#[test]
fn parse_dotnet_detailed_output() {
    let stdout = r#"
Starting test execution, please wait...
A total of 1 test files matched the specified pattern.

  Passed test_add [2 ms]
  Passed test_subtract [< 1 ms]
  Failed test_divide [3 ms]

Test Run Failed.
Total tests: 3
     Passed: 2
     Failed: 1
    Skipped: 0
"#;
    let adapter = DotnetAdapter::new();
    let result = adapter.parse_output(stdout, "", 1);

    assert_eq!(result.total_tests(), 3);
    assert_eq!(result.total_passed(), 2);
    assert_eq!(result.total_failed(), 1);
}

#[test]
fn parse_dotnet_all_pass() {
    let stdout = r#"
  Passed test_add [2 ms]
  Passed test_subtract [1 ms]

Test Run Successful.
Total tests: 2
     Passed: 2
     Failed: 0
    Skipped: 0
"#;
    let adapter = DotnetAdapter::new();
    let result = adapter.parse_output(stdout, "", 0);

    assert_eq!(result.total_tests(), 2);
    assert_eq!(result.total_passed(), 2);
    assert!(result.is_success());
}

#[test]
fn parse_dotnet_summary_only() {
    let stdout = r#"
Test Run Successful.
Total tests: 5
     Passed: 4
     Failed: 0
    Skipped: 1
"#;
    let adapter = DotnetAdapter::new();
    let result = adapter.parse_output(stdout, "", 0);

    assert_eq!(result.total_tests(), 5);
    assert_eq!(result.total_passed(), 4);
    assert_eq!(result.total_skipped(), 1);
}

#[test]
fn parse_dotnet_empty_output() {
    let adapter = DotnetAdapter::new();
    let result = adapter.parse_output("", "", 0);

    assert_eq!(result.total_tests(), 1);
    assert!(result.is_success());
}

#[test]
fn parse_test_duration_ms() {
    assert_eq!(parse_dotnet_test_duration("2 ms"), Duration::from_millis(2));
}

#[test]
fn parse_test_duration_lt_ms() {
    assert_eq!(
        parse_dotnet_test_duration("< 1 ms"),
        Duration::from_millis(1)
    );
}

#[test]
fn parse_dotnet_failure_blocks() {
    let output = r#"
  Passed test_add [2 ms]
  Failed test_divide [< 1 ms]
  Error Message:
   Assert.Equal() Failure
   Expected: 4
   Actual:   3
  Stack Trace:
   at MyApp.Tests.MathTest.TestDivide() in /tests/MathTest.cs:line 42

Test Run Failed.
Total tests: 2
     Passed: 1
     Failed: 1
"#;
    let failures = parse_dotnet_failures(output);
    assert_eq!(failures.len(), 1);
    assert_eq!(failures[0].test_name, "test_divide");
    assert!(failures[0].message.contains("Assert.Equal"));
    assert!(failures[0].location.is_some());
    assert!(
        failures[0]
            .location
            .as_ref()
            .unwrap()
            .contains("MathTest.cs:line 42")
    );
}

#[test]
fn parse_dotnet_multiple_failures() {
    let output = r#"
  Failed test_a [1 ms]
  Error Message:
   Expected True but got False
  Stack Trace:
   at Tests.A() in /tests/Test.cs:line 10

  Failed test_b [2 ms]
  Error Message:
   Null reference
  Stack Trace:
   at Tests.B() in /tests/Test.cs:line 20

Test Run Failed.
"#;
    let failures = parse_dotnet_failures(output);
    assert_eq!(failures.len(), 2);
    assert_eq!(failures[0].test_name, "test_a");
    assert_eq!(failures[1].test_name, "test_b");
}

#[test]
fn parse_dotnet_failure_no_stack() {
    let output = r#"
  Failed test_x [1 ms]
  Error Message:
   Something went wrong

  Passed test_y [1 ms]
"#;
    let failures = parse_dotnet_failures(output);
    assert_eq!(failures.len(), 1);
    assert!(failures[0].stack_trace.is_none());
}

#[test]
fn extract_dotnet_location_test() {
    assert_eq!(
        extract_dotnet_location(
            "at MyApp.Tests.MathTest.TestDivide() in /tests/MathTest.cs:line 42"
        ),
        Some("/tests/MathTest.cs:line 42".into())
    );
    assert!(extract_dotnet_location("no location here").is_none());
}

#[test]
fn dotnet_enrich_with_errors_test() {
    let mut suites = vec![TestSuite {
        name: "tests".into(),
        tests: vec![
            TestCase {
                name: "test_add".into(),
                status: TestStatus::Passed,
                duration: Duration::from_millis(0),
                error: None,
            },
            TestCase {
                name: "test_divide".into(),
                status: TestStatus::Failed,
                duration: Duration::from_millis(0),
                error: None,
            },
        ],
    }];
    let failures = vec![DotnetFailure {
        test_name: "test_divide".into(),
        message: "Assert.Equal failure".into(),
        stack_trace: Some("at Test.TestDivide() in /tests/Test.cs:line 42".into()),
        location: Some("/tests/Test.cs:line 42".into()),
    }];
    enrich_with_errors(&mut suites, &failures);
    assert!(suites[0].tests[0].error.is_none());
    let err = suites[0].tests[1].error.as_ref().unwrap();
    assert_eq!(err.message, "Assert.Equal failure");
    assert!(err.location.as_ref().unwrap().contains("Test.cs:line 42"));
}

#[test]
fn dotnet_truncate_test() {
    assert_eq!(truncate("short", 100), "short");
    let long = "m".repeat(600);
    let truncated = truncate(&long, 500);
    assert!(truncated.ends_with("..."));
}

#[test]
fn parse_trx_basic() {
    let content = r#"<?xml version="1.0" encoding="UTF-8"?>
<TestRun>
  <Results>
    <UnitTestResult testName="TestAdd" outcome="Passed" duration="00:00:00.001">
    </UnitTestResult>
    <UnitTestResult testName="TestDiv" outcome="Failed" duration="00:00:00.002">
      <Output>
        <ErrorInfo>
          <Message>Assert.Equal failure</Message>
          <StackTrace>at Test.TestDiv() in /tests/Test.cs:line 42</StackTrace>
        </ErrorInfo>
      </Output>
    </UnitTestResult>
  </Results>
</TestRun>"#;
    let suites = parse_trx_content(content);
    assert_eq!(suites.len(), 1);
    assert_eq!(suites[0].tests.len(), 2);
    assert_eq!(suites[0].tests[0].name, "TestAdd");
    assert_eq!(suites[0].tests[0].status, TestStatus::Passed);
    assert_eq!(suites[0].tests[1].name, "TestDiv");
    assert_eq!(suites[0].tests[1].status, TestStatus::Failed);
    assert!(suites[0].tests[1].error.is_some());
}

#[test]
fn parse_trx_skipped() {
    let content = r#"<TestRun><Results>
<UnitTestResult testName="TestSkip" outcome="NotExecuted" duration="00:00:00.000"/>
</Results></TestRun>"#;
    let suites = parse_trx_content(content);
    assert_eq!(suites[0].tests[0].status, TestStatus::Skipped);
}

#[test]
fn parse_trx_duration_test() {
    assert_eq!(
        parse_trx_duration("00:00:01.500"),
        Duration::from_millis(1500)
    );
    assert_eq!(parse_trx_duration("00:01:00.000"), Duration::from_secs(60));
}

#[test]
fn extract_trx_attr_test() {
    assert_eq!(
        extract_trx_attr(
            r#"<UnitTestResult testName="TestAdd" outcome="Passed">"#,
            "testName"
        ),
        Some("TestAdd".into())
    );
    assert_eq!(
        extract_trx_attr(
            r#"<UnitTestResult testName="TestAdd" outcome="Passed">"#,
            "outcome"
        ),
        Some("Passed".into())
    );
}

#[test]
fn extract_trx_error_message_test() {
    let element =
        "<Output><ErrorInfo><Message>Assert.Equal failure</Message></ErrorInfo></Output>";
    assert_eq!(
        extract_trx_error_message(element),
        Some("Assert.Equal failure".into())
    );
}

#[test]
fn extract_trx_stack_trace_test() {
    let element = "<Output><ErrorInfo><StackTrace>at Test.Run() in Test.cs:line 10</StackTrace></ErrorInfo></Output>";
    assert_eq!(
        extract_trx_stack_trace(element),
        Some("at Test.Run() in Test.cs:line 10".into())
    );
}

#[test]
fn parse_dotnet_failure_integration() {
    let stdout = r#"
Starting test execution, please wait...

  Passed test_add [2 ms]
  Failed test_divide [< 1 ms]
  Error Message:
   Assert.Equal() Failure
   Expected: 4
   Actual:   3
  Stack Trace:
   at Tests.Divide() in /tests/MathTest.cs:line 42

Test Run Failed.
Total tests: 2
     Passed: 1
     Failed: 1
"#;
    let adapter = DotnetAdapter::new();
    let result = adapter.parse_output(stdout, "", 1);

    assert_eq!(result.total_tests(), 2);
    assert_eq!(result.total_passed(), 1);
    assert_eq!(result.total_failed(), 1);
    let failed = result.suites[0]
        .tests
        .iter()
        .find(|t| t.status == TestStatus::Failed)
        .unwrap();
    assert!(failed.error.is_some());
    assert!(
        failed
            .error
            .as_ref()
            .unwrap()
            .message
            .contains("Assert.Equal")
    );
}

#[test]
fn dotnet_result_line_durations() {
    let stdout = "  Passed Ns.Cls.TestA [1.5 s]\n  Skipped Ns.Cls.TestB\n  Failed to load prune package data\n";
    let result = DotnetAdapter::new().parse_output(stdout, "", 0);
    assert_eq!(result.total_tests(), 2);
    assert_eq!(result.suites[0].tests[0].name, "Ns.Cls.TestA");
    assert_eq!(result.suites[0].tests[0].duration, Duration::from_millis(1500));
    assert_eq!(result.suites[0].tests[1].status, TestStatus::Skipped);
}

#[test]
fn dotnet_summary_computes_passed() {
    let stdout = "Total tests: 6\n     Failed: 1\n    Skipped: 2\n";
    let result = DotnetAdapter::new().parse_output(stdout, "", 1);
    assert_eq!(result.total_passed(), 3);
    assert_eq!(result.total_failed(), 1);
    assert_eq!(result.total_skipped(), 2);
}

#[test]
fn dotnet_total_time_line() {
    let result = DotnetAdapter::new().parse_output("Total time: 2.5 Seconds\n", "", 0);
    assert_eq!(result.duration, Duration::from_millis(2500));
}

#[test]
fn dotnet_failure_stack_keeps_five_lines() {
    let output = "  Failed Ns.T.A [1 ms]\n  Stack Trace:\n   a1\n   a2\n   a3\n   a4\n   a5\n   a6\n";
    let failures = parse_dotnet_failures(output);
    assert_eq!(failures[0].stack_trace.as_deref(), Some("a1\na2\na3\na4\na5"));
    assert_eq!(failures[0].message, "Test failed");
    assert_eq!(failures[0].location, None);
}

#[test]
fn trx_duration_with_hours_and_negative() {
    assert_eq!(parse_trx_duration("01:00:00"), Duration::from_secs(3600));
    assert_eq!(parse_trx_duration("00:-1:30"), Duration::zero());
    assert_eq!(parse_trx_duration("bad"), Duration::zero());
}

#[test]
fn trx_empty_report_has_no_suites() {
    assert!(parse_trx_content("<TestRun></TestRun>").is_empty());
}
