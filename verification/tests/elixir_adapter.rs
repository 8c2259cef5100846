use testx::adapters::elixir::{
    enrich_exunit_errors, parse_exunit_duration, parse_exunit_failure_header, parse_exunit_failures,
    parse_exunit_trace, parse_trace_test_line, ElixirAdapter, ExUnitFailure,
};
use testx::adapters::{TestCase, TestStatus, TestSuite};
use testx::duration::Duration;


#[test]
fn parse_exunit_with_failures() {
    let stdout = r#"
Compiling 1 file (.ex)
..

  1) test adds two numbers (MyApp.CalculatorTest)
     test/calculator_test.exs:5
     Assertion with == failed

Finished in 0.03 seconds (0.02s async, 0.01s sync)
3 tests, 1 failure
"#;
    let adapter = ElixirAdapter::new();
    let result = adapter.parse_output(stdout, "", 1);

    assert_eq!(result.total_tests(), 3);
    assert_eq!(result.total_passed(), 2);
    assert_eq!(result.total_failed(), 1);
}

#[test]
fn parse_exunit_all_pass() {
    let stdout = "Finished in 0.01 seconds\n5 tests, 0 failures\n";
    let adapter = ElixirAdapter::new();
    let result = adapter.parse_output(stdout, "", 0);

    assert_eq!(result.total_tests(), 5);
    assert_eq!(result.total_passed(), 5);
    assert!(result.is_success());
}

#[test]
fn parse_exunit_with_excluded() {
    let stdout = "3 tests, 0 failures, 1 excluded\n";
    let adapter = ElixirAdapter::new();
    let result = adapter.parse_output(stdout, "", 0);

    assert_eq!(result.total_tests(), 3);
    assert_eq!(result.total_passed(), 2);
    assert_eq!(result.total_skipped(), 1);
}

#[test]
fn parse_exunit_with_doctests() {
    let stdout = "3 doctests, 5 tests, 0 failures\n";
    let adapter = ElixirAdapter::new();
    let result = adapter.parse_output(stdout, "", 0);

    assert_eq!(result.total_tests(), 8);
    assert_eq!(result.total_passed(), 8);
}

#[test]
fn parse_exunit_empty_output() {
    let adapter = ElixirAdapter::new();
    let result = adapter.parse_output("", "", 0);

    assert_eq!(result.total_tests(), 1);
    assert!(result.is_success());
}

#[test]
fn parse_exunit_duration_test() {
    assert_eq!(
        parse_exunit_duration("Finished in 0.03 seconds (0.02s async, 0.01s sync)"),
        Some(Duration::from_millis(30))
    );
}

#[test]
fn parse_exunit_trace_basic() {
    let output = r#"
MyApp.CalculatorTest [test/calculator_test.exs]
  * test greets the world (0.00ms) [L#4]
  * test adds two numbers (0.01ms) [L#8]
  * test handles nil input (1.2ms) [L#12]

Finished in 0.02 seconds
3 tests, 0 failures
"#;
    let suites = parse_exunit_trace(output);
    assert!(!suites.is_empty());

    let suite = &suites[0];
    assert_eq!(suite.tests.len(), 3);
    assert_eq!(suite.tests[0].name, "greets the world");
    assert_eq!(suite.tests[1].name, "adds two numbers");
}

#[test]
fn parse_exunit_trace_with_excluded() {
    let output = "  * test slow test (excluded) [L#20]\n  * test fast test (0.01ms) [L#5]\n";
    let suites = parse_exunit_trace(output);
    let all_tests: Vec<_> = suites.iter().flat_map(|s| &s.tests).collect();

    let excluded: Vec<_> = all_tests
        .iter()
        .filter(|t| t.status == TestStatus::Skipped)
        .collect();
    assert_eq!(excluded.len(), 1);
}

#[test]
fn parse_trace_test_line_with_duration() {
    let (name, dur, status) = parse_trace_test_line("greets the world (0.50ms) [L#4]");
    assert_eq!(name, "greets the world");
    assert_eq!(status, TestStatus::Passed);
    assert!(dur.as_micros() >= 490);
}

#[test]
fn parse_trace_test_line_excluded() {
    let (name, _dur, status) = parse_trace_test_line("slow test (excluded) [L#20]");
    assert_eq!(name, "slow test");
    assert_eq!(status, TestStatus::Skipped);
}

#[test]
fn parse_exunit_trace_doctest() {
    let output = "  * doctest MyApp.Calculator.add/2 (1) (0.01ms) [L#3]\n";
    let suites = parse_exunit_trace(output);
    let all_tests: Vec<_> = suites.iter().flat_map(|s| &s.tests).collect();
    assert_eq!(all_tests.len(), 1);
    assert!(all_tests[0].name.starts_with("doctest"));
}

#[test]
fn parse_exunit_failure_blocks() {
    let output = r#"
  1) test adds two numbers (MyApp.CalculatorTest)
     test/calculator_test.exs:5
     Assertion with == failed
     code:  assert 1 + 1 == 3
     left:  2
     right: 3

  2) test subtracts (MyApp.CalculatorTest)
     test/calculator_test.exs:10
     Assertion with == failed
     left:  5
     right: 3

Finished in 0.03 seconds
"#;
    let failures = parse_exunit_failures(output);
    assert_eq!(failures.len(), 2);

    assert_eq!(failures[0].name, "adds two numbers");
    assert_eq!(failures[0].module, "MyApp.CalculatorTest");
    assert!(failures[0].message.contains("Assertion with == failed"));
    assert_eq!(
        failures[0].location.as_ref().unwrap(),
        "test/calculator_test.exs:5"
    );

    assert_eq!(failures[1].name, "subtracts");
}

#[test]
fn parse_exunit_failure_header_parsing() {
    let result = parse_exunit_failure_header("1) test adds numbers (MyApp.CalcTest)");
    assert!(result.is_some());
    let (name, module) = result.unwrap();
    assert_eq!(name, "adds numbers");
    assert_eq!(module, "MyApp.CalcTest");
}

#[test]
fn parse_exunit_failure_header_no_match() {
    assert!(parse_exunit_failure_header("not a failure header").is_none());
    assert!(parse_exunit_failure_header("Finished in 0.03 seconds").is_none());
}

#[test]
fn parse_exunit_failures_empty() {
    let output = "Finished in 0.01 seconds\n5 tests, 0 failures\n";
    let failures = parse_exunit_failures(output);
    assert!(failures.is_empty());
}

#[test]
fn full_exunit_trace_with_failures() {
    let stdout = r#"
MyApp.CalculatorTest [test/calculator_test.exs]
  * test adds two numbers (0.01ms) [L#4]
  * test subtracts (0.01ms) [L#8]

  1) test adds two numbers (MyApp.CalculatorTest)
     test/calculator_test.exs:5
     Assertion with == failed
     left:  2
     right: 3

Finished in 0.03 seconds (0.02s async, 0.01s sync)
2 tests, 1 failure
"#;
    let adapter = ElixirAdapter::new();
    let result = adapter.parse_output(stdout, "", 1);

    assert_eq!(result.total_failed(), 1);
}

#[test]
fn enrich_exunit_error_details() {
    let suites = vec![TestSuite {
        name: "tests".into(),
        tests: vec![TestCase {
            name: "failed_test_1".into(),
            status: TestStatus::Failed,
            duration: Duration::from_millis(0),
            error: None,
        }],
    }];

    let failures = vec![ExUnitFailure {
        name: "failed_test_1".to_string(),
        module: "MyApp.Test".to_string(),
        message: "Assertion failed".to_string(),
        location: Some("test/my_test.exs:5".to_string()),
    }];

    let enriched = enrich_exunit_errors(suites, &failures);
    let test = &enriched[0].tests[0];
    assert!(test.error.is_some());
    assert!(
        test.error
            .as_ref()
            .unwrap()
            .message
            .contains("Assertion failed")
    );
}

#[test]
fn parse_exunit_trace_multiple_modules() {
    let output = r#"
MyApp.UserTest [test/user_test.exs]
  * test create user (0.01ms) [L#4]

MyApp.AdminTest [test/admin_test.exs]
  * test admin access (0.02ms) [L#4]
"#;
    let suites = parse_exunit_trace(output);
    assert_eq!(suites.len(), 2);
}

#[test]
fn exunit_trace_groups_sorted_by_module() {
    let output = "Zeta.Test [test/zeta_test.exs]\n  * test z one (0.01ms) [L#1]\nAlpha.Test [test/alpha_test.exs]\n  * test a one (2ms) [L#1]\nZeta.Test [test/zeta_test.exs]\n  * test z two (0.01ms) [L#2]\n";
    let suites = parse_exunit_trace(output);
    let names: Vec<&str> = suites.iter().map(|s| s.name.as_str()).collect();
    assert_eq!(names, vec!["Alpha.Test", "Zeta.Test"]);
    assert_eq!(suites[1].tests.len(), 2);
    assert_eq!(suites[1].tests[1].name, "z two");
    assert_eq!(suites[0].tests[0].duration, Duration::from_millis(2));
}

#[test]
fn exunit_failure_message_and_location_reach_case() {
    let stdout = "Calc.Test [test/calc_test.exs]\n  * test adds (0.01ms) [L#4]\n\n  1) test adds (Calc.Test)\n     test/calc_test.exs:5\n     Assertion with == failed\n     left:  2\n\nFinished in 0.5 seconds\n";
    let result = ElixirAdapter::new().parse_output(stdout, "", 1);
    let case = &result.suites[0].tests[0];
    assert_eq!(case.status, TestStatus::Failed);
    let err = case.error.as_ref().unwrap();
    assert_eq!(err.message, "Assertion with == failed\nleft:  2");
    assert_eq!(err.location.as_deref(), Some("test/calc_test.exs:5"));
    assert_eq!(result.duration, Duration::from_millis(500));
}

#[test]
fn exunit_long_message_is_cut() {
    let long = "x".repeat(600);
    let failures = vec![ExUnitFailure {
        name: "t".to_string(),
        module: String::new(),
        message: long,
        location: None,
    }];
    let suites = vec![TestSuite {
        name: "tests".into(),
        tests: vec![TestCase { name: "t".into(), status: TestStatus::Passed, duration: Duration::zero(), error: None }],
    }];
    let out = enrich_exunit_errors(suites, &failures);
    let msg = &out[0].tests[0].error.as_ref().unwrap().message;
    assert_eq!(msg.len(), 503);
    assert!(msg.ends_with("..."));
}

#[test]
fn exunit_summary_names_excluded_cases() {
    let result = ElixirAdapter::new().parse_output("4 tests, 1 failure, 1 excluded\n", "", 1);
    let names: Vec<&str> = result.suites[0].tests.iter().map(|t| t.name.as_str()).collect();
    assert_eq!(names, vec!["test_1", "test_2", "failed_test_1", "excluded_test_1"]);
}
