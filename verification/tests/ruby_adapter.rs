use testx::adapters::ruby::{
    enrich_with_errors, is_rspec_test_line, parse_minitest_failures, parse_minitest_verbose,
    parse_minitest_verbose_result, parse_rspec_failures, parse_rspec_inline_duration,
    parse_rspec_verbose, parse_ruby_duration, strip_failure_number, truncate_message,
    MinitestFailure, RspecFailure, RubyAdapter,
};
use testx::adapters::{TestCase, TestStatus, TestSuite};
use testx::duration::Duration;


#[test]
fn parse_rspec_output_test() {
    let stdout = r#"
..F.*

Failures:

  1) Calculator adds two numbers
     Failure/Error: expect(sum).to eq(5)
       expected: 5
            got: 4

Finished in 0.012 seconds (files took 0.1 seconds to load)
5 examples, 1 failure, 1 pending
"#;
    let adapter = RubyAdapter::new();
    let result = adapter.parse_output(stdout, "", 1);

    assert_eq!(result.total_tests(), 5);
    assert_eq!(result.total_passed(), 3);
    assert_eq!(result.total_failed(), 1);
    assert_eq!(result.total_skipped(), 1);
}

#[test]
fn parse_rspec_all_pass() {
    let stdout = "Finished in 0.005 seconds\n3 examples, 0 failures\n";
    let adapter = RubyAdapter::new();
    let result = adapter.parse_output(stdout, "", 0);

    assert_eq!(result.total_tests(), 3);
    assert_eq!(result.total_passed(), 3);
    assert!(result.is_success());
}

#[test]
fn parse_minitest_output_test() {
    let stdout = r#"
Run options: --seed 12345

# Running:

..F.

Finished in 0.001234s, 3000.0 runs/s, 3000.0 assertions/s.

4 runs, 4 assertions, 1 failures, 0 errors, 0 skips
"#;
    let adapter = RubyAdapter::new();
    let result = adapter.parse_output(stdout, "", 1);

    assert_eq!(result.total_tests(), 4);
    assert_eq!(result.total_passed(), 3);
    assert_eq!(result.total_failed(), 1);
}

#[test]
fn parse_minitest_all_pass() {
    let stdout = "4 runs, 4 assertions, 0 failures, 0 errors, 0 skips\n";
    let adapter = RubyAdapter::new();
    let result = adapter.parse_output(stdout, "", 0);

    assert_eq!(result.total_tests(), 4);
    assert_eq!(result.total_passed(), 4);
    assert!(result.is_success());
}

#[test]
fn parse_ruby_empty_output() {
    let adapter = RubyAdapter::new();
    let result = adapter.parse_output("", "", 0);

    assert_eq!(result.total_tests(), 1);
    assert!(result.is_success());
}

#[test]
fn parse_rspec_duration_test() {
    assert_eq!(
        parse_ruby_duration("Finished in 0.012 seconds (files took 0.1 seconds to load)"),
        Some(Duration::from_millis(12))
    );
}

#[test]
fn parse_rspec_verbose_documentation_format() {
    let output = r#"
User authentication
  with valid credentials
    allows login (0.02s)
    redirects to dashboard (0.01s)
  with invalid credentials
    shows error message (0.01s)
    increments attempt counter (FAILED - 1)

Finished in 0.04 seconds
4 examples, 1 failure
"#;
    let suites = parse_rspec_verbose(output);
    assert!(!suites.is_empty());

    let all_tests: Vec<_> = suites.iter().flat_map(|s| &s.tests).collect();
    assert!(all_tests.len() >= 4);

    let failed: Vec<_> = all_tests
        .iter()
        .filter(|t| t.status == TestStatus::Failed)
        .collect();
    assert_eq!(failed.len(), 1);
    assert!(failed[0].name.contains("increments attempt counter"));
}

#[test]
fn parse_rspec_verbose_with_pending() {
    let output = r#"
Calculator
  adds numbers (0.01s)
  subtracts (PENDING: Not yet implemented)
  multiplies (0.00s)
"#;
    let suites = parse_rspec_verbose(output);
    let all_tests: Vec<_> = suites.iter().flat_map(|s| &s.tests).collect();

    let pending: Vec<_> = all_tests
        .iter()
        .filter(|t| t.status == TestStatus::Skipped)
        .collect();
    assert_eq!(pending.len(), 1);
}

#[test]
fn parse_rspec_inline_duration_parsing() {
    assert_eq!(
        parse_rspec_inline_duration("0.02s)"),
        Duration::from_millis(20)
    );
    assert_eq!(
        parse_rspec_inline_duration("1.5 seconds)"),
        Duration::from_millis(1500)
    );
}

#[test]
fn is_rspec_test_line_detection() {
    assert!(is_rspec_test_line("allows login (0.02s)"));
    assert!(is_rspec_test_line("fails (FAILED - 1)"));
    assert!(is_rspec_test_line("is pending (PENDING: reason)"));
    assert!(!is_rspec_test_line("User authentication"));
    assert!(!is_rspec_test_line("with valid credentials"));
}

#[test]
fn parse_minitest_verbose_output() {
    let output = r#"
TestUser#test_name_returns_full_name = 0.01 s = .
TestUser#test_email_validation = 0.00 s = F
TestUser#test_age_is_positive = 0.00 s = S
TestCalc#test_add = 0.01 s = .
TestCalc#test_divide = 0.00 s = E
"#;
    let suites = parse_minitest_verbose(output);
    assert_eq!(suites.len(), 2);

    let user_suite = suites.iter().find(|s| s.name == "TestUser").unwrap();
    assert_eq!(user_suite.tests.len(), 3);
    assert_eq!(user_suite.tests[0].status, TestStatus::Passed);
    assert_eq!(user_suite.tests[1].status, TestStatus::Failed);
    assert_eq!(user_suite.tests[2].status, TestStatus::Skipped);

    let calc_suite = suites.iter().find(|s| s.name == "TestCalc").unwrap();
    assert_eq!(calc_suite.tests.len(), 2);
}

#[test]
fn parse_minitest_verbose_result_dot() {
    let (dur, status) = parse_minitest_verbose_result("0.01 s = .");
    assert_eq!(status, TestStatus::Passed);
    assert!(dur.as_millis() >= 10);
}

#[test]
fn parse_minitest_verbose_result_fail() {
    let (_, status) = parse_minitest_verbose_result("0.00 s = F");
    assert_eq!(status, TestStatus::Failed);
}

#[test]
fn parse_minitest_verbose_result_error() {
    let (_, status) = parse_minitest_verbose_result("0.00 s = E");
    assert_eq!(status, TestStatus::Failed);
}

#[test]
fn parse_minitest_verbose_result_skip() {
    let (_, status) = parse_minitest_verbose_result("0.00 s = S");
    assert_eq!(status, TestStatus::Skipped);
}

#[test]
fn parse_rspec_failure_blocks() {
    let output = r#"
Failures:

  1) Calculator adds two numbers
     Failure/Error: expect(sum).to eq(5)

       expected: 5
            got: 4

     # ./spec/calculator_spec.rb:25:in `block (3 levels)'

  2) User validates email
     Failure/Error: expect(user).to be_valid

       expected valid? to return true, got false

     # ./spec/user_spec.rb:12:in `block (2 levels)'

Finished in 0.05 seconds
"#;
    let failures = parse_rspec_failures(output);
    assert_eq!(failures.len(), 2);

    assert_eq!(failures[0].name, "Calculator adds two numbers");
    assert!(failures[0].message.contains("expected: 5"));
    assert!(
        failures[0]
            .location
            .as_ref()
            .unwrap()
            .contains("calculator_spec.rb:25")
    );

    assert_eq!(failures[1].name, "User validates email");
    assert!(failures[1].message.contains("expected valid?"));
}

#[test]
fn parse_rspec_failures_empty() {
    let output = "Finished in 0.01 seconds\n3 examples, 0 failures\n";
    let failures = parse_rspec_failures(output);
    assert!(failures.is_empty());
}

#[test]
fn parse_minitest_failure_blocks() {
    let output = r#"
  1) Failure:
TestUser#test_email_validation [test/user_test.rb:15]:
Expected: true
  Actual: false

  2) Error:
TestCalc#test_divide [test/calc_test.rb:8]:
ZeroDivisionError: divided by 0
"#;
    let failures = parse_minitest_failures(output);
    assert_eq!(failures.len(), 2);

    assert_eq!(failures[0].name, "test_email_validation");
    assert!(failures[0].message.contains("Expected: true"));
    assert_eq!(
        failures[0].location.as_ref().unwrap(),
        "test/user_test.rb:15"
    );

    assert_eq!(failures[1].name, "test_divide");
    assert!(failures[1].message.contains("ZeroDivisionError"));
}

#[test]
fn parse_minitest_failures_empty() {
    let output = "4 runs, 4 assertions, 0 failures, 0 errors, 0 skips\n";
    let failures = parse_minitest_failures(output);
    assert!(failures.is_empty());
}

#[test]
fn enrich_tests_with_rspec_errors() {
    let suites = vec![TestSuite {
        name: "spec".into(),
        tests: vec![
            TestCase {
                name: "adds two numbers".into(),
                status: TestStatus::Failed,
                duration: Duration::from_millis(0),
                error: None,
            },
            TestCase {
                name: "subtracts".into(),
                status: TestStatus::Passed,
                duration: Duration::from_millis(10),
                error: None,
            },
        ],
    }];

    let rspec_failures = vec![RspecFailure {
        name: "Calculator adds two numbers".to_string(),
        message: "expected: 5\n     got: 4".to_string(),
        location: Some("./spec/calc_spec.rb:10".to_string()),
    }];

    let enriched = enrich_with_errors(suites, &rspec_failures, &[]);
    let failed = &enriched[0].tests[0];
    assert!(failed.error.is_some());
    let err = failed.error.as_ref().unwrap();
    assert!(err.message.contains("expected: 5"));
    assert!(err.location.as_ref().unwrap().contains("calc_spec.rb"));
}

#[test]
fn enrich_tests_with_minitest_errors() {
    let suites = vec![TestSuite {
        name: "tests".into(),
        tests: vec![TestCase {
            name: "test_email_validation".into(),
            status: TestStatus::Failed,
            duration: Duration::from_millis(0),
            error: None,
        }],
    }];

    let minitest_failures = vec![MinitestFailure {
        name: "test_email_validation".to_string(),
        message: "Expected: true\n  Actual: false".to_string(),
        location: Some("test/user_test.rb:15".to_string()),
    }];

    let enriched = enrich_with_errors(suites, &[], &minitest_failures);
    let failed = &enriched[0].tests[0];
    assert!(failed.error.is_some());
}

#[test]
fn truncate_message_short() {
    assert_eq!(truncate_message("hello", 10), "hello");
}

#[test]
fn truncate_message_long() {
    let long = "a".repeat(600);
    let result = truncate_message(&long, 500);
    assert_eq!(result.len(), 503); // 500 + "..."
    assert!(result.ends_with("..."));
}

#[test]
fn strip_failure_number_valid() {
    assert_eq!(
        strip_failure_number("1) Calculator adds two numbers").as_deref(),
        Some("Calculator adds two numbers")
    );
}

#[test]
fn strip_failure_number_double_digit() {
    assert_eq!(
        strip_failure_number("12) Some test name").as_deref(),
        Some("Some test name")
    );
}

#[test]
fn strip_failure_number_invalid() {
    assert_eq!(strip_failure_number("not a number"), None);
}

#[test]
fn full_rspec_verbose_with_failures() {
    let stdout = r#"
User authentication
  with valid credentials
    allows login (0.02s)
  with invalid credentials
    shows error message (FAILED - 1)

Failures:

  1) User authentication with invalid credentials shows error message
     Failure/Error: expect(page).to have_content("Error")

       expected to find text "Error" in "Welcome"

     # ./spec/auth_spec.rb:25:in `block (3 levels)'

Finished in 0.03 seconds (files took 0.1 seconds to load)
2 examples, 1 failure
"#;
    let adapter = RubyAdapter::new();
    let result = adapter.parse_output(stdout, "", 1);

    // Should have parsed verbose tests
    let all_tests: Vec<_> = result.suites.iter().flat_map(|s| &s.tests).collect();
    assert!(all_tests.len() >= 2);

    // Failed test should have error details
    let failed: Vec<_> = all_tests
        .iter()
        .filter(|t| t.status == TestStatus::Failed)
        .collect();
    assert!(!failed.is_empty());
}

#[test]
fn full_minitest_verbose_with_failures() {
    let stdout = r#"
TestUser#test_name_returns_full_name = 0.01 s = .
TestUser#test_email_validation = 0.00 s = F

  1) Failure:
TestUser#test_email_validation [test/user_test.rb:15]:
Expected: true
  Actual: false

4 runs, 4 assertions, 1 failures, 0 errors, 0 skips
"#;
    let adapter = RubyAdapter::new();
    let result = adapter.parse_output(stdout, "", 1);

    let all_tests: Vec<_> = result.suites.iter().flat_map(|s| &s.tests).collect();
    assert!(!all_tests.is_empty());
}

#[test]
fn ruby_enrich_prefers_rspec_block() {
    let suites = vec![TestSuite {
        name: "spec".into(),
        tests: vec![TestCase {
            name: "adds".into(),
            status: TestStatus::Failed,
            duration: Duration::from_millis(0),
            error: None,
        }],
    }];
    let rspec = vec![RspecFailure {
        name: "Calc adds".to_string(),
        message: "from rspec".to_string(),
        location: None,
    }];
    let minitest = vec![MinitestFailure {
        name: "adds".to_string(),
        message: "from minitest".to_string(),
        location: Some("t.rb:1".to_string()),
    }];
    let enriched = enrich_with_errors(suites, &rspec, &minitest);
    let err = enriched[0].tests[0].error.as_ref().unwrap();
    assert_eq!(err.message, "from rspec");
    assert_eq!(err.location, None);
}

#[test]
fn ruby_enrich_leaves_passed_cases() {
    let suites = vec![TestSuite {
        name: "spec".into(),
        tests: vec![TestCase {
            name: "adds".into(),
            status: TestStatus::Passed,
            duration: Duration::from_millis(3),
            error: None,
        }],
    }];
    let minitest = vec![MinitestFailure {
        name: "adds".to_string(),
        message: "boom".to_string(),
        location: None,
    }];
    let enriched = enrich_with_errors(suites, &[], &minitest);
    assert!(enriched[0].tests[0].error.is_none());
}

#[test]
fn ruby_truncate_message_exact_bound() {
    assert_eq!(truncate_message("abcde", 5), "abcde");
    assert_eq!(truncate_message("abcdef", 5), "abcde...");
}

#[test]
fn ruby_duration_minitest_form() {
    assert_eq!(
        parse_ruby_duration("Finished in 1.5s, 3000.0 runs/s"),
        Some(Duration::from_millis(1500))
    );
    assert_eq!(parse_ruby_duration("no timing here"), None);
}

#[test]
fn ruby_strip_failure_number_without_paren() {
    assert_eq!(strip_failure_number("12 Some test"), None);
}

#[test]
fn ruby_minitest_summary_with_errors_and_skips() {
    let stdout = "5 runs, 5 assertions, 1 failures, 1 errors, 1 skips\n";
    let result = RubyAdapter::new().parse_output(stdout, "", 1);
    assert_eq!(result.total_tests(), 5);
    assert_eq!(result.total_passed(), 2);
    assert_eq!(result.total_failed(), 2);
    assert_eq!(result.total_skipped(), 1);
}

#[test]
fn ruby_readable_accepts_ordinary_output() {
    let a = RubyAdapter::new();
    let out = "Finished in 0.01 seconds\n3 examples, 1 failure\n";
    assert!(a.readable(out, "", 1));
    let r = a.parse_output(out, "", 1);
    assert_eq!(r.total_tests(), 3);
}

#[test]
fn ruby_readable_refuses_reversed_brackets() {
    let a = RubyAdapter::new();
    let out = "  1) Failure:\nFoo#test_x ] at [x.rb:3:\nboom\n\n1 runs, 1 assertions, 1 failures, 0 errors, 0 skips\n";
    assert!(!a.readable(out, "", 1));
}
