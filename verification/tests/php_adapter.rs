use testx::adapters::php::{
    camel_case_to_words, enrich_with_errors, extract_testdox_duration, is_php_file_location,
    is_phpunit_failure_header, is_testdox_suite_header, parse_phpunit_duration,
    parse_phpunit_failures, parse_testdox_output, parse_testdox_test_line, testdox_matches,
    PhpAdapter, PhpUnitFailure,
};
use testx::adapters::util::truncate;
use testx::adapters::{TestCase, TestStatus, TestSuite};
use testx::duration::Duration;


#[test]
fn parse_phpunit_failures_summary() {
    let stdout = r#"
PHPUnit 10.5.0 by Sebastian Bergmann and contributors.

..F.S                                                               5 / 5 (100%)

Time: 00:00.012, Memory: 8.00 MB

FAILURES!
Tests: 5, Assertions: 5, Failures: 1, Skipped: 1.
"#;
    let adapter = PhpAdapter::new();
    let result = adapter.parse_output(stdout, "", 1);

    assert_eq!(result.total_tests(), 5);
    assert_eq!(result.total_passed(), 3);
    assert_eq!(result.total_failed(), 1);
    assert_eq!(result.total_skipped(), 1);
}

#[test]
fn parse_phpunit_all_pass() {
    let stdout = r#"
PHPUnit 10.5.0

.....                                                               5 / 5 (100%)

Time: 00:00.005, Memory: 8.00 MB

OK (5 tests, 5 assertions)
"#;
    let adapter = PhpAdapter::new();
    let result = adapter.parse_output(stdout, "", 0);

    assert_eq!(result.total_tests(), 5);
    assert_eq!(result.total_passed(), 5);
    assert!(result.is_success());
}

#[test]
fn parse_phpunit_with_errors() {
    let stdout = "Tests: 3, Assertions: 3, Errors: 1.\n";
    let adapter = PhpAdapter::new();
    let result = adapter.parse_output(stdout, "", 1);

    assert_eq!(result.total_tests(), 3);
    assert_eq!(result.total_failed(), 1);
}

#[test]
fn parse_phpunit_empty_output() {
    let adapter = PhpAdapter::new();
    let result = adapter.parse_output("", "", 0);

    assert_eq!(result.total_tests(), 1);
    assert!(result.is_success());
}

#[test]
fn parse_phpunit_duration_test() {
    assert_eq!(
        parse_phpunit_duration("Time: 00:01.500, Memory: 8.00 MB"),
        Some(Duration::from_millis(1500))
    );
}

#[test]
fn parse_testdox_basic() {
    let output = r#"
Calculator (Tests\Calculator)
 ✔ Can add two numbers
 ✔ Can subtract two numbers
 ✘ Can divide by zero
"#;
    let suites = parse_testdox_output(output);
    assert_eq!(suites.len(), 1);
    assert_eq!(suites[0].name, "Calculator");
    assert_eq!(suites[0].tests.len(), 3);
    assert_eq!(suites[0].tests[0].name, "Can add two numbers");
    assert_eq!(suites[0].tests[0].status, TestStatus::Passed);
    assert_eq!(suites[0].tests[2].status, TestStatus::Failed);
}

#[test]
fn parse_testdox_multiple_suites() {
    let output = r#"
Calculator (Tests\Calculator)
 ✔ Can add
 ✔ Can subtract

StringHelper (Tests\StringHelper)
 ✔ Can uppercase
 ✘ Can reverse
 ⚬ Can truncate
"#;
    let suites = parse_testdox_output(output);
    assert_eq!(suites.len(), 2);
    assert_eq!(suites[0].name, "Calculator");
    assert_eq!(suites[0].tests.len(), 2);
    assert_eq!(suites[1].name, "StringHelper");
    assert_eq!(suites[1].tests.len(), 3);
    assert_eq!(suites[1].tests[2].status, TestStatus::Skipped);
}

#[test]
fn parse_testdox_with_duration() {
    let output = r#"
Calculator (Tests\Calculator)
 ✔ Can add two numbers (0.005s)
"#;
    let suites = parse_testdox_output(output);
    assert_eq!(suites[0].tests[0].name, "Can add two numbers");
    assert!(suites[0].tests[0].duration.as_micros() > 0);
}

#[test]
fn parse_testdox_empty_output() {
    let suites = parse_testdox_output("");
    assert!(suites.is_empty());
}

#[test]
fn is_testdox_suite_header_various() {
    assert!(is_testdox_suite_header("Calculator (Tests\\Calculator)"));
    assert!(is_testdox_suite_header("MyClass"));
    assert!(!is_testdox_suite_header(""));
    assert!(!is_testdox_suite_header("✔ Can add"));
    assert!(!is_testdox_suite_header("PHPUnit 10.5.0"));
    assert!(!is_testdox_suite_header("Time: 00:00.012, Memory: 8.00 MB"));
    assert!(!is_testdox_suite_header("FAILURES!"));
}

#[test]
fn parse_testdox_test_line_passed() {
    let test = parse_testdox_test_line("✔ Can add numbers").unwrap();
    assert_eq!(test.name, "Can add numbers");
    assert_eq!(test.status, TestStatus::Passed);
}

#[test]
fn parse_testdox_test_line_failed() {
    let test = parse_testdox_test_line("✘ Can divide by zero").unwrap();
    assert_eq!(test.name, "Can divide by zero");
    assert_eq!(test.status, TestStatus::Failed);
}

#[test]
fn parse_testdox_test_line_skipped() {
    let test = parse_testdox_test_line("⚬ Pending feature").unwrap();
    assert_eq!(test.name, "Pending feature");
    assert_eq!(test.status, TestStatus::Skipped);
}

#[test]
fn parse_testdox_test_line_empty() {
    assert!(parse_testdox_test_line("✔ ").is_none());
    assert!(parse_testdox_test_line("not a test").is_none());
}

#[test]
fn parse_phpunit_failure_blocks() {
    let output = r#"
There was 1 failure:

1) Tests\CalculatorTest::testDivision
Failed asserting that 3 matches expected 4.

/home/user/tests/CalculatorTest.php:42

FAILURES!
Tests: 3, Assertions: 3, Failures: 1.
"#;
    let failures = parse_phpunit_failures(output);
    assert_eq!(failures.len(), 1);
    assert_eq!(
        failures[0].test_method,
        "Tests\\CalculatorTest::testDivision"
    );
    assert!(failures[0].message.contains("Failed asserting"));
    assert!(
        failures[0]
            .location
            .as_ref()
            .unwrap()
            .contains("CalculatorTest.php:42")
    );
}

#[test]
fn parse_phpunit_multiple_failures() {
    let output = r#"
There were 2 failures:

1) Tests\MathTest::testAdd
Expected 5, got 4.

/tests/MathTest.php:10

2) Tests\MathTest::testSub
Expected 1, got 0.

/tests/MathTest.php:20

FAILURES!
"#;
    let failures = parse_phpunit_failures(output);
    assert_eq!(failures.len(), 2);
    assert_eq!(failures[0].test_method, "Tests\\MathTest::testAdd");
    assert_eq!(failures[1].test_method, "Tests\\MathTest::testSub");
}

#[test]
fn is_phpunit_failure_header_test() {
    assert!(is_phpunit_failure_header(
        "1) Tests\\CalculatorTest::testDivision"
    ));
    assert!(is_phpunit_failure_header("2) Tests\\AppTest::testBroken"));
    assert!(!is_phpunit_failure_header("Not a failure header"));
    assert!(!is_phpunit_failure_header(""));
}

#[test]
fn is_php_file_location_test() {
    assert!(is_php_file_location("/home/user/tests/Test.php:42"));
    assert!(is_php_file_location("C:\\Users\\test\\Test.php:10"));
    assert!(!is_php_file_location("some random text"));
    assert!(!is_php_file_location("Test.php"));
}

#[test]
fn php_enrich_with_errors_test() {
    let mut suites = vec![TestSuite {
        name: "tests".into(),
        tests: vec![
            TestCase {
                name: "Can add".into(),
                status: TestStatus::Passed,
                duration: Duration::from_millis(0),
                error: None,
            },
            TestCase {
                name: "Can divide".into(),
                status: TestStatus::Failed,
                duration: Duration::from_millis(0),
                error: None,
            },
        ],
    }];
    let failures = vec![PhpUnitFailure {
        test_method: "Tests\\MathTest::testCanDivide".into(),
        message: "Division by zero".into(),
        location: Some("/tests/MathTest.php:20".into()),
    }];
    enrich_with_errors(&mut suites, &failures);
    assert!(suites[0].tests[0].error.is_none());
    assert!(suites[0].tests[1].error.is_some());
    assert_eq!(
        suites[0].tests[1].error.as_ref().unwrap().message,
        "Division by zero"
    );
}

#[test]
fn testdox_matches_test() {
    assert!(testdox_matches(
        "can add two numbers",
        "testCanAddTwoNumbers"
    ));
    assert!(testdox_matches(
        "Can add two numbers",
        "testCanAddTwoNumbers"
    ));
    assert!(!testdox_matches("can add", "testCanSubtract"));
}

#[test]
fn camel_case_to_words_test() {
    assert_eq!(
        camel_case_to_words("CanAddTwoNumbers"),
        "can add two numbers"
    );
    assert_eq!(camel_case_to_words("testAdd"), "test add");
    assert_eq!(camel_case_to_words("simple"), "simple");
}

#[test]
fn php_truncate_test() {
    assert_eq!(truncate("short", 100), "short");
    let long = "a".repeat(600);
    let truncated = truncate(&long, 500);
    assert_eq!(truncated.len(), 500);
    assert!(truncated.ends_with("..."));
}

#[test]
fn extract_testdox_duration_test() {
    let (name, dur) = extract_testdox_duration("Can add two numbers (0.005s)");
    assert_eq!(name, "Can add two numbers");
    assert_eq!(dur, Duration::from_millis(5));
}

#[test]
fn extract_testdox_duration_ms() {
    let (name, dur) = extract_testdox_duration("Can add (50ms)");
    assert_eq!(name, "Can add");
    assert_eq!(dur, Duration::from_millis(50));
}

#[test]
fn extract_testdox_duration_none() {
    let (name, dur) = extract_testdox_duration("Can add two numbers");
    assert_eq!(name, "Can add two numbers");
    assert_eq!(dur, Duration::from_millis(0));
}

#[test]
fn parse_testdox_integration() {
    let stdout = r#"
PHPUnit 10.5.0 by Sebastian Bergmann and contributors.

Calculator (Tests\Calculator)
 ✔ Can add two numbers
 ✘ Can divide by zero

Time: 00:00.012, Memory: 8.00 MB

There was 1 failure:

1) Tests\Calculator::testCanDivideByZero
Failed asserting that false is true.

/tests/Calculator.php:42

FAILURES!
Tests: 2, Assertions: 2, Failures: 1.
"#;
    let adapter = PhpAdapter::new();
    let result = adapter.parse_output(stdout, "", 1);

    assert_eq!(result.total_tests(), 2);
    assert_eq!(result.total_passed(), 1);
    assert_eq!(result.total_failed(), 1);
    // The failed test should have error details
    let failed_test = result.suites[0]
        .tests
        .iter()
        .find(|t| t.status == TestStatus::Failed)
        .unwrap();
    assert!(failed_test.error.is_some());
}

#[test]
fn phpunit_incomplete_counts_as_skipped() {
    let result = PhpAdapter::new().parse_output("Tests: 6, Assertions: 6, Failures: 1, Errors: 1, Skipped: 1, Incomplete: 1.\n", "", 1);
    assert_eq!(result.total_passed(), 2);
    assert_eq!(result.total_failed(), 2);
    assert_eq!(result.total_skipped(), 2);
}

#[test]
fn phpunit_failure_location_after_blank_line() {
    let output = "1) Tests\\A::testB\nboom\n\n/t/A.php:3\n";
    let failures = parse_phpunit_failures(output);
    assert_eq!(failures[0].message, "boom");
    assert_eq!(failures[0].location.as_deref(), Some("/t/A.php:3"));
}

#[test]
fn phpunit_method_match_ignores_ascii_case() {
    let mut suites = vec![TestSuite {
        name: "t".into(),
        tests: vec![
            TestCase { name: "TESTX".into(), status: TestStatus::Failed, duration: Duration::zero(), error: None },
            TestCase { name: "other".into(), status: TestStatus::Failed, duration: Duration::zero(), error: None },
        ],
    }];
    let failures = vec![
        PhpUnitFailure { test_method: "A::testX".into(), message: "m1".into(), location: None },
        PhpUnitFailure { test_method: "A::testY".into(), message: "m2".into(), location: None },
    ];
    enrich_with_errors(&mut suites, &failures);
    assert_eq!(suites[0].tests[0].error.as_ref().unwrap().message, "m1");
    assert!(suites[0].tests[1].error.is_none());
}

#[test]
fn phpunit_time_with_minutes() {
    assert_eq!(parse_phpunit_duration("Time: 01:02.500, Memory: 8 MB"), Some(Duration::from_millis(62500)));
    assert_eq!(parse_phpunit_duration("Time: 5, Memory: 8 MB"), None);
}

#[test]
fn testdox_lowercases_unicode_names() {
    assert!(testdox_matches("ÉTÉ works", "testÉtéWorks"));
}
