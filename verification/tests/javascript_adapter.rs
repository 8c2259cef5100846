use testx::adapters::javascript::{js_framework, parse_jest_duration, parse_jest_test_line, JavaScriptAdapter};
use testx::duration::Duration;


#[test]
fn parse_jest_verbose_output() {
    let stdout = r#"
PASS src/utils.test.ts
  ✓ should add numbers (3 ms)
  ✓ should subtract numbers (1 ms)
  ✕ should multiply numbers (2 ms)

  ● should multiply numbers

    expect(received).toBe(expected)

    Expected: 7
    Received: 6

Test Suites: 1 passed, 1 total
Tests:       2 passed, 1 failed, 3 total
Time:        1.234 s
"#;
    let adapter = JavaScriptAdapter::new();
    let result = adapter.parse_output(stdout, "", 1);

    assert_eq!(result.total_tests(), 3);
    assert_eq!(result.total_passed(), 2);
    assert_eq!(result.total_failed(), 1);
    assert!(!result.is_success());

    // Verify error message was captured
    let failed = &result.suites[0].failures();
    assert_eq!(failed.len(), 1);
    assert!(failed[0].error.is_some());
    assert!(
        failed[0]
            .error
            .as_ref()
            .unwrap()
            .message
            .contains("expect(received).toBe(expected)")
    );
}

#[test]
fn parse_jest_all_pass() {
    let stdout = r#"
PASS src/math.test.ts
  ✓ test_one (5 ms)
  ✓ test_two (2 ms)

Tests:       2 passed, 2 total
Time:        0.456 s
"#;
    let adapter = JavaScriptAdapter::new();
    let result = adapter.parse_output(stdout, "", 0);

    assert_eq!(result.total_passed(), 2);
    assert!(result.is_success());
    assert_eq!(result.duration, Duration::from_millis(456));
}

#[test]
fn parse_jest_summary_fallback() {
    let stdout = "Tests:  5 passed, 2 failed, 7 total\nTime:        3.21 s\n";
    let adapter = JavaScriptAdapter::new();
    let result = adapter.parse_output(stdout, "", 1);

    assert_eq!(result.total_passed(), 5);
    assert_eq!(result.total_failed(), 2);
}

#[test]
fn parse_jest_test_line_with_duration() {
    let (name, dur) = parse_jest_test_line(" should add numbers (5 ms)");
    assert_eq!(name, "should add numbers");
    assert_eq!(dur, Duration::from_millis(5));
}

#[test]
fn parse_jest_test_line_no_duration() {
    let (name, dur) = parse_jest_test_line(" should add numbers");
    assert_eq!(name, "should add numbers");
    assert_eq!(dur, Duration::from_millis(0));
}

#[test]
fn parse_jest_duration_seconds() {
    assert_eq!(
        parse_jest_duration("Time:        1.234 s"),
        Some(Duration::from_millis(1234))
    );
}

#[test]
fn parse_jest_duration_ms() {
    assert_eq!(
        parse_jest_duration("Time:        456 ms"),
        Some(Duration::from_millis(456))
    );
}

#[test]
fn parse_jest_empty_output() {
    let adapter = JavaScriptAdapter::new();
    let result = adapter.parse_output("", "", 0);

    assert_eq!(result.total_tests(), 1);
    assert!(result.is_success());
}

#[test]
fn parse_jest_with_describe_blocks() {
    let stdout = r#"
PASS src/math.test.ts
  Math operations
    ✓ should add (2 ms)
    ✓ should subtract (1 ms)
  String operations
    ✕ should uppercase (3 ms)

  ● String operations › should uppercase

    expect(received).toBe(expected)

Tests:       2 passed, 1 failed, 3 total
Time:        0.789 s
"#;
    let adapter = JavaScriptAdapter::new();
    let result = adapter.parse_output(stdout, "", 1);

    assert_eq!(result.total_tests(), 3);
    assert_eq!(result.total_passed(), 2);
    assert_eq!(result.total_failed(), 1);
}

#[test]
fn parse_jest_multiple_suites() {
    let stdout = r#"
PASS src/a.test.ts
  ✓ test_a1 (1 ms)
  ✓ test_a2 (1 ms)
FAIL src/b.test.ts
  ✓ test_b1 (1 ms)
  ✕ test_b2 (5 ms)

Tests:       3 passed, 1 failed, 4 total
Time:        1.0 s
"#;
    let adapter = JavaScriptAdapter::new();
    let result = adapter.parse_output(stdout, "", 1);

    assert_eq!(result.total_tests(), 4);
    assert_eq!(result.suites.len(), 2);
    assert_eq!(result.suites[0].name, "src/a.test.ts");
    assert_eq!(result.suites[1].name, "src/b.test.ts");
}

#[test]
fn parse_jest_skipped_tests() {
    let stdout = r#"
PASS src/utils.test.ts
  ✓ should work (2 ms)
  ○ skipped test

Tests:       1 passed, 1 skipped, 2 total
Time:        0.5 s
"#;
    let adapter = JavaScriptAdapter::new();
    let result = adapter.parse_output(stdout, "", 0);

    assert_eq!(result.total_passed(), 1);
    assert_eq!(result.total_skipped(), 1);
    assert!(result.is_success());
}

#[test]
fn parse_ava_output() {
    let stdout = "  ✔ body-size › returns 0 for null\n  ✔ body-size › returns correct size\n  ✘ [fail]: browser › request fails Rejected promise\n\n  1 test failed\n";
    let adapter = JavaScriptAdapter::new();
    let result = adapter.parse_output(stdout, "", 1);

    assert_eq!(result.total_passed(), 2);
    assert_eq!(result.total_failed(), 1);
    assert_eq!(result.total_tests(), 3);
}

#[test]
fn parse_ava_checkmark_chars() {
    // ✔ = U+2714, ✘ = U+2718 (different from Jest ✓/✕)
    let stdout = "✔ test_one\n✘ test_two\n";
    let adapter = JavaScriptAdapter::new();
    let result = adapter.parse_output(stdout, "", 1);

    assert_eq!(result.total_passed(), 1);
    assert_eq!(result.total_failed(), 1);
}

#[test]
fn parse_vitest_summary_format() {
    // Vitest: "Tests  3575 passed (3575)"
    let stdout = " Test Files  323 passed (323)\n      Tests  3575 passed (3575)\n   Start at  12:24:03\n   Duration  30.18s\n";
    let adapter = JavaScriptAdapter::new();
    let result = adapter.parse_output(stdout, "", 0);

    assert_eq!(result.total_passed(), 3575);
    assert!(result.is_success());
}

#[test]
fn parse_vitest_mixed_summary() {
    let stdout = "      Tests  10 failed | 3565 passed (3575)\n   Duration  30.18s\n";
    let adapter = JavaScriptAdapter::new();
    let result = adapter.parse_output(stdout, "", 1);

    assert_eq!(result.total_passed(), 3565);
    assert_eq!(result.total_failed(), 10);
    assert_eq!(result.total_tests(), 3575);
}

#[test]
fn parse_vitest_duration_format() {
    assert_eq!(
        parse_jest_duration("   Duration  30.18s (transform 24.34s, setup 16.70s)"),
        Some(Duration::from_millis(30180))
    );
}

#[test]
fn parse_ava_summary_fallback() {
    let stdout = "  30 tests failed\n  2 known failures\n";
    let adapter = JavaScriptAdapter::new();
    let result = adapter.parse_output(stdout, "", 1);

    assert_eq!(result.total_failed(), 30);
}

#[test]
fn jest_describe_failure_found_by_short_name() {
    let stdout = "PASS src/s.test.ts\n  ✕ should uppercase (3 ms)\n  ● String operations › should uppercase\n    expect(received).toBe(expected)\n    |  at line\n    at Object.<anonymous>\nTests:       1 failed, 1 total\n";
    let result = JavaScriptAdapter::new().parse_output(stdout, "", 1);
    let case = &result.suites[0].tests[0];
    assert_eq!(case.name, "should uppercase");
    assert_eq!(case.duration, Duration::from_millis(3));
    assert_eq!(case.error.as_ref().unwrap().message, "expect(received).toBe(expected)");
}

#[test]
fn jest_ansi_codes_are_removed() {
    let stdout = "\x1b[32mPASS\x1b[0m src/a.test.ts\n  \x1b[32m✓\x1b[0m works (1 ms)\n";
    let result = JavaScriptAdapter::new().parse_output(stdout, "", 0);
    assert_eq!(result.suites[0].name, "src/a.test.ts");
    assert_eq!(result.suites[0].tests[0].name, "works");
}

#[test]
fn vitest_numbering_follows_made_cases() {
    let result = JavaScriptAdapter::new().parse_output("Tests  2 failed | 1 passed (3)\n", "", 1);
    let names: Vec<&str> = result.suites[0].tests.iter().map(|t| t.name.as_str()).collect();
    assert_eq!(names, vec!["failed_1", "failed_3", "test_3"]);
}

#[test]
fn jest_test_line_seconds_and_fractions() {
    assert_eq!(parse_jest_test_line("slow (1.5 s)").1, Duration::from_millis(1500));
    assert_eq!(parse_jest_test_line("quick (2.9 ms)").1, Duration::from_millis(2));
}

#[test]
fn readable_accepts_ordinary_output() {
    let a = JavaScriptAdapter::new();
    assert!(a.readable("PASS src/a.test.js\n  ✓ adds (3 ms)\n", "", 0));
}

#[test]
fn readable_refuses_lone_bullet_and_reversed_time() {
    let a = JavaScriptAdapter::new();
    assert!(!a.readable("●\n", "", 1));
    assert!(!a.readable("  ✓ adds )3 ms(\n", "", 0));
}

fn no_js_files() -> testx::adapters::javascript::JsProjectFiles {
    testx::adapters::javascript::JsProjectFiles {
        vitest_config: false,
        bunfig: false,
        bun_lock: false,
        jest_config: false,
        mocha_config: false,
        ava_config: false,
    }
}

#[test]
fn js_framework_prefers_vitest_then_bun_then_jest() {
    let content = r#"{"devDependencies": {"vitest": "1", "jest": "29"}}"#;
    assert_eq!(js_framework(&no_js_files(), content), Some("vitest"));
    let mut bun = no_js_files();
    bun.bunfig = true;
    bun.bun_lock = true;
    assert_eq!(js_framework(&bun, "{}"), Some("bun"));
    assert_eq!(js_framework(&bun, r#"{"jest": "29"}"#), Some("jest"));
    assert_eq!(js_framework(&no_js_files(), r#"{"mocha": "10"}"#), Some("mocha"));
    assert_eq!(js_framework(&no_js_files(), "{}"), None);
}
