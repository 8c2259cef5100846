use std::path::PathBuf;
use testx::adapters::{TestCase, TestError, TestRunResult, TestStatus, TestSuite};
use testx::duration::Duration;
use testx::history::{
    co_failure_count, failure_count, failure_sets, days_to_date, format_timestamp, is_leap_year, outcomes_by_test, passed_durations_by_test, DurationTrend,
    RunRecord, TestHistory, TestRecord,
};

fn make_test(name: &str, status: TestStatus, ms: u64) -> TestCase {
    TestCase {
        name: name.into(),
        status,
        duration: Duration::from_millis(ms),
        error: None,
    }
}

fn make_failed_test(name: &str, ms: u64, msg: &str) -> TestCase {
    TestCase {
        name: name.into(),
        status: TestStatus::Failed,
        duration: Duration::from_millis(ms),
        error: Some(TestError {
            message: msg.into(),
            location: None,
        }),
    }
}

fn make_result(passed: usize, failed: usize, skipped: usize) -> TestRunResult {
    let mut tests = Vec::new();
    for i in 0..passed {
        tests.push(make_test(&format!("pass_{i}"), TestStatus::Passed, 10 + i as u64));
    }
    for i in 0..failed {
        tests.push(make_failed_test(&format!("fail_{i}"), 5, "assertion failed"));
    }
    for i in 0..skipped {
        tests.push(make_test(&format!("skip_{i}"), TestStatus::Skipped, 0));
    }
    TestRunResult {
        suites: vec![TestSuite { name: "suite".into(), tests }],
        duration: Duration::from_millis(100),
        raw_exit_code: if failed > 0 { 1 } else { 0 },
    }
}

fn history_of(records: Vec<RunRecord>) -> TestHistory {
    TestHistory::from_parts(PathBuf::from("/tmp/testx-history"), records)
}

#[test]
fn new_in_memory() {
    let history = TestHistory::new_in_memory();
    assert_eq!(history.run_count(), 0);
}

#[test]
fn record_run() {
    let mut history = TestHistory::new_in_memory();
    history.record_at(&make_result(5, 1, 0), 0);
    assert_eq!(history.run_count(), 1);
    assert_eq!(history.runs()[0].timestamp, "1970-01-01T00:00:00Z");
}

#[test]
fn run_record_from_result() {
    let result = make_result(3, 1, 1);
    let record = RunRecord::from_result(&result);
    assert_eq!(record.total, 5);
    assert_eq!(record.passed, 3);
    assert_eq!(record.failed, 1);
    assert_eq!(record.skipped, 1);
    assert_eq!(record.tests.len(), 5);
}

#[test]
fn run_record_test_names() {
    let result = make_result(2, 0, 0);
    let record = RunRecord::from_result(&result);
    assert_eq!(record.tests[0].name, "suite::pass_0");
    assert_eq!(record.tests[1].name, "suite::pass_1");
}

#[test]
fn run_record_error_captured() {
    let result = make_result(0, 1, 0);
    let record = RunRecord::from_result(&result);
    assert_eq!(record.tests[0].error.as_deref(), Some("assertion failed"));
}

#[test]
fn recent_runs() {
    let mut history = TestHistory::new_in_memory();
    for _ in 0..10 {
        history.record_at(&make_result(5, 0, 0), 1);
    }
    assert_eq!(history.recent_runs(3).len(), 3);
    assert_eq!(history.recent_runs(20).len(), 10);
}

#[test]
fn get_trend() {
    let mut records = Vec::new();
    for i in 0..5 {
        let mut record = RunRecord::from_result(&make_result(3, 0, 0));
        record.tests[0].duration_ms = 10 + i * 5;
        records.push(record);
    }
    let history = history_of(records);
    let trend = history.get_trend("suite::pass_0", 10);
    assert_eq!(trend.len(), 5);
    assert_eq!(trend[0].duration_ms, 10);
    assert_eq!(trend[4].duration_ms, 30);
}

#[test]
fn avg_duration() {
    let mut records = Vec::new();
    for _ in 0..4 {
        let mut record = RunRecord::from_result(&make_result(1, 0, 0));
        record.duration_ms = 100;
        records.push(record);
    }
    let history = history_of(records);
    assert_eq!(history.avg_duration(10), Duration::from_millis(100));
}

#[test]
fn prune_runs() {
    let mut records = Vec::new();
    for _ in 0..20 {
        records.push(RunRecord::from_result(&make_result(1, 0, 0)));
    }
    let mut history = history_of(records);
    let before = history.run_count();
    assert_eq!(history.prune(10), 10);
    assert_eq!(history.run_count(), before - 10);
    assert_eq!(history.prune(50), 0);
}

#[test]
fn days_to_date_epoch() {
    let (y, m, d) = days_to_date(0);
    assert_eq!((y, m, d), (1970, 1, 1));
}

#[test]
fn days_to_date_known() {
    let (y, m, d) = days_to_date(19723);
    assert_eq!(y, 2024);
    assert_eq!(m, 1);
    assert_eq!(d, 1);
}

#[test]
fn leap_year() {
    assert!(is_leap_year(2000));
    assert!(is_leap_year(2024));
    assert!(!is_leap_year(1900));
    assert!(!is_leap_year(2023));
}

#[test]
fn chrono_now_format() {
    let ts = RunRecord::from_result(&make_result(1, 0, 0)).timestamp;
    assert!(ts.contains('T'));
    assert!(ts.ends_with('Z'));
    assert_eq!(ts.len(), 20);
}

#[test]
fn duration_trend_variants() {
    assert_eq!(DurationTrend::Faster, DurationTrend::Faster);
    assert_ne!(DurationTrend::Faster, DurationTrend::Slower);
}

#[test]
fn history_timestamp_leap_day() {
    // 2024-02-29 12:34:56 UTC
    assert_eq!(format_timestamp(1709210096), "2024-02-29T12:34:56Z");
    assert_eq!(days_to_date(19782), (2024, 2, 29));
}

#[test]
fn history_record_drops_oldest_beyond_limit() {
    let mut history = TestHistory::new_in_memory();
    for i in 0..502u64 {
        history.record_at(&make_result(1, 0, 0), i * 86400);
    }
    assert_eq!(history.run_count(), 500);
    assert_eq!(history.runs()[0].timestamp, "1970-01-03T00:00:00Z");
}

#[test]
fn history_trend_skips_runs_without_test() {
    let records = vec![
        RunRecord::from_result(&make_result(1, 0, 0)),
        RunRecord::from_result(&make_result(0, 1, 0)),
    ];
    let history = history_of(records);
    let trend = history.get_trend("suite::fail_0", 10);
    assert_eq!(trend.len(), 1);
    assert_eq!(trend[0].status, "failed");
}

fn run_of(tests: &[(&str, &str, u64)]) -> RunRecord {
    RunRecord {
        timestamp: "2024-01-01T00:00:00Z".into(),
        total: tests.len(),
        passed: 0,
        failed: 0,
        skipped: 0,
        duration_ms: 0,
        exit_code: 0,
        tests: tests
            .iter()
            .map(|(n, s, d)| TestRecord { name: n.to_string(), status: s.to_string(), duration_ms: *d, error: None })
            .collect(),
    }
}

#[test]
fn per_test_series_group_by_name_in_first_appearance_order() {
    let runs = vec![
        run_of(&[("a", "passed", 10), ("b", "failed", 5)]),
        run_of(&[("b", "passed", 7), ("c", "skipped", 0), ("a", "failed", 12)]),
    ];
    let o = outcomes_by_test(&runs);
    assert_eq!(o.len(), 3);
    assert_eq!(o[0], ("a".to_string(), vec![true, false]));
    assert_eq!(o[1], ("b".to_string(), vec![false, true]));
    assert_eq!(o[2], ("c".to_string(), vec![false]));
    let d = passed_durations_by_test(&runs);
    assert_eq!(d, vec![("a".to_string(), vec![10]), ("b".to_string(), vec![7])]);
}

#[test]
fn failure_sets_and_co_failure_counts() {
    let runs = vec![
        run_of(&[("a", "failed", 1), ("b", "failed", 1), ("c", "passed", 1)]),
        run_of(&[("c", "passed", 1)]),
        run_of(&[("b", "failed", 1), ("a", "failed", 1), ("a", "failed", 1)]),
    ];
    let sets = failure_sets(&runs);
    assert_eq!(sets, vec![vec!["a".to_string(), "b".to_string()], vec!["b".to_string(), "a".to_string(), "a".to_string()]]);
    let (a, b) = ("a".to_string(), "b".to_string());
    assert_eq!(failure_count(&sets, &a), 3);
    assert_eq!(failure_count(&sets, &b), 2);
    assert_eq!(co_failure_count(&sets, &a, &b), 3);
    assert_eq!(co_failure_count(&sets, &b, &a), 3);
    assert_eq!(co_failure_count(&sets, &a, &a), 1);
}
