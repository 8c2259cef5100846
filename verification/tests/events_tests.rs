use std::path::PathBuf;
use testx::adapters::{TestCase, TestRunResult, TestStatus, TestSuite};
use testx::duration::Duration;
use testx::events::{
    CollectingHandler, CountingHandler, EventBus, EventHandler, RawOutputCollector, Stream,
    TestEvent, TimestampedLogger,
};


fn make_test_case(name: &str, status: TestStatus) -> TestCase {
    TestCase {
        name: name.into(),
        status,
        duration: Duration::from_millis(10),
        error: None,
    }
}

#[test]
fn event_bus_empty() {
    let mut bus = EventBus::new();
    assert_eq!(bus.handler_count(), 0);
    // Should not panic with no handlers
    bus.emit(TestEvent::RunStarted {
        adapter: "rust".into(),
        framework: "cargo test".into(),
        project_dir: PathBuf::from("."),
    });
}

#[test]
fn event_bus_subscribe_and_emit() {
    let mut bus = EventBus::new();
    bus.subscribe(Box::new(CollectingHandler::new()));
    assert_eq!(bus.handler_count(), 1);

    bus.emit(TestEvent::RunStarted {
        adapter: "rust".into(),
        framework: "cargo test".into(),
        project_dir: PathBuf::from("."),
    });

    bus.emit(TestEvent::Warning {
        message: "something".into(),
    });
}

#[test]
fn counting_handler_counts_events() {
    let mut handler = CountingHandler::default();

    handler.handle(&TestEvent::RunStarted {
        adapter: "go".into(),
        framework: "go test".into(),
        project_dir: PathBuf::from("."),
    });
    handler.handle(&TestEvent::SuiteStarted {
        name: "main".into(),
    });
    handler.handle(&TestEvent::TestStarted {
        suite: "main".into(),
        name: "TestFoo".into(),
    });
    handler.handle(&TestEvent::TestFinished {
        suite: "main".into(),
        test: make_test_case("TestFoo", TestStatus::Passed),
    });
    handler.handle(&TestEvent::SuiteFinished {
        suite: TestSuite {
            name: "main".into(),
            tests: vec![make_test_case("TestFoo", TestStatus::Passed)],
        },
    });
    handler.handle(&TestEvent::RunFinished {
        result: TestRunResult {
            suites: vec![],
            duration: Duration::from_millis(100),
            raw_exit_code: 0,
        },
    });
    handler.handle(&TestEvent::Warning {
        message: "slow".into(),
    });

    assert_eq!(handler.run_started, 1);
    assert_eq!(handler.suite_started, 1);
    assert_eq!(handler.test_started, 1);
    assert_eq!(handler.test_finished, 1);
    assert_eq!(handler.suite_finished, 1);
    assert_eq!(handler.run_finished, 1);
    assert_eq!(handler.warnings, 1);
    assert_eq!(handler.total, 7);
}

#[test]
fn raw_output_collector() {
    let mut collector = RawOutputCollector::new();

    collector.handle(&TestEvent::RawOutput {
        stream: Stream::Stdout,
        line: "line 1".into(),
    });
    collector.handle(&TestEvent::RawOutput {
        stream: Stream::Stderr,
        line: "err 1".into(),
    });
    collector.handle(&TestEvent::RawOutput {
        stream: Stream::Stdout,
        line: "line 2".into(),
    });
    // Non-raw events ignored
    collector.handle(&TestEvent::Warning {
        message: "ignored".into(),
    });

    assert_eq!(collector.stdout_lines.len(), 2);
    assert_eq!(collector.stderr_lines.len(), 1);
    assert_eq!(collector.stdout(), "line 1\nline 2");
    assert_eq!(collector.stderr(), "err 1");
}

#[test]
fn timestamped_logger() {
    let mut logger = TimestampedLogger::new();

    logger.handle(&TestEvent::RunStarted {
        adapter: "python".into(),
        framework: "pytest".into(),
        project_dir: PathBuf::from("."),
    });
    logger.handle(&TestEvent::Warning {
        message: "slow test".into(),
    });

    assert_eq!(logger.entries().len(), 2);
    assert!(logger.entries()[0].1.contains("run started: python"));
    assert!(logger.entries()[1].1.contains("warning: slow test"));
}

#[test]
fn collecting_handler_default() {
    let handler = CollectingHandler::default();
    assert!(handler.events.is_empty());
}

#[test]
fn raw_output_collector_default() {
    let collector = RawOutputCollector::default();
    assert!(collector.stdout_lines.is_empty());
    assert!(collector.stderr_lines.is_empty());
}

#[test]
fn stream_equality() {
    assert_eq!(Stream::Stdout, Stream::Stdout);
    assert_eq!(Stream::Stderr, Stream::Stderr);
    assert_ne!(Stream::Stdout, Stream::Stderr);
}

#[test]
fn event_bus_flush() {
    let mut bus = EventBus::new();
    bus.subscribe(Box::new(CountingHandler::default()));
    bus.flush(); // Should not panic
}

#[test]
fn event_bus_multiple_handlers() {
    let mut bus = EventBus::new();
    bus.subscribe(Box::new(CountingHandler::default()));
    bus.subscribe(Box::new(CollectingHandler::new()));
    bus.subscribe(Box::new(RawOutputCollector::new()));
    assert_eq!(bus.handler_count(), 3);

    bus.emit(TestEvent::RawOutput {
        stream: Stream::Stdout,
        line: "hello".into(),
    });
}

#[test]
fn timestamped_logger_all_event_types() {
    let mut logger = TimestampedLogger::new();

    logger.handle(&TestEvent::FilterApplied {
        pattern: "test_*".into(),
        matched_count: 5,
    });
    logger.handle(&TestEvent::ParallelAdapterStarted {
        adapter: "rust".into(),
    });
    logger.handle(&TestEvent::ParallelAdapterFinished {
        adapter: "rust".into(),
        result: TestRunResult {
            suites: vec![],
            duration: Duration::zero(),
            raw_exit_code: 0,
        },
    });
    logger.handle(&TestEvent::RetryStarted {
        test_name: "test_foo".into(),
        attempt: 2,
        max_attempts: 3,
    });
    logger.handle(&TestEvent::RetryFinished {
        test_name: "test_foo".into(),
        attempt: 2,
        passed: true,
    });
    logger.handle(&TestEvent::WatchRerun {
        changed_files: vec![PathBuf::from("src/lib.rs")],
    });
    logger.handle(&TestEvent::Progress {
        message: "running".into(),
        current: 1,
        total: 10,
    });

    assert_eq!(logger.entries().len(), 7);
    assert!(logger.entries()[0].1.contains("filter"));
    assert!(logger.entries()[1].1.contains("parallel started"));
    assert!(logger.entries()[2].1.contains("parallel finished"));
    assert!(logger.entries()[3].1.contains("retry: test_foo"));
    assert!(logger.entries()[4].1.contains("retry finished"));
    assert!(logger.entries()[5].1.contains("watch rerun"));
    assert!(logger.entries()[6].1.contains("progress"));
}

#[test]
fn event_bus_subscribe_adds_one_handler_each_time() {
    let mut bus = EventBus::new();
    assert_eq!(bus.handler_count(), 0);
    bus.subscribe(Box::new(CollectingHandler::new()));
    bus.subscribe(Box::new(CountingHandler::default()));
    assert_eq!(bus.handler_count(), 2);
    bus.flush();
    assert_eq!(bus.handler_count(), 2);
}
