use std::path::PathBuf;
use testx::error::TestxError;


#[test]
fn error_display_no_framework() {
    let err = TestxError::NoFrameworkDetected {
        path: PathBuf::from("/tmp/project"),
    };
    let msg = err.message();
    assert!(msg.contains("No test framework detected"));
    assert!(msg.contains("/tmp/project"));
}

#[test]
fn error_display_runner_not_found() {
    let err = TestxError::RunnerNotFound {
        runner: "cargo".into(),
    };
    assert!(err.message().contains("cargo"));
    assert!(err.message().contains("not found"));
}

#[test]
fn error_display_timeout() {
    let err = TestxError::Timeout { seconds: 30 };
    assert!(err.message().contains("30s"));
}

#[test]
fn error_display_adapter_not_found() {
    let err = TestxError::AdapterNotFound {
        name: "haskell".into(),
    };
    assert!(err.message().contains("haskell"));
}

#[test]
fn error_display_filter_error() {
    let err = TestxError::FilterError {
        pattern: "[invalid".into(),
        message: "unclosed bracket".into(),
    };
    let msg = err.message();
    assert!(msg.contains("[invalid"));
    assert!(msg.contains("unclosed bracket"));
}

#[test]
fn error_display_multiple_errors() {
    let err = TestxError::MultipleErrors {
        errors: vec![
            TestxError::Timeout { seconds: 10 },
            TestxError::RunnerNotFound {
                runner: "npm".into(),
            },
        ],
    };
    let msg = err.message();
    assert!(msg.contains("Multiple errors"));
    assert!(msg.contains("10s"));
    assert!(msg.contains("npm"));
}

#[test]
fn error_from_io_error() {
    let io_err = std::io::Error::new(std::io::ErrorKind::NotFound, "file not found");
    let testx_err = TestxError::from_io(io_err);
    assert!(testx_err.message().contains("file not found"));
}

#[test]
fn error_display_execution_failed() {
    let err = TestxError::ExecutionFailed {
        command: "cargo test".into(),
        source: std::io::Error::new(std::io::ErrorKind::PermissionDenied, "access denied"),
    };
    assert!(err.message().contains("cargo test"));
    assert!(err.message().contains("access denied"));
}

#[test]
fn error_display_config_error() {
    let err = TestxError::ConfigError {
        message: "invalid TOML".into(),
    };
    assert!(err.message().contains("invalid TOML"));
}

#[test]
fn error_display_parse_error() {
    let err = TestxError::ParseError {
        message: "unexpected token".into(),
    };
    assert!(err.message().contains("unexpected token"));
}

#[test]
fn error_display_watch_error() {
    let err = TestxError::WatchError {
        message: "inotify limit".into(),
    };
    assert!(err.message().contains("inotify limit"));
}

#[test]
fn error_display_plugin_error() {
    let err = TestxError::PluginError {
        message: "script failed".into(),
    };
    assert!(err.message().contains("script failed"));
}

#[test]
fn error_display_history_error() {
    let err = TestxError::HistoryError {
        message: "db locked".into(),
    };
    assert!(err.message().contains("db locked"));
}

#[test]
fn error_display_coverage_error() {
    let err = TestxError::CoverageError {
        message: "lcov not found".into(),
    };
    assert!(err.message().contains("lcov not found"));
}

#[test]
fn error_display_path_error() {
    let err = TestxError::PathError {
        message: "not absolute".into(),
    };
    assert!(err.message().contains("not absolute"));
}

#[test]
fn error_display_io_error() {
    let err = TestxError::IoError {
        context: "reading config".into(),
        source: std::io::Error::new(std::io::ErrorKind::NotFound, "missing"),
    };
    let msg = err.message();
    assert!(msg.contains("reading config"));
    assert!(msg.contains("missing"));
}

#[test]
fn error_source_chain() {
    let err = TestxError::ExecutionFailed {
        command: "test".into(),
        source: std::io::Error::other("boom"),
    };
    assert!(err.source().is_some());

    let err2 = TestxError::Timeout { seconds: 5 };
    assert!(err2.source().is_none());
}

#[test]
fn multiple_errors_are_numbered_from_one() {
    let err = TestxError::MultipleErrors {
        errors: vec![
            TestxError::Timeout { seconds: 5 },
            TestxError::ConfigError { message: "bad".into() },
        ],
    };
    assert_eq!(
        err.message(),
        "Multiple errors occurred:\n  1. Test process timed out after 5s\n  2. Configuration error: bad"
    );
}
