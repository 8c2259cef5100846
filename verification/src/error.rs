//! The error type of the library.

use vstd::prelude::*;
use crate::num::{decimal, fmt_u64, fmt_usize};
use crate::text::{append, append_str, chars_of, chars_of_string, ends_with, starts_with, string_of};

verus! {

#[verifier::external_type_specification]
#[verifier::external_body]
pub struct ExIoError(std::io::Error);

/// All error types that testx can produce.
#[derive(Debug)]
pub enum TestxError {
    /// No test framework could be detected in the project directory.
    NoFrameworkDetected { path: std::path::PathBuf },
    /// A required test runner binary is not on PATH.
    RunnerNotFound { runner: String },
    /// Failed to spawn or execute the test command.
    ExecutionFailed { command: String, source: std::io::Error },
    /// Test process exceeded the configured timeout.
    Timeout { seconds: u64 },
    /// Could not parse test runner output into structured results.
    ParseError { message: String },
    /// Configuration file is invalid or contains bad values.
    ConfigError { message: String },
    /// The user specified an adapter that doesn't exist.
    AdapterNotFound { name: String },
    /// File system operation failed.
    IoError { context: String, source: std::io::Error },
    /// Path resolution failed.
    PathError { message: String },
    /// Watch mode error (file watcher failure).
    WatchError { message: String },
    /// Plugin loading or execution error.
    PluginError { message: String },
    /// Filter pattern is invalid.
    FilterError { pattern: String, message: String },
    /// History/database error.
    HistoryError { message: String },
    /// Coverage tool error.
    CoverageError { message: String },
    /// Multiple errors collected from parallel execution.
    MultipleErrors { errors: Vec<TestxError> },
}

/// Display text of a path (`Path::display`).  Nothing is stated of it: a
/// path has no view here.
#[verifier::external_body]
fn path_text(p: &std::path::PathBuf) -> String {
    format!("{}", p.display())
}

/// Display text of an I/O error (`<io::Error as Display>`).  Nothing is
/// stated of it: an I/O error has no view here.
#[verifier::external_body]
fn io_error_text(e: &std::io::Error) -> String {
    format!("{}", e)
}

/// The message of an error whose text is made of its own fields only.
pub open spec fn plain_message(e: TestxError) -> Option<Seq<char>> {
    match e {
        TestxError::RunnerNotFound { runner } =>
            Some("Test runner '"@ + runner@ + "' not found. Install it and try again."@),
        TestxError::Timeout { seconds } => Some("Test process timed out after "@ + decimal(seconds as nat) + "s"@),
        TestxError::ParseError { message } => Some("Failed to parse test output: "@ + message@),
        TestxError::ConfigError { message } => Some("Configuration error: "@ + message@),
        TestxError::AdapterNotFound { name } =>
            Some("Adapter '"@ + name@ + "' not found. Run 'testx list' to see available adapters."@),
        TestxError::PathError { message } => Some("Path error: "@ + message@),
        TestxError::WatchError { message } => Some("Watch error: "@ + message@),
        TestxError::PluginError { message } => Some("Plugin error: "@ + message@),
        TestxError::FilterError { pattern, message } =>
            Some("Invalid filter pattern '"@ + pattern@ + "': "@ + message@),
        TestxError::HistoryError { message } => Some("History error: "@ + message@),
        TestxError::CoverageError { message } => Some("Coverage error: "@ + message@),
        _ => None,
    }
}

/// The numbered list of messages that follows the header of `MultipleErrors`:
/// for each message, a new line, two spaces, its position counted from one,
/// a dot, a space and the message.
pub open spec fn numbered(parts: Seq<Seq<char>>) -> Seq<char>
    decreases parts.len(),
{
    if parts.len() == 0 {
        seq![]
    } else {
        numbered(parts.drop_last()) + "\n  "@ + decimal(parts.len()) + ". "@ + parts.last()
    }
}

/// Text that begins with `pre` and ends with `post`, with anything between.
pub open spec fn framed(r: Seq<char>, pre: Seq<char>, post: Seq<char>) -> bool {
    r.len() >= pre.len() + post.len() && starts_with(r, pre) && ends_with(r, post)
}

/// `r` is the message of `e`.  The text of a path and of an I/O error comes
/// from their `Display`, which is left open here: a message that holds one
/// is fixed around it.
pub open spec fn message_ok(e: TestxError, r: Seq<char>) -> bool
    decreases e,
{
    match e {
        TestxError::NoFrameworkDetected { .. } => framed(
            r,
            "No test framework detected in '"@,
            "'. Try 'testx detect' to diagnose, or 'testx list' for supported frameworks."@,
        ),
        TestxError::ExecutionFailed { command, .. } =>
            starts_with(r, "Failed to execute command '"@ + command@ + "': "@),
        TestxError::IoError { context, .. } => starts_with(r, context@ + ": "@),
        TestxError::MultipleErrors { errors } => exists|parts: Seq<Seq<char>>|
            #![trigger numbered(parts)]
            parts.len() == errors@.len()
            && (forall|i: int| 0 <= i < parts.len() ==> message_ok(errors@[i], #[trigger] parts[i]))
            && r == "Multiple errors occurred:"@ + numbered(parts),
        _ => plain_message(e) == Some(r),
    }
}

impl TestxError {
    /// The human-readable message of the error (what `Display` would write).
    pub fn message(&self) -> (r: String)
        ensures
            message_ok(*self, r@),
        decreases self,
    {
        let mut d: Vec<char> = Vec::new();
        match self {
            TestxError::NoFrameworkDetected { path } => {
                append_str(&mut d, "No test framework detected in '");
                let ghost d0 = d@;
                append(&mut d, &chars_of_string(&path_text(path)));
                let ghost d1 = d@;
                append_str(&mut d, "'. Try 'testx detect' to diagnose, or 'testx list' for supported frameworks.");
                proof {
                    let post = "'. Try 'testx detect' to diagnose, or 'testx list' for supported frameworks."@;
                    assert(d@.take(d0.len() as int) =~= d0);
                    assert(d@.skip(d@.len() - post.len()) =~= post);
                }
            },
            TestxError::RunnerNotFound { runner } => {
                append_str(&mut d, "Test runner '");
                append(&mut d, &chars_of_string(runner));
                append_str(&mut d, "' not found. Install it and try again.");
            },
            TestxError::ExecutionFailed { command, source } => {
                append_str(&mut d, "Failed to execute command '");
                append(&mut d, &chars_of_string(command));
                append_str(&mut d, "': ");
                let ghost d0 = d@;
                append(&mut d, &chars_of_string(&io_error_text(source)));
                assert(d@.take(d0.len() as int) =~= d0);
            },
            TestxError::Timeout { seconds } => {
                append_str(&mut d, "Test process timed out after ");
                append(&mut d, &fmt_u64(*seconds));
                append_str(&mut d, "s");
            },
            TestxError::ParseError { message } => {
                append_str(&mut d, "Failed to parse test output: ");
                append(&mut d, &chars_of_string(message));
            },
            TestxError::ConfigError { message } => {
                append_str(&mut d, "Configuration error: ");
                append(&mut d, &chars_of_string(message));
            },
            TestxError::AdapterNotFound { name } => {
                append_str(&mut d, "Adapter '");
                append(&mut d, &chars_of_string(name));
                append_str(&mut d, "' not found. Run 'testx list' to see available adapters.");
            },
            TestxError::IoError { context, source } => {
                append(&mut d, &chars_of_string(context));
                append_str(&mut d, ": ");
                let ghost d0 = d@;
                append(&mut d, &chars_of_string(&io_error_text(source)));
                assert(d@.take(d0.len() as int) =~= d0);
            },
            TestxError::PathError { message } => {
                append_str(&mut d, "Path error: ");
                append(&mut d, &chars_of_string(message));
            },
            TestxError::WatchError { message } => {
                append_str(&mut d, "Watch error: ");
                append(&mut d, &chars_of_string(message));
            },
            TestxError::PluginError { message } => {
                append_str(&mut d, "Plugin error: ");
                append(&mut d, &chars_of_string(message));
            },
            TestxError::FilterError { pattern, message } => {
                append_str(&mut d, "Invalid filter pattern '");
                append(&mut d, &chars_of_string(pattern));
                append_str(&mut d, "': ");
                append(&mut d, &chars_of_string(message));
            },
            TestxError::HistoryError { message } => {
                append_str(&mut d, "History error: ");
                append(&mut d, &chars_of_string(message));
            },
            TestxError::CoverageError { message } => {
                append_str(&mut d, "Coverage error: ");
                append(&mut d, &chars_of_string(message));
            },
            TestxError::MultipleErrors { errors } => {
                append_str(&mut d, "Multiple errors occurred:");
                let ghost mut parts: Seq<Seq<char>> = seq![];
                let mut i: usize = 0;
                while i < errors.len()
                    invariant
                        i <= errors.len(),
                        parts.len() == i,
                        forall|j: int| 0 <= j < i ==> message_ok(errors@[j], #[trigger] parts[j]),
                        d@ == "Multiple errors occurred:"@ + numbered(parts),
                        *self == (TestxError::MultipleErrors { errors: *errors }),
                    decreases errors.len() - i,
                {
                    append_str(&mut d, "\n  ");
                    append(&mut d, &fmt_usize(i + 1));
                    append_str(&mut d, ". ");
                    proof {
                        assert(decreases_to!(errors@ => errors@[i as int]));
                        assert(decreases_to!(errors => errors@));
                        assert(self->errors == *errors);
                        assert(decreases_to!(*self => self->errors));
                        assert(decreases_to!(*self => errors@[i as int]));
                    }
                    let m = errors[i].message();
                    append(&mut d, &chars_of_string(&m));
                    proof {
                        let next = parts.push(m@);
                        assert(next.drop_last() =~= parts);
                        assert(numbered(next) == numbered(parts) + "\n  "@ + decimal(next.len()) + ". "@ + m@);
                        assert(d@ =~= "Multiple errors occurred:"@ + numbered(next));
                        parts = next;
                    }
                    i += 1;
                }
                proof {
                    assert(parts.len() == errors@.len());
                    assert(message_ok(*self, d@)) by {
                        assert(numbered(parts) == numbered(parts));
                    }
                }
            },
        }
        string_of(&d)
    }

    /// The underlying I/O error, for the variants that carry one.
    pub fn source(&self) -> (r: Option<&std::io::Error>)
        ensures
            match *self {
                TestxError::ExecutionFailed { source, .. } => r == Some(&source),
                TestxError::IoError { source, .. } => r == Some(&source),
                _ => r is None,
            },
    {
        match self {
            TestxError::ExecutionFailed { source, .. } => Some(source),
            TestxError::IoError { source, .. } => Some(source),
            _ => None,
        }
    }

    /// The error for a failed I/O operation (what `From<io::Error>` gives).
    pub fn from_io(err: std::io::Error) -> (e: TestxError)
        ensures
            e matches TestxError::IoError { context, .. } && context@ == "I/O operation failed"@,
    {
        TestxError::IoError { context: string_of(&chars_of("I/O operation failed")), source: err }
    }
}

} // verus!
