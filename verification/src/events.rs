//! Events emitted during a test run, and handlers that consume them.

use vstd::prelude::*;
use crate::adapters::{TestCase, TestRunResult, TestStatus, TestSuite};
use crate::duration::Duration;
use crate::num::{decimal, fmt_u128, fmt_usize, min_nat};
use crate::text::{append, append_str, chars_of, chars_of_string, string_of};

verus! {

#[verifier::external_type_specification]
#[verifier::external_body]
pub struct ExPathBuf(std::path::PathBuf);

#[verifier::external_type_specification]
#[verifier::external_body]
pub struct ExInstant(std::time::Instant);

/// `PathBuf::clone` copies the path; nothing is stated of the copy, since
/// a path has no view here.
pub assume_specification[ <std::path::PathBuf as Clone>::clone ](p: &std::path::PathBuf) -> std::path::PathBuf;

/// Output stream identifier.
#[derive(Debug, Clone, Copy, PartialEq, Eq, Structural)]
pub enum Stream {
    Stdout,
    Stderr,
}

/// Events emitted during test execution.
#[derive(Debug, Clone)]
pub enum TestEvent {
    /// Test run is starting.
    RunStarted { adapter: String, framework: String, project_dir: std::path::PathBuf },
    /// A test suite has started executing.
    SuiteStarted { name: String },
    /// A single test has started.
    TestStarted { suite: String, name: String },
    /// A single test has completed.
    TestFinished { suite: String, test: TestCase },
    /// An entire suite has completed.
    SuiteFinished { suite: TestSuite },
    /// The entire test run has completed.
    RunFinished { result: TestRunResult },
    /// Raw output line from the test process.
    RawOutput { stream: Stream, line: String },
    /// Watch mode: files changed, triggering re-run.
    WatchRerun { changed_files: Vec<std::path::PathBuf> },
    /// Retry: a failed test is being retried.
    RetryStarted { test_name: String, attempt: u32, max_attempts: u32 },
    /// Retry: attempt completed.
    RetryFinished { test_name: String, attempt: u32, passed: bool },
    /// Filter applied to test run.
    FilterApplied { pattern: String, matched_count: usize },
    /// Parallel: an adapter run started.
    ParallelAdapterStarted { adapter: String },
    /// Parallel: an adapter run finished.
    ParallelAdapterFinished { adapter: String, result: TestRunResult },
    /// A warning message (non-fatal).
    Warning { message: String },
    /// A progress tick.
    Progress { message: String, current: usize, total: usize },
}

/// Handler for test events; implement it to create custom output formatters.
pub trait EventHandler {
    /// The events this handler has been given, oldest first.
    spec fn received(&self) -> Seq<TestEvent>;

    /// How many times this handler has been flushed.
    spec fn flushes(&self) -> nat;

    /// Handle a single test event.
    fn handle(&mut self, event: &TestEvent)
        ensures
            final(self).received() == old(self).received().push(*event),
            final(self).flushes() == old(self).flushes(),
    ;

    /// Called when a batch of events is complete (e.g., end of run).
    fn flush(&mut self)
        ensures
            final(self).received() == old(self).received(),
            final(self).flushes() == old(self).flushes() + 1,
    ;
}

/// Event bus that distributes events to all registered handlers.
pub struct EventBus {
    handlers: Vec<Registered>,
    /// The calls made on the handlers so far, in order: the handler's
    /// position and the event handed to it, or `None` for a flush.
    log: Ghost<Seq<(nat, Option<TestEvent>)>>,
}

/// The calls that hand `event` to each of `n` handlers in turn.
pub open spec fn handle_calls(n: nat, event: TestEvent) -> Seq<(nat, Option<TestEvent>)> {
    Seq::new(n, |k: int| (k as nat, Some(event)))
}

/// The calls that flush each of `n` handlers in turn.
pub open spec fn flush_calls(n: nat) -> Seq<(nat, Option<TestEvent>)> {
    Seq::new(n, |k: int| (k as nat, None::<TestEvent>))
}

/// A handler held by the bus.
struct Registered {
    handler: Box<dyn EventHandler>,
}

impl EventBus {
    pub closed spec fn count(&self) -> nat {
        self.handlers@.len()
    }

    /// The calls the bus has made on its handlers, in order.
    pub closed spec fn calls(&self) -> Seq<(nat, Option<TestEvent>)> {
        self.log@
    }

    pub fn new() -> (b: Self)
        ensures
            b.count() == 0,
            b.calls() == Seq::<(nat, Option<TestEvent>)>::empty(),
    {
        EventBus { handlers: Vec::new(), log: Ghost(Seq::empty()) }
    }

    /// Register an event handler, after those registered before it: it
    /// takes the last place, and no handler is called.  The contract does
    /// not say what the new handler has received so far.
    pub fn subscribe(&mut self, handler: Box<dyn EventHandler>)
        ensures
            final(self).count() == old(self).count() + 1,
            forall|i: int| 0 <= i < old(self).count() ==> #[trigger] final(self).received_by(i) == old(self).received_by(i),
            forall|i: int| 0 <= i < old(self).count() ==> #[trigger] final(self).flushes_by(i) == old(self).flushes_by(i),
            final(self).calls() == old(self).calls(),
    {
        let r = Registered { handler };
        self.push_registered(r);
    }

    fn push_registered(&mut self, r: Registered)
        ensures
            final(self).count() == old(self).count() + 1,
            forall|i: int| 0 <= i < old(self).count() ==> #[trigger] final(self).received_by(i) == old(self).received_by(i),
            forall|i: int| 0 <= i < old(self).count() ==> #[trigger] final(self).flushes_by(i) == old(self).flushes_by(i),
            final(self).received_by(old(self).count() as int) == r.handler.received(),
            final(self).calls() == old(self).calls(),
    {
        self.handlers.push(r);
    }

    /// The events the `i`-th registered handler has been given.
    pub closed spec fn received_by(&self, i: int) -> Seq<TestEvent> {
        self.handlers@[i].handler.received()
    }

    /// How many times the `i`-th registered handler has been flushed.
    pub closed spec fn flushes_by(&self, i: int) -> nat {
        self.handlers@[i].handler.flushes()
    }

    /// Emit an event to all registered handlers, in registration order.
    pub fn emit(&mut self, event: TestEvent)
        ensures
            final(self).count() == old(self).count(),
            forall|i: int| 0 <= i < old(self).count() ==> #[trigger] final(self).received_by(i) == old(self).received_by(i).push(event),
            forall|i: int| 0 <= i < old(self).count() ==> #[trigger] final(self).flushes_by(i) == old(self).flushes_by(i),
            final(self).calls() == old(self).calls() + handle_calls(old(self).count(), event),
    {
        let n = self.handlers.len();
        let mut i: usize = 0;
        while i < n
            invariant
                i <= n,
                n == self.handlers.len(),
                self.handlers@.len() == old(self).handlers@.len(),
                forall|k: int| 0 <= k < i ==> #[trigger] self.handlers@[k].handler.received() == old(self).handlers@[k].handler.received().push(event),
                self.log@ == old(self).log@ + handle_calls(i as nat, event),
                forall|k: int| 0 <= k < i ==> #[trigger] self.handlers@[k].handler.flushes() == old(self).handlers@[k].handler.flushes(),
                forall|k: int| i <= k < n ==> #[trigger] self.handlers@[k] == old(self).handlers@[k],
            decreases n - i,
        {
            self.handlers[i].handler.handle(&event);
            proof {
                assert(handle_calls((i + 1) as nat, event) =~= handle_calls(i as nat, event).push((i as nat, Some(event))));
                self.log@ = self.log@.push((i as nat, Some(event)));
            }
            i += 1;
        }
    }

    /// Flush all handlers (call at end of run), in registration order.
    pub fn flush(&mut self)
        ensures
            final(self).count() == old(self).count(),
            forall|i: int| 0 <= i < old(self).count() ==> #[trigger] final(self).received_by(i) == old(self).received_by(i),
            forall|i: int| 0 <= i < old(self).count() ==> #[trigger] final(self).flushes_by(i) == old(self).flushes_by(i) + 1,
            final(self).calls() == old(self).calls() + flush_calls(old(self).count()),
    {
        let n = self.handlers.len();
        let mut i: usize = 0;
        while i < n
            invariant
                i <= n,
                n == self.handlers.len(),
                self.handlers@.len() == old(self).handlers@.len(),
                forall|k: int| 0 <= k < i ==> #[trigger] self.handlers@[k].handler.received() == old(self).handlers@[k].handler.received(),
                forall|k: int| 0 <= k < i ==> #[trigger] self.handlers@[k].handler.flushes() == old(self).handlers@[k].handler.flushes() + 1,
                self.log@ == old(self).log@ + flush_calls(i as nat),
                forall|k: int| i <= k < n ==> #[trigger] self.handlers@[k] == old(self).handlers@[k],
            decreases n - i,
        {
            self.handlers[i].handler.flush();
            proof {
                assert(flush_calls((i + 1) as nat) =~= flush_calls(i as nat).push((i as nat, None::<TestEvent>)));
                self.log@ = self.log@.push((i as nat, None::<TestEvent>));
            }
            i += 1;
        }
    }

    /// The number of registered handlers.
    pub fn handler_count(&self) -> (n: usize)
        ensures
            n == self.count(),
    {
        self.handlers.len()
    }
}


/// A handler that collects all events, for testing.
pub struct CollectingHandler {
    pub events: Vec<TestEvent>,
    /// The events handed to this handler so far.
    pub seen: Ghost<Seq<TestEvent>>,
    /// How many times this handler has been flushed.
    pub flushed: Ghost<nat>,
}

impl CollectingHandler {
    pub fn new() -> (h: Self)
        ensures
            h.events@.len() == 0,
            h.received() == Seq::<TestEvent>::empty(),
            h.flushes() == 0,
    {
        CollectingHandler { events: Vec::new(), seen: Ghost(Seq::empty()), flushed: Ghost(0) }
    }
}

impl Default for CollectingHandler {
    fn default() -> (h: Self)
        ensures
            h.events@.len() == 0,
            h.received() == Seq::<TestEvent>::empty(),
            h.flushes() == 0,
    {
        Self::new()
    }
}

impl EventHandler for CollectingHandler {
    closed spec fn received(&self) -> Seq<TestEvent> {
        self.seen@
    }

    closed spec fn flushes(&self) -> nat {
        self.flushed@
    }

    fn flush(&mut self) {
        self.flushed = Ghost(self.flushed@ + 1);
    }

    fn handle(&mut self, event: &TestEvent)
        ensures
            final(self).events@.len() == old(self).events@.len() + 1,
            final(self).events@.drop_last() == old(self).events@,
            cloned::<TestEvent>(*event, final(self).events@.last()),
    {
        self.events.push(event.clone());
        self.seen = Ghost(self.seen@.push(*event));
    }
}

/// A handler that counts events by kind.
pub struct CountingHandler {
    pub run_started: usize,
    pub suite_started: usize,
    pub test_started: usize,
    pub test_finished: usize,
    pub suite_finished: usize,
    pub run_finished: usize,
    pub raw_output: usize,
    pub warnings: usize,
    pub total: usize,
    /// The events handed to this handler so far.
    pub seen: Ghost<Seq<TestEvent>>,
    /// How many times this handler has been flushed.
    pub flushed: Ghost<nat>,
}

impl Default for CountingHandler {
    fn default() -> (h: Self)
        ensures
            h.run_started == 0 && h.suite_started == 0 && h.test_started == 0 && h.test_finished == 0
                && h.suite_finished == 0 && h.run_finished == 0 && h.raw_output == 0 && h.warnings == 0
                && h.total == 0,
            h.received() == Seq::<TestEvent>::empty(),
            h.flushes() == 0,
    {
        CountingHandler {
            run_started: 0,
            suite_started: 0,
            test_started: 0,
            test_finished: 0,
            suite_finished: 0,
            run_finished: 0,
            raw_output: 0,
            warnings: 0,
            total: 0,
            seen: Ghost(Seq::empty()),
            flushed: Ghost(0),
        }
    }
}

/// What counting an event does: the total and the counter of the event's
/// kind grow by one (stopping at `usize::MAX`); the other counters stay.
pub open spec fn counted(before: CountingHandler, after: CountingHandler, event: TestEvent) -> bool {
    &&& after.total == min_nat((before.total + 1) as nat, usize::MAX as nat)
    &&& after.run_started == before.run_started + if event is RunStarted && before.run_started < usize::MAX { 1int } else { 0int }
    &&& after.suite_started == before.suite_started + if event is SuiteStarted && before.suite_started < usize::MAX { 1int } else { 0int }
    &&& after.test_started == before.test_started + if event is TestStarted && before.test_started < usize::MAX { 1int } else { 0int }
    &&& after.test_finished == before.test_finished + if event is TestFinished && before.test_finished < usize::MAX { 1int } else { 0int }
    &&& after.suite_finished == before.suite_finished + if event is SuiteFinished && before.suite_finished < usize::MAX { 1int } else { 0int }
    &&& after.run_finished == before.run_finished + if event is RunFinished && before.run_finished < usize::MAX { 1int } else { 0int }
    &&& after.raw_output == before.raw_output + if event is RawOutput && before.raw_output < usize::MAX { 1int } else { 0int }
    &&& after.warnings == before.warnings + if event is Warning && before.warnings < usize::MAX { 1int } else { 0int }
}

impl CountingHandler {
    /// Count one event: the total and the counter of its kind (counters
    /// stop at `usize::MAX`).
    pub fn count_event(&mut self, event: &TestEvent)
        ensures
            counted(*old(self), *final(self), *event),
            final(self).seen == old(self).seen,
            final(self).flushed == old(self).flushed,
    {
        self.total = self.total.saturating_add(1);
        match event {
            TestEvent::RunStarted { .. } => self.run_started = self.run_started.saturating_add(1),
            TestEvent::SuiteStarted { .. } => self.suite_started = self.suite_started.saturating_add(1),
            TestEvent::TestStarted { .. } => self.test_started = self.test_started.saturating_add(1),
            TestEvent::TestFinished { .. } => self.test_finished = self.test_finished.saturating_add(1),
            TestEvent::SuiteFinished { .. } => self.suite_finished = self.suite_finished.saturating_add(1),
            TestEvent::RunFinished { .. } => self.run_finished = self.run_finished.saturating_add(1),
            TestEvent::RawOutput { .. } => self.raw_output = self.raw_output.saturating_add(1),
            TestEvent::Warning { .. } => self.warnings = self.warnings.saturating_add(1),
            _ => {},
        }
    }
}

impl EventHandler for CountingHandler {
    closed spec fn received(&self) -> Seq<TestEvent> {
        self.seen@
    }

    closed spec fn flushes(&self) -> nat {
        self.flushed@
    }

    fn flush(&mut self) {
        self.flushed = Ghost(self.flushed@ + 1);
    }

    fn handle(&mut self, event: &TestEvent)
        ensures
            counted(*old(self), *final(self), *event),
    {
        let ghost before = self.seen@;
        let ghost nflushed = self.flushed@;
        self.count_event(event);
        self.seen = Ghost(before.push(*event));
        self.flushed = Ghost(nflushed);
    }
}

/// A handler that keeps raw output lines per stream.
pub struct RawOutputCollector {
    pub stdout_lines: Vec<String>,
    pub stderr_lines: Vec<String>,
    /// The events handed to this handler so far.
    pub seen: Ghost<Seq<TestEvent>>,
    /// How many times this handler has been flushed.
    pub flushed: Ghost<nat>,
}

pub open spec fn lines_join(v: Seq<String>) -> Seq<char> {
    crate::text::join(v.map_values(|s: String| s@), seq!['\n'])
}

fn join_lines(v: &Vec<String>) -> (r: String)
    ensures
        r@ == lines_join(v@),
{
    let mut parts: Vec<Vec<char>> = Vec::new();
    let mut i: usize = 0;
    while i < v.len()
        invariant
            i <= v.len(),
            parts@.map_values(|p: Vec<char>| p@) == v@.map_values(|s: String| s@).take(i as int),
        decreases v.len() - i,
    {
        let ghost before = parts@.map_values(|p: Vec<char>| p@);
        let c = chars_of_string(&v[i]);
        parts.push(c);
        assert(parts@.map_values(|p: Vec<char>| p@) =~= before.push(v@[i as int]@));
        assert(v@.map_values(|s: String| s@).take(i + 1) =~= v@.map_values(|s: String| s@).take(i as int).push(v@[i as int]@));
        i += 1;
    }
    assert(v@.map_values(|s: String| s@).take(v.len() as int) =~= v@.map_values(|s: String| s@));
    let mut sep: Vec<char> = Vec::new();
    sep.push('\n');
    assert(sep@ =~= seq!['\n']);
    string_of(&crate::text::join_v(&parts, &sep))
}

/// What keeping an event does to the lines: the line of a raw-output event
/// is added to its stream's lines; nothing else changes.
pub open spec fn collected(before: RawOutputCollector, after: RawOutputCollector, event: TestEvent) -> bool {
    match event {
        TestEvent::RawOutput { stream: Stream::Stdout, line } =>
            after.stdout_lines@.map_values(|s: String| s@) == before.stdout_lines@.map_values(|s: String| s@).push(line@)
            && after.stderr_lines@ == before.stderr_lines@,
        TestEvent::RawOutput { stream: Stream::Stderr, line } =>
            after.stderr_lines@.map_values(|s: String| s@) == before.stderr_lines@.map_values(|s: String| s@).push(line@)
            && after.stdout_lines@ == before.stdout_lines@,
        _ => after.stdout_lines@ == before.stdout_lines@ && after.stderr_lines@ == before.stderr_lines@,
    }
}

impl RawOutputCollector {
    pub fn new() -> (c: Self)
        ensures
            c.stdout_lines@.len() == 0,
            c.stderr_lines@.len() == 0,
            c.received() == Seq::<TestEvent>::empty(),
            c.flushes() == 0,
    {
        RawOutputCollector { stdout_lines: Vec::new(), stderr_lines: Vec::new(), seen: Ghost(Seq::empty()), flushed: Ghost(0) }
    }

    /// Collected stdout lines joined by newlines.
    pub fn stdout(&self) -> (r: String)
        ensures
            r@ == lines_join(self.stdout_lines@),
    {
        join_lines(&self.stdout_lines)
    }

    /// Collected stderr lines joined by newlines.
    pub fn stderr(&self) -> (r: String)
        ensures
            r@ == lines_join(self.stderr_lines@),
    {
        join_lines(&self.stderr_lines)
    }

    /// Keep the line of a raw-output event; other events are ignored.
    pub fn collect(&mut self, event: &TestEvent)
        ensures
            collected(*old(self), *final(self), *event),
            final(self).seen == old(self).seen,
            final(self).flushed == old(self).flushed,
    {
        if let TestEvent::RawOutput { stream, line } = event {
            match stream {
                Stream::Stdout => {
                    let l = line.clone();
                    let ghost before = self.stdout_lines@;
                    self.stdout_lines.push(l);
                    assert(self.stdout_lines@.map_values(|s: String| s@) =~= before.map_values(|s: String| s@).push(line@));
                },
                Stream::Stderr => {
                    let l = line.clone();
                    let ghost before = self.stderr_lines@;
                    self.stderr_lines.push(l);
                    assert(self.stderr_lines@.map_values(|s: String| s@) =~= before.map_values(|s: String| s@).push(line@));
                },
            }
        }
    }
}

impl Default for RawOutputCollector {
    fn default() -> (c: Self)
        ensures
            c.stdout_lines@.len() == 0,
            c.stderr_lines@.len() == 0,
            c.received() == Seq::<TestEvent>::empty(),
            c.flushes() == 0,
    {
        Self::new()
    }
}

impl EventHandler for RawOutputCollector {
    closed spec fn received(&self) -> Seq<TestEvent> {
        self.seen@
    }

    closed spec fn flushes(&self) -> nat {
        self.flushed@
    }

    fn flush(&mut self) {
        self.flushed = Ghost(self.flushed@ + 1);
    }

    fn handle(&mut self, event: &TestEvent)
        ensures
            collected(*old(self), *final(self), *event),
    {
        let ghost before = self.seen@;
        let ghost nflushed = self.flushed@;
        self.collect(event);
        self.seen = Ghost(before.push(*event));
        self.flushed = Ghost(nflushed);
    }
}

/// The current instant of the monotonic clock (`Instant::now`); it depends
/// on the time of the call, so nothing is promised of it.
#[verifier::external_body]
fn instant_now() -> std::time::Instant {
    std::time::Instant::now()
}

/// Nanoseconds elapsed since `start` (`Instant::elapsed`); time-dependent,
/// so nothing is promised of it.
#[verifier::external_body]
fn elapsed_nanos(start: &std::time::Instant) -> u128 {
    start.elapsed().as_nanos()
}

/// An event handler that logs events with timestamps for debugging.
pub struct TimestampedLogger {
    start: std::time::Instant,
    entries: Vec<(Duration, String)>,
    seen: Ghost<Seq<TestEvent>>,
    flushed: Ghost<nat>,
}

pub open spec fn status_name(s: TestStatus) -> Seq<char> {
    match s {
        TestStatus::Passed => "Passed"@,
        TestStatus::Failed => "Failed"@,
        TestStatus::Skipped => "Skipped"@,
    }
}

pub open spec fn stream_name(s: Stream) -> Seq<char> {
    match s {
        Stream::Stdout => "Stdout"@,
        Stream::Stderr => "Stderr"@,
    }
}

pub open spec fn sat_usize(n: nat) -> nat {
    min_nat(n, usize::MAX as nat)
}

/// The one-line description a timestamped log keeps of an event.
pub open spec fn describe_spec(e: TestEvent) -> Seq<char> {
    match e {
        TestEvent::RunStarted { adapter, .. } => "run started: "@ + adapter@,
        TestEvent::SuiteStarted { name } => "suite started: "@ + name@,
        TestEvent::TestStarted { suite, name } => "test started: "@ + suite@ + "::"@ + name@,
        TestEvent::TestFinished { suite, test } =>
            "test finished: "@ + suite@ + "::"@ + test.name@ + " ("@ + status_name(test.status) + ")"@,
        TestEvent::SuiteFinished { suite } => "suite finished: "@ + suite.name@,
        TestEvent::RunFinished { result } =>
            "run finished: "@ + decimal(sat_usize(crate::adapters::total_cases(result@.suites))) + " tests, "@
                + decimal(sat_usize(crate::adapters::total_status(result@.suites, TestStatus::Passed)))
                + " passed, "@ + decimal(sat_usize(crate::adapters::total_status(result@.suites, TestStatus::Failed)))
                + " failed"@,
        TestEvent::RawOutput { stream, .. } => "raw output ("@ + stream_name(stream) + ")"@,
        TestEvent::WatchRerun { changed_files } => "watch rerun: "@ + decimal(changed_files@.len()) + " files changed"@,
        TestEvent::RetryStarted { test_name, attempt, .. } => "retry: "@ + test_name@ + " attempt "@ + decimal(attempt as nat),
        TestEvent::RetryFinished { test_name, passed, .. } =>
            "retry finished: "@ + test_name@ + " "@ + if passed { "passed"@ } else { "failed"@ },
        TestEvent::FilterApplied { pattern, matched_count } =>
            "filter: '"@ + pattern@ + "' matched "@ + decimal(matched_count as nat) + " tests"@,
        TestEvent::ParallelAdapterStarted { adapter } => "parallel started: "@ + adapter@,
        TestEvent::ParallelAdapterFinished { adapter, .. } => "parallel finished: "@ + adapter@,
        TestEvent::Warning { message } => "warning: "@ + message@,
        TestEvent::Progress { message, current, total } =>
            "progress: "@ + message@ + " ("@ + decimal(current as nat) + "/"@ + decimal(total as nat) + ")"@,
    }
}

fn status_text(s: TestStatus) -> (r: &'static str)
    ensures
        r@ == status_name(s),
{
    match s {
        TestStatus::Passed => "Passed",
        TestStatus::Failed => "Failed",
        TestStatus::Skipped => "Skipped",
    }
}

/// The one-line description of an event.
pub fn describe_event(event: &TestEvent) -> (r: String)
    ensures
        r@ == describe_spec(*event),
{
    let mut d: Vec<char> = Vec::new();
    match event {
        TestEvent::RunStarted { adapter, .. } => {
            append_str(&mut d, "run started: ");
            append(&mut d, &chars_of_string(adapter));
        },
        TestEvent::SuiteStarted { name } => {
            append_str(&mut d, "suite started: ");
            append(&mut d, &chars_of_string(name));
        },
        TestEvent::TestStarted { suite, name } => {
            append_str(&mut d, "test started: ");
            append(&mut d, &chars_of_string(suite));
            append_str(&mut d, "::");
            append(&mut d, &chars_of_string(name));
        },
        TestEvent::TestFinished { suite, test } => {
            append_str(&mut d, "test finished: ");
            append(&mut d, &chars_of_string(suite));
            append_str(&mut d, "::");
            append(&mut d, &chars_of_string(&test.name));
            append_str(&mut d, " (");
            append_str(&mut d, status_text(test.status));
            append_str(&mut d, ")");
        },
        TestEvent::SuiteFinished { suite } => {
            append_str(&mut d, "suite finished: ");
            append(&mut d, &chars_of_string(&suite.name));
        },
        TestEvent::RunFinished { result } => {
            append_str(&mut d, "run finished: ");
            append(&mut d, &fmt_usize(result.total_tests()));
            append_str(&mut d, " tests, ");
            append(&mut d, &fmt_usize(result.total_passed()));
            append_str(&mut d, " passed, ");
            append(&mut d, &fmt_usize(result.total_failed()));
            append_str(&mut d, " failed");
        },
        TestEvent::RawOutput { stream, .. } => {
            append_str(&mut d, "raw output (");
            append_str(&mut d, match stream { Stream::Stdout => "Stdout", Stream::Stderr => "Stderr" });
            append_str(&mut d, ")");
        },
        TestEvent::WatchRerun { changed_files } => {
            append_str(&mut d, "watch rerun: ");
            append(&mut d, &fmt_usize(changed_files.len()));
            append_str(&mut d, " files changed");
        },
        TestEvent::RetryStarted { test_name, attempt, .. } => {
            append_str(&mut d, "retry: ");
            append(&mut d, &chars_of_string(test_name));
            append_str(&mut d, " attempt ");
            append(&mut d, &fmt_u128(*attempt as u128));
        },
        TestEvent::RetryFinished { test_name, passed, .. } => {
            append_str(&mut d, "retry finished: ");
            append(&mut d, &chars_of_string(test_name));
            append_str(&mut d, " ");
            append_str(&mut d, if *passed { "passed" } else { "failed" });
        },
        TestEvent::FilterApplied { pattern, matched_count } => {
            append_str(&mut d, "filter: '");
            append(&mut d, &chars_of_string(pattern));
            append_str(&mut d, "' matched ");
            append(&mut d, &fmt_usize(*matched_count));
            append_str(&mut d, " tests");
        },
        TestEvent::ParallelAdapterStarted { adapter } => {
            append_str(&mut d, "parallel started: ");
            append(&mut d, &chars_of_string(adapter));
        },
        TestEvent::ParallelAdapterFinished { adapter, .. } => {
            append_str(&mut d, "parallel finished: ");
            append(&mut d, &chars_of_string(adapter));
        },
        TestEvent::Warning { message } => {
            append_str(&mut d, "warning: ");
            append(&mut d, &chars_of_string(message));
        },
        TestEvent::Progress { message, current, total } => {
            append_str(&mut d, "progress: ");
            append(&mut d, &chars_of_string(message));
            append_str(&mut d, " (");
            append(&mut d, &fmt_usize(*current));
            append_str(&mut d, "/");
            append(&mut d, &fmt_usize(*total));
            append_str(&mut d, ")");
        },
    }
    assert(d@ =~= describe_spec(*event));
    string_of(&d)
}

impl TimestampedLogger {
    pub fn new() -> (l: Self)
        ensures
            l@.len() == 0,
            l.received() == Seq::<TestEvent>::empty(),
            l.flushes() == 0,
    {
        TimestampedLogger { start: instant_now(), entries: Vec::new(), seen: Ghost(Seq::empty()), flushed: Ghost(0) }
    }

    /// Logged entries: time since creation and description.
    pub fn entries(&self) -> (r: &[(Duration, String)])
        ensures
            r@.map_values(|e: (Duration, String)| e.1@) == self@,
    {
        self.entries.as_slice()
    }

    /// Log an event with the time elapsed since creation.
    pub fn log(&mut self, event: &TestEvent)
        ensures
            final(self)@ == old(self)@.push(describe_spec(*event)),
    {
        let elapsed = Duration::from_nanos_u128(elapsed_nanos(&self.start));
        let d = describe_event(event);
        let ghost before = self.entries@;
        self.entries.push((elapsed, d));
        assert(self.entries@.map_values(|e: (Duration, String)| e.1@) =~= before.map_values(|e: (Duration, String)| e.1@).push(d@));
    }
}

impl View for TimestampedLogger {
    type V = Seq<Seq<char>>;

    /// Descriptions logged so far, in order.
    closed spec fn view(&self) -> Seq<Seq<char>> {
        self.entries@.map_values(|e: (Duration, String)| e.1@)
    }
}

impl Default for TimestampedLogger {
    fn default() -> (l: Self)
        ensures
            l@.len() == 0,
            l.received() == Seq::<TestEvent>::empty(),
            l.flushes() == 0,
    {
        Self::new()
    }
}

impl EventHandler for TimestampedLogger {
    closed spec fn received(&self) -> Seq<TestEvent> {
        self.seen@
    }

    closed spec fn flushes(&self) -> nat {
        self.flushed@
    }

    fn flush(&mut self) {
        self.flushed = Ghost(self.flushed@ + 1);
    }

    fn handle(&mut self, event: &TestEvent)
        ensures
            final(self)@ == old(self)@.push(describe_spec(*event)),
    {
        let ghost before = self.seen@;
        let ghost nflushed = self.flushed@;
        self.log(event);
        self.seen = Ghost(before.push(*event));
        self.flushed = Ghost(nflushed);
    }
}

} // verus!
