//! Sections of the `testx.toml` configuration.

use vstd::prelude::*;
use std::collections::HashMap;
use crate::text::{chars_of, string_of};

verus! {

/// Filter configuration section.
#[derive(Debug, Clone)]
pub struct FilterConfig {
    /// Include pattern list (the `include` key).
    pub includes: Option<String>,
    /// Exclude pattern list.
    pub exclude: Option<String>,
}

impl Default for FilterConfig {
    fn default() -> (c: Self)
        ensures
            c.includes is None,
            c.exclude is None,
    {
        FilterConfig { includes: None, exclude: None }
    }
}

/// Watch mode configuration section.
#[derive(Debug, Clone)]
pub struct WatchConfig {
    /// Enable watch mode by default.
    pub enabled: bool,
    /// Clear screen between runs.
    pub clear: bool,
    /// Debounce time in milliseconds.
    pub debounce_ms: u64,
    /// Patterns to ignore.
    pub ignore: Vec<String>,
    /// Poll interval for network filesystems (ms, 0 = native events).
    pub poll_ms: Option<u64>,
}

/// Patterns that watch mode ignores by default.
pub open spec fn default_ignores() -> Seq<Seq<char>> {
    seq!["*.pyc"@, "__pycache__"@, ".git"@, "node_modules"@, "target"@, ".testx"@]
}

impl Default for WatchConfig {
    fn default() -> (c: Self)
        ensures
            !c.enabled,
            c.clear,
            c.debounce_ms == 300,
            c.ignore@.map_values(|s: String| s@) == default_ignores(),
            c.poll_ms is None,
    {
        let mut ignore: Vec<String> = Vec::new();
        ignore.push(string_of(&chars_of("*.pyc")));
        ignore.push(string_of(&chars_of("__pycache__")));
        ignore.push(string_of(&chars_of(".git")));
        ignore.push(string_of(&chars_of("node_modules")));
        ignore.push(string_of(&chars_of("target")));
        ignore.push(string_of(&chars_of(".testx")));
        assert(ignore@.map_values(|s: String| s@) =~= default_ignores());
        WatchConfig { enabled: false, clear: true, debounce_ms: 300, ignore, poll_ms: None }
    }
}

/// Output configuration section.
#[derive(Debug, Clone)]
pub struct OutputConfig {
    /// Default output format.
    pub format: Option<String>,
    /// Show N slowest tests.
    pub slowest: Option<usize>,
    /// Verbose mode.
    pub verbose: Option<bool>,
    /// Color mode: auto, always, never.
    pub colors: Option<String>,
}

impl Default for OutputConfig {
    fn default() -> (c: Self)
        ensures
            c.format is None && c.slowest is None && c.verbose is None && c.colors is None,
    {
        OutputConfig { format: None, slowest: None, verbose: None, colors: None }
    }
}

/// Per-adapter configuration overrides.
#[derive(Debug, Clone)]
pub struct AdapterConfig {
    /// Override runner (e.g., "pytest" vs "unittest").
    pub runner: Option<String>,
    /// Extra arguments for this adapter.
    pub args: Vec<String>,
    /// Environment variables for this adapter.
    pub env: HashMap<String, String>,
    /// Timeout override for this adapter.
    pub timeout: Option<u64>,
}

impl Default for AdapterConfig {
    fn default() -> (c: Self)
        ensures
            c.runner is None && c.args@.len() == 0 && c.timeout is None,
    {
        AdapterConfig { runner: None, args: Vec::new(), env: HashMap::new(), timeout: None }
    }
}

/// History/analytics configuration section.
#[derive(Debug, Clone)]
pub struct HistoryConfig {
    /// Enable history recording.
    pub enabled: bool,
    /// Maximum age of history entries in days.
    pub max_age_days: Option<u32>,
    /// Database path (default: .testx/history.db).
    pub db_path: Option<String>,
}

impl Default for HistoryConfig {
    fn default() -> (c: Self)
        ensures
            !c.enabled && c.max_age_days is None && c.db_path is None,
    {
        HistoryConfig { enabled: false, max_age_days: None, db_path: None }
    }
}

} // verus!
