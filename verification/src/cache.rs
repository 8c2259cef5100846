//! Smart caching: remembered run summaries keyed by a project hash.

use vstd::prelude::*;
use vstd::string::StringSliceAdditionalSpecFns;
use crate::adapters::{TestRunResult, TestStatus, total_cases, total_status};
use crate::adapters::util::{sat_sub};
use crate::hash::{StableHasher, fnv, le_bytes, FNV_OFFSET};
use crate::num::{decimal, fmt_u64, fmt_u128, fmt_usize, hex_fixed, fmt_hex_fixed, min_nat};
use crate::text::{append, append_str, chars_of, chars_of_string, string_of, starts_with};

verus! {

/// Most entries the cache keeps by default.
pub const MAX_CACHE_ENTRIES: usize = 100;

/// Configuration for smart caching.
#[derive(Debug, Clone, Copy)]
pub struct CacheConfig {
    /// Whether caching is enabled.
    pub enabled: bool,
    /// Maximum age of cache entries in seconds.
    pub max_age_secs: u64,
    /// Maximum number of cache entries.
    pub max_entries: usize,
}

impl Default for CacheConfig {
    fn default() -> (c: Self)
        ensures
            c.enabled,
            c.max_age_secs == 86400,
            c.max_entries == MAX_CACHE_ENTRIES,
    {
        CacheConfig { enabled: true, max_age_secs: 86400, max_entries: MAX_CACHE_ENTRIES }
    }
}

/// A cached test result.
#[derive(Debug)]
pub struct CacheEntry {
    /// Content hash of the project files.
    pub hash: String,
    /// Adapter name used.
    pub adapter: String,
    /// Timestamp when cached (epoch seconds).
    pub timestamp: u64,
    /// Whether the cached run passed.
    pub passed: bool,
    pub total_passed: usize,
    pub total_failed: usize,
    pub total_skipped: usize,
    pub total_tests: usize,
    /// Duration of the cached run in milliseconds.
    pub duration_ms: u64,
    /// Extra args used.
    pub extra_args: Vec<String>,
}

pub struct EntryView {
    pub hash: Seq<char>,
    pub adapter: Seq<char>,
    pub timestamp: u64,
    pub passed: bool,
    pub total_passed: usize,
    pub total_failed: usize,
    pub total_skipped: usize,
    pub total_tests: usize,
    pub duration_ms: u64,
    pub extra_args: Seq<Seq<char>>,
}

pub open spec fn strings_view(s: Seq<String>) -> Seq<Seq<char>> {
    s.map_values(|x: String| x@)
}

impl View for CacheEntry {
    type V = EntryView;

    open spec fn view(&self) -> EntryView {
        EntryView {
            hash: self.hash@,
            adapter: self.adapter@,
            timestamp: self.timestamp,
            passed: self.passed,
            total_passed: self.total_passed,
            total_failed: self.total_failed,
            total_skipped: self.total_skipped,
            total_tests: self.total_tests,
            duration_ms: self.duration_ms,
            extra_args: strings_view(self.extra_args@),
        }
    }
}

pub open spec fn entries_view(s: Seq<CacheEntry>) -> Seq<EntryView> {
    s.map_values(|e: CacheEntry| e@)
}

/// Copy of a vector of strings.
pub fn clone_strings(v: &Vec<String>) -> (r: Vec<String>)
    ensures
        strings_view(r@) == strings_view(v@),
{
    let mut r: Vec<String> = Vec::new();
    let mut i: usize = 0;
    while i < v.len()
        invariant
            i <= v.len(),
            strings_view(r@) == strings_view(v@).take(i as int),
        decreases v.len() - i,
    {
        let s = v[i].clone();
        let ghost before = r@;
        r.push(s);
        assert(strings_view(r@) =~= strings_view(before).push(s@));
        assert(strings_view(r@) =~= strings_view(v@).take(i + 1));
        i += 1;
    }
    assert(strings_view(v@).take(v.len() as int) =~= strings_view(v@));
    r
}

/// Copy of strings given as slices.
pub fn strings_of(v: &[String]) -> (r: Vec<String>)
    ensures
        strings_view(r@) == strings_view(v@),
{
    let mut r: Vec<String> = Vec::new();
    let mut i: usize = 0;
    while i < v.len()
        invariant
            i <= v.len(),
            strings_view(r@) == strings_view(v@).take(i as int),
        decreases v.len() - i,
    {
        let s = v[i].clone();
        let ghost before = r@;
        r.push(s);
        assert(strings_view(r@) =~= strings_view(before).push(s@));
        assert(strings_view(r@) =~= strings_view(v@).take(i + 1));
        i += 1;
    }
    assert(strings_view(v@).take(v.len() as int) =~= strings_view(v@));
    r
}

impl Clone for CacheEntry {
    fn clone(&self) -> (r: Self)
        ensures
            r@ == self@,
    {
        CacheEntry {
            hash: self.hash.clone(),
            adapter: self.adapter.clone(),
            timestamp: self.timestamp,
            passed: self.passed,
            total_passed: self.total_passed,
            total_failed: self.total_failed,
            total_skipped: self.total_skipped,
            total_tests: self.total_tests,
            duration_ms: self.duration_ms,
            extra_args: clone_strings(&self.extra_args),
        }
    }
}

/// Seconds since the Unix epoch on the system clock (0 if the clock is
/// before the epoch).  The value depends on the time of the call, so
/// nothing is promised of it.
#[verifier::external_body]
pub(crate) fn now_epoch_secs() -> (t: u64) {
    std::time::SystemTime::now().duration_since(std::time::UNIX_EPOCH).unwrap_or_default().as_secs()
}

/// Whether an entry is older than `max_age` seconds at time `now`.
pub open spec fn expired(e: EntryView, max_age: u64, now: u64) -> bool {
    sat_sub(now as nat, e.timestamp as nat) > max_age
}

impl CacheEntry {
    /// Whether the entry is older than `max_age_secs` at time `now`.
    pub fn is_expired_at(&self, max_age_secs: u64, now: u64) -> (b: bool)
        ensures
            b == expired(self@, max_age_secs, now),
    {
        now.saturating_sub(self.timestamp) > max_age_secs
    }

    /// Whether the entry is older than `max_age_secs` now.
    pub fn is_expired(&self, max_age_secs: u64) -> (b: bool)
        ensures
            exists|now: u64| b == expired(self@, max_age_secs, now),
    {
        let now = now_epoch_secs();
        self.is_expired_at(max_age_secs, now)
    }

    /// Age in seconds at time `now`.
    pub fn age_secs_at(&self, now: u64) -> (a: u64)
        ensures
            a == sat_sub(now as nat, self.timestamp as nat),
    {
        now.saturating_sub(self.timestamp)
    }

    /// Age in seconds now.
    pub fn age_secs(&self) -> (a: u64)
        ensures
            exists|now: u64| a == sat_sub(now as nat, self.timestamp as nat),
    {
        self.age_secs_at(now_epoch_secs())
    }
}

/// The persistent cache store.
#[derive(Debug)]
pub struct CacheStore {
    pub entries: Vec<CacheEntry>,
}

/// Index of the most recent entry with hash `h` that has not expired.
pub open spec fn lookup_index(es: Seq<EntryView>, h: Seq<char>, max_age: u64, now: u64) -> Option<int>
    decreases es.len(),
{
    if es.len() == 0 {
        None
    } else if es.last().hash == h && !expired(es.last(), max_age, now) {
        Some(es.len() - 1)
    } else {
        lookup_index(es.drop_last(), h, max_age, now)
    }
}

/// Entries whose hash differs from `h`, in order.
pub open spec fn without_hash(es: Seq<EntryView>, h: Seq<char>) -> Seq<EntryView>
    decreases es.len(),
{
    if es.len() == 0 {
        seq![]
    } else if es.last().hash != h {
        without_hash(es.drop_last(), h).push(es.last())
    } else {
        without_hash(es.drop_last(), h)
    }
}

/// Entries not expired at `now`, in order.
pub open spec fn fresh(es: Seq<EntryView>, max_age: u64, now: u64) -> Seq<EntryView>
    decreases es.len(),
{
    if es.len() == 0 {
        seq![]
    } else if !expired(es.last(), max_age, now) {
        fresh(es.drop_last(), max_age, now).push(es.last())
    } else {
        fresh(es.drop_last(), max_age, now)
    }
}

/// Entries after pruning: expired ones removed, then only the newest
/// `max_entries` kept.
pub open spec fn pruned(es: Seq<EntryView>, c: CacheConfig, now: u64) -> Seq<EntryView> {
    let f = fresh(es, c.max_age_secs, now);
    if f.len() > c.max_entries { f.skip(f.len() - c.max_entries) } else { f }
}

/// Entries after inserting `e`: older entries with its hash replaced, then
/// pruned.
pub open spec fn inserted(es: Seq<EntryView>, e: EntryView, c: CacheConfig, now: u64) -> Seq<EntryView> {
    pruned(without_hash(es, e.hash).push(e), c, now)
}

pub proof fn lemma_fresh_len(es: Seq<EntryView>, max_age: u64, now: u64)
    ensures
        fresh(es, max_age, now).len() <= es.len(),
    decreases es.len(),
{
    if es.len() > 0 {
        lemma_fresh_len(es.drop_last(), max_age, now);
    }
}

/// The entry a lookup finds, if any.
pub open spec fn lookup_spec(es: Seq<EntryView>, h: Seq<char>, max_age: u64, now: u64) -> Option<EntryView> {
    match lookup_index(es, h, max_age, now) {
        Some(i) => Some(es[i]),
        None => None,
    }
}

pub open spec fn opt_entry_view(r: Option<&CacheEntry>) -> Option<EntryView> {
    match r {
        Some(e) => Some(e@),
        None => None,
    }
}

impl CacheStore {
    pub fn new() -> (s: Self)
        ensures
            s.entries@.len() == 0,
    {
        CacheStore { entries: Vec::new() }
    }

    /// The most recent unexpired entry with the given hash at time `now`.
    pub fn lookup_at(&self, hash: &str, config: &CacheConfig, now: u64) -> (r: Option<&CacheEntry>)
        ensures
            opt_entry_view(r) == lookup_spec(entries_view(self.entries@), hash@, config.max_age_secs, now),
    {
        let ghost ev = entries_view(self.entries@);
        let hv = chars_of(hash);
        let mut i = self.entries.len();
        assert(ev.take(i as int) =~= ev);
        while i > 0
            invariant
                i <= self.entries.len(),
                ev == entries_view(self.entries@),
                hv@ == hash@,
                lookup_index(ev, hash@, config.max_age_secs, now) == lookup_index(ev.take(i as int), hash@, config.max_age_secs, now),
            decreases i,
        {
            let e = &self.entries[i - 1];
            assert(ev.take(i as int).last() == e@);
            assert(ev.take(i as int).drop_last() =~= ev.take(i - 1));
            if crate::text::eq(&chars_of_string(&e.hash), &hv) && !e.is_expired_at(config.max_age_secs, now) {
                return Some(e);
            }
            i -= 1;
        }
        None
    }

    /// The most recent unexpired entry with the given hash.
    pub fn lookup(&self, hash: &str, config: &CacheConfig) -> (r: Option<&CacheEntry>)
        ensures
            exists|now: u64| opt_entry_view(r) == #[trigger] lookup_spec(entries_view(self.entries@), hash@, config.max_age_secs, now),
    {
        let now = now_epoch_secs();
        self.lookup_at(hash, config, now)
    }

    /// Remove expired and excess entries at time `now`.
    pub fn prune_at(&mut self, config: &CacheConfig, now: u64)
        ensures
            entries_view(final(self).entries@) == pruned(entries_view(old(self).entries@), *config, now),
    {
        let ghost ev = entries_view(self.entries@);
        let mut kept: Vec<CacheEntry> = Vec::new();
        let mut i: usize = 0;
        while i < self.entries.len()
            invariant
                i <= self.entries.len(),
                ev == entries_view(self.entries@),
                entries_view(kept@) == fresh(ev.take(i as int), config.max_age_secs, now),
            decreases self.entries.len() - i,
        {
            assert(ev.take(i + 1).drop_last() =~= ev.take(i as int));
            assert(ev.take(i + 1).last() == self.entries@[i as int]@);
            if !self.entries[i].is_expired_at(config.max_age_secs, now) {
                let e = self.entries[i].clone();
                let ghost before = kept@;
                kept.push(e);
                assert(entries_view(kept@) =~= entries_view(before).push(e@));
            }
            i += 1;
        }
        assert(ev.take(self.entries.len() as int) =~= ev);
        if kept.len() > config.max_entries {
            let excess = kept.len() - config.max_entries;
            let mut tail: Vec<CacheEntry> = Vec::new();
            let mut k = excess;
            let ghost kv = entries_view(kept@);
            while k < kept.len()
                invariant
                    excess <= k <= kept.len(),
                    kv == entries_view(kept@),
                    entries_view(tail@) == kv.subrange(excess as int, k as int),
                decreases kept.len() - k,
            {
                let e = kept[k].clone();
                let ghost before = tail@;
                tail.push(e);
                assert(entries_view(tail@) =~= entries_view(before).push(e@));
                assert(kv.subrange(excess as int, k + 1) =~= kv.subrange(excess as int, k as int).push(kv[k as int]));
                k += 1;
            }
            assert(kv.subrange(excess as int, kept.len() as int) =~= kv.skip(excess as int));
            self.entries = tail;
        } else {
            self.entries = kept;
        }
    }

    /// Remove expired and excess entries.
    pub fn prune(&mut self, config: &CacheConfig)
        ensures
            exists|now: u64| entries_view(final(self).entries@) == pruned(entries_view(old(self).entries@), *config, now),
    {
        let now = now_epoch_secs();
        self.prune_at(config, now);
    }

    /// Insert an entry at time `now`, replacing entries with the same hash.
    pub fn insert_at(&mut self, entry: CacheEntry, config: &CacheConfig, now: u64)
        ensures
            entries_view(final(self).entries@) == inserted(entries_view(old(self).entries@), entry@, *config, now),
    {
        let ghost ev = entries_view(self.entries@);
        let hv = chars_of_string(&entry.hash);
        let mut kept: Vec<CacheEntry> = Vec::new();
        let mut i: usize = 0;
        while i < self.entries.len()
            invariant
                i <= self.entries.len(),
                ev == entries_view(self.entries@),
                hv@ == entry.hash@,
                entries_view(kept@) == without_hash(ev.take(i as int), entry.hash@),
            decreases self.entries.len() - i,
        {
            assert(ev.take(i + 1).drop_last() =~= ev.take(i as int));
            assert(ev.take(i + 1).last() == self.entries@[i as int]@);
            if !crate::text::eq(&chars_of_string(&self.entries[i].hash), &hv) {
                let e = self.entries[i].clone();
                let ghost before = kept@;
                kept.push(e);
                assert(entries_view(kept@) =~= entries_view(before).push(e@));
            }
            i += 1;
        }
        assert(ev.take(self.entries.len() as int) =~= ev);
        let ghost before = kept@;
        let ghost ent = entry@;
        kept.push(entry);
        assert(entries_view(kept@) =~= entries_view(before).push(ent));
        self.entries = kept;
        self.prune_at(config, now);
    }

    /// Insert an entry, replacing entries with the same hash, then prune.
    pub fn insert(&mut self, entry: CacheEntry, config: &CacheConfig)
        ensures
            exists|now: u64| entries_view(final(self).entries@) == inserted(entries_view(old(self).entries@), entry@, *config, now),
    {
        let now = now_epoch_secs();
        self.insert_at(entry, config, now);
    }

    /// Remove all entries.
    pub fn clear(&mut self)
        ensures
            final(self).entries@.len() == 0,
    {
        self.entries.clear();
    }

    pub fn len(&self) -> (n: usize)
        ensures
            n == self.entries@.len(),
    {
        self.entries.len()
    }

    pub fn is_empty(&self) -> (b: bool)
        ensures
            b == (self.entries@.len() == 0),
    {
        self.entries.len() == 0
    }
}

impl Default for CacheStore {
    fn default() -> (s: Self)
        ensures
            s.entries@.len() == 0,
    {
        Self::new()
    }
}

/// After inserting an entry that is fresh at `now` into a cache that keeps
/// at least one entry, looking its hash up at `now` gives that entry.
pub proof fn law_insert_then_lookup(es: Seq<EntryView>, e: EntryView, c: CacheConfig, now: u64)
    requires
        !expired(e, c.max_age_secs, now),
        c.max_entries >= 1,
    ensures
        lookup_index(inserted(es, e, c, now), e.hash, c.max_age_secs, now) matches Some(i)
            && inserted(es, e, c, now)[i] == e,
{
    let w = without_hash(es, e.hash).push(e);
    let f = fresh(w, c.max_age_secs, now);
    assert(w.drop_last() =~= without_hash(es, e.hash));
    assert(f == fresh(without_hash(es, e.hash), c.max_age_secs, now).push(e));
    let p = pruned(w, c, now);
    assert(p.len() > 0 && p.last() == e);
    assert(lookup_index(p, e.hash, c.max_age_secs, now) == Some(p.len() - 1));
}

/// After pruning, a cache holds at most `max_entries` entries, none expired
/// at the time of pruning.
pub proof fn law_pruned_bounded(es: Seq<EntryView>, c: CacheConfig, now: u64)
    ensures
        pruned(es, c, now).len() <= c.max_entries,
        forall|i: int| 0 <= i < pruned(es, c, now).len() ==> !expired(#[trigger] pruned(es, c, now)[i], c.max_age_secs, now),
{
    lemma_fresh_all(es, c.max_age_secs, now);
    let f = fresh(es, c.max_age_secs, now);
    if f.len() > c.max_entries {
        assert forall|i: int| 0 <= i < pruned(es, c, now).len() implies !expired(#[trigger] pruned(es, c, now)[i], c.max_age_secs, now) by {
            assert(pruned(es, c, now)[i] == f[i + (f.len() - c.max_entries)]);
        }
    }
}

/// Inserting an entry leaves at most one entry with its hash: the inserted
/// entry, standing last.  It is kept unless it has expired already.
pub proof fn law_insert_one_per_hash(es: Seq<EntryView>, e: EntryView, c: CacheConfig, now: u64)
    requires
        c.max_entries >= 1,
    ensures
        forall|i: int| 0 <= i < inserted(es, e, c, now).len() && (#[trigger] inserted(es, e, c, now)[i]).hash == e.hash
            ==> i == inserted(es, e, c, now).len() - 1 && inserted(es, e, c, now)[i] == e,
        !expired(e, c.max_age_secs, now) ==> inserted(es, e, c, now).len() > 0 && inserted(es, e, c, now).last() == e,
{
    let w0 = without_hash(es, e.hash);
    let w = w0.push(e);
    assert(w.drop_last() =~= w0);
    lemma_without_hash_none(es, e.hash);
    lemma_fresh_avoids(w0, e.hash, c.max_age_secs, now);
    let f0 = fresh(w0, c.max_age_secs, now);
    let f = fresh(w, c.max_age_secs, now);
    let p = inserted(es, e, c, now);
    if expired(e, c.max_age_secs, now) {
        assert(f == f0);
        assert forall|i: int| 0 <= i < p.len() implies (#[trigger] p[i]).hash != e.hash by {
            if f.len() > c.max_entries {
                assert(p[i] == f[i + (f.len() - c.max_entries)]);
            }
        }
    } else {
        assert(f == f0.push(e));
        assert forall|i: int| 0 <= i < p.len() && (#[trigger] p[i]).hash == e.hash implies i == p.len() - 1 && p[i] == e by {
            if f.len() > c.max_entries {
                assert(p[i] == f[i + (f.len() - c.max_entries)]);
            }
        }
        if f.len() > c.max_entries {
            assert(p.last() == f.last());
        }
    }
}

proof fn lemma_without_hash_none(es: Seq<EntryView>, h: Seq<char>)
    ensures
        forall|i: int| 0 <= i < without_hash(es, h).len() ==> (#[trigger] without_hash(es, h)[i]).hash != h,
    decreases es.len(),
{
    if es.len() > 0 {
        lemma_without_hash_none(es.drop_last(), h);
        let prev = without_hash(es.drop_last(), h);
        let cur = without_hash(es, h);
        assert forall|i: int| 0 <= i < cur.len() implies (#[trigger] cur[i]).hash != h by {
            if i < prev.len() {
                assert(cur[i] == prev[i]);
            }
        }
    }
}

proof fn lemma_fresh_avoids(es: Seq<EntryView>, h: Seq<char>, max_age: u64, now: u64)
    requires
        forall|i: int| 0 <= i < es.len() ==> (#[trigger] es[i]).hash != h,
    ensures
        forall|i: int| 0 <= i < fresh(es, max_age, now).len() ==> (#[trigger] fresh(es, max_age, now)[i]).hash != h,
    decreases es.len(),
{
    if es.len() > 0 {
        let d = es.drop_last();
        assert forall|i: int| 0 <= i < d.len() implies (#[trigger] d[i]).hash != h by {
            assert(d[i] == es[i]);
        }
        lemma_fresh_avoids(d, h, max_age, now);
        assert(es[es.len() - 1].hash != h);
        let prev = fresh(d, max_age, now);
        let cur = fresh(es, max_age, now);
        assert forall|i: int| 0 <= i < cur.len() implies (#[trigger] cur[i]).hash != h by {
            if i < prev.len() {
                assert(cur[i] == prev[i]);
            }
        }
    }
}

proof fn lemma_fresh_all(es: Seq<EntryView>, max_age: u64, now: u64)
    ensures
        forall|i: int| 0 <= i < fresh(es, max_age, now).len() ==> !expired(#[trigger] fresh(es, max_age, now)[i], max_age, now),
    decreases es.len(),
{
    if es.len() > 0 {
        lemma_fresh_all(es.drop_last(), max_age, now);
        let prev = fresh(es.drop_last(), max_age, now);
        assert forall|i: int| 0 <= i < fresh(es, max_age, now).len() implies !expired(#[trigger] fresh(es, max_age, now)[i], max_age, now) by {
            if i < prev.len() {
                assert(fresh(es, max_age, now)[i] == prev[i]);
            }
        }
    }
}

// ---------------------------------------------------------------------------
// Entries from results
// ---------------------------------------------------------------------------

/// The entry that caching a run records at time `now`.
pub fn entry_from_result(hash: &str, adapter: &str, result: &TestRunResult, extra_args: &[String], now: u64) -> (e: CacheEntry)
    ensures
        e@.hash == hash@,
        e@.adapter == adapter@,
        e@.timestamp == now,
        e@.passed == (total_status(result@.suites, TestStatus::Failed) == 0),
        e@.total_passed == min_nat(total_status(result@.suites, TestStatus::Passed), usize::MAX as nat),
        e@.total_failed == min_nat(total_status(result@.suites, TestStatus::Failed), usize::MAX as nat),
        e@.total_skipped == min_nat(total_status(result@.suites, TestStatus::Skipped), usize::MAX as nat),
        e@.total_tests == min_nat(total_cases(result@.suites), usize::MAX as nat),
        e@.duration_ms == min_nat(result@.duration / 1_000_000, u64::MAX as nat),
        e@.extra_args == strings_view(extra_args@),
{
    let ms = result.duration.as_millis();
    let duration_ms = if ms > u64::MAX as u128 { u64::MAX } else { ms as u64 };
    CacheEntry {
        hash: string_of(&chars_of(hash)),
        adapter: string_of(&chars_of(adapter)),
        timestamp: now,
        passed: result.is_success(),
        total_passed: result.total_passed(),
        total_failed: result.total_failed(),
        total_skipped: result.total_skipped(),
        total_tests: result.total_tests(),
        duration_ms,
        extra_args: strings_of(extra_args),
    }
}

// ---------------------------------------------------------------------------
// Display
// ---------------------------------------------------------------------------

/// `"<n>s ago"`, `"<n>m ago"` or `"<n>h ago"`.
pub open spec fn age_text(age: nat) -> Seq<char> {
    if age < 60 {
        decimal(age) + "s ago"@
    } else if age < 3600 {
        decimal(age / 60) + "m ago"@
    } else {
        decimal(age / 3600) + "h ago"@
    }
}

/// The distance between neighbouring `f64` values around a whole number
/// `n`: 1 below 2^53, doubling with each further binary digit.
pub open spec fn f64_spacing(n: nat) -> nat
    decreases n,
{
    if n < 0x20_0000_0000_0000 { 1 } else { 2 * f64_spacing(n / 2) }
}

/// The `f64` nearest to `n` (what `n as f64` holds): `n` rounded to a
/// multiple of its spacing, a tie going to the even multiple.
pub open spec fn f64_nearest(n: nat) -> nat {
    let s = f64_spacing(n);
    let q = n / s;
    let r = n % s;
    if 2 * r > s || (2 * r == s && q % 2 == 1) { (q + 1) * s } else { q * s }
}

/// The whole number an `u64` becomes as an `f64`.
fn nearest_f64(n: u64) -> (r: u128)
    ensures
        r == f64_nearest(n as nat),
{
    let mut m: u64 = n;
    let mut sc: u128 = 1;
    let mut rem: u128 = 0;
    while m >= 0x20_0000_0000_0000
        invariant
            n == m * sc + rem,
            rem < sc,
            1 <= sc <= n as int + 1,
            f64_spacing(n as nat) == sc * f64_spacing(m as nat),
        decreases m,
    {
        let h = m / 2;
        let b = m % 2;
        proof {
            assert(f64_spacing(m as nat) == 2 * f64_spacing(h as nat));
            let x = f64_spacing(h as nat);
            assert(sc * (2 * x) == (2 * sc) * x) by (nonlinear_arith);
            assert(m * sc == h * (2 * sc) + b * sc) by (nonlinear_arith)
                requires m == 2 * h + b;
            assert(b * sc <= sc) by (nonlinear_arith) requires b <= 1;
            assert(h * (2 * sc) <= n) by (nonlinear_arith)
                requires n == h * (2 * sc) + b * sc + rem, b * sc + rem >= 0;
            assert(2 * sc <= h * (2 * sc)) by (nonlinear_arith) requires h >= 1, sc >= 1;
        }
        rem = rem + (b as u128) * sc;
        sc = 2 * sc;
        m = h;
    }
    proof {
        vstd::arithmetic::div_mod::lemma_fundamental_div_mod_converse(n as int, sc as int, m as int, rem as int);
        assert(f64_spacing(m as nat) == 1);
        let y = f64_spacing(m as nat);
        assert(sc * y == sc) by (nonlinear_arith) requires y == 1;
        assert(f64_spacing(n as nat) == sc);
        assert(n as nat / f64_spacing(n as nat) == m);
        assert(n as nat % f64_spacing(n as nat) == rem);
        assert((m as int + 1) * sc <= 0x20_0000_0000_0000 * (n as int + 1)) by (nonlinear_arith)
            requires m < 0x20_0000_0000_0000, sc <= n as int + 1;
        assert(m * sc <= (m as int + 1) * sc) by (nonlinear_arith) requires sc >= 0;
    }
    if 2 * rem > sc || (2 * rem == sc && m % 2 == 1) {
        (m as u128 + 1) * sc
    } else {
        (m as u128) * sc
    }
}

/// Cache-hit line for an entry of the given age.
pub open spec fn cache_hit_text(e: EntryView, age: nat) -> Seq<char> {
    "Cache hit ("@ + e.adapter + ") \u{2014} "@ + decimal(e.total_tests as nat) + " tests: "@
        + decimal(e.total_passed as nat) + " passed, "@ + decimal(e.total_failed as nat) + " failed, "@
        + decimal(e.total_skipped as nat) + " skipped ("@ + decimal(f64_nearest(e.duration_ms as nat)) + ".0ms, cached "@
        + age_text(age) + ")"@
}

/// Cache-hit line for `entry` at time `now`.
pub fn format_cache_hit_at(entry: &CacheEntry, now: u64) -> (r: String)
    ensures
        r@ == cache_hit_text(entry@, sat_sub(now as nat, entry.timestamp as nat)),
{
    let age = entry.age_secs_at(now);
    let mut a: Vec<char> = if age < 60 {
        let mut v = fmt_u64(age);
        append_str(&mut v, "s ago");
        v
    } else if age < 3600 {
        let mut v = fmt_u64(age / 60);
        append_str(&mut v, "m ago");
        v
    } else {
        let mut v = fmt_u64(age / 3600);
        append_str(&mut v, "h ago");
        v
    };
    let mut r = chars_of("Cache hit (");
    append(&mut r, &chars_of_string(&entry.adapter));
    append_str(&mut r, ") \u{2014} ");
    append(&mut r, &fmt_usize(entry.total_tests));
    append_str(&mut r, " tests: ");
    append(&mut r, &fmt_usize(entry.total_passed));
    append_str(&mut r, " passed, ");
    append(&mut r, &fmt_usize(entry.total_failed));
    append_str(&mut r, " failed, ");
    append(&mut r, &fmt_usize(entry.total_skipped));
    append_str(&mut r, " skipped (");
    append(&mut r, &fmt_u128(nearest_f64(entry.duration_ms)));
    append_str(&mut r, ".0ms, cached ");
    append(&mut r, &a);
    append_str(&mut r, ")");
    string_of(&r)
}

/// Cache-hit line for `entry` now.
pub fn format_cache_hit(entry: &CacheEntry) -> (r: String)
    ensures
        exists|now: u64| r@ == cache_hit_text(entry@, sat_sub(now as nat, entry.timestamp as nat)),
{
    format_cache_hit_at(entry, now_epoch_secs())
}


// ---------------------------------------------------------------------------
// Project hashing
// ---------------------------------------------------------------------------

/// Extensions of files that count as sources for the project hash.
pub open spec fn source_extensions() -> Seq<Seq<char>> {
    seq![
        "rs"@, "go"@, "py"@, "pyi"@, "js"@, "jsx"@, "ts"@, "tsx"@, "mjs"@, "cjs"@, "java"@, "kt"@,
        "kts"@, "cpp"@, "cc"@, "cxx"@, "c"@, "h"@, "hpp"@, "hxx"@, "rb"@, "ex"@, "exs"@, "php"@,
        "cs"@, "fs"@, "vb"@, "zig"@, "toml"@, "json"@, "xml"@, "yaml"@, "yml"@, "cfg"@, "ini"@,
        "gradle"@, "properties"@, "cmake"@, "lock"@, "mod"@, "sum"@,
    ]
}

fn source_extension_list() -> (r: Vec<&'static str>)
    ensures
        r@.map_values(|x: &str| x@) == source_extensions(),
{
    let r: Vec<&'static str> = vec![
        "rs", "go", "py", "pyi", "js", "jsx", "ts", "tsx", "mjs", "cjs", "java", "kt", "kts", "cpp",
        "cc", "cxx", "c", "h", "hpp", "hxx", "rb", "ex", "exs", "php", "cs", "fs", "vb", "zig",
        "toml", "json", "xml", "yaml", "yml", "cfg", "ini", "gradle", "properties", "cmake", "lock",
        "mod", "sum",
    ];
    assert(r@.map_values(|x: &str| x@) =~= source_extensions());
    r
}

/// Whether a file extension indicates a source file.
pub fn is_source_extension(ext: &str) -> (b: bool)
    ensures
        b == source_extensions().contains(ext@),
{
    let list = source_extension_list();
    let ev = chars_of(ext);
    let ghost lv = list@.map_values(|x: &str| x@);
    let mut i: usize = 0;
    while i < list.len()
        invariant
            i <= list.len(),
            lv == list@.map_values(|x: &str| x@),
            lv == source_extensions(),
            ev@ == ext@,
            forall|k: int| 0 <= k < i ==> lv[k] != ext@,
        decreases list.len() - i,
    {
        assert(lv[i as int] == list@[i as int]@);
        if crate::text::eq(&chars_of(list[i]), &ev) {
            assert(lv[i as int] == ext@);
            return true;
        }
        i += 1;
    }
    assert(!lv.contains(ext@));
    false
}

/// Directory entries the project hash never descends into or reads:
/// hidden names and build, dependency and cache directories.
pub open spec fn skipped_name(name: Seq<char>) -> bool {
    starts_with(name, seq!['.']) || seq!["target"@, "node_modules"@, "__pycache__"@, "build"@, "dist"@, "vendor"@, ".testx"@].contains(name)
}

/// Whether the project hash skips a directory entry of this name.
pub fn is_skipped_name(name: &str) -> (b: bool)
    ensures
        b == skipped_name(name@),
{
    let nv = chars_of(name);
    let mut dot: Vec<char> = Vec::new();
    dot.push('.');
    assert(dot@ =~= seq!['.']);
    if crate::text::starts_with_v(&nv, &dot) {
        return true;
    }
    let list: Vec<&'static str> = vec!["target", "node_modules", "__pycache__", "build", "dist", "vendor", ".testx"];
    let ghost lv = list@.map_values(|x: &str| x@);
    assert(lv =~= seq!["target"@, "node_modules"@, "__pycache__"@, "build"@, "dist"@, "vendor"@, ".testx"@]);
    let mut i: usize = 0;
    while i < list.len()
        invariant
            i <= list.len(),
            lv == list@.map_values(|x: &str| x@),
            lv == seq!["target"@, "node_modules"@, "__pycache__"@, "build"@, "dist"@, "vendor"@, ".testx"@],
            nv@ == name@,
            forall|k: int| 0 <= k < i ==> lv[k] != name@,
        decreases list.len() - i,
    {
        assert(lv[i as int] == list@[i as int]@);
        if crate::text::eq(&chars_of(list[i]), &nv) {
            assert(lv[i as int] == name@);
            assert(lv.contains(name@));
            return true;
        }
        i += 1;
    }
    assert(!lv.contains(name@));
    false
}

/// Code-point (equivalently UTF-8 byte) lexicographic order.
pub open spec fn path_le(a: Seq<char>, b: Seq<char>) -> bool
    decreases a.len(),
{
    if a.len() == 0 {
        true
    } else if b.len() == 0 {
        false
    } else if a[0] != b[0] {
        (a[0] as int) < (b[0] as int)
    } else {
        path_le(a.drop_first(), b.drop_first())
    }
}

pub type FileEntry = (String, u64, u64);

pub open spec fn file_view(e: (String, u64, u64)) -> (Seq<char>, u64, u64) {
    (e.0@, e.1, e.2)
}

/// Where a stable ascending insertion by path places `x`.
pub open spec fn path_insert_pos(s: Seq<(Seq<char>, u64, u64)>, x: (Seq<char>, u64, u64)) -> int
    decreases s.len(),
{
    if s.len() == 0 {
        0
    } else if path_le(s.last().0, x.0) {
        s.len() as int
    } else {
        path_insert_pos(s.drop_last(), x)
    }
}

/// Stable sort by path.
pub open spec fn sort_by_path(s: Seq<(Seq<char>, u64, u64)>) -> Seq<(Seq<char>, u64, u64)>
    decreases s.len(),
{
    if s.len() == 0 {
        seq![]
    } else {
        let rest = sort_by_path(s.drop_last());
        rest.insert(path_insert_pos(rest, s.last()), s.last())
    }
}

proof fn lemma_path_insert_pos_bounds(s: Seq<(Seq<char>, u64, u64)>, x: (Seq<char>, u64, u64))
    ensures
        0 <= path_insert_pos(s, x) <= s.len(),
    decreases s.len(),
{
    if s.len() > 0 {
        lemma_path_insert_pos_bounds(s.drop_last(), x);
    }
}

/// Bytes fed to the hasher for the files: per file its path as a string,
/// then modification time and size as `u64`s.
pub open spec fn files_bytes(s: Seq<(Seq<char>, u64, u64)>) -> Seq<u8>
    decreases s.len(),
{
    if s.len() == 0 {
        seq![]
    } else {
        let e = s.last();
        files_bytes(s.drop_last()) + vstd::utf8::encode_utf8(e.0) + seq![0xffu8] + le_bytes(e.1 as nat, 8)
            + le_bytes(e.2 as nat, 8)
    }
}

/// Hash of the adapter name and the files sorted by path, as 16 lowercase
/// hexadecimal digits.
pub open spec fn project_hash_spec(adapter: Seq<char>, files: Seq<(Seq<char>, u64, u64)>) -> Seq<char> {
    let h0 = fnv(FNV_OFFSET, vstd::utf8::encode_utf8(adapter) + seq![0xffu8]);
    hex_fixed(fnv(h0, files_bytes(sort_by_path(files))) as nat, 16)
}

/// A project hash is 16 lowercase hexadecimal digits, whatever the adapter
/// and the files.
pub proof fn law_project_hash_shape(adapter: Seq<char>, files: Seq<(Seq<char>, u64, u64)>)
    ensures
        project_hash_spec(adapter, files).len() == 16,
        forall|i: int| 0 <= i < 16 ==> crate::num::is_lower_hex(#[trigger] project_hash_spec(adapter, files)[i]),
{
    let h0 = fnv(FNV_OFFSET, vstd::utf8::encode_utf8(adapter) + seq![0xffu8]);
    crate::num::lemma_hex_fixed_shape(fnv(h0, files_bytes(sort_by_path(files))) as nat, 16);
}

proof fn lemma_path_le_refl(a: Seq<char>)
    ensures
        path_le(a, a),
    decreases a.len(),
{
    if a.len() > 0 {
        lemma_path_le_refl(a.drop_first());
    }
}

proof fn lemma_path_le_total(a: Seq<char>, b: Seq<char>)
    ensures
        path_le(a, b) || path_le(b, a),
    decreases a.len(),
{
    if a.len() > 0 && b.len() > 0 {
        if a[0] == b[0] {
            lemma_path_le_total(a.drop_first(), b.drop_first());
        } else {
            assert(a[0] as int != b[0] as int);
        }
    }
}

proof fn lemma_path_le_antisym(a: Seq<char>, b: Seq<char>)
    requires
        path_le(a, b),
        path_le(b, a),
    ensures
        a == b,
    decreases a.len(),
{
    if a.len() == 0 {
        assert(b.len() == 0);
        assert(a =~= b);
    } else {
        assert(b.len() > 0);
        assert(a[0] == b[0]);
        lemma_path_le_antisym(a.drop_first(), b.drop_first());
        assert(a =~= seq![a[0]] + a.drop_first());
        assert(b =~= seq![b[0]] + b.drop_first());
    }
}

proof fn lemma_path_le_trans(a: Seq<char>, b: Seq<char>, c: Seq<char>)
    requires
        path_le(a, b),
        path_le(b, c),
    ensures
        path_le(a, c),
    decreases a.len(),
{
    if a.len() > 0 && b.len() > 0 && c.len() > 0 && a[0] == b[0] && b[0] == c[0] {
        lemma_path_le_trans(a.drop_first(), b.drop_first(), c.drop_first());
    }
}

/// Entries in non-decreasing path order.
pub open spec fn sorted_by_path(s: Seq<(Seq<char>, u64, u64)>) -> bool {
    forall|i: int, j: int| 0 <= i < j < s.len() ==> path_le(#[trigger] s[i].0, #[trigger] s[j].0)
}

/// No two entries share a path.
pub open spec fn distinct_paths(s: Seq<(Seq<char>, u64, u64)>) -> bool {
    forall|i: int, j: int| 0 <= i < s.len() && 0 <= j < s.len() && i != j ==> #[trigger] s[i].0 != #[trigger] s[j].0
}

proof fn lemma_insert_pos_split(s: Seq<(Seq<char>, u64, u64)>, x: (Seq<char>, u64, u64))
    requires
        sorted_by_path(s),
    ensures
        0 <= path_insert_pos(s, x) <= s.len(),
        forall|i: int| 0 <= i < path_insert_pos(s, x) ==> path_le(#[trigger] s[i].0, x.0),
        forall|q: int| path_insert_pos(s, x) <= q < s.len() ==> !path_le(#[trigger] s[q].0, x.0),
    decreases s.len(),
{
    if s.len() > 0 {
        let d = s.drop_last();
        assert(sorted_by_path(d)) by {
            assert forall|i: int, j: int| 0 <= i < j < d.len() implies path_le(#[trigger] d[i].0, #[trigger] d[j].0) by {
                assert(d[i] == s[i] && d[j] == s[j]);
            }
        }
        lemma_insert_pos_split(d, x);
        if path_le(s.last().0, x.0) {
            assert forall|i: int| 0 <= i < s.len() implies path_le(#[trigger] s[i].0, x.0) by {
                if i < s.len() - 1 {
                    lemma_path_le_trans(s[i].0, s[s.len() - 1].0, x.0);
                }
            }
        } else {
            assert forall|q: int| path_insert_pos(s, x) <= q < s.len() implies !path_le(#[trigger] s[q].0, x.0) by {
                if q < s.len() - 1 {
                    assert(d[q] == s[q]);
                }
            }
            assert forall|i: int| 0 <= i < path_insert_pos(s, x) implies path_le(#[trigger] s[i].0, x.0) by {
                assert(d[i] == s[i]);
            }
        }
    }
}

proof fn lemma_sort_by_path(s: Seq<(Seq<char>, u64, u64)>)
    ensures
        sorted_by_path(sort_by_path(s)),
        sort_by_path(s).to_multiset() == s.to_multiset(),
        distinct_paths(s) ==> distinct_paths(sort_by_path(s)),
    decreases s.len(),
{
    broadcast use vstd::seq_lib::group_to_multiset_ensures;

    if s.len() == 0 {
        assert(sort_by_path(s) =~= s);
    } else {
        let d = s.drop_last();
        let x = s.last();
        let rest = sort_by_path(d);
        lemma_sort_by_path(d);
        lemma_insert_pos_split(rest, x);
        let p = path_insert_pos(rest, x);
        let r = rest.insert(p, x);
        assert(r == sort_by_path(s));
        assert(s =~= d.push(x));
        assert(r.to_multiset() == rest.to_multiset().insert(x));
        assert forall|i: int, j: int| 0 <= i < j < r.len() implies path_le(#[trigger] r[i].0, #[trigger] r[j].0) by {
            if j < p {
                assert(r[i] == rest[i] && r[j] == rest[j]);
            } else if j == p {
                assert(r[i] == rest[i]);
            } else if i < p {
                assert(r[i] == rest[i] && r[j] == rest[j - 1]);
                lemma_path_le_total(rest[j - 1].0, x.0);
                lemma_path_le_trans(rest[i].0, x.0, rest[j - 1].0);
            } else if i == p {
                assert(r[j] == rest[j - 1]);
                lemma_path_le_total(rest[j - 1].0, x.0);
            } else {
                assert(r[i] == rest[i - 1] && r[j] == rest[j - 1]);
            }
        }
        if distinct_paths(s) {
            assert(distinct_paths(d)) by {
                assert forall|i: int, j: int| 0 <= i < d.len() && 0 <= j < d.len() && i != j implies #[trigger] d[i].0 != #[trigger] d[j].0 by {
                    assert(d[i] == s[i] && d[j] == s[j]);
                }
            }
            assert forall|k: int| 0 <= k < rest.len() implies #[trigger] rest[k].0 != x.0 by {
                assert(rest.to_multiset().count(rest[k]) > 0);
                assert(d.contains(rest[k]));
                let m = choose|m: int| 0 <= m < d.len() && d[m] == rest[k];
                assert(s[m] == d[m]);
                assert(s[s.len() - 1] == x);
            }
            assert forall|i: int, j: int| 0 <= i < r.len() && 0 <= j < r.len() && i != j implies #[trigger] r[i].0 != #[trigger] r[j].0 by {
                if i != p && j != p {
                    let ii = if i < p { i } else { i - 1 };
                    let jj = if j < p { j } else { j - 1 };
                    assert(r[i] == rest[ii] && r[j] == rest[jj]);
                } else if i == p {
                    let jj = if j < p { j } else { j - 1 };
                    assert(r[j] == rest[jj]);
                } else {
                    let ii = if i < p { i } else { i - 1 };
                    assert(r[i] == rest[ii]);
                }
            }
        }
    }
}

proof fn lemma_sorted_unique(r1: Seq<(Seq<char>, u64, u64)>, r2: Seq<(Seq<char>, u64, u64)>)
    requires
        sorted_by_path(r1),
        sorted_by_path(r2),
        distinct_paths(r1),
        r1.to_multiset() == r2.to_multiset(),
    ensures
        r1 == r2,
    decreases r1.len(),
{
    broadcast use vstd::seq_lib::group_to_multiset_ensures;

    assert(r1.len() == r2.len()) by {
        assert(r1.len() == r1.to_multiset().len());
        assert(r2.len() == r2.to_multiset().len());
    }
    if r1.len() == 0 {
        assert(r1 =~= r2);
    } else {
        assert(r2.to_multiset().count(r2[0]) > 0);
        assert(r1.contains(r2[0]));
        let j = choose|j: int| 0 <= j < r1.len() && r1[j] == r2[0];
        assert(r1.to_multiset().count(r1[0]) > 0);
        assert(r2.contains(r1[0]));
        let k = choose|k: int| 0 <= k < r2.len() && r2[k] == r1[0];
        if j > 0 {
            assert(path_le(r1[0].0, r1[j].0));
        } else {
            lemma_path_le_refl(r1[0].0);
        }
        if k > 0 {
            assert(path_le(r2[0].0, r2[k].0));
        } else {
            lemma_path_le_refl(r2[0].0);
        }
        lemma_path_le_antisym(r1[0].0, r2[0].0);
        assert(j == 0);
        assert(r1[0] == r2[0]);
        let t1 = r1.remove(0);
        let t2 = r2.remove(0);
        assert(t1.to_multiset() == r1.to_multiset().remove(r1[0]));
        assert(t2.to_multiset() == r2.to_multiset().remove(r2[0]));
        assert(sorted_by_path(t1)) by {
            assert forall|a: int, b: int| 0 <= a < b < t1.len() implies path_le(#[trigger] t1[a].0, #[trigger] t1[b].0) by {
                assert(t1[a] == r1[a + 1] && t1[b] == r1[b + 1]);
            }
        }
        assert(sorted_by_path(t2)) by {
            assert forall|a: int, b: int| 0 <= a < b < t2.len() implies path_le(#[trigger] t2[a].0, #[trigger] t2[b].0) by {
                assert(t2[a] == r2[a + 1] && t2[b] == r2[b + 1]);
            }
        }
        assert(distinct_paths(t1)) by {
            assert forall|a: int, b: int| 0 <= a < t1.len() && 0 <= b < t1.len() && a != b implies #[trigger] t1[a].0 != #[trigger] t1[b].0 by {
                assert(t1[a] == r1[a + 1] && t1[b] == r1[b + 1]);
            }
        }
        lemma_sorted_unique(t1, t2);
        assert(r1 =~= seq![r1[0]] + t1);
        assert(r2 =~= seq![r2[0]] + t2);
    }
}

/// The project hash does not depend on the order in which the source files
/// were listed, as long as no two entries share a path.
pub proof fn law_hash_ignores_file_order(
    adapter: Seq<char>,
    files: Seq<(Seq<char>, u64, u64)>,
    reordered: Seq<(Seq<char>, u64, u64)>,
)
    requires
        distinct_paths(files),
        reordered.to_multiset() == files.to_multiset(),
    ensures
        project_hash_spec(adapter, reordered) == project_hash_spec(adapter, files),
{
    lemma_sort_by_path(files);
    lemma_sort_by_path(reordered);
    lemma_sorted_unique(sort_by_path(files), sort_by_path(reordered));
}

pub proof fn lemma_fnv_concat(h: u64, a: Seq<u8>, b: Seq<u8>)
    ensures
        fnv(h, a + b) == fnv(fnv(h, a), b),
    decreases b.len(),
{
    if b.len() == 0 {
        assert(a + b =~= a);
    } else {
        lemma_fnv_concat(h, a, b.drop_last());
        assert((a + b).drop_last() =~= a + b.drop_last());
    }
}

fn path_le_exec(a: &Vec<char>, b: &Vec<char>) -> (r: bool)
    ensures
        r == path_le(a@, b@),
{
    let mut i: usize = 0;
    assert(a@.skip(0) =~= a@ && b@.skip(0) =~= b@);
    while i < a.len() && i < b.len() && a[i] == b[i]
        invariant
            i <= a.len(),
            i <= b.len(),
            path_le(a@, b@) == path_le(a@.skip(i as int), b@.skip(i as int)),
        decreases a.len() - i,
    {
        assert(a@.skip(i as int).drop_first() =~= a@.skip(i + 1));
        assert(b@.skip(i as int).drop_first() =~= b@.skip(i + 1));
        i += 1;
    }
    if i == a.len() {
        return true;
    }
    if i == b.len() {
        return false;
    }
    a[i] < b[i]
}

/// Hash identifying a project state from the adapter name and the
/// (path, modification time, size) of its source files.
pub fn hash_source_files(adapter_name: &str, files: &Vec<FileEntry>) -> (r: String)
    ensures
        r@ == project_hash_spec(adapter_name@, files@.map_values(|e: FileEntry| file_view(e))),
{
    let ghost fv = files@.map_values(|e: FileEntry| file_view(e));
    // stable insertion sort by path
    let mut sorted: Vec<(Vec<char>, u64, u64)> = Vec::new();
    let mut i: usize = 0;
    while i < files.len()
        invariant
            i <= files.len(),
            fv == files@.map_values(|e: FileEntry| file_view(e)),
            sorted@.map_values(|e: (Vec<char>, u64, u64)| (e.0@, e.1, e.2)) == sort_by_path(fv.take(i as int)),
        decreases files.len() - i,
    {
        let x = (chars_of_string(&files[i].0), files[i].1, files[i].2);
        let ghost xv = (x.0@, x.1, x.2);
        assert(fv.take(i + 1).drop_last() =~= fv.take(i as int));
        assert(fv.take(i + 1).last() == xv);
        let ghost sv = sorted@.map_values(|e: (Vec<char>, u64, u64)| (e.0@, e.1, e.2));
        let mut j = sorted.len();
        assert(sv.take(j as int) =~= sv);
        while j > 0 && !path_le_exec(&sorted[j - 1].0, &x.0)
            invariant
                j <= sorted.len(),
                sv == sorted@.map_values(|e: (Vec<char>, u64, u64)| (e.0@, e.1, e.2)),
                xv == (x.0@, x.1, x.2),
                path_insert_pos(sv, xv) == path_insert_pos(sv.take(j as int), xv),
            decreases j,
        {
            assert(sv.take(j as int).drop_last() =~= sv.take(j - 1));
            j -= 1;
        }
        if j > 0 {
            assert(sv.take(j as int).last() == sv[j - 1]);
        }
        proof {
            lemma_path_insert_pos_bounds(sv, xv);
        }
        sorted.insert(j, x);
        assert(sorted@.map_values(|e: (Vec<char>, u64, u64)| (e.0@, e.1, e.2)) =~= sv.insert(j as int, xv));
        i += 1;
    }
    assert(fv.take(files.len() as int) =~= fv);
    let ghost sv = sorted@.map_values(|e: (Vec<char>, u64, u64)| (e.0@, e.1, e.2));
    let mut hasher = StableHasher::new();
    hasher.write_str(adapter_name);
    proof {
        lemma_fnv_concat(FNV_OFFSET, adapter_name.spec_bytes(), seq![0xffu8]);
    }
    let ghost h0 = hasher.state();
    let mut k: usize = 0;
    while k < sorted.len()
        invariant
            k <= sorted.len(),
            sv == sorted@.map_values(|e: (Vec<char>, u64, u64)| (e.0@, e.1, e.2)),
            hasher.state() == fnv(h0, files_bytes(sv.take(k as int))),
        decreases sorted.len() - k,
    {
        let ghost before = hasher.state();
        let p = string_of(&sorted[k].0);
        hasher.write_str(p.as_str());
        hasher.write_u64(sorted[k].1);
        hasher.write_u64(sorted[k].2);
        proof {
            let e = sv[k as int];
            assert(sv.take(k + 1).drop_last() =~= sv.take(k as int));
            assert(sv.take(k + 1).last() == e);
            let pre = files_bytes(sv.take(k as int));
            let a = vstd::utf8::encode_utf8(e.0);
            lemma_fnv_concat(h0, pre, a);
            lemma_fnv_concat(h0, pre + a, seq![0xffu8]);
            lemma_fnv_concat(h0, pre + a + seq![0xffu8], le_bytes(e.1 as nat, 8));
            lemma_fnv_concat(h0, pre + a + seq![0xffu8] + le_bytes(e.1 as nat, 8), le_bytes(e.2 as nat, 8));
        }
        k += 1;
    }
    assert(sv.take(sorted.len() as int) =~= sv);
    let h = hasher.finish();
    let hex = fmt_hex_fixed(h, 16);
    string_of(&hex)
}

} // verus!
