//! Bookkeeping for the log of a run: which operations are under way, and
//! how many succeeded, failed, or gave rise to warnings and errors.
//! Writing log lines is left to the caller.

use std::collections::HashMap;
use std::time::{Duration, Instant};
use vstd::prelude::*;
use crate::errors::CrawlerError;

verus! {

/// `std::time::Instant`, carried through opaquely.
#[verifier::external_type_specification]
#[verifier::external_body]
pub struct ExInstant(Instant);

/// Calls `Instant::now`, which reads the clock. Nothing is claimed of the result.
#[verifier::external_body]
pub(crate) fn instant_now() -> (r: Instant) {
    Instant::now()
}

/// Calls `Instant::elapsed`, which reads the clock. Nothing is claimed of the result.
#[verifier::external_body]
pub(crate) fn instant_elapsed(since: &Instant) -> (r: Duration) {
    since.elapsed()
}

/// Counts of what the log has seen.
#[derive(Debug, Default)]
pub struct LoggingStats {
    pub total_operations: usize,
    pub successful_operations: usize,
    pub failed_operations: usize,
    pub warnings_count: usize,
    pub errors_count: usize,
}

/// How much a log entry matters.
#[derive(Debug, Clone, Copy, PartialEq, Eq, Structural)]
pub enum LogLevel {
    Trace,
    Debug,
    Info,
    Warn,
    Error,
}

/// What a log entry is about.
#[derive(Debug)]
pub struct LogContext {
    pub operation: String,
    pub url: Option<String>,
    pub domain: Option<String>,
    pub file_path: Option<String>,
    pub additional_data: HashMap<String, String>,
}

/// What an operation cost.
#[derive(Debug)]
pub struct PerformanceMetrics {
    pub duration: Duration,
    pub memory_usage_bytes: usize,
    pub items_processed: usize,
    pub bytes_processed: usize,
}

impl PerformanceMetrics {
    /// Metrics of an operation that took `duration` for `items_processed`
    /// items; memory and bytes are not known yet.
    pub fn new(duration: Duration, items_processed: usize) -> (r: Self)
        ensures
            r.duration == duration,
            r.items_processed == items_processed,
            r.memory_usage_bytes == 0,
            r.bytes_processed == 0,
    {
        PerformanceMetrics { duration, memory_usage_bytes: 0, items_processed, bytes_processed: 0 }
    }

    /// These metrics with the memory used set to `bytes`.
    pub fn with_memory_usage(self, bytes: usize) -> (r: Self)
        ensures
            r == (PerformanceMetrics { memory_usage_bytes: bytes, ..self }),
    {
        let mut r = self;
        r.memory_usage_bytes = bytes;
        r
    }

    /// These metrics with the bytes processed set to `bytes`.
    pub fn with_bytes_processed(self, bytes: usize) -> (r: Self)
        ensures
            r == (PerformanceMetrics { bytes_processed: bytes, ..self }),
    {
        let mut r = self;
        r.bytes_processed = bytes;
        r
    }
}

/// What the bookkeeping holds: the operations under way, oldest first,
/// and the counts.
pub struct LoggerState {
    pub active: Seq<Seq<char>>,
    pub total_operations: nat,
    pub successful_operations: nat,
    pub failed_operations: nat,
    pub warnings_count: nat,
    pub errors_count: nat,
}

/// The operations under way once `name` has ended: `name` is taken out.
pub open spec fn without_operation(active: Seq<Seq<char>>, name: Seq<char>) -> Seq<Seq<char>>
    decreases active.len(),
{
    if active.len() == 0 {
        Seq::empty()
    } else if active.last() == name {
        without_operation(active.drop_last(), name)
    } else {
        without_operation(active.drop_last(), name).push(active.last())
    }
}

/// The state with one more warning.
pub open spec fn with_warning(st: LoggerState) -> LoggerState {
    LoggerState { warnings_count: st.warnings_count + 1, ..st }
}

/// The state with one more error.
pub open spec fn with_error(st: LoggerState) -> LoggerState {
    LoggerState { errors_count: st.errors_count + 1, ..st }
}

/// Keeps the books of a run's log.
pub struct CrawlerLogger {
    start_time: Instant,
    operation_timers: Vec<(String, Instant)>,
    stats: LoggingStats,
}

/// The names of the operations that are timed.
pub open spec fn timer_names(timers: Seq<(String, Instant)>) -> Seq<Seq<char>> {
    timers.map_values(|t: (String, Instant)| t.0@)
}

impl CrawlerLogger {
    /// What the bookkeeping holds.
    pub closed spec fn view(self) -> LoggerState {
        LoggerState {
            active: timer_names(self.operation_timers@),
            total_operations: self.stats.total_operations as nat,
            successful_operations: self.stats.successful_operations as nat,
            failed_operations: self.stats.failed_operations as nat,
            warnings_count: self.stats.warnings_count as nat,
            errors_count: self.stats.errors_count as nat,
        }
    }

    /// Empty books, opened now.
    pub fn new() -> (r: Self)
        ensures
            r@ == (LoggerState {
                active: Seq::empty(),
                total_operations: 0,
                successful_operations: 0,
                failed_operations: 0,
                warnings_count: 0,
                errors_count: 0,
            }),
    {
        let r = CrawlerLogger {
            start_time: instant_now(),
            operation_timers: Vec::new(),
            stats: LoggingStats {
                total_operations: 0,
                successful_operations: 0,
                failed_operations: 0,
                warnings_count: 0,
                errors_count: 0,
            },
        };
        assert(timer_names(r.operation_timers@) =~= Seq::<Seq<char>>::empty());
        r
    }

    /// Notes that the operation `operation_name` begins now. An operation
    /// of that name that was under way starts over.
    pub fn start_operation(&mut self, operation_name: &str)
        ensures
            final(self)@ == (LoggerState {
                active: without_operation(old(self)@.active, operation_name@).push(
                    operation_name@,
                ),
                ..old(self)@
            }),
    {
        let _ = self.take_timer(operation_name);
        let ghost before = timer_names(self.operation_timers@);
        self.operation_timers.push((String::from_str(operation_name), instant_now()));
        assert(timer_names(self.operation_timers@) =~= before.push(operation_name@));
    }

    /// Takes the timer of `operation_name` out, and says whether there was one.
    fn take_timer(&mut self, operation_name: &str) -> (r: bool)
        ensures
            final(self)@ == (LoggerState {
                active: without_operation(old(self)@.active, operation_name@),
                ..old(self)@
            }),
            r == old(self)@.active.contains(operation_name@),
            final(self).stats == old(self).stats,
    {
        let wanted = String::from_str(operation_name);
        let mut kept: Vec<(String, Instant)> = Vec::new();
        let mut found = false;
        let mut i: usize = 0;
        let ghost all = timer_names(self.operation_timers@);
        assert(all.take(0) =~= Seq::<Seq<char>>::empty());
        assert(timer_names(kept@) =~= Seq::<Seq<char>>::empty());
        while i < self.operation_timers.len()
            invariant
                i <= self.operation_timers.len(),
                *self == *old(self),
                wanted@ == operation_name@,
                all == timer_names(self.operation_timers@),
                timer_names(kept@) == without_operation(all.take(i as int), operation_name@),
                found == all.take(i as int).contains(operation_name@),
            decreases self.operation_timers.len() - i,
        {
            proof {
                assert(all.take(i + 1).drop_last() =~= all.take(i as int));
                assert(all.take(i + 1).last() == self.operation_timers@[i as int].0@);
            }
            let ghost seen = all.take(i as int);
            let ghost more = all.take(i + 1);
            if self.operation_timers[i].0 == wanted {
                found = true;
                assert(more[i as int] == operation_name@);
            } else {
                let ghost before = timer_names(kept@);
                kept.push((self.operation_timers[i].0.clone(), self.operation_timers[i].1));
                assert(timer_names(kept@) =~= before.push(all[i as int]));
                proof {
                    if seen.contains(operation_name@) {
                        let k = choose|k: int| 0 <= k < seen.len() && seen[k] == operation_name@;
                        assert(more[k] == operation_name@);
                    }
                    if more.contains(operation_name@) {
                        let k = choose|k: int| 0 <= k < more.len() && more[k] == operation_name@;
                        assert(seen[k] == operation_name@);
                    }
                }
            }
            i += 1;
        }
        assert(all.take(all.len() as int) =~= all);
        self.operation_timers = kept;
        found
    }

    /// Notes that the operation `operation_name` has ended, with or
    /// without success. An operation that was not under way is not counted.
    pub fn end_operation(&mut self, operation_name: &str, success: bool)
        requires
            old(self)@.total_operations < usize::MAX,
            old(self)@.successful_operations < usize::MAX,
            old(self)@.failed_operations < usize::MAX,
        ensures
            final(self)@ == if old(self)@.active.contains(operation_name@) {
                LoggerState {
                    active: without_operation(old(self)@.active, operation_name@),
                    total_operations: old(self)@.total_operations + 1,
                    successful_operations: old(self)@.successful_operations + if success {
                        1nat
                    } else {
                        0nat
                    },
                    failed_operations: old(self)@.failed_operations + if success {
                        0nat
                    } else {
                        1nat
                    },
                    ..old(self)@
                }
            } else {
                old(self)@
            },
    {
        let ghost before = self@;
        if self.take_timer(operation_name) {
            self.stats.total_operations += 1;
            if success {
                self.stats.successful_operations += 1;
            } else {
                self.stats.failed_operations += 1;
            }
        } else {
            proof {
                lemma_without_absent(before.active, operation_name@);
            }
        }
    }

    /// Notes the outcome of a classification: a failure counts as a warning.
    pub fn log_domain_detection(&mut self, domain: &str, mode: &str, success: bool)
        requires
            old(self)@.warnings_count < usize::MAX,
        ensures
            final(self)@ == if success {
                old(self)@
            } else {
                with_warning(old(self)@)
            },
    {
        if !success {
            self.stats.warnings_count += 1;
        }
    }

    /// Notes the outcome of a conversion: a failure counts as an error.
    pub fn log_html_conversion(
        &mut self,
        url: &str,
        input_size: usize,
        output_size: usize,
        success: bool,
    )
        requires
            old(self)@.errors_count < usize::MAX,
        ensures
            final(self)@ == if success {
                old(self)@
            } else {
                with_error(old(self)@)
            },
    {
        if !success {
            self.stats.errors_count += 1;
        }
    }

    /// Notes the outcome of a file operation: a failure counts as an error.
    pub fn log_file_operation(
        &mut self,
        operation: &str,
        file_path: &str,
        success: bool,
        error_msg: Option<&str>,
    )
        requires
            old(self)@.errors_count < usize::MAX,
        ensures
            final(self)@ == if success {
                old(self)@
            } else {
                with_error(old(self)@)
            },
    {
        if !success {
            self.stats.errors_count += 1;
        }
    }

    /// Notes the outcome of a fetch: a failure counts as a warning.
    pub fn log_spider_activity(
        &mut self,
        operation: &str,
        url: &str,
        success: bool,
        details: Option<&str>,
    )
        requires
            old(self)@.warnings_count < usize::MAX,
        ensures
            final(self)@ == if success {
                old(self)@
            } else {
                with_warning(old(self)@)
            },
    {
        if !success {
            self.stats.warnings_count += 1;
        }
    }

    /// Notes the outcome of loading or checking configuration: a failure
    /// counts as an error.
    pub fn log_configuration(
        &mut self,
        operation: &str,
        config_path: Option<&str>,
        success: bool,
        details: Option<&str>,
    )
        requires
            old(self)@.errors_count < usize::MAX,
        ensures
            final(self)@ == if success {
                old(self)@
            } else {
                with_error(old(self)@)
            },
    {
        if !success {
            self.stats.errors_count += 1;
        }
    }

    /// Notes an error, whether or not recovery was tried: it counts as one error.
    pub fn log_error_with_recovery(
        &mut self,
        error: &CrawlerError,
        recovery_attempted: bool,
        recovery_success: Option<bool>,
    )
        requires
            old(self)@.errors_count < usize::MAX,
        ensures
            final(self)@ == with_error(old(self)@),
    {
        self.stats.errors_count += 1;
    }

    /// The counts.
    pub fn get_stats(&self) -> (r: &LoggingStats)
        ensures
            r.total_operations == self@.total_operations,
            r.successful_operations == self@.successful_operations,
            r.failed_operations == self@.failed_operations,
            r.warnings_count == self@.warnings_count,
            r.errors_count == self@.errors_count,
    {
        &self.stats
    }

    /// The time since the books were opened.
    pub fn get_total_elapsed(&self) -> (r: Duration) {
        instant_elapsed(&self.start_time)
    }
}

/// Once an operation is taken out it is no longer under way, nothing else
/// is taken out, and operations that were each under way once still are.
pub proof fn lemma_without_operation(active: Seq<Seq<char>>, name: Seq<char>)
    ensures
        !without_operation(active, name).contains(name),
        forall|other: Seq<char>|
            other != name ==> (without_operation(active, name).contains(other) <==> active.contains(
                other,
            )),
        active.no_duplicates() ==> without_operation(active, name).no_duplicates(),
    decreases active.len(),
{
    if active.len() > 0 {
        let init = active.drop_last();
        let last = active.last();
        lemma_without_operation(init, name);
        let kept = without_operation(init, name);
        let out = without_operation(active, name);
        assert forall|other: Seq<char>| other != name implies (out.contains(other)
            <==> active.contains(other)) by {
            if out.contains(other) {
                let k = choose|k: int| 0 <= k < out.len() && out[k] == other;
                if k < kept.len() {
                    assert(kept[k] == other);
                    assert(kept.contains(other));
                    assert(init.contains(other));
                    let j = choose|j: int| 0 <= j < init.len() && init[j] == other;
                    assert(active[j] == other);
                } else {
                    assert(active[active.len() - 1] == other);
                }
            }
            if active.contains(other) {
                let j = choose|j: int| 0 <= j < active.len() && active[j] == other;
                if j < init.len() {
                    assert(init[j] == other);
                    assert(init.contains(other));
                    assert(kept.contains(other));
                    let k = choose|k: int| 0 <= k < kept.len() && kept[k] == other;
                    assert(out[k] == other);
                } else {
                    assert(out[out.len() - 1] == other);
                }
            }
        }
        if active.no_duplicates() {
            assert(init.no_duplicates());
            if last != name {
                assert(!kept.contains(last)) by {
                    if kept.contains(last) {
                        assert(init.contains(last));
                        let j = choose|j: int| 0 <= j < init.len() && init[j] == last;
                        assert(active[j] == active[active.len() - 1]);
                    }
                }
            }
        }
        if last != name {
            assert(!out.contains(name)) by {
                if out.contains(name) {
                    let k = choose|k: int| 0 <= k < out.len() && out[k] == name;
                    if k < kept.len() {
                        assert(kept[k] == name);
                    }
                }
            }
        }
    }
}

/// No operation is under way twice: beginning an operation that is under
/// way starts it over, so the operations under way stay distinct.
pub proof fn lemma_started_once(active: Seq<Seq<char>>, name: Seq<char>)
    requires
        active.no_duplicates(),
    ensures
        without_operation(active, name).push(name).no_duplicates(),
{
    lemma_without_operation(active, name);
}

/// Taking out an operation that is not under way changes nothing.
pub proof fn lemma_without_absent(active: Seq<Seq<char>>, name: Seq<char>)
    requires
        !active.contains(name),
    ensures
        without_operation(active, name) == active,
    decreases active.len(),
{
    if active.len() > 0 {
        let init = active.drop_last();
        assert(active[active.len() - 1] != name);
        assert(!init.contains(name)) by {
            if init.contains(name) {
                let k = choose|k: int| 0 <= k < init.len() && init[k] == name;
                assert(active[k] == name);
            }
        }
        lemma_without_absent(init, name);
        assert(init.push(active.last()) =~= active);
    }
}

impl Default for CrawlerLogger {
    fn default() -> (r: Self)
        ensures
            r@ == (LoggerState {
                active: Seq::empty(),
                total_operations: 0,
                successful_operations: 0,
                failed_operations: 0,
                warnings_count: 0,
                errors_count: 0,
            }),
    {
        Self::new()
    }
}

} // verus!
