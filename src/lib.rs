//! A UDP round-trip latency probe: the decisions of its receive, echo and
//! measure cycle, and the statistics that it reports once per second.
//!
//! The sockets and the clock stay with the caller. Time enters the library
//! as nanoseconds read from a monotonic clock.

mod window;
mod probe;

pub use window::{Window, keep_shortest, keep_longest, shortest_of, longest_of, window_of,
    lemma_samples_within_bounds, lemma_record_extends, lemma_window_of_wf};
pub use probe::{Probe, ProbeError, Report, zero_datagram, start, REPORT_INTERVAL_NANOS,
    lemma_report_resets_window, lemma_window_holds_samples, run, quiet, samples_of,
    elapsed_between};
