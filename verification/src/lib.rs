//! Resource accounting for named processes: two samples of per-process CPU-time
//! and page-fault counters are compared, and what each named group of processes
//! consumed between them is reported.
//!
//! - [`counters`]: the counters of one process, and sums and differences of them.
//! - [`matcher`]: which command names belong to the configured target names.
//! - [`snapshot`]: one sample of the process table, grouped by command name.
//! - [`delta`]: what one group consumed between two samples.
//! - [`record`]: the same for every name found in both samples.
//! - [`driver`]: one run, from the first sample to the record.
//!
//! Reading the process table, waiting and writing the record out are left to
//! the program that uses the library.

pub mod counters;
pub mod delta;
pub mod driver;
pub mod matcher;
pub mod record;
pub mod snapshot;

pub use counters::{DiffStat, ProcessCounters, ProcessDiffStat, Reading, Totals};
pub use delta::{calc_total_diff_using_sort, checked_total_diff, has_distinct_pids};
pub use driver::{pid_of_entry, Action, Event, Phase, ProbeError, Sampler};
pub use matcher::{NameMatcher, PatternError};
pub use record::{diff_snapshots, DiffRecord};
pub use snapshot::{
    group_by_command, retrieve_process_stats, sample_with, skip_missing, CollectError,
    GroupSnapshot,
};
