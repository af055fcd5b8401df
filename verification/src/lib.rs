//! Cluster job monitor library: format adapters that turn scheduler status
//! text into canonical job records, a snapshot differ that detects arrivals,
//! departures and state transitions, and a report formatter for the results.

pub mod diff;
pub mod job;
pub mod pbs;
pub mod report;
pub mod slurm;
pub mod text;
pub mod timing;
