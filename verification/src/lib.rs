//! Verified core of a timetable snapshot archiver.
//!
//! The library captures the logic of a small collection pipeline: raw lesson
//! records are projected into archive entries with teacher names replaced by
//! keyed digest tokens, appended to a date-partitioned archive encoded in a
//! self-describing binary format, and guarded by a run-coordination protocol
//! that consults a shared, timestamped status record before doing any work.
//! All I/O (files, network, clocks) stays outside; callers hand in bytes,
//! timestamps and fetched records as plain values.

pub mod archive;
pub mod builder;
pub mod codec;
pub mod config;
pub mod coordinator;
pub mod errors;
pub mod model;
pub mod pseudonym;
