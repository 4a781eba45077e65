//! Progress accounting for a streaming copy.
//!
//! A copy moves chunks of bytes from a reader to a writer through a rate
//! monitor. This library holds the decisions of the three stages: what the
//! reader forwards after each read, how the monitor counts bytes and throttles
//! its reports, what the writer does with each chunk, and how the results of
//! the stages combine. Reading, writing, channels and the clock belong to the
//! caller, which hands their results in as plain values.
//!
//! - [`timer`]: the throttle that allows one report in each period.
//! - [`rate`]: the bytes per second between two observations.
//! - [`report`]: the progress line and the text of its parts.
//! - [`monitor`]: the monitor's step for each chunk, and what holds of a
//!   whole stream of them.
//! - [`stage`]: the steps of the reader and the writer, and the result of a
//!   run.
//! - [`pipeline`]: what holds of a run as a whole, from the first read to the
//!   last write.

pub mod monitor;
pub mod pipeline;
pub mod rate;
pub mod report;
pub mod stage;
pub mod timer;
