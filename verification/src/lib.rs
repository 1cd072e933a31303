//! Decision logic for launching a child process and relaying its standard
//! output, standard error and termination status to three delivery sinks.
//!
//! The library holds no operating-system handle. A driver performs the reads
//! and the wait, hands each result to the state machines here, and delivers
//! what they answer.

pub mod exit;
pub mod pump;
pub mod environment;
pub mod launch;
pub mod session;
