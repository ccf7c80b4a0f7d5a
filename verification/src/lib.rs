//! Core of a terminal-session service: bounded session registry, per-session
//! lifecycle, output fan-out to attached clients, and supervision.
//!
//! The core is a deterministic state machine. Callers feed it requests and
//! operating-system events (a process was launched, produced output, exited)
//! together with the time, and carry out what it decides. It starts no
//! process and opens no terminal itself; the only reading it takes from the
//! outside is the wall clock, for the timestamps of its reports.

pub mod buffer;
pub mod clients;
pub mod clock;
pub mod config;
pub mod error;
pub mod guarantees;
pub mod launcher;
pub mod registry;
pub mod report;
pub mod session;
pub mod signal;
pub mod supervisor;
