//! A TCP connect scanner's decision core.
//!
//! The crate holds everything a scan decides: how one connection attempt is
//! classified, when a probe may start under the concurrency ceiling, how
//! progress is counted and reported, and how the outcomes become the final
//! report. Sockets, timers and task spawning are left to the caller, which
//! performs each action the scheduler hands out and feeds the event back.

pub mod aggregate;
pub mod probe;
pub mod progress;
pub mod request;
pub mod scheduler;
