//! A manager for local activities: the in-process scheduler that admits
//! activity requests, bounds how many run at once, multiplexes new work
//! against cancels and timeouts, evaluates retry policy on failure, and
//! drains cleanly at shutdown.
//!
//! The manager is a synchronous state machine over explicit wall-clock
//! instants (milliseconds). Timers are held as deadlines inside the state;
//! an embedding (an async runtime, or a test) drives them by calling the
//! fire entry points when a deadline passes. Every transition is verified.

pub mod alist;
pub mod laws;
pub mod manager;
pub mod retry;
pub mod timeout;
pub mod token;
pub mod types;
