//! A queue-backed asynchronous job dispatcher.
//!
//! The library holds the verified core of a worker process that drains a
//! shared work queue: decoding raw queue entries into typed jobs, deciding
//! the polling cadence and backoff, admitting jobs for concurrent execution,
//! and dispatching each job to the handler for its kind.  The surrounding
//! process (queue transport, timers, task spawning) drives this core and
//! performs the actions it decides.

pub mod decode;
pub mod dispatch;
pub mod executor;
pub mod supervisor;
