//! Continuous bootnode probing: verified core logic.
//!
//! The library holds the decision logic of a daemon that checks whether
//! blockchain bootnodes enable peer discovery: port allocation, the metrics
//! payload parser, the retry/backoff policy, the polling state machine, the
//! outcome/result model, the result-document merge, and the admission gate
//! that bounds concurrency.  Process spawning, HTTP, and file I/O live in the
//! surrounding application, which drives these functions.

pub mod backoff;
pub mod config;
pub mod gate;
pub mod outcome;
pub mod parse;
pub mod poller;
pub mod ports;
pub mod spawn;
pub mod store;
pub mod telemetry;
