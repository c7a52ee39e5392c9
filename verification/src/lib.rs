//! Launching a bundled backend process and relaying its output to the
//! application log, as decisions on plain values.
//!
//! The crate holds no I/O. A host program resolves and spawns the backend,
//! receives its output events and writes log lines; what to spawn, how a
//! launch proceeds and what each event puts into the log is decided here.

pub mod decimal;
pub mod env;
pub mod event;
pub mod launch;
pub mod relay;
