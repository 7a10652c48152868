//! Startup core of a small network service: resolution of the runtime
//! configuration from an optional TOML source with compiled-in defaults,
//! and the decision logic of the logging pipeline (sink, verbosity floor,
//! rotation cadence, timestamp formatting, per-target filtering, and the
//! install-once guard).
//!
//! Everything here is pure: reading the config file, querying the clock and
//! installing the global subscriber are left to the embedding binary, which
//! hands plain values in and carries the returned decisions out.

pub mod config;
pub mod digits;
pub mod logging;
pub mod text;
pub mod timestamp;
pub mod toml;
