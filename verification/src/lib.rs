//! Measures reachability and latency of a set of remote relays and ranks
//! the results.
//!
//! The crate holds the verified core: filtering, probe bookkeeping,
//! statistics over probe timings, and deterministic ranking.  Network I/O,
//! catalog loading and rendering live outside the library and talk to it
//! through plain values.

pub mod filters;
pub mod pinger;
pub mod relays;
pub mod reporter;
pub mod sorting;
