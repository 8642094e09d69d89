//! A socket-activated supervisor and Assuan-style line-protocol client for a
//! background pinentry helper process.
//!
//! The library holds the pure, verified core: the percent codec and line
//! grammar of the wire protocol, the half-duplex session discipline, and the
//! supervisor state machine that decides when the helper must be launched and
//! when a stale socket file must be removed. The surrounding process spawning,
//! socket I/O and configuration files are driven by a thin unverified shell
//! that feeds plain values in and carries actions out.

pub mod args;
pub mod config;
pub mod error;
pub mod percent;
pub mod protocol;
pub mod session;
pub mod supervisor;
