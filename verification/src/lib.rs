//! Client-side stack for driving a remote device over a UDP text protocol.
//!
//! The verified core covers the command controller (correlation IDs, the
//! bounded result-history ring, reply classification, timeout bookkeeping)
//! and the telemetry status grammar with its latest-wins mailbox.  The
//! sockets, channels and worker loops that feed these functions live outside
//! the library and hand it plain values.

pub mod control;
pub mod error;
pub mod status;
pub mod text;
