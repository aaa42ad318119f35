//! Closed-loop fan control for platforms managed over IPMI: the sensor text
//! format, the per-cycle decisions and the telemetry line protocol.

pub mod command;
pub mod control;
pub mod error;
pub mod fan;
pub mod ipmi;
pub mod metrics;
pub mod pid;
pub mod search;
pub mod supervisor;
pub mod text;
pub mod usage;
