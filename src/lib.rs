//! Adaptive sampling and ranking engine of a live host-telemetry dashboard.
//!
//! The engine decides when to pull a new snapshot, keeps a short history of
//! aggregate samples, turns raw process and disk descriptors into records,
//! orders and filters them for display, and tracks the selected process.

pub mod scheduler;
pub mod text;
pub mod process;
pub mod ranking;
pub mod history;
pub mod disk;
pub mod table;
pub mod monitor;
pub mod export;
