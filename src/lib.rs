//! Telemetry and state core of a live terminal dashboard for a proving worker.
//!
//! The library samples process metrics into immutable snapshots, keeps the
//! bounded, ordered event history of the dashboard, and derives the values
//! that the rendering layer shows.
pub mod metrics;
pub mod state;
pub mod text;
pub mod ticker;
