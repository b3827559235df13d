//! Core state model of a terminal dashboard for a container runtime:
//! bounded stats windows, timestamp-deduplicated log buffers, a multi-key
//! sort engine with tri-state cycling, snapshot reconciliation that
//! preserves per-item history and selection, panel navigation, and the
//! input dispatcher that routes key and mouse events to state mutations
//! or outbound runtime commands.

pub mod app_data;
pub mod app_error;
pub mod docker_data;
pub mod input_handler;
pub mod text;
pub mod ui;
