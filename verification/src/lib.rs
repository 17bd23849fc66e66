//! Verified core of easy-term, a menu-bar manager for local dev servers:
//! the project store, process supervision bookkeeping, output scanning,
//! script detection and the small text decisions the UI shows.

pub mod commands;
pub mod daemon;
pub mod env_resolver;
pub mod error;
pub mod error_logger;
pub mod group_start;
pub mod process_manager;
pub mod project_store;
pub mod script_detector;
pub mod shutdown;
pub mod protocol;
pub mod resource_monitor;
pub mod id_map;
pub mod notifications;
pub mod output;
pub mod port_checker;
pub mod text;
pub mod tray;
