pub mod accelerator;
pub mod commands;
pub mod config;
pub mod config_sync;
pub mod dashboard;
pub mod detect;
pub mod diagnostics;
pub mod digest;
pub mod download;
pub mod error;
pub mod events;
pub mod install;
pub mod launch_options;
pub mod manifest;
pub mod matchmaking_fix;
pub mod number;
pub mod offline;
pub mod process;
pub mod proxy;
pub mod telemetry;
pub mod text;
pub mod updater;
pub mod url_text;
