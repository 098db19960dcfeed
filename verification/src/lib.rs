//! Verified core of a command-line client for the Elvanto church-management API.

pub mod textops;
pub mod error;
pub mod resolve;
pub mod transpose;
pub mod api;
pub mod domain;
pub mod arrangement_select;
pub mod cli;
pub mod output;
pub mod date_window;
pub mod auto_flags;
pub mod song_usage;
pub mod usage_report;
pub mod song_filters;
pub mod credentials;
pub mod song_sheets;
pub mod roster;
pub mod song_export;
pub mod laws;
