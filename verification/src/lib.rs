//! Query-side logic of a command-line client for Grafana's logs, metrics,
//! traces and SQL datasources.
pub mod auth;
pub mod cli;
pub mod config;
pub mod datasources;
pub mod error;
pub mod grafana;
pub mod json;
pub mod logs;
pub mod metrics;
pub mod output;
pub mod sorting;
pub mod sql;
pub mod text;
pub mod time;
pub mod traces;
