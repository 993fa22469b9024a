//! A local CI runner: configuration values, workflows, runs and their summaries.
pub mod cli;
pub mod client;
pub mod config;
pub mod daemon;
pub mod error;
pub mod ipc;
pub mod poller;
pub mod runner;
pub mod summary;
pub mod types;
pub mod workflow;
pub mod yaml;
