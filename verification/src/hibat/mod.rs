//! A battery history viewer: time ranges and chart tabs, battery records and
//! their collection, and the configuration.
pub mod app;
pub mod charts;
pub mod collector;
pub mod config;
pub mod db;
