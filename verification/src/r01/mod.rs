//! The router's system readings: what the sysfs files and `uci` values mean.
pub mod router;
pub mod touch;
