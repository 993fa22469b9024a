//! The agent front end: what it remembers of streamed message parts, how it
//! shows tool calls and permission requests, and the text helpers of its sidebar.
pub mod call;
pub mod helpers;
pub mod json;
pub mod message;
pub mod mirror;
pub mod permission;
pub mod provider;
pub mod runtime;
pub mod sidebar;
pub mod table;
pub mod tool;
