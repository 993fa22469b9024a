//! Reading patches written by people or language models (search/replace blocks,
//! unified and git diffs, one-line commands) and checking and applying them.
pub mod types;
pub mod matcher;
pub mod applicator;
pub mod hunks;
pub mod parser;
pub mod udiff_parser;
pub mod command_parser;
pub mod diff_parser;
pub mod preflight_checks;
