//! The markers of search/replace blocks and of one-line file commands.
use vstd::prelude::*;

verus! {

/// Starts a search block; the path of the file stands on the line before.
pub const MARKER_SEARCH_START: &'static str = "<<<<<<< SEARCH";
/// Ends the search block and starts the replacement.
pub const MARKER_DIVIDER: &'static str = "=======";
/// Ends the replacement.
pub const MARKER_REPLACE_END: &'static str = ">>>>>>> REPLACE";
/// `<path> <marker>` deletes the file.
pub const MARKER_DELETE: &'static str = "<<<<<<< DELETE";
/// `<path> <marker> <new path>` moves the file.
pub const MARKER_MOVE: &'static str = "<<<<<<< MOVE >>>>>>>";

} // verus!
