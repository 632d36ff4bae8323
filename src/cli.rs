use vstd::prelude::*;

verus! {

/// The revisions shown when none are asked for.
pub const DEFAULT_REVSET: &'static str = "root() | remote_bookmarks() | ancestors(immutable_heads().., 50)";

/// What the viewer is started with.
#[derive(Debug)]
pub struct Args {
    /// Path to the repository to operate on.
    pub repository: String,
    /// Which revisions to show.
    pub revisions: String,
}

} // verus!
