//! Compares two directory trees by content and produces a diff ordered by
//! relative path, classifying each path as unchanged, deleted, inserted or
//! replaced.
//!
//! The walks themselves are driven from outside: for each path met while
//! walking the old tree, `Diff::record_removed` records its entry and says
//! whether to descend; then `Diff::record_added` does the same for each path
//! of the new tree.
pub mod compare;
pub mod diff;
pub mod diff_tag;
pub mod display;
pub mod error;
pub mod path_order;
pub mod strip_prefix;

pub use compare::{candidate_is_same, needs_contents, same_contents, FileMeta};
pub use diff::{Diff, DiffEntry, PathInfo};
pub use diff_tag::DiffTag;
pub use display::DisplayDiffOpts;
pub use error::{
    Error, HashError, MetadataError, StripPrefixError, TraverseError, WalkDirMetadataError,
};
pub use strip_prefix::strip_prefix;
