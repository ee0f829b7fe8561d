//! A filtering-aware directory tree builder.
//!
//! The library turns a snapshot of filesystem entries into an in-memory
//! tree, applying an ordered decision pipeline per entry (hidden-name
//! test, exclude/reinclude patterns, symlink policy, depth budget,
//! positive-pattern admission), then offers post-construction transforms
//! (stable path sort, bottom-up pruning of empty subtrees) and renderers
//! (indented text, HTML).

pub mod builder;
pub mod fsdata;
pub mod ignore;
pub mod mutate;
pub mod opts;
pub mod pattern;
pub mod render;
pub mod sorting;
pub mod tree;

pub use fsdata::FsEntry;
pub use fsdata::FsNode;
pub use opts::FormatOpts;
pub use opts::SearchOpts;
pub use pattern::Glob;
pub use pattern::TreeError;
pub use tree::Dir;
pub use tree::FType;
