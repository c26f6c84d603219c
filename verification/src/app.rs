//! The interactive journal: a tree of entry files by year and month, the
//! selection in it, and an editor buffer with a cursor.
pub mod types;
pub mod state;
pub mod editor;

pub use types::{AppMode, Focus, NodeKind, TreeNode};
pub use state::App;
pub mod navigation;
pub mod tree;
pub mod grouping;
pub mod init;
pub mod file_ops;
pub mod events;
