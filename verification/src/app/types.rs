//! The small types of the interactive journal.
use vstd::prelude::*;

verus! {

/// What the interactive journal is doing: showing an entry, editing it, asking
/// for a date, or asking whether to save.
#[derive(Clone, Copy, Debug, PartialEq, Eq, Structural)]
pub enum AppMode {
    Preview,
    Edit,
    DatePrompt,
    SavePrompt,
}

/// Which pane receives the arrow keys.
#[derive(Clone, Copy, Debug, PartialEq, Eq, Structural)]
pub enum Focus {
    Tree,
    Content,
}

/// A node of the entry tree is a year, a month, or a day with its file name.
#[derive(Clone, Debug)]
pub enum NodeKind {
    Year,
    Month,
    Day { filename: String },
}

/// A node of the entry tree.
#[derive(Debug)]
pub struct TreeNode {
    pub label: String,
    pub kind: NodeKind,
    pub children: Vec<TreeNode>,
    pub expanded: bool,
}

} // verus!
