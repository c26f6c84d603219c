//! The state of the interactive journal.
use vstd::prelude::*;
use super::types::{AppMode, Focus, TreeNode};

verus! {

/// The state of the interactive journal.
pub struct App {
    /// Names of the entry files, and the tree built from them.
    pub files: Vec<String>,
    pub tree_root: Vec<TreeNode>,
    /// The visible nodes in display order: indentation and path of indices.
    pub flat_nodes: Vec<(usize, Vec<usize>)>,
    pub selected_index: Option<usize>,
    /// The file that is open, and its text.
    pub current_path: Option<String>,
    pub content: String,
    /// The cursor: line and character within the line.
    pub cursor_row: usize,
    pub cursor_col: usize,
    pub focus: Focus,
    pub view_scroll: usize,
    pub dirty: bool,
    pub mode: AppMode,
    /// What is typed at the date prompt, and the complaint about it.
    pub date_input: String,
    pub date_error: Option<String>,
    /// The choice at the save prompt: 0 save, 1 discard, 2 cancel.
    pub save_choice: usize,
}

impl App {
    /// `self` and `other` agree on everything but the text, the cursor and the dirty flag.
    pub open spec fn same_but_text(&self, other: &App) -> bool {
        &&& self.files == other.files
        &&& self.tree_root == other.tree_root
        &&& self.flat_nodes == other.flat_nodes
        &&& self.selected_index == other.selected_index
        &&& self.current_path == other.current_path
        &&& self.focus == other.focus
        &&& self.view_scroll == other.view_scroll
        &&& self.mode == other.mode
        &&& self.date_input == other.date_input
        &&& self.date_error == other.date_error
        &&& self.save_choice == other.save_choice
    }
}

} // verus!
