//! Finding nodes of the entry tree by path, and moving the selection through
//! the visible nodes.
use vstd::prelude::*;
use crate::text::str_eq;
use super::state::App;
use super::types::{NodeKind, TreeNode};
use super::tree::{clamped_selection, flat_forest, flat_view, lemma_flat_forest_resolves};

verus! {

/// The node reached from `roots` by following `path`: its first index picks a root, each
/// further index a child.  The empty path and a path that leaves the tree reach nothing.
pub open spec fn node_at(roots: Seq<TreeNode>, path: Seq<usize>) -> Option<TreeNode>
    decreases path.len(),
{
    if path.len() == 0 {
        None
    } else if path[0] >= roots.len() {
        None
    } else if path.len() == 1 {
        Some(roots[path[0] as int])
    } else {
        node_at(roots[path[0] as int].children@, path.drop_first())
    }
}

/// Following one more index from the node at `path`.
pub proof fn lemma_node_at_push(roots: Seq<TreeNode>, path: Seq<usize>, i: usize)
    requires
        path.len() >= 1,
    ensures
        node_at(roots, path.push(i)) == (match node_at(roots, path) {
            Some(n) => if i < n.children@.len() {
                Some(n.children@[i as int])
            } else {
                None::<TreeNode>
            },
            None => None,
        }),
    decreases path.len(),
{
    assert(path.push(i)[0] == path[0]);
    if path[0] < roots.len() && path.len() > 1 {
        assert(path.push(i).drop_first() =~= path.drop_first().push(i));
        lemma_node_at_push(roots[path[0] as int].children@, path.drop_first(), i);
    } else if path[0] < roots.len() && path.len() == 1 {
        assert(path.push(i).drop_first() =~= seq![i]);
        let cs = roots[path[0] as int].children@;
        assert(node_at(cs, seq![i]) == if i < cs.len() {
            Some(cs[i as int])
        } else {
            None::<TreeNode>
        });
    }
}

/// Nodes `a` and `b` agree but for their children.
pub open spec fn same_fields(a: TreeNode, b: TreeNode) -> bool {
    &&& a.label == b.label
    &&& a.kind == b.kind
    &&& a.expanded == b.expanded
}

/// `new` is `old` with the node at `path` replaced by `n`.
pub open spec fn replaced_at(old: Seq<TreeNode>, new: Seq<TreeNode>, path: Seq<usize>, n: TreeNode) -> bool
    decreases path.len(),
{
    &&& path.len() >= 1
    &&& path[0] < old.len()
    &&& new.len() == old.len()
    &&& forall|i: int| 0 <= i < old.len() && i != path[0] ==> new[i] == old[i]
    &&& if path.len() == 1 {
        new[path[0] as int] == n
    } else {
        &&& same_fields(new[path[0] as int], old[path[0] as int])
        &&& replaced_at(
            old[path[0] as int].children@,
            new[path[0] as int].children@,
            path.drop_first(),
            n,
        )
    }
}

/// The node at `path` is a day whose file is named `name`.
pub open spec fn is_day_named(roots: Seq<TreeNode>, path: Seq<usize>, name: Seq<char>) -> bool {
    match node_at(roots, path) {
        Some(n) => match n.kind {
            NodeKind::Day { filename } => filename@ == name,
            _ => false,
        },
        None => false,
    }
}

/// The first of the first `k` visible nodes that is the day of file `name`.
pub open spec fn first_day_named(
    flat: Seq<(int, Seq<usize>)>,
    roots: Seq<TreeNode>,
    name: Seq<char>,
    k: int,
) -> Option<int>
    decreases k,
{
    if k <= 0 {
        None
    } else {
        match first_day_named(flat, roots, name, k - 1) {
            Some(i) => Some(i),
            None => if is_day_named(roots, flat[k - 1].1, name) {
                Some(k - 1)
            } else {
                None
            },
        }
    }
}

/// The file of the day node that is selected, if a day node is selected.
pub open spec fn selected_day_file(app: App) -> Option<Seq<char>> {
    match app.selected_index {
        Some(sel) => if sel < app.flat_nodes@.len() {
            match node_at(app.tree_root@, app.flat_nodes@[sel as int].1@) {
                Some(n) => match n.kind {
                    NodeKind::Day { filename } => Some(filename@),
                    _ => None,
                },
                None => None,
            }
        } else {
            None
        },
        None => None,
    }
}

/// The selection after moving it by `delta` over `len` visible nodes: from the selected
/// node (the first when none is), kept within the list; nothing when the list is empty.
pub open spec fn spec_moved_selection(sel: Option<usize>, len: int, delta: int) -> Option<int> {
    if len == 0 {
        None
    } else {
        let cur = match sel {
            Some(s) => s as int,
            None => 0,
        };
        let next = cur + delta;
        Some(
            if next < 0 {
                0
            } else if next >= len {
                len - 1
            } else {
                next
            },
        )
    }
}

/// The path of the selected node when it is a year or a month (which can fold).
pub open spec fn foldable_selected(app: App) -> Option<Seq<usize>> {
    match app.selected_index {
        Some(sel) => if sel < app.flat_nodes@.len() {
            let p = app.flat_nodes@[sel as int].1@;
            match node_at(app.tree_root@, p) {
                Some(n) => match n.kind {
                    NodeKind::Day { .. } => None,
                    _ => Some(p),
                },
                None => None,
            }
        } else {
            None
        },
        None => None,
    }
}

/// The node found by following the first `k` indices of `path` from `roots`.
fn node_by_prefix<'a>(roots: &'a Vec<TreeNode>, path: &[usize], k: usize) -> (r: Option<&'a TreeNode>)
    requires
        k <= path@.len(),
    ensures
        match r {
            Some(n) => node_at(roots@, path@.take(k as int)) == Some(*n),
            None => node_at(roots@, path@.take(k as int)) is None,
        },
{
    let mut cur: Option<&TreeNode> = None;
    let mut depth: usize = 0;
    while depth < k
        invariant
            k <= path@.len(),
            depth <= k,
            match cur {
                Some(n) => node_at(roots@, path@.take(depth as int)) == Some(*n),
                None => node_at(roots@, path@.take(depth as int)) is None,
            },
        decreases k - depth,
    {
        let idx = path[depth];
        proof {
            assert(path@.take(depth + 1) =~= path@.take(depth as int).push(idx));
            if depth > 0 {
                lemma_node_at_push(roots@, path@.take(depth as int), idx);
            } else {
                assert(path@.take(1) =~= seq![idx]);
            }
        }
        if depth == 0 {
            cur = if idx < roots.len() {
                Some(&roots[idx])
            } else {
                None
            };
        } else {
            cur = match cur {
                Some(n) => if idx < n.children.len() {
                    Some(&n.children[idx])
                } else {
                    None
                },
                None => None,
            };
        }
        depth = depth + 1;
    }
    cur
}

/// The node at `path` in `nodes`, borrowed for change; following indices from `depth` on.
fn node_mut_from<'a>(nodes: &'a mut Vec<TreeNode>, path: &[usize], depth: usize) -> (r: &'a mut TreeNode)
    requires
        depth <= path@.len(),
        node_at(old(nodes)@, path@.skip(depth as int)) is Some,
    ensures
        node_at(old(nodes)@, path@.skip(depth as int)) == Some(*r),
        replaced_at(old(nodes)@, final(nodes)@, path@.skip(depth as int), *final(r)),
    decreases path@.len() - depth,
{
    let first = path[depth];
    let ghost rest = path@.skip(depth as int);
    proof {
        assert(rest[0] == first);
        assert(rest.drop_first() =~= path@.skip(depth + 1));
    }
    if depth + 1 == path.len() {
        return &mut nodes[first];
    }
    let node = &mut nodes[first];
    node_mut_from(&mut node.children, path, depth + 1)
}

/// Whether `path` ends at the last child of its parent (or at the last root).
pub open spec fn spec_is_last_child(roots: Seq<TreeNode>, path: Seq<usize>) -> bool {
    if path.len() == 0 {
        false
    } else {
        let parent = path.drop_last();
        let c = path.last() as int;
        match node_at(roots, parent) {
            Some(p) => c == p.children@.len() - 1,
            None => if parent.len() == 0 {
                c == roots.len() - 1
            } else {
                false
            },
        }
    }
}

/// Node `n` with its expanded flag set to `e`.
pub open spec fn with_expanded(n: TreeNode, e: bool) -> TreeNode {
    TreeNode { label: n.label, kind: n.kind, children: n.children, expanded: e }
}

/// The selection of `app` is within its list of visible nodes, which is the tree's.
pub open spec fn nav_consistent(app: App) -> bool {
    &&& flat_view(app.flat_nodes@) == flat_forest(app.tree_root@)
    &&& app.selected_index matches Some(s) ==> s < app.flat_nodes@.len()
}

/// Once a matching day is found among the first `i + 1` nodes, looking further finds the same.
pub proof fn lemma_first_day_stable(
    flat: Seq<(int, Seq<usize>)>,
    roots: Seq<TreeNode>,
    name: Seq<char>,
    i: int,
    k: int,
)
    requires
        0 <= i < k,
        first_day_named(flat, roots, name, i + 1) == Some(i),
    ensures
        first_day_named(flat, roots, name, k) == Some(i),
    decreases k,
{
    if k > i + 1 {
        lemma_first_day_stable(flat, roots, name, i, k - 1);
    }
}

/// Every node in the list of visible nodes of a consistent state is found in the tree at
/// its path, and its indentation is its depth.
pub proof fn law_visible_nodes_exist(app: App)
    requires
        nav_consistent(app),
    ensures
        forall|i: int|
            0 <= i < app.flat_nodes@.len() ==> node_at(app.tree_root@, (#[trigger] app.flat_nodes@[i]).1@)
                is Some && app.flat_nodes@[i].1@.len() == app.flat_nodes@[i].0 + 1,
{
    assert(app.tree_root@.len() == app.tree_root.len());
    lemma_flat_forest_resolves(app.tree_root@);
    assert forall|i: int| 0 <= i < app.flat_nodes@.len() implies node_at(
        app.tree_root@,
        (#[trigger] app.flat_nodes@[i]).1@,
    ) is Some && app.flat_nodes@[i].1@.len() == app.flat_nodes@[i].0 + 1 by {
        assert(flat_view(app.flat_nodes@)[i] == flat_forest(app.tree_root@)[i]);
    }
}

/// `new` is `old` after folding (`expand` false) or unfolding the selected node: when it
/// is a year or a month its flag is set and the visible list rebuilt; otherwise nothing
/// changes.
pub open spec fn toggled(old: App, new: App, expand: bool) -> bool {
        match foldable_selected(old) {
            Some(p) => {
                &&& replaced_at(
                    old.tree_root@,
                    new.tree_root@,
                    p,
                    with_expanded(node_at(old.tree_root@, p).unwrap(), expand),
                )
                &&& flat_view(new.flat_nodes@) == flat_forest(new.tree_root@)
                &&& new.selected_index == clamped_selection(
                    old.selected_index,
                    new.flat_nodes@.len() as int,
                )
                &&& new.files == old.files
                &&& new.current_path == old.current_path
                &&& new.content == old.content
                &&& new.cursor_row == old.cursor_row
                &&& new.cursor_col == old.cursor_col
                &&& new.focus == old.focus
                &&& new.view_scroll == old.view_scroll
                &&& new.dirty == old.dirty
                &&& new.mode == old.mode
                &&& new.date_input == old.date_input
                &&& new.date_error == old.date_error
                &&& new.save_choice == old.save_choice
            },
            None => new == old,
        }
}

/// `new` is `old` with the selection moved by `delta` (see `spec_moved_selection`), and
/// `open` the file of the day now selected, if a day is.
pub open spec fn moved_selection(old: App, new: App, delta: int, open: Option<String>) -> bool {
    &&& new.selected_index == (match spec_moved_selection(
        old.selected_index,
        old.flat_nodes@.len() as int,
        delta,
    ) {
        Some(i) => Some(i as usize),
        None => None,
    })
    &&& match open {
        Some(f) => selected_day_file(new) == Some(f@),
        None => selected_day_file(new) is None,
    }
    &&& new.files == old.files
    &&& new.tree_root == old.tree_root
    &&& new.flat_nodes == old.flat_nodes
    &&& new.current_path == old.current_path
    &&& new.content == old.content
    &&& new.cursor_row == old.cursor_row
    &&& new.cursor_col == old.cursor_col
    &&& new.focus == old.focus
    &&& new.view_scroll == old.view_scroll
    &&& new.dirty == old.dirty
    &&& new.mode == old.mode
    &&& new.date_input == old.date_input
    &&& new.date_error == old.date_error
    &&& new.save_choice == old.save_choice
}

impl App {
    /// The node at `path`, if the path leads to one.
    pub fn node_by_path(&self, path: &Vec<usize>) -> (r: Option<&TreeNode>)
        ensures
            match r {
                Some(n) => node_at(self.tree_root@, path@) == Some(*n),
                None => node_at(self.tree_root@, path@) is None,
            },
    {
        self.node_by_path_slice(path.as_slice())
    }

    /// The node at `path`, if the path leads to one.
    pub fn node_by_path_slice(&self, path: &[usize]) -> (r: Option<&TreeNode>)
        ensures
            match r {
                Some(n) => node_at(self.tree_root@, path@) == Some(*n),
                None => node_at(self.tree_root@, path@) is None,
            },
    {
        let r = node_by_prefix(&self.tree_root, path, path.len());
        proof {
            assert(path@.take(path@.len() as int) =~= path@);
        }
        r
    }

    /// The node at `path`, borrowed for change; the tree afterwards is the old one with
    /// that node replaced by what the borrow leaves in it.
    pub fn node_by_path_mut(&mut self, path: &Vec<usize>) -> (r: Option<&mut TreeNode>)
        ensures
            r matches Some(n) ==> node_at(old(self).tree_root@, path@) == Some(*n)
                && replaced_at(old(self).tree_root@, final(self).tree_root@, path@, *final(n)),
            r is None ==> node_at(old(self).tree_root@, path@) is None && final(self).tree_root
                == old(self).tree_root,
            final(self).files == old(self).files,
            final(self).flat_nodes == old(self).flat_nodes,
            final(self).selected_index == old(self).selected_index,
            final(self).current_path == old(self).current_path,
            final(self).content == old(self).content,
            final(self).cursor_row == old(self).cursor_row,
            final(self).cursor_col == old(self).cursor_col,
            final(self).focus == old(self).focus,
            final(self).view_scroll == old(self).view_scroll,
            final(self).dirty == old(self).dirty,
            final(self).mode == old(self).mode,
            final(self).date_input == old(self).date_input,
            final(self).date_error == old(self).date_error,
            final(self).save_choice == old(self).save_choice,
    {
        self.node_by_path_mut_slice(path.as_slice())
    }

    /// The node at `path`, borrowed for change; the tree afterwards is the old one with
    /// that node replaced by what the borrow leaves in it.
    pub fn node_by_path_mut_slice(&mut self, path: &[usize]) -> (r: Option<&mut TreeNode>)
        ensures
            r matches Some(n) ==> node_at(old(self).tree_root@, path@) == Some(*n)
                && replaced_at(old(self).tree_root@, final(self).tree_root@, path@, *final(n)),
            r is None ==> node_at(old(self).tree_root@, path@) is None && final(self).tree_root
                == old(self).tree_root,
            final(self).files == old(self).files,
            final(self).flat_nodes == old(self).flat_nodes,
            final(self).selected_index == old(self).selected_index,
            final(self).current_path == old(self).current_path,
            final(self).content == old(self).content,
            final(self).cursor_row == old(self).cursor_row,
            final(self).cursor_col == old(self).cursor_col,
            final(self).focus == old(self).focus,
            final(self).view_scroll == old(self).view_scroll,
            final(self).dirty == old(self).dirty,
            final(self).mode == old(self).mode,
            final(self).date_input == old(self).date_input,
            final(self).date_error == old(self).date_error,
            final(self).save_choice == old(self).save_choice,
    {
        proof {
            assert(path@.skip(0) =~= path@);
        }
        if self.node_by_path_slice(path).is_none() {
            return None;
        }
        Some(node_mut_from(&mut self.tree_root, path, 0))
    }

    /// Whether `path` ends at the last child of its parent, or at the last root.
    pub fn is_last_child(&self, path: &[usize]) -> (r: bool)
        requires
            path@.len() == 1 ==> self.tree_root@.len() > 0,
            path@.len() > 1 ==> (node_at(self.tree_root@, path@.drop_last()) matches Some(p) ==> p.children@.len() > 0),
        ensures
            r == spec_is_last_child(self.tree_root@, path@),
    {
        if path.len() == 0 {
            return false;
        }
        let k = path.len() - 1;
        let child_index = path[k];
        let parent = node_by_prefix(&self.tree_root, path, k);
        proof {
            assert(path@.take(k as int) =~= path@.drop_last());
        }
        match parent {
            Some(p) => child_index == p.children.len() - 1,
            None => if k == 0 {
                child_index == self.tree_root.len() - 1
            } else {
                false
            },
        }
    }

    /// The file of the selected node, when a day is selected.
    pub fn selected_filename(&self) -> (r: Option<&str>)
        ensures
            match r {
                Some(s) => selected_day_file(*self) == Some(s@),
                None => selected_day_file(*self) is None,
            },
    {
        if let Some(sel) = self.selected_index {
            if sel < self.flat_nodes.len() {
                if let Some(node) = self.node_by_path(&self.flat_nodes[sel].1) {
                    if let NodeKind::Day { filename } = &node.kind {
                        return Some(filename.as_str());
                    }
                }
            }
        }
        None
    }

    /// Selects the first visible day node of file `filename`; when there is none the
    /// selection stays.
    pub fn select_day_by_filename(&mut self, filename: &str)
        ensures
            final(self).selected_index == (match first_day_named(
                flat_view(old(self).flat_nodes@),
                old(self).tree_root@,
                filename@,
                old(self).flat_nodes@.len() as int,
            ) {
                Some(i) => Some(i as usize),
                None => old(self).selected_index,
            }),
            nav_consistent(*old(self)) ==> nav_consistent(*final(self)),
            final(self).files == old(self).files,
            final(self).tree_root == old(self).tree_root,
            final(self).flat_nodes == old(self).flat_nodes,
            final(self).current_path == old(self).current_path,
            final(self).content == old(self).content,
            final(self).cursor_row == old(self).cursor_row,
            final(self).cursor_col == old(self).cursor_col,
            final(self).focus == old(self).focus,
            final(self).view_scroll == old(self).view_scroll,
            final(self).dirty == old(self).dirty,
            final(self).mode == old(self).mode,
            final(self).date_input == old(self).date_input,
            final(self).date_error == old(self).date_error,
            final(self).save_choice == old(self).save_choice,
    {
        let n = self.flat_nodes.len();
        let ghost fv = flat_view(self.flat_nodes@);
        let mut i: usize = 0;
        while i < n
            invariant
                n == self.flat_nodes@.len(),
                fv == flat_view(self.flat_nodes@),
                i <= n,
                first_day_named(fv, self.tree_root@, filename@, i as int) is None,
                *self == *old(self),
            decreases n - i,
        {
            let mut found = false;
            if let Some(node) = self.node_by_path(&self.flat_nodes[i].1) {
                if let NodeKind::Day { filename: f } = &node.kind {
                    if str_eq(f.as_str(), filename) {
                        found = true;
                    }
                }
            }
            proof {
                assert(fv[i as int].1 == self.flat_nodes@[i as int].1@);
                assert(found == is_day_named(self.tree_root@, fv[i as int].1, filename@));
            }
            if found {
                proof {
                    lemma_first_day_stable(fv, self.tree_root@, filename@, i as int, n as int);
                }
                self.selected_index = Some(i);
                return;
            }
            i = i + 1;
        }
    }

    /// Moves the selection by `delta` visible nodes, kept within the list.  When the
    /// selection lands on a day, the name of its file is returned, to be opened.
    pub fn move_selection(&mut self, delta: isize) -> (open: Option<String>)
        ensures
            moved_selection(*old(self), *final(self), delta as int, open),
            nav_consistent(*old(self)) ==> nav_consistent(*final(self)),
    {
        if self.flat_nodes.len() == 0 {
            self.selected_index = None;
            return None;
        }
        let cur: i128 = match self.selected_index {
            Some(s) => s as i128,
            None => 0,
        };
        let len = self.flat_nodes.len() as i128;
        let mut next = cur + delta as i128;
        if next < 0 {
            next = 0;
        }
        if next >= len {
            next = len - 1;
        }
        self.selected_index = Some(next as usize);
        match self.selected_filename() {
            Some(name) => Some(name.to_string()),
            None => None,
        }
    }

    /// Folds or unfolds the selected node when it is a year or a month, and rebuilds
    /// the list of visible nodes; otherwise nothing changes.
    pub fn toggle_expand_at_selected(&mut self, expand: bool)
        ensures
            toggled(*old(self), *final(self), expand),
            nav_consistent(*old(self)) ==> nav_consistent(*final(self)),
    {
        if let Some(sel) = self.selected_index {
            if sel < self.flat_nodes.len() {
                let path = self.flat_nodes[sel].1.clone();
                proof {
                    assert(path@ =~= self.flat_nodes@[sel as int].1@);
                }
                let foldable = match self.node_by_path(&path) {
                    Some(node) => match &node.kind {
                        NodeKind::Day { .. } => false,
                        _ => true,
                    },
                    None => false,
                };
                if foldable {
                    match self.node_by_path_mut(&path) {
                        Some(node) => {
                            node.expanded = expand;
                        },
                        None => {},
                    }
                    self.recompute_flat_nodes();
                }
            }
        }
    }
}


/// What `first_day_named` finds is among the first `k` nodes, and is a day of `name`.
pub proof fn lemma_first_day_named(
    flat: Seq<(int, Seq<usize>)>,
    roots: Seq<TreeNode>,
    name: Seq<char>,
    k: int,
)
    ensures
        first_day_named(flat, roots, name, k) matches Some(i) ==> 0 <= i < k && is_day_named(
            roots,
            flat[i].1,
            name,
        ),
    decreases k,
{
    if k > 0 {
        lemma_first_day_named(flat, roots, name, k - 1);
    }
}

/// Once a visible day node of file `name` has been selected the way
/// `select_day_by_filename` selects it, the selected file is `name`.
pub proof fn law_selected_file_after_select(before: App, after: App, name: Seq<char>)
    requires
        first_day_named(
            flat_view(before.flat_nodes@),
            before.tree_root@,
            name,
            before.flat_nodes@.len() as int,
        ) is Some,
        after.selected_index == (match first_day_named(
            flat_view(before.flat_nodes@),
            before.tree_root@,
            name,
            before.flat_nodes@.len() as int,
        ) {
            Some(i) => Some(i as usize),
            None => before.selected_index,
        }),
        after.flat_nodes == before.flat_nodes,
        after.tree_root == before.tree_root,
        before.flat_nodes@.len() <= usize::MAX,
    ensures
        selected_day_file(after) == Some(name),
{
    let fl = flat_view(before.flat_nodes@);
    let n = before.flat_nodes@.len() as int;
    lemma_first_day_named(fl, before.tree_root@, name, n);
    let i = first_day_named(fl, before.tree_root@, name, n).unwrap();
    assert(0 <= i < n);
    assert(fl[i].1 == before.flat_nodes@[i].1@);
    let sel = i as usize;
    assert(sel as int == i);
    assert(after.selected_index == Some(sel));
    assert(sel < after.flat_nodes@.len());
    assert(after.flat_nodes@[sel as int].1@ == fl[i].1);
    assert(is_day_named(after.tree_root@, after.flat_nodes@[sel as int].1@, name));
}


/// After the node at `path` is replaced by `n` (what a write through
/// `node_by_path_mut_slice` does), the node read at `path` is `n`.
pub proof fn law_read_after_replace(old: Seq<TreeNode>, new: Seq<TreeNode>, path: Seq<usize>, n: TreeNode)
    requires
        replaced_at(old, new, path, n),
    ensures
        node_at(new, path) == Some(n),
    decreases path.len(),
{
    if path.len() > 1 {
        law_read_after_replace(
            old[path[0] as int].children@,
            new[path[0] as int].children@,
            path.drop_first(),
            n,
        );
    }
}

/// Replacing the node at `path` leaves the node at every path `q` that turns off
/// from `path` (at place `j`) as it was.
pub proof fn law_replace_keeps_other_nodes(
    old: Seq<TreeNode>,
    new: Seq<TreeNode>,
    path: Seq<usize>,
    n: TreeNode,
    q: Seq<usize>,
    j: int,
)
    requires
        replaced_at(old, new, path, n),
        0 <= j < q.len(),
        j < path.len(),
        q[j] != path[j],
    ensures
        node_at(new, q) == node_at(old, q),
    decreases path.len(),
{
    if q[0] != path[0] {
        if q[0] < old.len() {
            assert(new[q[0] as int] == old[q[0] as int]);
        }
    } else {
        assert(j > 0);
        law_replace_keeps_other_nodes(
            old[path[0] as int].children@,
            new[path[0] as int].children@,
            path.drop_first(),
            n,
            q.drop_first(),
            j - 1,
        );
    }
}

/// Moving the selection by `delta` selects exactly the node `delta` places from the
/// selected one when that node is visible (Down the next node, Up the previous one);
/// past either end it stops at the first or the last node; with visible nodes the
/// selection always lands on one of them.
pub proof fn law_move_selection_by_delta(old: App, new: App, delta: int, open: Option<String>)
    requires
        moved_selection(old, new, delta, open),
    ensures
        old.flat_nodes@.len() > 0 ==> (new.selected_index matches Some(i) && i < old.flat_nodes@.len()),
        old.flat_nodes@.len() == 0 ==> new.selected_index is None,
        old.selected_index matches Some(s) ==> (0 <= s + delta < old.flat_nodes@.len()
            ==> new.selected_index == Some((s + delta) as usize)),
        old.selected_index matches Some(s) ==> (s + delta < 0 && old.flat_nodes@.len() > 0
            ==> new.selected_index == Some(0usize)),
        old.selected_index matches Some(s) ==> (s + delta >= old.flat_nodes@.len()
            && old.flat_nodes@.len() > 0 ==> new.selected_index == Some(
            (old.flat_nodes@.len() - 1) as usize,
        )),
        new.flat_nodes == old.flat_nodes,
{
}

} // verus!
