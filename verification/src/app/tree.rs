//! The list of visible nodes: the tree walked in order, descending into the
//! children of expanded nodes only.
use vstd::prelude::*;
use super::state::App;
use super::types::TreeNode;
use super::navigation::{first_day_named, nav_consistent, node_at};
use super::grouping::{build_tree, has_date_prefix, latest_file, max_name, names_view, tree_of_files};

verus! {

/// The visible nodes of the subtree `node`, at `path` and indentation `indent`: the
/// node itself, then, when it is expanded, the visible nodes of each child in order.
pub open spec fn flat_node(node: TreeNode, path: Seq<usize>, indent: int) -> Seq<(int, Seq<usize>)>
    decreases node, 1int,
{
    seq![(indent, path)] + if node.expanded {
        flat_children(node.children@, path, indent + 1, node.children@.len() as int)
    } else {
        Seq::empty()
    }
}

/// The visible nodes of the first `k` of the sibling subtrees `cs` under `path`.
pub open spec fn flat_children(cs: Seq<TreeNode>, path: Seq<usize>, indent: int, k: int) -> Seq<
    (int, Seq<usize>),
>
    decreases cs, k,
{
    if k <= 0 || k > cs.len() {
        Seq::empty()
    } else {
        flat_children(cs, path, indent, k - 1) + flat_node(cs[k - 1], path.push((k - 1) as usize), indent)
    }
}

/// The visible nodes of the whole tree, roots at indentation 0.
pub open spec fn flat_forest(roots: Seq<TreeNode>) -> Seq<(int, Seq<usize>)> {
    flat_children(roots, Seq::empty(), 0, roots.len() as int)
}

/// The visible-node list as indentations and paths.
pub open spec fn flat_view(v: Seq<(usize, Vec<usize>)>) -> Seq<(int, Seq<usize>)> {
    v.map_values(|e: (usize, Vec<usize>)| (e.0 as int, e.1@))
}

/// The selection after the visible list changed to `len` nodes: none stays none, an
/// index past the end moves to the last node, and an empty list selects nothing.
pub open spec fn clamped_selection(sel: Option<usize>, len: int) -> Option<usize> {
    match sel {
        Some(s) => if len == 0 {
            None
        } else if s >= len {
            Some((len - 1) as usize)
        } else {
            Some(s)
        },
        None => None,
    }
}

/// Every visible node of a subtree is found at its path, one level deeper than its parent.
pub proof fn lemma_flat_node_resolves(
    roots: Seq<TreeNode>,
    node: TreeNode,
    path: Seq<usize>,
    indent: int,
)
    requires
        node_at(roots, path) == Some(node),
        path.len() == indent + 1,
    ensures
        forall|i: int|
            0 <= i < flat_node(node, path, indent).len() ==> node_at(
                roots,
                (#[trigger] flat_node(node, path, indent)[i]).1,
            ) is Some && flat_node(node, path, indent)[i].1.len() == flat_node(
                node,
                path,
                indent,
            )[i].0 + 1,
    decreases node, 1int,
{
    if node.expanded {
        lemma_flat_children_resolves(
            roots,
            node.children@,
            path,
            indent + 1,
            node.children@.len() as int,
            node,
        );
    }
}

/// Every visible node under the first `k` children of the node at `path` is found at its path.
pub proof fn lemma_flat_children_resolves(
    roots: Seq<TreeNode>,
    cs: Seq<TreeNode>,
    path: Seq<usize>,
    indent: int,
    k: int,
    parent: TreeNode,
)
    requires
        node_at(roots, path) == Some(parent),
        parent.children@ == cs,
        path.len() == indent,
        k <= cs.len(),
    ensures
        forall|i: int|
            0 <= i < flat_children(cs, path, indent, k).len() ==> node_at(
                roots,
                (#[trigger] flat_children(cs, path, indent, k)[i]).1,
            ) is Some && flat_children(cs, path, indent, k)[i].1.len() == flat_children(
                cs,
                path,
                indent,
                k,
            )[i].0 + 1,
    decreases cs, k,
{
    assert(parent.children.len() == cs.len());
    if k > 0 {
        lemma_flat_children_resolves(roots, cs, path, indent, k - 1, parent);
        super::navigation::lemma_node_at_push(roots, path, (k - 1) as usize);
        lemma_flat_node_resolves(roots, cs[k - 1], path.push((k - 1) as usize), indent);
        let a = flat_children(cs, path, indent, k - 1);
        let b = flat_node(cs[k - 1], path.push((k - 1) as usize), indent);
        assert forall|i: int| 0 <= i < (a + b).len() implies node_at(roots, (#[trigger] (a + b)[i]).1)
            is Some && (a + b)[i].1.len() == (a + b)[i].0 + 1 by {
            if i < a.len() {
                assert((a + b)[i] == a[i]);
            } else {
                assert((a + b)[i] == b[i - a.len()]);
            }
        }
    }
}

/// Every node in the list of visible nodes is found in the tree at its path, and its
/// indentation is its depth.
pub proof fn lemma_flat_forest_resolves(roots: Seq<TreeNode>)
    requires
        roots.len() <= usize::MAX,
    ensures
        forall|i: int|
            0 <= i < flat_forest(roots).len() ==> node_at(roots, (#[trigger] flat_forest(roots)[i]).1)
                is Some && flat_forest(roots)[i].1.len() == flat_forest(roots)[i].0 + 1,
{
    lemma_flat_roots_resolves(roots, roots.len() as int);
}

proof fn lemma_flat_roots_resolves(roots: Seq<TreeNode>, k: int)
    requires
        k <= roots.len(),
        roots.len() <= usize::MAX,
    ensures
        forall|i: int|
            0 <= i < flat_children(roots, Seq::empty(), 0, k).len() ==> node_at(
                roots,
                (#[trigger] flat_children(roots, Seq::empty(), 0, k)[i]).1,
            ) is Some && flat_children(roots, Seq::empty(), 0, k)[i].1.len() == flat_children(
                roots,
                Seq::empty(),
                0,
                k,
            )[i].0 + 1,
    decreases k,
{
    if k > 0 {
        lemma_flat_roots_resolves(roots, k - 1);
        let p = Seq::<usize>::empty().push((k - 1) as usize);
        assert(p =~= seq![(k - 1) as usize]);
        lemma_flat_node_resolves(roots, roots[k - 1], p, 0);
        let a = flat_children(roots, Seq::empty(), 0, k - 1);
        let b = flat_node(roots[k - 1], p, 0);
        assert forall|i: int| 0 <= i < (a + b).len() implies node_at(roots, (#[trigger] (a + b)[i]).1)
            is Some && (a + b)[i].1.len() == (a + b)[i].0 + 1 by {
            if i < a.len() {
                assert((a + b)[i] == a[i]);
            } else {
                assert((a + b)[i] == b[i - a.len()]);
            }
        }
    }
}

impl App {
    /// Appends the visible nodes of the subtree `node`, found at `path`, to `out`.
    fn flatten_from(
        node: &TreeNode,
        path: &mut Vec<usize>,
        indent: usize,
        out: &mut Vec<(usize, Vec<usize>)>,
    )
        requires
            old(path)@.len() == indent + 1,
        ensures
            flat_view(final(out)@) == flat_view(old(out)@) + flat_node(*node, old(path)@, indent as int),
            final(path)@ == old(path)@,
        decreases node,
    {
        let ghost out0 = out@;
        out.push((indent, path.clone()));
        proof {
            assert(flat_view(out@) =~= flat_view(out0).push((indent as int, old(path)@)));
        }
        if node.expanded {
            let n = node.children.len();
            let mut i: usize = 0;
            while i < n
                invariant
                    n == node.children@.len(),
                    i <= n,
                    path@ == old(path)@,
                    path@.len() == indent + 1,
                    flat_view(out@) == flat_view(out0).push((indent as int, old(path)@))
                        + flat_children(node.children@, old(path)@, indent + 1, i as int),
                decreases n - i,
            {
                path.push(i);
                let _ = path.len();
                proof {
                    assert(decreases_to!(*node => node.children));
                    assert(decreases_to!(node.children => node.children@));
                    assert(decreases_to!(node.children@ => node.children@[i as int]));
                }
                App::flatten_from(&node.children[i], path, indent + 1, out);
                let _ = path.pop();
                i = i + 1;
            }
        }
        proof {
            assert(flat_view(out@) =~= flat_view(out0) + flat_node(*node, old(path)@, indent as int));
        }
    }

    /// Rebuilds the list of visible nodes from the tree, and keeps the selection within it.
    pub fn recompute_flat_nodes(&mut self)
        ensures
            flat_view(final(self).flat_nodes@) == flat_forest(old(self).tree_root@),
            final(self).selected_index == clamped_selection(
                old(self).selected_index,
                final(self).flat_nodes@.len() as int,
            ),
            super::navigation::nav_consistent(*final(self)),
            final(self).tree_root == old(self).tree_root,
            final(self).files == old(self).files,
            final(self).current_path == old(self).current_path,
            final(self).content == old(self).content,
            final(self).cursor_row == old(self).cursor_row,
            final(self).cursor_col == old(self).cursor_col,
            final(self).focus == old(self).focus,
            final(self).view_scroll == old(self).view_scroll,
            final(self).dirty == old(self).dirty,
            final(self).mode == old(self).mode,
            final(self).date_input == old(self).date_input,
            final(self).date_error == old(self).date_error,
            final(self).save_choice == old(self).save_choice,
    {
        let mut out: Vec<(usize, Vec<usize>)> = Vec::new();
        let len = self.tree_root.len();
        let mut i: usize = 0;
        while i < len
            invariant
                len == self.tree_root@.len(),
                i <= len,
                flat_view(out@) == flat_children(self.tree_root@, Seq::empty(), 0, i as int),
            decreases len - i,
        {
            let mut path: Vec<usize> = Vec::new();
            path.push(i);
            proof {
                assert(path@ =~= Seq::<usize>::empty().push(i));
            }
            App::flatten_from(&self.tree_root[i], &mut path, 0, &mut out);
            i = i + 1;
        }
        self.flat_nodes = out;
        if let Some(sel) = self.selected_index {
            if self.flat_nodes.len() == 0 {
                self.selected_index = None;
            } else if sel >= self.flat_nodes.len() {
                self.selected_index = Some(self.flat_nodes.len() - 1);
            }
        }
    }
}

impl App {
    /// Rebuilds the entry tree from the file names, then the list of visible nodes, and
    /// selects the newest file's day.  The newest file's name is returned, to be opened.
    pub fn rebuild_tree(&mut self) -> (open: Option<String>)
        requires
            forall|i: int| 0 <= i < old(self).files@.len() ==> has_date_prefix(#[trigger] old(self).files@[i]@),
        ensures
            tree_of_files(final(self).tree_root@, names_view(old(self).files@)),
            flat_view(final(self).flat_nodes@) == flat_forest(final(self).tree_root@),
            nav_consistent(*final(self)),
            match open {
                Some(f) => max_name(names_view(old(self).files@)) == Some(f@),
                None => max_name(names_view(old(self).files@)) is None,
            },
            ({
                let s1 = clamped_selection(old(self).selected_index, final(self).flat_nodes@.len() as int);
                final(self).selected_index == match max_name(names_view(old(self).files@)) {
                    Some(f) => match first_day_named(
                        flat_view(final(self).flat_nodes@),
                        final(self).tree_root@,
                        f,
                        final(self).flat_nodes@.len() as int,
                    ) {
                        Some(i) => Some(i as usize),
                        None => s1,
                    },
                    None => if s1 is None && final(self).flat_nodes@.len() > 0 {
                        Some(0usize)
                    } else {
                        s1
                    },
                }
            }),
            final(self).files == old(self).files,
            final(self).current_path == old(self).current_path,
            final(self).content == old(self).content,
            final(self).cursor_row == old(self).cursor_row,
            final(self).cursor_col == old(self).cursor_col,
            final(self).focus == old(self).focus,
            final(self).view_scroll == old(self).view_scroll,
            final(self).dirty == old(self).dirty,
            final(self).mode == old(self).mode,
            final(self).date_input == old(self).date_input,
            final(self).date_error == old(self).date_error,
            final(self).save_choice == old(self).save_choice,
    {
        let latest = latest_file(&self.files);
        let roots = build_tree(&self.files);
        self.tree_root = roots;
        self.recompute_flat_nodes();
        match latest {
            Some(name) => {
                self.select_day_by_filename(name.as_str());
                Some(name)
            },
            None => {
                if self.selected_index.is_none() && self.flat_nodes.len() > 0 {
                    self.selected_index = Some(0);
                }
                None
            },
        }
    }
}

} // verus!
