//! Starting the interactive journal.
use vstd::prelude::*;
use super::state::App;
use super::types::{AppMode, Focus};
use super::grouping::{has_date_prefix, max_name, names_view, tree_of_files};
use super::navigation::{first_day_named, nav_consistent};
use super::tree::{flat_forest, flat_view};
use super::types::TreeNode;

verus! {

/// The selection when the journal starts over the files `fs`, with `flat` the visible
/// nodes of the tree `roots`: the first visible day node of the last file; failing
/// that, the first visible day node of the newest file; failing that (no files named
/// at all), the first node when there is one.
pub open spec fn start_selection(
    flat: Seq<(int, Seq<usize>)>,
    roots: Seq<TreeNode>,
    fs: Seq<Seq<char>>,
) -> Option<usize> {
    let n = flat.len() as int;
    let newest: Option<usize> = match max_name(fs) {
        Some(f) => match first_day_named(flat, roots, f, n) {
            Some(i) => Some(i as usize),
            None => None,
        },
        None => if n > 0 {
            Some(0usize)
        } else {
            None
        },
    };
    if fs.len() > 0 {
        match first_day_named(flat, roots, fs.last(), n) {
            Some(i) => Some(i as usize),
            None => newest,
        }
    } else {
        newest
    }
}

impl App {
    /// The journal over the entry files `files` (oldest first), with `today` at the date
    /// prompt: the tree is built, and the newest file's day and then the last file's day
    /// are selected.  The files to open, in order, are returned with it.
    pub fn new(files: Vec<String>, today: String) -> (r: (App, Vec<String>))
        requires
            forall|i: int| 0 <= i < files@.len() ==> has_date_prefix(#[trigger] files@[i]@),
        ensures
            r.0.files == files,
            tree_of_files(r.0.tree_root@, names_view(files@)),
            nav_consistent(r.0),
            flat_view(r.0.flat_nodes@) == flat_forest(r.0.tree_root@),
            r.0.selected_index == start_selection(
                flat_view(r.0.flat_nodes@),
                r.0.tree_root@,
                names_view(files@),
            ),
            r.0.current_path is None,
            r.0.content@ == Seq::<char>::empty(),
            r.0.cursor_row == 0 && r.0.cursor_col == 0,
            r.0.focus == Focus::Tree,
            r.0.view_scroll == 0,
            !r.0.dirty,
            r.0.mode == AppMode::Preview,
            r.0.date_input == today,
            r.0.date_error is None,
            r.0.save_choice == 0,
            names_view(r.1@) == (match max_name(names_view(files@)) {
                Some(f) => seq![f, files@.last()@],
                None => Seq::<Seq<char>>::empty(),
            }),
    {
        let mut app = App {
            files,
            tree_root: Vec::new(),
            flat_nodes: Vec::new(),
            selected_index: None,
            current_path: None,
            content: String::new(),
            cursor_row: 0,
            cursor_col: 0,
            focus: Focus::Tree,
            view_scroll: 0,
            dirty: false,
            mode: AppMode::Preview,
            date_input: today,
            date_error: None,
            save_choice: 0,
        };
        let mut opens: Vec<String> = Vec::new();
        if let Some(f) = app.rebuild_tree() {
            opens.push(f);
        }
        if app.files.len() > 0 {
            let name = app.files[app.files.len() - 1].clone();
            app.select_day_by_filename(name.as_str());
            opens.push(name);
        }
        proof {
            if app.files@.len() > 0 {
                assert(names_view(app.files@).last() == app.files@.last()@);
                super::grouping::lemma_max_name_in(names_view(app.files@));
                assert(names_view(opens@) =~= seq![max_name(names_view(app.files@)).unwrap(), app.files@.last()@]);
            } else {
                assert(names_view(opens@) =~= Seq::<Seq<char>>::empty());
            }
        }
        (app, opens)
    }
}

} // verus!
