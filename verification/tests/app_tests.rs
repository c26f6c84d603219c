use devlog::app::events::{KeyAction, KeyCode, KeyPress};
use devlog::app::{App, AppMode, Focus, NodeKind};

fn key(code: KeyCode) -> KeyPress {
    KeyPress { code, control: false, super_key: false }
}

fn journal() -> (App, Vec<String>) {
    App::new(
        vec![
            "20240105.md".to_string(),
            "20250301.md".to_string(),
            "20250315.md".to_string(),
        ],
        "20250401".to_string(),
    )
}

#[test]
fn new_builds_the_tree_newest_first() {
    let (app, opens) = journal();
    assert_eq!(opens, vec!["20250315.md".to_string(), "20250315.md".to_string()]);
    assert_eq!(app.tree_root.len(), 2);
    assert_eq!(app.tree_root[0].label, "2025");
    assert_eq!(app.tree_root[1].label, "2024");
    assert_eq!(app.selected_filename(), Some("20250315.md"));
    assert_eq!(app.mode, AppMode::Preview);
    assert_eq!(app.focus, Focus::Tree);
    let day = &app.tree_root[0].children[0].children[0];
    match &day.kind {
        NodeKind::Day { filename } => assert_eq!(filename, "20250315.md"),
        _ => panic!("expected a day"),
    }
    assert_eq!(day.label, "2025-03-15");
}

#[test]
fn editing_keys_change_text_and_cursor() {
    let (mut app, _) = journal();
    app.open_file_contents("20250315.md".to_string(), "ab\ncd".to_string());
    app.handle_key(key(KeyCode::Char('e')));
    assert_eq!(app.mode, AppMode::Edit);
    assert_eq!((app.cursor_row, app.cursor_col), (1, 2));
    app.handle_key(key(KeyCode::Char('x')));
    assert_eq!(app.content, "ab\ncdx");
    app.handle_key(key(KeyCode::Backspace));
    assert_eq!(app.content, "ab\ncd");
    app.handle_key(key(KeyCode::Enter));
    assert_eq!(app.content, "ab\ncd\n");
    assert_eq!((app.cursor_row, app.cursor_col), (2, 0));
    app.handle_key(key(KeyCode::Backspace));
    assert_eq!(app.content, "ab\ncd");
    app.handle_key(key(KeyCode::Up));
    app.handle_key(key(KeyCode::Left));
    assert_eq!((app.cursor_row, app.cursor_col), (0, 1));
    app.handle_key(key(KeyCode::Delete));
    assert_eq!(app.content, "a\ncd");
    app.handle_key(key(KeyCode::Tab));
    assert_eq!(app.content, "a  \ncd");
    assert!(app.dirty);
    let save = app.handle_key(KeyPress { code: KeyCode::Char('s'), control: true, super_key: false });
    assert_eq!(save, KeyAction::Save);
    app.handle_key(key(KeyCode::Esc));
    assert_eq!(app.mode, AppMode::SavePrompt);
    app.handle_key(key(KeyCode::Right));
    app.handle_key(key(KeyCode::Right));
    app.handle_key(key(KeyCode::Right));
    assert_eq!(app.save_choice, 2);
    assert_eq!(app.handle_key(key(KeyCode::Enter)), KeyAction::Continue);
    assert_eq!(app.mode, AppMode::Edit);
    app.handle_key(key(KeyCode::Esc));
    app.handle_key(key(KeyCode::Left));
    app.handle_key(key(KeyCode::Left));
    assert_eq!(app.handle_key(key(KeyCode::Enter)), KeyAction::SaveThenPreview);
}

#[test]
fn date_prompt_checks_the_date() {
    let (mut app, _) = journal();
    assert_eq!(app.handle_key(key(KeyCode::Char('n'))), KeyAction::FillToday);
    assert_eq!(app.mode, AppMode::DatePrompt);
    app.date_input = String::new();
    for c in "2025023".chars() {
        app.handle_key(key(KeyCode::Char(c)));
    }
    app.handle_key(key(KeyCode::Char('x')));
    assert_eq!(app.date_input, "2025023");
    app.handle_key(key(KeyCode::Enter));
    assert_eq!(app.date_error.as_deref(), Some("Invalid date. Use YYYYMMDD."));
    app.handle_key(key(KeyCode::Char('0')));
    app.handle_key(key(KeyCode::Enter));
    assert_eq!(app.date_error.as_deref(), Some("Invalid calendar date."));
    app.handle_key(key(KeyCode::Backspace));
    app.handle_key(key(KeyCode::Backspace));
    app.handle_key(key(KeyCode::Char('2')));
    app.handle_key(key(KeyCode::Char('8')));
    assert_eq!(app.date_error, None);
    assert_eq!(
        app.handle_key(key(KeyCode::Enter)),
        KeyAction::OpenOrCreate("20250228".to_string())
    );
    app.handle_key(key(KeyCode::Esc));
    assert_eq!(app.mode, AppMode::Preview);
}

#[test]
fn tree_navigation_and_folding() {
    let (mut app, _) = journal();
    let before = app.selected_index;
    let opened = app.handle_key(key(KeyCode::Down));
    app.handle_key(key(KeyCode::Up));
    assert_eq!(app.selected_index, before);
    match opened {
        KeyAction::OpenFile(f) => assert!(f.ends_with(".md")),
        KeyAction::Continue => {}
        other => panic!("unexpected {:?}", other),
    }
    app.handle_key(key(KeyCode::Tab));
    assert_eq!(app.focus, Focus::Content);
    app.handle_key(key(KeyCode::Down));
    assert_eq!(app.view_scroll, 1);
    app.handle_key(key(KeyCode::Up));
    app.handle_key(key(KeyCode::Up));
    assert_eq!(app.view_scroll, 0);
    assert_eq!(app.handle_key(key(KeyCode::Esc)), KeyAction::Quit);
}

#[test]
fn validate_date_messages() {
    assert_eq!(App::validate_date("20250229"), Err("Invalid calendar date."));
    assert_eq!(App::validate_date("2025022"), Err("Invalid date. Use YYYYMMDD."));
    assert_eq!(App::validate_date("20240229"), Ok(()));
    assert_eq!(App::file_name_for_date("20240229"), "20240229.md");
}

#[test]
fn cursor_moves_undo_each_other() {
    let (mut app, _) = journal();
    app.open_file_contents("20250315.md".to_string(), "ab\ncd".to_string());
    app.begin_editing();
    app.move_left();
    let here = (app.cursor_row, app.cursor_col);
    app.move_right();
    app.move_left();
    assert_eq!((app.cursor_row, app.cursor_col), here);
    // at the end of the first line, right goes to the start of the next and left back
    app.cursor_row = 0;
    app.cursor_col = 2;
    app.move_right();
    assert_eq!((app.cursor_row, app.cursor_col), (1, 0));
    app.move_left();
    assert_eq!((app.cursor_row, app.cursor_col), (0, 2));
    // delete at the end of a line joins it with the next, one character less
    app.delete();
    assert_eq!(app.content, "abcd");
}

#[test]
fn cursor_is_in_text_only_on_a_line_of_it() {
    let (mut app, _) = journal();
    app.open_file_contents("20250315.md".to_string(), "ab\ncd\n".to_string());
    app.cursor_row = 2;
    assert!(app.is_cursor_in_text());
    app.cursor_row = 3;
    assert!(!app.is_cursor_in_text());
}

#[test]
fn date_input_stays_at_most_eight_digits() {
    let (mut app, _) = journal();
    app.handle_key(key(KeyCode::Char('n')));
    app.date_input = String::new();
    for c in "2025030112".chars() {
        app.handle_key(key(KeyCode::Char(c)));
        assert!(app.date_input.len() <= 8);
        assert!(app.date_input.chars().all(|c| c.is_ascii_digit()));
    }
    assert_eq!(app.date_input, "20250301");
    app.handle_key(key(KeyCode::Char('a')));
    assert_eq!(app.date_input, "20250301");
}

#[test]
fn writing_through_a_path_changes_only_that_node() {
    let (mut app, _) = journal();
    let other = app.node_by_path_slice(&[1]).unwrap().label.clone();
    if let Some(n) = app.node_by_path_mut_slice(&[0, 0]) {
        n.label = "changed".to_string();
    }
    assert_eq!(app.node_by_path_slice(&[0, 0]).unwrap().label, "changed");
    assert_eq!(app.node_by_path_slice(&[1]).unwrap().label, other);
    assert!(app.node_by_path_mut_slice(&[7]).is_none());
}

#[test]
fn selecting_a_visible_day_names_its_file() {
    let (mut app, _) = journal();
    app.select_day_by_filename("20250301.md");
    assert_eq!(app.selected_filename(), Some("20250301.md"));
    app.select_day_by_filename("19990101.md");
    assert_eq!(app.selected_filename(), Some("20250301.md"));
}
