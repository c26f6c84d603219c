use devlog::data::{Date, Entry};
use devlog::navigation::{EntryTree, Month, NavigationState, Year};

fn create_test_entry(year: i32, month: u32, day: u32) -> Entry {
    Entry::with_content(Date { year, month, day }, "Test content".to_string())
}

#[test]
fn test_new_navigation_state() {
    let state = NavigationState::new();
    assert!(state.tree.is_empty());
    assert!(state.selected_date.is_none());
    assert!(state.expanded_year.is_none());
    assert!(state.expanded_month.is_none());
}

#[test]
fn test_year_expansion() {
    let mut state = NavigationState::new();

    // Initially nothing expanded
    assert!(!state.is_year_expanded(2025));

    // Expand 2025
    state.expand_year(2025);
    assert!(state.is_year_expanded(2025));
    assert!(!state.is_year_expanded(2024));

    // Expanding different year should collapse previous
    state.expand_year(2024);
    assert!(state.is_year_expanded(2024));
    assert!(!state.is_year_expanded(2025));

    // Toggle should collapse
    state.toggle_year(2024);
    assert!(!state.is_year_expanded(2024));
}

#[test]
fn test_month_expansion() {
    let mut state = NavigationState::new();

    // Can't expand month without year
    state.expand_month(3);
    assert!(!state.is_month_expanded(3));

    // Expand year first
    state.expand_year(2025);
    state.expand_month(3);
    assert!(state.is_month_expanded(3));

    // Collapsing year should collapse month
    state.collapse_year();
    assert!(!state.is_year_expanded(2025));
    assert!(!state.is_month_expanded(3));
}

#[test]
fn test_auto_expansion_on_add() {
    let mut state = NavigationState::new();
    let entry = create_test_entry(2025, 3, 15);

    state.add_entry(entry, true);

    // Should auto-expand to show the new entry
    assert!(state.is_year_expanded(2025));
    assert!(state.is_month_expanded(3));
    assert_eq!(state.get_selected_date(), Some(Date { year: 2025, month: 3, day: 15 }));
}

#[test]
fn test_expanded_year_months() {
    let mut state = NavigationState::new();

    state.add_entry(create_test_entry(2025, 3, 15), false);
    state.add_entry(create_test_entry(2025, 4, 10), false);
    state.add_entry(create_test_entry(2024, 12, 31), false);

    // No months when no year expanded
    assert!(state.get_months_for_expanded_year().is_empty());

    // Expand 2025, months are sorted in descending order
    state.expand_year(2025);
    let months = state.get_months_for_expanded_year();
    assert_eq!(months, vec![4, 3]);

    // Expand 2024
    state.expand_year(2024);
    let months = state.get_months_for_expanded_year();
    assert_eq!(months, vec![12]);
}

#[test]
fn tree_keeps_dates_in_order_and_replaces_same_day() {
    let mut tree = EntryTree::new();
    tree.add_entry(create_test_entry(2025, 3, 16));
    tree.add_entry(create_test_entry(2024, 12, 31));
    tree.add_entry(create_test_entry(2025, 3, 15));
    tree.add_entry(Entry::with_content(Date { year: 2025, month: 3, day: 16 }, "new".to_string()));
    let dates = tree.get_all_dates();
    assert_eq!(
        dates,
        vec![
            Date { year: 2024, month: 12, day: 31 },
            Date { year: 2025, month: 3, day: 15 },
            Date { year: 2025, month: 3, day: 16 },
        ]
    );
    assert_eq!(tree.get_entry(&Date { year: 2025, month: 3, day: 16 }).unwrap().content, "new");
    assert!(tree.get_entry(&Date { year: 2025, month: 3, day: 17 }).is_none());
    assert_eq!(tree.get_latest_date(), Some(Date { year: 2025, month: 3, day: 16 }));
    assert_eq!(tree.get_earliest_date(), Some(Date { year: 2024, month: 12, day: 31 }));
    assert_eq!(tree.get_years(), vec![2025, 2024]);
    assert_eq!(tree.get_days_for_month(2025, 3), vec![16, 15]);
    assert_eq!(tree.get_all_entries().len(), 3);
}

#[test]
fn next_then_prev_returns_to_the_same_day() {
    let mut state = NavigationState::new();
    state.add_entry(create_test_entry(2025, 1, 1), false);
    state.add_entry(create_test_entry(2025, 1, 2), false);
    state.add_entry(create_test_entry(2025, 1, 3), false);
    state.select_next();
    assert_eq!(state.get_selected_date(), Some(Date { year: 2025, month: 1, day: 1 }));
    state.select_next();
    assert_eq!(state.get_selected_date(), Some(Date { year: 2025, month: 1, day: 2 }));
    state.select_prev();
    assert_eq!(state.get_selected_date(), Some(Date { year: 2025, month: 1, day: 1 }));
    state.select_prev();
    assert_eq!(state.get_selected_date(), Some(Date { year: 2025, month: 1, day: 1 }));
    state.clear_selection();
    state.select_prev();
    assert_eq!(state.get_selected_date(), Some(Date { year: 2025, month: 1, day: 3 }));
    state.select_next();
    assert_eq!(state.get_selected_date(), Some(Date { year: 2025, month: 1, day: 3 }));
    assert_eq!(state.get_selected_entry().unwrap().content, "Test content");
}

#[test]
fn toggling_a_year_twice_restores_it() {
    let mut state = NavigationState::new();
    state.expand_year(2025);
    state.expand_month(2);
    state.toggle_year(2025);
    state.toggle_year(2025);
    assert_eq!(state.get_expanded_year(), Some(2025));
    assert_eq!(state.get_expanded_month(), None);
    state.toggle_month(5);
    assert_eq!(state.get_expanded_month(), Some(5));
    state.toggle_month(5);
    assert_eq!(state.get_expanded_month(), None);
}

#[test]
fn days_of_expanded_month() {
    let mut state = NavigationState::new();
    state.add_entry(create_test_entry(2025, 3, 15), false);
    state.add_entry(create_test_entry(2025, 3, 2), false);
    assert!(state.get_days_for_expanded_month().is_empty());
    state.expand_year(2025);
    state.expand_month(3);
    assert_eq!(state.get_days_for_expanded_month(), vec![15, 2]);
    assert_eq!(state.get_years(), vec![2025]);
}

#[test]
fn months_and_years_keep_entries_by_day() {
    let mut month = Month::new(3);
    assert!(month.is_empty());
    month.add_entry(create_test_entry(2025, 3, 20));
    month.add_entry(create_test_entry(2025, 3, 5));
    month.add_entry(Entry::with_content(Date { year: 2025, month: 3, day: 20 }, "later".to_string()));
    assert!(!month.is_empty());
    assert_eq!(month.entries.len(), 2);
    assert_eq!(month.get_entry(20).unwrap().content, "later");
    assert!(month.get_entry(6).is_none());

    let mut year = Year::new(2025);
    assert!(year.is_empty());
    year.add_entry(create_test_entry(2025, 7, 1));
    year.add_entry(create_test_entry(2025, 2, 28));
    year.add_entry(create_test_entry(2025, 7, 2));
    let days: Vec<(u32, u32)> = year
        .get_all_entries()
        .iter()
        .map(|e| (e.date.month, e.date.day))
        .collect();
    assert_eq!(days, vec![(2, 28), (7, 1), (7, 2)]);
    assert_eq!(year.months.get(&7).unwrap().month, 7);
}

#[test]
fn adding_an_entry_leaves_other_days_alone() {
    let mut tree = EntryTree::new();
    tree.add_entry(create_test_entry(2024, 1, 1));
    tree.add_entry(Entry::with_content(Date { year: 2024, month: 1, day: 2 }, "two".to_string()));
    tree.add_entry(Entry::with_content(Date { year: 2024, month: 1, day: 1 }, "one".to_string()));
    assert_eq!(tree.get_entry(&Date { year: 2024, month: 1, day: 1 }).unwrap().content, "one");
    assert_eq!(tree.get_entry(&Date { year: 2024, month: 1, day: 2 }).unwrap().content, "two");
    assert_eq!(tree.get_months_for_year(2024), vec![1]);
    assert!(tree.get_months_for_year(2023).is_empty());
    assert!(!tree.is_empty());
}

#[test]
fn dates_are_in_calendar_order_even_before_year_zero() {
    let mut tree = EntryTree::new();
    tree.add_entry(create_test_entry(2025, 1, 2));
    tree.add_entry(create_test_entry(-1, 6, 1));
    tree.add_entry(create_test_entry(2024, 12, 31));
    assert_eq!(
        tree.get_all_dates(),
        vec![
            Date { year: -1, month: 6, day: 1 },
            Date { year: 2024, month: 12, day: 31 },
            Date { year: 2025, month: 1, day: 2 },
        ]
    );
    assert_eq!(tree.get_earliest_date(), Some(Date { year: -1, month: 6, day: 1 }));
    // years are listed by their keys, `year as u32`, largest first
    assert_eq!(tree.get_years(), vec![(-1i32) as u32, 2025, 2024]);
    let keys: Vec<(i32, u32, u32)> = tree
        .get_all_entries()
        .iter()
        .map(|e| (e.date.year, e.date.month, e.date.day))
        .collect();
    assert_eq!(keys, vec![(2024, 12, 31), (2025, 1, 2), (-1, 6, 1)]);
}

#[test]
fn a_month_is_expanded_only_within_a_year() {
    let mut state = NavigationState::new();
    let consistent = |s: &NavigationState| s.expanded_month.is_none() || s.expanded_year.is_some();
    state.expand_month(3);
    assert!(consistent(&state));
    state.expand_year(2025);
    state.toggle_month(3);
    assert!(consistent(&state));
    state.toggle_year(2025);
    assert!(consistent(&state));
    assert_eq!(state.get_expanded_month(), None);
    state.add_entry(create_test_entry(2024, 5, 1), true);
    assert!(consistent(&state));
    state.collapse_month();
    state.collapse_year();
    assert!(consistent(&state));
}
