use devlog::data::{join_path, Date, Entry, Storage};

#[test]
fn test_entry_creation() {
    let date = Date { year: 2025, month: 3, day: 15 };
    let entry = Entry::new(date);

    assert_eq!(entry.date, date);
    assert!(entry.content.is_empty());
}

#[test]
fn test_entry_with_content() {
    let date = Date { year: 2025, month: 3, day: 15 };
    let content = "Today I learned Rust!".to_string();
    let entry = Entry::with_content(date, content.clone());

    assert_eq!(entry.content, content);
}

#[test]
fn entry_file_path_is_year_month_day() {
    let storage = Storage::new("/tmp/journal".to_string());
    assert_eq!(storage.get_base_dir(), "/tmp/journal");
    let path = storage.generate_file_path(&Date { year: 2025, month: 3, day: 15 });
    assert_eq!(path, "/tmp/journal/2025/03/20250315.md");
    let slash = Storage::new("/tmp/j/".to_string());
    assert_eq!(slash.generate_file_path(&Date { year: 987, month: 12, day: 1 }), "/tmp/j/987/12/09871201.md");
}

#[test]
fn join_path_uses_one_separator() {
    assert_eq!(join_path("a", "b"), "a/b");
    assert_eq!(join_path("a/", "b"), "a/b");
    assert_eq!(join_path("", "b"), "b");
}

#[test]
fn test_storage_creation() {
    let temp_dir = tempfile::TempDir::new().unwrap();
    let base = temp_dir.path().to_string_lossy().to_string();
    let storage = Storage::new(base.clone());
    assert_eq!(storage.get_base_dir(), base);
}

#[test]
fn test_path_generation() {
    let temp_dir = tempfile::TempDir::new().unwrap();
    let storage = Storage::new(temp_dir.path().to_string_lossy().to_string());
    let date = Date { year: 2025, month: 3, day: 15 };
    let path = storage.generate_file_path(&date);

    assert!(path.contains("2025"));
    assert!(path.contains("03"));
    assert!(path.ends_with("20250315.md"));
}
