use devlog::models::{
    deserialize_entry, display_text, list_line, serialize_entry, split_frontmatter, Entry,
};
use devlog::time::Instant;
use unicode_width::UnicodeWidthStr;

#[test]
fn test_new_entry_with_id() {
    let content = "Test content".to_string();
    let id = "20250910".to_string();

    let entry = Entry::new(id.clone(), content.clone());

    assert_eq!(entry.id, id);
    assert_eq!(entry.content, content);
}

#[test]
fn test_preview_short_content() {
    let id = "20250925".to_string();
    let content = "Short content".to_string();
    let entry = Entry::new(id, content.clone());

    let preview = entry.preview();
    assert_eq!(preview, content);
}

#[test]
fn test_preview_long_ascii_content() {
    let id = "20250925".to_string();
    let content = "This is a very long line that exceeds sixty characters and should be truncated properly".to_string();
    let entry = Entry::new(id, content);

    let preview = entry.preview();
    assert!(preview.width() <= 60);
    assert!(preview.ends_with("..."));
}

#[test]
fn test_preview_multiline_content() {
    let id = "20250925".to_string();
    let content = "First line\nSecond line\nThird line".to_string();
    let entry = Entry::new(id, content);

    let preview = entry.preview();
    assert_eq!(preview, "First line");
}

#[test]
fn test_preview_chinese_characters() {
    let id = "20250925".to_string();
    // Chinese characters typically have width of 2 each
    let content =
        "这是一个包含中文字符的测试内容，用来测试预览功能是否能正确处理Unicode字符".to_string();
    let entry = Entry::new(id, content);

    let preview = entry.preview();
    assert!(preview.width() <= 60);
    assert!(preview.ends_with("..."));
}

#[test]
fn test_serialize_deserialize_roundtrip() {
    let saved_entry = Entry::new(
        "20250920".to_string(),
        "# Original\n\nSome content.".to_string(),
    );

    // Serialize then deserialize
    let serialized = serialize_entry(&saved_entry).expect("Failed to serialize the entry.");
    let deserialized = deserialize_entry(&saved_entry.id, &serialized)
        .expect("Failed to deserialize the entry.");

    assert_eq!(deserialized.id, saved_entry.id);
    assert_eq!(deserialized.content, saved_entry.content);
}

#[test]
fn preview_cuts_ascii_at_fifty_seven_columns() {
    let entry = Entry::new("1".to_string(), "x".repeat(80));
    assert_eq!(entry.preview(), format!("{}...", "x".repeat(57)));
    let entry = Entry::new("1".to_string(), format!("   {}   ", "y".repeat(60)));
    assert_eq!(entry.preview(), "y".repeat(60));
    let empty = Entry::new("1".to_string(), String::new());
    assert_eq!(empty.preview(), "");
}

#[test]
fn frontmatter_is_split_like_str_split() {
    let file = "---\nid: 1\ncreated_at: x\n---\n\n  Body text\n--- more";
    let (yaml, body) = split_frontmatter(file).unwrap();
    assert_eq!(yaml, "\nid: 1\ncreated_at: x\n");
    assert_eq!(body, "Body text\n");
    assert!(split_frontmatter("no front matter").is_none());
    assert!(split_frontmatter("---\nonly one mark").is_none());
}

#[test]
fn deserialize_reads_times_and_falls_back() {
    let file = "---\nid: 20250920\ncreated_at: 2025-09-20T10:00:00Z\nupdated_at: not a time\n---\n\nText";
    let e = deserialize_entry("20250920", file).unwrap();
    assert_eq!(e.created_at, Instant { secs: 1758362400, nanos: 0 });
    assert_eq!(e.content, "Text");
    let plain = deserialize_entry("20250921", "just text").unwrap();
    assert_eq!(plain.content, "just text");
    assert_eq!(plain.created_at, plain.updated_at);
    assert!(deserialize_entry("1", "---\n: : [\n---\nx").is_err());
}

#[test]
fn update_keeps_creation_time() {
    let mut e = Entry::new("1".to_string(), "a".to_string());
    let created = e.created_at;
    e.update_content("b".to_string());
    assert_eq!(e.content, "b");
    assert_eq!(e.created_at, created);
    assert_eq!(list_line("20250101", "hello"), "20250101  hello");
}

#[test]
fn entries_are_shown_with_rfc3339_times() {
    let t = Instant { secs: 1758362400, nanos: 0 };
    let entry = Entry {
        id: "20250920".to_string(),
        created_at: t,
        updated_at: Instant { secs: 1758362400, nanos: 500_000_000 },
        content: "Hello".to_string(),
    };
    assert_eq!(
        display_text(&entry).unwrap(),
        "Id: 20250920\nCreated: 2025-09-20T10:00:00+00:00\nUpdated: 2025-09-20T10:00:00.500+00:00\n---\n\nHello"
    );
    assert_eq!(
        serialize_entry(&entry).unwrap(),
        "---\nid: 20250920\ncreated_at: 2025-09-20 10:00:00 UTC\nupdated_at: 2025-09-20 10:00:00.500 UTC\n---\n\nHello"
    );
}

#[test]
fn written_file_splits_back_into_front_matter_and_text() {
    let entry = Entry {
        id: "20250920".to_string(),
        created_at: Instant { secs: 1758362400, nanos: 0 },
        updated_at: Instant { secs: 1758362401, nanos: 0 },
        content: "  \nBody - with -- dashes".to_string(),
    };
    let file = serialize_entry(&entry).unwrap();
    let (yaml, body) = split_frontmatter(&file).unwrap();
    assert_eq!(
        yaml,
        "\nid: 20250920\ncreated_at: 2025-09-20 10:00:00 UTC\nupdated_at: 2025-09-20 10:00:01 UTC\n"
    );
    assert_eq!(body, "Body - with -- dashes");
    let back = deserialize_entry("20250920", &file).unwrap();
    assert_eq!(back.created_at, entry.created_at);
    assert_eq!(back.updated_at, entry.updated_at);
}

#[test]
fn models_test_update_content() {
    let id = "20250920".to_string();
    let content = "Test content".to_string();
    let mut entry = Entry::new(id, content);
    let original_created = entry.created_at;

    // wait until the clock has moved on
    let start = chrono::Utc::now();
    while chrono::Utc::now() == start {}

    let updated_content = "Update content".to_string();

    entry.update_content(updated_content.clone());

    assert_eq!(entry.content, updated_content);
    assert_eq!(entry.created_at, original_created);
    assert!(
        (entry.updated_at.secs, entry.updated_at.nanos)
            > (entry.created_at.secs, entry.created_at.nanos)
    );
}

#[test]
fn test_display_format() {
    let id = "20250921".to_string();
    let content = "# Test Entry\n\nThis is a test entry.".to_string();
    let entry = Entry::new(id.clone(), content.clone());

    let display_output = display_text(&entry).unwrap();

    // Check that the display output contains expected parts
    assert!(display_output.contains(&format!("Id: {}", id)));
    assert!(display_output.contains("Created:"));
    assert!(display_output.contains("Updated:"));
    assert!(display_output.contains("---"));
    assert!(display_output.contains(&content));
}

#[test]
fn written_times_hold_no_marker() {
    let e = Entry {
        id: "00000101".to_string(),
        created_at: devlog::time::Instant { secs: -70_000_000_000, nanos: 5 },
        updated_at: devlog::time::Instant { secs: 1_700_000_000, nanos: 120_000_000 },
        content: "text".to_string(),
    };
    let s = serialize_entry(&e).unwrap();
    assert_eq!(s.matches("---").count(), 2);
    assert!(s.contains("created_at: -02"));
    assert!(s.contains("updated_at: 2023-11-14 22:13:20.120 UTC"));
    let back = deserialize_entry(&e.id, &s).unwrap();
    assert_eq!(back.content, "text");
    assert_eq!(back.updated_at, e.updated_at);
}
