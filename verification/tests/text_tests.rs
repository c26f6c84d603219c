use devlog::dates::{format_iso_date, parse_entry_date};
use devlog::time::{format_compact_date, format_offset, format_timestamp, format_year, Timestamp};
use devlog::ai::{
    choose_api_key, choose_model, classify_input, full_context, journal_file_names,
    append_file_section, is_journal_file_name, PromptInput,
};

#[test]
fn dates_are_read_and_written_like_chrono() {
    assert_eq!(parse_entry_date("20240229"), Some((2024, 2, 29)));
    assert_eq!(parse_entry_date("20230229"), None);
    assert_eq!(parse_entry_date("2024022"), None);
    assert_eq!(parse_entry_date("2024-02-02"), None);
    assert_eq!(format_iso_date(2024, 2, 9), "2024-02-09");
    assert_eq!(format_compact_date(987, 1, 2), "09870102");
    assert_eq!(format_year(-5), "-0005");
    assert_eq!(format_year(12345), "+12345");
}

#[test]
fn only_eight_digit_names_of_real_days_are_entry_dates() {
    let stems = ["invalid", "2025031", "202503155", "20250229", "readme", "20250315", "20250316"];
    let dates: Vec<(i32, u32, u32)> = stems.iter().filter_map(|s| parse_entry_date(s)).collect();
    assert_eq!(dates, vec![(2025, 3, 15), (2025, 3, 16)]);
    assert_eq!(parse_entry_date("+2025031"), None);
    assert_eq!(parse_entry_date("2025 315"), None);
}

#[test]
fn timestamps_are_written_like_chrono() {
    let t = Timestamp {
        year: 2025,
        month: 1,
        day: 2,
        hour: 3,
        minute: 4,
        second: 5,
        nanosecond: 6,
        offset_seconds: 5 * 3600 + 45 * 60 + 29,
    };
    assert_eq!(format_timestamp(t), "2025-01-02T03:04:05+05:45");
    assert_eq!(format_offset(-30), "-00:01");
    assert_eq!(format_offset(0), "+00:00");
}

#[test]
fn question_prompt_inputs() {
    assert_eq!(classify_input("  \n"), PromptInput::Skip);
    assert_eq!(classify_input(" EXIT \n"), PromptInput::Stop);
    assert_eq!(classify_input("Quit"), PromptInput::Stop);
    assert_eq!(classify_input(" what did I do? \n"), PromptInput::Ask("what did I do?".to_string()));
}

#[test]
fn api_key_and_model_choice() {
    assert_eq!(choose_api_key(Some("e".to_string()), Some("c".to_string())), Ok("e".to_string()));
    assert_eq!(choose_api_key(None, Some("c".to_string())), Ok("c".to_string()));
    assert!(choose_api_key(None, None).unwrap_err().starts_with("OpenAI API key not set."));
    assert_eq!(choose_model(None), "gpt-4o-mini");
    assert_eq!(choose_model(Some("m".to_string())), "m");
    assert!(full_context("F").ends_with("\n\nHere are the devlog files:\nF"));
}

#[test]
fn context_sections_and_file_names() {
    let mut acc = String::new();
    let full = append_file_section(&mut acc, 0, "a.md", "hello", 1000);
    assert!(!full);
    assert_eq!(acc, "\n\n# File 1: a.md\n\nhello\n");
    assert!(append_file_section(&mut acc, 1, "b.md", "x", 10));
    let names = vec![
        "z.md".to_string(),
        "notes.txt".to_string(),
        "a.markdown".to_string(),
        ".md".to_string(),
        "m.md".to_string(),
    ];
    assert_eq!(
        journal_file_names(&names),
        vec!["a.markdown".to_string(), "m.md".to_string(), "z.md".to_string()]
    );
    assert!(is_journal_file_name("x.y.md"));
    assert!(!is_journal_file_name("md"));
}

#[test]
fn leap_seconds_are_written_as_sixty() {
    let t = Timestamp {
        year: 2016,
        month: 12,
        day: 31,
        hour: 23,
        minute: 59,
        second: 59,
        nanosecond: 1_500_000_000,
        offset_seconds: 0,
    };
    assert_eq!(format_timestamp(t), "2016-12-31T23:59:60+00:00");
}

#[test]
fn a_written_entry_name_reads_back_as_its_day() {
    for (y, m, d) in [(2025, 3, 15), (987, 1, 2), (0, 12, 31), (2024, 2, 29)] {
        let name = format_compact_date(y, m, d);
        assert_eq!(name.len(), 8);
        assert_eq!(parse_entry_date(&name), Some((y, m, d)));
    }
    assert_eq!(format_compact_date(2025, 3, 15), "20250315");
}
