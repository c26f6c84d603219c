use devlog::cli::{
    config_command_message, Cli, ConfigSubcommand, IdError,
};
use devlog::entry::Entry;

#[test]
fn test_get_template() {
    let template = Cli::get_template();
    assert!(template.contains("# Enter your journal entry"));
    assert!(template.contains("@person"));
    assert!(template.contains("::project"));
    assert!(template.contains("+tag"));
}

#[test]
fn test_validate_id_format_valid() {
    assert!(Cli::validate_id_format("20250905").is_ok());
    assert!(Cli::validate_id_format("20231231").is_ok());
    assert!(Cli::validate_id_format("20240229").is_ok()); // Leap year
}

#[test]
fn test_validate_id_format_invalid() {
    assert!(Cli::validate_id_format("2025905").is_err()); // Too short
    assert!(Cli::validate_id_format("202509055").is_err()); // Too long
    assert!(Cli::validate_id_format("20250932").is_err()); // Invalid day
    assert!(Cli::validate_id_format("20251301").is_err()); // Invalid month
    assert!(Cli::validate_id_format("abcd1234").is_err()); // Non-numeric
    assert!(Cli::validate_id_format("").is_err()); // Empty
}

#[test]
fn test_highlight_annotations() {
    let content = "Worked with @alice on ::project using +rust";
    let result = Cli::highlight_annotations(content);
    // For now, it should just return the content as-is
    assert_eq!(result, content);
}

#[test]
fn test_display_function_with_empty_annotations() {
    let entry = Entry::with_id(
        "Simple content with no annotations".to_string(),
        "20250905".to_string(),
    );
    let lines = Cli::display_lines(&entry);
    assert_eq!(lines[0], "Entry: 20250905");
    assert!(lines[1].starts_with("Created: "));
    assert!(lines[2].starts_with("Updated: "));
    assert_eq!(lines[3], "");
    assert_eq!(lines[4], "Content:");
    assert_eq!(lines[5], "Simple content with no annotations");
    assert_eq!(lines.len(), 6);
}

#[test]
fn display_lines_list_annotations() {
    let entry = Entry::with_id(
        "Met @alice and @bob on ::devlog with +rust".to_string(),
        "20250905".to_string(),
    );
    let lines = Cli::display_lines(&entry);
    assert_eq!(lines[4], "Metadata:");
    assert_eq!(lines[5], "  People: alice, bob");
    assert_eq!(lines[6], "  Projects: devlog");
    assert_eq!(lines[7], "  Tags: rust");
    assert_eq!(lines[8], "");
    assert_eq!(lines[9], "Content:");
    // times are written YYYY-MM-DD HH:MM:SS
    assert_eq!(lines[1].len(), "Created: ".len() + 19);
}

#[test]
fn invalid_id_is_refused_with_chronos_message() {
    let e = Cli::validate_id_format("2025-9-1").unwrap_err();
    assert_eq!(e, IdError::InvalidDate("input contains invalid characters".to_string()));
    assert_eq!(e.message(), "input contains invalid characters");
    let month = Cli::validate_id_format("2025905").unwrap_err();
    assert_eq!(month.message(), "input is out of range");
    let short = Cli::validate_id_format("202509").unwrap_err();
    assert_eq!(short.message(), "premature end of input");
    let day = Cli::validate_id_format("20250932").unwrap_err();
    assert_eq!(day.message(), "input is out of range");
}

#[test]
fn clean_content_drops_comments_and_trims() {
    let edited = format!("  Today I fixed a bug.\n# a comment\nSecond line\r\n{}", Cli::get_template());
    assert_eq!(
        Cli::clean_content(edited),
        "Today I fixed a bug.\nSecond line"
    );
    assert_eq!(Cli::clean_content("   \n\t# only comments\n".to_string()), "");
    assert_eq!(Cli::clean_content("a\n  #b\nc\n".to_string()), "a\nc");
}

#[test]
fn blank_content_is_detected() {
    assert!(Cli::is_blank(" \t\n\u{3000}"));
    assert!(!Cli::is_blank(" x "));
}

#[test]
fn editor_text_puts_template_below_content() {
    assert_eq!(Cli::editor_initial_text(None), Cli::get_template());
    assert_eq!(
        Cli::editor_initial_text(Some("old text")),
        format!("old text\n{}", Cli::get_template())
    );
}

#[test]
fn config_messages() {
    assert_eq!(config_command_message(&None), "Configure devlog interactively");
    assert_eq!(
        config_command_message(&Some(ConfigSubcommand::Sync { provider: "azure".to_string() })),
        "Configure sync provider: azure"
    );
    assert_eq!(config_command_message(&Some(ConfigSubcommand::Reset)), "Reset to default settings");
}

#[test]
fn the_template_below_the_text_is_ignored() {
    for c in ["Today I fixed a bug.", "a\n# note\nb\n", "last line\r", "", "  \n"] {
        let with = format!("{}\n{}", c, Cli::get_template());
        assert_eq!(Cli::clean_content(with), Cli::clean_content(c.to_string()));
    }
}
