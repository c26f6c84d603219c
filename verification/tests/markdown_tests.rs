use devlog::markdown::{render_events, render_markdown_simple, LineStyle, MdEvent};

fn text(lines: &[(String, LineStyle)]) -> Vec<String> {
    lines.iter().map(|(s, _)| s.clone()).collect()
}

#[test]
fn headings_lists_and_code() {
    let out = render_markdown_simple("# Title\n\n- one\n- two\n\n```\ncode\n```\n", 0);
    assert_eq!(out[0], ("Title".to_string(), LineStyle::Heading));
    assert_eq!(out[1], (String::new(), LineStyle::Plain));
    assert_eq!(out[2], ("\u{2022} one".to_string(), LineStyle::Plain));
    assert_eq!(out[3], ("\u{2022} two".to_string(), LineStyle::Plain));
    assert_eq!(out[4], ("code\n".to_string(), LineStyle::Code));
    assert_eq!(out[5], (String::new(), LineStyle::Plain));
    assert_eq!(out.len(), 6);
}

#[test]
fn lines_are_cut_at_the_width() {
    let out = render_markdown_simple("abcdefgh", 3);
    assert_eq!(text(&out), vec!["abc", "def", "gh"]);
    // with a width, empty lines disappear
    let out = render_markdown_simple("# T\n\nx", 10);
    assert_eq!(text(&out), vec!["T", "x"]);
}

#[test]
fn soft_breaks_end_lines() {
    let evs = vec![
        MdEvent::Text("a".to_string()),
        MdEvent::SoftBreak,
        MdEvent::Code("b".to_string()),
        MdEvent::Other,
    ];
    let out = render_events(&evs, 0);
    assert_eq!(text(&out), vec!["a", "b"]);
    assert!(render_events(&Vec::new(), 5).is_empty());
}

#[test]
fn paragraphs_stay_apart() {
    let out = render_markdown_simple("a\n\nb", 80);
    assert_eq!(text(&out), vec!["a", "b"]);
    let evs = vec![
        MdEvent::Text("a".to_string()),
        MdEvent::ParagraphEnd,
        MdEvent::Other,
        MdEvent::Text("b".to_string()),
        MdEvent::ParagraphEnd,
    ];
    assert_eq!(text(&render_events(&evs, 80)), vec!["a", "b"]);
}
