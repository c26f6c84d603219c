use devlog::annotations::AnnotationParser;

#[test]
fn test_parse_all_annotations() {
    let parser = AnnotationParser::new();
    let content =
        "@alice helped with ::project, then @alice worked on ::project using +rust and +rust";
    let annotations = parser.parse(content);

    // Should allow duplicates since we're using Vec instead of HashSet
    assert_eq!(annotations.people.len(), 2);
    assert_eq!(annotations.people, ["alice", "alice"].map(String::from));

    assert_eq!(annotations.projects.len(), 2);
    assert_eq!(annotations.projects, ["project", "project"].map(String::from));

    assert_eq!(annotations.tags.len(), 2);
    assert_eq!(annotations.tags, ["rust", "rust"].map(String::from));
}

#[test]
fn test_no_annotations() {
    let parser = AnnotationParser::new();
    let content = "Just worked alone today on some regular code";
    let annotations = parser.parse(content);

    assert!(annotations.people.is_empty());
    assert!(annotations.projects.is_empty());
    assert!(annotations.tags.is_empty());
}

#[test]
fn test_ignore_incomplete_annotations() {
    let parser = AnnotationParser::new();
    let content = "The @ symbol alone or @ with space, :: without name, + without tag";
    let annotations = parser.parse(content);

    assert!(annotations.people.is_empty());
    assert!(annotations.projects.is_empty());
    assert!(annotations.tags.is_empty());
}

#[test]
fn test_annotations_with_punctuation() {
    let parser = AnnotationParser::new();
    let content = "Talked to @alice! Then worked on ::project? Finally learned +rust.";
    let annotations = parser.parse(content);

    assert_eq!(annotations.people.len(), 1);
    assert_eq!(annotations.people, vec!["alice".to_string()]);

    assert_eq!(annotations.projects.len(), 1);
    assert_eq!(annotations.projects, vec!["project".to_string()]);

    assert_eq!(annotations.tags.len(), 1);
    assert_eq!(annotations.tags, vec!["rust".to_string()]);
}

#[test]
fn test_multiline_content() {
    let parser = AnnotationParser::new();
    let content = r#"
        Day 1: Met with @sarah about ::search_engine
        Day 2: @mike joined, we used +rust
        Day 3: Deployed to ::production with +confidence
        "#;
    let annotations = parser.parse(content);

    assert_eq!(annotations.people.len(), 2);
    assert_eq!(annotations.people, vec!["sarah".to_string(), "mike".to_string()]);

    assert_eq!(annotations.projects.len(), 2);
    assert_eq!(
        annotations.projects,
        vec!["search_engine".to_string(), "production".to_string()]
    );

    assert_eq!(annotations.tags.len(), 2);
    assert_eq!(annotations.tags, vec!["rust".to_string(), "confidence".to_string()]);
}

#[test]
fn test_duplicates_preserved() {
    let parser = AnnotationParser::new();
    let content =
        "@alice @bob @alice worked on ::proj1 ::proj2 ::proj1 using +rust +debug +rust";
    let annotations = parser.parse(content);

    // Duplicates should be preserved in order
    assert_eq!(annotations.people.len(), 3);
    assert_eq!(annotations.people, ["alice", "bob", "alice"].map(String::from));

    assert_eq!(annotations.projects.len(), 3);
    assert_eq!(annotations.projects, ["proj1", "proj2", "proj1"].map(String::from));

    assert_eq!(annotations.tags.len(), 3);
    assert_eq!(annotations.tags, ["rust", "debug", "rust"].map(String::from));
}

#[test]
fn hyphens_and_unicode_words_are_kept() {
    let parser = AnnotationParser::new();
    let annotations = parser.parse("pairing with @jean-luc on ::café +été");
    assert_eq!(annotations.people, vec!["jean-luc".to_string()]);
    assert_eq!(annotations.projects, vec!["café".to_string()]);
    assert_eq!(annotations.tags, vec!["été".to_string()]);
}
