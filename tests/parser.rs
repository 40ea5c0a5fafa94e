use forgepoint::document::ForgepointDocument;
use forgepoint::parser::DocumentParser;

fn parse(content: &str) -> ForgepointDocument {
    DocumentParser::new()
        .parse_content(content, "test.adoc".to_string())
        .unwrap()
}

#[test]
fn test_parse_basic_document() {
    let content = r#"= Test Document
:forgepoint-type: story
:id: test-story
:schema-version: 1.0

[abstract]
This is a test document.

== Section One

Some content here.

== Section Two

More content here.
"#;

    let doc = parse(content);

    assert_eq!(doc.title, Some("Test Document".to_string()));
    assert_eq!(doc.attribute("forgepoint-type"), Some(&"story".to_string()));
    assert_eq!(doc.attribute("id"), Some(&"test-story".to_string()));
    assert_eq!(doc.sections.len(), 2);
    assert_eq!(doc.sections[0].title, "Section One");
    assert_eq!(doc.sections[1].title, "Section Two");
}

#[test]
fn test_is_asciidoc_file() {
    assert!(DocumentParser::is_asciidoc_file("test.adoc"));
    assert!(DocumentParser::is_asciidoc_file("test.asciidoc"));
    assert!(DocumentParser::is_asciidoc_file("test.asc"));
    assert!(!DocumentParser::is_asciidoc_file("test.md"));
    assert!(!DocumentParser::is_asciidoc_file("test.txt"));
}

#[test]
fn test_is_asciidoc_content() {
    let asciidoc_content = "= Title\n:attr: value\n\n== Section\n";
    let markdown_content = "# Title\n\n## Section\n";

    assert!(DocumentParser::is_asciidoc_content(asciidoc_content));
    assert!(!DocumentParser::is_asciidoc_content(markdown_content));
}

#[test]
fn markup_file_extension_ignores_case_and_directories() {
    assert!(DocumentParser::is_asciidoc_file("docs/Plan.ADOC"));
    assert!(DocumentParser::is_asciidoc_file("a.b/c.Asc"));
    assert!(!DocumentParser::is_asciidoc_file(".adoc"));
    assert!(!DocumentParser::is_asciidoc_file("docs.adoc/readme"));
    assert!(!DocumentParser::is_asciidoc_file("adoc"));
}

#[test]
fn markup_score_reads_only_first_twenty_lines() {
    let mut late = String::new();
    for _ in 0..20 {
        late.push_str("plain\n");
    }
    late.push_str("= Title\n== Heading\n");
    assert!(!DocumentParser::is_asciidoc_content(&late));
    assert!(DocumentParser::is_asciidoc_content("// note\nsee xref:story:a[]\n"));
    assert!(!DocumentParser::is_asciidoc_content("// only a comment\n"));
}

#[test]
fn level_2_sections_round_trip() {
    let short = parse("= T\n\n== A\nx\n\n== B\ny\n");
    let titles: Vec<&str> = short.level_2_sections().iter().map(|s| s.title.as_str()).collect();
    assert_eq!(titles, vec!["A", "B"]);

    let mut long = String::from("= T\n== A\n");
    for i in 0..200 {
        long.push_str(&format!("line {}\n=== Sub {}\n", i, i));
    }
    long.push_str("== B\nend\n");
    let doc = parse(&long);
    let titles: Vec<&str> = doc.level_2_sections().iter().map(|s| s.title.as_str()).collect();
    assert_eq!(titles, vec!["A", "B"]);
}

#[test]
fn parsing_twice_gives_equal_documents() {
    let content = "= T\n:id: x\n:forgepoint-type: story\n\n== A\nbody\nmore\n== B\n";
    let a = parse(content);
    let b = parse(content);
    assert_eq!(a.title, b.title);
    assert_eq!(a.attributes, b.attributes);
    assert_eq!(a.sections.len(), b.sections.len());
    for (x, y) in a.sections.iter().zip(b.sections.iter()) {
        assert_eq!(x.level, y.level);
        assert_eq!(x.title, y.title);
        assert_eq!(x.content, y.content);
        assert_eq!(x.line_number, y.line_number);
    }
}

#[test]
fn body_before_any_heading_opens_content_section() {
    let doc = parse("= T\n== Start\n");
    assert_eq!(doc.sections.len(), 1);
    let doc = parse(":id: a\n=== Deep\nfirst\n\nsecond\n");
    assert_eq!(doc.sections.len(), 1);
    assert_eq!(doc.sections[0].level, 3);
    assert_eq!(doc.sections[0].content, "first\nsecond");
    assert_eq!(doc.sections[0].line_number, Some(2));
    let doc = parse("== H\ntext\n:late: attr\n");
    assert_eq!(doc.attribute("late"), None);
    assert_eq!(doc.sections[0].content, "text\n:late: attr");
}

#[test]
fn attributes_before_and_after_title_and_repeated_keys() {
    let doc = parse(":a: 1\n= Title\n:b: two words \n:a: 3\n= Second\n");
    assert_eq!(doc.title, Some("Title".to_string()));
    assert_eq!(
        doc.attributes,
        vec![("a".to_string(), "3".to_string()), ("b".to_string(), "two words".to_string())]
    );
    // a second title line in the header is neither title nor attribute: it is a heading
    assert_eq!(doc.sections.len(), 1);
    assert_eq!(doc.sections[0].level, 1);
    assert_eq!(doc.sections[0].title, "Second");
}

#[test]
fn crlf_lines_are_split() {
    let doc = parse("= T\r\n:id: x\r\n\r\n== A\r\nbody\r\n");
    assert_eq!(doc.title, Some("T".to_string()));
    assert_eq!(doc.attribute("id"), Some(&"x".to_string()));
    assert_eq!(doc.sections[0].title, "A");
    assert_eq!(doc.sections[0].content, "body");
    assert_eq!(doc.sections[0].line_number, Some(4));
}

#[test]
fn parser_default_parses_like_new() {
    let p = DocumentParser::default();
    let doc = p.parse_content("= X\n", "x.adoc".to_string()).unwrap();
    assert_eq!(doc.title, Some("X".to_string()));
    assert_eq!(doc.file_path, "x.adoc");
}
