use forgepoint::document::{ForgepointDocument, Section};
use forgepoint::error::ForgepointError;
use forgepoint::parser::DocumentParser;

fn doc_with(content: &str, attrs: &[(&str, &str)]) -> ForgepointDocument {
    ForgepointDocument {
        file_path: "d.adoc".to_string(),
        title: None,
        attributes: attrs.iter().map(|(k, v)| (k.to_string(), v.to_string())).collect(),
        content: content.to_string(),
        sections: Vec::new(),
    }
}

fn id_error(id: &str) -> Option<String> {
    match doc_with("", &[("id", id)]).validate_id_format() {
        Ok(()) => None,
        Err(ForgepointError::InvalidIdFormat(m)) => Some(m),
        Err(other) => panic!("unexpected error {:?}", other),
    }
}

#[test]
fn id_format_rules() {
    assert_eq!(id_error("my-id"), None);
    assert_eq!(id_error("-bad"), Some("ID cannot start with a hyphen".to_string()));
    assert_eq!(id_error("bad-"), Some("ID cannot end with a hyphen".to_string()));
    assert_eq!(id_error("ba--d"), Some("ID cannot contain consecutive hyphens".to_string()));
    assert_eq!(
        id_error("Bad_ID"),
        Some("ID 'Bad_ID' must contain only lowercase letters, numbers, and hyphens".to_string())
    );
    assert_eq!(
        id_error(""),
        Some("ID '' must contain only lowercase letters, numbers, and hyphens".to_string())
    );
    match doc_with("", &[]).validate_id_format() {
        Err(ForgepointError::InvalidIdFormat(m)) => assert_eq!(m, "Missing document ID"),
        other => panic!("unexpected {:?}", other),
    }
}

#[test]
fn error_message_has_label() {
    let e = ForgepointError::InvalidIdFormat("x".to_string());
    assert_eq!(e.message(), "Invalid ID format: x");
    assert_eq!(ForgepointError::FileNotFound("f".to_string()).message(), "File not found: f");
}

#[test]
fn required_structure_needs_all_three() {
    let full = doc_with("", &[("forgepoint-type", "story"), ("id", "a"), ("schema-version", "1")]);
    assert!(full.has_forgepoint_structure());
    assert_eq!(full.document_type(), Some(&"story".to_string()));
    assert_eq!(full.document_id(), Some(&"a".to_string()));
    assert_eq!(full.schema_version(), Some(&"1".to_string()));
    let partial = doc_with("", &[("forgepoint-type", "story"), ("id", "a")]);
    assert!(!partial.has_forgepoint_structure());
    assert_eq!(partial.schema_version(), None);
}

#[test]
fn abstract_block_two_lines() {
    let d = doc_with("= T\n[abstract]\nFirst line.\nSecond line.\n\nAfter.\n", &[]);
    assert_eq!(d.abstract_content(), Some("First line.\nSecond line.".to_string()));
    let none = doc_with("= T\nNo marker here.\n", &[]);
    assert_eq!(none.abstract_content(), None);
}

#[test]
fn abstract_block_ends_at_heading_or_marker() {
    let d = doc_with("  [abstract]  \n\n  Indented.\n== Next\nnot taken\n", &[]);
    assert_eq!(d.abstract_content(), Some("Indented.".to_string()));
    let d = doc_with("[abstract]\n[NOTE]\ntext\n", &[]);
    assert_eq!(d.abstract_content(), None);
}

#[test]
fn sections_by_title_and_level() {
    let doc = DocumentParser::new()
        .parse_content("= T\n== A\n=== A\n== B\n", "x".to_string())
        .unwrap();
    assert_eq!(doc.sections_with_title("A").len(), 2);
    assert_eq!(doc.sections_with_title("C").len(), 0);
    let l2: Vec<&Section> = doc.level_2_sections();
    assert_eq!(l2.len(), 2);
    assert_eq!(l2[1].title, "B");
}

#[test]
fn checklist_items() {
    let d = doc_with("* [ ] open task\n  * [x]  done \n* [y] no\n*[ ] no\n- [ ] no\n", &[]);
    let items = d.extract_checklist_items();
    assert_eq!(items.len(), 2);
    assert_eq!(items[0].text, "open task");
    assert!(!items[0].checked);
    assert_eq!(items[0].line_number, 1);
    assert_eq!(items[1].text, "done");
    assert!(items[1].checked);
    assert_eq!(items[1].line_number, 2);
}

#[test]
fn cross_references_internal_and_external() {
    let d = doc_with(
        "intro\nsee xref:story:checkout[] and xref:epic:pay-2\nxref:github.com/org/repo#story:login@v1.2[x]\n",
        &[],
    );
    let refs = d.extract_cross_references();
    assert_eq!(refs.len(), 3);
    assert_eq!(refs[0].ref_type, "story");
    assert_eq!(refs[0].id, "checkout");
    assert_eq!(refs[0].line_number, Some(2));
    assert!(!refs[0].external);
    assert_eq!(refs[1].ref_type, "epic");
    assert_eq!(refs[1].id, "pay-2");
    assert!(refs[2].external);
    assert_eq!(refs[2].repository, Some("github.com/org/repo".to_string()));
    assert_eq!(refs[2].ref_type, "story");
    assert_eq!(refs[2].id, "login");
    assert_eq!(refs[2].version, Some("v1.2".to_string()));
    assert_eq!(refs[2].line_number, Some(3));
}

#[test]
fn external_reference_without_version() {
    let d = doc_with("xref:repo#adr:use-rust[]\n", &[]);
    let refs = d.extract_cross_references();
    assert_eq!(refs.len(), 1);
    assert!(refs[0].external);
    assert_eq!(refs[0].version, None);
    assert_eq!(refs[0].repository, Some("repo".to_string()));
}
