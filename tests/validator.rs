use forgepoint::document::ForgepointDocument;
use forgepoint::parser::DocumentParser;
use forgepoint::schema::{
    AbstractRequirement, DocumentTypeDefinition, SchemaLoader, SchemaRef, SchemaRegistry,
    SchemaSource, SectionRequirements, StructuralRequirements, TitleRequirement,
};
use forgepoint::validator::{
    create_parse_error_result, DocumentValidator, ErrorType, Severity, SourceFile,
};

fn parse(path: &str, content: &str) -> ForgepointDocument {
    DocumentParser::new().parse_content(content, path.to_string()).unwrap()
}

fn story_loader() -> SchemaLoader {
    let mut loader = SchemaLoader::new("schemas");
    let registry = SchemaRegistry {
        schema_version: "1.0".to_string(),
        schemas: vec![("story".to_string(), SchemaRef { reference: "story.json".to_string() })],
        document_types: vec![DocumentTypeDefinition {
            doc_type: "story".to_string(),
            name: "User Story".to_string(),
            description: "Test story".to_string(),
            category: "design".to_string(),
            schema: "story.json".to_string(),
        }],
    };
    let text = String::from(
        r#"{
            "$schema": "http://json-schema.org/draft-07/schema#",
            "type": "object",
            "properties": {
                "forgepoint-type": { "const": "story" },
                "id": { "type": "string" },
                "status": { "enum": ["draft", "done"] }
            },
            "required": ["forgepoint-type", "id"]
        }"#,
    );
    let requirements = StructuralRequirements {
        title: Some(TitleRequirement {
            required: Some(true),
            format: Some("As a {role}, I want {goal}".to_string()),
            description: None,
        }),
        sections: Some(SectionRequirements {
            required: Some(vec!["Acceptance Criteria".to_string(), "Notes".to_string()]),
            optional: Some(vec!["Links".to_string()]),
            description: None,
        }),
        abstract_req: Some(AbstractRequirement { required: Some(true), description: None }),
    };
    loader
        .load_schemas(
            Some(registry),
            vec![Some(SchemaSource { text, structural_requirements: requirements })],
        )
        .unwrap();
    loader
}

fn story(path: &str, id: &str, body: &str) -> ForgepointDocument {
    parse(
        path,
        &format!(
            "= Story\n:forgepoint-type: story\n:id: {}\n:schema-version: 1.0\n\n[abstract]\nShort.\n\n== Acceptance Criteria\nok\n\n== Notes\n{}\n",
            id, body
        ),
    )
}

#[test]
fn test_validate_document_structure() {
    let doc = ForgepointDocument {
        file_path: "test.adoc".to_string(),
        title: Some("Test".to_string()),
        attributes: Vec::new(),
        content: "test content".to_string(),
        sections: Vec::new(),
    };

    let mut validator = DocumentValidator::new(SchemaLoader::new("test"));
    let result = validator.validate_document(&doc);

    assert!(!result.valid);
    assert_eq!(result.errors.len(), 1);
    assert!(result.errors[0].message.contains("missing required Forgepoint attributes"));
}

#[test]
fn missing_attribute_short_circuits() {
    for missing in ["forgepoint-type", "id", "schema-version"] {
        let mut attrs = vec![
            ("forgepoint-type".to_string(), "story".to_string()),
            ("id".to_string(), "Bad_ID".to_string()),
            ("schema-version".to_string(), "1".to_string()),
        ];
        attrs.retain(|(k, _)| k != missing);
        let doc = ForgepointDocument {
            file_path: "x.adoc".to_string(),
            title: None,
            attributes: attrs,
            content: "xref:story:nowhere[]\n".to_string(),
            sections: Vec::new(),
        };
        let mut validator = DocumentValidator::new(story_loader());
        let result = validator.validate_document(&doc);
        assert!(!result.valid);
        assert_eq!(result.errors.len(), 1);
        assert_eq!(result.errors[0].rule, Some("require-structure".to_string()));
        assert!(matches!(result.errors[0].error_type, ErrorType::Structure));
        assert!(result.warnings.is_empty());
        assert!(validator.get_document_index().is_empty());
    }
}

#[test]
fn valid_story_passes_with_title_warning() {
    let mut validator = DocumentValidator::new(story_loader());
    let result = validator.validate_document(&story("a.adoc", "login-flow", "fine"));
    assert!(result.valid, "{:?}", result.errors);
    assert_eq!(result.document_type, Some("story".to_string()));
    assert_eq!(result.document_id, Some("login-flow".to_string()));
    assert_eq!(result.warnings.len(), 1);
    assert_eq!(result.warnings[0].rule, Some("title-format".to_string()));
    assert!(matches!(result.warnings[0].severity, Severity::Warning));
    assert_eq!(validator.get_document_index().len(), 1);
}

#[test]
fn unknown_type_and_bad_id() {
    let doc = parse("u.adoc", "= U\n:forgepoint-type: saga\n:id: Bad_ID\n:schema-version: 1\n");
    let mut validator = DocumentValidator::new(story_loader());
    let result = validator.validate_document(&doc);
    assert!(!result.valid);
    assert_eq!(result.errors.len(), 2);
    assert_eq!(result.errors[0].message, "Unknown document type: saga");
    assert_eq!(result.errors[0].rule, Some("valid-document-type".to_string()));
    assert_eq!(
        result.errors[1].message,
        "Invalid ID format: ID 'Bad_ID' must contain only lowercase letters, numbers, and hyphens"
    );
    assert_eq!(result.errors[1].rule, Some("id-format".to_string()));
}

#[test]
fn missing_sections_abstract_and_schema_violation() {
    let doc = parse(
        "s.adoc",
        "= S\n:forgepoint-type: story\n:id: s-1\n:schema-version: 1\n:status: wip\n\n== Notes\nx\n",
    );
    let mut validator = DocumentValidator::new(story_loader());
    let result = validator.validate_document(&doc);
    assert!(!result.valid);
    let rules: Vec<String> = result.errors.iter().map(|e| e.rule.clone().unwrap()).collect();
    assert_eq!(rules, vec!["schema-validation", "required-sections", "required-abstract"]);
    assert!(result.errors[0].message.starts_with("Validation error at /status"));
    assert_eq!(result.errors[1].message, "Missing required section: Acceptance Criteria");
    assert_eq!(
        result.errors[1].suggestion,
        Some("Add a '== Acceptance Criteria' section to your document".to_string())
    );
}

#[test]
fn external_reference_only_warns() {
    let mut validator = DocumentValidator::new(story_loader());
    let doc = story("e.adoc", "ext", "xref:github.com/org/repo#story:missing@v2[]");
    let result = validator.validate_document(&doc);
    assert!(result.valid);
    let reference_warnings: Vec<_> =
        result.warnings.iter().filter(|w| matches!(w.error_type, ErrorType::Reference)).collect();
    assert_eq!(reference_warnings.len(), 1);
    assert!(matches!(reference_warnings[0].severity, Severity::Warning));
    assert_eq!(
        reference_warnings[0].message,
        "External reference cannot be validated: story:missing"
    );
    assert_eq!(reference_warnings[0].location.as_ref().unwrap().line, Some(13));
}

#[test]
fn broken_internal_reference_is_an_error() {
    let mut validator = DocumentValidator::new(story_loader());
    let result = validator.validate_document(&story("r.adoc", "r", "see xref:story:nowhere[]"));
    assert!(!result.valid);
    assert_eq!(result.errors.len(), 1);
    assert_eq!(result.errors[0].message, "Reference to non-existent document: story:nowhere");
    assert_eq!(result.errors[0].rule, Some("reference-integrity".to_string()));
}

#[test]
fn forward_reference_resolves_in_batch() {
    let a = story("a.adoc", "cart", "see xref:story:checkout[]");
    let b = story("b.adoc", "checkout", "done");
    let mut validator = DocumentValidator::new(story_loader());
    let results =
        validator.validate_batch(&vec![SourceFile::Parsed(a.clone()), SourceFile::Parsed(b)], true);
    assert_eq!(results.len(), 2);
    assert!(results[0].valid, "{:?}", results[0].errors);
    assert!(results[0].errors.iter().all(|e| !matches!(e.error_type, ErrorType::Reference)));

    // one document at a time, the reference is checked before its target is indexed
    let mut single = DocumentValidator::new(story_loader());
    let early = single.validate_document(&a);
    assert!(!early.valid);
}

#[test]
fn duplicate_ids_reported_in_both_files() {
    let one = story("one.adoc", "login-flow", "a");
    let two = story("two.adoc", "login-flow", "b");
    let mut validator = DocumentValidator::new(story_loader());
    let results =
        validator.validate_batch(&vec![SourceFile::Parsed(one), SourceFile::Parsed(two)], true);
    for (result, other) in results.iter().zip(["two.adoc", "one.adoc"]) {
        assert!(!result.valid);
        let conflicts: Vec<_> =
            result.errors.iter().filter(|e| matches!(e.error_type, ErrorType::IdConflict)).collect();
        assert_eq!(conflicts.len(), 1);
        assert!(conflicts[0].message.contains(other));
        assert_eq!(
            conflicts[0].message,
            format!("Duplicate ID 'login-flow' found in story (conflicts with story in {})", other)
        );
    }
    let all = validator.check_id_uniqueness();
    assert_eq!(all.len(), 2);
    validator.clear_index();
    assert!(validator.check_id_uniqueness().is_empty());
}

#[test]
fn duplicate_ids_skipped_when_not_checked() {
    let mut validator = DocumentValidator::new(story_loader());
    let results = validator.validate_batch(
        &vec![
            SourceFile::Parsed(story("one.adoc", "same", "a")),
            SourceFile::Parsed(story("two.adoc", "same", "b")),
        ],
        false,
    );
    assert!(results.iter().all(|r| r.valid));
}

#[test]
fn unreadable_file_in_batch() {
    let mut validator = DocumentValidator::new(story_loader());
    let results = validator.validate_batch(
        &vec![
            SourceFile::Unreadable("gone.adoc".to_string(), "no such file".to_string()),
            SourceFile::Parsed(story("ok.adoc", "ok", "x")),
        ],
        true,
    );
    assert_eq!(results.len(), 2);
    assert!(!results[0].valid);
    assert_eq!(results[0].errors.len(), 1);
    assert_eq!(results[0].errors[0].message, "Failed to parse file: no such file");
    assert_eq!(results[0].errors[0].rule, Some("file-parsing".to_string()));
    assert!(results[1].valid);
    let direct = create_parse_error_result(&"p".to_string(), &"why".to_string());
    assert_eq!(direct.file_path, "p");
    assert!(matches!(direct.errors[0].error_type, ErrorType::Format));
}

#[test]
fn same_id_under_two_types_in_one_file_conflicts() {
    let mut validator = DocumentValidator::new(story_loader());
    let a = parse("same.adoc", "= A\n:forgepoint-type: story\n:id: shared\n:schema-version: 1\n");
    let b = parse("same.adoc", "= B\n:forgepoint-type: epic\n:id: shared\n:schema-version: 1\n");
    validator.validate_document(&a);
    validator.validate_document(&b);
    let conflicts = validator.check_id_uniqueness();
    assert_eq!(conflicts.len(), 2);
    assert_eq!(
        conflicts[0].message,
        "Duplicate ID 'shared' found in story (conflicts with epic in same.adoc)"
    );
    assert_eq!(
        conflicts[1].message,
        "Duplicate ID 'shared' found in epic (conflicts with story in same.adoc)"
    );
    // the same document validated twice is one occurrence, not a conflict
    let mut again = DocumentValidator::new(story_loader());
    again.validate_document(&a);
    again.validate_document(&a);
    assert!(again.check_id_uniqueness().is_empty());
}
