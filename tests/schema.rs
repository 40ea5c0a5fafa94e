use forgepoint::error::ForgepointError;
use forgepoint::schema::{
    AbstractRequirement, DocumentTypeDefinition, SchemaLoader, SchemaRef, SchemaRegistry,
    SchemaSource, SectionRequirements, StructuralRequirements,
};
use forgepoint::template::{create_document_template, render_template};

fn definition(t: &str) -> DocumentTypeDefinition {
    DocumentTypeDefinition {
        doc_type: t.to_string(),
        name: "User Story".to_string(),
        description: "Test story".to_string(),
        category: "design".to_string(),
        schema: format!("{}.json", t),
    }
}

fn registry(types: &[&str]) -> SchemaRegistry {
    SchemaRegistry {
        schema_version: "1.0".to_string(),
        schemas: types
            .iter()
            .map(|t| (t.to_string(), SchemaRef { reference: format!("{}.json", t) }))
            .collect(),
        document_types: types.iter().map(|t| definition(t)).collect(),
    }
}

fn empty_requirements() -> StructuralRequirements {
    StructuralRequirements { title: None, sections: None, abstract_req: None }
}

fn source(text: &str) -> SchemaSource {
    SchemaSource { text: text.to_string(), structural_requirements: empty_requirements() }
}

#[test]
fn test_schema_loading() {
    let story_schema = r#"{
            "$schema": "http://json-schema.org/draft-07/schema#",
            "type": "object",
            "properties": {
                "forgepoint-type": { "const": "story" },
                "id": { "type": "string" }
            },
            "required": ["forgepoint-type", "id"]
        }"#;
    let mut loader = SchemaLoader::new("schemas");
    assert!(loader.load_schemas(Some(registry(&["story"])), vec![Some(source(story_schema))]).is_ok());
    assert!(loader.is_valid_document_type("story"));
    assert!(!loader.is_valid_document_type("invalid"));
}

#[test]
fn missing_index_is_file_not_found() {
    let mut loader = SchemaLoader::new("schemas");
    match loader.load_schemas(None, Vec::new()) {
        Err(ForgepointError::FileNotFound(m)) => {
            assert_eq!(m, "Schema index not found at schemas/index.json")
        }
        other => panic!("unexpected {:?}", other.err()),
    }
}

#[test]
fn missing_schema_file_skips_type() {
    let mut loader = SchemaLoader::new("schemas");
    let r = loader.load_schemas(
        Some(registry(&["story", "epic"])),
        vec![None, Some(source(r#"{"type": "object"}"#))],
    );
    assert!(r.is_ok());
    assert!(!loader.is_valid_document_type("story"));
    assert!(loader.is_valid_document_type("epic"));
    assert_eq!(loader.get_document_types().len(), 2);
    assert!(loader.get_required_sections("story").is_empty());
    assert!(!loader.is_abstract_required("epic"));
    assert_eq!(loader.get_title_format("epic"), None);
    assert!(loader.get_optional_sections("epic").is_empty());
}

#[test]
fn schema_text_that_is_not_json_fails_load() {
    let mut loader = SchemaLoader::new("schemas");
    match loader.load_schemas(Some(registry(&["story"])), vec![Some(source("{ not json"))]) {
        Err(ForgepointError::Schema(m)) => assert!(m.starts_with("Failed to compile schema for story: ")),
        other => panic!("unexpected {:?}", other),
    }
}

#[test]
fn schema_with_reference_is_refused() {
    let refs = [
        r##"{"$ref": "#"}"##,
        r##"{"type": "object", "properties": {"id": {"\u0024ref": "#"}}}"##,
    ];
    for text in refs {
        let mut loader = SchemaLoader::new("schemas");
        match loader.load_schemas(Some(registry(&["story"])), vec![Some(source(text))]) {
            Err(ForgepointError::Schema(m)) => assert_eq!(
                m,
                "Failed to compile schema for story: references ($ref) and \\u escapes are not supported"
            ),
            other => panic!("unexpected {:?}", other),
        }
        assert!(!loader.is_valid_document_type("story"));
    }
}

#[test]
fn schema_that_does_not_compile_names_type() {
    let mut loader = SchemaLoader::new("schemas");
    let r = loader.load_schemas(
        Some(registry(&["story"])),
        vec![Some(source(r#"{"type": "no-such-type"}"#))],
    );
    match r {
        Err(ForgepointError::Schema(m)) => {
            assert!(m.starts_with("Failed to compile schema for story: "), "{}", m)
        }
        other => panic!("unexpected {:?}", other),
    }
}

#[test]
fn attribute_validation_reports_violations() {
    let mut loader = SchemaLoader::new("schemas");
    loader
        .load_schemas(
            Some(registry(&["story"])),
            vec![Some(source(
                r#"{"type": "object", "required": ["id"], "properties": {"id": {"const": "a"}}}"#,
            ))],
        )
        .unwrap();
    let ok = loader
        .validate_attributes("story", &vec![("id".to_string(), "a".to_string())])
        .unwrap();
    assert!(ok.is_empty());
    let bad = loader.validate_attributes("story", &Vec::new()).unwrap();
    assert_eq!(bad.len(), 1);
    assert!(bad[0].starts_with("Validation error at "));
    match loader.validate_attributes("epic", &Vec::new()) {
        Err(ForgepointError::InvalidDocumentType(t)) => assert_eq!(t, "epic"),
        other => panic!("unexpected {:?}", other),
    }
    let repeated = vec![("id".to_string(), "a".to_string()), ("id".to_string(), "b".to_string())];
    assert!(loader.validate_attributes("story", &repeated).unwrap().is_empty());
    let reversed = vec![("id".to_string(), "b".to_string()), ("id".to_string(), "a".to_string())];
    assert_eq!(loader.validate_attributes("story", &reversed).unwrap().len(), 1);
    assert!(loader.get_schema("story").is_some());
    assert!(loader.get_schema("epic").is_none());
}

#[test]
fn template_for_type_with_abstract_and_sections() {
    let mut loader = SchemaLoader::new("schemas");
    let requirements = StructuralRequirements {
        title: None,
        sections: Some(SectionRequirements {
            required: Some(vec!["Goal".to_string(), "Scope".to_string()]),
            optional: None,
            description: None,
        }),
        abstract_req: Some(AbstractRequirement { required: Some(true), description: None }),
    };
    loader
        .load_schemas(
            Some(registry(&["story"])),
            vec![Some(SchemaSource {
                text: r#"{"type": "object"}"#.to_string(),
                structural_requirements: requirements,
            })],
        )
        .unwrap();
    let text = create_document_template(&loader, "story", "my-story", None, None, "2024-05-01").unwrap();
    assert_eq!(
        text,
        "= User Story\n:forgepoint-type: story\n:id: my-story\n:status: draft\n:created: 2024-05-01\n:author: Author Name\n:schema-version: 1.0\n\n[abstract]\nBrief description of this user story.\n\n== Goal\n\n// TODO: Add content for Goal\n\n== Scope\n\n// TODO: Add content for Scope\n\n"
    );
    match create_document_template(&loader, "epic", "x", None, None, "2024-05-01") {
        Err(ForgepointError::InvalidDocumentType(t)) => assert_eq!(t, "epic"),
        other => panic!("unexpected {:?}", other),
    }
    let plain = render_template(
        &"T".to_string(),
        "adr",
        "a-1",
        "2024-01-02",
        &"Ann".to_string(),
        None,
        &Vec::new(),
    );
    assert_eq!(
        plain,
        "= T\n:forgepoint-type: adr\n:id: a-1\n:status: draft\n:created: 2024-01-02\n:author: Ann\n:schema-version: 1.0\n\n"
    );
}
