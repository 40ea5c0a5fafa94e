use forgepoint::config::{get_exclude_patterns, ConfigFormat, ForgepointConfig};

#[test]
fn default_configuration() {
    let c = ForgepointConfig::default();
    assert_eq!(c.schema_path, "schema");
    assert_eq!(c.exclude_patterns.len(), 5);
    assert_eq!(c.exclude_patterns[4], "*.tmp.adoc");
    assert!(c.rules.check_id_uniqueness);
    assert_eq!(c.rules.max_title_length, Some(100));
    assert_eq!(c.rules.required_attributes, vec!["forgepoint-type", "id", "schema-version"]);
    assert_eq!(c.output.format, "text");
    assert!(!c.output.verbose);
}

#[test]
fn cli_arguments_override() {
    let c = ForgepointConfig::default().merge_cli_args(Some("other".to_string()), true);
    assert_eq!(c.schema_path, "other");
    assert!(c.output.verbose);
    let c = ForgepointConfig::default().merge_cli_args(None, false);
    assert_eq!(c.schema_path, "schema");
    assert!(!c.output.verbose);
}

#[test]
fn relative_schema_path_is_resolved() {
    let c = ForgepointConfig::default().resolve_paths(&"/work".to_string());
    assert_eq!(c.schema_path, "/work/schema");
    let c = ForgepointConfig::default().resolve_paths(&"/work/".to_string());
    assert_eq!(c.schema_path, "/work/schema");
    let c = ForgepointConfig::default()
        .merge_cli_args(Some("/abs".to_string()), false)
        .resolve_paths(&"/work".to_string());
    assert_eq!(c.schema_path, "/abs");
}

#[test]
fn config_file_candidates() {
    assert_eq!(ForgepointConfig::config_candidates(None).len(), 5);
    assert_eq!(ForgepointConfig::config_candidates(None)[0], ".forgepoint.toml");
    let given = "my.yaml".to_string();
    assert_eq!(ForgepointConfig::config_candidates(Some(&given)), vec!["my.yaml"]);
}

#[test]
fn config_format_detection() {
    assert_eq!(ForgepointConfig::detect_format("a.toml", "{"), ConfigFormat::Toml);
    assert_eq!(ForgepointConfig::detect_format("a.yml", ""), ConfigFormat::Yaml);
    assert_eq!(ForgepointConfig::detect_format("a.yaml", ""), ConfigFormat::Yaml);
    assert_eq!(ForgepointConfig::detect_format("rc.json", ""), ConfigFormat::Json);
    assert_eq!(ForgepointConfig::detect_format("rc", "  {\"a\": 1}"), ConfigFormat::Json);
    assert_eq!(ForgepointConfig::detect_format("rc", "a: 1"), ConfigFormat::Yaml);
    assert_eq!(ForgepointConfig::detect_format("rc", "a = 1"), ConfigFormat::Toml);
}

#[test]
fn exclude_patterns_from_command_line() {
    let c = ForgepointConfig::default();
    let extra = " a/** ,b,, c ".to_string();
    let all = get_exclude_patterns(&c, Some(&extra));
    assert_eq!(all.len(), 9);
    assert_eq!(&all[5..], &["a/**", "b", "", "c"]);
    assert_eq!(get_exclude_patterns(&c, None).len(), 5);
}
