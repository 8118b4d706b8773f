//! Agent-name derivation, sanitizers and template-name validation.

use pc_cli::names::{
    derive_agent_name_from_branch, is_valid_agent_name, map_legacy_component_name, NameError,
    sanitize_compose, sanitize_image_tag, validate_template_name, TemplateNameError,
};

#[test]
fn valid_agent_names() {
    assert!(is_valid_agent_name("agent-a"));
    assert!(is_valid_agent_name("feat_a.b-c"));
    assert!(!is_valid_agent_name(""));
    assert!(!is_valid_agent_name("."));
    assert!(!is_valid_agent_name(".."));
    assert!(!is_valid_agent_name("feat/a"));
    assert!(!is_valid_agent_name("bad branch"));
}

#[test]
fn derive_keeps_valid_names() {
    assert_eq!(derive_agent_name_from_branch("agent-a").unwrap(), "agent-a");
}

#[test]
fn derive_maps_slash_to_underscore() {
    assert_eq!(derive_agent_name_from_branch("feat/a").unwrap(), "feat_a");
}

#[test]
fn derive_collapses_runs_and_trims() {
    assert_eq!(derive_agent_name_from_branch("feat//x").unwrap(), "feat_x");
    assert_eq!(derive_agent_name_from_branch("/feat/x/").unwrap(), "feat_x");
}

#[test]
fn derive_rejects_overlong_names() {
    let long: String = std::iter::repeat('a').take(65).collect();
    assert_eq!(derive_agent_name_from_branch(&long).unwrap_err(), NameError::TooLong);
    let sixty_four: String = std::iter::repeat('a').take(64).collect();
    assert_eq!(derive_agent_name_from_branch(&sixty_four).unwrap(), sixty_four);
}

#[test]
fn derive_rejects_overlong_sanitized_names() {
    let mut long = String::new();
    for _ in 0..33 {
        long.push('/');
        long.push('a');
    }
    // sanitizes to "_a" repeated 33 times: 66 characters before trimming
    assert_eq!(derive_agent_name_from_branch(&long).unwrap_err(), NameError::TooLong);
}

#[test]
fn derive_rejects_unusable_names() {
    assert_eq!(derive_agent_name_from_branch("///").unwrap_err(), NameError::Underivable);
}

#[test]
fn sanitize_compose_lowers_and_masks() {
    assert_eq!(sanitize_compose("My-Repo"), "my_repo");
    assert_eq!(sanitize_compose("__x__"), "x");
    assert_eq!(sanitize_compose("---"), "workspace");
    assert_eq!(sanitize_compose(""), "workspace");
}

#[test]
fn sanitize_image_tag_keeps_tag_charset() {
    assert_eq!(sanitize_image_tag("Python-UV"), "python-uv");
    assert_eq!(sanitize_image_tag("a b.c"), "a_b.c");
    assert_eq!(sanitize_image_tag("!!"), "default");
}

#[test]
fn legacy_names_map_to_hierarchical_ids() {
    assert_eq!(map_legacy_component_name("python"), "lang/python");
    assert_eq!(map_legacy_component_name("uv"), "tool/python/uv");
    assert_eq!(map_legacy_component_name("go"), "lang/go");
    assert_eq!(map_legacy_component_name("node"), "lang/node");
    assert_eq!(map_legacy_component_name("pnpm"), "tool/node/pnpm");
    assert_eq!(map_legacy_component_name("desktop"), "extra/desktop");
    assert_eq!(map_legacy_component_name("lang/python"), "lang/python");
}

#[test]
fn template_names_are_validated() {
    assert!(validate_template_name("mytpl").is_ok());
    assert_eq!(validate_template_name("").unwrap_err(), TemplateNameError::Empty);
    assert_eq!(validate_template_name(".components").unwrap_err(), TemplateNameError::Reserved);
    assert_eq!(validate_template_name(".profiles").unwrap_err(), TemplateNameError::Reserved);
    assert_eq!(validate_template_name("runtime").unwrap_err(), TemplateNameError::Reserved);
    assert_eq!(validate_template_name("a/b").unwrap_err(), TemplateNameError::PathSeparator);
    assert_eq!(validate_template_name("a\\b").unwrap_err(), TemplateNameError::PathSeparator);
}
