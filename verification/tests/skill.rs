use adept::diagnostic::AdeptError;
use adept::skill::{parse_skill, AnthropicSkillParser};

#[test]
fn frontmatter_fields_and_their_lines_are_read() {
    let src = "---\nname: demo\ndescription: Does demo things.\nlicense: MIT\nauthor: me\n---\n# Demo\n\nBody.\n";
    let skill = parse_skill("skills/demo/SKILL.md", src).unwrap();
    assert_eq!(skill.frontmatter.name, "demo");
    assert_eq!(skill.frontmatter.name_line, 2);
    assert_eq!(skill.frontmatter.description, "Does demo things.");
    assert_eq!(skill.frontmatter.description_line, 3);
    assert_eq!(skill.frontmatter.license.as_deref(), Some("MIT"));
    assert_eq!(skill.frontmatter.license_line, Some(4));
    assert_eq!(skill.frontmatter.extra.len(), 1);
    assert_eq!(skill.frontmatter.extra[0].key, "author");
    assert_eq!(skill.frontmatter.extra[0].value.as_deref(), Some("me"));
    assert_eq!(skill.frontmatter.extra[0].line, 5);
    assert_eq!(skill.body, "# Demo\n\nBody.\n");
    assert_eq!(skill.body_line_offset, 7);
    assert_eq!(skill.path, "skills/demo/SKILL.md");
    assert_eq!(skill.source, src);
}

#[test]
fn a_file_without_an_opening_delimiter_has_no_frontmatter() {
    let err = parse_skill("x/SKILL.md", "# Title\n").unwrap_err();
    assert!(matches!(err, AdeptError::MissingFrontmatter { path } if path == "x/SKILL.md"));
}

#[test]
fn an_unclosed_frontmatter_block_is_an_error() {
    let err = parse_skill("x/SKILL.md", "---\nname: x\n").unwrap_err();
    assert!(matches!(err, AdeptError::UnterminatedFrontmatter { .. }));
}

#[test]
fn invalid_yaml_is_reported_as_such() {
    let err = parse_skill("x/SKILL.md", "---\nname: [unclosed\n---\n").unwrap_err();
    assert!(matches!(err, AdeptError::InvalidYaml { .. }));
}

#[test]
fn frontmatter_that_is_not_a_mapping_is_an_error() {
    let err = parse_skill("x/SKILL.md", "---\n- a\n- b\n---\n").unwrap_err();
    assert!(matches!(err, AdeptError::FrontmatterNotMapping { .. }));
}

#[test]
fn a_missing_required_field_is_named() {
    let err = parse_skill("x/SKILL.md", "---\nname: x\n---\nBody\n").unwrap_err();
    assert!(matches!(err, AdeptError::MissingField { field, .. } if field == "description"));
    let err = parse_skill("x/SKILL.md", "---\ndescription: d\n---\nBody\n").unwrap_err();
    assert!(matches!(err, AdeptError::MissingField { field, .. } if field == "name"));
}

#[test]
fn a_well_known_field_must_be_a_string() {
    let err = parse_skill("x/SKILL.md", "---\nname: x\ndescription: [a, b]\n---\n").unwrap_err();
    assert!(matches!(err, AdeptError::InvalidFieldType { field, .. } if field == "description"));
}

#[test]
fn the_parser_type_parses_the_same_way() {
    let src = "---\nname: demo\ndescription: d\n---\n";
    let a = AnthropicSkillParser.parse_str("demo/SKILL.md", src).unwrap();
    let b = parse_skill("demo/SKILL.md", src).unwrap();
    assert_eq!(a.frontmatter.name, b.frontmatter.name);
    assert_eq!(a.body, "");
}

#[test]
fn extra_fields_are_kept_in_key_order() {
    let src = "---\nzeta: last\nname: demo\nalpha: [1, 2]\ndescription: d\nmid: m\n---\n";
    let skill = parse_skill("demo/SKILL.md", src).unwrap();
    let extra: Vec<(&str, Option<&str>, usize)> = skill
        .frontmatter
        .extra
        .iter()
        .map(|e| (e.key.as_str(), e.value.as_deref(), e.line))
        .collect();
    assert_eq!(extra, vec![("alpha", None, 4), ("mid", Some("m"), 6), ("zeta", Some("last"), 2)]);
}
