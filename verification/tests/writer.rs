use adept::writer::tmp_path_for;

#[test]
fn a_staged_write_is_a_hidden_sibling() {
    assert_eq!(tmp_path_for("skills/demo/SKILL.md"), "skills/demo/.SKILL.md.adept-tmp");
    assert_eq!(tmp_path_for("/abs/REFERENCE.md"), "/abs/.REFERENCE.md.adept-tmp");
    assert_eq!(tmp_path_for("/top.md"), "/.top.md.adept-tmp");
}

#[test]
fn a_bare_file_name_stages_in_place() {
    assert_eq!(tmp_path_for("SKILL.md"), ".SKILL.md.adept-tmp");
}

#[test]
fn a_path_without_a_file_name_stages_as_skill_md() {
    assert_eq!(tmp_path_for("/"), "./.SKILL.md.adept-tmp");
    assert_eq!(tmp_path_for("a/.."), "a/.SKILL.md.adept-tmp");
}
