use adept::diagnostic::{Diagnostic, Severity};
use adept::reporting::{render_findings, render_human, render_statistics, render_tally};

fn finding(code: &str, message: &str, severity: Severity, line: usize, fix: &str) -> Diagnostic {
    Diagnostic::new(code, message.to_string(), severity, "skills/defective-skill/SKILL.md", line, 1)
        .with_fix_suggestion(fix.to_string())
}

fn sample() -> Vec<Diagnostic> {
    vec![
        finding("SL201", "description is only 1 tokens, below the minimum of 6", Severity::Warning, 3,
            "expand the description to state both what the skill does and when to use it"),
        finding("SL203", "description does not state when the skill should be used", Severity::Warning, 3,
            "add trigger phrasing, e.g. \"Use when the user asks to...\""),
        finding("SL206", "description gives no guidance on when not to use the skill", Severity::Info, 3,
            "consider adding \"Do not use for...\" guidance to reduce over-triggering"),
        finding("SL102", "SKILL.md body has no top-level `#` heading", Severity::Warning, 5,
            "add a single `# Title` heading near the top of the body"),
    ]
}

#[test]
fn human_output_lists_findings_with_fixes_and_a_tally() {
    let expected = "\
skills/defective-skill/SKILL.md:3:1: SL201 description is only 1 tokens, below the minimum of 6
  fix: expand the description to state both what the skill does and when to use it
skills/defective-skill/SKILL.md:3:1: SL203 description does not state when the skill should be used
  fix: add trigger phrasing, e.g. \"Use when the user asks to...\"
skills/defective-skill/SKILL.md:3:1: SL206 description gives no guidance on when not to use the skill
  fix: consider adding \"Do not use for...\" guidance to reduce over-triggering
skills/defective-skill/SKILL.md:5:1: SL102 SKILL.md body has no top-level `#` heading
  fix: add a single `# Title` heading near the top of the body

Found 4 problems (0 errors, 3 warnings, 1 info)
";
    assert_eq!(render_human(&sample()), expected);
}

#[test]
fn no_findings_render_as_nothing() {
    assert_eq!(render_human(&Vec::new()), "");
}

#[test]
fn a_single_finding_is_one_problem() {
    let d = Diagnostic::new("SL101", "empty".to_string(), Severity::Error, "a/SKILL.md", 5, 1);
    assert_eq!(render_human(&vec![d]), "a/SKILL.md:5:1: SL101 empty\n\nFound 1 problem (1 error, 0 warnings, 0 info)\n");
}

#[test]
fn statistics_count_findings_per_rule_in_code_order() {
    assert_eq!(
        render_statistics(&sample()),
        "1\tSL102\tmissing-h1\n1\tSL201\tdescription-too-short\n1\tSL203\tmissing-trigger-phrase\n1\tSL206\tno-negative-guidance\n"
    );
    assert_eq!(render_statistics(&Vec::new()), "");
}

#[test]
fn findings_and_tally_render_separately() {
    let ds = sample();
    let whole = render_human(&ds);
    assert_eq!(format!("{}\n{}", render_findings(&ds), render_tally(&ds)), whole);
    assert_eq!(render_tally(&ds), "Found 4 problems (0 errors, 3 warnings, 1 info)\n");
    assert_eq!(render_findings(&Vec::new()), "");
}
