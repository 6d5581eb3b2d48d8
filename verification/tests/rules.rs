use adept::diagnostic::{AdeptError, CompanionFile, Diagnostic, Severity, Skill, SkillSet};
use adept::rules::sort::sort_diagnostics;
use adept::rules::{parse_error_diagnostic, LintConfig, Linter, Registry};
use adept::ratio::Ratio;
use adept::skill::parse_skill;

const CLEAN_DESCRIPTION: &str = "Extracts text and tables from PDF files into Markdown. Use when the user asks to pull content out of a PDF. Do not use for scanned images.";

fn source(name: &str, description: &str, body: &str) -> String {
    format!("---\nname: {name}\ndescription: {description}\n---\n{body}")
}

fn skill(path: &str, src: &str) -> Skill {
    parse_skill(path, src).expect("fixture should parse")
}

fn linter() -> Linter {
    Linter::new(LintConfig::default()).expect("default tokenizer should load")
}

fn codes(diagnostics: &[Diagnostic]) -> Vec<String> {
    diagnostics.iter().map(|d| d.code.clone()).collect()
}

fn lint_source(path: &str, src: &str) -> Vec<Diagnostic> {
    linter().lint_skill(&skill(path, src))
}

fn assert_fires(path: &str, src: &str, code: &str) {
    let found = codes(&lint_source(path, src));
    assert!(found.iter().any(|c| c == code), "expected {code} to fire, got {found:?}");
}

fn assert_set_fires(skills: Vec<Skill>, code: &str) {
    let set = SkillSet { skills, errors: Vec::new() };
    let found = codes(&linter().lint_set(&set));
    assert!(found.iter().any(|c| c == code), "expected {code} to fire, got {found:?}");
}

fn clean_source() -> String {
    source(
        "pdf-extractor",
        CLEAN_DESCRIPTION,
        "\n# PDF Extractor\n\nRun the extraction on the input file and review the output.\n",
    )
}

#[test]
fn clean_skill_has_zero_diagnostics() {
    let found = lint_source("skills/pdf-extractor/SKILL.md", &clean_source());
    assert!(found.is_empty(), "expected no diagnostics, got {:?}", codes(&found));
}

#[test]
fn clean_set_has_zero_diagnostics() {
    let a = skill("skills/pdf-extractor/SKILL.md", &clean_source());
    let b = skill(
        "skills/csv-cleaner/SKILL.md",
        &source(
            "csv-cleaner",
            "Normalizes messy spreadsheet exports by trimming cells and fixing dates. Use when the user wants tidy tabular data. Not for binary workbooks.",
            "\n# CSV Cleaner\n\nLoad the file, clean each column, and save it.\n",
        ),
    );
    let set = SkillSet { skills: vec![a, b], errors: Vec::new() };
    let found = linter().lint_set(&set);
    assert!(found.is_empty(), "expected no diagnostics, got {:?}", codes(&found));
}

#[test]
fn sl001_missing_description_fires() {
    assert_fires(
        "skills/pdf-extractor/SKILL.md",
        &source("pdf-extractor", "\"\"", "\n# PDF Extractor\n\nBody.\n"),
        "SL001",
    );
}

#[test]
fn sl002_missing_name_fires() {
    assert_fires(
        "skills/pdf-extractor/SKILL.md",
        &source("\"\"", CLEAN_DESCRIPTION, "\n# PDF Extractor\n\nBody.\n"),
        "SL002",
    );
}

#[test]
fn sl003_malformed_frontmatter_fires() {
    let path = "skills/broken/SKILL.md";
    let err = parse_skill(path, "# No frontmatter here\n").expect_err("must not parse");
    assert!(matches!(err, AdeptError::MissingFrontmatter { .. }));
    let set = SkillSet { skills: Vec::new(), errors: vec![(path.to_string(), err)] };
    let found = codes(&linter().lint_set(&set));
    assert!(found.iter().any(|c| c == "SL003"), "got {found:?}");
}

#[test]
fn sl004_name_mismatch_fires() {
    assert_fires("skills/other-dir/SKILL.md", &clean_source(), "SL004");
}

#[test]
fn sl005_invalid_name_format_fires() {
    assert_fires(
        "skills/PDF_Extractor/SKILL.md",
        &source("PDF_Extractor", CLEAN_DESCRIPTION, "\n# PDF Extractor\n\nBody.\n"),
        "SL005",
    );
}

#[test]
fn sl101_empty_body_fires() {
    assert_fires(
        "skills/pdf-extractor/SKILL.md",
        &source("pdf-extractor", CLEAN_DESCRIPTION, "\n   \n"),
        "SL101",
    );
}

#[test]
fn sl102_missing_h1_fires() {
    assert_fires(
        "skills/pdf-extractor/SKILL.md",
        &source("pdf-extractor", CLEAN_DESCRIPTION, "\n## Usage\n\nRun it.\n"),
        "SL102",
    );
}

#[test]
fn sl103_heading_skip_fires() {
    assert_fires(
        "skills/pdf-extractor/SKILL.md",
        &source("pdf-extractor", CLEAN_DESCRIPTION, "\n# PDF Extractor\n\n### Details\n\nText.\n"),
        "SL103",
    );
}

#[test]
fn sl104_broken_file_reference_fires() {
    assert_fires(
        "skills/pdf-extractor/SKILL.md",
        &source(
            "pdf-extractor",
            CLEAN_DESCRIPTION,
            "\n# PDF Extractor\n\nSee [the reference](reference.md) for the options.\n",
        ),
        "SL104",
    );
}

#[test]
fn sl104_is_silent_for_a_reference_that_exists() {
    let mut s = skill(
        "skills/pdf-extractor/SKILL.md",
        &source(
            "pdf-extractor",
            CLEAN_DESCRIPTION,
            "\n# PDF Extractor\n\nSee [the reference](reference.md) for the options.\n",
        ),
    );
    s.existing_references = vec!["reference.md".to_string()];
    let found = codes(&linter().lint_skill(&s));
    assert!(!found.iter().any(|c| c == "SL104"), "got {found:?}");
}

#[test]
fn sl201_description_too_short_fires() {
    assert_fires(
        "skills/pdf-extractor/SKILL.md",
        &source("pdf-extractor", "Fills forms.", "\n# PDF Extractor\n\nBody.\n"),
        "SL201",
    );
}

#[test]
fn sl203_missing_trigger_phrase_fires() {
    assert_fires(
        "skills/pdf-extractor/SKILL.md",
        &source(
            "pdf-extractor",
            "Extracts text and tables from PDF files into clean Markdown documents. Do not use for scanned images.",
            "\n# PDF Extractor\n\nBody.\n",
        ),
        "SL203",
    );
}

#[test]
fn sl204_first_person_fires() {
    assert_fires(
        "skills/pdf-extractor/SKILL.md",
        &source(
            "pdf-extractor",
            "I can extract text and tables from PDF files. Use when the user asks about a PDF. Do not use for images.",
            "\n# PDF Extractor\n\nBody.\n",
        ),
        "SL204",
    );
}

#[test]
fn sl205_restates_name_fires() {
    assert_fires(
        "skills/pdf-extractor/SKILL.md",
        &source("pdf-extractor", "PDF extractor.", "\n# PDF Extractor\n\nBody.\n"),
        "SL205",
    );
}

#[test]
fn sl206_no_negative_guidance_fires() {
    assert_fires(
        "skills/pdf-extractor/SKILL.md",
        &source(
            "pdf-extractor",
            "Extracts text and tables from PDF files into Markdown. Use when the user asks to pull content out of a PDF.",
            "\n# PDF Extractor\n\nBody.\n",
        ),
        "SL206",
    );
}

#[test]
fn sl301_description_token_budget_fires() {
    let long = format!(
        "{} Use when the user asks about PDFs. Do not use for images.",
        "Extracts text, tables, figures, captions and footnotes from long PDF reports. ".repeat(8)
    );
    assert_fires(
        "skills/pdf-extractor/SKILL.md",
        &source("pdf-extractor", long.trim(), "\n# PDF Extractor\n\nBody.\n"),
        "SL301",
    );
}

#[test]
fn sl302_body_token_budget_fires() {
    let body = format!("\n# PDF Extractor\n\n{}\n", "Review every extracted table carefully. ".repeat(400));
    assert_fires(
        "skills/pdf-extractor/SKILL.md",
        &source("pdf-extractor", CLEAN_DESCRIPTION, &body),
        "SL302",
    );
}

#[test]
fn sl303_companion_file_bloat_fires() {
    let mut s = skill("skills/pdf-extractor/SKILL.md", &clean_source());
    s.companions = vec![CompanionFile {
        name: "REFERENCE.md".to_string(),
        contents: Some("Each option of the extractor is described here in detail. ".repeat(300)),
    }];
    let found = codes(&linter().lint_skill(&s));
    assert!(found.iter().any(|c| c == "SL303"), "got {found:?}");
}

#[test]
fn sl303_exempts_license_files() {
    let mut s = skill("skills/pdf-extractor/SKILL.md", &clean_source());
    s.companions = vec![CompanionFile {
        name: "LICENSE.txt".to_string(),
        contents: Some("Permission is hereby granted to use this software. ".repeat(400)),
    }];
    let found = codes(&linter().lint_skill(&s));
    assert!(!found.iter().any(|c| c == "SL303"), "got {found:?}");
}

#[test]
fn sl401_duplicate_skill_name_fires() {
    let a = skill("skills/one/pdf-extractor/SKILL.md", &clean_source());
    let b = skill("skills/two/pdf-extractor/SKILL.md", &clean_source());
    assert_set_fires(vec![a, b], "SL401");
}

#[test]
fn sl402_similar_description_fires() {
    let a = skill("skills/pdf-extractor/SKILL.md", &clean_source());
    let b = skill(
        "skills/pdf-reader/SKILL.md",
        &source(
            "pdf-reader",
            "Extracts text and tables from PDF files into Markdown. Use when the user asks to pull content out of a PDF. Do not use for scanned photos.",
            "\n# PDF Reader\n\nBody.\n",
        ),
    );
    assert_set_fires(vec![a, b], "SL402");
}

#[test]
fn sl403_overlapping_trigger_phrasing_fires() {
    let a = skill("skills/pdf-extractor/SKILL.md", &clean_source());
    let b = skill(
        "skills/pdf-reader/SKILL.md",
        &source(
            "pdf-reader",
            "Extracts text and tables from PDF files into Markdown. Use when the user asks to pull content out of a PDF. Do not use for scanned photos.",
            "\n# PDF Reader\n\nBody.\n",
        ),
    );
    assert_set_fires(vec![a, b], "SL403");
}

#[test]
fn every_registered_rule_has_a_positive_fixture_test() {
    let registry = Registry::new();
    let all = registry.all_meta();
    assert!(!all.is_empty());
    for meta in &all {
        assert!(meta.code.starts_with("SL") && meta.code.len() == 5, "{}", meta.code);
        assert!(!meta.name.is_empty());
    }
    let listed: Vec<&str> = all.iter().map(|m| m.code).collect();
    let mut sorted = listed.clone();
    sorted.sort();
    sorted.dedup();
    assert_eq!(listed, sorted);
}

#[test]
fn registry_finds_rules_by_code_and_by_name() {
    let registry = Registry::new();
    let by_code = registry.by_code("SL104").expect("SL104 is registered");
    assert_eq!(by_code.name, "broken-file-reference");
    let by_name = registry.by_name("missing-description").expect("registered");
    assert_eq!(by_name.code, "SL001");
    assert!(registry.by_code("SL999").is_none());
}

#[test]
fn disabling_a_rule_by_code_silences_it() {
    let mut config = LintConfig::default();
    config.disabled = vec!["SL004".to_string()];
    let linter = Linter::new(config).expect("tokenizer");
    let found = codes(&linter.lint_skill(&skill("skills/other-dir/SKILL.md", &clean_source())));
    assert!(!found.iter().any(|c| c == "SL004"), "got {found:?}");
}

#[test]
fn a_severity_override_changes_the_reported_severity() {
    let mut config = LintConfig::default();
    config.severity_overrides = vec![("name-mismatch".to_string(), Severity::Error)];
    let linter = Linter::new(config).expect("tokenizer");
    let found = linter.lint_skill(&skill("skills/other-dir/SKILL.md", &clean_source()));
    let d = found.iter().find(|d| d.code == "SL004").expect("SL004 fires");
    assert_eq!(d.severity, Severity::Error);
}

#[test]
fn lint_results_are_sorted_by_line() {
    let found = lint_source(
        "skills/pdf-extractor/SKILL.md",
        &source("PDF_Extractor", "Fills forms.", "\n## Usage\n\nSee [x](missing.md).\n"),
    );
    let lines: Vec<usize> = found.iter().map(|d| d.line).collect();
    let mut sorted = lines.clone();
    sorted.sort();
    assert_eq!(lines, sorted);
}

#[test]
fn name_mismatch_message_names_both_sides() {
    let found = lint_source("skills/other-dir/SKILL.md", &clean_source());
    let d = found.iter().find(|d| d.code == "SL004").expect("SL004 fires");
    assert_eq!(
        d.message,
        "frontmatter `name` (\"pdf-extractor\") does not match the containing directory name (\"other-dir\")"
    );
    assert_eq!(d.line, 2);
    assert_eq!(d.severity, Severity::Warning);
}

#[test]
fn parse_errors_become_sl003_diagnostics_at_line_one() {
    let err = AdeptError::UnterminatedFrontmatter { path: "a/SKILL.md".to_string() };
    let d = parse_error_diagnostic("a/SKILL.md", &err).expect("a parse error");
    assert_eq!(d.code, "SL003");
    assert_eq!(d.line, 1);
    assert_eq!(d.path, "a/SKILL.md");
}

#[test]
fn sl105_setext_heading_fires_with_an_atx_suggestion() {
    let found = lint_source(
        "skills/pdf-extractor/SKILL.md",
        &source("pdf-extractor", CLEAN_DESCRIPTION, "\nPDF Extractor\n=============\n\nUsage\n-----\n\nRun it.\n"),
    );
    let setext: Vec<&Diagnostic> = found.iter().filter(|d| d.code == "SL105").collect();
    assert_eq!(setext.len(), 2, "got {:?}", codes(&found));
    assert_eq!(setext[0].severity, Severity::Info);
    assert_eq!(setext[0].line, 6);
    assert_eq!(setext[0].fix_suggestion.as_deref(), Some("write it as `# PDF Extractor`"));
    assert_eq!(setext[1].fix_suggestion.as_deref(), Some("write it as `## Usage`"));
    assert!(!found.iter().any(|d| d.code == "SL102"), "a setext h1 counts as an h1");
}

#[test]
fn sl105_is_silent_for_atx_headings() {
    let found = codes(&lint_source("skills/pdf-extractor/SKILL.md", &clean_source()));
    assert!(!found.iter().any(|c| c == "SL105"), "got {found:?}");
}

#[test]
fn diagnostics_sort_by_path_components_then_line_column_and_code() {
    let d = |path: &str, line: usize, column: usize, code: &str| {
        Diagnostic::new(code, String::new(), Severity::Info, path, line, column)
    };
    let sorted = sort_diagnostics(vec![
        d("b/SKILL.md", 1, 1, "SL001"),
        d("a/z/SKILL.md", 9, 1, "SL001"),
        d("a/SKILL.md", 2, 1, "SL102"),
        d("a/SKILL.md", 2, 1, "SL101"),
        d("a/SKILL.md", 1, 5, "SL206"),
        d("a-b/SKILL.md", 1, 1, "SL001"),
    ]);
    let keys: Vec<(String, usize, usize, String)> =
        sorted.into_iter().map(|x| (x.path, x.line, x.column, x.code)).collect();
    assert_eq!(
        keys,
        vec![
            ("a/SKILL.md".to_string(), 1, 5, "SL206".to_string()),
            ("a/SKILL.md".to_string(), 2, 1, "SL101".to_string()),
            ("a/SKILL.md".to_string(), 2, 1, "SL102".to_string()),
            ("a/z/SKILL.md".to_string(), 9, 1, "SL001".to_string()),
            ("a-b/SKILL.md".to_string(), 1, 1, "SL001".to_string()),
            ("b/SKILL.md".to_string(), 1, 1, "SL001".to_string()),
        ]
    );
}

#[test]
fn parse_failures_obey_disabled_and_overrides_by_code_or_name() {
    let path = "skills/broken/SKILL.md";
    let missing = parse_skill(path, "---\nname: broken\n---\nBody\n").expect_err("no description");
    let unterminated = parse_skill(path, "---\nname: broken\n").expect_err("never closed");
    let set = SkillSet {
        skills: Vec::new(),
        errors: vec![(path.to_string(), missing), (path.to_string(), unterminated)],
    };

    let found = linter().lint_set(&set);
    assert_eq!(codes(&found), vec!["SL001", "SL003"]);

    let mut config = LintConfig::default();
    config.disabled = vec!["missing-description".to_string()];
    config.severity_overrides = vec![("malformed-frontmatter".to_string(), Severity::Warning)];
    let found = Linter::new(config).expect("tokenizer").lint_set(&set);
    assert_eq!(codes(&found), vec!["SL003"]);
    assert_eq!(found[0].severity, Severity::Warning);
}

#[test]
fn the_similarity_threshold_is_compared_exactly() {
    let a = skill("skills/alpha/SKILL.md", &source("alpha", "Alpha beta gamma delta.", "\n# Alpha\n\nBody.\n"));
    let b = skill("skills/beta/SKILL.md", &source("beta", "Alpha beta gamma epsilon.", "\n# Beta\n\nBody.\n"));
    let set = SkillSet { skills: vec![a, b], errors: Vec::new() };
    let fires = |threshold: Ratio| {
        let mut config = LintConfig::default();
        config.similar_description_threshold = threshold;
        let found = Linter::new(config).expect("tokenizer").lint_set(&set);
        found.iter().filter(|d| d.code == "SL402").count()
    };
    assert_eq!(fires(Ratio { num: 3, den: 5 }), 2);
    assert_eq!(fires(Ratio { num: 5_999_999, den: 10_000_000 }), 2);
    assert_eq!(fires(Ratio { num: 600_001, den: 1_000_000 }), 0);
    assert_eq!(fires(Ratio { num: 0, den: 0 }), 2);
    assert_eq!(fires(Ratio { num: 2, den: 1 }), 0);
}
