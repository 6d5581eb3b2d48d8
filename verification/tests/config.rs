use adept::cli::{apply_select_ignore, check_exit_code, resolve_model, fix_exit_code, fix_summary, resolve_max_rounds, resolve_tokenizer, EXIT_CHANGES_PENDING, EXIT_OK};
use adept::config::{config_search_path, discover_config_file, AdeptConfig, CONFIG_FILE_NAME};
use adept::rules::LintConfig;
use adept::create::{CreateOptions, DEFAULT_EVAL_CASES, DEFAULT_MAX_ROUNDS};
use adept::token::Tokenizer;

#[test]
fn the_search_walks_up_to_the_root() {
    assert_eq!(
        config_search_path("/work/skills/demo"),
        vec![
            "/work/skills/demo/adept.toml",
            "/work/skills/adept.toml",
            "/work/adept.toml",
            "/adept.toml",
        ]
    );
    assert_eq!(config_search_path("a/b"), vec!["a/b/adept.toml", "a/adept.toml", "adept.toml"]);
    assert_eq!(CONFIG_FILE_NAME, "adept.toml");
}

#[test]
fn discovers_the_nearest_config_walking_up_from_a_nested_directory() {
    let existing = vec!["/work/adept.toml".to_string(), "/adept.toml".to_string()];
    assert_eq!(
        discover_config_file("/work/skills/demo", &existing),
        Some("/work/adept.toml".to_string())
    );
}

#[test]
fn missing_config_file_falls_back_to_defaults() {
    assert_eq!(discover_config_file("/work/skills/demo", &Vec::new()), None);
    let config = AdeptConfig::default();
    assert_eq!(config.lint.body_max_tokens, 1500);
    assert!(config.score.model.is_none());
    assert!(config.fix.max_rounds.is_none());
}

#[test]
fn max_rounds_precedence_flag_over_config_over_default() {
    assert_eq!(resolve_max_rounds(Some(7), Some(3), DEFAULT_MAX_ROUNDS), 7);
    assert_eq!(resolve_max_rounds(None, Some(3), DEFAULT_MAX_ROUNDS), 3);
    assert_eq!(resolve_max_rounds(None, None, DEFAULT_MAX_ROUNDS), DEFAULT_MAX_ROUNDS);
}

#[test]
fn tokenizer_precedence_flag_over_config_over_default() {
    assert_eq!(resolve_tokenizer(Some(Tokenizer::Cl100kBase), Some(Tokenizer::O200kBase)), Tokenizer::Cl100kBase);
    assert_eq!(resolve_tokenizer(None, Some(Tokenizer::Cl100kBase)), Tokenizer::Cl100kBase);
    assert_eq!(resolve_tokenizer(None, None), Tokenizer::O200kBase);
}

#[test]
fn create_options_use_the_resolved_model_and_tokenizer() {
    let options = CreateOptions::for_model("resolved-model".to_string(), Tokenizer::Cl100kBase);
    assert_eq!(options.model, "resolved-model");
    assert_eq!(options.tokenizer, Tokenizer::Cl100kBase);
    assert_eq!(options.lint_config.tokenizer, Tokenizer::Cl100kBase);
    assert_eq!(options.max_rounds, DEFAULT_MAX_ROUNDS);
    assert_eq!(options.eval_cases, DEFAULT_EVAL_CASES);
    assert_eq!(options.fmt_config.line_width, 100);
}

#[test]
fn fix_exits_one_only_when_checking_with_pending_fixes() {
    assert_eq!(fix_exit_code(true, true), EXIT_CHANGES_PENDING);
    assert_eq!(fix_exit_code(true, false), EXIT_OK);
    assert_eq!(fix_exit_code(false, true), EXIT_OK);
}

#[test]
fn the_fix_summary_pluralizes_skills() {
    assert_eq!(fix_summary(1, 3), "1 skill fixed, 2 unchanged");
    assert_eq!(fix_summary(0, 0), "0 skills fixed, 0 unchanged");
    assert_eq!(fix_summary(12, 12), "12 skills fixed, 0 unchanged");
}

#[test]
fn check_exits_one_on_findings_unless_exit_zero() {
    assert_eq!(check_exit_code(0, false), 0);
    assert_eq!(check_exit_code(3, false), 1);
    assert_eq!(check_exit_code(3, true), 0);
}

#[test]
fn the_model_comes_from_the_flag_then_the_file_then_the_environment() {
    let s = |x: &str| Some(x.to_string());
    assert_eq!(resolve_model(s("flag"), s("file"), s("env")), s("flag"));
    assert_eq!(resolve_model(None, s("file"), s("env")), s("file"));
    assert_eq!(resolve_model(None, None, s("env")), s("env"));
    assert_eq!(resolve_model(None, None, None), None);
}

#[test]
fn select_disables_every_other_rule_and_ignore_adds_its_entries() {
    let mut config = LintConfig::default();
    apply_select_ignore(&mut config, &vec!["SL201".to_string(), "missing-h1".to_string()], &vec!["SL999".to_string()]);
    assert!(!config.disabled.contains(&"SL201".to_string()));
    assert!(!config.disabled.contains(&"SL102".to_string()));
    assert!(config.disabled.contains(&"SL001".to_string()));
    assert!(config.disabled.contains(&"SL403".to_string()));
    assert!(config.disabled.contains(&"SL003".to_string()));
    assert_eq!(config.disabled.last().map(String::as_str), Some("SL999"));

    let mut plain = LintConfig::default();
    apply_select_ignore(&mut plain, &Vec::new(), &vec!["SL206".to_string()]);
    assert_eq!(plain.disabled, vec!["SL206".to_string()]);
}
