use adept::diagnostic::Skill;
use adept::mcp::{
    advertised_tools, bounded_argument, brief_argument, choose_source, include_target, plan,
    plan_line, tool_named, Method, NumberArgument, Plan, Source, Tool, INVALID_PARAMS,
    INVALID_REQUEST, MAX_EVAL_CASES, MAX_LINE_WIDTH, MAX_MAX_ROUNDS, METHOD_NOT_FOUND,
    MIN_LINE_WIDTH, MIN_MAX_ROUNDS, PARSE_ERROR,
};
use adept::skill::parse_skill;

fn skill(name: &str) -> Skill {
    let src = format!("---\nname: {name}\ndescription: Does {name} things. Use when {name}.\n---\n\n# {name}\n\nBody.\n");
    parse_skill(&format!("{name}/SKILL.md"), &src).unwrap()
}

#[test]
fn notification_with_no_id_gets_no_reply() {
    assert!(matches!(plan(false, Some("notifications/initialized")), Plan::Ignore));
    assert!(matches!(plan(true, Some("notifications/initialized")), Plan::Ignore));
}

#[test]
fn known_methods_run_and_reply_only_with_an_id() {
    assert!(matches!(plan(true, Some("initialize")), Plan::Run { method: Method::Initialize, reply: true }));
    assert!(matches!(plan(true, Some("tools/list")), Plan::Run { method: Method::ToolsList, reply: true }));
    assert!(matches!(plan(false, Some("tools/call")), Plan::Run { method: Method::ToolsCall, reply: false }));
}

#[test]
fn unknown_methods_are_method_not_found_unless_a_notification() {
    match plan(true, Some("resources/list")) {
        Plan::Reject { code, message } => {
            assert_eq!(code, METHOD_NOT_FOUND);
            assert_eq!(message, "method not found: resources/list");
        }
        other => panic!("expected a rejection, got {other:?}"),
    }
    assert!(matches!(plan(false, Some("resources/list")), Plan::Ignore));
}

#[test]
fn a_request_without_a_method_is_invalid() {
    match plan(true, None) {
        Plan::Reject { code, message } => {
            assert_eq!(code, INVALID_REQUEST);
            assert_eq!(message, "invalid request: missing `method`");
        }
        other => panic!("expected a rejection, got {other:?}"),
    }
    assert!(matches!(plan(false, None), Plan::Ignore));
}

#[test]
fn tools_are_found_by_name() {
    assert_eq!(tool_named(Some("check_skill")).unwrap(), Tool::CheckSkill);
    assert_eq!(tool_named(Some("format_skill")).unwrap(), Tool::FormatSkill);
    assert_eq!(tool_named(Some("score_skill")).unwrap(), Tool::ScoreSkill);
    assert_eq!(tool_named(Some("create_skill")).unwrap(), Tool::CreateSkill);
    assert_eq!(tool_named(Some("generate_evals")).unwrap(), Tool::GenerateEvals);
}

#[test]
fn unknown_or_missing_tool_names_are_invalid_params() {
    assert_eq!(
        tool_named(Some("does_not_exist")).unwrap_err(),
        (INVALID_PARAMS, "unknown tool: does_not_exist".to_string())
    );
    assert_eq!(tool_named(None).unwrap_err(), (INVALID_PARAMS, "missing `name`".to_string()));
}

#[test]
fn bounded_arguments_accept_absent_and_in_range_values() {
    assert_eq!(bounded_argument(NumberArgument::Absent, "line_width", MIN_LINE_WIDTH, MAX_LINE_WIDTH), Ok(None));
    assert_eq!(
        bounded_argument(NumberArgument::Unsigned(20), "line_width", MIN_LINE_WIDTH, MAX_LINE_WIDTH),
        Ok(Some(20))
    );
    assert_eq!(
        bounded_argument(NumberArgument::Unsigned(500), "line_width", MIN_LINE_WIDTH, MAX_LINE_WIDTH),
        Ok(Some(500))
    );
}

#[test]
fn out_of_range_max_rounds_and_eval_cases_are_rejected() {
    assert_eq!(
        bounded_argument(NumberArgument::Unsigned(MAX_MAX_ROUNDS + 1), "max_rounds", MIN_MAX_ROUNDS, MAX_MAX_ROUNDS),
        Err("invalid `max_rounds`: must be an integer between 1 and 10".to_string())
    );
    assert_eq!(
        bounded_argument(NumberArgument::Unsigned(0), "max_rounds", MIN_MAX_ROUNDS, MAX_MAX_ROUNDS),
        Err("invalid `max_rounds`: must be an integer between 1 and 10".to_string())
    );
    let err = bounded_argument(NumberArgument::Unsigned(MAX_EVAL_CASES + 1), "eval_cases", 1, MAX_EVAL_CASES).unwrap_err();
    assert!(err.contains("eval_cases"));
    assert_eq!(
        bounded_argument(NumberArgument::Other, "line_width", MIN_LINE_WIDTH, MAX_LINE_WIDTH),
        Err("invalid `line_width`: must be an integer between 20 and 500".to_string())
    );
}

#[test]
fn a_brief_must_hold_more_than_whitespace() {
    assert_eq!(brief_argument(Some("Extract PDF form data")), Ok("Extract PDF form data".to_string()));
    assert_eq!(brief_argument(Some("  \n\t")), Err("missing or empty `brief`".to_string()));
    assert_eq!(brief_argument(None), Err("missing or empty `brief`".to_string()));
}

#[test]
fn content_wins_over_path_and_defaults_its_path() {
    match choose_source(Some("text"), None).unwrap() {
        Source::Inline { content, path } => {
            assert_eq!(content, "text");
            assert_eq!(path, "SKILL.md");
        }
        other => panic!("unexpected {other:?}"),
    }
    match choose_source(Some("text"), Some("a/SKILL.md")).unwrap() {
        Source::Inline { path, .. } => assert_eq!(path, "a/SKILL.md"),
        other => panic!("unexpected {other:?}"),
    }
    match choose_source(None, Some("a/SKILL.md")).unwrap() {
        Source::File(p) => assert_eq!(p, "a/SKILL.md"),
        other => panic!("unexpected {other:?}"),
    }
    assert_eq!(choose_source(None, None).unwrap_err(), "must provide either `path` or `content`");
}

#[test]
fn the_target_is_appended_only_when_no_skill_has_its_name() {
    let found = include_target(vec![skill("alpha"), skill("beta")], skill("alpha"));
    let names: Vec<&str> = found.iter().map(|s| s.frontmatter.name.as_str()).collect();
    assert_eq!(names, vec!["alpha", "beta"]);
    let found = include_target(vec![skill("gamma")], skill("sample"));
    let names: Vec<&str> = found.iter().map(|s| s.frontmatter.name.as_str()).collect();
    assert_eq!(names, vec!["gamma", "sample"]);
    let found = include_target(Vec::new(), skill("sample"));
    assert_eq!(found.len(), 1);
}

#[test]
fn a_line_that_is_not_json_is_a_parse_error() {
    match plan_line("this is not json") {
        Plan::Reject { code, message } => {
            assert_eq!(code, PARSE_ERROR);
            assert!(message.starts_with("parse error: "), "{message}");
            assert!(message.len() > "parse error: ".len());
        }
        other => panic!("expected a parse error, got {other:?}"),
    }
    assert!(matches!(plan_line("{\"id\": 1,"), Plan::Reject { code: PARSE_ERROR, .. }));
}

#[test]
fn a_json_line_is_planned_from_its_id_and_method() {
    assert!(matches!(
        plan_line(r#"{"jsonrpc":"2.0","id":1,"method":"initialize"}"#),
        Plan::Run { method: Method::Initialize, reply: true }
    ));
    assert!(matches!(
        plan_line(r#"{"jsonrpc":"2.0","method":"notifications/initialized"}"#),
        Plan::Ignore
    ));
    assert!(matches!(
        plan_line(r#"{"jsonrpc":"2.0","method":"tools/list"}"#),
        Plan::Run { method: Method::ToolsList, reply: false }
    ));
    match plan_line(r#"{"jsonrpc":"2.0","id":7}"#) {
        Plan::Reject { code, message } => {
            assert_eq!(code, INVALID_REQUEST);
            assert_eq!(message, "invalid request: missing `method`");
        }
        other => panic!("expected an invalid request, got {other:?}"),
    }
    match plan_line(r#"{"jsonrpc":"2.0","id":"x","method":"bogus/method"}"#) {
        Plan::Reject { code, message } => {
            assert_eq!(code, METHOD_NOT_FOUND);
            assert_eq!(message, "method not found: bogus/method");
        }
        other => panic!("expected method not found, got {other:?}"),
    }
    assert!(matches!(plan_line(r#"{"id":null,"method":42}"#), Plan::Reject { code: INVALID_REQUEST, .. }));
    assert!(matches!(plan_line("[1, 2]"), Plan::Ignore));
}

#[test]
fn model_backed_tools_are_advertised_only_when_configured() {
    assert_eq!(advertised_tools(false), vec![Tool::CheckSkill, Tool::FormatSkill]);
    assert_eq!(
        advertised_tools(true),
        vec![Tool::CheckSkill, Tool::FormatSkill, Tool::ScoreSkill, Tool::CreateSkill, Tool::GenerateEvals]
    );
}
