use adept::evals::{jsonl_lines, parse_jsonl, to_jsonl, validate, Assertion, EvalCase, EvalError, SCHEMA_VERSION};
use serde_json::Value;

fn sample_case() -> EvalCase {
    EvalCase {
        schema_version: SCHEMA_VERSION,
        prompt: "Summarize the attached report.".to_string(),
        assertions: vec![
            Assertion::Contains { value: "summary".to_string() },
            Assertion::FileExists { path: "out/summary.md".to_string() },
            Assertion::FileContains {
                path: "out/summary.md".to_string(),
                value: "conclusion".to_string(),
            },
            Assertion::Command { command: "test -s out/summary.md".to_string() },
        ],
    }
}

fn text(s: &str) -> Value {
    Value::String(s.to_string())
}

/// One case as a JSON line, `kind`-tagged assertions in snake_case.
fn encode(case: &EvalCase) -> String {
    let assertions: Vec<Value> = case
        .assertions
        .iter()
        .map(|a| {
            let mut m = serde_json::Map::new();
            match a {
                Assertion::Contains { value } => {
                    m.insert("kind".into(), text("contains"));
                    m.insert("value".into(), text(value));
                }
                Assertion::FileExists { path } => {
                    m.insert("kind".into(), text("file_exists"));
                    m.insert("path".into(), text(path));
                }
                Assertion::FileContains { path, value } => {
                    m.insert("kind".into(), text("file_contains"));
                    m.insert("path".into(), text(path));
                    m.insert("value".into(), text(value));
                }
                Assertion::Command { command } => {
                    m.insert("kind".into(), text("command"));
                    m.insert("command".into(), text(command));
                }
            }
            Value::Object(m)
        })
        .collect();
    let mut m = serde_json::Map::new();
    m.insert("schema_version".into(), Value::from(case.schema_version));
    m.insert("prompt".into(), text(&case.prompt));
    m.insert("assertions".into(), Value::Array(assertions));
    Value::Object(m).to_string()
}

fn field<'a>(v: &'a Value, key: &str) -> Result<&'a str, String> {
    v.get(key).and_then(Value::as_str).ok_or_else(|| format!("missing field `{key}`"))
}

/// One JSON line decoded into a case, or why it could not be.
fn decode(line: &str) -> Result<EvalCase, String> {
    let v: Value = serde_json::from_str(line).map_err(|e| e.to_string())?;
    let version = v
        .get("schema_version")
        .and_then(Value::as_u64)
        .and_then(|n| u32::try_from(n).ok())
        .ok_or_else(|| "missing field `schema_version`".to_string())?;
    let prompt = field(&v, "prompt")?.to_string();
    let items = v
        .get("assertions")
        .and_then(Value::as_array)
        .ok_or_else(|| "missing field `assertions`".to_string())?;
    let mut assertions = Vec::new();
    for a in items {
        let assertion = match field(a, "kind")? {
            "contains" => Assertion::Contains { value: field(a, "value")?.to_string() },
            "file_exists" => Assertion::FileExists { path: field(a, "path")?.to_string() },
            "file_contains" => Assertion::FileContains {
                path: field(a, "path")?.to_string(),
                value: field(a, "value")?.to_string(),
            },
            "command" => Assertion::Command { command: field(a, "command")?.to_string() },
            other => return Err(format!("unknown variant `{other}`")),
        };
        assertions.push(assertion);
    }
    Ok(EvalCase { schema_version: version, prompt, assertions })
}

fn records(text: &str) -> Vec<(usize, Result<EvalCase, String>)> {
    jsonl_lines(text).into_iter().map(|(n, l)| (n, decode(&l))).collect()
}

fn jsonl(cases: &[EvalCase]) -> String {
    to_jsonl(&cases.iter().map(encode).collect())
}

#[test]
fn round_trips_a_single_case() {
    let case = sample_case();
    let text = jsonl(std::slice::from_ref(&case));
    let parsed = parse_jsonl(records(&text)).unwrap();
    assert_eq!(parsed, vec![case]);
}

#[test]
fn parses_multiple_lines_skipping_blanks() {
    let cases = vec![sample_case(), sample_case()];
    let mut text = jsonl(&cases);
    text.push('\n');
    let parsed = parse_jsonl(records(&text)).unwrap();
    assert_eq!(parsed, cases);
}

#[test]
fn parse_reports_the_offending_line_number() {
    let good = encode(&sample_case());
    let text = format!("{good}\nnot valid json\n{good}\n");
    match parse_jsonl(records(&text)).unwrap_err() {
        EvalError::Parse { line, .. } => assert_eq!(line, 2),
        other => panic!("expected Parse error, got {other:?}"),
    }
}

#[test]
fn unknown_assertion_kind_is_a_clear_error_not_a_panic() {
    let text = r#"{"schema_version":1,"prompt":"p","assertions":[{"kind":"unheard_of","value":"x"}]}"#;
    let err = parse_jsonl(records(text)).unwrap_err();
    assert!(matches!(err, EvalError::Parse { line: 1, .. }));
}

#[test]
fn validate_rejects_unsupported_schema_version() {
    let text = r#"{"schema_version":999,"prompt":"p","assertions":[]}"#;
    match validate(records(text)).unwrap_err() {
        EvalError::UnsupportedSchemaVersion { line, found } => {
            assert_eq!(line, 1);
            assert_eq!(found, 999);
        }
        other => panic!("expected UnsupportedSchemaVersion, got {other:?}"),
    }
}

#[test]
fn validate_rejects_empty_dataset() {
    let err = validate(records("")).unwrap_err();
    assert!(matches!(err, EvalError::Empty));
}

#[test]
fn validate_accepts_well_formed_dataset() {
    let text = jsonl(&[sample_case()]);
    validate(records(&text)).unwrap();
}

#[test]
fn missing_required_field_is_a_parse_error() {
    let text = r#"{"schema_version":1,"assertions":[]}"#;
    let err = parse_jsonl(records(text)).unwrap_err();
    assert!(matches!(err, EvalError::Parse { line: 1, .. }));
}

#[test]
fn jsonl_lines_numbers_non_blank_lines_from_one() {
    let found = jsonl_lines("a\n\n  \r\nb\r\nc");
    assert_eq!(found, vec![(1, "a".to_string()), (4, "b".to_string()), (5, "c".to_string())]);
}

#[test]
fn to_jsonl_ends_every_record_with_a_newline() {
    assert_eq!(to_jsonl(&vec!["{}".to_string(), "[]".to_string()]), "{}\n[]\n");
    assert_eq!(to_jsonl(&Vec::new()), "");
}

#[test]
fn a_written_dataset_reads_back_as_the_same_records() {
    let lines = vec!["{\"a\":1}".to_string(), "{\"b\":2}".to_string()];
    let text = to_jsonl(&lines);
    assert_eq!(jsonl_lines(&text), vec![(1, lines[0].clone()), (2, lines[1].clone())]);
}

#[test]
fn a_parse_failure_is_reported_before_a_bad_schema_version() {
    let text = "{\"schema_version\":7,\"prompt\":\"p\",\"assertions\":[]}\nnope\n";
    assert!(matches!(validate(records(text)).unwrap_err(), EvalError::Parse { line: 2, .. }));
}

#[test]
fn the_parse_error_carries_the_decoder_message() {
    let rs = vec![(3usize, Err::<EvalCase, String>("bad line".to_string()))];
    match parse_jsonl(rs).unwrap_err() {
        EvalError::Parse { line, message } => {
            assert_eq!(line, 3);
            assert_eq!(message, "bad line");
        }
        other => panic!("expected Parse error, got {other:?}"),
    }
}

#[test]
fn validate_rejects_an_empty_command() {
    let text = r#"{"schema_version":1,"prompt":"p","assertions":[{"kind":"command","command":""}]}"#;
    match validate(records(text)).unwrap_err() {
        EvalError::EmptyCommand { line } => assert_eq!(line, 1),
        other => panic!("expected EmptyCommand, got {other:?}"),
    }
}

#[test]
fn an_empty_command_is_reported_after_a_bad_schema_version() {
    let text = "{\"schema_version\":1,\"prompt\":\"p\",\"assertions\":[{\"kind\":\"command\",\"command\":\"\"}]}\n\
                {\"schema_version\":2,\"prompt\":\"q\",\"assertions\":[]}\n";
    assert!(matches!(
        validate(records(text)).unwrap_err(),
        EvalError::UnsupportedSchemaVersion { line: 2, found: 2 }
    ));
    let text = "{\"schema_version\":1,\"prompt\":\"p\",\"assertions\":[]}\n\n\
                {\"schema_version\":1,\"prompt\":\"q\",\"assertions\":[{\"kind\":\"contains\",\"value\":\"x\"},{\"kind\":\"command\",\"command\":\"\"}]}\n";
    assert!(matches!(validate(records(text)).unwrap_err(), EvalError::EmptyCommand { line: 3 }));
}
