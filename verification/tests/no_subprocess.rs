/// Strip line comments, block comments and string literal contents from
/// Rust source, so that a mention of a pattern in a comment or a string
/// cannot count as code.
fn strip_comments_and_strings(source: &str) -> String {
    let mut out = String::with_capacity(source.len());
    let mut chars = source.chars().peekable();
    let mut in_block_comment_depth: u32 = 0;

    while let Some(c) = chars.next() {
        if in_block_comment_depth > 0 {
            if c == '/' && chars.peek() == Some(&'*') {
                chars.next();
                in_block_comment_depth += 1;
            } else if c == '*' && chars.peek() == Some(&'/') {
                chars.next();
                in_block_comment_depth -= 1;
            }
            continue;
        }
        if c == '/' && chars.peek() == Some(&'/') {
            for sc in chars.by_ref() {
                if sc == '\n' {
                    out.push('\n');
                    break;
                }
            }
            continue;
        }
        if c == '/' && chars.peek() == Some(&'*') {
            chars.next();
            in_block_comment_depth = 1;
            continue;
        }
        if c == '"' {
            out.push(' ');
            while let Some(sc) = chars.next() {
                if sc == '\\' {
                    chars.next();
                    continue;
                }
                if sc == '"' {
                    break;
                }
            }
            continue;
        }
        out.push(c);
    }
    out
}

#[test]
fn scanner_detects_a_real_construction_when_present() {
    let module = "process";
    let source = format!(
        "\n        // Command::new(\"ls\") in a comment must not count.\n        let s = \"Command::new(\\\"ls\\\")\"; // nor in a string literal\n        let cmd = std::{module}::Command::new(\"ls\");\n    "
    );
    let stripped = strip_comments_and_strings(&source);
    assert!(!stripped.contains("Command::new(\"ls\")"));
    assert!(stripped.contains(&format!("{module}::Command::new")));
}
