use adept::diagnostic::{Diagnostic, Severity};
use adept::gate::{improves_on, improves_on_len, passes_severity_gate};

fn diag(severity: Severity) -> Diagnostic {
    Diagnostic::new("SL999", "test".to_string(), severity, "SKILL.md", 1, 1)
}

#[test]
fn improves_on_requires_strictly_fewer() {
    assert!(improves_on(
        &[diag(Severity::Error), diag(Severity::Error)],
        &[diag(Severity::Error)]
    ));
    assert!(!improves_on(&[diag(Severity::Error)], &[diag(Severity::Error)]));
    assert!(!improves_on(
        &[diag(Severity::Error)],
        &[diag(Severity::Error), diag(Severity::Error)]
    ));
}

#[test]
fn severity_gate_blocks_error_and_warning_but_not_info() {
    assert!(passes_severity_gate(&[]));
    assert!(passes_severity_gate(&[diag(Severity::Info)]));
    assert!(!passes_severity_gate(&[diag(Severity::Warning)]));
    assert!(!passes_severity_gate(&[diag(Severity::Error)]));
}

#[test]
fn improves_on_len_compares_counts() {
    assert!(improves_on_len(3, 2));
    assert!(!improves_on_len(2, 2));
    assert!(!improves_on_len(0, 0));
}

#[test]
fn one_blocking_diagnostic_among_infos_fails_the_gate() {
    assert!(passes_severity_gate(&[diag(Severity::Info), diag(Severity::Info)]));
    assert!(!passes_severity_gate(&[diag(Severity::Info), diag(Severity::Warning)]));
}
