//! The accept/reject comparison used when repairing a skill round by round:
//! is a candidate strictly better, and does it clear the severity gate.

use vstd::prelude::*;
use crate::diagnostic::{diag_views, Diagnostic, DiagnosticView, Severity};

verus! {

/// No diagnostic of `ds` is an `Error` or a `Warning`.
pub open spec fn clears_gate(ds: Seq<DiagnosticView>) -> bool {
    forall|i: int| 0 <= i < ds.len() ==> #[trigger] ds[i].severity == Severity::Info
}

/// Whether `candidate`'s diagnostics improve on `current`'s: strictly fewer
/// of them.
pub fn improves_on(current: &[Diagnostic], candidate: &[Diagnostic]) -> (r: bool)
    ensures
        r == (candidate@.len() < current@.len()),
{
    improves_on_len(current.len(), candidate.len())
}

/// [`improves_on`] on counts alone.
pub fn improves_on_len(current_len: usize, candidate_len: usize) -> (r: bool)
    ensures
        r == (candidate_len < current_len),
{
    candidate_len < current_len
}

/// Whether `diagnostics` clears the repair gate: no `Error` and no
/// `Warning`. `Info` never blocks.
pub fn passes_severity_gate(diagnostics: &[Diagnostic]) -> (r: bool)
    ensures
        r == clears_gate(diag_views(diagnostics@)),
{
    let mut i: usize = 0;
    while i < diagnostics.len()
        invariant
            i <= diagnostics.len(),
            forall|j: int| 0 <= j < i ==> #[trigger] diag_views(diagnostics@)[j].severity == Severity::Info,
        decreases diagnostics.len() - i,
    {
        proof {
            assert(diag_views(diagnostics@)[i as int] == diagnostics@[i as int]@);
        }
        match diagnostics[i].severity {
            Severity::Info => {},
            _ => {
                proof {
                    assert(diag_views(diagnostics@)[i as int].severity != Severity::Info);
                }
                return false;
            },
        }
        i += 1;
    }
    true
}

/// `Info` findings never fail the severity check: adding some of them to a
/// passing set of diagnostics still passes.
pub proof fn info_never_blocks(ds: Seq<DiagnosticView>, extra: Seq<DiagnosticView>)
    requires
        clears_gate(ds),
        forall|i: int| 0 <= i < extra.len() ==> #[trigger] extra[i].severity == Severity::Info,
    ensures
        clears_gate(ds + extra),
{
    assert forall|i: int| 0 <= i < (ds + extra).len() implies #[trigger] (ds + extra)[i].severity == Severity::Info by {
        if i < ds.len() {
            assert((ds + extra)[i] == ds[i]);
        } else {
            assert((ds + extra)[i] == extra[i - ds.len()]);
        }
    }
}

/// Any `Error` or `Warning` fails the severity check.
pub proof fn error_or_warning_blocks(ds: Seq<DiagnosticView>, i: int)
    requires
        0 <= i < ds.len(),
        ds[i].severity != Severity::Info,
    ensures
        !clears_gate(ds),
{
}

} // verus!
