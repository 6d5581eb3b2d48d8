//! Rendering diagnostics for people: one located line per finding with its
//! fix underneath, a closing tally, and per-rule counts.

use vstd::prelude::*;
use crate::chars::{decimal, push_decimal, push_str};
use crate::diagnostic::{diag_views, Diagnostic, DiagnosticView, Severity};
use crate::rules::{all_meta_spec, meta_views, MetaView, Registry};

verus! {

/// One finding: `path:line:column: CODE message`, then `  fix: ...` when
/// it has a fix suggestion.
pub open spec fn finding_text(d: DiagnosticView) -> Seq<char> {
    d.path + ":"@ + decimal(d.line) + ":"@ + decimal(d.column) + ": "@ + d.code + " "@ + d.message + "\n"@
        + match d.fix_suggestion {
        Some(f) => "  fix: "@ + f + "\n"@,
        None => Seq::empty(),
    }
}

pub open spec fn findings_text(ds: Seq<DiagnosticView>) -> Seq<char>
    decreases ds.len(),
{
    if ds.len() == 0 {
        Seq::empty()
    } else {
        findings_text(ds.drop_last()) + finding_text(ds.last())
    }
}

/// How many of `ds` have severity `s`.
pub open spec fn severity_count(ds: Seq<DiagnosticView>, s: Severity) -> nat
    decreases ds.len(),
{
    if ds.len() == 0 {
        0
    } else {
        severity_count(ds.drop_last(), s) + if ds.last().severity == s {
            1nat
        } else {
            0nat
        }
    }
}

/// `n` and a noun, with an `s` unless `n` is one.
pub open spec fn counted(n: nat, noun: Seq<char>) -> Seq<char> {
    decimal(n) + " "@ + noun + if n == 1 {
        Seq::empty()
    } else {
        "s"@
    }
}

/// The closing tally, e.g. `Found 4 problems (0 errors, 3 warnings, 1 info)`.
pub open spec fn tally_text(ds: Seq<DiagnosticView>) -> Seq<char> {
    "Found "@ + counted(ds.len(), "problem"@) + " ("@ + counted(severity_count(ds, Severity::Error), "error"@)
        + ", "@ + counted(severity_count(ds, Severity::Warning), "warning"@) + ", "@ + decimal(
        severity_count(ds, Severity::Info),
    ) + " info)\n"@
}

/// The human-readable report: nothing for no findings; else every finding,
/// a blank line, and the tally.
pub open spec fn human_text(ds: Seq<DiagnosticView>) -> Seq<char> {
    if ds.len() == 0 {
        Seq::empty()
    } else {
        findings_text(ds) + "\n"@ + tally_text(ds)
    }
}

/// Every finding is tallied under exactly one severity.
pub proof fn tally_adds_up(ds: Seq<DiagnosticView>)
    ensures
        severity_count(ds, Severity::Error) + severity_count(ds, Severity::Warning) + severity_count(
            ds,
            Severity::Info,
        ) == ds.len(),
    decreases ds.len(),
{
    if ds.len() > 0 {
        tally_adds_up(ds.drop_last());
    }
}

fn push_counted(out: &mut String, n: usize, noun: &str)
    ensures
        final(out)@ == old(out)@ + counted(n as nat, noun@),
{
    push_decimal(out, n);
    push_str(out, " ");
    push_str(out, noun);
    if n != 1 {
        push_str(out, "s");
    }
    proof {
        assert(final(out)@ =~= old(out)@ + counted(n as nat, noun@));
    }
}

fn push_finding(out: &mut String, d: &Diagnostic)
    ensures
        final(out)@ == old(out)@ + finding_text(d@),
{
    push_str(out, d.path.as_str());
    push_str(out, ":");
    push_decimal(out, d.line);
    push_str(out, ":");
    push_decimal(out, d.column);
    push_str(out, ": ");
    push_str(out, d.code.as_str());
    push_str(out, " ");
    push_str(out, d.message.as_str());
    push_str(out, "\n");
    match &d.fix_suggestion {
        Some(f) => {
            push_str(out, "  fix: ");
            push_str(out, f.as_str());
            push_str(out, "\n");
        },
        None => {},
    }
    proof {
        assert(final(out)@ =~= old(out)@ + finding_text(d@));
    }
}

/// Renders every finding of `diagnostics`, without the tally.
pub fn render_findings(diagnostics: &Vec<Diagnostic>) -> (r: String)
    ensures
        r@ == findings_text(diag_views(diagnostics@)),
{
    let ghost ds = diag_views(diagnostics@);
    let mut out = String::new();
    let mut i: usize = 0;
    while i < diagnostics.len()
        invariant
            i <= diagnostics.len(),
            ds == diag_views(diagnostics@),
            out@ == findings_text(ds.take(i as int)),
        decreases diagnostics.len() - i,
    {
        let d = &diagnostics[i];
        proof {
            assert(ds.take(i + 1).drop_last() =~= ds.take(i as int));
            assert(ds.take(i + 1).last() == d@);
        }
        push_finding(&mut out, d);
        i += 1;
    }
    proof {
        assert(ds.take(diagnostics.len() as int) =~= ds);
    }
    out
}

fn count_severity(diagnostics: &Vec<Diagnostic>, s: Severity) -> (n: usize)
    ensures
        n == severity_count(diag_views(diagnostics@), s),
{
    let ghost ds = diag_views(diagnostics@);
    let mut n: usize = 0;
    let mut i: usize = 0;
    while i < diagnostics.len()
        invariant
            i <= diagnostics.len(),
            ds == diag_views(diagnostics@),
            n == severity_count(ds.take(i as int), s),
            n <= i,
        decreases diagnostics.len() - i,
    {
        proof {
            assert(ds.take(i + 1).drop_last() =~= ds.take(i as int));
            assert(ds.take(i + 1).last() == diagnostics@[i as int]@);
        }
        if diagnostics[i].severity == s {
            n += 1;
        }
        i += 1;
    }
    proof {
        assert(ds.take(diagnostics.len() as int) =~= ds);
    }
    n
}

/// Renders the closing tally of `diagnostics`.
pub fn render_tally(diagnostics: &Vec<Diagnostic>) -> (r: String)
    ensures
        r@ == tally_text(diag_views(diagnostics@)),
{
    let mut out = String::new();
    push_str(&mut out, "Found ");
    push_counted(&mut out, diagnostics.len(), "problem");
    push_str(&mut out, " (");
    push_counted(&mut out, count_severity(diagnostics, Severity::Error), "error");
    push_str(&mut out, ", ");
    push_counted(&mut out, count_severity(diagnostics, Severity::Warning), "warning");
    push_str(&mut out, ", ");
    push_decimal(&mut out, count_severity(diagnostics, Severity::Info));
    push_str(&mut out, " info)\n");
    proof {
        assert(out@ =~= tally_text(diag_views(diagnostics@)));
    }
    out
}

/// Renders `diagnostics` for a terminal: nothing when there are none, else
/// every finding, a blank line and the tally.
pub fn render_human(diagnostics: &Vec<Diagnostic>) -> (r: String)
    ensures
        r@ == human_text(diag_views(diagnostics@)),
{
    if diagnostics.len() == 0 {
        return String::new();
    }
    let mut out = render_findings(diagnostics);
    push_str(&mut out, "\n");
    let tally = render_tally(diagnostics);
    push_str(&mut out, tally.as_str());
    out
}

/// How many of `ds` carry code `code`.
pub open spec fn code_count(ds: Seq<DiagnosticView>, code: Seq<char>) -> nat
    decreases ds.len(),
{
    if ds.len() == 0 {
        0
    } else {
        code_count(ds.drop_last(), code) + if ds.last().code == code {
            1nat
        } else {
            0nat
        }
    }
}

/// Per-rule counts over `metas`, in their order: `count<TAB>code<TAB>name`
/// for each rule with at least one finding.
pub open spec fn statistics_over(metas: Seq<MetaView>, ds: Seq<DiagnosticView>) -> Seq<char>
    decreases metas.len(),
{
    if metas.len() == 0 {
        Seq::empty()
    } else {
        let m = metas.last();
        let n = code_count(ds, m.code);
        statistics_over(metas.drop_last(), ds) + if n == 0 {
            Seq::empty()
        } else {
            decimal(n) + "\t"@ + m.code + "\t"@ + m.name + "\n"@
        }
    }
}

/// The per-rule counts of `ds`, rules in code order.
pub open spec fn statistics_text(ds: Seq<DiagnosticView>) -> Seq<char> {
    statistics_over(all_meta_spec(), ds)
}

fn count_code(diagnostics: &Vec<Diagnostic>, code: &str) -> (n: usize)
    ensures
        n == code_count(diag_views(diagnostics@), code@),
{
    let ghost ds = diag_views(diagnostics@);
    let c = crate::chars::chars_of(code);
    let mut n: usize = 0;
    let mut i: usize = 0;
    while i < diagnostics.len()
        invariant
            i <= diagnostics.len(),
            ds == diag_views(diagnostics@),
            c@ == code@,
            n == code_count(ds.take(i as int), code@),
            n <= i,
        decreases diagnostics.len() - i,
    {
        proof {
            assert(ds.take(i + 1).drop_last() =~= ds.take(i as int));
            assert(ds.take(i + 1).last() == diagnostics@[i as int]@);
        }
        let dc = crate::chars::chars_of(diagnostics[i].code.as_str());
        if crate::companion::same_chars(&dc, &c) {
            n += 1;
        }
        i += 1;
    }
    proof {
        assert(ds.take(diagnostics.len() as int) =~= ds);
    }
    n
}

/// Renders per-rule counts of `diagnostics` (`--statistics`).
pub fn render_statistics(diagnostics: &Vec<Diagnostic>) -> (r: String)
    ensures
        r@ == statistics_text(diag_views(diagnostics@)),
{
    let ghost ds = diag_views(diagnostics@);
    let metas = Registry::new().all_meta();
    let ghost ms = meta_views(metas@);
    let mut out = String::new();
    let mut i: usize = 0;
    while i < metas.len()
        invariant
            i <= metas.len(),
            ds == diag_views(diagnostics@),
            ms == meta_views(metas@),
            ms == all_meta_spec(),
            out@ == statistics_over(ms.take(i as int), ds),
        decreases metas.len() - i,
    {
        let m = metas[i];
        proof {
            assert(ms.take(i + 1).drop_last() =~= ms.take(i as int));
            assert(ms.take(i + 1).last() == m@);
        }
        let n = count_code(diagnostics, m.code);
        if n > 0 {
            push_decimal(&mut out, n);
            push_str(&mut out, "\t");
            push_str(&mut out, m.code);
            push_str(&mut out, "\t");
            push_str(&mut out, m.name);
            push_str(&mut out, "\n");
        }
        proof {
            assert(out@ =~= statistics_over(ms.take(i + 1), ds));
        }
        i += 1;
    }
    proof {
        assert(ms.take(metas.len() as int) =~= ms);
    }
    out
}

} // verus!
