//! What linting promises as a whole: the report is sorted, complete and
//! stable; a disabled rule reports nothing; an overridden rule reports at
//! its overridden severity.

use vstd::prelude::*;
use crate::diagnostic::{DiagnosticView, Skill, SkillSet};
use crate::sorting::{lemma_isort_permutation, lemma_isort_sorted, lemma_isort_stable, sorted_by, ties};
use crate::token::Tokenizer;
use super::{
    lint_set_spec, lint_skill_spec, registered_skill_rules, resolved_severity, rule_enabled,
    skill_reports, skill_rule_code, skill_rule_finds, skill_rule_name, skill_rule_report,
    skill_rule_severity, skills_reports, set_reports, error_reports, with_severity, LintConfig,
    SkillRuleKind, registered_meta, registered_set_rules, MetaView, skill_meta, set_meta,
    parse_error_meta, set_rule_code, set_rule_name, SetRuleKind,
};

use super::sort::{diag_lt, lemma_diag_lt_weak_order};
use super::structure::{broken_upto, setext_scan, skip_scan};
use super::tokens::{companion_finds, companions_finds};

verus! {

/// Every diagnostic of `ds` carries code `c`.
pub open spec fn all_coded(ds: Seq<DiagnosticView>, c: Seq<char>) -> bool {
    forall|i: int| 0 <= i < ds.len() ==> #[trigger] ds[i].code == c
}

pub proof fn lemma_coded_concat(a: Seq<DiagnosticView>, b: Seq<DiagnosticView>, c: Seq<char>)
    requires
        all_coded(a, c),
        all_coded(b, c),
    ensures
        all_coded(a + b, c),
{
    assert forall|i: int| 0 <= i < (a + b).len() implies #[trigger] (a + b)[i].code == c by {
        if i < a.len() {
            assert((a + b)[i] == a[i]);
        } else {
            assert((a + b)[i] == b[i - a.len()]);
        }
    }
}

proof fn lemma_companions_coded(files: Seq<crate::diagnostic::CompanionFile>, skill: Skill, config: LintConfig, t: Tokenizer)
    ensures
        all_coded(companions_finds(files, skill, config, t), "SL303"@),
    decreases files.len(),
{
    if files.len() > 0 {
        lemma_companions_coded(files.drop_last(), skill, config, t);
        lemma_coded_concat(
            companions_finds(files.drop_last(), skill, config, t),
            companion_finds(files.last(), skill, config, t),
            "SL303"@,
        );
    }
}

proof fn lemma_skips_coded(skill: Skill, hs: Seq<crate::markdown::HeadingView>, k: nat)
    ensures
        all_coded(skip_scan(skill, hs, k).0, "SL103"@),
    decreases k,
{
    if k > 0 {
        lemma_skips_coded(skill, hs, (k - 1) as nat);
    }
}

proof fn lemma_broken_coded(skill: Skill, rs: Seq<super::structure::RefView>, k: nat)
    ensures
        all_coded(broken_upto(skill, rs, k), "SL104"@),
    decreases k,
{
    if k > 0 {
        lemma_broken_coded(skill, rs, (k - 1) as nat);
        let r = rs[k - 1];
        lemma_coded_concat(broken_upto(skill, rs, (k - 1) as nat), broken_upto(skill, rs, k).skip(
            broken_upto(skill, rs, (k - 1) as nat).len() as int,
        ), "SL104"@);
        assert(broken_upto(skill, rs, k) =~= broken_upto(skill, rs, (k - 1) as nat) + broken_upto(
            skill,
            rs,
            k,
        ).skip(broken_upto(skill, rs, (k - 1) as nat).len() as int));
    }
}

proof fn lemma_setext_coded(skill: Skill, hs: Seq<crate::markdown::HeadingView>, k: nat)
    ensures
        all_coded(setext_scan(skill, hs, k), "SL105"@),
    decreases k,
{
    if k > 0 {
        lemma_setext_coded(skill, hs, (k - 1) as nat);
    }
}

/// Each single-skill rule reports only diagnostics with its own code.
pub proof fn lemma_rule_codes(k: SkillRuleKind, skill: Skill, config: LintConfig, t: Tokenizer)
    ensures
        all_coded(skill_rule_finds(k, skill, config, t), skill_rule_code(k)),
{
    match k {
        SkillRuleKind::CompanionFileBloat => {
            lemma_companions_coded(skill.companions@, skill, config, t);
        },
        SkillRuleKind::HeadingLevelSkip => {
            let hs = super::structure::body_headings(skill);
            lemma_skips_coded(skill, hs, hs.len());
        },
        SkillRuleKind::BrokenFileReference => {
            let rs = super::structure::body_refs(skill.body@);
            lemma_broken_coded(skill, rs, rs.len());
        },
        SkillRuleKind::SetextHeading => {
            let hs = super::structure::body_headings(skill);
            lemma_setext_coded(skill, hs, hs.len());
        },
        _ => {},
    }
}

/// The codes of the single-skill rules are distinct.
pub proof fn lemma_codes_distinct(a: SkillRuleKind, b: SkillRuleKind)
    ensures
        skill_rule_code(a) == skill_rule_code(b) ==> a == b,
{
    reveal_strlit("SL001");
    reveal_strlit("SL002");
    reveal_strlit("SL004");
    reveal_strlit("SL005");
    reveal_strlit("SL101");
    reveal_strlit("SL102");
    reveal_strlit("SL103");
    reveal_strlit("SL104");
    reveal_strlit("SL105");
    reveal_strlit("SL201");
    reveal_strlit("SL203");
    reveal_strlit("SL204");
    reveal_strlit("SL205");
    reveal_strlit("SL206");
    reveal_strlit("SL301");
    reveal_strlit("SL302");
    reveal_strlit("SL303");
    if skill_rule_code(a) == skill_rule_code(b) {
        let (ca, cb) = (skill_rule_code(a), skill_rule_code(b));
        assert(ca[2] == cb[2] && ca[3] == cb[3] && ca[4] == cb[4]);
    }
}

/// A diagnostic of the first `n` rules' reports comes from one of them.
pub proof fn lemma_reports_member(skill: Skill, config: LintConfig, t: Tokenizer, n: nat, d: DiagnosticView)
    requires
        n <= 17,
        skill_reports(skill, config, t, n).contains(d),
    ensures
        exists|m: int| 0 <= m < n && #[trigger] skill_rule_report(registered_skill_rules()[m], skill, config, t).contains(d),
    decreases n,
{
    let prev = skill_reports(skill, config, t, (n - 1) as nat);
    let last = skill_rule_report(registered_skill_rules()[n - 1], skill, config, t);
    assert(skill_reports(skill, config, t, n) == prev + last);
    let i = choose|i: int| 0 <= i < (prev + last).len() && (prev + last)[i] == d;
    if i < prev.len() {
        assert(prev[i] == d);
        lemma_reports_member(skill, config, t, (n - 1) as nat, d);
    } else {
        assert(last[i - prev.len()] == d);
        assert(skill_rule_report(registered_skill_rules()[n - 1], skill, config, t).contains(d));
    }
}

/// What a rule reports, it reports with its code, at its resolved severity.
pub proof fn lemma_report_shape(k: SkillRuleKind, skill: Skill, config: LintConfig, t: Tokenizer, d: DiagnosticView)
    requires
        skill_rule_report(k, skill, config, t).contains(d),
    ensures
        rule_enabled(config, skill_rule_code(k), skill_rule_name(k)),
        d.code == skill_rule_code(k),
        d.severity == resolved_severity(config, skill_rule_code(k), skill_rule_name(k), skill_rule_severity(k)),
{
    lemma_rule_codes(k, skill, config, t);
    let ds = skill_rule_finds(k, skill, config, t);
    let s = resolved_severity(config, skill_rule_code(k), skill_rule_name(k), skill_rule_severity(k));
    let r = skill_rule_report(k, skill, config, t);
    let i = choose|i: int| 0 <= i < r.len() && r[i] == d;
    assert(r == with_severity(ds, s));
    assert(d == DiagnosticView { severity: s, ..ds[i] });
    assert(ds[i].code == skill_rule_code(k));
}

/// Linting a skill reports every finding of every enabled rule, each once,
/// in reporting order, and findings that tie on `(path, line, column,
/// code)` in the order the rules produced them.
pub proof fn lint_skill_is_sorted_complete_and_stable(skill: Skill, config: LintConfig, t: Tokenizer, z: DiagnosticView)
    ensures
        sorted_by(lint_skill_spec(skill, config, t), diag_lt()),
        lint_skill_spec(skill, config, t).to_multiset() == skill_reports(skill, config, t, 17).to_multiset(),
        lint_skill_spec(skill, config, t).filter(ties(diag_lt(), z)) == skill_reports(skill, config, t, 17).filter(
            ties(diag_lt(), z),
        ),
{
    lemma_diag_lt_weak_order();
    lemma_isort_sorted(skill_reports(skill, config, t, 17), diag_lt());
    lemma_isort_permutation(skill_reports(skill, config, t, 17), diag_lt());
    lemma_isort_stable(skill_reports(skill, config, t, 17), diag_lt(), z);
}

/// Linting a set reports every finding, each once, in reporting order, and
/// keeps findings that tie in the order they were produced.
pub proof fn lint_set_is_sorted_complete_and_stable(set: SkillSet, config: LintConfig, t: Tokenizer, z: DiagnosticView)
    ensures
        sorted_by(lint_set_spec(set, config, t), diag_lt()),
        lint_set_spec(set, config, t).to_multiset() == (skills_reports(set.skills@, config, t, set.skills@.len())
            + set_reports(set, config, 3) + error_reports(set.errors@, config, set.errors@.len())).to_multiset(),
        lint_set_spec(set, config, t).filter(ties(diag_lt(), z)) == (skills_reports(
            set.skills@,
            config,
            t,
            set.skills@.len(),
        ) + set_reports(set, config, 3) + error_reports(set.errors@, config, set.errors@.len())).filter(
            ties(diag_lt(), z),
        ),
{
    let all = skills_reports(set.skills@, config, t, set.skills@.len()) + set_reports(set, config, 3)
        + error_reports(set.errors@, config, set.errors@.len());
    lemma_diag_lt_weak_order();
    lemma_isort_sorted(all, diag_lt());
    lemma_isort_permutation(all, diag_lt());
    lemma_isort_stable(all, diag_lt(), z);
}

/// A rule disabled by its code or its name reports nothing: no diagnostic
/// of a skill's lint report carries its code.
pub proof fn disabled_rule_reports_nothing(skill: Skill, config: LintConfig, t: Tokenizer, k: SkillRuleKind, d: DiagnosticView)
    requires
        !rule_enabled(config, skill_rule_code(k), skill_rule_name(k)),
        lint_skill_spec(skill, config, t).contains(d),
    ensures
        d.code != skill_rule_code(k),
{
    broadcast use vstd::seq_lib::group_to_multiset_ensures;

    lint_skill_is_sorted_complete_and_stable(skill, config, t, d);
    let all = skill_reports(skill, config, t, 17);
    assert(lint_skill_spec(skill, config, t).to_multiset().count(d) > 0);
    assert(all.contains(d));
    lemma_reports_member(skill, config, t, 17, d);
    let m = choose|m: int| 0 <= m < 17 && #[trigger] skill_rule_report(registered_skill_rules()[m], skill, config, t).contains(d);
    let km = registered_skill_rules()[m];
    lemma_report_shape(km, skill, config, t, d);
    lemma_codes_distinct(km, k);
}

/// Every diagnostic a rule contributes to a skill's lint report is at the
/// rule's resolved severity: overridden by code, else by name, else the
/// default.
pub proof fn reported_severity_is_resolved(skill: Skill, config: LintConfig, t: Tokenizer, k: SkillRuleKind, d: DiagnosticView)
    requires
        lint_skill_spec(skill, config, t).contains(d),
        d.code == skill_rule_code(k),
    ensures
        d.severity == resolved_severity(config, skill_rule_code(k), skill_rule_name(k), skill_rule_severity(k)),
{
    broadcast use vstd::seq_lib::group_to_multiset_ensures;

    lint_skill_is_sorted_complete_and_stable(skill, config, t, d);
    let all = skill_reports(skill, config, t, 17);
    assert(lint_skill_spec(skill, config, t).to_multiset().count(d) > 0);
    assert(all.contains(d));
    lemma_reports_member(skill, config, t, 17, d);
    let m = choose|m: int| 0 <= m < 17 && #[trigger] skill_rule_report(registered_skill_rules()[m], skill, config, t).contains(d);
    let km = registered_skill_rules()[m];
    lemma_report_shape(km, skill, config, t, d);
    lemma_codes_distinct(km, k);
}

/// Where a registered rule's metadata comes from: a single-skill rule, a
/// cross-skill rule, or the parse-failure pseudo-rule.
proof fn lemma_meta_origin(x: MetaView)
    requires
        registered_meta().contains(x),
    ensures
        (exists|k: SkillRuleKind| x == #[trigger] skill_meta(k)) || (exists|k: SetRuleKind| x
            == #[trigger] set_meta(k)) || x == parse_error_meta(),
{
    let a = registered_skill_rules().map_values(|k: SkillRuleKind| skill_meta(k));
    let b = registered_set_rules().map_values(|k: SetRuleKind| set_meta(k));
    let i = choose|i: int| 0 <= i < registered_meta().len() && registered_meta()[i] == x;
    assert(registered_meta() == a + b + seq![parse_error_meta()]);
    if i < a.len() {
        assert(x == skill_meta(registered_skill_rules()[i]));
    } else if i < a.len() + b.len() {
        assert(x == set_meta(registered_set_rules()[i - a.len()]));
    } else {
        assert(x == parse_error_meta());
    }
}

proof fn lemma_code_literals()
    ensures
        forall|k: SkillRuleKind| #![trigger skill_rule_code(k)] skill_rule_code(k).len() == 5 && skill_rule_code(k)[0] == 'S',
        forall|k: SetRuleKind| #![trigger set_rule_code(k)] set_rule_code(k).len() == 5 && set_rule_code(k)[0] == 'S'
            && set_rule_code(k)[2] == '4',
        forall|k: SkillRuleKind| #![trigger skill_rule_code(k)] skill_rule_code(k)[2] != '4',
        forall|k: SkillRuleKind| #[trigger] skill_rule_code(k) != "SL003"@,
        forall|k: SetRuleKind| #[trigger] set_rule_code(k) != "SL003"@,
        forall|a: SetRuleKind, b: SetRuleKind| #[trigger] set_rule_code(a) == #[trigger] set_rule_code(b) ==> a == b,
        "SL003"@.len() == 5 && "SL003"@[0] == 'S',
{
    reveal_strlit("SL001");
    reveal_strlit("SL002");
    reveal_strlit("SL004");
    reveal_strlit("SL005");
    reveal_strlit("SL101");
    reveal_strlit("SL102");
    reveal_strlit("SL103");
    reveal_strlit("SL104");
    reveal_strlit("SL105");
    reveal_strlit("SL201");
    reveal_strlit("SL203");
    reveal_strlit("SL204");
    reveal_strlit("SL205");
    reveal_strlit("SL206");
    reveal_strlit("SL301");
    reveal_strlit("SL302");
    reveal_strlit("SL303");
    reveal_strlit("SL401");
    reveal_strlit("SL402");
    reveal_strlit("SL403");
    reveal_strlit("SL003");
    assert forall|a: SetRuleKind, b: SetRuleKind| #[trigger] set_rule_code(a) == #[trigger] set_rule_code(b) implies a == b by {
        assert(set_rule_code(a)[4] == set_rule_code(b)[4]);
    }
    assert forall|k: SkillRuleKind| #[trigger] skill_rule_code(k) != "SL003"@ by {
        if skill_rule_code(k) == "SL003"@ {
            assert(skill_rule_code(k)[2] == "SL003"@[2] && skill_rule_code(k)[4] == "SL003"@[4]);
        }
    }
    assert forall|k: SetRuleKind| #[trigger] set_rule_code(k) != "SL003"@ by {
        if set_rule_code(k) == "SL003"@ {
            assert(set_rule_code(k)[2] == "SL003"@[2]);
        }
    }
}

proof fn lemma_name_literals()
    ensures
        forall|k: SkillRuleKind| #![trigger skill_rule_name(k)] skill_rule_name(k).len() > 0 && skill_rule_name(k)[0] != 'S',
        forall|k: SetRuleKind| #![trigger set_rule_name(k)] set_rule_name(k).len() > 0 && set_rule_name(k)[0] != 'S',
        "malformed-frontmatter"@.len() > 0 && "malformed-frontmatter"@[0] != 'S',
{
    reveal_strlit("missing-description");
    reveal_strlit("missing-name");
    reveal_strlit("name-mismatch");
    reveal_strlit("invalid-name-format");
    reveal_strlit("empty-body");
    reveal_strlit("missing-h1");
    reveal_strlit("heading-skip");
    reveal_strlit("broken-file-reference");
    reveal_strlit("setext-heading");
    reveal_strlit("description-too-short");
    reveal_strlit("missing-trigger-phrase");
    reveal_strlit("first-person-description");
    reveal_strlit("description-restates-name");
    reveal_strlit("no-negative-guidance");
    reveal_strlit("description-tokens-over-budget");
    reveal_strlit("body-tokens-over-budget");
    reveal_strlit("companion-file-bloat");
    reveal_strlit("duplicate-skill-name");
    reveal_strlit("similar-description");
    reveal_strlit("overlapping-trigger-phrasing");
    reveal_strlit("malformed-frontmatter");
}

/// Rule codes are never shared: two registered rules (`SL003` included)
/// with the same code are the same rule, and no rule's code is any rule's
/// name.
pub proof fn rule_codes_are_unique(x: MetaView, y: MetaView)
    requires
        registered_meta().contains(x),
        registered_meta().contains(y),
    ensures
        x.code == y.code ==> x == y,
        x.code != y.name,
{
    lemma_meta_origin(x);
    lemma_meta_origin(y);
    lemma_code_literals();
    lemma_name_literals();
    if x.code == y.code {
        if exists|k: SkillRuleKind| x == #[trigger] skill_meta(k) {
            let kx = choose|k: SkillRuleKind| x == #[trigger] skill_meta(k);
            if exists|k: SkillRuleKind| y == #[trigger] skill_meta(k) {
                let ky = choose|k: SkillRuleKind| y == #[trigger] skill_meta(k);
                lemma_codes_distinct(kx, ky);
            } else if exists|k: SetRuleKind| y == #[trigger] set_meta(k) {
                let ky = choose|k: SetRuleKind| y == #[trigger] set_meta(k);
                assert(skill_rule_code(kx)[2] == set_rule_code(ky)[2]);
            }
        } else if exists|k: SetRuleKind| x == #[trigger] set_meta(k) {
            let kx = choose|k: SetRuleKind| x == #[trigger] set_meta(k);
            if exists|k: SkillRuleKind| y == #[trigger] skill_meta(k) {
                let ky = choose|k: SkillRuleKind| y == #[trigger] skill_meta(k);
                assert(skill_rule_code(ky)[2] == set_rule_code(kx)[2]);
            } else if exists|k: SetRuleKind| y == #[trigger] set_meta(k) {
                let ky = choose|k: SetRuleKind| y == #[trigger] set_meta(k);
                assert(set_rule_code(kx) == set_rule_code(ky));
            }
        }
    }
    if exists|k: SkillRuleKind| y == #[trigger] skill_meta(k) {
        let ky = choose|k: SkillRuleKind| y == #[trigger] skill_meta(k);
        assert(skill_rule_name(ky)[0] != 'S');
    } else if exists|k: SetRuleKind| y == #[trigger] set_meta(k) {
        let ky = choose|k: SetRuleKind| y == #[trigger] set_meta(k);
        assert(set_rule_name(ky)[0] != 'S');
    }
    if exists|k: SkillRuleKind| x == #[trigger] skill_meta(k) {
        let kx = choose|k: SkillRuleKind| x == #[trigger] skill_meta(k);
        assert(skill_rule_code(kx)[0] == 'S');
    } else if exists|k: SetRuleKind| x == #[trigger] set_meta(k) {
        let kx = choose|k: SetRuleKind| x == #[trigger] set_meta(k);
        assert(set_rule_code(kx)[0] == 'S');
    }
    assert(x.code[0] != y.name[0]);
}


/// The retired code `SL202` belongs to no registered rule.
pub proof fn retired_code_is_not_registered(x: MetaView)
    requires
        registered_meta().contains(x),
    ensures
        x.code != "SL202"@,
{
    lemma_meta_origin(x);
    lemma_code_literals();
    reveal_strlit("SL202");
    if exists|k: SkillRuleKind| x == #[trigger] skill_meta(k) {
        let k = choose|k: SkillRuleKind| x == #[trigger] skill_meta(k);
        if x.code == "SL202"@ {
            assert(skill_rule_code(k)[2] == '2' && skill_rule_code(k)[4] == '2');
            assert(false) by {
                reveal_strlit("SL201");
                reveal_strlit("SL203");
                reveal_strlit("SL204");
                reveal_strlit("SL205");
                reveal_strlit("SL206");
                reveal_strlit("SL001");
                reveal_strlit("SL002");
                reveal_strlit("SL004");
                reveal_strlit("SL005");
                reveal_strlit("SL101");
                reveal_strlit("SL102");
                reveal_strlit("SL103");
                reveal_strlit("SL104");
                reveal_strlit("SL105");
                reveal_strlit("SL301");
                reveal_strlit("SL302");
                reveal_strlit("SL303");
            }
        }
    } else if exists|k: SetRuleKind| x == #[trigger] set_meta(k) {
        let k = choose|k: SetRuleKind| x == #[trigger] set_meta(k);
        if x.code == "SL202"@ {
            assert(set_rule_code(k)[2] == "SL202"@[2]);
        }
    } else {
        reveal_strlit("SL003");
        assert(x.code[4] != "SL202"@[4]);
    }
}

} // verus!
