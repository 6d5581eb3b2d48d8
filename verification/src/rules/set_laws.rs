//! What linting a whole set promises about switching rules off and
//! overriding their severity: a rule disabled by its code or its name
//! reports nothing anywhere in the set's report, and every finding is at
//! its rule's resolved severity, whether per skill, across skills, or for
//! a file that failed to parse.

use vstd::prelude::*;
use crate::diagnostic::{AdeptError, DiagnosticView, Skill, SkillSet};
use crate::ratio::Ratio;
use crate::token::Tokenizer;
use super::{
    error_reports, lint_set_spec, lint_skill_spec, parse_error_report, parse_error_rule_name,
    parse_error_spec, registered_meta, registered_set_rules, registered_skill_rules, rule_enabled,
    set_meta, set_reports, set_rule_code, set_rule_finds, set_rule_name, set_rule_report,
    skill_meta, skill_reports, skill_rule_code, skill_rule_name, skill_rule_report, skills_reports,
    with_severity, parse_error_meta, resolved_severity, LintConfig, MetaView, SetRuleKind,
    SkillRuleKind,
};
use super::cross::{
    duplicate_name_finding, duplicate_names_upto, pair_finds, row_finds, similarity_code,
    table_finds, Similarity,
};
use super::laws::{
    all_coded, lemma_coded_concat, lemma_report_shape, lemma_reports_member,
    lint_skill_is_sorted_complete_and_stable, rule_codes_are_unique,
};

verus! {

proof fn lemma_dups_coded(skills: Seq<Skill>, k: nat)
    ensures
        all_coded(duplicate_names_upto(skills, k), "SL401"@),
    decreases k,
{
    if k > 0 {
        lemma_dups_coded(skills, (k - 1) as nat);
        lemma_coded_concat(
            duplicate_names_upto(skills, (k - 1) as nat),
            duplicate_name_finding(skills, k - 1),
            "SL401"@,
        );
    }
}

proof fn lemma_rows_coded(
    k: Similarity,
    skills: Seq<Skill>,
    bags: Seq<Seq<Seq<char>>>,
    threshold: Ratio,
    i: int,
    m: nat,
)
    ensures
        all_coded(row_finds(k, skills, bags, threshold, i, m), similarity_code(k)),
    decreases m,
{
    if !(m == 0 || m <= i + 1) {
        lemma_rows_coded(k, skills, bags, threshold, i, (m - 1) as nat);
        lemma_coded_concat(
            row_finds(k, skills, bags, threshold, i, (m - 1) as nat),
            pair_finds(k, skills, bags, threshold, i, m - 1),
            similarity_code(k),
        );
    }
}

proof fn lemma_table_coded(k: Similarity, skills: Seq<Skill>, bags: Seq<Seq<Seq<char>>>, threshold: Ratio, n: nat)
    ensures
        all_coded(table_finds(k, skills, bags, threshold, n), similarity_code(k)),
    decreases n,
{
    if n > 0 {
        lemma_table_coded(k, skills, bags, threshold, (n - 1) as nat);
        lemma_rows_coded(k, skills, bags, threshold, n - 1, skills.len());
        lemma_coded_concat(
            table_finds(k, skills, bags, threshold, (n - 1) as nat),
            row_finds(k, skills, bags, threshold, n - 1, skills.len()),
            similarity_code(k),
        );
    }
}

/// Each cross-skill rule reports only diagnostics with its own code.
proof fn lemma_set_rule_codes(k: SetRuleKind, set: SkillSet, config: LintConfig)
    ensures
        all_coded(set_rule_finds(k, set, config), set_rule_code(k)),
{
    let skills = set.skills@;
    match k {
        SetRuleKind::DuplicateSkillName => {
            lemma_dups_coded(skills, skills.len());
        },
        SetRuleKind::SimilarDescription => {
            lemma_table_coded(
                Similarity::Words,
                skills,
                skills.map_values(|s: Skill| super::cross::word_set(s)),
                config.similar_description_threshold,
                skills.len(),
            );
        },
        SetRuleKind::OverlappingTriggerPhrasing => {
            lemma_table_coded(
                Similarity::Bigrams,
                skills,
                skills.map_values(|s: Skill| super::cross::shingle_set(s.frontmatter.description@)),
                config.trigger_overlap_threshold,
                skills.len(),
            );
        },
    }
}

/// Every single-skill rule's metadata is registered.
proof fn lemma_skill_meta_registered(k: SkillRuleKind)
    ensures
        registered_meta().contains(skill_meta(k)),
{
    let rs = registered_skill_rules();
    let a = rs.map_values(|k: SkillRuleKind| skill_meta(k));
    let i: int = match k {
        SkillRuleKind::MissingDescription => 0,
        SkillRuleKind::MissingName => 1,
        SkillRuleKind::NameMismatch => 2,
        SkillRuleKind::InvalidNameFormat => 3,
        SkillRuleKind::EmptyBody => 4,
        SkillRuleKind::MissingH1 => 5,
        SkillRuleKind::HeadingLevelSkip => 6,
        SkillRuleKind::BrokenFileReference => 7,
        SkillRuleKind::SetextHeading => 8,
        SkillRuleKind::TooShort => 9,
        SkillRuleKind::MissingTriggerPhrase => 10,
        SkillRuleKind::FirstPerson => 11,
        SkillRuleKind::RestatesName => 12,
        SkillRuleKind::NoNegativeGuidance => 13,
        SkillRuleKind::DescriptionTokenBudget => 14,
        SkillRuleKind::BodyTokenBudget => 15,
        SkillRuleKind::CompanionFileBloat => 16,
    };
    assert(rs[i] == k);
    assert(a[i] == skill_meta(k));
    assert(registered_meta()[i] == skill_meta(k));
}

/// Every cross-skill rule's metadata is registered.
proof fn lemma_set_meta_registered(k: SetRuleKind)
    ensures
        registered_meta().contains(set_meta(k)),
{
    let rs = registered_set_rules();
    let i: int = match k {
        SetRuleKind::DuplicateSkillName => 0,
        SetRuleKind::SimilarDescription => 1,
        SetRuleKind::OverlappingTriggerPhrasing => 2,
    };
    assert(rs[i] == k);
    let a = registered_skill_rules().map_values(|k: SkillRuleKind| skill_meta(k));
    assert(registered_meta()[a.len() + i] == set_meta(k));
}

/// A diagnostic of a skill's lint report comes from an enabled rule and
/// carries that rule's code.
proof fn lemma_skill_finding_origin(skill: Skill, config: LintConfig, t: Tokenizer, d: DiagnosticView)
    requires
        lint_skill_spec(skill, config, t).contains(d),
    ensures
        exists|x: MetaView|
            registered_meta().contains(x) && x.code == d.code && #[trigger] rule_enabled(config, x.code, x.name)
                && d.severity == resolved_severity(config, x.code, x.name, x.severity),
{
    broadcast use vstd::seq_lib::group_to_multiset_ensures;

    lint_skill_is_sorted_complete_and_stable(skill, config, t, d);
    let all = skill_reports(skill, config, t, 17);
    assert(lint_skill_spec(skill, config, t).to_multiset().count(d) > 0);
    assert(all.contains(d));
    lemma_reports_member(skill, config, t, 17, d);
    let m = choose|m: int| 0 <= m < 17 && #[trigger] skill_rule_report(registered_skill_rules()[m], skill, config, t).contains(d);
    let km = registered_skill_rules()[m];
    lemma_report_shape(km, skill, config, t, d);
    lemma_skill_meta_registered(km);
    let x = skill_meta(km);
    assert(rule_enabled(config, x.code, x.name));
    assert(d.severity == resolved_severity(config, x.code, x.name, x.severity));
}

proof fn lemma_skills_member(skills: Seq<Skill>, config: LintConfig, t: Tokenizer, n: nat, d: DiagnosticView)
    requires
        n <= skills.len(),
        skills_reports(skills, config, t, n).contains(d),
    ensures
        exists|i: int| 0 <= i < n && #[trigger] lint_skill_spec(skills[i], config, t).contains(d),
    decreases n,
{
    let prev = skills_reports(skills, config, t, (n - 1) as nat);
    let last = lint_skill_spec(skills[n - 1], config, t);
    let i = choose|i: int| 0 <= i < (prev + last).len() && (prev + last)[i] == d;
    if i < prev.len() {
        assert(prev[i] == d);
        lemma_skills_member(skills, config, t, (n - 1) as nat, d);
    } else {
        assert(last[i - prev.len()] == d);
        assert(lint_skill_spec(skills[n - 1], config, t).contains(d));
    }
}

proof fn lemma_set_member(set: SkillSet, config: LintConfig, n: nat, d: DiagnosticView)
    requires
        n <= 3,
        set_reports(set, config, n).contains(d),
    ensures
        exists|i: int| 0 <= i < n && #[trigger] set_rule_report(registered_set_rules()[i], set, config).contains(d),
    decreases n,
{
    let prev = set_reports(set, config, (n - 1) as nat);
    let last = set_rule_report(registered_set_rules()[n - 1], set, config);
    let i = choose|i: int| 0 <= i < (prev + last).len() && (prev + last)[i] == d;
    if i < prev.len() {
        assert(prev[i] == d);
        lemma_set_member(set, config, (n - 1) as nat, d);
    } else {
        assert(last[i - prev.len()] == d);
        assert(set_rule_report(registered_set_rules()[n - 1], set, config).contains(d));
    }
}

/// A diagnostic of a cross-skill report comes from an enabled rule and
/// carries that rule's code.
proof fn lemma_set_finding_origin(set: SkillSet, config: LintConfig, d: DiagnosticView)
    requires
        set_reports(set, config, 3).contains(d),
    ensures
        exists|x: MetaView|
            registered_meta().contains(x) && x.code == d.code && #[trigger] rule_enabled(config, x.code, x.name)
                && d.severity == resolved_severity(config, x.code, x.name, x.severity),
{
    lemma_set_member(set, config, 3, d);
    let i = choose|i: int| 0 <= i < 3 && #[trigger] set_rule_report(registered_set_rules()[i], set, config).contains(d);
    let k = registered_set_rules()[i];
    let r = set_rule_report(k, set, config);
    let j = choose|j: int| 0 <= j < r.len() && r[j] == d;
    lemma_set_rule_codes(k, set, config);
    let ds = set_rule_finds(k, set, config);
    assert(rule_enabled(config, set_rule_code(k), set_rule_name(k)));
    let s = resolved_severity(config, set_rule_code(k), set_rule_name(k), super::set_rule_severity(k));
    assert(r == with_severity(ds, s));
    assert(d.code == ds[j].code);
    lemma_set_meta_registered(k);
    let x = set_meta(k);
    assert(rule_enabled(config, x.code, x.name));
    assert(d == DiagnosticView { severity: s, ..ds[j] });
    assert(d.severity == resolved_severity(config, x.code, x.name, x.severity));
}

proof fn lemma_errors_member(errors: Seq<(String, AdeptError)>, config: LintConfig, n: nat, d: DiagnosticView)
    requires
        n <= errors.len(),
        error_reports(errors, config, n).contains(d),
    ensures
        exists|i: int| 0 <= i < n && #[trigger] parse_error_report(errors[i].0@, errors[i].1, config).contains(d),
    decreases n,
{
    let prev = error_reports(errors, config, (n - 1) as nat);
    let last = parse_error_report(errors[n - 1].0@, errors[n - 1].1, config);
    let i = choose|i: int| 0 <= i < (prev + last).len() && (prev + last)[i] == d;
    if i < prev.len() {
        assert(prev[i] == d);
        lemma_errors_member(errors, config, (n - 1) as nat, d);
    } else {
        assert(last[i - prev.len()] == d);
        assert(parse_error_report(errors[n - 1].0@, errors[n - 1].1, config).contains(d));
    }
}

/// The rule a parse failure is reported under is a registered rule, with
/// the failure's code and name.
proof fn lemma_parse_error_rule(path: Seq<char>, err: AdeptError)
    requires
        parse_error_spec(path, err) is Some,
    ensures
        exists|x: MetaView|
            registered_meta().contains(x) && x.code == parse_error_spec(path, err).unwrap().code && #[trigger] x.name
                == parse_error_rule_name(err) && x.severity == parse_error_spec(path, err).unwrap().severity,
{
    match err {
        AdeptError::MissingField { field, .. } => {
            if field@ == "description"@ {
                lemma_skill_meta_registered(SkillRuleKind::MissingDescription);
                let x = skill_meta(SkillRuleKind::MissingDescription);
                assert(x.name == parse_error_rule_name(err));
            } else {
                lemma_skill_meta_registered(SkillRuleKind::MissingName);
                let x = skill_meta(SkillRuleKind::MissingName);
                assert(x.name == parse_error_rule_name(err));
            }
        },
        _ => {
            let a = registered_skill_rules().map_values(|k: SkillRuleKind| skill_meta(k));
            let b = registered_set_rules().map_values(|k: SetRuleKind| set_meta(k));
            assert(registered_meta()[(a.len() + b.len()) as int] == parse_error_meta());
            let x = parse_error_meta();
            assert(x.name == parse_error_rule_name(err));
        },
    }
}

/// A diagnostic reported for a parse failure comes from an enabled rule
/// and carries that rule's code.
proof fn lemma_error_finding_origin(errors: Seq<(String, AdeptError)>, config: LintConfig, d: DiagnosticView)
    requires
        error_reports(errors, config, errors.len()).contains(d),
    ensures
        exists|x: MetaView|
            registered_meta().contains(x) && x.code == d.code && #[trigger] rule_enabled(config, x.code, x.name)
                && d.severity == resolved_severity(config, x.code, x.name, x.severity),
{
    lemma_errors_member(errors, config, errors.len(), d);
    let i = choose|i: int| 0 <= i < errors.len() && #[trigger] parse_error_report(errors[i].0@, errors[i].1, config).contains(d);
    let (path, err) = (errors[i].0@, errors[i].1);
    let dd = parse_error_spec(path, err).unwrap();
    assert(parse_error_report(path, err, config).len() == 1);
    assert(d.code == dd.code);
    assert(rule_enabled(config, dd.code, parse_error_rule_name(err)));
    lemma_parse_error_rule(path, err);
    let x = choose|x: MetaView|
        registered_meta().contains(x) && x.code == dd.code && #[trigger] x.name == parse_error_rule_name(err)
            && x.severity == dd.severity;
    assert(rule_enabled(config, x.code, x.name));
    assert(d.severity == resolved_severity(config, dd.code, parse_error_rule_name(err), dd.severity));
}

/// A diagnostic of a set's lint report comes from an enabled registered
/// rule, carries its code, and is at its resolved severity.
proof fn lemma_set_report_origin(set: SkillSet, config: LintConfig, t: Tokenizer, d: DiagnosticView)
    requires
        lint_set_spec(set, config, t).contains(d),
    ensures
        exists|x: MetaView|
            registered_meta().contains(x) && x.code == d.code && #[trigger] rule_enabled(config, x.code, x.name)
                && d.severity == resolved_severity(config, x.code, x.name, x.severity),
{
    broadcast use vstd::seq_lib::group_to_multiset_ensures;

    let a = skills_reports(set.skills@, config, t, set.skills@.len());
    let b = set_reports(set, config, 3);
    let c = error_reports(set.errors@, config, set.errors@.len());
    super::laws::lint_set_is_sorted_complete_and_stable(set, config, t, d);
    assert(lint_set_spec(set, config, t).to_multiset().count(d) > 0);
    assert((a + b + c).contains(d));
    let i = choose|i: int| 0 <= i < (a + b + c).len() && (a + b + c)[i] == d;
    if i < a.len() {
        assert(a[i] == d);
        lemma_skills_member(set.skills@, config, t, set.skills@.len(), d);
        let j = choose|j: int| 0 <= j < set.skills@.len() && #[trigger] lint_skill_spec(set.skills@[j], config, t).contains(d);
        lemma_skill_finding_origin(set.skills@[j], config, t, d);
    } else if i < a.len() + b.len() {
        assert(b[i - a.len()] == d);
        lemma_set_finding_origin(set, config, d);
    } else {
        assert(c[i - a.len() - b.len()] == d);
        lemma_error_finding_origin(set.errors@, config, d);
    }
}

/// A rule switched off by its code or its name (`SL003` included) reports
/// nothing anywhere in a set's lint report: no diagnostic carries its code.
pub proof fn disabled_rule_is_silent_in_a_set(
    set: SkillSet,
    config: LintConfig,
    t: Tokenizer,
    m: MetaView,
    d: DiagnosticView,
)
    requires
        registered_meta().contains(m),
        !rule_enabled(config, m.code, m.name),
        lint_set_spec(set, config, t).contains(d),
    ensures
        d.code != m.code,
{
    lemma_set_report_origin(set, config, t, d);
    let x = choose|x: MetaView|
        registered_meta().contains(x) && x.code == d.code && #[trigger] rule_enabled(config, x.code, x.name)
            && d.severity == resolved_severity(config, x.code, x.name, x.severity);
    rule_codes_are_unique(x, m);
}

/// Every diagnostic of a set's lint report, parse failures included, is at
/// its rule's resolved severity: overridden by code, else by name, else
/// the rule's default.
pub proof fn set_severity_is_resolved(set: SkillSet, config: LintConfig, t: Tokenizer, m: MetaView, d: DiagnosticView)
    requires
        registered_meta().contains(m),
        lint_set_spec(set, config, t).contains(d),
        d.code == m.code,
    ensures
        d.severity == resolved_severity(config, m.code, m.name, m.severity),
{
    lemma_set_report_origin(set, config, t, d);
    let x = choose|x: MetaView|
        registered_meta().contains(x) && x.code == d.code && #[trigger] rule_enabled(config, x.code, x.name)
            && d.severity == resolved_severity(config, x.code, x.name, x.severity);
    rule_codes_are_unique(x, m);
}

} // verus!
