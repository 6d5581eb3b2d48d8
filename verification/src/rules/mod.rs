//! The rule engine: [`Rule`], [`SkillRule`], [`SetRule`], [`LintConfig`],
//! [`Registry`] and [`Linter`].
//!
//! A [`SkillRule`] checks one [`Skill`] on its own; a [`SetRule`] checks a
//! whole [`SkillSet`] for conflicts between skills. Both share the
//! [`Rule`] metadata: a stable code, a kebab-case name, a default severity.

pub mod frontmatter;
pub mod description;
pub mod tokens;
pub mod cross;
pub mod links;
pub mod structure;
pub mod sort;
pub mod laws;
pub mod set_laws;
pub mod rule_laws;

use vstd::prelude::*;
use crate::chars::{blank, chars_of, is_blank, push_str};
use crate::diagnostic::{
    diag_spec, diag_views, owned, AdeptError, Diagnostic, DiagnosticView, Severity, Skill, SkillSet,
};
use crate::order::{chars_before, text_lt};
use crate::sorting::{isort, lemma_insert_at};
use crate::text::{contains_word, views};
use crate::ratio::Ratio;
use crate::token::{tables_load, TokenCounter, Tokenizer};
use self::cross::{duplicate_name_finds, overlapping_trigger_finds, similar_description_finds};
use self::description::{
    first_person_finds, missing_trigger_phrase_finds, no_negative_guidance_finds, restates_name_finds,
    too_short_finds,
};
use self::frontmatter::{
    invalid_name_format_finds, missing_description_finds, missing_name_finds, name_mismatch_finds,
};
use self::sort::{diag_lt, sort_diagnostics};
use self::structure::{
    broken_reference_finds, empty_body_finds, heading_skip_finds, missing_h1_finds, setext_finds,
};
use self::tokens::{body_budget_finds, companion_bloat_finds, description_budget_finds};

verus! {

/// The metadata every rule has.
pub trait Rule {
    /// The stable rule code, e.g. `"SL001"`.
    fn code(&self) -> &'static str;

    /// The kebab-case rule name, e.g. `"missing-description"`.
    fn name(&self) -> &'static str;

    /// The severity the rule reports at unless [`LintConfig`] overrides it.
    fn default_severity(&self) -> Severity;
}

/// A rule that checks one skill on its own.
pub trait SkillRule: Rule {
    /// The diagnostics `skill` earns under this rule, at the rule's default
    /// severity (the [`Linter`] applies overrides afterwards).
    fn check(&self, skill: &Skill, config: &LintConfig, tokens: &TokenCounter) -> Vec<Diagnostic>;
}

/// A rule that checks a whole set of skills for conflicts between them.
pub trait SetRule: Rule {
    /// The diagnostics `set` earns under this rule.
    fn check(&self, set: &SkillSet, config: &LintConfig, tokens: &TokenCounter) -> Vec<Diagnostic>;
}

/// How headings are written. ATX (`# Title`) is the only style; the type
/// exists so a configuration can state it.
#[derive(Clone, Copy, Debug, PartialEq, Eq, Structural)]
pub enum HeadingStyle {
    Atx,
}

/// Per-rule switches and the thresholds the rules use.
///
/// The two similarity thresholds are exact ratios (`3/5` is `0.6`).
#[derive(Clone, Debug)]
pub struct LintConfig {
    /// Rule codes or kebab-case names switched off (exact, case-sensitive).
    pub disabled: Vec<String>,
    /// Per-rule severity overrides keyed by rule code or kebab-case name;
    /// the first entry for a key counts.
    pub severity_overrides: Vec<(String, Severity)>,
    /// Fewest tokens a description may have (`SL201`).
    pub description_min_tokens: usize,
    /// Most tokens a description may have (`SL301`).
    pub description_max_tokens: usize,
    /// Most tokens the SKILL.md body may have (`SL302`).
    pub body_max_tokens: usize,
    /// Most tokens one companion file may have (`SL303`).
    pub companion_file_max_tokens: usize,
    /// Word-level Jaccard similarity from which two descriptions are
    /// flagged as similar (`SL402`).
    pub similar_description_threshold: Ratio,
    /// Bigram-shingle Jaccard similarity from which two descriptions are
    /// flagged as competing (`SL403`).
    pub trigger_overlap_threshold: Ratio,
    /// Which BPE encoding tokens are counted with.
    pub tokenizer: Tokenizer,
    /// The heading style the body is held to (`SL105`).
    pub heading_style: HeadingStyle,
}

impl Default for LintConfig {
    fn default() -> (c: LintConfig)
        ensures
            c.disabled@.len() == 0,
            c.severity_overrides@.len() == 0,
            c.description_min_tokens == 6,
            c.description_max_tokens == 75,
            c.body_max_tokens == 1500,
            c.companion_file_max_tokens == 2000,
            c.similar_description_threshold == (Ratio { num: 3, den: 5 }),
            c.trigger_overlap_threshold == (Ratio { num: 1, den: 2 }),
            c.tokenizer == Tokenizer::O200kBase,
            c.heading_style == HeadingStyle::Atx,
    {
        LintConfig {
            disabled: Vec::new(),
            severity_overrides: Vec::new(),
            description_min_tokens: 6,
            description_max_tokens: 75,
            body_max_tokens: 1500,
            companion_file_max_tokens: 2000,
            similar_description_threshold: Ratio { num: 3, den: 5 },
            trigger_overlap_threshold: Ratio { num: 1, den: 2 },
            tokenizer: Tokenizer::O200kBase,
            heading_style: HeadingStyle::Atx,
        }
    }
}

/// Whether `s` is empty or whitespace only (`s.trim().is_empty()`).
pub fn blank_str(s: &str) -> (r: bool)
    ensures
        r == is_blank(s@),
{
    let cs = chars_of(s);
    blank(&cs)
}

/// A diagnostic at column 1 with a fix suggestion.
pub fn finding(
    code: &str,
    message: String,
    severity: Severity,
    path: &str,
    line: usize,
    fix: String,
) -> (d: Diagnostic)
    ensures
        d@ == diag_spec(code@, message@, severity, path@, line as nat, Some(fix@)),
{
    Diagnostic::new(code, message, severity, path, line, 1).with_fix_suggestion(fix)
}

/// The registered single-skill rules.
#[derive(Clone, Copy, Debug, PartialEq, Eq, Structural)]
pub enum SkillRuleKind {
    MissingDescription,
    MissingName,
    NameMismatch,
    InvalidNameFormat,
    EmptyBody,
    MissingH1,
    HeadingLevelSkip,
    BrokenFileReference,
    SetextHeading,
    TooShort,
    MissingTriggerPhrase,
    FirstPerson,
    RestatesName,
    NoNegativeGuidance,
    DescriptionTokenBudget,
    BodyTokenBudget,
    CompanionFileBloat,
}

/// The registered cross-skill rules.
#[derive(Clone, Copy, Debug, PartialEq, Eq, Structural)]
pub enum SetRuleKind {
    DuplicateSkillName,
    SimilarDescription,
    OverlappingTriggerPhrasing,
}

pub open spec fn skill_rule_code(k: SkillRuleKind) -> Seq<char> {
    match k {
        SkillRuleKind::MissingDescription => "SL001"@,
        SkillRuleKind::MissingName => "SL002"@,
        SkillRuleKind::NameMismatch => "SL004"@,
        SkillRuleKind::InvalidNameFormat => "SL005"@,
        SkillRuleKind::EmptyBody => "SL101"@,
        SkillRuleKind::MissingH1 => "SL102"@,
        SkillRuleKind::HeadingLevelSkip => "SL103"@,
        SkillRuleKind::BrokenFileReference => "SL104"@,
        SkillRuleKind::SetextHeading => "SL105"@,
        SkillRuleKind::TooShort => "SL201"@,
        SkillRuleKind::MissingTriggerPhrase => "SL203"@,
        SkillRuleKind::FirstPerson => "SL204"@,
        SkillRuleKind::RestatesName => "SL205"@,
        SkillRuleKind::NoNegativeGuidance => "SL206"@,
        SkillRuleKind::DescriptionTokenBudget => "SL301"@,
        SkillRuleKind::BodyTokenBudget => "SL302"@,
        SkillRuleKind::CompanionFileBloat => "SL303"@,
    }
}

pub open spec fn skill_rule_name(k: SkillRuleKind) -> Seq<char> {
    match k {
        SkillRuleKind::MissingDescription => "missing-description"@,
        SkillRuleKind::MissingName => "missing-name"@,
        SkillRuleKind::NameMismatch => "name-mismatch"@,
        SkillRuleKind::InvalidNameFormat => "invalid-name-format"@,
        SkillRuleKind::EmptyBody => "empty-body"@,
        SkillRuleKind::MissingH1 => "missing-h1"@,
        SkillRuleKind::HeadingLevelSkip => "heading-skip"@,
        SkillRuleKind::BrokenFileReference => "broken-file-reference"@,
        SkillRuleKind::SetextHeading => "setext-heading"@,
        SkillRuleKind::TooShort => "description-too-short"@,
        SkillRuleKind::MissingTriggerPhrase => "missing-trigger-phrase"@,
        SkillRuleKind::FirstPerson => "first-person-description"@,
        SkillRuleKind::RestatesName => "description-restates-name"@,
        SkillRuleKind::NoNegativeGuidance => "no-negative-guidance"@,
        SkillRuleKind::DescriptionTokenBudget => "description-tokens-over-budget"@,
        SkillRuleKind::BodyTokenBudget => "body-tokens-over-budget"@,
        SkillRuleKind::CompanionFileBloat => "companion-file-bloat"@,
    }
}

pub open spec fn skill_rule_severity(k: SkillRuleKind) -> Severity {
    match k {
        SkillRuleKind::NameMismatch | SkillRuleKind::MissingH1 | SkillRuleKind::HeadingLevelSkip
        | SkillRuleKind::TooShort | SkillRuleKind::MissingTriggerPhrase | SkillRuleKind::FirstPerson
        | SkillRuleKind::RestatesName | SkillRuleKind::CompanionFileBloat => Severity::Warning,
        SkillRuleKind::NoNegativeGuidance | SkillRuleKind::SetextHeading => Severity::Info,
        _ => Severity::Error,
    }
}

/// What rule `k` finds in `skill`, at its default severity.
pub open spec fn skill_rule_finds(k: SkillRuleKind, skill: Skill, config: LintConfig, t: Tokenizer) -> Seq<
    DiagnosticView,
> {
    match k {
        SkillRuleKind::MissingDescription => missing_description_finds(skill),
        SkillRuleKind::MissingName => missing_name_finds(skill),
        SkillRuleKind::NameMismatch => name_mismatch_finds(skill),
        SkillRuleKind::InvalidNameFormat => invalid_name_format_finds(skill),
        SkillRuleKind::EmptyBody => empty_body_finds(skill),
        SkillRuleKind::MissingH1 => missing_h1_finds(skill),
        SkillRuleKind::HeadingLevelSkip => heading_skip_finds(skill),
        SkillRuleKind::BrokenFileReference => broken_reference_finds(skill),
        SkillRuleKind::SetextHeading => setext_finds(skill, config),
        SkillRuleKind::TooShort => too_short_finds(skill, config, t),
        SkillRuleKind::MissingTriggerPhrase => missing_trigger_phrase_finds(skill),
        SkillRuleKind::FirstPerson => first_person_finds(skill),
        SkillRuleKind::RestatesName => restates_name_finds(skill),
        SkillRuleKind::NoNegativeGuidance => no_negative_guidance_finds(skill),
        SkillRuleKind::DescriptionTokenBudget => description_budget_finds(skill, config, t),
        SkillRuleKind::BodyTokenBudget => body_budget_finds(skill, config, t),
        SkillRuleKind::CompanionFileBloat => companion_bloat_finds(skill, config, t),
    }
}

pub open spec fn set_rule_code(k: SetRuleKind) -> Seq<char> {
    match k {
        SetRuleKind::DuplicateSkillName => "SL401"@,
        SetRuleKind::SimilarDescription => "SL402"@,
        SetRuleKind::OverlappingTriggerPhrasing => "SL403"@,
    }
}

pub open spec fn set_rule_name(k: SetRuleKind) -> Seq<char> {
    match k {
        SetRuleKind::DuplicateSkillName => "duplicate-skill-name"@,
        SetRuleKind::SimilarDescription => "similar-description"@,
        SetRuleKind::OverlappingTriggerPhrasing => "overlapping-trigger-phrasing"@,
    }
}

pub open spec fn set_rule_severity(k: SetRuleKind) -> Severity {
    match k {
        SetRuleKind::DuplicateSkillName => Severity::Error,
        _ => Severity::Warning,
    }
}

/// What cross-skill rule `k` finds in `set`, at its default severity.
pub open spec fn set_rule_finds(k: SetRuleKind, set: SkillSet, config: LintConfig) -> Seq<DiagnosticView> {
    match k {
        SetRuleKind::DuplicateSkillName => duplicate_name_finds(set),
        SetRuleKind::SimilarDescription => similar_description_finds(set, config),
        SetRuleKind::OverlappingTriggerPhrasing => overlapping_trigger_finds(set, config),
    }
}

impl Rule for SkillRuleKind {
    fn code(&self) -> (r: &'static str)
        ensures
            r@ == skill_rule_code(*self),
    {
        match self {
            SkillRuleKind::MissingDescription => frontmatter::MissingDescription.code(),
            SkillRuleKind::MissingName => frontmatter::MissingName.code(),
            SkillRuleKind::NameMismatch => frontmatter::NameMismatch.code(),
            SkillRuleKind::InvalidNameFormat => frontmatter::InvalidNameFormat.code(),
            SkillRuleKind::EmptyBody => structure::EmptyBody.code(),
            SkillRuleKind::MissingH1 => structure::MissingH1.code(),
            SkillRuleKind::HeadingLevelSkip => structure::HeadingLevelSkip.code(),
            SkillRuleKind::BrokenFileReference => structure::BrokenFileReference.code(),
            SkillRuleKind::SetextHeading => structure::SetextHeading.code(),
            SkillRuleKind::TooShort => description::TooShort.code(),
            SkillRuleKind::MissingTriggerPhrase => description::MissingTriggerPhrase.code(),
            SkillRuleKind::FirstPerson => description::FirstPerson.code(),
            SkillRuleKind::RestatesName => description::RestatesName.code(),
            SkillRuleKind::NoNegativeGuidance => description::NoNegativeGuidance.code(),
            SkillRuleKind::DescriptionTokenBudget => tokens::DescriptionTokenBudget.code(),
            SkillRuleKind::BodyTokenBudget => tokens::BodyTokenBudget.code(),
            SkillRuleKind::CompanionFileBloat => tokens::CompanionFileBloat.code(),
        }
    }

    fn name(&self) -> (r: &'static str)
        ensures
            r@ == skill_rule_name(*self),
    {
        match self {
            SkillRuleKind::MissingDescription => frontmatter::MissingDescription.name(),
            SkillRuleKind::MissingName => frontmatter::MissingName.name(),
            SkillRuleKind::NameMismatch => frontmatter::NameMismatch.name(),
            SkillRuleKind::InvalidNameFormat => frontmatter::InvalidNameFormat.name(),
            SkillRuleKind::EmptyBody => structure::EmptyBody.name(),
            SkillRuleKind::MissingH1 => structure::MissingH1.name(),
            SkillRuleKind::HeadingLevelSkip => structure::HeadingLevelSkip.name(),
            SkillRuleKind::BrokenFileReference => structure::BrokenFileReference.name(),
            SkillRuleKind::SetextHeading => structure::SetextHeading.name(),
            SkillRuleKind::TooShort => description::TooShort.name(),
            SkillRuleKind::MissingTriggerPhrase => description::MissingTriggerPhrase.name(),
            SkillRuleKind::FirstPerson => description::FirstPerson.name(),
            SkillRuleKind::RestatesName => description::RestatesName.name(),
            SkillRuleKind::NoNegativeGuidance => description::NoNegativeGuidance.name(),
            SkillRuleKind::DescriptionTokenBudget => tokens::DescriptionTokenBudget.name(),
            SkillRuleKind::BodyTokenBudget => tokens::BodyTokenBudget.name(),
            SkillRuleKind::CompanionFileBloat => tokens::CompanionFileBloat.name(),
        }
    }

    fn default_severity(&self) -> (r: Severity)
        ensures
            r == skill_rule_severity(*self),
    {
        match self {
            SkillRuleKind::MissingDescription => frontmatter::MissingDescription.default_severity(),
            SkillRuleKind::MissingName => frontmatter::MissingName.default_severity(),
            SkillRuleKind::NameMismatch => frontmatter::NameMismatch.default_severity(),
            SkillRuleKind::InvalidNameFormat => frontmatter::InvalidNameFormat.default_severity(),
            SkillRuleKind::EmptyBody => structure::EmptyBody.default_severity(),
            SkillRuleKind::MissingH1 => structure::MissingH1.default_severity(),
            SkillRuleKind::HeadingLevelSkip => structure::HeadingLevelSkip.default_severity(),
            SkillRuleKind::BrokenFileReference => structure::BrokenFileReference.default_severity(),
            SkillRuleKind::SetextHeading => structure::SetextHeading.default_severity(),
            SkillRuleKind::TooShort => description::TooShort.default_severity(),
            SkillRuleKind::MissingTriggerPhrase => description::MissingTriggerPhrase.default_severity(),
            SkillRuleKind::FirstPerson => description::FirstPerson.default_severity(),
            SkillRuleKind::RestatesName => description::RestatesName.default_severity(),
            SkillRuleKind::NoNegativeGuidance => description::NoNegativeGuidance.default_severity(),
            SkillRuleKind::DescriptionTokenBudget => tokens::DescriptionTokenBudget.default_severity(),
            SkillRuleKind::BodyTokenBudget => tokens::BodyTokenBudget.default_severity(),
            SkillRuleKind::CompanionFileBloat => tokens::CompanionFileBloat.default_severity(),
        }
    }
}

impl SkillRule for SkillRuleKind {
    fn check(&self, skill: &Skill, config: &LintConfig, tokens: &TokenCounter) -> (r: Vec<Diagnostic>)
        ensures
            diag_views(r@) == skill_rule_finds(*self, *skill, *config, tokens.spec_tokenizer()),
    {
        match self {
            SkillRuleKind::MissingDescription => frontmatter::MissingDescription.check(skill, config, tokens),
            SkillRuleKind::MissingName => frontmatter::MissingName.check(skill, config, tokens),
            SkillRuleKind::NameMismatch => frontmatter::NameMismatch.check(skill, config, tokens),
            SkillRuleKind::InvalidNameFormat => frontmatter::InvalidNameFormat.check(skill, config, tokens),
            SkillRuleKind::EmptyBody => structure::EmptyBody.check(skill, config, tokens),
            SkillRuleKind::MissingH1 => structure::MissingH1.check(skill, config, tokens),
            SkillRuleKind::HeadingLevelSkip => structure::HeadingLevelSkip.check(skill, config, tokens),
            SkillRuleKind::BrokenFileReference => structure::BrokenFileReference.check(skill, config, tokens),
            SkillRuleKind::SetextHeading => structure::SetextHeading.check(skill, config, tokens),
            SkillRuleKind::TooShort => description::TooShort.check(skill, config, tokens),
            SkillRuleKind::MissingTriggerPhrase => description::MissingTriggerPhrase.check(skill, config, tokens),
            SkillRuleKind::FirstPerson => description::FirstPerson.check(skill, config, tokens),
            SkillRuleKind::RestatesName => description::RestatesName.check(skill, config, tokens),
            SkillRuleKind::NoNegativeGuidance => description::NoNegativeGuidance.check(skill, config, tokens),
            SkillRuleKind::DescriptionTokenBudget => tokens::DescriptionTokenBudget.check(skill, config, tokens),
            SkillRuleKind::BodyTokenBudget => tokens::BodyTokenBudget.check(skill, config, tokens),
            SkillRuleKind::CompanionFileBloat => tokens::CompanionFileBloat.check(skill, config, tokens),
        }
    }
}

impl Rule for SetRuleKind {
    fn code(&self) -> (r: &'static str)
        ensures
            r@ == set_rule_code(*self),
    {
        match self {
            SetRuleKind::DuplicateSkillName => cross::DuplicateSkillName.code(),
            SetRuleKind::SimilarDescription => cross::SimilarDescription.code(),
            SetRuleKind::OverlappingTriggerPhrasing => cross::OverlappingTriggerPhrasing.code(),
        }
    }

    fn name(&self) -> (r: &'static str)
        ensures
            r@ == set_rule_name(*self),
    {
        match self {
            SetRuleKind::DuplicateSkillName => cross::DuplicateSkillName.name(),
            SetRuleKind::SimilarDescription => cross::SimilarDescription.name(),
            SetRuleKind::OverlappingTriggerPhrasing => cross::OverlappingTriggerPhrasing.name(),
        }
    }

    fn default_severity(&self) -> (r: Severity)
        ensures
            r == set_rule_severity(*self),
    {
        match self {
            SetRuleKind::DuplicateSkillName => cross::DuplicateSkillName.default_severity(),
            SetRuleKind::SimilarDescription => cross::SimilarDescription.default_severity(),
            SetRuleKind::OverlappingTriggerPhrasing => cross::OverlappingTriggerPhrasing.default_severity(),
        }
    }
}

impl SetRule for SetRuleKind {
    fn check(&self, set: &SkillSet, config: &LintConfig, tokens: &TokenCounter) -> (r: Vec<Diagnostic>)
        ensures
            diag_views(r@) == set_rule_finds(*self, *set, *config),
    {
        match self {
            SetRuleKind::DuplicateSkillName => cross::DuplicateSkillName.check(set, config, tokens),
            SetRuleKind::SimilarDescription => cross::SimilarDescription.check(set, config, tokens),
            SetRuleKind::OverlappingTriggerPhrasing => cross::OverlappingTriggerPhrasing.check(set, config, tokens),
        }
    }
}

/// The single-skill rules, in the order they run.
pub open spec fn registered_skill_rules() -> Seq<SkillRuleKind> {
    seq![
        SkillRuleKind::MissingDescription,
        SkillRuleKind::MissingName,
        SkillRuleKind::NameMismatch,
        SkillRuleKind::InvalidNameFormat,
        SkillRuleKind::EmptyBody,
        SkillRuleKind::MissingH1,
        SkillRuleKind::HeadingLevelSkip,
        SkillRuleKind::BrokenFileReference,
        SkillRuleKind::SetextHeading,
        SkillRuleKind::TooShort,
        SkillRuleKind::MissingTriggerPhrase,
        SkillRuleKind::FirstPerson,
        SkillRuleKind::RestatesName,
        SkillRuleKind::NoNegativeGuidance,
        SkillRuleKind::DescriptionTokenBudget,
        SkillRuleKind::BodyTokenBudget,
        SkillRuleKind::CompanionFileBloat,
    ]
}

/// The cross-skill rules, in the order they run.
pub open spec fn registered_set_rules() -> Seq<SetRuleKind> {
    seq![
        SetRuleKind::DuplicateSkillName,
        SetRuleKind::SimilarDescription,
        SetRuleKind::OverlappingTriggerPhrasing,
    ]
}

/// The metadata of a registered rule.
#[derive(Clone, Copy, Debug)]
pub struct RuleMeta {
    /// The stable rule code, e.g. `"SL001"`.
    pub code: &'static str,
    /// The kebab-case rule name, e.g. `"missing-description"`.
    pub name: &'static str,
    /// The rule's default severity.
    pub default_severity: Severity,
}

pub struct MetaView {
    pub code: Seq<char>,
    pub name: Seq<char>,
    pub severity: Severity,
}

impl View for RuleMeta {
    type V = MetaView;

    open spec fn view(&self) -> MetaView {
        MetaView { code: self.code@, name: self.name@, severity: self.default_severity }
    }
}

pub open spec fn meta_views(v: Seq<RuleMeta>) -> Seq<MetaView> {
    v.map_values(|m: RuleMeta| m@)
}

pub open spec fn skill_meta(k: SkillRuleKind) -> MetaView {
    MetaView { code: skill_rule_code(k), name: skill_rule_name(k), severity: skill_rule_severity(k) }
}

pub open spec fn set_meta(k: SetRuleKind) -> MetaView {
    MetaView { code: set_rule_code(k), name: set_rule_name(k), severity: set_rule_severity(k) }
}

/// `SL003` `malformed-frontmatter`: made from parse errors, not run as a
/// rule, but listed like one.
pub open spec fn parse_error_meta() -> MetaView {
    MetaView { code: "SL003"@, name: "malformed-frontmatter"@, severity: Severity::Error }
}

/// The metadata of every rule, in registration order.
pub open spec fn registered_meta() -> Seq<MetaView> {
    registered_skill_rules().map_values(|k: SkillRuleKind| skill_meta(k)) + registered_set_rules().map_values(
        |k: SetRuleKind| set_meta(k),
    ) + seq![parse_error_meta()]
}

/// Rule metadata ordered by code.
pub open spec fn meta_lt() -> spec_fn(MetaView, MetaView) -> bool {
    |a: MetaView, b: MetaView| text_lt(a.code, b.code)
}

/// The metadata of every rule, sorted by code.
pub open spec fn all_meta_spec() -> Seq<MetaView> {
    isort(registered_meta(), meta_lt())
}

/// The first entry of `ms` that satisfies `p`.
pub open spec fn first_meta(ms: Seq<MetaView>, p: spec_fn(MetaView) -> bool) -> Option<MetaView>
    decreases ms.len(),
{
    if ms.len() == 0 {
        None
    } else if p(ms[0]) {
        Some(ms[0])
    } else {
        first_meta(ms.drop_first(), p)
    }
}

pub open spec fn opt_meta_view(m: Option<RuleMeta>) -> Option<MetaView> {
    match m {
        Some(x) => Some(x@),
        None => None,
    }
}

/// Every rule the linter knows.
pub struct Registry {
    skill_rules: Vec<SkillRuleKind>,
    set_rules: Vec<SetRuleKind>,
    parse_error_meta: Vec<RuleMeta>,
}

fn meta_before(a: &RuleMeta, b: &RuleMeta) -> (r: bool)
    ensures
        r == meta_lt()(a@, b@),
{
    let ca = chars_of(a.code);
    let cb = chars_of(b.code);
    chars_before(&ca, &cb)
}

fn sort_metas(v: &Vec<RuleMeta>) -> (r: Vec<RuleMeta>)
    ensures
        meta_views(r@) == isort(meta_views(v@), meta_lt()),
{
    let ghost orig = meta_views(v@);
    let mut out: Vec<RuleMeta> = Vec::new();
    let mut i: usize = 0;
    proof {
        assert(orig.take(0) =~= Seq::<MetaView>::empty());
    }
    while i < v.len()
        invariant
            i <= v.len(),
            orig == meta_views(v@),
            meta_views(out@) == isort(orig.take(i as int), meta_lt()),
        decreases v.len() - i,
    {
        let m = v[i];
        let ghost sorted = meta_views(out@);
        let mut p = out.len();
        while p > 0 && meta_before(&m, &out[p - 1])
            invariant
                p <= out.len(),
                sorted == meta_views(out@),
                forall|k: int| p <= k < sorted.len() ==> meta_lt()(m@, #[trigger] sorted[k]),
            decreases p,
        {
            proof {
                assert(sorted[p - 1] == out@[p - 1]@);
            }
            p -= 1;
        }
        proof {
            if p > 0 {
                assert(sorted[p - 1] == out@[p - 1]@);
            }
            lemma_insert_at(sorted, m@, meta_lt(), p as int);
            let t = orig.take(i + 1);
            assert(t.drop_last() =~= orig.take(i as int));
            assert(t.last() == m@);
        }
        out.insert(p, m);
        proof {
            assert(meta_views(out@) =~= sorted.insert(p as int, m@));
        }
        i += 1;
    }
    proof {
        assert(orig.take(v.len() as int) =~= orig);
    }
    out
}

impl Registry {
    /// The registry holds exactly the built-in rules.
    pub closed spec fn wf(&self) -> bool {
        &&& self.skill_rules@ == registered_skill_rules()
        &&& self.set_rules@ == registered_set_rules()
        &&& meta_views(self.parse_error_meta@) == seq![parse_error_meta()]
    }

    /// The registry of every built-in rule. `SL202` is retired and not
    /// registered; `SL003` has no check of its own (it is made from parse
    /// errors) but is listed in the metadata.
    pub fn new() -> (r: Registry)
        ensures
            r.wf(),
    {
        let skill_rules = vec![
            SkillRuleKind::MissingDescription,
            SkillRuleKind::MissingName,
            SkillRuleKind::NameMismatch,
            SkillRuleKind::InvalidNameFormat,
            SkillRuleKind::EmptyBody,
            SkillRuleKind::MissingH1,
            SkillRuleKind::HeadingLevelSkip,
            SkillRuleKind::BrokenFileReference,
            SkillRuleKind::SetextHeading,
            SkillRuleKind::TooShort,
            SkillRuleKind::MissingTriggerPhrase,
            SkillRuleKind::FirstPerson,
            SkillRuleKind::RestatesName,
            SkillRuleKind::NoNegativeGuidance,
            SkillRuleKind::DescriptionTokenBudget,
            SkillRuleKind::BodyTokenBudget,
            SkillRuleKind::CompanionFileBloat,
        ];
        let set_rules = vec![
            SetRuleKind::DuplicateSkillName,
            SetRuleKind::SimilarDescription,
            SetRuleKind::OverlappingTriggerPhrasing,
        ];
        let parse_meta = vec![
            RuleMeta { code: "SL003", name: "malformed-frontmatter", default_severity: Severity::Error },
        ];
        proof {
            assert(skill_rules@ =~= registered_skill_rules());
            assert(set_rules@ =~= registered_set_rules());
            assert(meta_views(parse_meta@) =~= seq![parse_error_meta()]);
        }
        Registry { skill_rules, set_rules, parse_error_meta: parse_meta }
    }

    /// The single-skill rules, in the order they run.
    pub fn skill_rules(&self) -> (r: &[SkillRuleKind])
        requires
            self.wf(),
        ensures
            r@ == registered_skill_rules(),
    {
        self.skill_rules.as_slice()
    }

    /// The cross-skill rules, in the order they run.
    pub fn set_rules(&self) -> (r: &[SetRuleKind])
        requires
            self.wf(),
        ensures
            r@ == registered_set_rules(),
    {
        self.set_rules.as_slice()
    }

    /// The metadata of every rule, `SL003` included, sorted by code.
    pub fn all_meta(&self) -> (r: Vec<RuleMeta>)
        requires
            self.wf(),
        ensures
            meta_views(r@) == all_meta_spec(),
    {
        let mut unsorted: Vec<RuleMeta> = Vec::new();
        let mut i: usize = 0;
        while i < self.skill_rules.len()
            invariant
                i <= self.skill_rules.len(),
                self.wf(),
                meta_views(unsorted@) == registered_skill_rules().take(i as int).map_values(
                    |k: SkillRuleKind| skill_meta(k),
                ),
            decreases self.skill_rules.len() - i,
        {
            let k = self.skill_rules[i];
            let ghost before = meta_views(unsorted@);
            unsorted.push(RuleMeta { code: k.code(), name: k.name(), default_severity: k.default_severity() });
            proof {
                assert(meta_views(unsorted@) =~= before.push(skill_meta(k)));
                assert(registered_skill_rules().take(i + 1).map_values(|k: SkillRuleKind| skill_meta(k))
                    =~= registered_skill_rules().take(i as int).map_values(|k: SkillRuleKind| skill_meta(k)).push(
                    skill_meta(k),
                ));
            }
            i += 1;
        }
        let ghost skill_part = meta_views(unsorted@);
        proof {
            assert(registered_skill_rules().take(17) =~= registered_skill_rules());
        }
        let mut j: usize = 0;
        while j < self.set_rules.len()
            invariant
                j <= self.set_rules.len(),
                self.wf(),
                skill_part == registered_skill_rules().map_values(|k: SkillRuleKind| skill_meta(k)),
                meta_views(unsorted@) == skill_part + registered_set_rules().take(j as int).map_values(
                    |k: SetRuleKind| set_meta(k),
                ),
            decreases self.set_rules.len() - j,
        {
            let k = self.set_rules[j];
            let ghost before = meta_views(unsorted@);
            unsorted.push(RuleMeta { code: k.code(), name: k.name(), default_severity: k.default_severity() });
            proof {
                assert(meta_views(unsorted@) =~= before.push(set_meta(k)));
                assert(registered_set_rules().take(j + 1).map_values(|k: SetRuleKind| set_meta(k))
                    =~= registered_set_rules().take(j as int).map_values(|k: SetRuleKind| set_meta(k)).push(
                    set_meta(k),
                ));
            }
            j += 1;
        }
        proof {
            assert(registered_set_rules().take(3) =~= registered_set_rules());
        }
        let ghost before = meta_views(unsorted@);
        proof {
            assert(meta_views(self.parse_error_meta@).len() == 1);
        }
        unsorted.push(self.parse_error_meta[0]);
        proof {
            assert(meta_views(self.parse_error_meta@)[0] == parse_error_meta());
            assert(meta_views(unsorted@) =~= registered_meta());
        }
        sort_metas(&unsorted)
    }

    /// The metadata of the rule with code `code`.
    pub fn by_code(&self, code: &str) -> (r: Option<RuleMeta>)
        requires
            self.wf(),
        ensures
            opt_meta_view(r) == first_meta(all_meta_spec(), |m: MetaView| m.code == code@),
    {
        let all = self.all_meta();
        let ghost ms = meta_views(all@);
        let c = chars_of(code);
        let mut i: usize = 0;
        proof {
            assert(ms.skip(0) =~= ms);
        }
        while i < all.len()
            invariant
                i <= all.len(),
                ms == meta_views(all@),
                ms == all_meta_spec(),
                c@ == code@,
                first_meta(ms, |m: MetaView| m.code == code@) == first_meta(ms.skip(i as int), |m: MetaView| m.code == code@),
            decreases all.len() - i,
        {
            let m = all[i];
            let mc = chars_of(m.code);
            proof {
                assert(ms.skip(i as int)[0] == m@);
                assert(ms.skip(i as int).drop_first() =~= ms.skip(i + 1));
            }
            if crate::companion::same_chars(&mc, &c) {
                return Some(m);
            }
            i += 1;
        }
        None
    }

    /// The metadata of the rule named `name`.
    pub fn by_name(&self, name: &str) -> (r: Option<RuleMeta>)
        requires
            self.wf(),
        ensures
            opt_meta_view(r) == first_meta(all_meta_spec(), |m: MetaView| m.name == name@),
    {
        let all = self.all_meta();
        let ghost ms = meta_views(all@);
        let c = chars_of(name);
        let mut i: usize = 0;
        proof {
            assert(ms.skip(0) =~= ms);
        }
        while i < all.len()
            invariant
                i <= all.len(),
                ms == meta_views(all@),
                ms == all_meta_spec(),
                c@ == name@,
                first_meta(ms, |m: MetaView| m.name == name@) == first_meta(ms.skip(i as int), |m: MetaView| m.name == name@),
            decreases all.len() - i,
        {
            let m = all[i];
            let mc = chars_of(m.name);
            proof {
                assert(ms.skip(i as int)[0] == m@);
                assert(ms.skip(i as int).drop_first() =~= ms.skip(i + 1));
            }
            if crate::companion::same_chars(&mc, &c) {
                return Some(m);
            }
            i += 1;
        }
        None
    }
}

impl Default for Registry {
    fn default() -> (r: Registry)
        ensures
            r.wf(),
    {
        Registry::new()
    }
}

/// `key` is one of the disabled rule codes or names.
pub open spec fn disabled_has(config: LintConfig, key: Seq<char>) -> bool {
    views(config.disabled@).contains(key)
}

/// The severity override for `key`: the first entry with that key.
pub open spec fn override_for(ov: Seq<(String, Severity)>, key: Seq<char>) -> Option<Severity>
    decreases ov.len(),
{
    if ov.len() == 0 {
        None
    } else if ov[0].0@ == key {
        Some(ov[0].1)
    } else {
        override_for(ov.drop_first(), key)
    }
}

/// A rule runs unless its code or its name is disabled.
pub open spec fn rule_enabled(config: LintConfig, code: Seq<char>, name: Seq<char>) -> bool {
    !disabled_has(config, code) && !disabled_has(config, name)
}

/// The severity a rule reports at: overridden by code, else by name, else
/// its default.
pub open spec fn resolved_severity(config: LintConfig, code: Seq<char>, name: Seq<char>, default: Severity) -> Severity {
    match override_for(config.severity_overrides@, code) {
        Some(s) => s,
        None => match override_for(config.severity_overrides@, name) {
            Some(s) => s,
            None => default,
        },
    }
}

/// `ds` with every severity set to `s`.
pub open spec fn with_severity(ds: Seq<DiagnosticView>, s: Severity) -> Seq<DiagnosticView> {
    ds.map_values(|d: DiagnosticView| DiagnosticView { severity: s, ..d })
}

/// What rule `k` reports for `skill` under `config`: nothing when it is
/// disabled, else its findings at the resolved severity.
pub open spec fn skill_rule_report(k: SkillRuleKind, skill: Skill, config: LintConfig, t: Tokenizer) -> Seq<DiagnosticView> {
    if rule_enabled(config, skill_rule_code(k), skill_rule_name(k)) {
        with_severity(
            skill_rule_finds(k, skill, config, t),
            resolved_severity(config, skill_rule_code(k), skill_rule_name(k), skill_rule_severity(k)),
        )
    } else {
        seq![]
    }
}

/// The reports of the first `n` registered single-skill rules, in order.
pub open spec fn skill_reports(skill: Skill, config: LintConfig, t: Tokenizer, n: nat) -> Seq<DiagnosticView>
    decreases n,
{
    if n == 0 {
        seq![]
    } else {
        skill_reports(skill, config, t, (n - 1) as nat) + skill_rule_report(registered_skill_rules()[n - 1], skill, config, t)
    }
}

/// What linting one skill reports: every enabled rule's findings, sorted.
pub open spec fn lint_skill_spec(skill: Skill, config: LintConfig, t: Tokenizer) -> Seq<DiagnosticView> {
    isort(skill_reports(skill, config, t, 17), diag_lt())
}

/// What cross-skill rule `k` reports for `set` under `config`.
pub open spec fn set_rule_report(k: SetRuleKind, set: SkillSet, config: LintConfig) -> Seq<DiagnosticView> {
    if rule_enabled(config, set_rule_code(k), set_rule_name(k)) {
        with_severity(
            set_rule_finds(k, set, config),
            resolved_severity(config, set_rule_code(k), set_rule_name(k), set_rule_severity(k)),
        )
    } else {
        seq![]
    }
}

pub open spec fn set_reports(set: SkillSet, config: LintConfig, n: nat) -> Seq<DiagnosticView>
    decreases n,
{
    if n == 0 {
        seq![]
    } else {
        set_reports(set, config, (n - 1) as nat) + set_rule_report(registered_set_rules()[n - 1], set, config)
    }
}

/// The per-skill reports of the first `n` skills of `skills`, in order.
pub open spec fn skills_reports(skills: Seq<Skill>, config: LintConfig, t: Tokenizer, n: nat) -> Seq<DiagnosticView>
    decreases n,
{
    if n == 0 {
        seq![]
    } else {
        skills_reports(skills, config, t, (n - 1) as nat) + lint_skill_spec(skills[n - 1], config, t)
    }
}

pub open spec fn parse_error_spec(path: Seq<char>, err: AdeptError) -> Option<DiagnosticView> {
    match err {
        AdeptError::MissingField { field, .. } => if field@ == "description"@ {
            Some(diag_spec(
                "SL001"@,
                "SKILL.md is missing the required `description` frontmatter field"@,
                Severity::Error,
                path,
                1,
                Some("add a `description` field stating what the skill does and when to use it"@),
            ))
        } else if field@ == "name"@ {
            Some(diag_spec(
                "SL002"@,
                "SKILL.md is missing the required `name` frontmatter field"@,
                Severity::Error,
                path,
                1,
                Some("add a `name` field matching the skill's directory name"@),
            ))
        } else {
            None
        },
        AdeptError::MissingFrontmatter { .. } => Some(diag_spec(
            "SL003"@,
            "SKILL.md must start with a line containing only '---' to open the YAML frontmatter block"@,
            Severity::Error,
            path,
            1,
            Some("add an opening `---` line as the first line of the file"@),
        )),
        AdeptError::UnterminatedFrontmatter { .. } => Some(diag_spec(
            "SL003"@,
            "SKILL.md frontmatter is opened with '---' but never closed"@,
            Severity::Error,
            path,
            1,
            Some("add a closing `---` line after the frontmatter fields"@),
        )),
        AdeptError::InvalidYaml { message, .. } => Some(diag_spec(
            "SL003"@,
            "SKILL.md frontmatter is not valid YAML: "@ + message@,
            Severity::Error,
            path,
            1,
            None,
        )),
        AdeptError::FrontmatterNotMapping { .. } => Some(diag_spec(
            "SL003"@,
            "SKILL.md frontmatter must be a YAML mapping (key: value pairs)"@,
            Severity::Error,
            path,
            1,
            None,
        )),
        AdeptError::InvalidFieldType { field, .. } => Some(diag_spec(
            "SL003"@,
            "SKILL.md frontmatter field `"@ + field@ + "` must be a string"@,
            Severity::Error,
            path,
            1,
            None,
        )),
        _ => None,
    }
}

/// The kebab-case name of the rule a parse failure is reported under:
/// `missing-description` / `missing-name` for a missing field, else
/// `malformed-frontmatter`.
pub open spec fn parse_error_rule_name(err: AdeptError) -> Seq<char> {
    match err {
        AdeptError::MissingField { field, .. } => if field@ == "description"@ {
            "missing-description"@
        } else {
            "missing-name"@
        },
        _ => "malformed-frontmatter"@,
    }
}

/// What a parse failure of the file at `path` is reported as, under
/// `config`: nothing when it has no rule or its rule is disabled (by code
/// or by name), else the diagnostic at its resolved severity.
pub open spec fn parse_error_report(path: Seq<char>, err: AdeptError, config: LintConfig) -> Seq<DiagnosticView> {
    match parse_error_spec(path, err) {
        None => seq![],
        Some(d) => if !rule_enabled(config, d.code, parse_error_rule_name(err)) {
            seq![]
        } else {
            seq![
                DiagnosticView {
                    severity: resolved_severity(config, d.code, parse_error_rule_name(err), d.severity),
                    ..d
                },
            ]
        },
    }
}

fn parse_error_rule_name_of(err: &AdeptError) -> (r: &'static str)
    ensures
        r@ == parse_error_rule_name(*err),
{
    match err {
        AdeptError::MissingField { field, .. } => {
            let f = chars_of(field.as_str());
            if crate::companion::same_chars(&f, &chars_of("description")) {
                "missing-description"
            } else {
                "missing-name"
            }
        },
        _ => "malformed-frontmatter",
    }
}

pub open spec fn error_reports(errors: Seq<(String, AdeptError)>, config: LintConfig, n: nat) -> Seq<DiagnosticView>
    decreases n,
{
    if n == 0 {
        seq![]
    } else {
        error_reports(errors, config, (n - 1) as nat) + parse_error_report(errors[n - 1].0@, errors[n - 1].1, config)
    }
}

/// What linting a set reports: each skill's report, then the cross-skill
/// rules', then the parse failures', all sorted together.
pub open spec fn lint_set_spec(set: SkillSet, config: LintConfig, t: Tokenizer) -> Seq<DiagnosticView> {
    isort(
        skills_reports(set.skills@, config, t, set.skills@.len()) + set_reports(set, config, 3) + error_reports(
            set.errors@,
            config,
            set.errors@.len(),
        ),
        diag_lt(),
    )
}

/// The diagnostic a parse failure of the file at `path` is reported as:
/// `SL001` / `SL002` for a missing `description` / `name`, `SL003` for
/// malformed frontmatter, nothing for failures that are not about the file's
/// content.
pub fn parse_error_diagnostic(path: &str, err: &AdeptError) -> (r: Option<Diagnostic>)
    ensures
        match r {
            Some(d) => parse_error_spec(path@, *err) == Some(d@),
            None => parse_error_spec(path@, *err).is_none(),
        },
{
    match err {
        AdeptError::MissingField { field, .. } => {
            if *field == owned("description") {
                let mut m = String::new();
                push_str(&mut m, "SKILL.md is missing the required `description` frontmatter field");
                let mut f = String::new();
                push_str(&mut f, "add a `description` field stating what the skill does and when to use it");
                Some(finding("SL001", m, Severity::Error, path, 1, f))
            } else if *field == owned("name") {
                let mut m = String::new();
                push_str(&mut m, "SKILL.md is missing the required `name` frontmatter field");
                let mut f = String::new();
                push_str(&mut f, "add a `name` field matching the skill's directory name");
                Some(finding("SL002", m, Severity::Error, path, 1, f))
            } else {
                None
            }
        },
        AdeptError::MissingFrontmatter { .. } => {
            let mut m = String::new();
            push_str(&mut m, "SKILL.md must start with a line containing only '---' to open the YAML frontmatter block");
            let mut f = String::new();
            push_str(&mut f, "add an opening `---` line as the first line of the file");
            Some(finding("SL003", m, Severity::Error, path, 1, f))
        },
        AdeptError::UnterminatedFrontmatter { .. } => {
            let mut m = String::new();
            push_str(&mut m, "SKILL.md frontmatter is opened with '---' but never closed");
            let mut f = String::new();
            push_str(&mut f, "add a closing `---` line after the frontmatter fields");
            Some(finding("SL003", m, Severity::Error, path, 1, f))
        },
        AdeptError::InvalidYaml { message, .. } => {
            let mut m = String::new();
            push_str(&mut m, "SKILL.md frontmatter is not valid YAML: ");
            push_str(&mut m, message.as_str());
            Some(Diagnostic::new("SL003", m, Severity::Error, path, 1, 1))
        },
        AdeptError::FrontmatterNotMapping { .. } => {
            let mut m = String::new();
            push_str(&mut m, "SKILL.md frontmatter must be a YAML mapping (key: value pairs)");
            Some(Diagnostic::new("SL003", m, Severity::Error, path, 1, 1))
        },
        AdeptError::InvalidFieldType { field, .. } => {
            let mut m = String::new();
            push_str(&mut m, "SKILL.md frontmatter field `");
            push_str(&mut m, field.as_str());
            push_str(&mut m, "` must be a string");
            Some(Diagnostic::new("SL003", m, Severity::Error, path, 1, 1))
        },
        _ => None,
    }
}

impl LintConfig {
    fn is_disabled(&self, key: &str) -> (r: bool)
        ensures
            r == disabled_has(*self, key@),
    {
        let k = owned(key);
        contains_word(&self.disabled, &k)
    }

    fn override_of(&self, key: &str) -> (r: Option<Severity>)
        ensures
            r == override_for(self.severity_overrides@, key@),
    {
        let ov = &self.severity_overrides;
        let k = owned(key);
        let mut i: usize = 0;
        proof {
            assert(ov@.skip(0) =~= ov@);
        }
        while i < ov.len()
            invariant
                i <= ov.len(),
                ov@ == self.severity_overrides@,
                k@ == key@,
                override_for(ov@, key@) == override_for(ov@.skip(i as int), key@),
            decreases ov.len() - i,
        {
            proof {
                assert(ov@.skip(i as int)[0] == ov@[i as int]);
                assert(ov@.skip(i as int).drop_first() =~= ov@.skip(i + 1));
            }
            if ov[i].0 == k {
                return Some(ov[i].1);
            }
            i += 1;
        }
        None
    }

    /// Whether the rule with `code` and `name` runs.
    fn is_enabled(&self, code: &str, name: &str) -> (r: bool)
        ensures
            r == rule_enabled(*self, code@, name@),
    {
        !self.is_disabled(code) && !self.is_disabled(name)
    }

    /// The severity the rule with `code`, `name` and `default` reports at.
    fn resolve_severity(&self, code: &str, name: &str, default: Severity) -> (r: Severity)
        ensures
            r == resolved_severity(*self, code@, name@, default),
    {
        match self.override_of(code) {
            Some(s) => s,
            None => match self.override_of(name) {
                Some(s) => s,
                None => default,
            },
        }
    }

    /// `diagnostics` at the severity the rule resolves to.
    fn apply_overrides(&self, code: &str, name: &str, default: Severity, diagnostics: Vec<Diagnostic>) -> (r: Vec<
        Diagnostic,
    >)
        ensures
            diag_views(r@) == with_severity(diag_views(diagnostics@), resolved_severity(*self, code@, name@, default)),
    {
        let severity = self.resolve_severity(code, name, default);
        let ghost orig = diag_views(diagnostics@);
        let mut rest = diagnostics;
        let mut out: Vec<Diagnostic> = Vec::new();
        let ghost mut done: int = 0;
        proof {
            assert(diag_views(rest@) =~= orig.skip(0));
        }
        while rest.len() > 0
            invariant
                0 <= done <= orig.len(),
                rest.len() + done == orig.len(),
                diag_views(rest@) == orig.skip(done),
                diag_views(out@) == with_severity(orig.take(done), severity),
            decreases rest.len(),
        {
            let ghost old_rest = rest@;
            proof {
                assert(diag_views(old_rest)[0] == orig[done]);
            }
            let mut d = rest.remove(0);
            proof {
                assert forall|k: int| 0 <= k < rest@.len() implies #[trigger] diag_views(rest@)[k] == orig.skip(done + 1)[k] by {
                    assert(rest@[k] == old_rest[k + 1]);
                    assert(diag_views(old_rest)[k + 1] == orig.skip(done)[k + 1]);
                }
                assert(diag_views(rest@) =~= orig.skip(done + 1));
            }
            let ghost before = diag_views(out@);
            let ghost dv = d@;
            d.severity = severity;
            proof {
                assert(d@ == DiagnosticView { severity: severity, ..dv });
                assert(orig.take(done + 1) =~= orig.take(done).push(dv));
            }
            out.push(d);
            proof {
                assert(diag_views(out@) =~= before.push(DiagnosticView { severity: severity, ..dv }));
                assert(diag_views(out@) =~= with_severity(orig.take(done + 1), severity));
                done = done + 1;
            }
        }
        proof {
            assert(orig.take(done) =~= orig);
        }
        out
    }
}

/// Appends every diagnostic of `more` to `out`.
fn append_all(out: &mut Vec<Diagnostic>, more: Vec<Diagnostic>)
    ensures
        diag_views(final(out)@) == diag_views(old(out)@) + diag_views(more@),
{
    let mut m = more;
    out.append(&mut m);
    proof {
        assert(diag_views(out@) =~= diag_views(old(out)@) + diag_views(more@));
    }
}

/// The lint entry point: runs every enabled rule and returns the
/// diagnostics in reporting order.
pub struct Linter {
    config: LintConfig,
    registry: Registry,
    token_counter: TokenCounter,
}

impl Linter {
    /// The linter holds the built-in rules and a counter for its
    /// configuration's tokenizer.
    pub closed spec fn wf(&self) -> bool {
        self.registry.wf() && self.token_counter.spec_tokenizer() == self.config.tokenizer
    }

    /// The configuration the linter uses.
    pub closed spec fn spec_config(&self) -> LintConfig {
        self.config
    }

    /// A linter for `config` with every built-in rule, or
    /// [`AdeptError::TokenizerLoad`] if the configured tokenizer's tables
    /// fail to load.
    pub fn new(config: LintConfig) -> (r: Result<Linter, AdeptError>)
        ensures
            r is Ok <==> tables_load(config.tokenizer),
            r matches Ok(l) ==> l.wf() && l.spec_config() == config,
            r matches Err(e) ==> e matches AdeptError::TokenizerLoad { tokenizer: t, .. } && t == config.tokenizer,
    {
        match TokenCounter::new(config.tokenizer) {
            Ok(token_counter) => Ok(Linter { config, registry: Registry::new(), token_counter }),
            Err(e) => Err(e),
        }
    }

    /// The rule registry this linter uses.
    pub fn registry(&self) -> (r: &Registry)
        requires
            self.wf(),
        ensures
            r.wf(),
    {
        &self.registry
    }

    /// The configuration this linter uses.
    pub fn config(&self) -> (r: &LintConfig)
        ensures
            *r == self.spec_config(),
    {
        &self.config
    }

    /// Lints one skill: every enabled single-skill rule in registration
    /// order, each rule's findings at its resolved severity, then sorted by
    /// `(path, line, column, code)`.
    pub fn lint_skill(&self, skill: &Skill) -> (r: Vec<Diagnostic>)
        requires
            self.wf(),
        ensures
            diag_views(r@) == lint_skill_spec(*skill, self.spec_config(), self.spec_config().tokenizer),
    {
        let ghost t = self.config.tokenizer;
        let rules = self.registry.skill_rules();
        let mut out: Vec<Diagnostic> = Vec::new();
        let mut i: usize = 0;
        while i < rules.len()
            invariant
                i <= rules.len(),
                rules@ == registered_skill_rules(),
                self.wf(),
                t == self.config.tokenizer,
                diag_views(out@) == skill_reports(*skill, self.config, t, i as nat),
            decreases rules.len() - i,
        {
            let rule = rules[i];
            proof {
                assert(registered_skill_rules()[i as int] == rule);
            }
            if self.config.is_enabled(rule.code(), rule.name()) {
                let found = rule.check(skill, &self.config, &self.token_counter);
                let adjusted = self.config.apply_overrides(rule.code(), rule.name(), rule.default_severity(), found);
                append_all(&mut out, adjusted);
            }
            i += 1;
        }
        sort_diagnostics(out)
    }

    /// Lints a whole set: each parsed skill as [`Self::lint_skill`] does,
    /// every enabled cross-skill rule over the set, and each parse failure
    /// as its `SL001` / `SL002` / `SL003` diagnostic unless that code is
    /// disabled (its severity overridden by code only); then sorts
    /// everything by `(path, line, column, code)`.
    pub fn lint_set(&self, set: &SkillSet) -> (r: Vec<Diagnostic>)
        requires
            self.wf(),
        ensures
            diag_views(r@) == lint_set_spec(*set, self.spec_config(), self.spec_config().tokenizer),
    {
        let ghost t = self.config.tokenizer;
        let mut out: Vec<Diagnostic> = Vec::new();
        let mut i: usize = 0;
        while i < set.skills.len()
            invariant
                i <= set.skills.len(),
                self.wf(),
                t == self.config.tokenizer,
                diag_views(out@) == skills_reports(set.skills@, self.config, t, i as nat),
            decreases set.skills.len() - i,
        {
            let found = self.lint_skill(&set.skills[i]);
            append_all(&mut out, found);
            i += 1;
        }
        let ghost skill_part = diag_views(out@);
        let rules = self.registry.set_rules();
        let mut j: usize = 0;
        while j < rules.len()
            invariant
                j <= rules.len(),
                rules@ == registered_set_rules(),
                self.wf(),
                diag_views(out@) == skill_part + set_reports(*set, self.config, j as nat),
            decreases rules.len() - j,
        {
            let rule = rules[j];
            proof {
                assert(registered_set_rules()[j as int] == rule);
            }
            let ghost before = diag_views(out@);
            if self.config.is_enabled(rule.code(), rule.name()) {
                let found = rule.check(set, &self.config, &self.token_counter);
                let adjusted = self.config.apply_overrides(rule.code(), rule.name(), rule.default_severity(), found);
                append_all(&mut out, adjusted);
            }
            proof {
                assert(diag_views(out@) =~= skill_part + set_reports(*set, self.config, (j + 1) as nat));
            }
            j += 1;
        }
        let ghost rule_part = diag_views(out@);
        let mut k: usize = 0;
        while k < set.errors.len()
            invariant
                k <= set.errors.len(),
                diag_views(out@) == rule_part + error_reports(set.errors@, self.config, k as nat),
            decreases set.errors.len() - k,
        {
            let (path, err) = &set.errors[k];
            let ghost before = diag_views(out@);
            proof {
                assert(set.errors@[k as int].0@ == path@);
                assert(set.errors@[k as int].1 == *err);
            }
            match parse_error_diagnostic(path.as_str(), err) {
                Some(d) => {
                    let name = parse_error_rule_name_of(err);
                    if self.config.is_enabled(d.code.as_str(), name) {
                        let mut d = d;
                        let ghost dv = d@;
                        let sev = self.config.resolve_severity(d.code.as_str(), name, d.severity);
                        d.severity = sev;
                        proof {
                            assert(d@ == DiagnosticView {
                                severity: resolved_severity(self.config, dv.code, parse_error_rule_name(*err), dv.severity),
                                ..dv
                            });
                        }
                        out.push(d);
                        proof {
                            assert(diag_views(out@) =~= before.push(d@));
                        }
                    }
                },
                None => {},
            }
            proof {
                assert(diag_views(out@) =~= rule_part + error_reports(set.errors@, self.config, (k + 1) as nat));
            }
            k += 1;
        }
        sort_diagnostics(out)
    }
}

} // verus!
