//! `SL2xx` description and triggering heuristics.

use vstd::prelude::*;
use crate::chars::{
    chars_of, contains_any, decimal, has_phrase, is_blank, not_alphanumeric, push_decimal, push_str,
    str_views, strip, strip_non_alphanumeric, to_lowercase, unicode_lowercase, unicode_whitespace,
};
use crate::diagnostic::{diag_spec, Diagnostic, DiagnosticView, Severity, Skill};
use crate::text::{class_pred, contains_word, count_in, runs, runs_of, views, words, words_of, CharClass};
use crate::token::{token_count, TokenCounter, Tokenizer};
use super::{blank_str, finding, LintConfig, Rule, SkillRule};

verus! {

/// `SL201` `description-too-short`: fewer tokens than
/// [`LintConfig::description_min_tokens`].
pub struct TooShort;

/// `SL202` `description-too-long`: more tokens than
/// [`LintConfig::description_max_tokens`]. Retired: not registered, since
/// `SL301` reports the same condition.
pub struct TooLong;

/// `SL203` `missing-trigger-phrase`: the description never says when the
/// skill should be used.
pub struct MissingTriggerPhrase;

/// `SL204` `first-person-description`: the description is written in first
/// person.
pub struct FirstPerson;

/// `SL205` `description-restates-name`: the description is little more
/// than the name reworded.
pub struct RestatesName;

/// `SL206` `no-negative-guidance`: the description never says when *not*
/// to use the skill. Informational.
pub struct NoNegativeGuidance;

/// The phrasings that count as saying when to use a skill.
pub open spec fn trigger_phrases() -> Seq<Seq<char>> {
    seq![
        "use when"@,
        "use this when"@,
        "use this skill when"@,
        "when the user"@,
        "trigger on"@,
        "triggers on"@,
        "when asked"@,
        "when you need"@,
        "when working with"@,
        "for use when"@,
    ]
}

/// The phrasings that count as saying when not to use a skill.
pub open spec fn negative_phrases() -> Seq<Seq<char>> {
    seq!["do not use"@, "don't use"@, "not for"@, "avoid using"@, "should not be used"@]
}

/// First-person phrasings.
pub open spec fn first_person_phrases() -> Seq<Seq<char>> {
    seq!["i will"@, "i can"@, "i am able to"@, "i'll"@, "i'm able to"@]
}

fn trigger_phrase_list() -> (r: Vec<&'static str>)
    ensures
        str_views(r@) == trigger_phrases(),
{
    let r = vec![
        "use when",
        "use this when",
        "use this skill when",
        "when the user",
        "trigger on",
        "triggers on",
        "when asked",
        "when you need",
        "when working with",
        "for use when",
    ];
    proof {
        assert(str_views(r@) =~= trigger_phrases());
    }
    r
}

fn negative_phrase_list() -> (r: Vec<&'static str>)
    ensures
        str_views(r@) == negative_phrases(),
{
    let r = vec!["do not use", "don't use", "not for", "avoid using", "should not be used"];
    proof {
        assert(str_views(r@) =~= negative_phrases());
    }
    r
}

fn first_person_phrase_list() -> (r: Vec<&'static str>)
    ensures
        str_views(r@) == first_person_phrases(),
{
    let r = vec!["i will", "i can", "i am able to", "i'll", "i'm able to"];
    proof {
        assert(str_views(r@) =~= first_person_phrases());
    }
    r
}

pub open spec fn too_short_finds(skill: Skill, config: LintConfig, tokenizer: Tokenizer) -> Seq<
    DiagnosticView,
> {
    let desc = skill.frontmatter.description@;
    match token_count(tokenizer, desc) {
        Some(count) if !is_blank(desc) && count < config.description_min_tokens => seq![
            diag_spec(
                "SL201"@,
                "description is only "@ + decimal(count) + " tokens, below the minimum of "@
                    + decimal(config.description_min_tokens as nat),
                Severity::Warning,
                skill.path@,
                skill.frontmatter.description_line as nat,
                Some("expand the description to state both what the skill does and when to use it"@),
            ),
        ],
        _ => seq![],
    }
}

pub open spec fn too_long_finds(skill: Skill, config: LintConfig, tokenizer: Tokenizer) -> Seq<
    DiagnosticView,
> {
    match token_count(tokenizer, skill.frontmatter.description@) {
        Some(count) if count > config.description_max_tokens => seq![
            diag_spec(
                "SL202"@,
                "description is "@ + decimal(count) + " tokens, over the budget of "@ + decimal(
                    config.description_max_tokens as nat,
                ),
                Severity::Warning,
                skill.path@,
                skill.frontmatter.description_line as nat,
                Some("trim the description to one or two sentences"@),
            ),
        ],
        _ => seq![],
    }
}

pub open spec fn missing_trigger_phrase_finds(skill: Skill) -> Seq<DiagnosticView> {
    let lower = unicode_lowercase(skill.frontmatter.description@);
    if is_blank(lower) || has_phrase(lower, trigger_phrases()) {
        seq![]
    } else {
        seq![
            diag_spec(
                "SL203"@,
                "description does not state when the skill should be used"@,
                Severity::Warning,
                skill.path@,
                skill.frontmatter.description_line as nat,
                Some("add trigger phrasing, e.g. \"Use when the user asks to...\""@),
            ),
        ]
    }
}

/// The first whitespace-separated word of `t`, stripped of surrounding
/// non-alphanumeric characters, is `i`.
pub open spec fn starts_with_i(t: Seq<char>) -> bool {
    let ws = runs(t, |c: char| !unicode_whitespace(c));
    ws.len() > 0 && strip(ws[0], not_alphanumeric()) == seq!['i']
}

pub open spec fn first_person_finds(skill: Skill) -> Seq<DiagnosticView> {
    let lower = unicode_lowercase(skill.frontmatter.description@);
    if has_phrase(lower, first_person_phrases()) || starts_with_i(lower) {
        seq![
            diag_spec(
                "SL204"@,
                "description is written in first person; descriptions should be third person"@,
                Severity::Warning,
                skill.path@,
                skill.frontmatter.description_line as nat,
                Some("rewrite in third person, e.g. \"Extracts...\" instead of \"I extract...\""@),
            ),
        ]
    } else {
        seq![]
    }
}

pub open spec fn restates_name_finds(skill: Skill) -> Seq<DiagnosticView> {
    let name_words = words_of(skill.frontmatter.name@);
    let desc_words = words_of(skill.frontmatter.description@);
    if name_words.len() == 0 || desc_words.len() < 2 || 5 * count_in(desc_words, name_words) < 4
        * desc_words.len() {
        seq![]
    } else {
        seq![
            diag_spec(
                "SL205"@,
                "description is little more than the skill name reworded"@,
                Severity::Warning,
                skill.path@,
                skill.frontmatter.description_line as nat,
                Some("describe what the skill does and when to use it, not just its name"@),
            ),
        ]
    }
}

pub open spec fn no_negative_guidance_finds(skill: Skill) -> Seq<DiagnosticView> {
    let lower = unicode_lowercase(skill.frontmatter.description@);
    if is_blank(lower) || has_phrase(lower, negative_phrases()) {
        seq![]
    } else {
        seq![
            diag_spec(
                "SL206"@,
                "description gives no guidance on when not to use the skill"@,
                Severity::Info,
                skill.path@,
                skill.frontmatter.description_line as nat,
                Some("consider adding \"Do not use for...\" guidance to reduce over-triggering"@),
            ),
        ]
    }
}

impl Rule for TooShort {
    fn code(&self) -> (r: &'static str)
        ensures
            r@ == "SL201"@,
    {
        "SL201"
    }

    fn name(&self) -> (r: &'static str)
        ensures
            r@ == "description-too-short"@,
    {
        "description-too-short"
    }

    fn default_severity(&self) -> (r: Severity)
        ensures
            r == Severity::Warning,
    {
        Severity::Warning
    }
}

impl SkillRule for TooShort {
    fn check(&self, skill: &Skill, config: &LintConfig, tokens: &TokenCounter) -> (r: Vec<Diagnostic>)
        ensures
            r@.map_values(|d: Diagnostic| d@) == too_short_finds(*skill, *config, tokens.spec_tokenizer()),
    {
        let mut out: Vec<Diagnostic> = Vec::new();
        let desc = skill.frontmatter.description.as_str();
        if blank_str(desc) {
            proof {
                assert(out@.map_values(|d: Diagnostic| d@) =~= too_short_finds(*skill, *config, tokens.spec_tokenizer()));
            }
            return out;
        }
        if let Some(count) = tokens.count(desc) {
        if count < config.description_min_tokens {
            let mut message = String::new();
            push_str(&mut message, "description is only ");
            push_decimal(&mut message, count);
            push_str(&mut message, " tokens, below the minimum of ");
            push_decimal(&mut message, config.description_min_tokens);
            let mut fix = String::new();
            push_str(&mut fix, "expand the description to state both what the skill does and when to use it");
            out.push(finding(self.code(), message, self.default_severity(), skill.path.as_str(),
                skill.frontmatter.description_line, fix));
        }
        }
        proof {
            assert(out@.map_values(|d: Diagnostic| d@) =~= too_short_finds(*skill, *config, tokens.spec_tokenizer()));
        }
        out
    }
}

impl Rule for TooLong {
    fn code(&self) -> (r: &'static str)
        ensures
            r@ == "SL202"@,
    {
        "SL202"
    }

    fn name(&self) -> (r: &'static str)
        ensures
            r@ == "description-too-long"@,
    {
        "description-too-long"
    }

    fn default_severity(&self) -> (r: Severity)
        ensures
            r == Severity::Warning,
    {
        Severity::Warning
    }
}

impl SkillRule for TooLong {
    fn check(&self, skill: &Skill, config: &LintConfig, tokens: &TokenCounter) -> (r: Vec<Diagnostic>)
        ensures
            r@.map_values(|d: Diagnostic| d@) == too_long_finds(*skill, *config, tokens.spec_tokenizer()),
    {
        let mut out: Vec<Diagnostic> = Vec::new();
        if let Some(count) = tokens.count(skill.frontmatter.description.as_str()) {
        if count > config.description_max_tokens {
            let mut message = String::new();
            push_str(&mut message, "description is ");
            push_decimal(&mut message, count);
            push_str(&mut message, " tokens, over the budget of ");
            push_decimal(&mut message, config.description_max_tokens);
            let mut fix = String::new();
            push_str(&mut fix, "trim the description to one or two sentences");
            out.push(finding(self.code(), message, self.default_severity(), skill.path.as_str(),
                skill.frontmatter.description_line, fix));
        }
        }
        proof {
            assert(out@.map_values(|d: Diagnostic| d@) =~= too_long_finds(*skill, *config, tokens.spec_tokenizer()));
        }
        out
    }
}

impl Rule for MissingTriggerPhrase {
    fn code(&self) -> (r: &'static str)
        ensures
            r@ == "SL203"@,
    {
        "SL203"
    }

    fn name(&self) -> (r: &'static str)
        ensures
            r@ == "missing-trigger-phrase"@,
    {
        "missing-trigger-phrase"
    }

    fn default_severity(&self) -> (r: Severity)
        ensures
            r == Severity::Warning,
    {
        Severity::Warning
    }
}

impl SkillRule for MissingTriggerPhrase {
    fn check(&self, skill: &Skill, config: &LintConfig, tokens: &TokenCounter) -> (r: Vec<Diagnostic>)
        ensures
            r@.map_values(|d: Diagnostic| d@) == missing_trigger_phrase_finds(*skill),
    {
        let mut out: Vec<Diagnostic> = Vec::new();
        let lower = to_lowercase(skill.frontmatter.description.as_str());
        let lc = chars_of(lower.as_str());
        let phrases = trigger_phrase_list();
        if !blank_str(lower.as_str()) && !contains_any(&lc, &phrases) {
            let mut message = String::new();
            push_str(&mut message, "description does not state when the skill should be used");
            let mut fix = String::new();
            push_str(&mut fix, "add trigger phrasing, e.g. \"Use when the user asks to...\"");
            out.push(finding(self.code(), message, self.default_severity(), skill.path.as_str(),
                skill.frontmatter.description_line, fix));
        }
        proof {
            assert(out@.map_values(|d: Diagnostic| d@) =~= missing_trigger_phrase_finds(*skill));
        }
        out
    }
}

impl Rule for FirstPerson {
    fn code(&self) -> (r: &'static str)
        ensures
            r@ == "SL204"@,
    {
        "SL204"
    }

    fn name(&self) -> (r: &'static str)
        ensures
            r@ == "first-person-description"@,
    {
        "first-person-description"
    }

    fn default_severity(&self) -> (r: Severity)
        ensures
            r == Severity::Warning,
    {
        Severity::Warning
    }
}

/// Whether the first whitespace-separated word of `t` is `i` once stripped
/// of surrounding punctuation.
fn first_word_is_i(t: &Vec<char>) -> (r: bool)
    ensures
        r == starts_with_i(t@),
{
    let ws = runs_of(t, CharClass::NotWhitespace);
    proof {
        assert(class_pred(CharClass::NotWhitespace) == (|c: char| !unicode_whitespace(c)));
    }
    if ws.len() == 0 {
        return false;
    }
    let s = strip_non_alphanumeric(&ws[0]);
    let r = s.len() == 1 && s[0] == 'i';
    proof {
        if r {
            assert(s@ =~= seq!['i']);
        }
    }
    r
}

impl SkillRule for FirstPerson {
    fn check(&self, skill: &Skill, config: &LintConfig, tokens: &TokenCounter) -> (r: Vec<Diagnostic>)
        ensures
            r@.map_values(|d: Diagnostic| d@) == first_person_finds(*skill),
    {
        let mut out: Vec<Diagnostic> = Vec::new();
        let lower = to_lowercase(skill.frontmatter.description.as_str());
        let lc = chars_of(lower.as_str());
        let phrases = first_person_phrase_list();
        if contains_any(&lc, &phrases) || first_word_is_i(&lc) {
            let mut message = String::new();
            push_str(&mut message, "description is written in first person; descriptions should be third person");
            let mut fix = String::new();
            push_str(&mut fix, "rewrite in third person, e.g. \"Extracts...\" instead of \"I extract...\"");
            out.push(finding(self.code(), message, self.default_severity(), skill.path.as_str(),
                skill.frontmatter.description_line, fix));
        }
        proof {
            assert(out@.map_values(|d: Diagnostic| d@) =~= first_person_finds(*skill));
        }
        out
    }
}

impl Rule for RestatesName {
    fn code(&self) -> (r: &'static str)
        ensures
            r@ == "SL205"@,
    {
        "SL205"
    }

    fn name(&self) -> (r: &'static str)
        ensures
            r@ == "description-restates-name"@,
    {
        "description-restates-name"
    }

    fn default_severity(&self) -> (r: Severity)
        ensures
            r == Severity::Warning,
    {
        Severity::Warning
    }
}

impl SkillRule for RestatesName {
    fn check(&self, skill: &Skill, config: &LintConfig, tokens: &TokenCounter) -> (r: Vec<Diagnostic>)
        ensures
            r@.map_values(|d: Diagnostic| d@) == restates_name_finds(*skill),
    {
        let mut out: Vec<Diagnostic> = Vec::new();
        let name_words = words(skill.frontmatter.name.as_str());
        let desc_words = words(skill.frontmatter.description.as_str());
        let ghost nw = views(name_words@);
        let ghost dw = views(desc_words@);
        if name_words.len() == 0 || desc_words.len() < 2 {
            proof {
                assert(out@.map_values(|d: Diagnostic| d@) =~= restates_name_finds(*skill));
            }
            return out;
        }
        let mut overlap: usize = 0;
        let mut i: usize = 0;
        while i < desc_words.len()
            invariant
                i <= desc_words.len(),
                nw == views(name_words@),
                dw == views(desc_words@),
                overlap == count_in(dw.take(i as int), nw),
                overlap <= i,
            decreases desc_words.len() - i,
        {
            proof {
                assert(dw.take(i + 1).drop_last() =~= dw.take(i as int));
                assert(dw.take(i + 1).last() == desc_words@[i as int]@);
            }
            if contains_word(&name_words, &desc_words[i]) {
                overlap += 1;
            }
            i += 1;
        }
        proof {
            assert(dw.take(desc_words.len() as int) =~= dw);
        }
        if overlap <= desc_words.len() && 5 * (overlap as u128) >= 4 * (desc_words.len() as u128) {
            let mut message = String::new();
            push_str(&mut message, "description is little more than the skill name reworded");
            let mut fix = String::new();
            push_str(&mut fix, "describe what the skill does and when to use it, not just its name");
            out.push(finding(self.code(), message, self.default_severity(), skill.path.as_str(),
                skill.frontmatter.description_line, fix));
        }
        proof {
            assert(out@.map_values(|d: Diagnostic| d@) =~= restates_name_finds(*skill));
        }
        out
    }
}

impl Rule for NoNegativeGuidance {
    fn code(&self) -> (r: &'static str)
        ensures
            r@ == "SL206"@,
    {
        "SL206"
    }

    fn name(&self) -> (r: &'static str)
        ensures
            r@ == "no-negative-guidance"@,
    {
        "no-negative-guidance"
    }

    fn default_severity(&self) -> (r: Severity)
        ensures
            r == Severity::Info,
    {
        Severity::Info
    }
}

impl SkillRule for NoNegativeGuidance {
    fn check(&self, skill: &Skill, config: &LintConfig, tokens: &TokenCounter) -> (r: Vec<Diagnostic>)
        ensures
            r@.map_values(|d: Diagnostic| d@) == no_negative_guidance_finds(*skill),
    {
        let mut out: Vec<Diagnostic> = Vec::new();
        let lower = to_lowercase(skill.frontmatter.description.as_str());
        let lc = chars_of(lower.as_str());
        let phrases = negative_phrase_list();
        if !blank_str(lower.as_str()) && !contains_any(&lc, &phrases) {
            let mut message = String::new();
            push_str(&mut message, "description gives no guidance on when not to use the skill");
            let mut fix = String::new();
            push_str(&mut fix, "consider adding \"Do not use for...\" guidance to reduce over-triggering");
            out.push(finding(self.code(), message, self.default_severity(), skill.path.as_str(),
                skill.frontmatter.description_line, fix));
        }
        proof {
            assert(out@.map_values(|d: Diagnostic| d@) =~= no_negative_guidance_finds(*skill));
        }
        out
    }
}

} // verus!
