//! `SL3xx` token budget rules.

use vstd::prelude::*;
use crate::chars::{decimal, push_decimal, push_str};
use crate::companion::{is_license_file, license_name};
use crate::diagnostic::{diag_spec, CompanionFile, Diagnostic, DiagnosticView, Severity, Skill};
use crate::token::{token_count, TokenCounter, Tokenizer};
use super::{finding, LintConfig, Rule, SkillRule};

verus! {

/// `SL301` `description-tokens-over-budget`: the description has more
/// tokens than [`LintConfig::description_max_tokens`].
pub struct DescriptionTokenBudget;

/// `SL302` `body-tokens-over-budget`: the body has more tokens than
/// [`LintConfig::body_max_tokens`].
pub struct BodyTokenBudget;

/// `SL303` `companion-file-bloat`: a companion file has more tokens than
/// [`LintConfig::companion_file_max_tokens`]. License files are exempt, and
/// so are files that could not be read as text.
pub struct CompanionFileBloat;

pub open spec fn description_budget_finds(skill: Skill, config: LintConfig, tokenizer: Tokenizer) -> Seq<
    DiagnosticView,
> {
    match token_count(tokenizer, skill.frontmatter.description@) {
        Some(count) if count > config.description_max_tokens => seq![
            diag_spec(
                "SL301"@,
                "description token budget exceeded: "@ + decimal(count) + " tokens (budget: "@
                    + decimal(config.description_max_tokens as nat) + ")"@,
                Severity::Error,
                skill.path@,
                skill.frontmatter.description_line as nat,
                Some("shorten the description below the configured token budget"@),
            ),
        ],
        _ => seq![],
    }
}

pub open spec fn body_budget_finds(skill: Skill, config: LintConfig, tokenizer: Tokenizer) -> Seq<
    DiagnosticView,
> {
    match token_count(tokenizer, skill.body@) {
        Some(count) if count > config.body_max_tokens => seq![
            diag_spec(
                "SL302"@,
                "SKILL.md body is "@ + decimal(count) + " tokens, over the budget of "@ + decimal(
                    config.body_max_tokens as nat,
                ),
                Severity::Error,
                skill.path@,
                skill.body_line_offset as nat,
                Some("move detailed reference material into companion files loaded on demand"@),
            ),
        ],
        _ => seq![],
    }
}

/// The diagnostic for one companion file, if it is over budget.
pub open spec fn companion_finds(
    file: CompanionFile,
    skill: Skill,
    config: LintConfig,
    tokenizer: Tokenizer,
) -> Seq<DiagnosticView> {
    match file.contents {
        None => seq![],
        Some(text) => match token_count(tokenizer, text@) {
            Some(count) if !license_name(file.name@) && count > config.companion_file_max_tokens => seq![
                diag_spec(
                    "SL303"@,
                    "companion file \""@ + file.name@ + "\" is "@ + decimal(count)
                        + " tokens, over the budget of "@ + decimal(config.companion_file_max_tokens as nat),
                    Severity::Warning,
                    skill.path@,
                    1,
                    Some("split the companion file or trim it down"@),
                ),
            ],
            _ => seq![],
        },
    }
}

/// The diagnostics for the companion files `files`, in order.
pub open spec fn companions_finds(
    files: Seq<CompanionFile>,
    skill: Skill,
    config: LintConfig,
    tokenizer: Tokenizer,
) -> Seq<DiagnosticView>
    decreases files.len(),
{
    if files.len() == 0 {
        seq![]
    } else {
        companions_finds(files.drop_last(), skill, config, tokenizer) + companion_finds(
            files.last(),
            skill,
            config,
            tokenizer,
        )
    }
}

pub open spec fn companion_bloat_finds(skill: Skill, config: LintConfig, tokenizer: Tokenizer) -> Seq<
    DiagnosticView,
> {
    companions_finds(skill.companions@, skill, config, tokenizer)
}

impl Rule for DescriptionTokenBudget {
    fn code(&self) -> (r: &'static str)
        ensures
            r@ == "SL301"@,
    {
        "SL301"
    }

    fn name(&self) -> (r: &'static str)
        ensures
            r@ == "description-tokens-over-budget"@,
    {
        "description-tokens-over-budget"
    }

    fn default_severity(&self) -> (r: Severity)
        ensures
            r == Severity::Error,
    {
        Severity::Error
    }
}

impl SkillRule for DescriptionTokenBudget {
    fn check(&self, skill: &Skill, config: &LintConfig, tokens: &TokenCounter) -> (r: Vec<Diagnostic>)
        ensures
            r@.map_values(|d: Diagnostic| d@) == description_budget_finds(*skill, *config, tokens.spec_tokenizer()),
    {
        let mut out: Vec<Diagnostic> = Vec::new();
        if let Some(count) = tokens.count(skill.frontmatter.description.as_str()) {
        if count > config.description_max_tokens {
            let mut message = String::new();
            push_str(&mut message, "description token budget exceeded: ");
            push_decimal(&mut message, count);
            push_str(&mut message, " tokens (budget: ");
            push_decimal(&mut message, config.description_max_tokens);
            push_str(&mut message, ")");
            let mut fix = String::new();
            push_str(&mut fix, "shorten the description below the configured token budget");
            out.push(finding(self.code(), message, self.default_severity(), skill.path.as_str(),
                skill.frontmatter.description_line, fix));
        }
        }
        proof {
            assert(out@.map_values(|d: Diagnostic| d@) =~= description_budget_finds(*skill, *config, tokens.spec_tokenizer()));
        }
        out
    }
}

impl Rule for BodyTokenBudget {
    fn code(&self) -> (r: &'static str)
        ensures
            r@ == "SL302"@,
    {
        "SL302"
    }

    fn name(&self) -> (r: &'static str)
        ensures
            r@ == "body-tokens-over-budget"@,
    {
        "body-tokens-over-budget"
    }

    fn default_severity(&self) -> (r: Severity)
        ensures
            r == Severity::Error,
    {
        Severity::Error
    }
}

impl SkillRule for BodyTokenBudget {
    fn check(&self, skill: &Skill, config: &LintConfig, tokens: &TokenCounter) -> (r: Vec<Diagnostic>)
        ensures
            r@.map_values(|d: Diagnostic| d@) == body_budget_finds(*skill, *config, tokens.spec_tokenizer()),
    {
        let mut out: Vec<Diagnostic> = Vec::new();
        if let Some(count) = tokens.count(skill.body.as_str()) {
        if count > config.body_max_tokens {
            let mut message = String::new();
            push_str(&mut message, "SKILL.md body is ");
            push_decimal(&mut message, count);
            push_str(&mut message, " tokens, over the budget of ");
            push_decimal(&mut message, config.body_max_tokens);
            let mut fix = String::new();
            push_str(&mut fix, "move detailed reference material into companion files loaded on demand");
            out.push(finding(self.code(), message, self.default_severity(), skill.path.as_str(),
                skill.body_line_offset, fix));
        }
        }
        proof {
            assert(out@.map_values(|d: Diagnostic| d@) =~= body_budget_finds(*skill, *config, tokens.spec_tokenizer()));
        }
        out
    }
}

impl Rule for CompanionFileBloat {
    fn code(&self) -> (r: &'static str)
        ensures
            r@ == "SL303"@,
    {
        "SL303"
    }

    fn name(&self) -> (r: &'static str)
        ensures
            r@ == "companion-file-bloat"@,
    {
        "companion-file-bloat"
    }

    fn default_severity(&self) -> (r: Severity)
        ensures
            r == Severity::Warning,
    {
        Severity::Warning
    }
}

impl SkillRule for CompanionFileBloat {
    fn check(&self, skill: &Skill, config: &LintConfig, tokens: &TokenCounter) -> (r: Vec<Diagnostic>)
        ensures
            r@.map_values(|d: Diagnostic| d@) == companion_bloat_finds(*skill, *config, tokens.spec_tokenizer()),
    {
        let ghost t = tokens.spec_tokenizer();
        let mut out: Vec<Diagnostic> = Vec::new();
        let mut i: usize = 0;
        while i < skill.companions.len()
            invariant
                i <= skill.companions.len(),
                t == tokens.spec_tokenizer(),
                out@.map_values(|d: Diagnostic| d@) == companions_finds(
                    skill.companions@.take(i as int),
                    *skill,
                    *config,
                    t,
                ),
            decreases skill.companions.len() - i,
        {
            let file = &skill.companions[i];
            let ghost before = out@.map_values(|d: Diagnostic| d@);
            proof {
                assert(skill.companions@.take(i + 1).drop_last() =~= skill.companions@.take(i as int));
                assert(skill.companions@.take(i + 1).last() == *file);
            }
            match &file.contents {
                None => {
                    proof {
                        assert(out@.map_values(|d: Diagnostic| d@) =~= before + companion_finds(*file, *skill, *config, t));
                    }
                },
                Some(text) => {
                    let exempt = is_license_file(file.name.as_str());
                    if let Some(count) = tokens.count(text.as_str()) {
                    if !exempt && count > config.companion_file_max_tokens {
                        let mut message = String::new();
                        push_str(&mut message, "companion file \"");
                        push_str(&mut message, file.name.as_str());
                        push_str(&mut message, "\" is ");
                        push_decimal(&mut message, count);
                        push_str(&mut message, " tokens, over the budget of ");
                        push_decimal(&mut message, config.companion_file_max_tokens);
                        let mut fix = String::new();
                        push_str(&mut fix, "split the companion file or trim it down");
                        out.push(finding(self.code(), message, self.default_severity(),
                            skill.path.as_str(), 1, fix));
                    }
                    }
                    proof {
                        assert(out@.map_values(|d: Diagnostic| d@) =~= before + companion_finds(*file, *skill, *config, t));
                    }
                },
            }
            i += 1;
        }
        proof {
            assert(skill.companions@.take(skill.companions.len() as int) =~= skill.companions@);
        }
        out
    }
}

} // verus!
