//! `SL00x` frontmatter and naming rules.
//!
//! `SL003` (`malformed-frontmatter`) has no rule type here: a skill whose
//! frontmatter is malformed never parses, so its diagnostic is made from the
//! parse error by [`super::parse_error_diagnostic`].

use vstd::prelude::*;
use crate::chars::{is_blank, push_str};
use crate::diagnostic::{diag_spec, Diagnostic, DiagnosticView, Severity, Skill};
use crate::path::{dir_name, parent_dir_name};
use crate::text::{is_kebab_case, kebab_of, kebab_spec, to_kebab_case};
use crate::token::TokenCounter;
use super::{blank_str, finding, LintConfig, Rule, SkillRule};

verus! {

/// `SL001` `missing-description`: the `description` field is present but
/// empty or whitespace-only.
pub struct MissingDescription;

/// `SL002` `missing-name`: the `name` field is present but empty or
/// whitespace-only.
pub struct MissingName;

/// `SL004` `name-mismatch`: `name` differs from the name of the directory
/// that holds SKILL.md.
pub struct NameMismatch;

/// `SL005` `invalid-name-format`: `name` is not kebab-case.
pub struct InvalidNameFormat;

pub open spec fn missing_description_finds(skill: Skill) -> Seq<DiagnosticView> {
    if is_blank(skill.frontmatter.description@) {
        seq![
            diag_spec(
                "SL001"@,
                "the `description` frontmatter field is empty"@,
                Severity::Error,
                skill.path@,
                skill.frontmatter.description_line as nat,
                Some("write a description stating what the skill does and when to use it"@),
            ),
        ]
    } else {
        seq![]
    }
}

pub open spec fn missing_name_finds(skill: Skill) -> Seq<DiagnosticView> {
    if is_blank(skill.frontmatter.name@) {
        seq![
            diag_spec(
                "SL002"@,
                "the `name` frontmatter field is empty"@,
                Severity::Error,
                skill.path@,
                skill.frontmatter.name_line as nat,
                Some("set `name` to match the skill's directory name"@),
            ),
        ]
    } else {
        seq![]
    }
}

pub open spec fn name_mismatch_message(name: Seq<char>, dir: Seq<char>) -> Seq<char> {
    "frontmatter `name` (\""@ + name + "\") does not match the containing directory name (\""@ + dir
        + "\")"@
}

pub open spec fn name_mismatch_fix(name: Seq<char>, dir: Seq<char>) -> Seq<char> {
    "rename the `name` field to \""@ + dir + "\", or rename the directory to \""@ + name + "\""@
}

pub open spec fn name_mismatch_finds(skill: Skill) -> Seq<DiagnosticView> {
    let name = skill.frontmatter.name@;
    match dir_name(skill.path@) {
        None => seq![],
        Some(dir) => if is_blank(name) || name == dir {
            seq![]
        } else {
            seq![
                diag_spec(
                    "SL004"@,
                    name_mismatch_message(name, dir),
                    Severity::Warning,
                    skill.path@,
                    skill.frontmatter.name_line as nat,
                    Some(name_mismatch_fix(name, dir)),
                ),
            ]
        },
    }
}

pub open spec fn invalid_name_format_finds(skill: Skill) -> Seq<DiagnosticView> {
    let name = skill.frontmatter.name@;
    if is_blank(name) || kebab_spec(name) {
        seq![]
    } else {
        seq![
            diag_spec(
                "SL005"@,
                "`name` (\""@ + name + "\") is not kebab-case"@,
                Severity::Error,
                skill.path@,
                skill.frontmatter.name_line as nat,
                Some("use lowercase letters, digits, and hyphens only, e.g. \""@ + kebab_of(name) + "\""@),
            ),
        ]
    }
}

impl Rule for MissingDescription {
    fn code(&self) -> (r: &'static str)
        ensures
            r@ == "SL001"@,
    {
        "SL001"
    }

    fn name(&self) -> (r: &'static str)
        ensures
            r@ == "missing-description"@,
    {
        "missing-description"
    }

    fn default_severity(&self) -> (r: Severity)
        ensures
            r == Severity::Error,
    {
        Severity::Error
    }
}

impl SkillRule for MissingDescription {
    fn check(&self, skill: &Skill, config: &LintConfig, tokens: &TokenCounter) -> (r: Vec<Diagnostic>)
        ensures
            r@.map_values(|d: Diagnostic| d@) == missing_description_finds(*skill),
    {
        let mut out: Vec<Diagnostic> = Vec::new();
        if blank_str(skill.frontmatter.description.as_str()) {
            let mut message = String::new();
            push_str(&mut message, "the `description` frontmatter field is empty");
            let mut fix = String::new();
            push_str(&mut fix, "write a description stating what the skill does and when to use it");
            out.push(finding(self.code(), message, self.default_severity(), skill.path.as_str(),
                skill.frontmatter.description_line, fix));
        }
        proof {
            assert(out@.map_values(|d: Diagnostic| d@) =~= missing_description_finds(*skill));
        }
        out
    }
}

impl Rule for MissingName {
    fn code(&self) -> (r: &'static str)
        ensures
            r@ == "SL002"@,
    {
        "SL002"
    }

    fn name(&self) -> (r: &'static str)
        ensures
            r@ == "missing-name"@,
    {
        "missing-name"
    }

    fn default_severity(&self) -> (r: Severity)
        ensures
            r == Severity::Error,
    {
        Severity::Error
    }
}

impl SkillRule for MissingName {
    fn check(&self, skill: &Skill, config: &LintConfig, tokens: &TokenCounter) -> (r: Vec<Diagnostic>)
        ensures
            r@.map_values(|d: Diagnostic| d@) == missing_name_finds(*skill),
    {
        let mut out: Vec<Diagnostic> = Vec::new();
        if blank_str(skill.frontmatter.name.as_str()) {
            let mut message = String::new();
            push_str(&mut message, "the `name` frontmatter field is empty");
            let mut fix = String::new();
            push_str(&mut fix, "set `name` to match the skill's directory name");
            out.push(finding(self.code(), message, self.default_severity(), skill.path.as_str(),
                skill.frontmatter.name_line, fix));
        }
        proof {
            assert(out@.map_values(|d: Diagnostic| d@) =~= missing_name_finds(*skill));
        }
        out
    }
}

impl Rule for NameMismatch {
    fn code(&self) -> (r: &'static str)
        ensures
            r@ == "SL004"@,
    {
        "SL004"
    }

    fn name(&self) -> (r: &'static str)
        ensures
            r@ == "name-mismatch"@,
    {
        "name-mismatch"
    }

    fn default_severity(&self) -> (r: Severity)
        ensures
            r == Severity::Warning,
    {
        Severity::Warning
    }
}

impl SkillRule for NameMismatch {
    fn check(&self, skill: &Skill, config: &LintConfig, tokens: &TokenCounter) -> (r: Vec<Diagnostic>)
        ensures
            r@.map_values(|d: Diagnostic| d@) == name_mismatch_finds(*skill),
    {
        let mut out: Vec<Diagnostic> = Vec::new();
        let dir = match parent_dir_name(skill.path.as_str()) {
            Some(d) => d,
            None => {
                proof {
                    assert(out@.map_values(|d: Diagnostic| d@) =~= name_mismatch_finds(*skill));
                }
                return out;
            },
        };
        let name = skill.frontmatter.name.as_str();
        if blank_str(name) || skill.frontmatter.name == dir {
            proof {
                assert(out@.map_values(|d: Diagnostic| d@) =~= name_mismatch_finds(*skill));
            }
            return out;
        }
        let mut message = String::new();
        push_str(&mut message, "frontmatter `name` (\"");
        push_str(&mut message, name);
        push_str(&mut message, "\") does not match the containing directory name (\"");
        push_str(&mut message, dir.as_str());
        push_str(&mut message, "\")");
        let mut fix = String::new();
        push_str(&mut fix, "rename the `name` field to \"");
        push_str(&mut fix, dir.as_str());
        push_str(&mut fix, "\", or rename the directory to \"");
        push_str(&mut fix, name);
        push_str(&mut fix, "\"");
        out.push(finding(self.code(), message, self.default_severity(), skill.path.as_str(),
            skill.frontmatter.name_line, fix));
        proof {
            assert(out@.map_values(|d: Diagnostic| d@) =~= name_mismatch_finds(*skill));
        }
        out
    }
}

impl Rule for InvalidNameFormat {
    fn code(&self) -> (r: &'static str)
        ensures
            r@ == "SL005"@,
    {
        "SL005"
    }

    fn name(&self) -> (r: &'static str)
        ensures
            r@ == "invalid-name-format"@,
    {
        "invalid-name-format"
    }

    fn default_severity(&self) -> (r: Severity)
        ensures
            r == Severity::Error,
    {
        Severity::Error
    }
}

impl SkillRule for InvalidNameFormat {
    fn check(&self, skill: &Skill, config: &LintConfig, tokens: &TokenCounter) -> (r: Vec<Diagnostic>)
        ensures
            r@.map_values(|d: Diagnostic| d@) == invalid_name_format_finds(*skill),
    {
        let mut out: Vec<Diagnostic> = Vec::new();
        let name = skill.frontmatter.name.as_str();
        if blank_str(name) || is_kebab_case(name) {
            proof {
                assert(out@.map_values(|d: Diagnostic| d@) =~= invalid_name_format_finds(*skill));
            }
            return out;
        }
        let mut message = String::new();
        push_str(&mut message, "`name` (\"");
        push_str(&mut message, name);
        push_str(&mut message, "\") is not kebab-case");
        let suggestion = to_kebab_case(name);
        let mut fix = String::new();
        push_str(&mut fix, "use lowercase letters, digits, and hyphens only, e.g. \"");
        push_str(&mut fix, suggestion.as_str());
        push_str(&mut fix, "\"");
        out.push(finding(self.code(), message, self.default_severity(), skill.path.as_str(),
            skill.frontmatter.name_line, fix));
        proof {
            assert(out@.map_values(|d: Diagnostic| d@) =~= invalid_name_format_finds(*skill));
        }
        out
    }
}

} // verus!
