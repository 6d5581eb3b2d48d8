//! The shared data model: a parsed skill, a set of skills, the lint finding
//! type, and the hard failures that stop a skill from parsing.

use vstd::prelude::*;
use crate::chars::push_str;

verus! {

/// How serious a diagnostic is.
#[derive(Clone, Copy, Debug, PartialEq, Eq, Structural)]
pub enum Severity {
    Error,
    Warning,
    Info,
}

/// One lint finding, located at a line and column of a file.
#[derive(Clone, Debug)]
pub struct Diagnostic {
    /// The rule code, e.g. `SL001`.
    pub code: String,
    pub message: String,
    pub severity: Severity,
    /// The file the finding is about, as the path was given.
    pub path: String,
    /// 1-based line.
    pub line: usize,
    /// 1-based column.
    pub column: usize,
    /// A suggested fix, if the rule has one.
    pub fix_suggestion: Option<String>,
}

/// The mathematical content of a [`Diagnostic`].
pub struct DiagnosticView {
    pub code: Seq<char>,
    pub message: Seq<char>,
    pub severity: Severity,
    pub path: Seq<char>,
    pub line: nat,
    pub column: nat,
    pub fix_suggestion: Option<Seq<char>>,
}

pub open spec fn opt_view(o: Option<String>) -> Option<Seq<char>> {
    match o {
        Some(s) => Some(s@),
        None => None,
    }
}

impl View for Diagnostic {
    type V = DiagnosticView;

    open spec fn view(&self) -> DiagnosticView {
        DiagnosticView {
            code: self.code@,
            message: self.message@,
            severity: self.severity,
            path: self.path@,
            line: self.line as nat,
            column: self.column as nat,
            fix_suggestion: opt_view(self.fix_suggestion),
        }
    }
}

/// The views of a sequence of diagnostics.
pub open spec fn diag_views(v: Seq<Diagnostic>) -> Seq<DiagnosticView> {
    v.map_values(|d: Diagnostic| d@)
}

/// The view of a diagnostic built from its parts.
pub open spec fn diag_spec(
    code: Seq<char>,
    message: Seq<char>,
    severity: Severity,
    path: Seq<char>,
    line: nat,
    fix: Option<Seq<char>>,
) -> DiagnosticView {
    DiagnosticView { code, message, severity, path, line, column: 1, fix_suggestion: fix }
}

/// A `String` holding `s`.
pub fn owned(s: &str) -> (r: String)
    ensures
        r@ == s@,
{
    let mut out = String::new();
    push_str(&mut out, s);
    out
}

impl Diagnostic {
    /// A diagnostic with no fix suggestion.
    pub fn new(
        code: &str,
        message: String,
        severity: Severity,
        path: &str,
        line: usize,
        column: usize,
    ) -> (d: Diagnostic)
        ensures
            d@ == (DiagnosticView {
                code: code@,
                message: message@,
                severity,
                path: path@,
                line: line as nat,
                column: column as nat,
                fix_suggestion: None,
            }),
    {
        Diagnostic {
            code: owned(code),
            message,
            severity,
            path: owned(path),
            line,
            column,
            fix_suggestion: None,
        }
    }

    /// This diagnostic with a fix suggestion attached.
    pub fn with_fix_suggestion(self, suggestion: String) -> (d: Diagnostic)
        ensures
            d@ == (DiagnosticView { fix_suggestion: Some(suggestion@), ..self@ }),
    {
        Diagnostic { fix_suggestion: Some(suggestion), ..self }
    }
}

/// A frontmatter key other than the well-known ones, kept verbatim.
#[derive(Clone, Debug)]
pub struct ExtraField {
    pub key: String,
    /// The value when it is a string; `None` for any other YAML value.
    pub value: Option<String>,
    /// 1-based line of the key in the file.
    pub line: usize,
}

/// The parsed YAML frontmatter of a SKILL.md file.
#[derive(Clone, Debug)]
pub struct Frontmatter {
    pub name: String,
    /// 1-based line of the `name` key.
    pub name_line: usize,
    pub description: String,
    /// 1-based line of the `description` key.
    pub description_line: usize,
    pub license: Option<String>,
    pub license_line: Option<usize>,
    /// Every other key of the frontmatter, in key order.
    pub extra: Vec<ExtraField>,
}

/// A file next to SKILL.md in the skill's directory.
#[derive(Clone, Debug)]
pub struct CompanionFile {
    /// The bare file name.
    pub name: String,
    /// The file's text, or `None` if it is binary or unreadable.
    pub contents: Option<String>,
}

/// One parsed SKILL.md file, together with what its checks need to know of
/// the directory around it.
#[derive(Clone, Debug)]
pub struct Skill {
    /// Path of the SKILL.md file, as given.
    pub path: String,
    pub frontmatter: Frontmatter,
    /// Everything after the frontmatter.
    pub body: String,
    /// 1-based line of the file on which the body starts.
    pub body_line_offset: usize,
    /// The whole file.
    pub source: String,
    /// The regular files next to SKILL.md, sorted by name.
    pub companions: Vec<CompanionFile>,
    /// Of the body's file references (see
    /// [`crate::rules::structure::referenced_paths`]), those that exist on
    /// disk relative to the skill's directory.
    pub existing_references: Vec<String>,
}

/// A hard failure: the input could not be read or parsed at all, as opposed
/// to a lint finding.
#[derive(Clone, Debug)]
pub enum AdeptError {
    /// A required frontmatter field (`name` or `description`) is absent.
    MissingField { path: String, field: String },
    /// The file does not start with a `---` line.
    MissingFrontmatter { path: String },
    /// The `---` frontmatter block is never closed.
    UnterminatedFrontmatter { path: String },
    /// The frontmatter is not valid YAML.
    InvalidYaml { path: String, message: String },
    /// The frontmatter is valid YAML but not a mapping.
    FrontmatterNotMapping { path: String },
    /// A well-known field has a non-string value.
    InvalidFieldType { path: String, field: String },
    /// Reading a file failed.
    Io { path: String, message: String },
    /// Walking a directory tree failed.
    WalkDir(String),
    /// A path given on the command line does not exist.
    NotFound(String),
    /// The tokenizer's BPE tables could not be loaded.
    TokenizerLoad { tokenizer: crate::token::Tokenizer, message: String },
    /// JSON rendering failed.
    Json(String),
}

/// All skills found under a path, plus the ones that failed to parse.
#[derive(Clone, Debug)]
pub struct SkillSet {
    pub skills: Vec<Skill>,
    /// The SKILL.md files that failed to parse, with why.
    pub errors: Vec<(String, AdeptError)>,
}

} // verus!
