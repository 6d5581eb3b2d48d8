//! Options for generating a new skill from a task brief.

use vstd::prelude::*;
use crate::printer::{BulletMarker, EmphasisMarker, FenceChar, FmtConfig, StrongMarker};
use crate::rules::LintConfig;
use crate::ratio::Ratio;
use crate::token::Tokenizer;

verus! {

/// Authoring rounds by default: one generation and one repair attempt.
pub const DEFAULT_MAX_ROUNDS: usize = 2;

/// Synthetic eval cases generated by default.
pub const DEFAULT_EVAL_CASES: usize = 10;

/// Which model to call, the lint and format configuration a candidate is
/// screened and canonicalized against, and how many repair rounds and eval
/// cases to produce.
#[derive(Clone, Debug)]
pub struct CreateOptions {
    /// The model used for both the authoring and the eval-generation calls.
    pub model: String,
    /// The encoding tokens are counted with; the same as
    /// `lint_config.tokenizer`.
    pub tokenizer: Tokenizer,
    /// Most authoring rounds (generation plus repairs).
    pub max_rounds: usize,
    /// How many synthetic eval cases to request.
    pub eval_cases: usize,
    /// The configuration diagnostics are found and their severity resolved
    /// under; it defines the repair gate too.
    pub lint_config: LintConfig,
    /// The layout the candidate's SKILL.md is canonicalized to.
    pub fmt_config: FmtConfig,
}

impl CreateOptions {
    /// The default options for `model`, counting tokens with `tokenizer`
    /// (in the embedded lint configuration as well).
    pub fn for_model(model: String, tokenizer: Tokenizer) -> (o: CreateOptions)
        ensures
            o.model@ == model@,
            o.tokenizer == tokenizer,
            o.max_rounds == DEFAULT_MAX_ROUNDS,
            o.eval_cases == DEFAULT_EVAL_CASES,
            o.lint_config.tokenizer == tokenizer,
            o.lint_config.disabled@.len() == 0,
            o.lint_config.severity_overrides@.len() == 0,
            o.lint_config.description_min_tokens == 6,
            o.lint_config.description_max_tokens == 75,
            o.lint_config.body_max_tokens == 1500,
            o.lint_config.companion_file_max_tokens == 2000,
            o.lint_config.similar_description_threshold == (Ratio { num: 3, den: 5 }),
            o.lint_config.trigger_overlap_threshold == (Ratio { num: 1, den: 2 }),
            o.fmt_config.line_width == 100,
            o.fmt_config.reflow_prose,
            o.fmt_config.bullet_marker == BulletMarker::Dash,
            o.fmt_config.fence_char == FenceChar::Backtick,
            o.fmt_config.emphasis_marker == EmphasisMarker::Star,
            o.fmt_config.strong_marker == StrongMarker::Star,
    {
        let mut lint_config = LintConfig::default();
        lint_config.tokenizer = tokenizer;
        CreateOptions {
            model,
            tokenizer,
            max_rounds: DEFAULT_MAX_ROUNDS,
            eval_cases: DEFAULT_EVAL_CASES,
            lint_config,
            fmt_config: FmtConfig::default(),
        }
    }
}

} // verus!
