//! The `adept.toml` configuration: its sections, and where it is looked
//! for.
//!
//! Precedence, highest first: a command-line flag, then the config file's
//! value, then the built-in default. The file is found by walking up from
//! the directory of the target path; `--config <path>` skips the walk.

use vstd::prelude::*;
use crate::chars::push_str;
use crate::path::{components, components_of, join_name, part_views, render, render_parts, PartView};
use crate::printer::FmtConfig;
use crate::rules::LintConfig;
use crate::text::{contains_word, views};
use crate::token::Tokenizer;

verus! {

/// The name of the configuration file.
pub const CONFIG_FILE_NAME: &'static str = "adept.toml";

/// The `[score]` section: LLM settings for `adept score`.
#[derive(Clone, Debug)]
pub struct ScoreFileConfig {
    pub model: Option<String>,
    pub base_url: Option<String>,
    /// Which encoding to count tokens with; `None` means the default.
    pub tokenizer: Option<Tokenizer>,
}

/// The `[fix]` section: LLM settings for `adept fix`, never falling back
/// to `[score]`.
#[derive(Clone, Debug)]
pub struct FixFileConfig {
    pub model: Option<String>,
    pub base_url: Option<String>,
    /// Which encoding to count tokens with; `None` means the default.
    pub tokenizer: Option<Tokenizer>,
    /// How many fix rounds to try; `None` means the default.
    pub max_rounds: Option<usize>,
}

impl Default for ScoreFileConfig {
    fn default() -> (c: ScoreFileConfig)
        ensures
            c.model.is_none(),
            c.base_url.is_none(),
            c.tokenizer.is_none(),
    {
        ScoreFileConfig { model: None, base_url: None, tokenizer: None }
    }
}

impl Default for FixFileConfig {
    fn default() -> (c: FixFileConfig)
        ensures
            c.model.is_none(),
            c.base_url.is_none(),
            c.tokenizer.is_none(),
            c.max_rounds.is_none(),
    {
        FixFileConfig { model: None, base_url: None, tokenizer: None, max_rounds: None }
    }
}

/// The whole `adept.toml`.
#[derive(Clone, Debug)]
pub struct AdeptConfig {
    pub lint: LintConfig,
    pub fmt: FmtConfig,
    pub score: ScoreFileConfig,
    pub fix: FixFileConfig,
}

impl Default for AdeptConfig {
    fn default() -> (c: AdeptConfig)
        ensures
            c.lint.body_max_tokens == 1500,
            c.score.model.is_none(),
            c.fix.max_rounds.is_none(),
    {
        AdeptConfig {
            lint: LintConfig::default(),
            fmt: FmtConfig::default(),
            score: ScoreFileConfig::default(),
            fix: FixFileConfig::default(),
        }
    }
}

/// The fewest components a walk up from a path keeps: the root of an
/// absolute path is never popped.
pub open spec fn floor_of(cs: Seq<PartView>) -> nat {
    if cs.len() > 0 && cs[0] is Root {
        1
    } else {
        0
    }
}

/// The places `adept.toml` is looked for, walking up from directory `dir`:
/// `dir` itself first, then each parent in turn, up to the root of an
/// absolute path or the empty path of a relative one.
pub open spec fn config_candidates(dir: Seq<char>) -> Seq<Seq<char>> {
    let cs = components(dir);
    Seq::new(
        (cs.len() - floor_of(cs) + 1) as nat,
        |i: int| join_name(render(cs.take(cs.len() - i)), "adept.toml"@),
    )
}

/// The first entry of `cands` (from index `from` on) that is in `existing`.
pub open spec fn first_existing(cands: Seq<Seq<char>>, existing: Seq<Seq<char>>, from: int) -> Option<Seq<char>>
    decreases cands.len() - from,
{
    if from < 0 || from >= cands.len() {
        None
    } else if existing.contains(cands[from]) {
        Some(cands[from])
    } else {
        first_existing(cands, existing, from + 1)
    }
}

fn join_config_name(dir: String) -> (r: String)
    ensures
        r@ == join_name(dir@, "adept.toml"@),
{
    let mut out = dir;
    let n = out.as_str().len();
    let cs = crate::chars::chars_of(out.as_str());
    if cs.len() == 0 {
        let mut name = String::new();
        push_str(&mut name, CONFIG_FILE_NAME);
        return name;
    }
    if cs[cs.len() - 1] != '/' {
        push_str(&mut out, "/");
    }
    push_str(&mut out, CONFIG_FILE_NAME);
    proof {
        if cs@.last() != '/' {
            assert(out@ =~= dir@ + "/"@ + "adept.toml"@);
        }
    }
    out
}

/// The places `adept.toml` is looked for, walking up from directory `dir`,
/// nearest first.
pub fn config_search_path(dir: &str) -> (r: Vec<String>)
    ensures
        views(r@) == config_candidates(dir@),
{
    let parts = components_of(dir);
    let ghost cs = part_views(parts@);
    let n = parts.len();
    let floor: usize = if n > 0 && matches!(parts[0], crate::path::Part::Root) { 1 } else { 0 };
    proof {
        if n > 0 {
            assert(cs[0] == parts@[0]@);
        }
        assert(floor == floor_of(cs));
    }
    let ghost cands = config_candidates(dir@);
    let last = n - floor;
    let mut out: Vec<String> = Vec::new();
    let mut c: usize = 0;
    loop
        invariant_except_break
            floor <= n == parts.len(),
            cs == part_views(parts@),
            cs == components(dir@),
            cands == config_candidates(dir@),
            floor == floor_of(cs),
            last == n - floor,
            c <= last,
            views(out@) == cands.take(c as int),
        ensures
            views(out@) == cands.take(last + 1),
        decreases last - c,
    {
        let ghost before = views(out@);
        let candidate = join_config_name(render_parts(&parts, n - c));
        out.push(candidate);
        proof {
            assert(views(out@) =~= before.push(join_name(render(cs.take((n - c) as int)), "adept.toml"@)));
            assert(cands[c as int] == join_name(render(cs.take((n - c) as int)), "adept.toml"@));
            assert(cands.take(c + 1) =~= cands.take(c as int).push(cands[c as int]));
        }
        if c == last {
            break;
        }
        c += 1;
    }
    proof {
        assert(cands.take(last + 1) =~= cands);
    }
    out
}

/// The nearest `adept.toml` walking up from directory `dir`, given which
/// files exist: the first of [`config_search_path`]`(dir)` that is among
/// `existing`.
pub fn discover_config_file(dir: &str, existing: &Vec<String>) -> (r: Option<String>)
    ensures
        match r {
            Some(s) => first_existing(config_candidates(dir@), views(existing@), 0) == Some(s@),
            None => first_existing(config_candidates(dir@), views(existing@), 0).is_none(),
        },
{
    let cands = config_search_path(dir);
    let ghost cv = views(cands@);
    let mut i: usize = 0;
    while i < cands.len()
        invariant
            i <= cands.len(),
            cv == views(cands@),
            cv == config_candidates(dir@),
            first_existing(cv, views(existing@), 0) == first_existing(cv, views(existing@), i as int),
        decreases cands.len() - i,
    {
        proof {
            assert(cv[i as int] == cands@[i as int]@);
        }
        if contains_word(existing, &cands[i]) {
            return Some(cands[i].clone());
        }
        i += 1;
    }
    None
}

} // verus!
