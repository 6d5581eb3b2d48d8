//! The `adept` command line: its arguments, and the decisions the commands
//! make from them (which setting wins, which exit code, what summary).

use vstd::prelude::*;
use crate::chars::{decimal, push_decimal, push_str};
use crate::rules::{all_meta_spec, registered_meta, LintConfig, MetaView, Registry};
use crate::text::{contains_word, views};
use crate::token::Tokenizer;

verus! {

/// Success, and nothing pending.
pub const EXIT_OK: i32 = 0;
/// `--check` found changes that would be made (or diagnostics were found).
pub const EXIT_CHANGES_PENDING: i32 = 1;
/// A usage or I/O error.
pub const EXIT_USAGE_ERROR: i32 = 2;

/// How results are printed.
#[derive(Clone, Copy, Debug, PartialEq, Eq, Structural)]
pub enum OutputFormat {
    Human,
    Json,
}

impl Default for OutputFormat {
    fn default() -> (r: OutputFormat)
        ensures
            r == OutputFormat::Human,
    {
        OutputFormat::Human
    }
}

/// `adept check`: lint skills.
#[derive(Clone, Debug)]
pub struct CheckArgs {
    /// Files or directories to check.
    pub paths: Vec<String>,
    pub format: OutputFormat,
    /// Only run these rules (codes or names).
    pub select: Vec<String>,
    /// Disable these rules (codes or names).
    pub ignore: Vec<String>,
    /// Print per-rule counts.
    pub statistics: bool,
    /// Always exit 0.
    pub exit_zero: bool,
    /// The encoding tokens are counted with; overrides `[lint] tokenizer`.
    pub tokenizer: Option<Tokenizer>,
}

/// `adept fmt`: format SKILL.md files.
#[derive(Clone, Debug)]
pub struct FmtArgs {
    /// Files or directories to format.
    pub paths: Vec<String>,
    /// Write nothing; exit 1 if a file would change.
    pub check: bool,
    /// Print a diff of what would change, writing nothing.
    pub diff: bool,
    /// The width prose is reflowed to.
    pub line_width: Option<usize>,
}

/// `adept score`: score one skill with an LLM.
#[derive(Clone, Debug)]
pub struct ScoreArgs {
    /// The SKILL.md file or skill directory to score.
    pub path: String,
    pub format: OutputFormat,
    pub model: Option<String>,
    pub base_url: Option<String>,
    pub num_prompts: Option<usize>,
    pub seed: Option<u64>,
    pub judge_samples: Option<usize>,
    /// The encoding tokens are counted with; overrides `[score] tokenizer`.
    pub tokenizer: Option<Tokenizer>,
}

/// The subcommands.
#[derive(Clone, Debug)]
pub enum Command {
    Check(CheckArgs),
    Fmt(FmtArgs),
    Score(ScoreArgs),
    /// Serve MCP over stdio.
    Mcp,
}

/// The whole command line.
#[derive(Clone, Debug)]
pub struct Cli {
    /// An explicit `adept.toml`, skipping discovery.
    pub config: Option<String>,
    pub no_color: bool,
    pub quiet: bool,
    pub command: Command,
}

/// The setting that applies: the flag's, else the config file's, else the
/// default.
pub open spec fn chosen<T>(flag: Option<T>, file: Option<T>, default: T) -> T {
    match flag {
        Some(v) => v,
        None => match file {
            Some(v) => v,
            None => default,
        },
    }
}

/// The number of fix rounds: the flag's, else the config file's, else
/// `default`.
pub fn resolve_max_rounds(flag: Option<usize>, file: Option<usize>, default: usize) -> (r: usize)
    ensures
        r == chosen(flag, file, default),
{
    match flag {
        Some(v) => v,
        None => match file {
            Some(v) => v,
            None => default,
        },
    }
}

/// The tokenizer: the flag's, else the config file's, else `o200k_base`.
pub fn resolve_tokenizer(flag: Option<Tokenizer>, file: Option<Tokenizer>) -> (r: Tokenizer)
    ensures
        r == chosen(flag, file, Tokenizer::O200kBase),
{
    match flag {
        Some(v) => v,
        None => match file {
            Some(v) => v,
            None => Tokenizer::O200kBase,
        },
    }
}

/// A flag always wins over the config file, and the config file over the
/// default.
pub proof fn flag_beats_file_beats_default<T>(flag: T, file: Option<T>, file_value: T, default: T)
    ensures
        chosen(Some(flag), file, default) == flag,
        chosen(None, Some(file_value), default) == file_value,
        chosen(None::<T>, None::<T>, default) == default,
{
}

/// `adept fix`'s exit code: with `--check`, 1 when any skill has pending
/// fixes, else 0; without it, 0.
pub fn fix_exit_code(check: bool, any_pending: bool) -> (r: i32)
    ensures
        r == (if check && any_pending { EXIT_CHANGES_PENDING } else { EXIT_OK }),
{
    if check {
        if any_pending {
            EXIT_CHANGES_PENDING
        } else {
            EXIT_OK
        }
    } else {
        EXIT_OK
    }
}

/// The summary `adept fix --write` prints.
pub open spec fn fix_summary_text(written: nat, total: nat) -> Seq<char> {
    decimal(written) + " skill"@ + (if written == 1 {
        Seq::empty()
    } else {
        "s"@
    }) + " fixed, "@ + decimal((total - written) as nat) + " unchanged"@
}

/// `"{written} skill(s) fixed, {unchanged} unchanged"`.
pub fn fix_summary(written: usize, total: usize) -> (r: String)
    requires
        written <= total,
    ensures
        r@ == fix_summary_text(written as nat, total as nat),
{
    let mut out = String::new();
    push_decimal(&mut out, written);
    push_str(&mut out, " skill");
    if written != 1 {
        push_str(&mut out, "s");
    }
    push_str(&mut out, " fixed, ");
    push_decimal(&mut out, total - written);
    push_str(&mut out, " unchanged");
    proof {
        assert(out@ =~= fix_summary_text(written as nat, total as nat));
    }
    out
}

/// `adept check`'s exit code when every path was read: 1 when diagnostics
/// were found, unless `--exit-zero`; else 0.
pub fn check_exit_code(found: usize, exit_zero: bool) -> (r: i32)
    ensures
        r == (if found > 0 && !exit_zero { EXIT_CHANGES_PENDING } else { EXIT_OK }),
{
    if found > 0 && !exit_zero {
        EXIT_CHANGES_PENDING
    } else {
        EXIT_OK
    }
}

/// The model an LLM-backed command uses: the flag's, else the config
/// file's, else the `ADEPT_MODEL` environment variable's.
pub fn resolve_model(flag: Option<String>, file: Option<String>, env: Option<String>) -> (r: Option<String>)
    ensures
        r == (match flag {
            Some(m) => Some(m),
            None => match file {
                Some(m) => Some(m),
                None => env,
            },
        }),
{
    match flag {
        Some(m) => Some(m),
        None => match file {
            Some(m) => Some(m),
            None => env,
        },
    }
}

/// The rules `select` leaves out: of `metas`, those whose code and name are
/// both missing from `select`, by code.
pub open spec fn unselected(metas: Seq<MetaView>, select: Seq<Seq<char>>) -> Seq<Seq<char>>
    decreases metas.len(),
{
    if metas.len() == 0 {
        seq![]
    } else {
        let m = metas.last();
        unselected(metas.drop_last(), select) + if select.contains(m.code) || select.contains(m.name) {
            seq![]
        } else {
            seq![m.code]
        }
    }
}

/// What `--select` and `--ignore` add to the disabled rules: with a
/// non-empty `select`, every rule it names by neither code nor name; then
/// every entry of `ignore`.
pub open spec fn select_ignore_disabled(select: Seq<Seq<char>>, ignore: Seq<Seq<char>>) -> Seq<Seq<char>> {
    (if select.len() > 0 {
        unselected(all_meta_spec(), select)
    } else {
        seq![]
    }) + ignore
}

/// Applies `--select` / `--ignore` to `config`: the rules they switch off
/// are added to its disabled list; nothing else changes.
pub fn apply_select_ignore(config: &mut LintConfig, select: &Vec<String>, ignore: &Vec<String>)
    ensures
        views(final(config).disabled@) == views(old(config).disabled@) + select_ignore_disabled(
            views(select@),
            views(ignore@),
        ),
        final(config).severity_overrides@ == old(config).severity_overrides@,
        final(config).description_min_tokens == old(config).description_min_tokens,
        final(config).description_max_tokens == old(config).description_max_tokens,
        final(config).body_max_tokens == old(config).body_max_tokens,
        final(config).companion_file_max_tokens == old(config).companion_file_max_tokens,
        final(config).similar_description_threshold == old(config).similar_description_threshold,
        final(config).trigger_overlap_threshold == old(config).trigger_overlap_threshold,
        final(config).tokenizer == old(config).tokenizer,
        final(config).heading_style == old(config).heading_style,
{
    let ghost start = views(config.disabled@);
    if select.len() > 0 {
        let metas = Registry::new().all_meta();
        let ghost ms = crate::rules::meta_views(metas@);
        let mut i: usize = 0;
        while i < metas.len()
            invariant
                i <= metas.len(),
                ms == crate::rules::meta_views(metas@),
                ms == all_meta_spec(),
                views(config.disabled@) == start + unselected(ms.take(i as int), views(select@)),
                config.severity_overrides@ == old(config).severity_overrides@,
                config.description_min_tokens == old(config).description_min_tokens,
                config.description_max_tokens == old(config).description_max_tokens,
                config.body_max_tokens == old(config).body_max_tokens,
                config.companion_file_max_tokens == old(config).companion_file_max_tokens,
                config.similar_description_threshold == old(config).similar_description_threshold,
                config.trigger_overlap_threshold == old(config).trigger_overlap_threshold,
                config.tokenizer == old(config).tokenizer,
                config.heading_style == old(config).heading_style,
            decreases metas.len() - i,
        {
            let m = metas[i];
            let code = crate::diagnostic::owned(m.code);
            let name = crate::diagnostic::owned(m.name);
            let ghost before = views(config.disabled@);
            proof {
                assert(ms.take(i + 1).drop_last() =~= ms.take(i as int));
                assert(ms.take(i + 1).last() == m@);
            }
            if !contains_word(select, &code) && !contains_word(select, &name) {
                config.disabled.push(code);
                proof {
                    assert(views(config.disabled@) =~= before.push(m.code@));
                }
            }
            proof {
                assert(views(config.disabled@) =~= start + unselected(ms.take(i + 1), views(select@)));
            }
            i += 1;
        }
        proof {
            assert(ms.take(metas.len() as int) =~= ms);
        }
    }
    let ghost mid = views(config.disabled@);
    let mut j: usize = 0;
    while j < ignore.len()
        invariant
            j <= ignore.len(),
            views(config.disabled@) == mid + views(ignore@).take(j as int),
            config.severity_overrides@ == old(config).severity_overrides@,
            config.description_min_tokens == old(config).description_min_tokens,
            config.description_max_tokens == old(config).description_max_tokens,
            config.body_max_tokens == old(config).body_max_tokens,
            config.companion_file_max_tokens == old(config).companion_file_max_tokens,
            config.similar_description_threshold == old(config).similar_description_threshold,
            config.trigger_overlap_threshold == old(config).trigger_overlap_threshold,
            config.tokenizer == old(config).tokenizer,
            config.heading_style == old(config).heading_style,
        decreases ignore.len() - j,
    {
        let ghost before = views(config.disabled@);
        config.disabled.push(ignore[j].clone());
        proof {
            assert(views(config.disabled@) =~= before.push(ignore@[j as int]@));
            assert(views(ignore@).take(j + 1) =~= views(ignore@).take(j as int).push(ignore@[j as int]@));
        }
        j += 1;
    }
    proof {
        assert(views(ignore@).take(ignore.len() as int) =~= views(ignore@));
        assert(views(config.disabled@) =~= start + select_ignore_disabled(views(select@), views(ignore@)));
    }
}


/// What is in [`unselected`]: the code of each rule `select` names by
/// neither code nor name.
proof fn lemma_unselected_contains(metas: Seq<MetaView>, select: Seq<Seq<char>>, c: Seq<char>)
    ensures
        unselected(metas, select).contains(c) <==> exists|k: int|
            0 <= k < metas.len() && #[trigger] metas[k].code == c && !select.contains(metas[k].code)
                && !select.contains(metas[k].name),
    decreases metas.len(),
{
    let pre = metas.drop_last();
    if metas.len() > 0 {
        lemma_unselected_contains(pre, select, c);
        let m = metas.last();
        let tail: Seq<Seq<char>> = if select.contains(m.code) || select.contains(m.name) {
            seq![]
        } else {
            seq![m.code]
        };
        assert(unselected(metas, select) == unselected(pre, select) + tail);
        if unselected(metas, select).contains(c) {
            let i = choose|i: int| 0 <= i < unselected(metas, select).len() && unselected(metas, select)[i] == c;
            if i < unselected(pre, select).len() {
                assert(unselected(pre, select)[i] == c);
                let k = choose|k: int|
                    0 <= k < pre.len() && #[trigger] pre[k].code == c && !select.contains(pre[k].code)
                        && !select.contains(pre[k].name);
                assert(metas[k] == pre[k]);
            } else {
                assert(metas[metas.len() - 1] == m);
            }
        }
        if exists|k: int|
            0 <= k < metas.len() && #[trigger] metas[k].code == c && !select.contains(metas[k].code)
                && !select.contains(metas[k].name) {
            let k = choose|k: int|
                0 <= k < metas.len() && #[trigger] metas[k].code == c && !select.contains(metas[k].code)
                    && !select.contains(metas[k].name);
            if k < pre.len() {
                assert(pre[k] == metas[k]);
                let i = choose|i: int| 0 <= i < unselected(pre, select).len() && unselected(pre, select)[i] == c;
                assert((unselected(pre, select) + tail)[i] == c);
            } else {
                assert(tail == seq![c]);
                assert((unselected(pre, select) + tail)[unselected(pre, select).len() as int] == c);
            }
        }
    }
}

/// `--select` runs exactly the rules it names, by code or by name (every
/// rule when it is empty), less those `--ignore` names by code or name and
/// those the configuration had already disabled.
pub proof fn select_and_ignore_decide_which_rules_run(
    disabled: Seq<Seq<char>>,
    select: Seq<Seq<char>>,
    ignore: Seq<Seq<char>>,
    m: MetaView,
)
    requires
        registered_meta().contains(m),
    ensures
        ({
            let d = disabled + select_ignore_disabled(select, ignore);
            !d.contains(m.code) && !d.contains(m.name)
        }) <==> (!disabled.contains(m.code) && !disabled.contains(m.name) && (select.len() == 0
            || select.contains(m.code) || select.contains(m.name)) && !ignore.contains(m.code)
            && !ignore.contains(m.name)),
{
    broadcast use vstd::seq_lib::group_to_multiset_ensures;
    let metas = all_meta_spec();
    let u: Seq<Seq<char>> = if select.len() > 0 { unselected(metas, select) } else { seq![] };
    let d = disabled + select_ignore_disabled(select, ignore);
    assert(select_ignore_disabled(select, ignore) == u + ignore);
    assert(d == disabled + u + ignore);
    assert forall|c: Seq<char>| d.contains(c) <==> (disabled.contains(c) || u.contains(c) || ignore.contains(c)) by {
        if d.contains(c) {
            let i = choose|i: int| 0 <= i < d.len() && d[i] == c;
            if i < disabled.len() {
                assert(disabled[i] == c);
            } else if i < disabled.len() + u.len() {
                assert(u[i - disabled.len()] == c);
            } else {
                assert(ignore[i - disabled.len() - u.len()] == c);
            }
        }
        if disabled.contains(c) {
            let i = choose|i: int| 0 <= i < disabled.len() && disabled[i] == c;
            assert(d[i] == c);
        }
        if u.contains(c) {
            let i = choose|i: int| 0 <= i < u.len() && u[i] == c;
            assert(d[disabled.len() + i] == c);
        }
        if ignore.contains(c) {
            let i = choose|i: int| 0 <= i < ignore.len() && ignore[i] == c;
            assert(d[disabled.len() + u.len() + i] == c);
        }
    }
    crate::sorting::lemma_isort_permutation(crate::rules::registered_meta(), crate::rules::meta_lt());
    assert(metas.to_multiset() == registered_meta().to_multiset());
    if select.len() > 0 {
        lemma_unselected_contains(metas, select, m.code);
        lemma_unselected_contains(metas, select, m.name);
        assert(registered_meta().to_multiset().count(m) > 0);
        assert(metas.to_multiset().count(m) > 0);
        assert(metas.contains(m));
        let km = choose|k: int| 0 <= k < metas.len() && metas[k] == m;
        if u.contains(m.code) {
            let k = choose|k: int|
                0 <= k < metas.len() && #[trigger] metas[k].code == m.code && !select.contains(metas[k].code)
                    && !select.contains(metas[k].name);
            assert(metas.contains(metas[k]));
            assert(metas.to_multiset().count(metas[k]) > 0);
            assert(registered_meta().to_multiset().count(metas[k]) > 0);
            crate::rules::laws::rule_codes_are_unique(metas[k], m);
        } else {
            assert(metas[km].code == m.code);
        }
        if u.contains(m.name) {
            let k = choose|k: int|
                0 <= k < metas.len() && #[trigger] metas[k].code == m.name && !select.contains(metas[k].code)
                    && !select.contains(metas[k].name);
            assert(metas.contains(metas[k]));
            assert(metas.to_multiset().count(metas[k]) > 0);
            assert(registered_meta().to_multiset().count(metas[k]) > 0);
            crate::rules::laws::rule_codes_are_unique(metas[k], m);
        }
    }
}

} // verus!
