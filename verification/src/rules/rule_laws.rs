//! What individual rules promise, stated over their inputs: when `SL004`
//! reports a name, which companion files `SL303` reports, which heading
//! jumps `SL103` reports, which pairs of skills `SL402` and `SL403`
//! compare, and when `SL204` reads a description as first person.

use vstd::prelude::*;
use crate::chars::is_blank;
use crate::companion::license_name;
use crate::diagnostic::{CompanionFile, DiagnosticView, Skill};
use crate::path::dir_name;
use crate::token::{token_count, Tokenizer};
use super::LintConfig;
use super::frontmatter::name_mismatch_finds;
use super::tokens::{companion_bloat_finds, companion_finds, companions_finds};
use super::structure::{body_headings, heading_skip_finds, skip_scan};
use crate::markdown::HeadingView;
use crate::diagnostic::{diag_spec, Severity, SkillSet};
use crate::ratio::Ratio;
use crate::text::{count_in, lemma_runs_empty, lemma_runs_shape, runs};
use crate::chars::{
    lemma_leading_count_is, lemma_trailing_count_is, not_alphanumeric, strip, unicode_alphanumeric,
    unicode_lowercase, unicode_whitespace,
};
use super::description::{first_person_finds, first_person_phrases};
use crate::chars::{contains_seq, has_phrase, occurs_at};
use super::cross::{
    overlapping_trigger_finds, pair_finds, percent, row_finds, shingle_set, similar_description_finds,
    similarity_fix, similarity_message, table_finds, word_set, Similarity,
};

verus! {

/// `SL004` reports a skill exactly when it sits in a named directory, its
/// `name` is not blank, and the name is not that directory's name, string
/// for string (a name that is only a prefix of the directory's name is
/// reported); it then reports once, under `SL004`.
pub proof fn name_mismatch_reports_exactly_a_different_name(skill: Skill)
    ensures
        name_mismatch_finds(skill).len() <= 1,
        name_mismatch_finds(skill).len() == 1 <==> match dir_name(skill.path@) {
            Some(dir) => !is_blank(skill.frontmatter.name@) && skill.frontmatter.name@ != dir,
            None => false,
        },
        forall|i: int| 0 <= i < name_mismatch_finds(skill).len() ==> (#[trigger] name_mismatch_finds(skill)[i]).code == "SL004"@,
        forall|i: int|
            0 <= i < name_mismatch_finds(skill).len() ==> (#[trigger] name_mismatch_finds(skill)[i]).path == skill.path@,
{
}

/// A companion file is over budget: it is readable, it is not a license
/// file, and its token count is above the configured maximum.
pub open spec fn over_budget(file: CompanionFile, config: LintConfig, tokenizer: Tokenizer) -> bool {
    match file.contents {
        Some(text) => !license_name(file.name@) && match token_count(tokenizer, text@) {
            Some(count) => count > config.companion_file_max_tokens,
            None => false,
        },
        None => false,
    }
}

/// How many of `files` are over budget.
pub open spec fn over_budget_count(files: Seq<CompanionFile>, config: LintConfig, tokenizer: Tokenizer) -> nat
    decreases files.len(),
{
    if files.len() == 0 {
        0
    } else {
        over_budget_count(files.drop_last(), config, tokenizer) + if over_budget(files.last(), config, tokenizer) {
            1nat
        } else {
            0nat
        }
    }
}

proof fn lemma_companions(files: Seq<CompanionFile>, skill: Skill, config: LintConfig, tokenizer: Tokenizer)
    ensures
        companions_finds(files, skill, config, tokenizer).len() == over_budget_count(files, config, tokenizer),
        forall|i: int|
            0 <= i < companions_finds(files, skill, config, tokenizer).len() ==> (#[trigger] companions_finds(
                files,
                skill,
                config,
                tokenizer,
            )[i]).code == "SL303"@,
        forall|k: int|
            0 <= k < files.len() && over_budget(#[trigger] files[k], config, tokenizer) ==> companions_finds(
                files,
                skill,
                config,
                tokenizer,
            ).contains(companion_finds(files[k], skill, config, tokenizer)[0]),
    decreases files.len(),
{
    if files.len() > 0 {
        let p = files.drop_last();
        let f = files.last();
        lemma_companions(p, skill, config, tokenizer);
        let a = companions_finds(p, skill, config, tokenizer);
        let b = companion_finds(f, skill, config, tokenizer);
        let all = companions_finds(files, skill, config, tokenizer);
        assert(all == a + b);
        assert(b.len() == if over_budget(f, config, tokenizer) { 1nat } else { 0nat });
        assert forall|i: int| 0 <= i < all.len() implies (#[trigger] all[i]).code == "SL303"@ by {
            if i < a.len() {
                assert(all[i] == a[i]);
            } else {
                assert(all[i] == b[i - a.len()]);
            }
        }
        assert forall|k: int| 0 <= k < files.len() && over_budget(#[trigger] files[k], config, tokenizer) implies all.contains(
            companion_finds(files[k], skill, config, tokenizer)[0],
        ) by {
            if k < p.len() {
                assert(p[k] == files[k]);
                let x = companion_finds(files[k], skill, config, tokenizer)[0];
                let j = choose|j: int| 0 <= j < a.len() && a[j] == x;
                assert(all[j] == a[j]);
            } else {
                assert(files[k] == f);
                assert(all[a.len() as int] == b[0]);
            }
        }
    }
}

/// `SL303` reports every companion file that is over budget, wherever it
/// stands among the companions, and nothing else: as many diagnostics as
/// there are such files, each under `SL303` on the skill, and for each
/// such file one that names it with its token count and the budget.
pub proof fn companion_bloat_reports_every_file_over_budget(
    skill: Skill,
    config: LintConfig,
    tokenizer: Tokenizer,
)
    ensures
        companion_bloat_finds(skill, config, tokenizer).len() == over_budget_count(skill.companions@, config, tokenizer),
        forall|i: int|
            0 <= i < companion_bloat_finds(skill, config, tokenizer).len() ==> (#[trigger] companion_bloat_finds(
                skill,
                config,
                tokenizer,
            )[i]).code == "SL303"@,
        forall|k: int|
            0 <= k < skill.companions@.len() && over_budget(#[trigger] skill.companions@[k], config, tokenizer)
                ==> exists|d: DiagnosticView|
                #[trigger] companion_bloat_finds(skill, config, tokenizer).contains(d) && d.code == "SL303"@
                    && d.path == skill.path@ && d.message == "companion file \""@ + skill.companions@[k].name@
                    + "\" is "@ + crate::chars::decimal(
                    token_count(tokenizer, skill.companions@[k].contents.unwrap()@).unwrap(),
                ) + " tokens, over the budget of "@ + crate::chars::decimal(
                    config.companion_file_max_tokens as nat,
                ),
{
    lemma_companions(skill.companions@, skill, config, tokenizer);
    assert forall|k: int|
        0 <= k < skill.companions@.len() && over_budget(#[trigger] skill.companions@[k], config, tokenizer)
            implies exists|d: DiagnosticView|
            #[trigger] companion_bloat_finds(skill, config, tokenizer).contains(d) && d.code == "SL303"@
                && d.path == skill.path@ && d.message == "companion file \""@ + skill.companions@[k].name@
                + "\" is "@ + crate::chars::decimal(
                token_count(tokenizer, skill.companions@[k].contents.unwrap()@).unwrap(),
            ) + " tokens, over the budget of "@ + crate::chars::decimal(config.companion_file_max_tokens as nat) by {
        let d = companion_finds(skill.companions@[k], skill, config, tokenizer)[0];
        assert(companion_bloat_finds(skill, config, tokenizer).contains(d));
    }
}

/// Heading `k` of `hs` jumps a level: some earlier heading has a level,
/// and every earlier heading is at least two levels above it.
pub open spec fn jumps_at(hs: Seq<HeadingView>, k: int) -> bool {
    &&& exists|j: int| 0 <= j < k && #[trigger] hs[j].level > 0
    &&& forall|j: int| 0 <= j < k ==> #[trigger] hs[j].level + 1 < hs[k].level
}

/// How many of the first `n` headings jump a level.
pub open spec fn jump_count(hs: Seq<HeadingView>, n: nat) -> nat
    decreases n,
{
    if n == 0 {
        0
    } else {
        jump_count(hs, (n - 1) as nat) + if jumps_at(hs, n - 1) {
            1nat
        } else {
            0nat
        }
    }
}

/// The deepest level among the first `n` headings (0 when there are none).
pub open spec fn deepest(hs: Seq<HeadingView>, n: nat) -> nat
    decreases n,
{
    if n == 0 {
        0
    } else if hs[n - 1].level as nat > deepest(hs, (n - 1) as nat) {
        hs[n - 1].level as nat
    } else {
        deepest(hs, (n - 1) as nat)
    }
}

proof fn lemma_deepest(hs: Seq<HeadingView>, n: nat)
    requires
        n <= hs.len(),
    ensures
        forall|j: int| 0 <= j < n ==> #[trigger] hs[j].level <= deepest(hs, n),
        deepest(hs, n) > 0 ==> exists|j: int| 0 <= j < n && #[trigger] hs[j].level == deepest(hs, n),
    decreases n,
{
    if n > 0 {
        lemma_deepest(hs, (n - 1) as nat);
        if deepest(hs, n) > 0 && hs[n - 1].level as nat != deepest(hs, n) {
            let j = choose|j: int| 0 <= j < n - 1 && #[trigger] hs[j].level == deepest(hs, (n - 1) as nat);
            assert(hs[j].level == deepest(hs, n));
        }
    }
}

proof fn lemma_skip_scan(skill: Skill, hs: Seq<HeadingView>, n: nat)
    requires
        n <= hs.len(),
    ensures
        skip_scan(skill, hs, n).1 == deepest(hs, n),
        skip_scan(skill, hs, n).0.len() == jump_count(hs, n),
        forall|i: int| 0 <= i < skip_scan(skill, hs, n).0.len() ==> (#[trigger] skip_scan(skill, hs, n).0[i]).code == "SL103"@,
    decreases n,
{
    if n > 0 {
        let k = n - 1;
        lemma_skip_scan(skill, hs, (n - 1) as nat);
        lemma_deepest(hs, (n - 1) as nat);
        let m = deepest(hs, (n - 1) as nat);
        let h = hs[k];
        if h.level > m + 1 && m > 0 {
            let j = choose|j: int| 0 <= j < k && #[trigger] hs[j].level == m;
            assert(hs[j].level > 0);
            assert forall|j: int| 0 <= j < k implies #[trigger] hs[j].level + 1 < hs[k].level by {
                assert(hs[j].level <= m);
            }
            assert(jumps_at(hs, k));
        } else if jumps_at(hs, k) {
            let j0 = choose|j: int| 0 <= j < k && #[trigger] hs[j].level > 0;
            assert(hs[j0].level <= m);
            let j = choose|j: int| 0 <= j < k && #[trigger] hs[j].level == m;
            assert(hs[j].level + 1 < hs[k].level);
        }
        let prev = skip_scan(skill, hs, (n - 1) as nat).0;
        let ds = skip_scan(skill, hs, n).0;
        assert forall|i: int| 0 <= i < ds.len() implies (#[trigger] ds[i]).code == "SL103"@ by {
            if i < prev.len() {
                assert(ds[i] == prev[i]);
            }
        }
    }
}

/// Every heading but the first is at most one level below some earlier
/// heading.
pub open spec fn steps_down_gently(hs: Seq<HeadingView>) -> bool {
    forall|k: int|
        #![trigger hs[k]]
        0 < k < hs.len() ==> exists|j: int| 0 <= j < k && #[trigger] hs[j].level + 1 >= hs[k].level
}

proof fn lemma_no_jumps(hs: Seq<HeadingView>, n: nat)
    requires
        forall|k: int| 0 <= k < n ==> !jumps_at(hs, k),
    ensures
        jump_count(hs, n) == 0,
    decreases n,
{
    if n > 0 {
        lemma_no_jumps(hs, (n - 1) as nat);
        assert(!jumps_at(hs, n - 1));
    }
}

/// `SL103` reports one diagnostic for each heading that jumps a level, a
/// heading with an earlier heading that has a level, and every earlier
/// heading at least two levels above it; and no other. In particular, when
/// every heading but the first is at most one level below some earlier
/// heading, nothing is reported, however deep the headings go.
pub proof fn heading_skip_reports_exactly_the_jumps(skill: Skill)
    ensures
        heading_skip_finds(skill).len() == jump_count(body_headings(skill), body_headings(skill).len()),
        forall|i: int| 0 <= i < heading_skip_finds(skill).len() ==> (#[trigger] heading_skip_finds(skill)[i]).code == "SL103"@,
        steps_down_gently(body_headings(skill)) ==> heading_skip_finds(skill).len() == 0,
{
    let hs = body_headings(skill);
    lemma_skip_scan(skill, hs, hs.len());
    if steps_down_gently(hs) {
        assert forall|k: int| 0 <= k < hs.len() implies !jumps_at(hs, k) by {
            if k > 0 {
                assert(exists|j: int| 0 <= j < k && #[trigger] hs[j].level + 1 >= hs[k].level);
                let j = choose|j: int| 0 <= j < k && #[trigger] hs[j].level + 1 >= hs[k].level;
                assert(!(hs[j].level + 1 < hs[k].level));
            }
        }
        lemma_no_jumps(hs, hs.len());
    }
}

proof fn lemma_row_has_pair(
    k: Similarity,
    skills: Seq<Skill>,
    bags: Seq<Seq<Seq<char>>>,
    t: Ratio,
    i: int,
    j: int,
    m: nat,
)
    requires
        0 <= i < j < m,
    ensures
        forall|x: DiagnosticView| #[trigger] pair_finds(k, skills, bags, t, i, j).contains(x) ==> row_finds(k, skills, bags, t, i, m).contains(x),
    decreases m,
{
    let p = pair_finds(k, skills, bags, t, i, j);
    let prev = row_finds(k, skills, bags, t, i, (m - 1) as nat);
    let last = pair_finds(k, skills, bags, t, i, m - 1);
    let row = row_finds(k, skills, bags, t, i, m);
    assert(row == prev + last);
    if j == m - 1 {
        assert forall|x: DiagnosticView| #[trigger] p.contains(x) implies row.contains(x) by {
            let q = choose|q: int| 0 <= q < p.len() && p[q] == x;
            assert(row[prev.len() + q] == x);
        }
    } else {
        lemma_row_has_pair(k, skills, bags, t, i, j, (m - 1) as nat);
        assert forall|x: DiagnosticView| #[trigger] p.contains(x) implies row.contains(x) by {
            assert(prev.contains(x));
            let q = choose|q: int| 0 <= q < prev.len() && prev[q] == x;
            assert(row[q] == x);
        }
    }
}

proof fn lemma_table_has_row(
    k: Similarity,
    skills: Seq<Skill>,
    bags: Seq<Seq<Seq<char>>>,
    t: Ratio,
    i: int,
    n: nat,
)
    requires
        0 <= i < n,
    ensures
        forall|x: DiagnosticView|
            #[trigger] row_finds(k, skills, bags, t, i, skills.len()).contains(x) ==> table_finds(k, skills, bags, t, n).contains(x),
    decreases n,
{
    let r = row_finds(k, skills, bags, t, i, skills.len());
    let prev = table_finds(k, skills, bags, t, (n - 1) as nat);
    let last = row_finds(k, skills, bags, t, n - 1, skills.len());
    let table = table_finds(k, skills, bags, t, n);
    assert(table == prev + last);
    if i == n - 1 {
        assert forall|x: DiagnosticView| #[trigger] r.contains(x) implies table.contains(x) by {
            let q = choose|q: int| 0 <= q < r.len() && r[q] == x;
            assert(table[prev.len() + q] == x);
        }
    } else {
        lemma_table_has_row(k, skills, bags, t, i, (n - 1) as nat);
        assert forall|x: DiagnosticView| #[trigger] r.contains(x) implies table.contains(x) by {
            assert(prev.contains(x));
            let q = choose|q: int| 0 <= q < prev.len() && prev[q] == x;
            assert(table[q] == x);
        }
    }
}

/// The two entry lists reach the threshold: neither is empty, and their
/// shared count over the size of their union is at least `t` (a threshold
/// over a zero denominator is zero).
pub open spec fn similar_enough(a: Seq<Seq<char>>, b: Seq<Seq<char>>, t: Ratio) -> bool {
    let inter = count_in(a, b);
    let union = a.len() + (b.len() - count_in(b, a)) as nat;
    a.len() > 0 && b.len() > 0 && (t.den == 0 || inter * t.den >= t.num * union)
}

/// The diagnostic on skill `s` for being similar to skill `other` whose
/// entry lists are `a` (of `s`) and `b` (of `other`).
pub open spec fn similar_to(k: Similarity, s: Skill, other: Skill, a: Seq<Seq<char>>, b: Seq<Seq<char>>) -> DiagnosticView {
    let inter = count_in(a, b);
    let union = a.len() + (b.len() - count_in(b, a)) as nat;
    diag_spec(
        if k == Similarity::Words { "SL402"@ } else { "SL403"@ },
        similarity_message(k, percent(inter, union), other),
        Severity::Warning,
        s.path@,
        s.frontmatter.description_line as nat,
        Some(similarity_fix(k)),
    )
}

proof fn lemma_table_reports_pair(
    k: Similarity,
    skills: Seq<Skill>,
    bags: Seq<Seq<Seq<char>>>,
    t: Ratio,
    i: int,
    j: int,
)
    requires
        0 <= i < j < skills.len(),
        bags.len() == skills.len(),
        similar_enough(bags[i], bags[j], t),
    ensures
        table_finds(k, skills, bags, t, skills.len()).contains(similar_to(k, skills[i], skills[j], bags[i], bags[j])),
        table_finds(k, skills, bags, t, skills.len()).contains(similar_to(k, skills[j], skills[i], bags[i], bags[j])),
{
    let p = pair_finds(k, skills, bags, t, i, j);
    assert(p[0] == similar_to(k, skills[i], skills[j], bags[i], bags[j]));
    assert(p[1] == similar_to(k, skills[j], skills[i], bags[i], bags[j]));
    assert(p.contains(p[0]));
    assert(p.contains(p[1]));
    lemma_row_has_pair(k, skills, bags, t, i, j, skills.len());
    lemma_table_has_row(k, skills, bags, t, i, skills.len());
    assert(row_finds(k, skills, bags, t, i, skills.len()).contains(p[0]));
    assert(row_finds(k, skills, bags, t, i, skills.len()).contains(p[1]));
}

/// `d` is one of the two diagnostics of a pair of skills `i < j` whose
/// entry lists reach the threshold.
pub open spec fn from_similar_pair(
    k: Similarity,
    skills: Seq<Skill>,
    bags: Seq<Seq<Seq<char>>>,
    t: Ratio,
    d: DiagnosticView,
) -> bool {
    exists|i: int, j: int|
        #![trigger similar_to(k, skills[i], skills[j], bags[i], bags[j])]
        0 <= i < j < skills.len() && similar_enough(bags[i], bags[j], t) && (d == similar_to(
            k,
            skills[i],
            skills[j],
            bags[i],
            bags[j],
        ) || d == similar_to(k, skills[j], skills[i], bags[i], bags[j]))
}

proof fn lemma_row_only_pairs(
    k: Similarity,
    skills: Seq<Skill>,
    bags: Seq<Seq<Seq<char>>>,
    t: Ratio,
    i: int,
    m: nat,
)
    requires
        0 <= i,
        m <= skills.len(),
        bags.len() == skills.len(),
    ensures
        forall|x: DiagnosticView| #[trigger] row_finds(k, skills, bags, t, i, m).contains(x) ==> from_similar_pair(k, skills, bags, t, x),
    decreases m,
{
    if !(m == 0 || m <= i + 1) {
        lemma_row_only_pairs(k, skills, bags, t, i, (m - 1) as nat);
        let j = m - 1;
        let prev = row_finds(k, skills, bags, t, i, (m - 1) as nat);
        let p = pair_finds(k, skills, bags, t, i, j);
        let row = row_finds(k, skills, bags, t, i, m);
        assert(row == prev + p);
        assert forall|x: DiagnosticView| #[trigger] row.contains(x) implies from_similar_pair(k, skills, bags, t, x) by {
            let q = choose|q: int| 0 <= q < row.len() && row[q] == x;
            if q < prev.len() {
                assert(prev[q] == x);
                assert(prev.contains(x));
            } else {
                assert(p[q - prev.len()] == x);
                assert(p.len() > 0);
                assert(similar_enough(bags[i], bags[j], t));
                if q - prev.len() == 0 {
                    assert(x == similar_to(k, skills[i], skills[j], bags[i], bags[j]));
                } else {
                    assert(x == similar_to(k, skills[j], skills[i], bags[i], bags[j]));
                }
            }
        }
    }
}

proof fn lemma_table_only_pairs(
    k: Similarity,
    skills: Seq<Skill>,
    bags: Seq<Seq<Seq<char>>>,
    t: Ratio,
    n: nat,
)
    requires
        n <= skills.len(),
        bags.len() == skills.len(),
    ensures
        forall|x: DiagnosticView| #[trigger] table_finds(k, skills, bags, t, n).contains(x) ==> from_similar_pair(k, skills, bags, t, x),
    decreases n,
{
    if n > 0 {
        lemma_table_only_pairs(k, skills, bags, t, (n - 1) as nat);
        lemma_row_only_pairs(k, skills, bags, t, n - 1, skills.len());
        let prev = table_finds(k, skills, bags, t, (n - 1) as nat);
        let r = row_finds(k, skills, bags, t, n - 1, skills.len());
        let table = table_finds(k, skills, bags, t, n);
        assert(table == prev + r);
        assert forall|x: DiagnosticView| #[trigger] table.contains(x) implies from_similar_pair(k, skills, bags, t, x) by {
            let q = choose|q: int| 0 <= q < table.len() && table[q] == x;
            if q < prev.len() {
                assert(prev[q] == x);
                assert(prev.contains(x));
            } else {
                assert(r[q - prev.len()] == x);
                assert(r.contains(x));
            }
        }
    }
}

/// `SL402` compares every pair of skills, not only neighbours: for any two
/// skills `i < j` whose description word sets reach the configured
/// threshold, it reports on skill `i` naming skill `j` and on skill `j`
/// naming skill `i`, with their rounded similarity.
pub proof fn similar_descriptions_are_reported_for_every_pair(set: SkillSet, config: LintConfig, i: int, j: int)
    requires
        0 <= i < j < set.skills@.len(),
        similar_enough(
            word_set(set.skills@[i]),
            word_set(set.skills@[j]),
            config.similar_description_threshold,
        ),
    ensures
        similar_description_finds(set, config).contains(
            similar_to(Similarity::Words, set.skills@[i], set.skills@[j], word_set(set.skills@[i]), word_set(set.skills@[j])),
        ),
        similar_description_finds(set, config).contains(
            similar_to(Similarity::Words, set.skills@[j], set.skills@[i], word_set(set.skills@[i]), word_set(set.skills@[j])),
        ),
{
    let skills = set.skills@;
    let bags = skills.map_values(|s: Skill| word_set(s));
    assert(bags[i] == word_set(skills[i]));
    assert(bags[j] == word_set(skills[j]));
    lemma_table_reports_pair(Similarity::Words, skills, bags, config.similar_description_threshold, i, j);
}

/// `SL403` compares every pair of skills, not only neighbours: for any two
/// skills `i < j` whose description bigram sets reach the configured
/// threshold, it reports on skill `i` naming skill `j` and on skill `j`
/// naming skill `i`, with their rounded overlap.
pub proof fn overlapping_triggers_are_reported_for_every_pair(set: SkillSet, config: LintConfig, i: int, j: int)
    requires
        0 <= i < j < set.skills@.len(),
        similar_enough(
            shingle_set(set.skills@[i].frontmatter.description@),
            shingle_set(set.skills@[j].frontmatter.description@),
            config.trigger_overlap_threshold,
        ),
    ensures
        overlapping_trigger_finds(set, config).contains(
            similar_to(
                Similarity::Bigrams,
                set.skills@[i],
                set.skills@[j],
                shingle_set(set.skills@[i].frontmatter.description@),
                shingle_set(set.skills@[j].frontmatter.description@),
            ),
        ),
        overlapping_trigger_finds(set, config).contains(
            similar_to(
                Similarity::Bigrams,
                set.skills@[j],
                set.skills@[i],
                shingle_set(set.skills@[i].frontmatter.description@),
                shingle_set(set.skills@[j].frontmatter.description@),
            ),
        ),
{
    let skills = set.skills@;
    let bags = skills.map_values(|s: Skill| shingle_set(s.frontmatter.description@));
    assert(bags[i] == shingle_set(skills[i].frontmatter.description@));
    assert(bags[j] == shingle_set(skills[j].frontmatter.description@));
    lemma_table_reports_pair(Similarity::Bigrams, skills, bags, config.trigger_overlap_threshold, i, j);
}

/// Runs of a text split where a run cannot continue across the seam.
proof fn lemma_runs_concat(x: Seq<char>, y: Seq<char>, p: spec_fn(char) -> bool)
    requires
        x.len() == 0 || y.len() == 0 || !p(x.last()) || !p(y[0]),
    ensures
        runs(x + y, p) == runs(x, p) + runs(y, p),
    decreases y.len(),
{
    if y.len() == 0 {
        assert(x + y =~= x);
        assert(runs(x, p) + runs(y, p) =~= runs(x, p));
    } else {
        let y1 = y.drop_last();
        let c = y.last();
        let s = x + y;
        if y1.len() > 0 {
            assert(y1[0] == y[0]);
        }
        lemma_runs_concat(x, y1, p);
        assert(s.drop_last() =~= x + y1);
        assert(s.last() == c);
        let rx = runs(x, p);
        let ry1 = runs(y1, p);
        if !p(c) {
            assert(runs(y, p) == ry1);
        } else if s.len() >= 2 && p(s[s.len() - 2]) {
            if y1.len() > 0 {
                assert(s[s.len() - 2] == y1.last());
                assert(y[y.len() - 2] == y1.last());
                lemma_runs_shape(y1, p);
                assert(runs(y, p) == ry1.update(ry1.len() - 1, ry1.last().push(c)));
                assert(runs(s, p) =~= rx + ry1.update(ry1.len() - 1, ry1.last().push(c)));
            } else {
                assert(s[s.len() - 2] == x.last());
                assert(y[0] == c);
                assert(false);
            }
        } else {
            if y1.len() > 0 {
                assert(s[s.len() - 2] == y1.last());
                assert(y[y.len() - 2] == y1.last());
            }
            assert(runs(y, p) == ry1.push(seq![c]));
            assert(runs(s, p) =~= rx + ry1.push(seq![c]));
        }
    }
}

/// A non-empty text of run characters is one run.
proof fn lemma_runs_whole(w: Seq<char>, p: spec_fn(char) -> bool)
    requires
        w.len() > 0,
        forall|q: int| 0 <= q < w.len() ==> p(#[trigger] w[q]),
    ensures
        runs(w, p) == seq![w],
    decreases w.len(),
{
    let w1 = w.drop_last();
    if w1.len() == 0 {
        assert(runs(w1, p) =~= Seq::<Seq<char>>::empty());
        assert(w =~= seq![w.last()]);
    } else {
        assert forall|q: int| 0 <= q < w1.len() implies p(#[trigger] w1[q]) by {
            assert(w1[q] == w[q]);
        }
        lemma_runs_whole(w1, p);
        assert(p(w[w.len() - 2]));
        assert(w1.push(w.last()) =~= w);
    }
}

/// `SL204` reads a description as first person when its first word is
/// `I`: if the lowercased description starts, after any whitespace, with
/// the letter `i` (alphanumeric and not whitespace, as `char` classifies
/// it) surrounded only by characters that are neither alphanumeric nor
/// whitespace, and that word ends at whitespace or at the end, `SL204`
/// reports exactly one diagnostic, whatever phrases follow.
pub proof fn first_word_i_is_first_person(
    skill: Skill,
    lead: Seq<char>,
    before: Seq<char>,
    after: Seq<char>,
    rest: Seq<char>,
)
    requires
        unicode_lowercase(skill.frontmatter.description@) == lead + before + seq!['i'] + after + rest,
        unicode_alphanumeric('i'),
        !unicode_whitespace('i'),
        forall|q: int| 0 <= q < lead.len() ==> unicode_whitespace(#[trigger] lead[q]),
        forall|q: int|
            0 <= q < before.len() ==> !unicode_whitespace(#[trigger] before[q]) && !unicode_alphanumeric(before[q]),
        forall|q: int|
            0 <= q < after.len() ==> !unicode_whitespace(#[trigger] after[q]) && !unicode_alphanumeric(after[q]),
        rest.len() == 0 || unicode_whitespace(rest[0]),
    ensures
        first_person_finds(skill).len() == 1,
        first_person_finds(skill)[0].code == "SL204"@,
        first_person_finds(skill)[0].path == skill.path@,
{
    let p = |c: char| !unicode_whitespace(c);
    let w = before + seq!['i'] + after;
    let l = lead + w + rest;
    assert(unicode_lowercase(skill.frontmatter.description@) =~= l);
    assert forall|q: int| 0 <= q < lead.len() implies !p(#[trigger] lead[q]) by {}
    lemma_runs_empty(lead, p);
    assert forall|q: int| 0 <= q < w.len() implies p(#[trigger] w[q]) by {
        if q < before.len() {
            assert(w[q] == before[q]);
        } else if q == before.len() {
            assert(w[q] == 'i');
        } else {
            assert(w[q] == after[q - before.len() - 1]);
        }
    }
    lemma_runs_whole(w, p);
    if lead.len() > 0 {
        assert(!p(lead.last()));
    }
    lemma_runs_concat(lead, w, p);
    if rest.len() > 0 {
        assert(!p(rest[0]));
    }
    lemma_runs_concat(lead + w, rest, p);
    assert(lead + w + rest =~= l);
    let ws = runs(l, p);
    assert(runs(lead, p) =~= Seq::<Seq<char>>::empty());
    assert(ws[0] == w);
    let np = not_alphanumeric();
    let k = before.len() as int;
    assert forall|q: int| 0 <= q < k implies #[trigger] np(w[q]) by {
        assert(w[q] == before[q]);
    }
    assert(w[k] == 'i');
    lemma_leading_count_is(w, np, k);
    let t = w.subrange(k, w.len() as int);
    assert(t =~= seq!['i'] + after);
    let a = after.len() as int;
    assert forall|q: int| t.len() - a <= q < t.len() implies #[trigger] np(t[q]) by {
        assert(t[q] == after[q - 1]);
    }
    assert(t[t.len() - a - 1] == 'i');
    lemma_trailing_count_is(t, np, a);
    assert(strip(w, np) =~= seq!['i']);
}

/// Everything `SL402` reports is one of the two diagnostics of a pair of
/// skills whose description word sets reach the configured threshold.
pub proof fn similar_descriptions_come_only_from_similar_pairs(set: SkillSet, config: LintConfig)
    ensures
        forall|d: DiagnosticView|
            #[trigger] similar_description_finds(set, config).contains(d) ==> from_similar_pair(
                Similarity::Words,
                set.skills@,
                set.skills@.map_values(|s: Skill| word_set(s)),
                config.similar_description_threshold,
                d,
            ),
{
    let skills = set.skills@;
    lemma_table_only_pairs(
        Similarity::Words,
        skills,
        skills.map_values(|s: Skill| word_set(s)),
        config.similar_description_threshold,
        skills.len(),
    );
}

/// Everything `SL403` reports is one of the two diagnostics of a pair of
/// skills whose description bigram sets reach the configured threshold.
pub proof fn overlapping_triggers_come_only_from_similar_pairs(set: SkillSet, config: LintConfig)
    ensures
        forall|d: DiagnosticView|
            #[trigger] overlapping_trigger_finds(set, config).contains(d) ==> from_similar_pair(
                Similarity::Bigrams,
                set.skills@,
                set.skills@.map_values(|s: Skill| shingle_set(s.frontmatter.description@)),
                config.trigger_overlap_threshold,
                d,
            ),
{
    let skills = set.skills@;
    lemma_table_only_pairs(
        Similarity::Bigrams,
        skills,
        skills.map_values(|s: Skill| shingle_set(s.frontmatter.description@)),
        config.trigger_overlap_threshold,
        skills.len(),
    );
}

/// Every character of every run of `s` is a character of `s`.
proof fn lemma_runs_chars(s: Seq<char>, p: spec_fn(char) -> bool)
    ensures
        forall|k: int, q: int|
            0 <= k < runs(s, p).len() && 0 <= q < runs(s, p)[k].len() ==> s.contains(#[trigger] runs(s, p)[k][q]),
    decreases s.len(),
{
    if s.len() > 0 {
        let t = s.drop_last();
        lemma_runs_chars(t, p);
        lemma_runs_shape(t, p);
        let prev = runs(t, p);
        let r = runs(s, p);
        assert(s[s.len() - 1] == s.last());
        assert forall|k: int, q: int| 0 <= k < r.len() && 0 <= q < r[k].len() implies s.contains(#[trigger] r[k][q]) by {
            if r[k][q] == s.last() {
                assert(s[s.len() - 1] == r[k][q]);
            } else {
                assert(k < prev.len() && q < prev[k].len() && r[k][q] == prev[k][q]) by {
                    if !p(s.last()) {
                    } else if s.len() >= 2 && p(s[s.len() - 2]) {
                        if k == prev.len() - 1 {
                            assert(r[k] == prev[k].push(s.last()));
                        }
                    } else {
                        if k == prev.len() {
                            assert(r[k] == seq![s.last()]);
                        }
                    }
                }
                assert(t.contains(prev[k][q]));
                let z = choose|z: int| 0 <= z < t.len() && t[z] == prev[k][q];
                assert(s[z] == t[z]);
            }
        }
    }
}

/// A lowercased description that holds the letter `i` nowhere is never
/// read as first person: `SL204` reports nothing for it.
pub proof fn description_without_i_is_not_first_person(skill: Skill)
    requires
        forall|q: int|
            0 <= q < unicode_lowercase(skill.frontmatter.description@).len() ==> #[trigger] unicode_lowercase(
                skill.frontmatter.description@,
            )[q] != 'i',
    ensures
        first_person_finds(skill).len() == 0,
{
    let l = unicode_lowercase(skill.frontmatter.description@);
    let phrases = first_person_phrases();
    assert forall|k: int| 0 <= k < phrases.len() implies !contains_seq(l, #[trigger] phrases[k]) by {
        reveal_strlit("i will");
        reveal_strlit("i can");
        reveal_strlit("i am able to");
        reveal_strlit("i'll");
        reveal_strlit("i'm able to");
        assert(phrases[k][0] == 'i');
        if contains_seq(l, phrases[k]) {
            let z = choose|z: int| #[trigger] occurs_at(l, phrases[k], z);
            assert(l.subrange(z, z + phrases[k].len())[0] == l[z]);
        }
    }
    assert(!has_phrase(l, phrases));
    let p = |c: char| !unicode_whitespace(c);
    let ws = runs(l, p);
    if ws.len() > 0 {
        let w = ws[0];
        let np = not_alphanumeric();
        lemma_runs_chars(l, p);
        crate::chars::lemma_leading_count_bound(w, np);
        let st = strip(w, np);
        if st == seq!['i'] {
            let lc = crate::chars::leading_count(w, np) as int;
            let tt = w.subrange(lc, w.len() as int);
            crate::chars::lemma_trailing_count_bound(tt, np);
            assert(st == tt.subrange(0, tt.len() - crate::chars::trailing_count(tt, np)));
            assert(tt.len() >= 1);
            assert(st[0] == tt[0]);
            assert(tt[0] == w[lc]);
            assert(l.contains(w[lc]));
        }
    }
}

/// A lowercased description that holds one of the fixed first-person
/// phrases (`i will`, `i can`, `i am able to`, `i'll`, `i'm able to`)
/// anywhere is read as first person: `SL204` reports exactly once.
pub proof fn first_person_phrase_is_first_person(skill: Skill, x: Seq<char>, phrase: Seq<char>, y: Seq<char>)
    requires
        unicode_lowercase(skill.frontmatter.description@) == x + phrase + y,
        phrase == "i will"@ || phrase == "i can"@ || phrase == "i am able to"@ || phrase == "i'll"@ || phrase
            == "i'm able to"@,
    ensures
        first_person_finds(skill).len() == 1,
        first_person_finds(skill)[0].code == "SL204"@,
{
    let l = unicode_lowercase(skill.frontmatter.description@);
    let phrases = first_person_phrases();
    let k = if phrase == "i will"@ { 0int } else if phrase == "i can"@ { 1 } else if phrase == "i am able to"@ {
        2
    } else if phrase == "i'll"@ { 3 } else { 4 };
    assert(phrases[k] == phrase);
    assert(l.subrange(x.len() as int, x.len() + phrase.len() as int) =~= phrase);
    assert(occurs_at(l, phrases[k], x.len() as int));
    assert(contains_seq(l, phrases[k]));
    assert(has_phrase(l, phrases));
}

} // verus!
