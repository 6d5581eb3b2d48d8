//! `SL4xx` cross-skill rules: they check a whole [`SkillSet`] for conflicts
//! between skills.

use vstd::prelude::*;
use crate::chars::{decimal, push_decimal, push_str};
use crate::diagnostic::{diag_spec, Diagnostic, DiagnosticView, Severity, Skill, SkillSet};
use crate::text::{count_in, shared_count, dedup, distinct, join_sep, views, word_bag, words, words_of};
use crate::ratio::Ratio;
use crate::token::TokenCounter;
use super::{finding, LintConfig, Rule, SetRule};

verus! {

/// `SL401` `duplicate-skill-name`: two or more skills share a `name`.
pub struct DuplicateSkillName;

/// `SL402` `similar-description`: two descriptions' word sets have a
/// Jaccard similarity at or above
/// [`LintConfig::similar_description_threshold`].
pub struct SimilarDescription;

/// `SL403` `overlapping-trigger-phrasing`: two descriptions' bigram sets
/// have a Jaccard similarity at or above
/// [`LintConfig::trigger_overlap_threshold`].
pub struct OverlappingTriggerPhrasing;

/// The paths of the skills among the first `m` of `skills`, other than
/// skill `i`, that have skill `i`'s name.
pub open spec fn namesakes(skills: Seq<Skill>, i: int, m: nat) -> Seq<Seq<char>>
    decreases m,
{
    if m == 0 {
        Seq::empty()
    } else {
        let k = m - 1;
        namesakes(skills, i, (m - 1) as nat) + if k != i && skills[k].frontmatter.name@
            == skills[i].frontmatter.name@ {
            seq![skills[k].path@]
        } else {
            Seq::empty()
        }
    }
}

pub open spec fn duplicate_name_finding(skills: Seq<Skill>, i: int) -> Seq<DiagnosticView> {
    let others = namesakes(skills, i, skills.len());
    if others.len() == 0 {
        seq![]
    } else {
        seq![
            diag_spec(
                "SL401"@,
                "skill name \""@ + skills[i].frontmatter.name@ + "\" is also used by: "@ + join_sep(
                    others,
                    ", "@,
                ),
                Severity::Error,
                skills[i].path@,
                skills[i].frontmatter.name_line as nat,
                Some("give each skill a unique `name`"@),
            ),
        ]
    }
}

/// The `SL401` diagnostics of the first `k` skills, in order.
pub open spec fn duplicate_names_upto(skills: Seq<Skill>, k: nat) -> Seq<DiagnosticView>
    decreases k,
{
    if k == 0 {
        seq![]
    } else {
        duplicate_names_upto(skills, (k - 1) as nat) + duplicate_name_finding(skills, k - 1)
    }
}

pub open spec fn duplicate_name_finds(set: SkillSet) -> Seq<DiagnosticView> {
    duplicate_names_upto(set.skills@, set.skills@.len())
}

/// Which of the two similarity rules a pairwise comparison is for.
#[derive(Clone, Copy, PartialEq, Eq, Structural)]
pub enum Similarity {
    /// `SL402`, over description words.
    Words,
    /// `SL403`, over description bigrams.
    Bigrams,
}

pub open spec fn similarity_code(k: Similarity) -> Seq<char> {
    match k {
        Similarity::Words => "SL402"@,
        Similarity::Bigrams => "SL403"@,
    }
}

pub open spec fn similarity_message(k: Similarity, pct: nat, other: Skill) -> Seq<char> {
    let lead = match k {
        Similarity::Words => "description is "@ + decimal(pct) + "% similar to \""@,
        Similarity::Bigrams => "trigger phrasing overlaps "@ + decimal(pct) + "% with \""@,
    };
    lead + other.frontmatter.name@ + "\" ("@ + other.path@ + ")"@
}

pub open spec fn similarity_fix(k: Similarity) -> Seq<char> {
    match k {
        Similarity::Words => "differentiate the descriptions so agents can tell the skills apart"@,
        Similarity::Bigrams => "narrow the trigger conditions so the skills don't compete for the same requests"@,
    }
}

/// `inter / union`, as a percentage rounded to the nearest integer, ties to
/// even (as `{:.0}` renders it).
pub open spec fn percent(inter: nat, union: nat) -> nat {
    let num = 100 * inter;
    let q = num / union;
    let r = num % union;
    if 2 * r > union || (2 * r == union && q % 2 == 1) {
        q + 1
    } else {
        q
    }
}

/// The Jaccard similarity `inter / union` is at least `threshold` (a
/// threshold over a zero denominator is zero, which every similarity meets).
pub open spec fn meets(inter: nat, union: nat, threshold: Ratio) -> bool {
    threshold.den == 0 || inter * threshold.den >= threshold.num * union
}

/// The two diagnostics for skills `i` and `j`, if their entry lists are
/// similar enough.
pub open spec fn pair_finds(
    k: Similarity,
    skills: Seq<Skill>,
    bags: Seq<Seq<Seq<char>>>,
    threshold: Ratio,
    i: int,
    j: int,
) -> Seq<DiagnosticView> {
    let a = bags[i];
    let b = bags[j];
    let inter = count_in(a, b);
    let union = a.len() + (b.len() - count_in(b, a)) as nat;
    if a.len() == 0 || b.len() == 0 || !meets(inter, union, threshold) {
        seq![]
    } else {
        let pct = percent(inter, union);
        seq![
            diag_spec(
                similarity_code(k),
                similarity_message(k, pct, skills[j]),
                Severity::Warning,
                skills[i].path@,
                skills[i].frontmatter.description_line as nat,
                Some(similarity_fix(k)),
            ),
            diag_spec(
                similarity_code(k),
                similarity_message(k, pct, skills[i]),
                Severity::Warning,
                skills[j].path@,
                skills[j].frontmatter.description_line as nat,
                Some(similarity_fix(k)),
            ),
        ]
    }
}

/// The diagnostics of pairs `(i, j)` for `i < j < m`, in order of `j`.
pub open spec fn row_finds(
    k: Similarity,
    skills: Seq<Skill>,
    bags: Seq<Seq<Seq<char>>>,
    threshold: Ratio,
    i: int,
    m: nat,
) -> Seq<DiagnosticView>
    decreases m,
{
    if m == 0 || m <= i + 1 {
        seq![]
    } else {
        row_finds(k, skills, bags, threshold, i, (m - 1) as nat) + pair_finds(
            k,
            skills,
            bags,
            threshold,
            i,
            m - 1,
        )
    }
}

/// The diagnostics of all pairs whose first skill is among the first `n`.
pub open spec fn table_finds(
    k: Similarity,
    skills: Seq<Skill>,
    bags: Seq<Seq<Seq<char>>>,
    threshold: Ratio,
    n: nat,
) -> Seq<DiagnosticView>
    decreases n,
{
    if n == 0 {
        seq![]
    } else {
        table_finds(k, skills, bags, threshold, (n - 1) as nat) + row_finds(
            k,
            skills,
            bags,
            threshold,
            n - 1,
            skills.len(),
        )
    }
}

/// The words of a description, each once.
pub open spec fn word_set(s: Skill) -> Seq<Seq<char>> {
    dedup(words_of(s.frontmatter.description@))
}

/// The adjacent word pairs of `ws`, each joined by a space.
pub open spec fn bigrams(ws: Seq<Seq<char>>) -> Seq<Seq<char>> {
    Seq::new((ws.len() - 1) as nat, |k: int| ws[k] + " "@ + ws[k + 1])
}

/// The bigram shingles of `text`, each once; the words themselves when
/// there are fewer than two.
pub open spec fn shingle_set(text: Seq<char>) -> Seq<Seq<char>> {
    let ws = words_of(text);
    if ws.len() < 2 {
        dedup(ws)
    } else {
        dedup(bigrams(ws))
    }
}

pub open spec fn similar_description_finds(set: SkillSet, config: LintConfig) -> Seq<DiagnosticView> {
    let skills = set.skills@;
    table_finds(
        Similarity::Words,
        skills,
        skills.map_values(|s: Skill| word_set(s)),
        config.similar_description_threshold,
        skills.len(),
    )
}

pub open spec fn overlapping_trigger_finds(set: SkillSet, config: LintConfig) -> Seq<DiagnosticView> {
    let skills = set.skills@;
    table_finds(
        Similarity::Bigrams,
        skills,
        skills.map_values(|s: Skill| shingle_set(s.frontmatter.description@)),
        config.trigger_overlap_threshold,
        skills.len(),
    )
}

/// The bigram shingles of `text`, each once.
pub fn shingles(text: &str) -> (r: Vec<String>)
    ensures
        views(r@) == shingle_set(text@),
{
    let ws = words(text);
    if ws.len() < 2 {
        return distinct(&ws);
    }
    let ghost w = views(ws@);
    let mut pairs: Vec<String> = Vec::new();
    let mut k: usize = 0;
    while k + 1 < ws.len()
        invariant
            ws.len() >= 2,
            k + 1 <= ws.len(),
            w == views(ws@),
            views(pairs@) == bigrams(w).take(k as int),
        decreases ws.len() - k,
    {
        let mut p = ws[k].clone();
        push_str(&mut p, " ");
        push_str(&mut p, ws[k + 1].as_str());
        let ghost before = views(pairs@);
        pairs.push(p);
        proof {
            assert(views(pairs@) =~= before.push(w[k as int] + " "@ + w[k + 1]));
            assert(bigrams(w).take(k + 1) =~= bigrams(w).take(k as int).push(bigrams(w)[k as int]));
        }
        k += 1;
    }
    proof {
        assert(bigrams(w).take(k as int) =~= bigrams(w));
    }
    distinct(&pairs)
}

/// The rounded percentage of `inter / union`.
fn percent_of(inter: usize, u: u128) -> (p: usize)
    requires
        inter <= u,
        u > 0,
        u <= 0x4_0000_0000_0000_0000,
    ensures
        p == percent(inter as nat, u as nat),
{
    let num: u128 = 100 * (inter as u128);
    let q = num / u;
    let r = num % u;
    proof {
        assert(q <= 100) by (nonlinear_arith)
            requires
                q == num / u,
                num == 100 * inter,
                inter <= u,
                u > 0,
        {
            assert(num <= 100 * u);
        }
    }
    let q = q as usize;
    if 2 * r > u || (2 * r == u && q % 2 == 1) {
        q + 1
    } else {
        q
    }
}

/// Appends the two diagnostics for skills `i` and `j` if their entry lists
/// are similar enough.
fn push_pair(
    out: &mut Vec<Diagnostic>,
    k: Similarity,
    skills: &Vec<Skill>,
    bags: &Vec<Vec<String>>,
    threshold: Ratio,
    i: usize,
    j: usize,
)
    requires
        i < j < skills.len() == bags.len(),
    ensures
        final(out)@.map_values(|d: Diagnostic| d@) == old(out)@.map_values(|d: Diagnostic| d@)
            + pair_finds(k, skills@, bags@.map_values(|b: Vec<String>| views(b@)), threshold, i as int, j as int),
{
    let ghost vb = bags@.map_values(|b: Vec<String>| views(b@));
    let ghost before = out@.map_values(|d: Diagnostic| d@);
    proof {
        assert(vb[i as int] == views(bags@[i as int]@));
        assert(vb[j as int] == views(bags@[j as int]@));
    }
    let a = &bags[i];
    let b = &bags[j];
    if a.len() == 0 || b.len() == 0 {
        proof {
            assert(out@.map_values(|d: Diagnostic| d@) =~= before + pair_finds(k, skills@, vb, threshold, i as int, j as int));
        }
        return;
    }
    let inter = shared_count(a, b);
    let back = shared_count(b, a);
    let union: u128 = a.len() as u128 + (b.len() - back) as u128;
    proof {
        assert((inter as u128) * (threshold.den as u128) <= 0xffff_ffff_ffff_ffff * 0xffff_ffff_ffff_ffff)
            by (nonlinear_arith)
            requires
                inter <= 0xffff_ffff_ffff_ffff,
                threshold.den <= 0xffff_ffff_ffff_ffff,
        {
        }
    }
    let scaled_inter: u128 = (inter as u128) * (threshold.den as u128);
    let below = threshold.den != 0 && match (threshold.num as u128).checked_mul(union) {
        Some(scaled_threshold) => scaled_inter < scaled_threshold,
        None => true,
    };
    if below {
        proof {
            assert(out@.map_values(|d: Diagnostic| d@) =~= before + pair_finds(k, skills@, vb, threshold, i as int, j as int));
        }
        return;
    }
    let pct = percent_of(inter, union);
    let sa = &skills[i];
    let sb = &skills[j];
    out.push(similarity_finding(k, pct, sa, sb));
    out.push(similarity_finding(k, pct, sb, sa));
    proof {
        assert(out@.map_values(|d: Diagnostic| d@) =~= before + pair_finds(k, skills@, vb, threshold, i as int, j as int));
    }
}

/// The diagnostic on skill `a` for being similar to skill `b`.
fn similarity_finding(k: Similarity, pct: usize, a: &Skill, b: &Skill) -> (d: Diagnostic)
    ensures
        d@ == diag_spec(
            similarity_code(k),
            similarity_message(k, pct as nat, *b),
            Severity::Warning,
            a.path@,
            a.frontmatter.description_line as nat,
            Some(similarity_fix(k)),
        ),
{
    let mut message = String::new();
    let mut fix = String::new();
    let code = match k {
        Similarity::Words => {
            push_str(&mut message, "description is ");
            push_decimal(&mut message, pct);
            push_str(&mut message, "% similar to \"");
            push_str(&mut fix, "differentiate the descriptions so agents can tell the skills apart");
            "SL402"
        },
        Similarity::Bigrams => {
            push_str(&mut message, "trigger phrasing overlaps ");
            push_decimal(&mut message, pct);
            push_str(&mut message, "% with \"");
            push_str(&mut fix, "narrow the trigger conditions so the skills don't compete for the same requests");
            "SL403"
        },
    };
    push_str(&mut message, b.frontmatter.name.as_str());
    push_str(&mut message, "\" (");
    push_str(&mut message, b.path.as_str());
    push_str(&mut message, ")");
    let d = finding(code, message, Severity::Warning, a.path.as_str(), a.frontmatter.description_line, fix);
    proof {
        assert(d@.message == similarity_message(k, pct as nat, *b));
    }
    d
}

/// The pairwise similarity diagnostics over `bags`, one list per skill.
fn similarity_table(
    k: Similarity,
    skills: &Vec<Skill>,
    bags: &Vec<Vec<String>>,
    threshold: Ratio,
) -> (r: Vec<Diagnostic>)
    requires
        skills.len() == bags.len(),
    ensures
        r@.map_values(|d: Diagnostic| d@) == table_finds(
            k,
            skills@,
            bags@.map_values(|b: Vec<String>| views(b@)),
            threshold,
            skills@.len(),
        ),
{
    let ghost vb = bags@.map_values(|b: Vec<String>| views(b@));
    let n = skills.len();
    let mut out: Vec<Diagnostic> = Vec::new();
    let mut i: usize = 0;
    while i < n
        invariant
            i <= n == skills.len() == bags.len(),
            vb == bags@.map_values(|b: Vec<String>| views(b@)),
            out@.map_values(|d: Diagnostic| d@) == table_finds(k, skills@, vb, threshold, i as nat),
        decreases n - i,
    {
        let ghost start = out@.map_values(|d: Diagnostic| d@);
        let mut j: usize = i + 1;
        while j < n
            invariant
                i < j <= n == skills.len() == bags.len(),
                vb == bags@.map_values(|b: Vec<String>| views(b@)),
                out@.map_values(|d: Diagnostic| d@) == start + row_finds(k, skills@, vb, threshold, i as int, j as nat),
            decreases n - j,
        {
            let ghost mid = out@.map_values(|d: Diagnostic| d@);
            push_pair(&mut out, k, skills, bags, threshold, i, j);
            proof {
                assert(row_finds(k, skills@, vb, threshold, i as int, (j + 1) as nat) == row_finds(
                    k,
                    skills@,
                    vb,
                    threshold,
                    i as int,
                    j as nat,
                ) + pair_finds(k, skills@, vb, threshold, i as int, j as int));
                assert(out@.map_values(|d: Diagnostic| d@) =~= start + row_finds(
                    k,
                    skills@,
                    vb,
                    threshold,
                    i as int,
                    (j + 1) as nat,
                ));
            }
            j += 1;
        }
        proof {
            if i + 1 == n {
                assert(row_finds(k, skills@, vb, threshold, i as int, n as nat) == Seq::<DiagnosticView>::empty());
            }
            assert(table_finds(k, skills@, vb, threshold, (i + 1) as nat) == table_finds(
                k,
                skills@,
                vb,
                threshold,
                i as nat,
            ) + row_finds(k, skills@, vb, threshold, i as int, skills@.len()));
        }
        i += 1;
    }
    out
}

impl Rule for DuplicateSkillName {
    fn code(&self) -> (r: &'static str)
        ensures
            r@ == "SL401"@,
    {
        "SL401"
    }

    fn name(&self) -> (r: &'static str)
        ensures
            r@ == "duplicate-skill-name"@,
    {
        "duplicate-skill-name"
    }

    fn default_severity(&self) -> (r: Severity)
        ensures
            r == Severity::Error,
    {
        Severity::Error
    }
}

/// The paths of the other skills named like skill `i`, joined by `", "`,
/// and how many there are.
fn namesake_list(skills: &Vec<Skill>, i: usize) -> (r: (String, usize))
    requires
        i < skills.len(),
    ensures
        r.0@ == join_sep(namesakes(skills@, i as int, skills@.len()), ", "@),
        r.1 == namesakes(skills@, i as int, skills@.len()).len(),
{
    let mut out = String::new();
    let mut count: usize = 0;
    let mut m: usize = 0;
    while m < skills.len()
        invariant
            i < skills.len(),
            m <= skills.len(),
            out@ == join_sep(namesakes(skills@, i as int, m as nat), ", "@),
            count == namesakes(skills@, i as int, m as nat).len(),
            count <= m,
        decreases skills.len() - m,
    {
        let ghost prev = namesakes(skills@, i as int, m as nat);
        if m != i && skills[m].frontmatter.name == skills[i].frontmatter.name {
            if count > 0 {
                push_str(&mut out, ", ");
            }
            push_str(&mut out, skills[m].path.as_str());
            proof {
                let next = namesakes(skills@, i as int, (m + 1) as nat);
                assert(next =~= prev.push(skills@[m as int].path@));
                assert(next.drop_last() =~= prev);
            }
            count += 1;
        } else {
            proof {
                assert(namesakes(skills@, i as int, (m + 1) as nat) =~= prev);
            }
        }
        m += 1;
    }
    (out, count)
}

impl SetRule for DuplicateSkillName {
    fn check(&self, set: &SkillSet, config: &LintConfig, tokens: &TokenCounter) -> (r: Vec<Diagnostic>)
        ensures
            r@.map_values(|d: Diagnostic| d@) == duplicate_name_finds(*set),
    {
        let skills = &set.skills;
        let mut out: Vec<Diagnostic> = Vec::new();
        let mut i: usize = 0;
        while i < skills.len()
            invariant
                i <= skills.len(),
                skills == &set.skills,
                out@.map_values(|d: Diagnostic| d@) == duplicate_names_upto(skills@, i as nat),
            decreases skills.len() - i,
        {
            let ghost before = out@.map_values(|d: Diagnostic| d@);
            let (others, count) = namesake_list(skills, i);
            if count > 0 {
                let skill = &skills[i];
                let mut message = String::new();
                push_str(&mut message, "skill name \"");
                push_str(&mut message, skill.frontmatter.name.as_str());
                push_str(&mut message, "\" is also used by: ");
                push_str(&mut message, others.as_str());
                let mut fix = String::new();
                push_str(&mut fix, "give each skill a unique `name`");
                out.push(finding(self.code(), message, self.default_severity(), skill.path.as_str(),
                    skill.frontmatter.name_line, fix));
            }
            proof {
                assert(out@.map_values(|d: Diagnostic| d@) =~= before + duplicate_name_finding(skills@, i as int));
            }
            i += 1;
        }
        out
    }
}

impl Rule for SimilarDescription {
    fn code(&self) -> (r: &'static str)
        ensures
            r@ == "SL402"@,
    {
        "SL402"
    }

    fn name(&self) -> (r: &'static str)
        ensures
            r@ == "similar-description"@,
    {
        "similar-description"
    }

    fn default_severity(&self) -> (r: Severity)
        ensures
            r == Severity::Warning,
    {
        Severity::Warning
    }
}

impl SetRule for SimilarDescription {
    fn check(&self, set: &SkillSet, config: &LintConfig, tokens: &TokenCounter) -> (r: Vec<Diagnostic>)
        ensures
            r@.map_values(|d: Diagnostic| d@) == similar_description_finds(*set, *config),
    {
        let skills = &set.skills;
        let mut bags: Vec<Vec<String>> = Vec::new();
        let mut i: usize = 0;
        while i < skills.len()
            invariant
                i <= skills.len(),
                skills == &set.skills,
                bags@.map_values(|b: Vec<String>| views(b@)) == skills@.take(i as int).map_values(
                    |s: Skill| word_set(s),
                ),
            decreases skills.len() - i,
        {
            let ghost before = bags@.map_values(|b: Vec<String>| views(b@));
            bags.push(word_bag(skills[i].frontmatter.description.as_str()));
            proof {
                assert(bags@.map_values(|b: Vec<String>| views(b@)) =~= before.push(word_set(skills@[i as int])));
                assert(skills@.take(i + 1).map_values(|s: Skill| word_set(s)) =~= skills@.take(i as int).map_values(
                    |s: Skill| word_set(s),
                ).push(word_set(skills@[i as int])));
            }
            i += 1;
        }
        proof {
            assert(skills@.take(skills.len() as int) =~= skills@);
        }
        similarity_table(Similarity::Words, skills, &bags, config.similar_description_threshold)
    }
}

impl Rule for OverlappingTriggerPhrasing {
    fn code(&self) -> (r: &'static str)
        ensures
            r@ == "SL403"@,
    {
        "SL403"
    }

    fn name(&self) -> (r: &'static str)
        ensures
            r@ == "overlapping-trigger-phrasing"@,
    {
        "overlapping-trigger-phrasing"
    }

    fn default_severity(&self) -> (r: Severity)
        ensures
            r == Severity::Warning,
    {
        Severity::Warning
    }
}

impl SetRule for OverlappingTriggerPhrasing {
    fn check(&self, set: &SkillSet, config: &LintConfig, tokens: &TokenCounter) -> (r: Vec<Diagnostic>)
        ensures
            r@.map_values(|d: Diagnostic| d@) == overlapping_trigger_finds(*set, *config),
    {
        let skills = &set.skills;
        let mut bags: Vec<Vec<String>> = Vec::new();
        let mut i: usize = 0;
        while i < skills.len()
            invariant
                i <= skills.len(),
                skills == &set.skills,
                bags@.map_values(|b: Vec<String>| views(b@)) == skills@.take(i as int).map_values(
                    |s: Skill| shingle_set(s.frontmatter.description@),
                ),
            decreases skills.len() - i,
        {
            let ghost before = bags@.map_values(|b: Vec<String>| views(b@));
            bags.push(shingles(skills[i].frontmatter.description.as_str()));
            proof {
                assert(bags@.map_values(|b: Vec<String>| views(b@)) =~= before.push(
                    shingle_set(skills@[i as int].frontmatter.description@),
                ));
                assert(skills@.take(i + 1).map_values(|s: Skill| shingle_set(s.frontmatter.description@))
                    =~= skills@.take(i as int).map_values(
                    |s: Skill| shingle_set(s.frontmatter.description@),
                ).push(shingle_set(skills@[i as int].frontmatter.description@)));
            }
            i += 1;
        }
        proof {
            assert(skills@.take(skills.len() as int) =~= skills@);
        }
        similarity_table(Similarity::Bigrams, skills, &bags, config.trigger_overlap_threshold)
    }
}

} // verus!
