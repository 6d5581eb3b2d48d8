//! The result of scoring one skill, and its human-readable rendering.
//!
//! Ratios (precision, recall, F1, agreement, similarity) are held exactly,
//! as fractions of two counts, and rounded once, when printed.

use vstd::prelude::*;
pub use crate::ratio::Ratio;
use crate::chars::{decimal, digit_char, push_char, push_decimal, push_decimal_wide, push_str};

verus! {

/// The version of the prompt set reports are made with, so reports made
/// under different prompts are not compared naively.
pub const PROMPT_VERSION: &'static str = "1";

/// Whether a candidate prompt should trigger the skill.
#[derive(Clone, Copy, Debug, PartialEq, Eq, Structural)]
pub enum PromptLabel {
    Positive,
    Negative,
}

/// A generated prompt and whether it should trigger the skill.
#[derive(Clone, Debug)]
pub struct CandidatePrompt {
    pub text: String,
    pub label: PromptLabel,
}

/// The judges' verdict on one prompt.
#[derive(Clone, Debug)]
pub struct PromptJudgement {
    pub prompt: CandidatePrompt,
    /// The verdict most judges gave: would the skill trigger.
    pub would_trigger: bool,
    /// Each judge sample's verdict.
    pub votes: Vec<bool>,
    /// The share of votes agreeing with the majority.
    pub agreement_rate: Ratio,
}

impl PromptJudgement {
    /// The verdict matches the prompt's label.
    pub open spec fn correct(&self) -> bool {
        self.would_trigger == (self.prompt.label == PromptLabel::Positive)
    }

    /// Whether the verdict matches the prompt's label.
    pub fn is_correct(&self) -> (r: bool)
        ensures
            r == self.correct(),
    {
        self.would_trigger == (self.prompt.label == PromptLabel::Positive)
    }
}

/// Classification metrics over the judged prompts.
#[derive(Clone, Debug)]
pub struct Metrics {
    pub precision: Ratio,
    pub recall: Ratio,
    pub f1: Ratio,
    pub correct: usize,
    pub total: usize,
}

/// Triggering-accuracy results.
#[derive(Clone, Debug)]
pub struct TriggeringReport {
    pub metrics: Metrics,
    pub judgements: Vec<PromptJudgement>,
}

/// Token-bloat analysis.
#[derive(Clone, Debug)]
pub struct TokenBloatReport {
    pub description_tokens: usize,
    pub body_tokens: usize,
    /// Tokens per companion file, by file name.
    pub companion_file_tokens: Vec<(String, usize)>,
    pub total_tokens: usize,
    pub suggestions: Vec<String>,
}

impl TokenBloatReport {
    /// The report maps file names to token counts: each companion file is
    /// listed once.
    pub open spec fn wf(&self) -> bool {
        forall|i: int, j: int|
            0 <= i < j < self.companion_file_tokens@.len() ==> self.companion_file_tokens@[i].0@
                != self.companion_file_tokens@[j].0@
    }
}

/// The adjudication of one shortlisted pair of skills.
#[derive(Clone, Debug)]
pub struct OverlapAdjudication {
    pub skill_a: String,
    pub skill_b: String,
    /// The shortlisting similarity.
    pub similarity: Ratio,
    pub overlaps: bool,
    pub conflicts: bool,
    pub explanation: String,
    pub disambiguation: String,
}

/// The full result of scoring one skill.
#[derive(Clone, Debug)]
pub struct ScoreReport {
    /// The [`PROMPT_VERSION`] the report was made with.
    pub prompt_version: String,
    pub skill_name: String,
    pub triggering: Option<TriggeringReport>,
    pub token_bloat: Option<TokenBloatReport>,
    /// Adjudications against other skills; empty when none was shortlisted.
    pub overlaps: Vec<OverlapAdjudication>,
}

/// `num / den` rounded to the nearest integer, ties to even.
pub open spec fn round_even(num: nat, den: nat) -> nat {
    let q = num / den;
    let r = num % den;
    if 2 * r > den || (2 * r == den && q % 2 == 1) {
        q + 1
    } else {
        q
    }
}

/// `r` in hundredths, rounded to the nearest, ties to even.
pub open spec fn hundredths(r: Ratio) -> nat {
    if r.den == 0 {
        0
    } else {
        round_even(r.num as nat * 100, r.den as nat)
    }
}

/// A ratio with two decimals (`{:.2}`).
pub open spec fn two_decimals(r: Ratio) -> Seq<char> {
    let h = hundredths(r);
    decimal(h / 100) + seq!['.', digit_char((h % 100) / 10), digit_char(h % 10)]
}

/// A ratio as a whole percentage (`{:.0}` of the ratio times 100).
pub open spec fn whole_percent(r: Ratio) -> Seq<char> {
    decimal(hundredths(r))
}

pub open spec fn bool_text(b: bool) -> Seq<char> {
    if b {
        "true"@
    } else {
        "false"@
    }
}

pub open spec fn judgement_line(j: PromptJudgement) -> Seq<char> {
    "  ["@ + (if j.correct() {
        "OK"@
    } else {
        "MISS"@
    }) + "] ("@ + (if j.prompt.label == PromptLabel::Positive {
        "should-trigger"@
    } else {
        "should-not-trigger"@
    }) + ", agreement "@ + whole_percent(j.agreement_rate) + "%) predicted="@ + bool_text(
        j.would_trigger,
    ) + " :: "@ + j.prompt.text@ + "\n"@
}

pub open spec fn judgements_text(js: Seq<PromptJudgement>) -> Seq<char>
    decreases js.len(),
{
    if js.len() == 0 {
        Seq::empty()
    } else {
        judgements_text(js.drop_last()) + judgement_line(js.last())
    }
}

pub open spec fn triggering_text(t: TriggeringReport) -> Seq<char> {
    "== Triggering accuracy ==\n"@ + "precision: "@ + two_decimals(t.metrics.precision) + "  recall: "@
        + two_decimals(t.metrics.recall) + "  f1: "@ + two_decimals(t.metrics.f1) + "  ("@
        + decimal(t.metrics.correct as nat) + "/"@ + decimal(t.metrics.total as nat) + " correct)\n"@
        + judgements_text(t.judgements@) + "\n"@
}

/// The sum of the token counts of `files`.
pub open spec fn token_sum(files: Seq<(String, usize)>) -> nat
    decreases files.len(),
{
    if files.len() == 0 {
        0
    } else {
        token_sum(files.drop_last()) + files.last().1 as nat
    }
}

pub open spec fn suggestions_text(ss: Seq<String>) -> Seq<char>
    decreases ss.len(),
{
    if ss.len() == 0 {
        Seq::empty()
    } else {
        suggestions_text(ss.drop_last()) + "  - "@ + ss.last()@ + "\n"@
    }
}

pub open spec fn bloat_text(b: TokenBloatReport) -> Seq<char> {
    "== Token bloat ==\n"@ + "description: "@ + decimal(b.description_tokens as nat) + " tokens, body: "@
        + decimal(b.body_tokens as nat) + " tokens, companions: "@ + decimal(token_sum(b.companion_file_tokens@))
        + " tokens, total: "@ + decimal(b.total_tokens as nat) + " tokens\n"@ + (if b.suggestions@.len() == 0 {
        "  no trimming suggestions\n"@
    } else {
        suggestions_text(b.suggestions@)
    }) + "\n"@
}

pub open spec fn overlap_text(o: OverlapAdjudication) -> Seq<char> {
    "  ["@ + (if o.conflicts {
        "CONFLICT"@
    } else if o.overlaps {
        "overlap"@
    } else {
        "no issue"@
    }) + "] "@ + o.skill_a@ + " <-> "@ + o.skill_b@ + " (similarity "@ + two_decimals(o.similarity)
        + "): "@ + o.explanation@ + "\n"@ + (if o.disambiguation@.len() == 0 {
        Seq::empty()
    } else {
        "      suggestion: "@ + o.disambiguation@ + "\n"@
    })
}

pub open spec fn overlaps_text(os: Seq<OverlapAdjudication>) -> Seq<char>
    decreases os.len(),
{
    if os.len() == 0 {
        Seq::empty()
    } else {
        overlaps_text(os.drop_last()) + overlap_text(os.last())
    }
}

/// The human-readable rendering of a report.
pub open spec fn report_text(r: ScoreReport) -> Seq<char> {
    "Score report for skill: "@ + r.skill_name@ + "\n"@ + "(prompt set version: "@ + r.prompt_version@ + ")\n"@
        + "\n"@ + match r.triggering {
        Some(t) => triggering_text(t),
        None => Seq::empty(),
    } + match r.token_bloat {
        Some(b) => bloat_text(b),
        None => Seq::empty(),
    } + "== Overlap/conflict detection ==\n"@ + if r.overlaps@.len() == 0 {
        "  no shortlisted overlaps\n"@
    } else {
        overlaps_text(r.overlaps@)
    }
}

fn exec_digit(d: u64) -> (c: char)
    requires
        d < 10,
    ensures
        c == digit_char(d as nat),
{
    if d == 0 { '0' } else if d == 1 { '1' } else if d == 2 { '2' } else if d == 3 { '3' }
    else if d == 4 { '4' } else if d == 5 { '5' } else if d == 6 { '6' } else if d == 7 { '7' }
    else if d == 8 { '8' } else { '9' }
}

/// `r` in hundredths, rounded to the nearest, ties to even.
fn to_hundredths(r: Ratio) -> (h: u128)
    ensures
        h == hundredths(r),
{
    if r.den == 0 {
        return 0;
    }
    let n: u128 = (r.num as u128) * 100;
    let d: u128 = r.den as u128;
    let q = n / d;
    let m = n % d;
    proof {
        assert(q <= n) by (nonlinear_arith)
            requires
                q == n / d,
                d >= 1,
                n >= 0,
        {
        }
    }
    if m * 2 > d || (m * 2 == d && q % 2 == 1) {
        q + 1
    } else {
        q
    }
}

fn push_two_decimals(out: &mut String, r: Ratio)
    ensures
        final(out)@ == old(out)@ + two_decimals(r),
{
    let h = to_hundredths(r);
    push_decimal_wide(out, h / 100);
    push_char(out, '.');
    push_char(out, exec_digit(((h % 100) / 10) as u64));
    push_char(out, exec_digit((h % 10) as u64));
    proof {
        assert(final(out)@ =~= old(out)@ + two_decimals(r));
    }
}

fn push_bool(out: &mut String, b: bool)
    ensures
        final(out)@ == old(out)@ + bool_text(b),
{
    if b {
        push_str(out, "true");
    } else {
        push_str(out, "false");
    }
}

fn push_judgement(out: &mut String, j: &PromptJudgement)
    ensures
        final(out)@ == old(out)@ + judgement_line(*j),
{
    push_str(out, "  [");
    if j.is_correct() {
        push_str(out, "OK");
    } else {
        push_str(out, "MISS");
    }
    push_str(out, "] (");
    match j.prompt.label {
        PromptLabel::Positive => push_str(out, "should-trigger"),
        PromptLabel::Negative => push_str(out, "should-not-trigger"),
    }
    push_str(out, ", agreement ");
    push_decimal_wide(out, to_hundredths(j.agreement_rate));
    push_str(out, "%) predicted=");
    push_bool(out, j.would_trigger);
    push_str(out, " :: ");
    push_str(out, j.prompt.text.as_str());
    push_str(out, "\n");
    proof {
        assert(final(out)@ =~= old(out)@ + judgement_line(*j));
    }
}

fn push_triggering(out: &mut String, t: &TriggeringReport)
    ensures
        final(out)@ == old(out)@ + triggering_text(*t),
{
    push_str(out, "== Triggering accuracy ==\n");
    push_str(out, "precision: ");
    push_two_decimals(out, t.metrics.precision);
    push_str(out, "  recall: ");
    push_two_decimals(out, t.metrics.recall);
    push_str(out, "  f1: ");
    push_two_decimals(out, t.metrics.f1);
    push_str(out, "  (");
    push_decimal(out, t.metrics.correct);
    push_str(out, "/");
    push_decimal(out, t.metrics.total);
    push_str(out, " correct)\n");
    let ghost head = out@;
    let js = &t.judgements;
    let mut i: usize = 0;
    proof {
        assert(js@.take(0) =~= Seq::<PromptJudgement>::empty());
        assert(out@ =~= head + judgements_text(js@.take(0)));
    }
    while i < js.len()
        invariant
            i <= js.len(),
            out@ == head + judgements_text(js@.take(i as int)),
        decreases js.len() - i,
    {
        push_judgement(out, &js[i]);
        proof {
            assert(js@.take(i + 1).drop_last() =~= js@.take(i as int));
            assert(js@.take(i + 1).last() == js@[i as int]);
            assert(out@ =~= head + judgements_text(js@.take(i + 1)));
        }
        i += 1;
    }
    proof {
        assert(js@.take(js.len() as int) =~= js@);
    }
    push_str(out, "\n");
    proof {
        assert(final(out)@ =~= old(out)@ + triggering_text(*t));
    }
}

fn push_bloat(out: &mut String, b: &TokenBloatReport)
    ensures
        final(out)@ == old(out)@ + bloat_text(*b),
{
    let files = &b.companion_file_tokens;
    let mut sum: u128 = 0;
    let mut i: usize = 0;
    proof {
        assert(files@.take(0) =~= Seq::<(String, usize)>::empty());
    }
    while i < files.len()
        invariant
            i <= files.len(),
            sum == token_sum(files@.take(i as int)),
            sum <= i * 0x1_0000_0000_0000_0000,
        decreases files.len() - i,
    {
        proof {
            assert(files@.take(i + 1).drop_last() =~= files@.take(i as int));
            assert(files@.take(i + 1).last() == files@[i as int]);
            assert((i + 1) * 0x1_0000_0000_0000_0000 == i * 0x1_0000_0000_0000_0000 + 0x1_0000_0000_0000_0000) by (nonlinear_arith);
            assert(i * 0x1_0000_0000_0000_0000 + 0x1_0000_0000_0000_0000 <= 0x1_0000_0000_0000_0000 * 0x1_0000_0000_0000_0000) by (nonlinear_arith)
                requires
                    i < files.len(),
                    files.len() <= 0xffff_ffff_ffff_ffff,
            {
            }
        }
        sum = sum + files[i].1 as u128;
        i += 1;
    }
    proof {
        assert(files@.take(files.len() as int) =~= files@);
    }
    push_str(out, "== Token bloat ==\n");
    push_str(out, "description: ");
    push_decimal(out, b.description_tokens);
    push_str(out, " tokens, body: ");
    push_decimal(out, b.body_tokens);
    push_str(out, " tokens, companions: ");
    push_decimal_wide(out, sum);
    push_str(out, " tokens, total: ");
    push_decimal(out, b.total_tokens);
    push_str(out, " tokens\n");
    let ghost head = out@;
    let ss = &b.suggestions;
    if ss.len() == 0 {
        push_str(out, "  no trimming suggestions\n");
    } else {
        let mut k: usize = 0;
        proof {
            assert(ss@.take(0) =~= Seq::<String>::empty());
            assert(out@ =~= head + suggestions_text(ss@.take(0)));
        }
        while k < ss.len()
            invariant
                k <= ss.len(),
                out@ == head + suggestions_text(ss@.take(k as int)),
            decreases ss.len() - k,
        {
            push_str(out, "  - ");
            push_str(out, ss[k].as_str());
            push_str(out, "\n");
            proof {
                assert(ss@.take(k + 1).drop_last() =~= ss@.take(k as int));
                assert(ss@.take(k + 1).last() == ss@[k as int]);
                assert(out@ =~= head + suggestions_text(ss@.take(k + 1)));
            }
            k += 1;
        }
        proof {
            assert(ss@.take(ss.len() as int) =~= ss@);
        }
    }
    push_str(out, "\n");
    proof {
        assert(final(out)@ =~= old(out)@ + bloat_text(*b));
    }
}

fn push_overlap(out: &mut String, o: &OverlapAdjudication)
    ensures
        final(out)@ == old(out)@ + overlap_text(*o),
{
    push_str(out, "  [");
    if o.conflicts {
        push_str(out, "CONFLICT");
    } else if o.overlaps {
        push_str(out, "overlap");
    } else {
        push_str(out, "no issue");
    }
    push_str(out, "] ");
    push_str(out, o.skill_a.as_str());
    push_str(out, " <-> ");
    push_str(out, o.skill_b.as_str());
    push_str(out, " (similarity ");
    push_two_decimals(out, o.similarity);
    push_str(out, "): ");
    push_str(out, o.explanation.as_str());
    push_str(out, "\n");
    if crate::chars::chars_of(o.disambiguation.as_str()).len() > 0 {
        push_str(out, "      suggestion: ");
        push_str(out, o.disambiguation.as_str());
        push_str(out, "\n");
    }
    proof {
        assert(final(out)@ =~= old(out)@ + overlap_text(*o));
    }
}

impl ScoreReport {
    /// An empty report for `skill_name`, stamped with [`PROMPT_VERSION`].
    pub fn new(skill_name: String) -> (r: ScoreReport)
        ensures
            r.prompt_version@ == PROMPT_VERSION@,
            r.skill_name@ == skill_name@,
            r.triggering.is_none(),
            r.token_bloat.is_none(),
            r.overlaps@.len() == 0,
    {
        ScoreReport {
            prompt_version: crate::diagnostic::owned(PROMPT_VERSION),
            skill_name,
            triggering: None,
            token_bloat: None,
            overlaps: Vec::new(),
        }
    }

    /// The report as human-readable text.
    pub fn render(&self) -> (r: String)
        requires
            self.token_bloat matches Some(b) ==> b.wf(),
        ensures
            r@ == report_text(*self),
    {
        let mut out = String::new();
        push_str(&mut out, "Score report for skill: ");
        push_str(&mut out, self.skill_name.as_str());
        push_str(&mut out, "\n");
        push_str(&mut out, "(prompt set version: ");
        push_str(&mut out, self.prompt_version.as_str());
        push_str(&mut out, ")\n");
        push_str(&mut out, "\n");
        match &self.triggering {
            Some(t) => push_triggering(&mut out, t),
            None => {},
        }
        match &self.token_bloat {
            Some(b) => push_bloat(&mut out, b),
            None => {},
        }
        push_str(&mut out, "== Overlap/conflict detection ==\n");
        let ghost head = out@;
        let os = &self.overlaps;
        if os.len() == 0 {
            push_str(&mut out, "  no shortlisted overlaps\n");
        } else {
            let mut i: usize = 0;
            proof {
                assert(os@.take(0) =~= Seq::<OverlapAdjudication>::empty());
                assert(out@ =~= head + overlaps_text(os@.take(0)));
            }
            while i < os.len()
                invariant
                    i <= os.len(),
                    out@ == head + overlaps_text(os@.take(i as int)),
                decreases os.len() - i,
            {
                push_overlap(&mut out, &os[i]);
                proof {
                    assert(os@.take(i + 1).drop_last() =~= os@.take(i as int));
                    assert(os@.take(i + 1).last() == os@[i as int]);
                    assert(out@ =~= head + overlaps_text(os@.take(i + 1)));
                }
                i += 1;
            }
            proof {
                assert(os@.take(os.len() as int) =~= os@);
            }
        }
        proof {
            assert(out@ =~= report_text(*self));
        }
        out
    }
}

} // verus!
