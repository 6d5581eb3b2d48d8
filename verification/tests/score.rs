use adept::score::{
    CandidatePrompt, Metrics, OverlapAdjudication, PromptJudgement, PromptLabel, Ratio, ScoreReport,
    TokenBloatReport, TriggeringReport, PROMPT_VERSION,
};

fn ratio(num: u64, den: u64) -> Ratio {
    Ratio { num, den }
}

fn judgement(text: &str, label: PromptLabel, would_trigger: bool, agreement: Ratio) -> PromptJudgement {
    PromptJudgement {
        prompt: CandidatePrompt { text: text.to_string(), label },
        would_trigger,
        votes: vec![would_trigger],
        agreement_rate: agreement,
    }
}

#[test]
fn an_empty_report_says_nothing_was_shortlisted() {
    let report = ScoreReport::new("demo".to_string());
    assert_eq!(report.prompt_version, PROMPT_VERSION);
    assert_eq!(
        report.render(),
        "Score report for skill: demo\n(prompt set version: 1)\n\n== Overlap/conflict detection ==\n  no shortlisted overlaps\n"
    );
}

#[test]
fn a_full_report_renders_every_section() {
    let mut report = ScoreReport::new("pdf-filler".to_string());
    report.triggering = Some(TriggeringReport {
        metrics: Metrics { precision: ratio(2, 3), recall: ratio(1, 1), f1: ratio(4, 5), correct: 2, total: 3 },
        judgements: vec![
            judgement("fill this form", PromptLabel::Positive, true, ratio(3, 3)),
            judgement("draw a cat", PromptLabel::Negative, true, ratio(2, 3)),
        ],
    });
    report.token_bloat = Some(TokenBloatReport {
        description_tokens: 30,
        body_tokens: 400,
        companion_file_tokens: vec![("REFERENCE.md".to_string(), 100), ("FORMS.md".to_string(), 20)],
        total_tokens: 550,
        suggestions: vec!["trim the body".to_string()],
    });
    report.overlaps = vec![OverlapAdjudication {
        skill_a: "pdf-filler".to_string(),
        skill_b: "pdf-reader".to_string(),
        similarity: ratio(29, 40),
        overlaps: true,
        conflicts: false,
        explanation: "both read PDFs".to_string(),
        disambiguation: "say which one writes".to_string(),
    }];
    assert_eq!(
        report.render(),
        "Score report for skill: pdf-filler\n(prompt set version: 1)\n\n\
         == Triggering accuracy ==\n\
         precision: 0.67  recall: 1.00  f1: 0.80  (2/3 correct)\n\
         \x20 [OK] (should-trigger, agreement 100%) predicted=true :: fill this form\n\
         \x20 [MISS] (should-not-trigger, agreement 67%) predicted=true :: draw a cat\n\n\
         == Token bloat ==\n\
         description: 30 tokens, body: 400 tokens, companions: 120 tokens, total: 550 tokens\n\
         \x20 - trim the body\n\n\
         == Overlap/conflict detection ==\n\
         \x20 [overlap] pdf-filler <-> pdf-reader (similarity 0.72): both read PDFs\n\
         \x20     suggestion: say which one writes\n"
    );
}

#[test]
fn a_judgement_is_correct_when_its_verdict_matches_its_label() {
    assert!(judgement("p", PromptLabel::Positive, true, ratio(1, 1)).is_correct());
    assert!(judgement("p", PromptLabel::Negative, false, ratio(1, 1)).is_correct());
    assert!(!judgement("p", PromptLabel::Negative, true, ratio(1, 1)).is_correct());
}

#[test]
fn ratios_round_half_to_even() {
    let mut report = ScoreReport::new("x".to_string());
    report.overlaps = vec![OverlapAdjudication {
        skill_a: "a".to_string(),
        skill_b: "b".to_string(),
        similarity: ratio(1330, 2000),
        overlaps: false,
        conflicts: true,
        explanation: "e".to_string(),
        disambiguation: String::new(),
    }];
    assert!(report.render().ends_with("  [CONFLICT] a <-> b (similarity 0.66): e\n"));
}

fn sample_report() -> ScoreReport {
    ScoreReport {
        prompt_version: PROMPT_VERSION.to_string(),
        skill_name: "pdf-filler".to_string(),
        triggering: Some(TriggeringReport {
            metrics: Metrics { precision: ratio(10, 10), recall: ratio(5, 10), f1: ratio(6667, 10000), correct: 3, total: 4 },
            judgements: vec![
                judgement("Fill out this W-9 PDF for me", PromptLabel::Positive, true, ratio(10, 10)),
                judgement("What's the weather today?", PromptLabel::Negative, false, ratio(10, 10)),
            ],
        }),
        token_bloat: Some(TokenBloatReport {
            description_tokens: 12,
            body_tokens: 340,
            companion_file_tokens: vec![("reference.md".to_string(), 88)],
            total_tokens: 440,
            suggestions: vec!["Move the reference table to a companion file".to_string()],
        }),
        overlaps: vec![OverlapAdjudication {
            skill_a: "pdf-filler".to_string(),
            skill_b: "pdf-writer".to_string(),
            similarity: ratio(42, 100),
            overlaps: true,
            conflicts: false,
            explanation: "Both fill PDF forms".to_string(),
            disambiguation: "Narrow pdf-writer to non-form documents".to_string(),
        }],
    }
}

#[test]
fn render_snapshot() {
    assert_eq!(
        sample_report().render(),
        "Score report for skill: pdf-filler\n\
         (prompt set version: 1)\n\
         \n\
         == Triggering accuracy ==\n\
         precision: 1.00  recall: 0.50  f1: 0.67  (3/4 correct)\n\
         \x20 [OK] (should-trigger, agreement 100%) predicted=true :: Fill out this W-9 PDF for me\n\
         \x20 [OK] (should-not-trigger, agreement 100%) predicted=false :: What's the weather today?\n\
         \n\
         == Token bloat ==\n\
         description: 12 tokens, body: 340 tokens, companions: 88 tokens, total: 440 tokens\n\
         \x20 - Move the reference table to a companion file\n\
         \n\
         == Overlap/conflict detection ==\n\
         \x20 [overlap] pdf-filler <-> pdf-writer (similarity 0.42): Both fill PDF forms\n\
         \x20     suggestion: Narrow pdf-writer to non-form documents\n"
    );
}

#[test]
fn ratios_are_rounded_once_from_their_exact_value() {
    let render = |similarity: Ratio| {
        let mut report = ScoreReport::new("x".to_string());
        report.overlaps = vec![OverlapAdjudication {
            skill_a: "a".to_string(),
            skill_b: "b".to_string(),
            similarity,
            overlaps: true,
            conflicts: false,
            explanation: "e".to_string(),
            disambiguation: String::new(),
        }];
        report.render()
    };
    assert!(render(ratio(125047, 1000000)).ends_with("(similarity 0.13): e\n"));
    assert!(render(ratio(1, 8)).ends_with("(similarity 0.12): e\n"));
    assert!(render(ratio(2, 3)).ends_with("(similarity 0.67): e\n"));
    assert!(render(ratio(7, 0)).ends_with("(similarity 0.00): e\n"));
}
