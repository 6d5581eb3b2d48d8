//! `SL1xx` structure rules: checks on the Markdown body of a SKILL.md.

use vstd::prelude::*;
use crate::chars::{
    chars_of, decimal, ends_with, ends_with_chars, is_blank, push_decimal, push_str, starts_with,
    starts_with_chars, string_of, trim, trim_chars, trim_start, unicode_whitespace, is_whitespace,
    lemma_leading_count_is,
};
use crate::diagnostic::{diag_spec, Diagnostic, DiagnosticView, Severity, Skill};
use crate::lines::{lines, lines_of};
use crate::markdown::{headings, headings_spec, heading_views, HeadingView};
use crate::md_events::markdown_events;
use crate::path::{components, components_of, Part, part_views};
use crate::text::{char_views, contains_word, views, words, words_of};
use crate::token::TokenCounter;
use super::{blank_str, finding, HeadingStyle, LintConfig, Rule, SkillRule};
use super::links::{
    before_anchor, cut_anchor, extract_link_targets, intended_reference, is_intended_file_reference,
    link_targets,
};

verus! {

/// `SL101` `empty-body`: the body is empty or whitespace only.
pub struct EmptyBody;

/// `SL102` `missing-h1`: the body has no level-1 heading, ATX or setext.
pub struct MissingH1;

/// `SL103` `heading-skip`: a heading is more than one level deeper than
/// the deepest heading before it.
pub struct HeadingLevelSkip;

/// `SL104` `broken-file-reference`: a relative file the body refers to
/// does not exist next to SKILL.md.
pub struct BrokenFileReference;

/// `SL105` `setext-heading`: a heading is written in setext form (a line
/// underlined with `===` or `---`) while the configured heading style is
/// ATX.
pub struct SetextHeading;

/// The file line of line `l` (1-based) of a body that starts on file line
/// `offset`, held to the range of `usize`.
pub open spec fn body_line(offset: usize, l: int) -> nat {
    let v = offset + l - 1;
    if v < 0 {
        0
    } else if v > usize::MAX {
        usize::MAX as nat
    } else {
        v as nat
    }
}

fn exec_body_line(offset: usize, l: usize) -> (r: usize)
    ensures
        r == body_line(offset, l as int),
{
    let v: u128 = offset as u128 + l as u128;
    if v < 1 {
        0
    } else if v - 1 > usize::MAX as u128 {
        usize::MAX
    } else {
        (v - 1) as usize
    }
}

fn exec_index_line(offset: usize, idx: usize) -> (r: usize)
    ensures
        r == body_line(offset, idx as int + 1),
{
    let v: u128 = offset as u128 + idx as u128;
    if v > usize::MAX as u128 {
        usize::MAX
    } else {
        v as usize
    }
}

pub open spec fn empty_body_finds(skill: Skill) -> Seq<DiagnosticView> {
    if is_blank(skill.body@) {
        seq![
            diag_spec(
                "SL101"@,
                "SKILL.md has no body content after the frontmatter"@,
                Severity::Error,
                skill.path@,
                skill.body_line_offset as nat,
                Some("add instructions describing how to use the skill"@),
            ),
        ]
    } else {
        seq![]
    }
}

pub open spec fn body_headings(skill: Skill) -> Seq<HeadingView> {
    headings_spec(skill.body@, markdown_events(skill.body@))
}

pub open spec fn missing_h1_finds(skill: Skill) -> Seq<DiagnosticView> {
    let hs = body_headings(skill);
    if is_blank(skill.body@) || exists|i: int| 0 <= i < hs.len() && #[trigger] hs[i].level == 1 {
        seq![]
    } else {
        seq![
            diag_spec(
                "SL102"@,
                "SKILL.md body has no top-level `#` heading"@,
                Severity::Warning,
                skill.path@,
                skill.body_line_offset as nat,
                Some("add a single `# Title` heading near the top of the body"@),
            ),
        ]
    }
}

/// The `SL103` diagnostics for the first `k` headings, and the deepest
/// level seen among them.
pub open spec fn skip_scan(skill: Skill, hs: Seq<HeadingView>, k: nat) -> (Seq<DiagnosticView>, nat)
    decreases k,
{
    if k == 0 {
        (seq![], 0)
    } else {
        let (ds, m) = skip_scan(skill, hs, (k - 1) as nat);
        let h = hs[k - 1];
        let ds2 = if h.level > m + 1 && m > 0 {
            ds.push(
                diag_spec(
                    "SL103"@,
                    "heading level jumps from h"@ + decimal(m) + " to h"@ + decimal(h.level as nat)
                        + " (\""@ + h.text + "\") without an intervening heading"@,
                    Severity::Warning,
                    skill.path@,
                    body_line(skill.body_line_offset, h.line as int),
                    Some("use h"@ + decimal(m + 1) + " instead, or add the missing intervening heading levels"@),
                ),
            )
        } else {
            ds
        };
        (ds2, if h.level > m { h.level as nat } else { m })
    }
}

pub open spec fn heading_skip_finds(skill: Skill) -> Seq<DiagnosticView> {
    let hs = body_headings(skill);
    skip_scan(skill, hs, hs.len()).0
}

/// `n` hash characters.
pub open spec fn hashes(n: nat) -> Seq<char>
    decreases n,
{
    if n == 0 {
        Seq::empty()
    } else {
        hashes((n - 1) as nat).push('#')
    }
}

/// The `SL105` diagnostics for the first `k` headings.
pub open spec fn setext_scan(skill: Skill, hs: Seq<HeadingView>, k: nat) -> Seq<DiagnosticView>
    decreases k,
{
    if k == 0 {
        seq![]
    } else {
        let ds = setext_scan(skill, hs, (k - 1) as nat);
        let h = hs[k - 1];
        if h.is_setext {
            ds.push(
                diag_spec(
                    "SL105"@,
                    "heading \""@ + h.text + "\" is written in setext style; the configured heading style is ATX"@,
                    Severity::Info,
                    skill.path@,
                    body_line(skill.body_line_offset, h.line as int),
                    Some("write it as `"@ + hashes(h.level as nat) + " "@ + h.text + "`"@),
                ),
            )
        } else {
            ds
        }
    }
}

pub open spec fn setext_finds(skill: Skill, config: LintConfig) -> Seq<DiagnosticView> {
    match config.heading_style {
        HeadingStyle::Atx => {
            let hs = body_headings(skill);
            setext_scan(skill, hs, hs.len())
        },
    }
}

/// The verbs that mark a line as an instruction to create a file.
pub open spec fn creation_verbs() -> Seq<Seq<char>> {
    seq!["create"@, "write"@, "save"@, "generate"@, "output"@, "produce"@, "draft"@]
}

/// Line `l` is phrased as a creation instruction: one of its words is a
/// creation verb.
pub open spec fn creation_line(l: Seq<char>) -> bool {
    exists|i: int| 0 <= i < words_of(l).len() && creation_verbs().contains(#[trigger] words_of(l)[i])
}

/// Line `l` opens or closes a fenced code block.
pub open spec fn fence_line(l: Seq<char>) -> bool {
    starts_with(trim_start(l), "```"@) || starts_with(trim_start(l), "~~~"@)
}

/// One file reference in the body.
pub struct RefView {
    /// The 0-based line of the body it is on.
    pub line: nat,
    /// The reference as written.
    pub target: Seq<char>,
    /// The path it names: `target` without an anchor or query, trimmed.
    pub part: Seq<char>,
    /// Its line is phrased as a creation instruction.
    pub intent: bool,
}

/// The references among the first `m` candidates `ts` of line `l`.
pub open spec fn line_refs(l: Seq<char>, idx: nat, ts: Seq<Seq<char>>, m: nat) -> Seq<RefView>
    decreases m,
{
    if m == 0 {
        seq![]
    } else {
        let t = ts[m - 1];
        line_refs(l, idx, ts, (m - 1) as nat) + if intended_reference(t) {
            seq![RefView { line: idx, target: t, part: trim(before_anchor(t)), intent: creation_line(l) }]
        } else {
            seq![]
        }
    }
}

/// Over the first `k` lines of `ls`: whether a fenced code block is open,
/// and the references found outside code blocks.
pub open spec fn ref_scan(ls: Seq<Seq<char>>, k: nat) -> (bool, Seq<RefView>)
    decreases k,
{
    if k == 0 {
        (false, seq![])
    } else {
        let (fenced, rs) = ref_scan(ls, (k - 1) as nat);
        let l = ls[k - 1];
        if fence_line(l) {
            (!fenced, rs)
        } else if fenced {
            (fenced, rs)
        } else {
            let ts = link_targets(l);
            (fenced, rs + line_refs(l, (k - 1) as nat, ts, ts.len()))
        }
    }
}

/// The file references of `body`, in order, outside fenced code blocks.
pub open spec fn body_refs(body: Seq<char>) -> Seq<RefView> {
    let ls = lines_of(body);
    ref_scan(ls, ls.len()).1
}

/// Some reference to `part` sits on a creation-instruction line.
pub open spec fn created_somewhere(rs: Seq<RefView>, part: Seq<char>) -> bool {
    exists|i: int| 0 <= i < rs.len() && #[trigger] rs[i].part == part && rs[i].intent
}

/// `part` names a part inside an Office Open XML package.
pub open spec fn ooxml_part(part: Seq<char>) -> bool {
    &&& (starts_with(part, "word/"@) || starts_with(part, "ppt/"@) || starts_with(part, "xl/"@)
        || starts_with(part, "docProps/"@) || starts_with(part, "_rels/"@) || starts_with(
        part,
        "customXml/"@,
    ))
    &&& (ends_with(part, ".xml"@) || ends_with(part, ".rels"@))
}

/// The file at `p` has a parent directory (`Path::parent` is `Some`).
pub open spec fn has_parent(p: Seq<char>) -> bool {
    components(p).len() > 0 && !(components(p).last() is Root)
}

/// The `SL104` diagnostics for the first `k` references `rs`.
pub open spec fn broken_upto(skill: Skill, rs: Seq<RefView>, k: nat) -> Seq<DiagnosticView>
    decreases k,
{
    if k == 0 {
        seq![]
    } else {
        let r = rs[k - 1];
        broken_upto(skill, rs, (k - 1) as nat) + if created_somewhere(rs, r.part) || ooxml_part(
            r.part,
        ) || views(skill.existing_references@).contains(r.part) {
            seq![]
        } else {
            seq![
                diag_spec(
                    "SL104"@,
                    "referenced file \""@ + r.target + "\" does not exist"@,
                    Severity::Error,
                    skill.path@,
                    body_line(skill.body_line_offset, r.line + 1int),
                    Some("fix the path, or add the missing file next to SKILL.md"@),
                ),
            ]
        }
    }
}

pub open spec fn broken_reference_finds(skill: Skill) -> Seq<DiagnosticView> {
    let rs = body_refs(skill.body@);
    if has_parent(skill.path@) {
        broken_upto(skill, rs, rs.len())
    } else {
        seq![]
    }
}

/// One file reference found in a body.
pub struct RefItem {
    pub line: usize,
    pub target: Vec<char>,
    pub part: Vec<char>,
    pub intent: bool,
}

pub open spec fn ref_views(v: Seq<RefItem>) -> Seq<RefView> {
    v.map_values(|r: RefItem| RefView { line: r.line as nat, target: r.target@, part: r.part@, intent: r.intent })
}

fn is_fence_line(l: &Vec<char>) -> (r: bool)
    ensures
        r == fence_line(l@),
{
    let mut i: usize = 0;
    while i < l.len() && is_whitespace(l[i])
        invariant
            i <= l.len(),
            forall|j: int| 0 <= j < i ==> #[trigger] unicode_whitespace(l@[j]),
        decreases l.len() - i,
    {
        i += 1;
    }
    proof {
        lemma_leading_count_is(l@, |c: char| unicode_whitespace(c), i as int);
    }
    let r = l.len() - i >= 3 && ((l[i] == '`' && l[i + 1] == '`' && l[i + 2] == '`') || (l[i] == '~'
        && l[i + 1] == '~' && l[i + 2] == '~'));
    proof {
        let ts = trim_start(l@);
        assert(ts == l@.subrange(i as int, l.len() as int));
        assert("```"@ =~= seq!['`', '`', '`']) by {
            reveal_strlit("```");
        }
        assert("~~~"@ =~= seq!['~', '~', '~']) by {
            reveal_strlit("~~~");
        }
        if ts.len() >= 3 {
            assert(ts.subrange(0, 3) =~= seq![l@[i as int], l@[i + 1], l@[i + 2]]);
        }
    }
    r
}

fn has_creation_verb(l: &String) -> (r: bool)
    ensures
        r == creation_line(l@),
{
    let ws = words(l.as_str());
    let ghost wv = views(ws@);
    let verbs = vec!["create", "write", "save", "generate", "output", "produce", "draft"];
    proof {
        assert(crate::chars::str_views(verbs@) =~= creation_verbs());
    }
    let mut i: usize = 0;
    while i < ws.len()
        invariant
            i <= ws.len(),
            wv == views(ws@),
            wv == words_of(l@),
            crate::chars::str_views(verbs@) == creation_verbs(),
            forall|j: int| 0 <= j < i ==> !creation_verbs().contains(#[trigger] wv[j]),
        decreases ws.len() - i,
    {
        let mut k: usize = 0;
        while k < verbs.len()
            invariant
                k <= verbs.len(),
                i < ws.len(),
                wv == views(ws@),
                wv == words_of(l@),
                crate::chars::str_views(verbs@) == creation_verbs(),
                forall|j: int| 0 <= j < k ==> creation_verbs()[j] != wv[i as int],
            decreases verbs.len() - k,
        {
            let v = crate::diagnostic::owned(verbs[k]);
            if ws[i] == v {
                proof {
                    assert(creation_verbs()[k as int] == wv[i as int]);
                    assert(creation_verbs().contains(words_of(l@)[i as int]));
                }
                return true;
            }
            proof {
                assert(creation_verbs()[k as int] == v@);
            }
            k += 1;
        }
        proof {
            if creation_verbs().contains(wv[i as int]) {
                let m = choose|m: int| 0 <= m < creation_verbs().len() && creation_verbs()[m] == wv[i as int];
                assert(creation_verbs()[m] != wv[i as int]);
            }
        }
        i += 1;
    }
    false
}

/// The file references of `body`, outside fenced code blocks, in order.
pub fn collect_refs(body: &str) -> (r: Vec<RefItem>)
    ensures
        ref_views(r@) == body_refs(body@),
{
    let ls = lines(body);
    let ghost lv = views(ls@);
    let mut out: Vec<RefItem> = Vec::new();
    let mut fenced = false;
    let mut i: usize = 0;
    while i < ls.len()
        invariant
            i <= ls.len(),
            lv == views(ls@),
            lv == lines_of(body@),
            ref_scan(lv, i as nat) == (fenced, ref_views(out@)),
        decreases ls.len() - i,
    {
        let cs = chars_of(ls[i].as_str());
        proof {
            assert(lv[i as int] == cs@);
        }
        if is_fence_line(&cs) {
            fenced = !fenced;
        } else if !fenced {
            let ts = extract_link_targets(&cs);
            let ghost tv = char_views(ts@);
            let intent = has_creation_verb(&ls[i]);
            let ghost start = ref_views(out@);
            let mut k: usize = 0;
            while k < ts.len()
                invariant
                    k <= ts.len(),
                    i < ls.len(),
                    tv == char_views(ts@),
                    tv == link_targets(cs@),
                    intent == creation_line(cs@),
                    ref_views(out@) == start + line_refs(cs@, i as nat, tv, k as nat),
                decreases ts.len() - k,
            {
                let t = &ts[k];
                proof {
                    assert(tv[k as int] == t@);
                }
                let ghost mid = ref_views(out@);
                if is_intended_file_reference(t) {
                    let part = trim_chars(&cut_anchor(t));
                    let mut copy: Vec<char> = Vec::new();
                    let mut m: usize = 0;
                    while m < t.len()
                        invariant
                            m <= t.len(),
                            copy@ == t@.take(m as int),
                        decreases t.len() - m,
                    {
                        copy.push(t[m]);
                        proof {
                            assert(t@.take(m + 1) =~= t@.take(m as int).push(t@[m as int]));
                        }
                        m += 1;
                    }
                    proof {
                        assert(t@.take(t.len() as int) =~= t@);
                    }
                    out.push(RefItem { line: i, target: copy, part, intent });
                    proof {
                        assert(ref_views(out@) =~= mid.push(
                            RefView { line: i as nat, target: t@, part: trim(before_anchor(t@)), intent },
                        ));
                    }
                }
                proof {
                    assert(ref_views(out@) =~= start + line_refs(cs@, i as nat, tv, (k + 1) as nat));
                }
                k += 1;
            }
        }
        i += 1;
    }
    out
}

/// The paths that the file references of `body` name, in order: what has
/// to be looked up on disk to fill [`Skill::existing_references`].
pub fn referenced_paths(body: &str) -> (r: Vec<String>)
    ensures
        views(r@) == body_refs(body@).map_values(|x: RefView| x.part),
{
    let refs = collect_refs(body);
    let ghost rv = ref_views(refs@);
    let mut out: Vec<String> = Vec::new();
    let mut i: usize = 0;
    while i < refs.len()
        invariant
            i <= refs.len(),
            rv == ref_views(refs@),
            views(out@) == rv.take(i as int).map_values(|x: RefView| x.part),
        decreases refs.len() - i,
    {
        let ghost before = views(out@);
        out.push(string_of(&refs[i].part));
        proof {
            assert(views(out@) =~= before.push(rv[i as int].part));
            assert(rv.take(i + 1).map_values(|x: RefView| x.part) =~= rv.take(i as int).map_values(
                |x: RefView| x.part,
            ).push(rv[i as int].part));
        }
        i += 1;
    }
    proof {
        assert(rv.take(refs.len() as int) =~= rv);
    }
    out
}

impl Rule for EmptyBody {
    fn code(&self) -> (r: &'static str)
        ensures
            r@ == "SL101"@,
    {
        "SL101"
    }

    fn name(&self) -> (r: &'static str)
        ensures
            r@ == "empty-body"@,
    {
        "empty-body"
    }

    fn default_severity(&self) -> (r: Severity)
        ensures
            r == Severity::Error,
    {
        Severity::Error
    }
}

impl SkillRule for EmptyBody {
    fn check(&self, skill: &Skill, config: &LintConfig, tokens: &TokenCounter) -> (r: Vec<Diagnostic>)
        ensures
            r@.map_values(|d: Diagnostic| d@) == empty_body_finds(*skill),
    {
        let mut out: Vec<Diagnostic> = Vec::new();
        if blank_str(skill.body.as_str()) {
            let mut message = String::new();
            push_str(&mut message, "SKILL.md has no body content after the frontmatter");
            let mut fix = String::new();
            push_str(&mut fix, "add instructions describing how to use the skill");
            out.push(finding(self.code(), message, self.default_severity(), skill.path.as_str(),
                skill.body_line_offset, fix));
        }
        proof {
            assert(out@.map_values(|d: Diagnostic| d@) =~= empty_body_finds(*skill));
        }
        out
    }
}

impl Rule for MissingH1 {
    fn code(&self) -> (r: &'static str)
        ensures
            r@ == "SL102"@,
    {
        "SL102"
    }

    fn name(&self) -> (r: &'static str)
        ensures
            r@ == "missing-h1"@,
    {
        "missing-h1"
    }

    fn default_severity(&self) -> (r: Severity)
        ensures
            r == Severity::Warning,
    {
        Severity::Warning
    }
}

impl SkillRule for MissingH1 {
    fn check(&self, skill: &Skill, config: &LintConfig, tokens: &TokenCounter) -> (r: Vec<Diagnostic>)
        ensures
            r@.map_values(|d: Diagnostic| d@) == missing_h1_finds(*skill),
    {
        let mut out: Vec<Diagnostic> = Vec::new();
        if blank_str(skill.body.as_str()) {
            proof {
                assert(out@.map_values(|d: Diagnostic| d@) =~= missing_h1_finds(*skill));
            }
            return out;
        }
        let hs = headings(skill.body.as_str());
        let ghost hv = heading_views(hs@);
        let mut has_h1 = false;
        let mut i: usize = 0;
        while i < hs.len()
            invariant
                i <= hs.len(),
                hv == heading_views(hs@),
                hv == body_headings(*skill),
                has_h1 == exists|j: int| 0 <= j < i && #[trigger] hv[j].level == 1,
            decreases hs.len() - i,
        {
            proof {
                assert(hv[i as int].level == hs@[i as int].value.level);
            }
            if hs[i].value.level == 1 {
                has_h1 = true;
            }
            i += 1;
        }
        if !has_h1 {
            let mut message = String::new();
            push_str(&mut message, "SKILL.md body has no top-level `#` heading");
            let mut fix = String::new();
            push_str(&mut fix, "add a single `# Title` heading near the top of the body");
            out.push(finding(self.code(), message, self.default_severity(), skill.path.as_str(),
                skill.body_line_offset, fix));
        }
        proof {
            assert(out@.map_values(|d: Diagnostic| d@) =~= missing_h1_finds(*skill));
        }
        out
    }
}

impl Rule for HeadingLevelSkip {
    fn code(&self) -> (r: &'static str)
        ensures
            r@ == "SL103"@,
    {
        "SL103"
    }

    fn name(&self) -> (r: &'static str)
        ensures
            r@ == "heading-skip"@,
    {
        "heading-skip"
    }

    fn default_severity(&self) -> (r: Severity)
        ensures
            r == Severity::Warning,
    {
        Severity::Warning
    }
}

impl SkillRule for HeadingLevelSkip {
    fn check(&self, skill: &Skill, config: &LintConfig, tokens: &TokenCounter) -> (r: Vec<Diagnostic>)
        ensures
            r@.map_values(|d: Diagnostic| d@) == heading_skip_finds(*skill),
    {
        let hs = headings(skill.body.as_str());
        let ghost hv = heading_views(hs@);
        let mut out: Vec<Diagnostic> = Vec::new();
        let mut max_seen: u8 = 0;
        let mut i: usize = 0;
        while i < hs.len()
            invariant
                i <= hs.len(),
                hv == heading_views(hs@),
                hv == body_headings(*skill),
                skip_scan(*skill, hv, i as nat) == (out@.map_values(|d: Diagnostic| d@), max_seen as nat),
            decreases hs.len() - i,
        {
            let h = &hs[i];
            proof {
                assert(hv[i as int] == HeadingView {
                    level: h.value.level,
                    text: h.value.text@,
                    is_setext: h.value.is_setext,
                    line: h.line as nat,
                });
            }
            let ghost before = out@.map_values(|d: Diagnostic| d@);
            let level = h.value.level;
            if (level as u16) > (max_seen as u16) + 1 && max_seen > 0 {
                let mut message = String::new();
                push_str(&mut message, "heading level jumps from h");
                push_decimal(&mut message, max_seen as usize);
                push_str(&mut message, " to h");
                push_decimal(&mut message, level as usize);
                push_str(&mut message, " (\"");
                push_str(&mut message, h.value.text.as_str());
                push_str(&mut message, "\") without an intervening heading");
                let mut fix = String::new();
                push_str(&mut fix, "use h");
                push_decimal(&mut fix, (max_seen as usize) + 1);
                push_str(&mut fix, " instead, or add the missing intervening heading levels");
                let line = exec_body_line(skill.body_line_offset, h.line);
                out.push(finding(self.code(), message, self.default_severity(), skill.path.as_str(),
                    line, fix));
                proof {
                    assert(out@.map_values(|d: Diagnostic| d@) =~= before.push(
                        diag_spec(
                            "SL103"@,
                            "heading level jumps from h"@ + decimal(max_seen as nat) + " to h"@ + decimal(
                                level as nat,
                            ) + " (\""@ + h.value.text@ + "\") without an intervening heading"@,
                            Severity::Warning,
                            skill.path@,
                            body_line(skill.body_line_offset, h.line as int),
                            Some(
                                "use h"@ + decimal(max_seen as nat + 1)
                                    + " instead, or add the missing intervening heading levels"@,
                            ),
                        ),
                    ));
                }
            }
            if level > max_seen {
                max_seen = level;
            }
            i += 1;
        }
        out
    }
}

impl Rule for SetextHeading {
    fn code(&self) -> (r: &'static str)
        ensures
            r@ == "SL105"@,
    {
        "SL105"
    }

    fn name(&self) -> (r: &'static str)
        ensures
            r@ == "setext-heading"@,
    {
        "setext-heading"
    }

    fn default_severity(&self) -> (r: Severity)
        ensures
            r == Severity::Info,
    {
        Severity::Info
    }
}

fn push_hashes(out: &mut String, n: u8)
    ensures
        final(out)@ == old(out)@ + hashes(n as nat),
{
    let mut i: u8 = 0;
    while i < n
        invariant
            i <= n,
            out@ == old(out)@ + hashes(i as nat),
        decreases n - i,
    {
        crate::chars::push_char(out, '#');
        proof {
            assert(old(out)@ + hashes(i as nat + 1) =~= (old(out)@ + hashes(i as nat)).push('#'));
        }
        i += 1;
    }
}

impl SkillRule for SetextHeading {
    fn check(&self, skill: &Skill, config: &LintConfig, tokens: &TokenCounter) -> (r: Vec<Diagnostic>)
        ensures
            r@.map_values(|d: Diagnostic| d@) == setext_finds(*skill, *config),
    {
        let hs = headings(skill.body.as_str());
        let ghost hv = heading_views(hs@);
        let mut out: Vec<Diagnostic> = Vec::new();
        let mut i: usize = 0;
        while i < hs.len()
            invariant
                i <= hs.len(),
                hv == heading_views(hs@),
                hv == body_headings(*skill),
                config.heading_style == HeadingStyle::Atx,
                setext_scan(*skill, hv, i as nat) == out@.map_values(|d: Diagnostic| d@),
            decreases hs.len() - i,
        {
            let h = &hs[i];
            proof {
                assert(hv[i as int] == HeadingView {
                    level: h.value.level,
                    text: h.value.text@,
                    is_setext: h.value.is_setext,
                    line: h.line as nat,
                });
            }
            let ghost before = out@.map_values(|d: Diagnostic| d@);
            if h.value.is_setext {
                let mut message = String::new();
                push_str(&mut message, "heading \"");
                push_str(&mut message, h.value.text.as_str());
                push_str(&mut message, "\" is written in setext style; the configured heading style is ATX");
                let mut fix = String::new();
                push_str(&mut fix, "write it as `");
                push_hashes(&mut fix, h.value.level);
                push_str(&mut fix, " ");
                push_str(&mut fix, h.value.text.as_str());
                push_str(&mut fix, "`");
                let line = exec_body_line(skill.body_line_offset, h.line);
                out.push(finding(self.code(), message, self.default_severity(), skill.path.as_str(), line, fix));
                proof {
                    assert(out@.map_values(|d: Diagnostic| d@) =~= setext_scan(*skill, hv, i as nat + 1));
                }
            } else {
                proof {
                    assert(out@.map_values(|d: Diagnostic| d@) =~= setext_scan(*skill, hv, i as nat + 1));
                }
            }
            i += 1;
        }
        out
    }
}

impl Rule for BrokenFileReference {
    fn code(&self) -> (r: &'static str)
        ensures
            r@ == "SL104"@,
    {
        "SL104"
    }

    fn name(&self) -> (r: &'static str)
        ensures
            r@ == "broken-file-reference"@,
    {
        "broken-file-reference"
    }

    fn default_severity(&self) -> (r: Severity)
        ensures
            r == Severity::Error,
    {
        Severity::Error
    }
}

fn chars_equal(a: &Vec<char>, b: &Vec<char>) -> (r: bool)
    ensures
        r == (a@ == b@),
{
    if a.len() != b.len() {
        return false;
    }
    let mut i: usize = 0;
    while i < a.len()
        invariant
            i <= a.len() == b.len(),
            forall|j: int| 0 <= j < i ==> a@[j] == b@[j],
        decreases a.len() - i,
    {
        if a[i] != b[i] {
            proof {
                assert(a@[i as int] != b@[i as int]);
            }
            return false;
        }
        i += 1;
    }
    proof {
        assert(a@ =~= b@);
    }
    true
}

fn is_ooxml_part(part: &Vec<char>) -> (r: bool)
    ensures
        r == ooxml_part(part@),
{
    let roots = vec!["word/", "ppt/", "xl/", "docProps/", "_rels/", "customXml/"];
    let mut rooted = false;
    let mut k: usize = 0;
    while k < roots.len()
        invariant
            k <= roots.len(),
            roots@ == seq!["word/", "ppt/", "xl/", "docProps/", "_rels/", "customXml/"],
            rooted == exists|j: int| 0 <= j < k && starts_with(part@, #[trigger] roots@[j]@),
        decreases roots.len() - k,
    {
        let p = chars_of(roots[k]);
        if starts_with_chars(part, &p) {
            rooted = true;
        }
        k += 1;
    }
    proof {
        if rooted {
            let j = choose|j: int| 0 <= j < roots.len() && starts_with(part@, #[trigger] roots@[j]@);
            assert(0 <= j < 6);
        }
        if starts_with(part@, "word/"@) { assert(starts_with(part@, roots@[0]@)); }
        if starts_with(part@, "ppt/"@) { assert(starts_with(part@, roots@[1]@)); }
        if starts_with(part@, "xl/"@) { assert(starts_with(part@, roots@[2]@)); }
        if starts_with(part@, "docProps/"@) { assert(starts_with(part@, roots@[3]@)); }
        if starts_with(part@, "_rels/"@) { assert(starts_with(part@, roots@[4]@)); }
        if starts_with(part@, "customXml/"@) { assert(starts_with(part@, roots@[5]@)); }
    }
    if !rooted {
        return false;
    }
    let xml = chars_of(".xml");
    let rels = chars_of(".rels");
    ends_with_chars(part, &xml) || ends_with_chars(part, &rels)
}

fn has_parent_dir(p: &str) -> (r: bool)
    ensures
        r == has_parent(p@),
{
    let parts = components_of(p);
    if parts.len() == 0 {
        return false;
    }
    proof {
        assert(part_views(parts@).last() == parts@[parts.len() - 1]@);
    }
    match &parts[parts.len() - 1] {
        Part::Root => false,
        _ => true,
    }
}

impl SkillRule for BrokenFileReference {
    fn check(&self, skill: &Skill, config: &LintConfig, tokens: &TokenCounter) -> (r: Vec<Diagnostic>)
        ensures
            r@.map_values(|d: Diagnostic| d@) == broken_reference_finds(*skill),
    {
        let mut out: Vec<Diagnostic> = Vec::new();
        if !has_parent_dir(skill.path.as_str()) {
            proof {
                assert(out@.map_values(|d: Diagnostic| d@) =~= broken_reference_finds(*skill));
            }
            return out;
        }
        let refs = collect_refs(skill.body.as_str());
        let ghost rv = ref_views(refs@);
        let mut i: usize = 0;
        while i < refs.len()
            invariant
                i <= refs.len(),
                rv == ref_views(refs@),
                rv == body_refs(skill.body@),
                out@.map_values(|d: Diagnostic| d@) == broken_upto(*skill, rv, i as nat),
            decreases refs.len() - i,
        {
            let r = &refs[i];
            proof {
                assert(rv[i as int] == RefView { line: r.line as nat, target: r.target@, part: r.part@, intent: r.intent });
            }
            let mut created = false;
            let mut j: usize = 0;
            while j < refs.len()
                invariant
                    j <= refs.len(),
                    i < refs.len(),
                    rv == ref_views(refs@),
                    created == exists|m: int| 0 <= m < j && #[trigger] rv[m].part == rv[i as int].part && rv[m].intent,
                decreases refs.len() - j,
            {
                proof {
                    assert(rv[j as int].part == refs@[j as int].part@);
                    assert(rv[j as int].intent == refs@[j as int].intent);
                }
                if refs[j].intent && chars_equal(&refs[j].part, &refs[i].part) {
                    created = true;
                }
                j += 1;
            }
            let ghost before = out@.map_values(|d: Diagnostic| d@);
            let part = string_of(&r.part);
            if !created && !is_ooxml_part(&r.part) && !contains_word(&skill.existing_references, &part) {
                let mut message = String::new();
                push_str(&mut message, "referenced file \"");
                let target = string_of(&r.target);
                push_str(&mut message, target.as_str());
                push_str(&mut message, "\" does not exist");
                let mut fix = String::new();
                push_str(&mut fix, "fix the path, or add the missing file next to SKILL.md");
                let line = exec_index_line(skill.body_line_offset, r.line);
                out.push(finding(self.code(), message, self.default_severity(), skill.path.as_str(),
                    line, fix));
            }
            proof {
                assert(out@.map_values(|d: Diagnostic| d@) =~= before + if created_somewhere(rv, rv[i as int].part) || ooxml_part(
                    rv[i as int].part,
                ) || views(skill.existing_references@).contains(rv[i as int].part) {
                    seq![]
                } else {
                    seq![
                        diag_spec(
                            "SL104"@,
                            "referenced file \""@ + rv[i as int].target + "\" does not exist"@,
                            Severity::Error,
                            skill.path@,
                            body_line(skill.body_line_offset, rv[i as int].line + 1int),
                            Some("fix the path, or add the missing file next to SKILL.md"@),
                        ),
                    ]
                });
            }
            i += 1;
        }
        out
    }
}

} // verus!
