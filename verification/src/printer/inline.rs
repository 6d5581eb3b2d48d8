//! Inline content: turning inline elements into reflowable words, and
//! reflowing words into lines.

use vstd::prelude::*;
use crate::chars::{chars_of, is_blank, push_all, push_char, push_str, string_of, unicode_whitespace};
use crate::text::{class_pred, join, runs, runs_of, views, CharClass};
use super::{emphasis_text, strong_text, EmphasisMarker, FmtConfig, Inline, StrongMarker};
use super::markers::{
    escape_line_start, escape_marker, lemma_escaped_is_not_marker, lemma_marker_start_extend,
    marker_start, starts_with_marker,
};

verus! {

/// One reflowable unit: a word (never split), or a forced line break.
pub enum Token {
    Word(String),
    Break,
}

pub enum TokView {
    Word(Seq<char>),
    Break,
}

pub open spec fn tok_view(t: Token) -> TokView {
    match t {
        Token::Word(w) => TokView::Word(w@),
        Token::Break => TokView::Break,
    }
}

pub open spec fn tok_views(v: Seq<Token>) -> Seq<TokView> {
    v.map_values(|t: Token| tok_view(t))
}

/// Characters that would be read as Markdown syntax in plain text.
pub open spec fn needs_escape(c: char) -> bool {
    c == '\\' || c == '`' || c == '*' || c == '_' || c == '[' || c == ']'
}

/// `w` with a backslash before every character that would be read as
/// Markdown syntax.
pub open spec fn escape(w: Seq<char>) -> Seq<char>
    decreases w.len(),
{
    if w.len() == 0 {
        w
    } else {
        escape(w.drop_last()) + if needs_escape(w.last()) {
            seq!['\\', w.last()]
        } else {
            seq![w.last()]
        }
    }
}

/// The longest run of `c` in `s`, and the length of the run `s` ends with.
pub open spec fn run_state(s: Seq<char>, c: char) -> (nat, nat)
    decreases s.len(),
{
    if s.len() == 0 {
        (0, 0)
    } else {
        let (longest, current) = run_state(s.drop_last(), c);
        if s.last() == c {
            let cur = current + 1;
            (if cur > longest { cur } else { longest }, cur)
        } else {
            (longest, 0)
        }
    }
}

/// The length of the longest run of `c` in `s`.
pub open spec fn longest_run(s: Seq<char>, c: char) -> nat {
    run_state(s, c).0
}

/// `n` copies of `c`.
pub open spec fn repeat(c: char, n: nat) -> Seq<char> {
    Seq::new(n, |i: int| c)
}

/// `s` as an inline code span: fenced by one more backtick than its longest
/// backtick run, padded with spaces where its edges would merge with the
/// fence or be trimmed.
pub open spec fn code_span(s: Seq<char>) -> Seq<char> {
    let fence = repeat('`', longest_run(s, '`') + 1);
    let pad = (s.len() > 0 && (s[0] == '`' || s.last() == '`')) || (s.len() > 0 && s[0] == ' ' && s.last()
        == ' ' && !is_blank(s));
    if pad {
        fence + seq![' '] + s + seq![' '] + fence
    } else {
        fence + s + fence
    }
}

/// The words of tokens `ts` joined by spaces; a break counts as an empty
/// word.
pub open spec fn joined_words(ts: Seq<TokView>) -> Seq<char> {
    join(
        ts.map_values(
            |t: TokView|
                match t {
                    TokView::Word(w) => w,
                    TokView::Break => Seq::empty(),
                },
        ),
        ' ',
    )
}

/// The index of the first word among `ts[from..]`.
pub open spec fn first_word(ts: Seq<TokView>, from: int) -> Option<int>
    decreases ts.len() - from,
{
    if from < 0 || from >= ts.len() {
        None
    } else if ts[from] is Word {
        Some(from)
    } else {
        first_word(ts, from + 1)
    }
}

/// The index of the last word among `ts[..upto]`.
pub open spec fn last_word(ts: Seq<TokView>, upto: int) -> Option<int>
    decreases upto,
{
    if upto <= 0 || upto > ts.len() {
        None
    } else if ts[upto - 1] is Word {
        Some(upto - 1)
    } else {
        last_word(ts, upto - 1)
    }
}

pub open spec fn word_text(t: TokView) -> Seq<char> {
    match t {
        TokView::Word(w) => w,
        TokView::Break => Seq::empty(),
    }
}

/// `ts` with `open` glued to the front of its first word and `close` to
/// the back of its last.
pub open spec fn glue(ts: Seq<TokView>, open: Seq<char>, close: Seq<char>) -> Seq<TokView> {
    let a = match first_word(ts, 0) {
        Some(i) => ts.update(i, TokView::Word(open + word_text(ts[i]))),
        None => ts,
    };
    match last_word(a, a.len() as int) {
        Some(j) => a.update(j, TokView::Word(word_text(a[j]) + close)),
        None => a,
    }
}

/// ` "title"` for a link or image title, or nothing.
pub open spec fn title_part(title: Option<String>) -> Seq<char> {
    match title {
        Some(t) => " \""@ + t@ + "\""@,
        None => Seq::empty(),
    }
}

/// The tokens of one inline element.
pub open spec fn item_tokens(it: Inline, cfg: FmtConfig) -> Seq<TokView>
    decreases it, 1int,
{
    match it {
        Inline::Text(s) => runs(s@, |c: char| !unicode_whitespace(c)).map_values(
            |w: Seq<char>| TokView::Word(escape(w)),
        ),
        Inline::Code(s) => seq![TokView::Word(code_span(s@))],
        Inline::Emphasis(ch) => glue(
            build_tokens(ch@, cfg),
            emphasis_text(cfg.emphasis_marker),
            emphasis_text(cfg.emphasis_marker),
        ),
        Inline::Strong(ch) => glue(
            build_tokens(ch@, cfg),
            strong_text(cfg.strong_marker),
            strong_text(cfg.strong_marker),
        ),
        Inline::Strikethrough(ch) => glue(build_tokens(ch@, cfg), "~~"@, "~~"@),
        Inline::Link { dest, title, children } => seq![
            TokView::Word(
                "["@ + joined_words(build_tokens(children@, cfg)) + "]("@ + dest@ + title_part(title) + ")"@,
            ),
        ],
        Inline::Image { dest, title, alt } => seq![
            TokView::Word("!["@ + alt@ + "]("@ + dest@ + title_part(title) + ")"@),
        ],
        Inline::SoftBreak => seq![],
        Inline::HardBreak => seq![TokView::Break],
        Inline::Html(s) => seq![TokView::Word(s@)],
        Inline::FootnoteReference(s) => seq![TokView::Word("[^"@ + s@ + "]"@)],
    }
}

/// The tokens of a sequence of inline elements.
pub open spec fn build_tokens(items: Seq<Inline>, cfg: FmtConfig) -> Seq<TokView>
    decreases items, 0int,
{
    if items.len() == 0 {
        seq![]
    } else {
        build_tokens(items.drop_last(), cfg) + item_tokens(items[items.len() - 1], cfg)
    }
}

/// Inline content on one line: its words joined by spaces.
pub open spec fn single_line(items: Seq<Inline>, cfg: FmtConfig) -> Seq<char> {
    joined_words(build_tokens(items, cfg))
}

/// The lines of a paragraph and the line being filled, after tokens `ts`.
pub open spec fn wrap_state(ts: Seq<TokView>, width: usize, reflow: bool) -> (Seq<Seq<char>>, Seq<char>)
    decreases ts.len(),
{
    if ts.len() == 0 {
        (seq![], Seq::empty())
    } else {
        let (lines, cur) = wrap_state(ts.drop_last(), width, reflow);
        match ts.last() {
            TokView::Break => (lines.push(cur + "  "@), Seq::empty()),
            TokView::Word(w) => if cur.len() == 0 {
                (lines, if lines.len() > 0 && marker_start(w) {
                    escape_line_start(w)
                } else {
                    w
                })
            } else if !reflow || cur.len() + 1 + w.len() <= width || marker_start(w) {
                (lines, cur.push(' ') + w)
            } else {
                (lines.push(cur), w)
            },
        }
    }
}

/// Tokens `ts` laid out in lines of at most `width` characters where words
/// allow, every break ending a line with two trailing spaces. A word that
/// begins with a marker-like word (see [`marker_like`]) never starts a line
/// other than the first: it stays on the line before it, over the width if
/// need be, or, right after a break, is escaped.
pub open spec fn wrap(ts: Seq<TokView>, width: usize, reflow: bool) -> Seq<Seq<char>> {
    let (lines, cur) = wrap_state(ts, width, reflow);
    lines.push(cur)
}

proof fn lemma_wrap_state_markers(ts: Seq<TokView>, width: usize, reflow: bool)
    ensures
        ({
            let (lines, cur) = wrap_state(ts, width, reflow);
            &&& forall|i: int| 1 <= i < lines.len() ==> !marker_start(#[trigger] lines[i])
            &&& lines.len() > 0 ==> !marker_start(cur)
        }),
    decreases ts.len(),
{
    if ts.len() > 0 {
        lemma_wrap_state_markers(ts.drop_last(), width, reflow);
        let (lines, cur) = wrap_state(ts.drop_last(), width, reflow);
        match ts.last() {
            TokView::Break => {
                reveal_strlit("  ");
                lemma_marker_start_extend(cur, "  "@);
                assert(!marker_start(Seq::<char>::empty()));
                let nl = lines.push(cur + "  "@);
                assert forall|i: int| 1 <= i < nl.len() implies !marker_start(#[trigger] nl[i]) by {
                    if i < lines.len() {
                        assert(nl[i] == lines[i]);
                    }
                }
            },
            TokView::Word(w) => {
                if cur.len() == 0 {
                    if lines.len() > 0 && marker_start(w) {
                        lemma_escaped_is_not_marker(w);
                    }
                } else if !reflow || cur.len() + 1 + w.len() <= width || marker_start(w) {
                    assert(cur.push(' ') + w =~= cur + (seq![' '] + w));
                    lemma_marker_start_extend(cur, seq![' '] + w);
                } else {
                    let nl = lines.push(cur);
                    assert forall|i: int| 1 <= i < nl.len() implies !marker_start(#[trigger] nl[i]) by {
                        if i < lines.len() {
                            assert(nl[i] == lines[i]);
                        }
                    }
                }
            },
        }
    }
}

/// Reflow never starts a line other than the first with a marker-like
/// word, so reflowed prose cannot turn into a list item, heading, block
/// quote, thematic break, setext underline or fence.
pub proof fn wrapped_lines_start_with_no_marker(ts: Seq<TokView>, width: usize, reflow: bool)
    ensures
        forall|i: int|
            1 <= i < wrap(ts, width, reflow).len() ==> !marker_start(#[trigger] wrap(ts, width, reflow)[i]),
{
    lemma_wrap_state_markers(ts, width, reflow);
    let (lines, cur) = wrap_state(ts, width, reflow);
    let all = lines.push(cur);
    assert forall|i: int| 1 <= i < all.len() implies !marker_start(#[trigger] all[i]) by {
        if i < lines.len() {
            assert(all[i] == lines[i]);
        }
    }
}

/// Appends `w` with Markdown syntax characters escaped.
fn escape_text(out: &mut String, w: &Vec<char>)
    ensures
        final(out)@ == old(out)@ + escape(w@),
{
    let mut i: usize = 0;
    proof {
        assert(w@.take(0) =~= Seq::<char>::empty());
        assert(old(out)@ + escape(w@.take(0)) =~= old(out)@);
    }
    while i < w.len()
        invariant
            i <= w.len(),
            out@ == old(out)@ + escape(w@.take(i as int)),
        decreases w.len() - i,
    {
        let c = w[i];
        proof {
            assert(w@.take(i + 1).drop_last() =~= w@.take(i as int));
            assert(w@.take(i + 1).last() == c);
        }
        if c == '\\' || c == '`' || c == '*' || c == '_' || c == '[' || c == ']' {
            push_char(out, '\\');
        }
        push_char(out, c);
        proof {
            assert(out@ =~= old(out)@ + escape(w@.take(i + 1)));
        }
        i += 1;
    }
    proof {
        assert(w@.take(w.len() as int) =~= w@);
    }
}

/// The length of the longest run of `c` in `s`.
pub fn longest_run_of(s: &Vec<char>, c: char) -> (r: usize)
    ensures
        r == longest_run(s@, c),
{
    let mut longest: usize = 0;
    let mut current: usize = 0;
    let mut i: usize = 0;
    proof {
        assert(s@.take(0) =~= Seq::<char>::empty());
    }
    while i < s.len()
        invariant
            i <= s.len(),
            current <= i,
            longest <= i,
            run_state(s@.take(i as int), c) == (longest as nat, current as nat),
        decreases s.len() - i,
    {
        proof {
            assert(s@.take(i + 1).drop_last() =~= s@.take(i as int));
            assert(s@.take(i + 1).last() == s@[i as int]);
        }
        if s[i] == c {
            current += 1;
            if current > longest {
                longest = current;
            }
        } else {
            current = 0;
        }
        i += 1;
    }
    proof {
        assert(s@.take(s.len() as int) =~= s@);
    }
    longest
}

/// Appends `n` copies of `c`.
pub fn push_repeat(out: &mut String, c: char, n: usize)
    ensures
        final(out)@ == old(out)@ + repeat(c, n as nat),
{
    let mut i: usize = 0;
    while i < n
        invariant
            i <= n,
            out@ == old(out)@ + repeat(c, i as nat),
        decreases n - i,
    {
        push_char(out, c);
        proof {
            assert(old(out)@ + repeat(c, i as nat) + seq![c] =~= old(out)@ + repeat(c, (i + 1) as nat));
        }
        i += 1;
    }
}

/// `s` rendered as an inline code span.
pub fn render_code_span(s: &String) -> (r: String)
    ensures
        r@ == code_span(s@),
{
    let cs = chars_of(s.as_str());
    let longest = longest_run_of(&cs, '`');
    let n = cs.len();
    let pad = (n > 0 && (cs[0] == '`' || cs[n - 1] == '`')) || (n > 0 && cs[0] == ' ' && cs[n - 1] == ' '
        && !crate::chars::blank(&cs));
    let mut fence = String::new();
    push_repeat(&mut fence, '`', longest);
    push_char(&mut fence, '`');
    proof {
        assert(fence@ =~= repeat('`', (longest + 1) as nat));
    }
    let mut out = fence.clone();
    if pad {
        push_char(&mut out, ' ');
    }
    push_all(&mut out, &cs);
    if pad {
        push_char(&mut out, ' ');
    }
    push_str(&mut out, fence.as_str());
    proof {
        assert(out@ =~= code_span(s@));
    }
    out
}

/// The words of `ts` joined by spaces.
pub fn join_words(ts: &Vec<Token>) -> (r: String)
    ensures
        r@ == joined_words(tok_views(ts@)),
{
    let ghost tv = tok_views(ts@);
    let ghost ws = tv.map_values(
        |t: TokView|
            match t {
                TokView::Word(w) => w,
                TokView::Break => Seq::empty(),
            },
    );
    let mut out = String::new();
    let mut i: usize = 0;
    proof {
        assert(ws.take(0) =~= Seq::<Seq<char>>::empty());
    }
    while i < ts.len()
        invariant
            i <= ts.len(),
            tv == tok_views(ts@),
            ws == tv.map_values(
                |t: TokView|
                    match t {
                        TokView::Word(w) => w,
                        TokView::Break => Seq::empty(),
                    },
            ),
            out@ == join(ws.take(i as int), ' '),
        decreases ts.len() - i,
    {
        let ghost prev = ws.take(i as int);
        proof {
            assert(ws.take(i + 1) =~= prev.push(ws[i as int]));
            crate::text::lemma_join_push(prev, ws[i as int], ' ');
        }
        if i > 0 {
            push_char(&mut out, ' ');
        }
        match &ts[i] {
            Token::Word(w) => push_str(&mut out, w.as_str()),
            Token::Break => {},
        }
        proof {
            assert(out@ =~= join(ws.take(i + 1), ' '));
        }
        i += 1;
    }
    proof {
        assert(ws.take(ts.len() as int) =~= ws);
    }
    out
}

fn glue_tokens(ts: &mut Vec<Token>, open: &str, close: &str)
    ensures
        tok_views(final(ts)@) == glue(tok_views(old(ts)@), open@, close@),
{
    let ghost t0 = tok_views(ts@);
    let mut i: usize = 0;
    proof {
        assert(first_word(t0, 0) == first_word(t0, i as int));
    }
    while i < ts.len() && !matches!(ts[i], Token::Word(_))
        invariant
            i <= ts.len(),
            t0 == tok_views(ts@),
            first_word(t0, 0) == first_word(t0, i as int),
        decreases ts.len() - i,
    {
        proof {
            assert(t0[i as int] == tok_view(ts@[i as int]));
        }
        i += 1;
    }
    if i < ts.len() {
        proof {
            assert(t0[i as int] == tok_view(ts@[i as int]));
        }
        let mut w = String::new();
        push_str(&mut w, open);
        match &ts[i] {
            Token::Word(x) => push_str(&mut w, x.as_str()),
            Token::Break => {},
        }
        ts.set(i, Token::Word(w));
        proof {
            assert(tok_views(ts@) =~= t0.update(i as int, TokView::Word(open@ + word_text(t0[i as int]))));
        }
    } else {
        proof {
            assert(tok_views(ts@) =~= t0);
        }
    }
    let ghost a = tok_views(ts@);
    let mut j: usize = ts.len();
    proof {
        assert(last_word(a, a.len() as int) == last_word(a, j as int));
    }
    while j > 0 && !matches!(ts[j - 1], Token::Word(_))
        invariant
            j <= ts.len(),
            a == tok_views(ts@),
            last_word(a, a.len() as int) == last_word(a, j as int),
        decreases j,
    {
        proof {
            assert(a[j - 1] == tok_view(ts@[j - 1]));
        }
        j -= 1;
    }
    if j > 0 {
        proof {
            assert(a[j - 1] == tok_view(ts@[j - 1]));
        }
        let mut w = String::new();
        match &ts[j - 1] {
            Token::Word(x) => push_str(&mut w, x.as_str()),
            Token::Break => {},
        }
        push_str(&mut w, close);
        ts.set(j - 1, Token::Word(w));
        proof {
            assert(tok_views(ts@) =~= a.update(j - 1, TokView::Word(word_text(a[j - 1]) + close@)));
        }
    } else {
        proof {
            assert(tok_views(ts@) =~= a);
        }
    }
}

fn push_title(out: &mut String, title: &Option<String>)
    ensures
        final(out)@ == old(out)@ + title_part(*title),
{
    match title {
        Some(t) => {
            push_str(out, " \"");
            push_str(out, t.as_str());
            push_str(out, "\"");
        },
        None => {},
    }
}

fn append_tokens(out: &mut Vec<Token>, more: Vec<Token>)
    ensures
        tok_views(final(out)@) == tok_views(old(out)@) + tok_views(more@),
{
    let mut m = more;
    out.append(&mut m);
    proof {
        assert(tok_views(out@) =~= tok_views(old(out)@) + tok_views(more@));
    }
}

/// The tokens of one inline element.
pub fn inline_tokens(it: &Inline, cfg: &FmtConfig) -> (r: Vec<Token>)
    ensures
        tok_views(r@) == item_tokens(*it, *cfg),
    decreases *it, 1int,
{
    let mut out: Vec<Token> = Vec::new();
    match it {
        Inline::Text(s) => {
            let cs = chars_of(s.as_str());
            let ws = runs_of(&cs, CharClass::NotWhitespace);
            proof {
                assert(class_pred(CharClass::NotWhitespace) == (|c: char| !unicode_whitespace(c)));
            }
            let ghost wv = crate::text::char_views(ws@);
            let mut i: usize = 0;
            while i < ws.len()
                invariant
                    i <= ws.len(),
                    wv == crate::text::char_views(ws@),
                    tok_views(out@) == wv.take(i as int).map_values(|w: Seq<char>| TokView::Word(escape(w))),
                decreases ws.len() - i,
            {
                let mut e = String::new();
                escape_text(&mut e, &ws[i]);
                let ghost before = tok_views(out@);
                out.push(Token::Word(e));
                proof {
                    assert(wv[i as int] == ws@[i as int]@);
                    assert(tok_views(out@) =~= before.push(TokView::Word(escape(wv[i as int]))));
                    assert(wv.take(i + 1).map_values(|w: Seq<char>| TokView::Word(escape(w))) =~= wv.take(
                        i as int,
                    ).map_values(|w: Seq<char>| TokView::Word(escape(w))).push(TokView::Word(escape(wv[i as int]))));
                }
                i += 1;
            }
            proof {
                assert(wv.take(ws.len() as int) =~= wv);
            }
        },
        Inline::Code(s) => {
            out.push(Token::Word(render_code_span(s)));
            proof {
                assert(tok_views(out@) =~= item_tokens(*it, *cfg));
            }
        },
        Inline::Emphasis(ch) => {
            out = tokens_of(ch, cfg);
            let m = match cfg.emphasis_marker {
                EmphasisMarker::Star => "*",
                EmphasisMarker::Underscore => "_",
            };
            proof {
                reveal_strlit("*");
                reveal_strlit("_");
                assert(m@ == emphasis_text(cfg.emphasis_marker));
            }
            glue_tokens(&mut out, m, m);
        },
        Inline::Strong(ch) => {
            out = tokens_of(ch, cfg);
            let m = match cfg.strong_marker {
                StrongMarker::Star => "**",
                StrongMarker::Underscore => "__",
            };
            proof {
                reveal_strlit("**");
                reveal_strlit("__");
                assert(m@ == strong_text(cfg.strong_marker));
            }
            glue_tokens(&mut out, m, m);
        },
        Inline::Strikethrough(ch) => {
            out = tokens_of(ch, cfg);
            glue_tokens(&mut out, "~~", "~~");
        },
        Inline::Link { dest, title, children } => {
            let inner = tokens_of(children, cfg);
            let mut w = String::new();
            push_str(&mut w, "[");
            let text = join_words(&inner);
            push_str(&mut w, text.as_str());
            push_str(&mut w, "](");
            push_str(&mut w, dest.as_str());
            push_title(&mut w, title);
            push_str(&mut w, ")");
            out.push(Token::Word(w));
            proof {
                assert(tok_views(out@) =~= item_tokens(*it, *cfg));
            }
        },
        Inline::Image { dest, title, alt } => {
            let mut w = String::new();
            push_str(&mut w, "![");
            push_str(&mut w, alt.as_str());
            push_str(&mut w, "](");
            push_str(&mut w, dest.as_str());
            push_title(&mut w, title);
            push_str(&mut w, ")");
            out.push(Token::Word(w));
            proof {
                assert(tok_views(out@) =~= item_tokens(*it, *cfg));
            }
        },
        Inline::SoftBreak => {
            proof {
                assert(tok_views(out@) =~= item_tokens(*it, *cfg));
            }
        },
        Inline::HardBreak => {
            out.push(Token::Break);
            proof {
                assert(tok_views(out@) =~= item_tokens(*it, *cfg));
            }
        },
        Inline::Html(s) => {
            out.push(Token::Word(s.clone()));
            proof {
                assert(tok_views(out@) =~= item_tokens(*it, *cfg));
            }
        },
        Inline::FootnoteReference(s) => {
            let mut w = String::new();
            push_str(&mut w, "[^");
            push_str(&mut w, s.as_str());
            push_str(&mut w, "]");
            out.push(Token::Word(w));
            proof {
                assert(tok_views(out@) =~= item_tokens(*it, *cfg));
            }
        },
    }
    out
}

/// The tokens of a sequence of inline elements.
pub fn tokens_of(items: &Vec<Inline>, cfg: &FmtConfig) -> (r: Vec<Token>)
    ensures
        tok_views(r@) == build_tokens(items@, *cfg),
    decreases items@, 0int,
{
    let mut out: Vec<Token> = Vec::new();
    let mut i: usize = 0;
    proof {
        assert(items@.take(0) =~= Seq::<Inline>::empty());
    }
    while i < items.len()
        invariant
            i <= items.len(),
            tok_views(out@) == build_tokens(items@.take(i as int), *cfg),
        decreases items.len() - i,
    {
        let more = inline_tokens(&items[i], cfg);
        append_tokens(&mut out, more);
        proof {
            let t = items@.take(i + 1);
            assert(t.drop_last() =~= items@.take(i as int));
            assert(t[t.len() - 1] == items@[i as int]);
        }
        i += 1;
    }
    proof {
        assert(items@.take(items.len() as int) =~= items@);
    }
    out
}

/// Inline content rendered on one line.
pub fn render_single_line(items: &Vec<Inline>, cfg: &FmtConfig) -> (r: String)
    ensures
        r@ == single_line(items@, *cfg),
{
    let ts = tokens_of(items, cfg);
    join_words(&ts)
}

/// Tokens `ts` laid out in lines.
pub fn wrap_tokens(ts: &Vec<Token>, width: usize, reflow: bool) -> (r: Vec<String>)
    ensures
        views(r@) == wrap(tok_views(ts@), width, reflow),
{
    let ghost tv = tok_views(ts@);
    let mut lines: Vec<String> = Vec::new();
    let mut cur = String::new();
    let mut cur_len: usize = 0;
    let mut i: usize = 0;
    proof {
        assert(tv.take(0) =~= Seq::<TokView>::empty());
    }
    while i < ts.len()
        invariant
            i <= ts.len(),
            tv == tok_views(ts@),
            wrap_state(tv.take(i as int), width, reflow) == (views(lines@), cur@),
            cur_len == cur@.len(),
        decreases ts.len() - i,
    {
        proof {
            assert(tv.take(i + 1).drop_last() =~= tv.take(i as int));
            assert(tv.take(i + 1).last() == tok_view(ts@[i as int]));
        }
        let ghost before = views(lines@);
        match &ts[i] {
            Token::Break => {
                push_str(&mut cur, "  ");
                let finished = cur;
                lines.push(finished);
                cur = String::new();
                cur_len = 0;
                proof {
                    assert(views(lines@) =~= before.push(finished@));
                }
            },
            Token::Word(w) => {
                let wc = chars_of(w.as_str());
                let wl = wc.len();
                let marker = starts_with_marker(&wc);
                if cur_len == 0 {
                    if lines.len() > 0 && marker {
                        let escaped = escape_marker(&wc);
                        cur = string_of(&escaped);
                        cur_len = escaped.len();
                    } else {
                        cur = w.clone();
                        cur_len = wl;
                    }
                } else if !reflow || (cur_len as u128) + 1 + (wl as u128) <= width as u128 || marker {
                    push_char(&mut cur, ' ');
                    push_str(&mut cur, w.as_str());
                    proof {
                        assert(cur@.len() == cur_len + 1 + wl);
                    }
                    if cur_len < usize::MAX - wl {
                        cur_len = cur_len + 1 + wl;
                    } else {
                        cur_len = chars_of(cur.as_str()).len();
                    }
                } else {
                    let finished = cur;
                    lines.push(finished);
                    cur = w.clone();
                    cur_len = wl;
                    proof {
                        assert(views(lines@) =~= before.push(finished@));
                    }
                }
            },
        }
        i += 1;
    }
    proof {
        assert(tv.take(ts.len() as int) =~= tv);
    }
    let ghost before = views(lines@);
    lines.push(cur);
    proof {
        assert(views(lines@) =~= before.push(cur@));
    }
    lines
}

} // verus!
