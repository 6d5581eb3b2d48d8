//! Block content: headings, paragraphs, quotes, lists, code blocks.

use vstd::prelude::*;
use crate::chars::{chars_of, decimal, push_char, push_decimal_wide, push_str, string_of, trim_end};
use crate::lines::{lines, lines_of, pieces};
use crate::text::{join, views};
use super::inline::{
    build_tokens, longest_run, longest_run_of, push_repeat, render_single_line, repeat, single_line,
    tokens_of, wrap, wrap_tokens,
};
use super::{bullet_char, fence_char, Block, FmtConfig, ListItem};

verus! {

/// `lines` with `first` in front of the first line and `rest` in front of
/// the others; an empty line gets the prefix alone, trailing spaces
/// trimmed; no lines at all become the trimmed `first`.
pub open spec fn indent(ls: Seq<Seq<char>>, first: Seq<char>, rest: Seq<char>) -> Seq<Seq<char>> {
    if ls.len() == 0 {
        seq![trim_end(first)]
    } else {
        Seq::new(
            ls.len(),
            |i: int|
                {
                    let prefix = if i == 0 {
                        first
                    } else {
                        rest
                    };
                    if ls[i].len() == 0 {
                        trim_end(prefix)
                    } else {
                        prefix + ls[i]
                    }
                },
        )
    }
}

/// The fence of a code block whose content is `literal`: at least three
/// fence characters, and one more than the longest run of them inside.
pub open spec fn fence_of(literal: Seq<char>, c: char) -> Seq<char> {
    let l = longest_run(literal, c);
    if l + 1 > 3 {
        repeat(c, l + 1)
    } else {
        repeat(c, 3)
    }
}

pub open spec fn code_block_lines(info: Seq<char>, literal: Seq<char>, cfg: FmtConfig) -> Seq<Seq<char>> {
    let fence = fence_of(literal, fence_char(cfg.fence_char));
    seq![fence + info] + (if literal.len() == 0 {
        seq![]
    } else {
        pieces(literal)
    }) + seq![fence]
}

pub open spec fn heading_lines(level: u8, inline: Seq<super::Inline>, cfg: FmtConfig) -> Seq<Seq<char>> {
    let l: nat = if level < 1 {
        1
    } else if level > 6 {
        6
    } else {
        level as nat
    };
    let text = single_line(inline, cfg);
    if text.len() == 0 {
        seq![repeat('#', l)]
    } else {
        seq![repeat('#', l) + seq![' '] + text]
    }
}

/// The marker in front of a list item's first line.
pub open spec fn item_marker(ordered: bool, num: nat, cfg: FmtConfig) -> Seq<char> {
    if ordered {
        decimal(num) + ". "@
    } else {
        seq![bullet_char(cfg.bullet_marker), ' ']
    }
}

/// The lines of one list item numbered `num`.
pub open spec fn item_lines(ordered: bool, num: nat, item: ListItem, cfg: FmtConfig) -> Seq<Seq<char>>
    decreases item, 1int,
{
    let first = item_marker(ordered, num, cfg);
    let content = blocks_lines(item.blocks@, cfg);
    let boxed = match item.checked {
        Some(c) => {
            let b = if c {
                "[x] "@
            } else {
                "[ ] "@
            };
            if content.len() == 0 {
                seq![trim_end(b)]
            } else {
                content.update(0, b + content[0])
            }
        },
        None => content,
    };
    indent(boxed, first, repeat(' ', first.len()))
}

/// The lines of a list's items, numbered from `start`.
pub open spec fn list_lines(ordered: bool, start: u64, tight: bool, items: Seq<ListItem>, cfg: FmtConfig) -> Seq<
    Seq<char>,
>
    decreases items, 0int,
{
    if items.len() == 0 {
        seq![]
    } else {
        let k = items.len() - 1;
        list_lines(ordered, start, tight, items.drop_last(), cfg) + (if k > 0 && !tight {
            seq![Seq::empty()]
        } else {
            seq![]
        }) + item_lines(ordered, (start + k) as nat, items[k], cfg)
    }
}

/// The lines of one block.
pub open spec fn block_lines(b: Block, cfg: FmtConfig) -> Seq<Seq<char>>
    decreases b, 1int,
{
    match b {
        Block::Heading { level, inline } => heading_lines(level, inline@, cfg),
        Block::Paragraph(inline) => wrap(build_tokens(inline@, cfg), cfg.line_width, cfg.reflow_prose),
        Block::BlockQuote(inner) => indent(blocks_lines(inner@, cfg), "> "@, "> "@),
        Block::List { ordered, start, tight, items } => list_lines(ordered, start, tight, items@, cfg),
        Block::CodeBlock { info, literal } => code_block_lines(info@, literal@, cfg),
        Block::ThematicBreak => seq!["---"@],
        Block::Table { alignments, header, rows } => super::table::table_lines(alignments@, header@, rows@, cfg),
        Block::HtmlBlock(raw) => lines_of(raw@),
        Block::FootnoteDefinition { label, blocks } => {
            let first = "[^"@ + label@ + "]: "@;
            indent(blocks_lines(blocks@, cfg), first, repeat(' ', first.len()))
        },
    }
}

/// The lines of a sequence of blocks, a blank line between blocks.
pub open spec fn blocks_lines(bs: Seq<Block>, cfg: FmtConfig) -> Seq<Seq<char>>
    decreases bs, 0int,
{
    if bs.len() == 0 {
        seq![]
    } else {
        let prev = blocks_lines(bs.drop_last(), cfg);
        (if bs.len() > 1 {
            prev.push(Seq::empty())
        } else {
            prev
        }) + block_lines(bs[bs.len() - 1], cfg)
    }
}

/// `lines` joined by newlines.
pub fn join_lines(ls: &Vec<String>) -> (r: String)
    ensures
        r@ == join(views(ls@), '\n'),
{
    let ghost lv = views(ls@);
    let mut out = String::new();
    let mut i: usize = 0;
    proof {
        assert(lv.take(0) =~= Seq::<Seq<char>>::empty());
    }
    while i < ls.len()
        invariant
            i <= ls.len(),
            lv == views(ls@),
            out@ == join(lv.take(i as int), '\n'),
        decreases ls.len() - i,
    {
        let ghost prev = lv.take(i as int);
        proof {
            assert(lv.take(i + 1) =~= prev.push(lv[i as int]));
            crate::text::lemma_join_push(prev, lv[i as int], '\n');
        }
        if i > 0 {
            push_char(&mut out, '\n');
        }
        push_str(&mut out, ls[i].as_str());
        proof {
            assert(out@ =~= join(lv.take(i + 1), '\n'));
        }
        i += 1;
    }
    proof {
        assert(lv.take(ls.len() as int) =~= lv);
    }
    out
}

/// `s` with trailing whitespace removed.
fn trimmed_end(s: &str) -> (r: String)
    ensures
        r@ == trim_end(s@),
{
    let cs = chars_of(s);
    let mut k = cs.len();
    while k > 0 && crate::chars::is_whitespace(cs[k - 1])
        invariant
            k <= cs.len(),
            forall|j: int| k <= j < cs.len() ==> #[trigger] crate::chars::unicode_whitespace(cs@[j]),
        decreases k,
    {
        k -= 1;
    }
    proof {
        crate::chars::lemma_trailing_count_is(cs@, |c: char| crate::chars::unicode_whitespace(c), (cs.len() - k) as int);
    }
    let mut out = String::new();
    let mut i: usize = 0;
    while i < k
        invariant
            i <= k <= cs.len(),
            out@ == cs@.take(i as int),
        decreases k - i,
    {
        push_char(&mut out, cs[i]);
        proof {
            assert(cs@.take(i + 1) =~= cs@.take(i as int).push(cs@[i as int]));
        }
        i += 1;
    }
    proof {
        assert(out@ =~= trim_end(s@));
    }
    out
}

/// `lines` with `first` before the first and `rest` before the others.
pub fn indent_block(ls: &Vec<String>, first: &str, rest: &str) -> (r: Vec<String>)
    ensures
        views(r@) == indent(views(ls@), first@, rest@),
{
    let mut out: Vec<String> = Vec::new();
    if ls.len() == 0 {
        out.push(trimmed_end(first));
        proof {
            assert(views(out@) =~= indent(views(ls@), first@, rest@));
        }
        return out;
    }
    let ghost target = indent(views(ls@), first@, rest@);
    let mut i: usize = 0;
    while i < ls.len()
        invariant
            i <= ls.len(),
            ls.len() > 0,
            target == indent(views(ls@), first@, rest@),
            views(out@) == target.take(i as int),
        decreases ls.len() - i,
    {
        let prefix = if i == 0 { first } else { rest };
        let l = &ls[i];
        let lc = chars_of(l.as_str());
        let line = if lc.len() == 0 {
            trimmed_end(prefix)
        } else {
            let mut s = String::new();
            push_str(&mut s, prefix);
            push_str(&mut s, l.as_str());
            s
        };
        proof {
            assert(views(ls@)[i as int] == l@);
            assert(line@ == target[i as int]);
        }
        let ghost before = views(out@);
        out.push(line);
        proof {
            assert(views(out@) =~= before.push(line@));
            assert(target.take(i + 1) =~= target.take(i as int).push(target[i as int]));
        }
        i += 1;
    }
    proof {
        assert(target.take(ls.len() as int) =~= target);
    }
    out
}

fn print_code_block(info: &String, literal: &String, cfg: &FmtConfig) -> (r: Vec<String>)
    ensures
        views(r@) == code_block_lines(info@, literal@, *cfg),
{
    let c = cfg.fence_char.as_char();
    let lit = chars_of(literal.as_str());
    let longest = longest_run_of(&lit, c);
    let mut fence = String::new();
    if longest >= 3 {
        push_repeat(&mut fence, c, longest);
        push_char(&mut fence, c);
        proof {
            assert(fence@ =~= repeat(c, (longest + 1) as nat));
        }
    } else {
        push_repeat(&mut fence, c, 3);
    }
    proof {
        assert(fence@ == fence_of(literal@, fence_char(cfg.fence_char)));
    }
    let mut out: Vec<String> = Vec::new();
    let mut head = fence.clone();
    push_str(&mut head, info.as_str());
    out.push(head);
    let ghost start = views(out@);
    proof {
        assert(start =~= seq![fence@ + info@]);
    }
    if lit.len() > 0 {
        let parts = split_newlines(&lit);
        let mut i: usize = 0;
        while i < parts.len()
            invariant
                i <= parts.len(),
                views(parts@) == pieces(literal@),
                views(out@) == start + views(parts@).take(i as int),
            decreases parts.len() - i,
        {
            let ghost before = views(out@);
            let piece = parts[i].clone();
            out.push(piece);
            proof {
                assert(views(out@) =~= before.push(piece@));
                assert(views(parts@).take(i + 1) =~= views(parts@).take(i as int).push(views(parts@)[i as int]));
                assert(views(out@) =~= start + views(parts@).take(i + 1));
            }
            i += 1;
        }
        proof {
            assert(views(parts@).take(parts.len() as int) =~= views(parts@));
        }
    }
    let ghost before = views(out@);
    out.push(fence);
    proof {
        assert(views(out@) =~= before.push(fence@));
        if lit.len() > 0 {
            assert(before =~= start + pieces(literal@));
        } else {
            assert(before =~= start);
        }
        assert(views(out@) =~= code_block_lines(info@, literal@, *cfg));
    }
    out
}

/// `s` split at every `\n` (`s.split('\n')`).
fn split_newlines(s: &Vec<char>) -> (r: Vec<String>)
    ensures
        views(r@) == pieces(s@),
{
    let mut done: Vec<String> = Vec::new();
    let mut cur: Vec<char> = Vec::new();
    let mut i: usize = 0;
    proof {
        assert(s@.take(0) =~= Seq::<char>::empty());
    }
    while i < s.len()
        invariant
            i <= s.len(),
            views(done@) + seq![cur@] == pieces(s@.take(i as int)),
        decreases s.len() - i,
    {
        let ghost p = pieces(s@.take(i as int));
        proof {
            assert(s@.take(i + 1).drop_last() =~= s@.take(i as int));
            assert(s@.take(i + 1).last() == s@[i as int]);
        }
        if s[i] == '\n' {
            let ghost before = views(done@);
            done.push(string_of(&cur));
            cur = Vec::new();
            proof {
                assert(views(done@) + seq![cur@] =~= p.push(Seq::empty()));
            }
        } else {
            cur.push(s[i]);
            proof {
                assert(views(done@) + seq![cur@] =~= p.update(p.len() - 1, p.last().push(s@[i as int])));
            }
        }
        i += 1;
    }
    proof {
        assert(s@.take(s.len() as int) =~= s@);
    }
    let ghost before = views(done@);
    done.push(string_of(&cur));
    proof {
        assert(views(done@) =~= before + seq![cur@]);
    }
    done
}

fn print_heading(level: u8, inline: &Vec<super::Inline>, cfg: &FmtConfig) -> (r: Vec<String>)
    ensures
        views(r@) == heading_lines(level, inline@, *cfg),
{
    let l: usize = if level < 1 { 1 } else if level > 6 { 6 } else { level as usize };
    let text = render_single_line(inline, cfg);
    let mut line = String::new();
    push_repeat(&mut line, '#', l);
    let tl = chars_of(text.as_str()).len();
    if tl > 0 {
        push_char(&mut line, ' ');
        push_str(&mut line, text.as_str());
    }
    proof {
        let ln: nat = if level < 1 { 1 } else if level > 6 { 6 } else { level as nat };
        assert(l as nat == ln);
        if tl > 0 {
            assert(line@ =~= repeat('#', ln) + seq![' '] + text@);
        } else {
            assert(line@ =~= repeat('#', ln));
        }
    }
    let mut out: Vec<String> = Vec::new();
    out.push(line);
    proof {
        assert(views(out@) =~= heading_lines(level, inline@, *cfg));
    }
    out
}

fn append_lines(out: &mut Vec<String>, more: Vec<String>)
    ensures
        views(final(out)@) == views(old(out)@) + views(more@),
{
    let mut m = more;
    out.append(&mut m);
    proof {
        assert(views(out@) =~= views(old(out)@) + views(more@));
    }
}

/// The lines of one list item numbered `num`.
fn print_item(ordered: bool, num: u128, item: &ListItem, cfg: &FmtConfig) -> (r: Vec<String>)
    ensures
        views(r@) == item_lines(ordered, num as nat, *item, *cfg),
    decreases *item, 1int,
{
    let mut first = String::new();
    if ordered {
        push_decimal_wide(&mut first, num);
        push_str(&mut first, ". ");
    } else {
        push_char(&mut first, cfg.bullet_marker.as_char());
        push_char(&mut first, ' ');
        proof {
            assert(first@ =~= seq![super::bullet_char(cfg.bullet_marker), ' ']);
        }
    }
    let width = chars_of(first.as_str()).len();
    let mut rest = String::new();
    push_repeat(&mut rest, ' ', width);
    let mut content = print_blocks(&item.blocks, cfg);
    let ghost c0 = views(content@);
    match item.checked {
        Some(checked) => {
            let b = if checked { "[x] " } else { "[ ] " };
            if content.len() == 0 {
                content.push(trimmed_end(b));
                proof {
                    assert(views(content@) =~= seq![trim_end(b@)]);
                }
            } else {
                let mut head = String::new();
                push_str(&mut head, b);
                push_str(&mut head, content[0].as_str());
                content.set(0, head);
                proof {
                    assert(views(content@) =~= c0.update(0, b@ + c0[0]));
                }
            }
        },
        None => {},
    }
    indent_block(&content, first.as_str(), rest.as_str())
}

/// The lines of a list's items, numbered from `start`.
fn print_list(ordered: bool, start: u64, tight: bool, items: &Vec<ListItem>, cfg: &FmtConfig) -> (r: Vec<String>)
    ensures
        views(r@) == list_lines(ordered, start, tight, items@, *cfg),
    decreases items@, 0int,
{
    let mut out: Vec<String> = Vec::new();
    let mut i: usize = 0;
    proof {
        assert(items@.take(0) =~= Seq::<ListItem>::empty());
    }
    while i < items.len()
        invariant
            i <= items.len(),
            views(out@) == list_lines(ordered, start, tight, items@.take(i as int), *cfg),
        decreases items.len() - i,
    {
        let ghost before = views(out@);
        if i > 0 && !tight {
            out.push(String::new());
        }
        let num: u128 = start as u128 + i as u128;
        let lines = print_item(ordered, num, &items[i], cfg);
        append_lines(&mut out, lines);
        proof {
            let t = items@.take(i + 1);
            assert(t.drop_last() =~= items@.take(i as int));
            assert(t[t.len() - 1] == items@[i as int]);
            assert(views(out@) =~= list_lines(ordered, start, tight, t, *cfg));
        }
        i += 1;
    }
    proof {
        assert(items@.take(items.len() as int) =~= items@);
    }
    out
}

/// The lines of one block.
pub fn print_block(b: &Block, cfg: &FmtConfig) -> (r: Vec<String>)
    ensures
        views(r@) == block_lines(*b, *cfg),
    decreases *b, 1int,
{
    match b {
        Block::Heading { level, inline } => print_heading(*level, inline, cfg),
        Block::Paragraph(inline) => {
            let ts = tokens_of(inline, cfg);
            wrap_tokens(&ts, cfg.line_width, cfg.reflow_prose)
        },
        Block::BlockQuote(inner) => {
            let content = print_blocks(inner, cfg);
            indent_block(&content, "> ", "> ")
        },
        Block::List { ordered, start, tight, items } => print_list(*ordered, *start, *tight, items, cfg),
        Block::CodeBlock { info, literal } => print_code_block(info, literal, cfg),
        Block::ThematicBreak => {
            let mut out: Vec<String> = Vec::new();
            out.push(crate::diagnostic::owned("---"));
            proof {
                assert(views(out@) =~= block_lines(*b, *cfg));
            }
            out
        },
        Block::Table { alignments, header, rows } => super::table::print_table(alignments, header, rows, cfg),
        Block::HtmlBlock(raw) => lines(raw.as_str()),
        Block::FootnoteDefinition { label, blocks } => {
            let mut first = String::new();
            push_str(&mut first, "[^");
            push_str(&mut first, label.as_str());
            push_str(&mut first, "]: ");
            let width = chars_of(first.as_str()).len();
            let mut rest = String::new();
            push_repeat(&mut rest, ' ', width);
            let content = print_blocks(blocks, cfg);
            indent_block(&content, first.as_str(), rest.as_str())
        },
    }
}

/// The lines of a sequence of blocks, a blank line between blocks.
pub fn print_blocks(bs: &Vec<Block>, cfg: &FmtConfig) -> (r: Vec<String>)
    ensures
        views(r@) == blocks_lines(bs@, *cfg),
    decreases bs@, 0int,
{
    let mut out: Vec<String> = Vec::new();
    let mut i: usize = 0;
    proof {
        assert(bs@.take(0) =~= Seq::<Block>::empty());
    }
    while i < bs.len()
        invariant
            i <= bs.len(),
            views(out@) == blocks_lines(bs@.take(i as int), *cfg),
        decreases bs.len() - i,
    {
        let ghost before = views(out@);
        if i > 0 {
            out.push(String::new());
        }
        let lines = print_block(&bs[i], cfg);
        append_lines(&mut out, lines);
        proof {
            let t = bs@.take(i + 1);
            assert(t.drop_last() =~= bs@.take(i as int));
            assert(t[t.len() - 1] == bs@[i as int]);
            assert(views(out@) =~= blocks_lines(t, *cfg));
        }
        i += 1;
    }
    proof {
        assert(bs@.take(bs.len() as int) =~= bs@);
    }
    out
}

} // verus!
