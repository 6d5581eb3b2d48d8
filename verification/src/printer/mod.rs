//! Printing a Markdown document tree back to normalized CommonMark text:
//! the formatter's printer.
//!
//! Prose is reflowed to the configured width word by word; a word is never
//! split, and an inline code span, link or image counts as one word.

pub mod inline;
pub mod blocks;
pub mod table;
pub mod markers;

use vstd::prelude::*;
use crate::chars::{chars_of, push_char, string_of};
use crate::text::join;

verus! {

/// The bullet used for unordered list items.
#[derive(Clone, Copy, Debug, PartialEq, Eq, Structural)]
pub enum BulletMarker {
    Dash,
    Star,
    Plus,
}

/// The character code fences are made of.
#[derive(Clone, Copy, Debug, PartialEq, Eq, Structural)]
pub enum FenceChar {
    Backtick,
    Tilde,
}

/// The delimiter of emphasis.
#[derive(Clone, Copy, Debug, PartialEq, Eq, Structural)]
pub enum EmphasisMarker {
    Star,
    Underscore,
}

/// The delimiter of strong emphasis.
#[derive(Clone, Copy, Debug, PartialEq, Eq, Structural)]
pub enum StrongMarker {
    Star,
    Underscore,
}

pub open spec fn bullet_char(b: BulletMarker) -> char {
    match b {
        BulletMarker::Dash => '-',
        BulletMarker::Star => '*',
        BulletMarker::Plus => '+',
    }
}

pub open spec fn fence_char(f: FenceChar) -> char {
    match f {
        FenceChar::Backtick => '`',
        FenceChar::Tilde => '~',
    }
}

pub open spec fn emphasis_text(e: EmphasisMarker) -> Seq<char> {
    match e {
        EmphasisMarker::Star => seq!['*'],
        EmphasisMarker::Underscore => seq!['_'],
    }
}

pub open spec fn strong_text(s: StrongMarker) -> Seq<char> {
    match s {
        StrongMarker::Star => seq!['*', '*'],
        StrongMarker::Underscore => seq!['_', '_'],
    }
}

impl BulletMarker {
    pub fn as_char(&self) -> (c: char)
        ensures
            c == bullet_char(*self),
    {
        match self {
            BulletMarker::Dash => '-',
            BulletMarker::Star => '*',
            BulletMarker::Plus => '+',
        }
    }
}

impl FenceChar {
    pub fn as_char(&self) -> (c: char)
        ensures
            c == fence_char(*self),
    {
        match self {
            FenceChar::Backtick => '`',
            FenceChar::Tilde => '~',
        }
    }
}

/// How the printer lays a document out.
#[derive(Clone, Copy, Debug)]
pub struct FmtConfig {
    /// The width prose is reflowed to.
    pub line_width: usize,
    /// Whether paragraphs are reflowed at all; when not, a paragraph's
    /// words are joined on one line (hard breaks still end lines).
    pub reflow_prose: bool,
    pub bullet_marker: BulletMarker,
    pub fence_char: FenceChar,
    pub emphasis_marker: EmphasisMarker,
    pub strong_marker: StrongMarker,
}

impl Default for FmtConfig {
    fn default() -> (c: FmtConfig)
        ensures
            c.line_width == 100,
            c.reflow_prose,
            c.bullet_marker == BulletMarker::Dash,
            c.fence_char == FenceChar::Backtick,
            c.emphasis_marker == EmphasisMarker::Star,
            c.strong_marker == StrongMarker::Star,
    {
        FmtConfig {
            line_width: 100,
            reflow_prose: true,
            bullet_marker: BulletMarker::Dash,
            fence_char: FenceChar::Backtick,
            emphasis_marker: EmphasisMarker::Star,
            strong_marker: StrongMarker::Star,
        }
    }
}

/// Table column alignment.
#[derive(Clone, Copy, Debug, PartialEq, Eq, Structural)]
pub enum Alignment {
    /// No alignment given.
    Plain,
    Left,
    Center,
    Right,
}

/// An inline element of the document tree.
#[derive(Debug)]
pub enum Inline {
    Text(String),
    Code(String),
    Emphasis(Vec<Inline>),
    Strong(Vec<Inline>),
    Strikethrough(Vec<Inline>),
    Link { dest: String, title: Option<String>, children: Vec<Inline> },
    Image { dest: String, title: Option<String>, alt: String },
    SoftBreak,
    HardBreak,
    Html(String),
    FootnoteReference(String),
}

/// One item of a list.
#[derive(Debug)]
pub struct ListItem {
    /// For a task-list item, whether it is checked.
    pub checked: Option<bool>,
    pub blocks: Vec<Block>,
}

/// A block of the document tree.
#[derive(Debug)]
pub enum Block {
    Heading { level: u8, inline: Vec<Inline> },
    Paragraph(Vec<Inline>),
    BlockQuote(Vec<Block>),
    List { ordered: bool, start: u64, tight: bool, items: Vec<ListItem> },
    CodeBlock { info: String, literal: String },
    ThematicBreak,
    Table { alignments: Vec<Alignment>, header: Vec<Vec<Inline>>, rows: Vec<Vec<Vec<Inline>>> },
    HtmlBlock(String),
    FootnoteDefinition { label: String, blocks: Vec<Block> },
}

/// `s` without the newlines it ends in.
pub open spec fn strip_trailing_newlines(s: Seq<char>) -> Seq<char>
    decreases s.len(),
{
    if s.len() > 0 && s.last() == '\n' {
        strip_trailing_newlines(s.drop_last())
    } else {
        s
    }
}

/// The text of a whole document: its printed lines joined by newlines,
/// ending in exactly one newline.
pub open spec fn document_text(blocks: Seq<Block>, cfg: FmtConfig) -> Seq<char> {
    strip_trailing_newlines(join(blocks::blocks_lines(blocks, cfg), '\n')).push('\n')
}

/// Prints the top-level `blocks` as a document: the blocks' lines, blank
/// lines between blocks, joined by newlines and ending in exactly one
/// newline (a document that would end in empty lines, such as a paragraph
/// ending in a hard break, loses them).
pub fn print_document(blocks: &Vec<Block>, cfg: &FmtConfig) -> (r: String)
    ensures
        r@ == document_text(blocks@, *cfg),
{
    let lines = blocks::print_blocks(blocks, cfg);
    let joined = crate::printer::blocks::join_lines(&lines);
    let mut kept = chars_of(joined.as_str());
    let ghost all = kept@;
    let mut n: usize = kept.len();
    proof {
        assert(all.take(n as int) =~= all);
    }
    while n > 0 && kept[n - 1] == '\n'
        invariant
            n <= kept.len(),
            kept@ == all,
            strip_trailing_newlines(all) == strip_trailing_newlines(all.take(n as int)),
        decreases n,
    {
        proof {
            assert(all.take(n as int).drop_last() =~= all.take(n - 1));
        }
        n -= 1;
    }
    kept.truncate(n);
    let mut out = string_of(&kept);
    push_char(&mut out, '\n');
    out
}

proof fn lemma_stripped_ends_clean(s: Seq<char>)
    ensures
        strip_trailing_newlines(s).len() == 0 || strip_trailing_newlines(s).last() != '\n',
    decreases s.len(),
{
    if s.len() > 0 && s.last() == '\n' {
        lemma_stripped_ends_clean(s.drop_last());
    }
}

/// A printed document ends in exactly one newline: its last character is a
/// newline and the one before it, if any, is not; a document of no blocks
/// is a single newline.
pub proof fn document_ends_with_newline(blocks: Seq<Block>, cfg: FmtConfig)
    ensures
        document_text(blocks, cfg).len() > 0,
        document_text(blocks, cfg).last() == '\n',
        document_text(blocks, cfg).len() >= 2 ==> document_text(blocks, cfg)[document_text(blocks, cfg).len() - 2] != '\n',
        blocks.len() == 0 ==> document_text(blocks, cfg) == seq!['\n'],
{
    let joined = join(blocks::blocks_lines(blocks, cfg), '\n');
    lemma_stripped_ends_clean(joined);
    if blocks.len() == 0 {
        assert(blocks::blocks_lines(blocks, cfg) =~= Seq::<Seq<char>>::empty());
        assert(strip_trailing_newlines(joined) =~= Seq::<char>::empty());
    }
}

} // verus!
