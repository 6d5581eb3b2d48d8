//! The event stream of `pulldown-cmark`, mirrored variant for variant as
//! plain values: each event keeps its kind, the fields the Markdown
//! queries read (a heading's level, a link's or image's destination, the
//! text of text and code nodes) and its byte range. Which events matter to
//! a query is decided in `markdown`, over these variants.

use vstd::prelude::*;
use pulldown_cmark::{Event, Options, Parser, Tag, TagEnd};
use pulldown_cmark::Tag::{
    BlockQuote, CodeBlock, DefinitionList, DefinitionListDefinition, DefinitionListTitle, Emphasis,
    FootnoteDefinition, Heading, HtmlBlock, Image, Item, Link, List, MetadataBlock, Paragraph,
    Strikethrough, Strong, Table, TableCell, TableHead, TableRow,
};

verus! {

#[verifier::external_type_specification]
#[verifier::external_body]
pub struct ExEvent<'a>(Event<'a>);

#[verifier::external_type_specification]
#[verifier::external_body]
pub struct ExTag<'a>(Tag<'a>);

#[verifier::external_type_specification]
#[verifier::external_body]
pub struct ExTagEnd(TagEnd);

/// The element a `Start` event opens: one variant per `pulldown_cmark::Tag`.
pub enum MdTag {
    Paragraph,
    /// A heading of the given level, 1 to 6.
    Heading(u8),
    BlockQuote,
    CodeBlock,
    HtmlBlock,
    List,
    Item,
    FootnoteDefinition,
    DefinitionList,
    DefinitionListTitle,
    DefinitionListDefinition,
    Table,
    TableHead,
    TableRow,
    TableCell,
    Emphasis,
    Strong,
    Strikethrough,
    /// A link, with its destination.
    Link(String),
    /// An image, with its destination.
    Image(String),
    MetadataBlock,
}

/// The element an `End` event closes: one variant per `pulldown_cmark::TagEnd`.
#[derive(Clone, Copy, PartialEq, Eq, Structural)]
pub enum MdTagEnd {
    Paragraph,
    /// A heading of the given level, 1 to 6.
    Heading(u8),
    BlockQuote,
    CodeBlock,
    HtmlBlock,
    List,
    Item,
    FootnoteDefinition,
    DefinitionList,
    DefinitionListTitle,
    DefinitionListDefinition,
    Table,
    TableHead,
    TableRow,
    TableCell,
    Emphasis,
    Strong,
    Strikethrough,
    Link,
    Image,
    MetadataBlock,
}

/// One parser event: one variant per `pulldown_cmark::Event`.
pub enum MdKind {
    Start(MdTag),
    End(MdTagEnd),
    /// A text node.
    Text(String),
    /// An inline code span.
    Code(String),
    InlineMath,
    DisplayMath,
    Html,
    InlineHtml,
    FootnoteReference,
    SoftBreak,
    HardBreak,
    Rule,
    TaskListMarker,
}

/// One parser event and the byte range of the source it came from.
pub struct MdEvent {
    pub kind: MdKind,
    pub start: usize,
    pub end: usize,
}

pub enum MdTagView {
    Paragraph,
    Heading(u8),
    BlockQuote,
    CodeBlock,
    HtmlBlock,
    List,
    Item,
    FootnoteDefinition,
    DefinitionList,
    DefinitionListTitle,
    DefinitionListDefinition,
    Table,
    TableHead,
    TableRow,
    TableCell,
    Emphasis,
    Strong,
    Strikethrough,
    Link(Seq<char>),
    Image(Seq<char>),
    MetadataBlock,
}

pub enum MdKindView {
    Start(MdTagView),
    End(MdTagEnd),
    Text(Seq<char>),
    Code(Seq<char>),
    InlineMath,
    DisplayMath,
    Html,
    InlineHtml,
    FootnoteReference,
    SoftBreak,
    HardBreak,
    Rule,
    TaskListMarker,
}

pub struct MdEventView {
    pub kind: MdKindView,
    pub start: nat,
    pub end: nat,
}

impl View for MdTag {
    type V = MdTagView;

    open spec fn view(&self) -> MdTagView {
        match self {
            MdTag::Paragraph => MdTagView::Paragraph,
            MdTag::Heading(l) => MdTagView::Heading(*l),
            MdTag::BlockQuote => MdTagView::BlockQuote,
            MdTag::CodeBlock => MdTagView::CodeBlock,
            MdTag::HtmlBlock => MdTagView::HtmlBlock,
            MdTag::List => MdTagView::List,
            MdTag::Item => MdTagView::Item,
            MdTag::FootnoteDefinition => MdTagView::FootnoteDefinition,
            MdTag::DefinitionList => MdTagView::DefinitionList,
            MdTag::DefinitionListTitle => MdTagView::DefinitionListTitle,
            MdTag::DefinitionListDefinition => MdTagView::DefinitionListDefinition,
            MdTag::Table => MdTagView::Table,
            MdTag::TableHead => MdTagView::TableHead,
            MdTag::TableRow => MdTagView::TableRow,
            MdTag::TableCell => MdTagView::TableCell,
            MdTag::Emphasis => MdTagView::Emphasis,
            MdTag::Strong => MdTagView::Strong,
            MdTag::Strikethrough => MdTagView::Strikethrough,
            MdTag::Link(d) => MdTagView::Link(d@),
            MdTag::Image(d) => MdTagView::Image(d@),
            MdTag::MetadataBlock => MdTagView::MetadataBlock,
        }
    }
}

impl View for MdKind {
    type V = MdKindView;

    open spec fn view(&self) -> MdKindView {
        match self {
            MdKind::Start(t) => MdKindView::Start(t@),
            MdKind::End(t) => MdKindView::End(*t),
            MdKind::Text(t) => MdKindView::Text(t@),
            MdKind::Code(t) => MdKindView::Code(t@),
            MdKind::InlineMath => MdKindView::InlineMath,
            MdKind::DisplayMath => MdKindView::DisplayMath,
            MdKind::Html => MdKindView::Html,
            MdKind::InlineHtml => MdKindView::InlineHtml,
            MdKind::FootnoteReference => MdKindView::FootnoteReference,
            MdKind::SoftBreak => MdKindView::SoftBreak,
            MdKind::HardBreak => MdKindView::HardBreak,
            MdKind::Rule => MdKindView::Rule,
            MdKind::TaskListMarker => MdKindView::TaskListMarker,
        }
    }
}

impl View for MdEvent {
    type V = MdEventView;

    open spec fn view(&self) -> MdEventView {
        MdEventView { kind: self.kind@, start: self.start as nat, end: self.end as nat }
    }
}

pub open spec fn event_views(v: Seq<MdEvent>) -> Seq<MdEventView> {
    v.map_values(|e: MdEvent| e@)
}

/// The events `pulldown-cmark` produces for `src` (tables, footnotes,
/// strikethrough and task lists enabled), each with its byte range.
pub uninterp spec fn markdown_events(src: Seq<char>) -> Seq<MdEventView>;

/// Converts a `pulldown_cmark::Tag` to [`MdTag`], variant for variant.
#[verifier::external_body]
fn start_tag(t: Tag) -> MdTag {
    match t {
        Paragraph => MdTag::Paragraph, Heading { level, .. } => MdTag::Heading(level as u8),
        BlockQuote(_) => MdTag::BlockQuote, CodeBlock(_) => MdTag::CodeBlock, HtmlBlock => MdTag::HtmlBlock,
        List(_) => MdTag::List, Item => MdTag::Item, FootnoteDefinition(_) => MdTag::FootnoteDefinition,
        DefinitionList => MdTag::DefinitionList, DefinitionListTitle => MdTag::DefinitionListTitle,
        DefinitionListDefinition => MdTag::DefinitionListDefinition, Table(_) => MdTag::Table,
        TableHead => MdTag::TableHead, TableRow => MdTag::TableRow, TableCell => MdTag::TableCell,
        Emphasis => MdTag::Emphasis, Strong => MdTag::Strong, Strikethrough => MdTag::Strikethrough,
        MetadataBlock(_) => MdTag::MetadataBlock,
        Link { dest_url, .. } => MdTag::Link(dest_url.to_string()),
        Image { dest_url, .. } => MdTag::Image(dest_url.to_string()),
    }
}

/// Converts a `pulldown_cmark::TagEnd` to [`MdTagEnd`], variant for variant.
#[verifier::external_body]
fn end_tag(t: TagEnd) -> MdTagEnd {
    match t {
        TagEnd::Paragraph => MdTagEnd::Paragraph, TagEnd::Heading(level) => MdTagEnd::Heading(level as u8),
        TagEnd::BlockQuote(_) => MdTagEnd::BlockQuote, TagEnd::CodeBlock => MdTagEnd::CodeBlock,
        TagEnd::HtmlBlock => MdTagEnd::HtmlBlock, TagEnd::List(_) => MdTagEnd::List, TagEnd::Item => MdTagEnd::Item,
        TagEnd::FootnoteDefinition => MdTagEnd::FootnoteDefinition, TagEnd::DefinitionList => MdTagEnd::DefinitionList,
        TagEnd::DefinitionListTitle => MdTagEnd::DefinitionListTitle, TagEnd::DefinitionListDefinition => MdTagEnd::DefinitionListDefinition,
        TagEnd::Table => MdTagEnd::Table, TagEnd::TableHead => MdTagEnd::TableHead, TagEnd::TableRow => MdTagEnd::TableRow,
        TagEnd::TableCell => MdTagEnd::TableCell, TagEnd::Emphasis => MdTagEnd::Emphasis, TagEnd::Strong => MdTagEnd::Strong,
        TagEnd::Strikethrough => MdTagEnd::Strikethrough, TagEnd::MetadataBlock(_) => MdTagEnd::MetadataBlock,
        TagEnd::Link => MdTagEnd::Link, TagEnd::Image => MdTagEnd::Image,
    }
}

/// Converts a `pulldown_cmark::Event` to [`MdKind`], variant for variant.
#[verifier::external_body]
fn event_kind(e: Event) -> MdKind {
    match e {
        Event::Start(t) => MdKind::Start(start_tag(t)), Event::End(t) => MdKind::End(end_tag(t)),
        Event::Text(t) => MdKind::Text(t.to_string()), Event::Code(t) => MdKind::Code(t.to_string()),
        Event::InlineMath(_) => MdKind::InlineMath, Event::DisplayMath(_) => MdKind::DisplayMath,
        Event::Html(_) => MdKind::Html, Event::InlineHtml(_) => MdKind::InlineHtml,
        Event::FootnoteReference(_) => MdKind::FootnoteReference, Event::SoftBreak => MdKind::SoftBreak,
        Event::HardBreak => MdKind::HardBreak, Event::Rule => MdKind::Rule,
        Event::TaskListMarker(_) => MdKind::TaskListMarker,
    }
}

/// Runs `pulldown_cmark::Parser::new_ext(..).into_offset_iter()` over
/// `src` and converts each event, with its byte range. The events are
/// named, not described.
#[verifier::external_body]
pub(crate) fn parse_events(src: &str) -> (r: Vec<MdEvent>)
    ensures
        event_views(r@) == markdown_events(src@),
{
    let options = Options::ENABLE_TABLES | Options::ENABLE_FOOTNOTES | Options::ENABLE_STRIKETHROUGH | Options::ENABLE_TASKLISTS;
    Parser::new_ext(src, options).into_offset_iter().map(|(e, r)| MdEvent { kind: event_kind(e), start: r.start, end: r.end }).collect()
}

} // verus!
