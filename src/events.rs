use vstd::prelude::*;

verus! {

/// A structural construct that brackets a span of content.
#[derive(Clone, Debug, PartialEq, Eq)]
pub enum Tag {
    Paragraph,
    Emphasis,
    Strong,
    Code,
    BlockQuote,
    /// A heading of the given level.
    Header(u32),
    Rule,
    Item,
    /// A list; ordered lists carry the number of their first item.
    List(Option<u64>),
    /// A table; the column alignments are not needed here and are dropped.
    Table,
    TableHead,
    TableRow,
    TableCell,
    /// A fenced or indented code block with its (possibly empty) language.
    CodeBlock(String),
    /// An image with its destination and title.
    Image(String, String),
    /// A link with its destination and title.
    Link(String, String),
    /// Not supported by the translation.
    FootnoteDefinition(String),
}

/// One unit of the upstream parse stream.
#[derive(Clone, Debug, PartialEq, Eq)]
pub enum Event {
    Start(Tag),
    End(Tag),
    Text(String),
    Html(String),
    InlineHtml(String),
    SoftBreak,
    HardBreak,
    /// Not supported by the translation.
    FootnoteReference(String),
}

/// Mathematical model of a [`Tag`].
pub enum TagV {
    Paragraph,
    Emphasis,
    Strong,
    Code,
    BlockQuote,
    Header(u32),
    Rule,
    Item,
    List(Option<u64>),
    Table,
    TableHead,
    TableRow,
    TableCell,
    CodeBlock(Seq<char>),
    Image(Seq<char>, Seq<char>),
    Link(Seq<char>, Seq<char>),
    FootnoteDefinition(Seq<char>),
}

/// Mathematical model of an [`Event`].
pub enum EventV {
    Start(TagV),
    End(TagV),
    Text(Seq<char>),
    Html(Seq<char>),
    InlineHtml(Seq<char>),
    SoftBreak,
    HardBreak,
    FootnoteReference(Seq<char>),
}

impl View for Tag {
    type V = TagV;

    open spec fn view(&self) -> TagV {
        match self {
            Tag::Paragraph => TagV::Paragraph,
            Tag::Emphasis => TagV::Emphasis,
            Tag::Strong => TagV::Strong,
            Tag::Code => TagV::Code,
            Tag::BlockQuote => TagV::BlockQuote,
            Tag::Header(l) => TagV::Header(*l),
            Tag::Rule => TagV::Rule,
            Tag::Item => TagV::Item,
            Tag::List(s) => TagV::List(*s),
            Tag::Table => TagV::Table,
            Tag::TableHead => TagV::TableHead,
            Tag::TableRow => TagV::TableRow,
            Tag::TableCell => TagV::TableCell,
            Tag::CodeBlock(lang) => TagV::CodeBlock(lang@),
            Tag::Image(src, title) => TagV::Image(src@, title@),
            Tag::Link(href, title) => TagV::Link(href@, title@),
            Tag::FootnoteDefinition(id) => TagV::FootnoteDefinition(id@),
        }
    }
}

impl View for Event {
    type V = EventV;

    open spec fn view(&self) -> EventV {
        match self {
            Event::Start(t) => EventV::Start(t@),
            Event::End(t) => EventV::End(t@),
            Event::Text(s) => EventV::Text(s@),
            Event::Html(s) => EventV::Html(s@),
            Event::InlineHtml(s) => EventV::InlineHtml(s@),
            Event::SoftBreak => EventV::SoftBreak,
            Event::HardBreak => EventV::HardBreak,
            Event::FootnoteReference(id) => EventV::FootnoteReference(id@),
        }
    }
}

} // verus!
