//! The stream that the tree is built from: events, and the tags that open and
//! close nested constructs.

use vstd::prelude::*;

verus! {

/// The six heading ranks.
#[derive(Clone, Copy, Debug, PartialEq, Eq)]
pub enum HeadingRank {
    H1,
    H2,
    H3,
    H4,
    H5,
    H6,
}

/// How the cells of one table column are aligned.
#[derive(Clone, Copy, Debug, PartialEq, Eq)]
pub enum ColumnAlign {
    /// The column has no alignment of its own.
    Unset,
    Left,
    Center,
    Right,
}

/// The kind of an alert block quote.
#[derive(Clone, Copy, Debug, PartialEq, Eq)]
pub enum AlertKind {
    Note,
    Tip,
    Important,
    Warning,
    Caution,
}

/// How a link or an image was written.
#[derive(Clone, Copy, Debug, PartialEq, Eq)]
pub enum LinkKind {
    Inline,
    Reference,
    ReferenceUnknown,
    Collapsed,
    CollapsedUnknown,
    Shortcut,
    ShortcutUnknown,
    Autolink,
    Email,
    WikiLink { has_pothole: bool },
}

/// What a `Start` event opens.
#[derive(Clone, Debug, PartialEq, Eq)]
pub enum MdTag {
    Paragraph,
    Heading { level: HeadingRank, id: Option<String>, classes: Vec<String> },
    /// A block quote, with its kind if it is an alert.
    BlockQuote(Option<AlertKind>),
    /// A code block: fenced, with the info string behind the fence, or indented.
    CodeBlock(Option<String>),
    HtmlBlock,
    /// A list: ordered, with the number of its first item, or unordered.
    List(Option<u64>),
    Item,
    /// The definition of the footnote with this label.
    FootnoteDefinition(String),
    DefinitionList,
    DefinitionListTitle,
    DefinitionListDefinition,
    /// A table, with the alignments of its columns.
    Table(Vec<ColumnAlign>),
    TableHead,
    TableRow,
    TableCell,
    Emphasis,
    Strong,
    Strikethrough,
    Superscript,
    Subscript,
    Link { kind: LinkKind, dest_url: String, title: String },
    Image { dest_url: String, title: String },
    MetadataBlock,
}

/// What an `End` event closes.
#[derive(Clone, Copy, Debug, PartialEq, Eq)]
pub enum TagKind {
    Paragraph,
    Heading,
    BlockQuote,
    CodeBlock,
    HtmlBlock,
    List,
    Item,
    FootnoteDefinition,
    DefinitionList,
    DefinitionListTitle,
    DefinitionListDefinition,
    Table,
    TableHead,
    TableRow,
    TableCell,
    Emphasis,
    Strong,
    Strikethrough,
    Superscript,
    Subscript,
    Link,
    Image,
    MetadataBlock,
}

/// One unit of a parsed document.
#[derive(Clone, Debug, PartialEq, Eq)]
pub enum MdEvent {
    Start(MdTag),
    End(TagKind),
    Text(String),
    /// Inline code.
    Code(String),
    InlineMath(String),
    DisplayMath(String),
    /// A piece of an HTML block.
    Html(String),
    InlineHtml(String),
    /// A reference to the footnote with this label.
    FootnoteReference(String),
    SoftBreak,
    HardBreak,
    Rule,
    TaskListMarker(bool),
}

} // verus!
