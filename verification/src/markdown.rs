//! The CommonMark reader: `pulldown_cmark` parses, and what it yields is carried
//! over into the event types of this crate, variant by variant.
//!
//! Nothing in this file is proved. Each function below only tells the variants of
//! one `pulldown_cmark` enum apart and moves their fields; `parse_events` makes the
//! one call into the parser.

use crate::event::{AlertKind, ColumnAlign, HeadingRank, LinkKind, MdEvent, MdTag, TagKind};
use pulldown_cmark as pd;
use vstd::prelude::*;

verus! {

/// `pulldown_cmark::Event`. Nothing is known of its values here: they are only handed on.
#[verifier::external_type_specification]
#[verifier::external_body]
pub struct ExEvent<'a>(pulldown_cmark::Event<'a>);

/// `pulldown_cmark::Tag`. Nothing is known of its values here: they are only handed on.
#[verifier::external_type_specification]
#[verifier::external_body]
pub struct ExTag<'a>(pulldown_cmark::Tag<'a>);

/// `pulldown_cmark::TagEnd`. Nothing is known of its values here: they are only handed on.
#[verifier::external_type_specification]
#[verifier::external_body]
pub struct ExTagEnd(pulldown_cmark::TagEnd);

/// `pulldown_cmark::HeadingLevel`. Nothing is known of its values here: they are only handed on.
#[verifier::external_type_specification]
#[verifier::external_body]
pub struct ExHeadingLevel(pulldown_cmark::HeadingLevel);

/// `pulldown_cmark::Alignment`. Nothing is known of its values here: they are only handed on.
#[verifier::external_type_specification]
#[verifier::external_body]
pub struct ExAlignment(pulldown_cmark::Alignment);

/// `pulldown_cmark::BlockQuoteKind`. Nothing is known of its values here: they are only handed on.
#[verifier::external_type_specification]
#[verifier::external_body]
pub struct ExBlockQuoteKind(pulldown_cmark::BlockQuoteKind);

/// `pulldown_cmark::LinkType`. Nothing is known of its values here: they are only handed on.
#[verifier::external_type_specification]
#[verifier::external_body]
pub struct ExLinkType(pulldown_cmark::LinkType);

/// `pulldown_cmark::CodeBlockKind`. Nothing is known of its values here: they are only handed on.
#[verifier::external_type_specification]
#[verifier::external_body]
pub struct ExCodeBlockKind<'a>(pulldown_cmark::CodeBlockKind<'a>);

/// The events that `pulldown_cmark` reads from `text` with the extensions whose
/// bits are set in `options`, in the order in which its parser yields them.
pub uninterp spec fn cmark_events(text: Seq<char>, options: u32) -> Seq<MdEvent>;

/// `pulldown_cmark::HeadingLevel`, variant for variant.
#[verifier::external_body]
fn rank_from(level: pd::HeadingLevel) -> HeadingRank {
    match level {
        pd::HeadingLevel::H1 => HeadingRank::H1,
        pd::HeadingLevel::H2 => HeadingRank::H2,
        pd::HeadingLevel::H3 => HeadingRank::H3,
        pd::HeadingLevel::H4 => HeadingRank::H4,
        pd::HeadingLevel::H5 => HeadingRank::H5,
        pd::HeadingLevel::H6 => HeadingRank::H6,
    }
}

/// `pulldown_cmark::Alignment`, variant for variant; its `None` is `Unset` here.
#[verifier::external_body]
fn align_from(alignment: pd::Alignment) -> ColumnAlign {
    match alignment {
        pd::Alignment::None => ColumnAlign::Unset,
        pd::Alignment::Left => ColumnAlign::Left,
        pd::Alignment::Center => ColumnAlign::Center,
        pd::Alignment::Right => ColumnAlign::Right,
    }
}

/// `pulldown_cmark::BlockQuoteKind`, variant for variant.
#[verifier::external_body]
fn alert_from(kind: pd::BlockQuoteKind) -> AlertKind {
    match kind {
        pd::BlockQuoteKind::Note => AlertKind::Note,
        pd::BlockQuoteKind::Tip => AlertKind::Tip,
        pd::BlockQuoteKind::Important => AlertKind::Important,
        pd::BlockQuoteKind::Warning => AlertKind::Warning,
        pd::BlockQuoteKind::Caution => AlertKind::Caution,
    }
}

/// `pulldown_cmark::LinkType`, variant for variant.
#[verifier::external_body]
fn link_kind_from(link_type: pd::LinkType) -> LinkKind {
    match link_type {
        pd::LinkType::Inline => LinkKind::Inline,
        pd::LinkType::Reference => LinkKind::Reference,
        pd::LinkType::ReferenceUnknown => LinkKind::ReferenceUnknown,
        pd::LinkType::Collapsed => LinkKind::Collapsed,
        pd::LinkType::CollapsedUnknown => LinkKind::CollapsedUnknown,
        pd::LinkType::Shortcut => LinkKind::Shortcut,
        pd::LinkType::ShortcutUnknown => LinkKind::ShortcutUnknown,
        pd::LinkType::Autolink => LinkKind::Autolink,
        pd::LinkType::Email => LinkKind::Email,
        pd::LinkType::WikiLink { has_pothole } => LinkKind::WikiLink { has_pothole },
    }
}

/// The info string of a fenced `pulldown_cmark::CodeBlockKind`; none for an
/// indented block.
#[verifier::external_body]
fn info_from(kind: pd::CodeBlockKind<'_>) -> Option<String> {
    match kind {
        pd::CodeBlockKind::Indented => None,
        pd::CodeBlockKind::Fenced(info) => Some(info.into_string()),
    }
}

/// `pulldown_cmark::Tag::Paragraph`. The last arm names every other variant:
/// those are converted before they come here, and go back to `tag_from`.
#[verifier::external_body]
fn paragraph_tag_from(tag: pd::Tag<'_>) -> MdTag {
    match tag {
        pd::Tag::Paragraph => MdTag::Paragraph,
        other @ (pd::Tag::Heading { .. } | pd::Tag::BlockQuote(_) | pd::Tag::CodeBlock(_)
        | pd::Tag::HtmlBlock | pd::Tag::List(_) | pd::Tag::Item | pd::Tag::FootnoteDefinition(_)
        | pd::Tag::DefinitionList | pd::Tag::DefinitionListTitle
        | pd::Tag::DefinitionListDefinition | pd::Tag::Table(_) | pd::Tag::TableHead
        | pd::Tag::TableRow | pd::Tag::TableCell | pd::Tag::Emphasis | pd::Tag::Strong
        | pd::Tag::Strikethrough | pd::Tag::Superscript | pd::Tag::Subscript
        | pd::Tag::Link { .. } | pd::Tag::Image { .. } | pd::Tag::MetadataBlock(_)) => {
            tag_from(other)
        },
    }
}

/// The `pulldown_cmark::Tag` variants of blocks that carry nothing; the others
/// go to `paragraph_tag_from`.
#[verifier::external_body]
fn block_tag_from(tag: pd::Tag<'_>) -> MdTag {
    match tag {
        pd::Tag::HtmlBlock => MdTag::HtmlBlock,
        pd::Tag::Item => MdTag::Item,
        pd::Tag::DefinitionList => MdTag::DefinitionList,
        pd::Tag::DefinitionListTitle => MdTag::DefinitionListTitle,
        pd::Tag::DefinitionListDefinition => MdTag::DefinitionListDefinition,
        pd::Tag::TableHead => MdTag::TableHead,
        pd::Tag::TableRow => MdTag::TableRow,
        pd::Tag::TableCell => MdTag::TableCell,
        other => paragraph_tag_from(other),
    }
}

/// The `pulldown_cmark::Tag` variants of inline constructs that carry nothing;
/// the others go to `block_tag_from`.
#[verifier::external_body]
fn inline_tag_from(tag: pd::Tag<'_>) -> MdTag {
    match tag {
        pd::Tag::Emphasis => MdTag::Emphasis,
        pd::Tag::Strong => MdTag::Strong,
        pd::Tag::Strikethrough => MdTag::Strikethrough,
        pd::Tag::Superscript => MdTag::Superscript,
        pd::Tag::Subscript => MdTag::Subscript,
        other => block_tag_from(other),
    }
}

/// `pulldown_cmark::Tag::Heading`, without its free attributes; the others go to
/// `inline_tag_from`.
#[verifier::external_body]
fn heading_tag_from(tag: pd::Tag<'_>) -> MdTag {
    match tag {
        pd::Tag::Heading { level, id, classes, .. } => MdTag::Heading {
            level: rank_from(level),
            id: id.map(pd::CowStr::into_string),
            classes: classes.into_iter().map(pd::CowStr::into_string).collect(),
        },
        other => inline_tag_from(other),
    }
}

/// `pulldown_cmark::Tag::Link` and `Image`, without the reference label, and the
/// image without its link type; the others go to `heading_tag_from`.
#[verifier::external_body]
fn linked_tag_from(tag: pd::Tag<'_>) -> MdTag {
    match tag {
        pd::Tag::Link { link_type, dest_url, title, .. } => MdTag::Link {
            kind: link_kind_from(link_type),
            dest_url: dest_url.into_string(),
            title: title.into_string(),
        },
        pd::Tag::Image { dest_url, title, .. } => {
            MdTag::Image { dest_url: dest_url.into_string(), title: title.into_string() }
        },
        other => heading_tag_from(other),
    }
}

/// `pulldown_cmark::Tag`, variant for variant: those with one payload here, the
/// others in `linked_tag_from`. The style of a metadata block is left behind.
#[verifier::external_body]
fn tag_from(tag: pd::Tag<'_>) -> MdTag {
    match tag {
        pd::Tag::BlockQuote(kind) => MdTag::BlockQuote(kind.map(alert_from)),
        pd::Tag::CodeBlock(kind) => MdTag::CodeBlock(info_from(kind)),
        pd::Tag::List(start) => MdTag::List(start),
        pd::Tag::FootnoteDefinition(label) => MdTag::FootnoteDefinition(label.into_string()),
        pd::Tag::Table(columns) => MdTag::Table(columns.into_iter().map(align_from).collect()),
        pd::Tag::MetadataBlock(_) => MdTag::MetadataBlock,
        other => linked_tag_from(other),
    }
}

/// `pulldown_cmark::TagEnd::Paragraph`. The last arm names every other variant:
/// those are converted before they come here, and go back to `kind_from`.
#[verifier::external_body]
fn paragraph_kind_from(end: pd::TagEnd) -> TagKind {
    match end {
        pd::TagEnd::Paragraph => TagKind::Paragraph,
        pd::TagEnd::Heading(_) | pd::TagEnd::BlockQuote(_) | pd::TagEnd::CodeBlock
        | pd::TagEnd::HtmlBlock | pd::TagEnd::List(_) | pd::TagEnd::Item
        | pd::TagEnd::FootnoteDefinition | pd::TagEnd::DefinitionList
        | pd::TagEnd::DefinitionListTitle | pd::TagEnd::DefinitionListDefinition
        | pd::TagEnd::Table | pd::TagEnd::TableHead | pd::TagEnd::TableRow
        | pd::TagEnd::TableCell | pd::TagEnd::Emphasis | pd::TagEnd::Strong
        | pd::TagEnd::Strikethrough | pd::TagEnd::Superscript | pd::TagEnd::Subscript
        | pd::TagEnd::Link | pd::TagEnd::Image | pd::TagEnd::MetadataBlock(_) => kind_from(end),
    }
}

/// The `pulldown_cmark::TagEnd` variants of blocks, a payload left behind; the
/// others go to `paragraph_kind_from`.
#[verifier::external_body]
fn block_kind_from(end: pd::TagEnd) -> TagKind {
    match end {
        pd::TagEnd::Heading(_) => TagKind::Heading,
        pd::TagEnd::BlockQuote(_) => TagKind::BlockQuote,
        pd::TagEnd::CodeBlock => TagKind::CodeBlock,
        pd::TagEnd::HtmlBlock => TagKind::HtmlBlock,
        pd::TagEnd::FootnoteDefinition => TagKind::FootnoteDefinition,
        pd::TagEnd::MetadataBlock(_) => TagKind::MetadataBlock,
        other => paragraph_kind_from(other),
    }
}

/// The `pulldown_cmark::TagEnd` variants of lists and tables; the others go to
/// `block_kind_from`.
#[verifier::external_body]
fn list_kind_from(end: pd::TagEnd) -> TagKind {
    match end {
        pd::TagEnd::List(_) => TagKind::List,
        pd::TagEnd::Item => TagKind::Item,
        pd::TagEnd::DefinitionList => TagKind::DefinitionList,
        pd::TagEnd::DefinitionListTitle => TagKind::DefinitionListTitle,
        pd::TagEnd::DefinitionListDefinition => TagKind::DefinitionListDefinition,
        pd::TagEnd::Table => TagKind::Table,
        pd::TagEnd::TableHead => TagKind::TableHead,
        pd::TagEnd::TableRow => TagKind::TableRow,
        pd::TagEnd::TableCell => TagKind::TableCell,
        other => block_kind_from(other),
    }
}

/// `pulldown_cmark::TagEnd`, variant for variant: inline constructs here, the
/// others in `list_kind_from`.
#[verifier::external_body]
fn kind_from(end: pd::TagEnd) -> TagKind {
    match end {
        pd::TagEnd::Emphasis => TagKind::Emphasis,
        pd::TagEnd::Strong => TagKind::Strong,
        pd::TagEnd::Strikethrough => TagKind::Strikethrough,
        pd::TagEnd::Superscript => TagKind::Superscript,
        pd::TagEnd::Subscript => TagKind::Subscript,
        pd::TagEnd::Link => TagKind::Link,
        pd::TagEnd::Image => TagKind::Image,
        other => list_kind_from(other),
    }
}

/// `pulldown_cmark::Event::Text`. The last arm names every other variant: those
/// are converted before they come here, and go back to `event_from`.
#[verifier::external_body]
fn plain_text_from(event: pd::Event<'_>) -> MdEvent {
    match event {
        pd::Event::Text(s) => MdEvent::Text(s.into_string()),
        other @ (pd::Event::Start(_) | pd::Event::End(_) | pd::Event::Code(_)
        | pd::Event::InlineMath(_) | pd::Event::DisplayMath(_) | pd::Event::Html(_)
        | pd::Event::InlineHtml(_) | pd::Event::FootnoteReference(_) | pd::Event::SoftBreak
        | pd::Event::HardBreak | pd::Event::Rule | pd::Event::TaskListMarker(_)) => {
            event_from(other)
        },
    }
}

/// The `pulldown_cmark::Event` variants that carry a string other than plain
/// text; the others go to `plain_text_from`.
#[verifier::external_body]
fn text_event_from(event: pd::Event<'_>) -> MdEvent {
    match event {
        pd::Event::Code(s) => MdEvent::Code(s.into_string()),
        pd::Event::InlineMath(s) => MdEvent::InlineMath(s.into_string()),
        pd::Event::DisplayMath(s) => MdEvent::DisplayMath(s.into_string()),
        pd::Event::Html(s) => MdEvent::Html(s.into_string()),
        pd::Event::InlineHtml(s) => MdEvent::InlineHtml(s.into_string()),
        pd::Event::FootnoteReference(s) => MdEvent::FootnoteReference(s.into_string()),
        other => plain_text_from(other),
    }
}

/// `pulldown_cmark::Event`, variant for variant: those without a string here,
/// the others in `text_event_from`.
#[verifier::external_body]
fn event_from(event: pd::Event<'_>) -> MdEvent {
    match event {
        pd::Event::Start(tag) => MdEvent::Start(tag_from(tag)),
        pd::Event::End(end) => MdEvent::End(kind_from(end)),
        pd::Event::SoftBreak => MdEvent::SoftBreak,
        pd::Event::HardBreak => MdEvent::HardBreak,
        pd::Event::Rule => MdEvent::Rule,
        pd::Event::TaskListMarker(checked) => MdEvent::TaskListMarker(checked),
        other => text_event_from(other),
    }
}

/// Calls `pulldown_cmark::Parser::new_ext` on `text`, with the options that
/// `pulldown_cmark::Options::from_bits_truncate` makes of `options`, and collects
/// what the parser yields. The parser reads nothing but its two arguments, so
/// the events are a function of them: `cmark_events` is its name.
#[verifier::external_body]
pub(crate) fn parse_events(text: &str, options: u32) -> (r: Vec<MdEvent>)
    ensures
        r@ == cmark_events(text@, options),
{
    let options = pd::Options::from_bits_truncate(options);
    pd::Parser::new_ext(text, options).map(event_from).collect()
}

} // verus!
