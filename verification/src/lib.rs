//! Renders CommonMark to a tree of elements and text.
//!
//! A document is parsed to a stream of events, and the events are folded into
//! one tree under a `div`. The events need not be well nested: an `End` that
//! finds nothing to close is recorded and skipped, and the conversion goes on.
//!
//! - `event`, `node`, `styling`, `options`: the data.
//! - `markdown`: the parser, `pulldown_cmark`; `highlighting`: the highlighter,
//!   `syntect`.
//! - `model`: what the tree of a stream is, for every stream, as mathematics.
//! - `generate`: the conversion, which computes what `model` says.
//! - `footnotes`, `table_state`, `text`: the parts that the conversion is made of.
//! - `markup`, `nesting`, `columns`, `absorption`, `numbering`, `wellformed`:
//!   what holds of every conversion, and of the conversion of well-nested
//!   streams.

use vstd::prelude::*;

pub mod absorption;
pub mod columns;
pub mod event;
pub mod footnotes;
pub mod generate;
pub mod highlighting;
pub mod markdown;
pub mod markup;
pub mod model;
pub mod nesting;
pub mod node;
pub mod numbering;
pub mod options;
pub mod styling;
pub mod table_state;
pub mod text;
pub mod wellformed;

pub use crate::event::{AlertKind, ColumnAlign, HeadingRank, LinkKind, MdEvent, MdTag, TagKind};
pub use crate::generate::{convert, convert_given, generate_tree, Conversion};
pub use crate::model::Anomaly;
pub use crate::node::{Element, Node};
pub use crate::options::Options;
pub use crate::styling::{CMarkStyle, Css, CssGroup};

use crate::generate::highlighted_with;
use crate::markdown::{cmark_events, parse_events};
use crate::model::{outcome_of, tree_of};
use crate::node::{node_well_formed, NodeView};
use crate::options::ENABLE_TABLES;
use crate::styling::StyleView;

verus! {

/// Converts a CommonMark string to a tree, with tables enabled and nothing else,
/// and without styles.
pub fn to_vertigo(text: &str) -> (r: Node)
    ensures
        r@ == NodeView::Element(
            tree_of(cmark_events(text@, ENABLE_TABLES), StyleView::plain()),
        ),
        node_well_formed(r@),
{
    to_vertigo_opts(text, Options::enable_tables())
}

/// Converts a CommonMark string to a tree, with the extensions of `opts` and
/// without styles.
pub fn to_vertigo_opts(text: &str, opts: Options) -> (r: Node)
    ensures
        r@ == NodeView::Element(tree_of(cmark_events(text@, opts.bits), StyleView::plain())),
        node_well_formed(r@),
{
    generate_tree(parse_events(text, opts.bits), CMarkStyle::default())
}

/// Converts a CommonMark string to a tree, with tables enabled and nothing else,
/// and with the styles of `style`.
pub fn to_vertigo_styled(text: &str, style: CMarkStyle) -> (r: Node)
    ensures
        r@ == NodeView::Element(tree_of(cmark_events(text@, ENABLE_TABLES), style@)),
        node_well_formed(r@),
{
    generate_tree(parse_events(text, ENABLE_TABLES), style)
}

/// Converts a CommonMark string to a tree, with the extensions of `opts` and the
/// styles of `style`.
pub fn to_vertigo_opts_styled(text: &str, opts: Options, style: CMarkStyle) -> (r: Node)
    ensures
        r@ == NodeView::Element(tree_of(cmark_events(text@, opts.bits), style@)),
        node_well_formed(r@),
{
    generate_tree(parse_events(text, opts.bits), style)
}

/// Converts a CommonMark string to a tree, with the extensions of `opts` and the
/// styles of `style`, and returns what went wrong beside the tree. With
/// `highlighting`, the text of code blocks is coloured by the highlighter: then
/// the tree is that of the events with some blocks of runs in place of that
/// text, whatever the highlighter made of it.
pub fn to_vertigo_report(
    text: &str,
    opts: Options,
    style: &CMarkStyle,
    highlighting: bool,
) -> (r: Conversion)
    ensures
        !highlighting ==> r@ == outcome_of(
            cmark_events(text@, opts.bits),
            style@,
            false,
            Seq::empty(),
        ),
        highlighting ==> exists|blocks: Seq<Seq<NodeView>>|
            highlighted_with(cmark_events(text@, opts.bits), style@, blocks) && r@
                == #[trigger] outcome_of(
                cmark_events(text@, opts.bits),
                style@,
                true,
                blocks,
            ),
        r@.root.well_formed(),
{
    convert(&parse_events(text, opts.bits), style, highlighting)
}

} // verus!
