//! Streams that are well nested, and what they are rendered to by their
//! structure alone.

use crate::event::{MdEvent, MdTag, TagKind};
use crate::footnotes::number_of;
use crate::model::{
    cell_element, checkbox_element, code_element, definition_element, end_tag, heading_element,
    highlights, image_element, link_element, list_element, math_element, quote_element,
    raw_labels, raw_piece, reference_element, start_tag, step, styled, State, Step,
};
use crate::node::{ElementView, NodeView};
use crate::styling::StyleView;
use vstd::prelude::*;

verus! {

/// A well-nested piece of a stream: nothing; a leaf event and what follows it;
/// or a construct with what it holds, and what follows it.
pub enum Markup {
    Empty,
    Leaf(MdEvent, Box<Markup>),
    Span(MdTag, Box<Markup>, Box<Markup>),
}

/// The kind of `End` that closes what `tag` opens.
pub open spec fn kind_of(tag: MdTag) -> TagKind {
    match tag {
        MdTag::Paragraph => TagKind::Paragraph,
        MdTag::Heading { .. } => TagKind::Heading,
        MdTag::BlockQuote(_) => TagKind::BlockQuote,
        MdTag::CodeBlock(_) => TagKind::CodeBlock,
        MdTag::HtmlBlock => TagKind::HtmlBlock,
        MdTag::List(_) => TagKind::List,
        MdTag::Item => TagKind::Item,
        MdTag::FootnoteDefinition(_) => TagKind::FootnoteDefinition,
        MdTag::DefinitionList => TagKind::DefinitionList,
        MdTag::DefinitionListTitle => TagKind::DefinitionListTitle,
        MdTag::DefinitionListDefinition => TagKind::DefinitionListDefinition,
        MdTag::Table(_) => TagKind::Table,
        MdTag::TableHead => TagKind::TableHead,
        MdTag::TableRow => TagKind::TableRow,
        MdTag::TableCell => TagKind::TableCell,
        MdTag::Emphasis => TagKind::Emphasis,
        MdTag::Strong => TagKind::Strong,
        MdTag::Strikethrough => TagKind::Strikethrough,
        MdTag::Superscript => TagKind::Superscript,
        MdTag::Subscript => TagKind::Subscript,
        MdTag::Link { .. } => TagKind::Link,
        MdTag::Image { .. } => TagKind::Image,
        MdTag::MetadataBlock => TagKind::MetadataBlock,
    }
}

/// The events of a piece, in order: each construct between its `Start` and the
/// `End` of its kind.
pub open spec fn flatten(m: Markup) -> Seq<MdEvent>
    decreases m,
{
    match m {
        Markup::Empty => Seq::empty(),
        Markup::Leaf(event, rest) => seq![event] + flatten(*rest),
        Markup::Span(tag, inner, rest) => seq![MdEvent::Start(tag)] + flatten(*inner)
            + seq![MdEvent::End(kind_of(tag))] + flatten(*rest),
    }
}

/// Whether an event is neither `Start` nor `End`.
pub open spec fn is_leaf(event: MdEvent) -> bool {
    !(event is Start) && !(event is End)
}

/// Whether every leaf of the piece is a leaf event.
pub open spec fn leaves_are_leaves(m: Markup) -> bool
    decreases m,
{
    match m {
        Markup::Empty => true,
        Markup::Leaf(event, rest) => is_leaf(event) && leaves_are_leaves(*rest),
        Markup::Span(_, inner, rest) => leaves_are_leaves(*inner) && leaves_are_leaves(*rest),
    }
}

/// Whether the piece is well nested: its leaves are leaf events, a table holds
/// its head first, and a table head stands nowhere else.
pub open spec fn well_nested(m: Markup) -> bool
    decreases m,
{
    match m {
        Markup::Empty => true,
        Markup::Leaf(event, rest) => is_leaf(event) && well_nested(*rest),
        Markup::Span(tag, inner, rest) => well_nested(*rest) && match tag {
            MdTag::TableHead => false,
            MdTag::Table(_) => match *inner {
                Markup::Span(MdTag::TableHead, cells, body) => well_nested(*cells) && well_nested(
                    *body,
                ),
                _ => false,
            },
            MdTag::Image { .. } => leaves_are_leaves(*inner),
            _ => well_nested(*inner),
        },
    }
}

/// What flattening a piece to text gives: the text, and the footnote labels.
pub open spec fn raw_of(m: Markup, labels: Seq<Seq<char>>, text: Seq<char>) -> (
    Seq<char>,
    Seq<Seq<char>>,
)
    decreases m,
{
    match m {
        Markup::Empty => (text, labels),
        Markup::Leaf(event, rest) => raw_of(
            *rest,
            raw_labels(event, labels),
            text + raw_piece(event, labels),
        ),
        Markup::Span(_, inner, rest) => {
            let within = raw_of(*inner, labels, text);
            raw_of(*rest, within.1, within.0)
        },
    }
}

/// The elements that `Start(tag)` opens in `st`, the outermost first.
#[verifier::opaque]
pub open spec fn frames(st: State, tag: MdTag, styling: StyleView) -> Seq<ElementView> {
    match tag {
        MdTag::HtmlBlock => Seq::empty(),
        MdTag::MetadataBlock => Seq::empty(),
        MdTag::Image { .. } => Seq::empty(),
        MdTag::Paragraph => seq![styled("p"@, styling.p)],
        MdTag::Heading { level, id, classes } => seq![
            heading_element(level, id, classes@, styling),
        ],
        MdTag::Table(_) => seq![styled("table"@, styling.table)],
        MdTag::TableHead => seq![styled("thead"@, styling.thead), styled("tr"@, styling.tr)],
        MdTag::TableRow => seq![styled("tr"@, styling.tr)],
        MdTag::TableCell => seq![cell_element(st.tables, styling)],
        MdTag::CodeBlock(info) => if st.highlighting {
            seq![styled("pre"@, styling.codeblock)]
        } else {
            seq![styled("pre"@, styling.codeblock), code_element(info)]
        },
        MdTag::BlockQuote(kind) => seq![quote_element(kind, styling)],
        MdTag::List(start) => seq![list_element(start, styling)],
        MdTag::Item => seq![styled("li"@, styling.li)],
        MdTag::DefinitionList => seq![styled("dl"@, styling.dl)],
        MdTag::DefinitionListTitle => seq![styled("dt"@, styling.dt)],
        MdTag::DefinitionListDefinition => seq![styled("dd"@, styling.dd)],
        MdTag::Subscript => seq![styled("sub"@, styling.sub)],
        MdTag::Superscript => seq![styled("sup"@, styling.sup)],
        MdTag::Emphasis => seq![styled("em"@, styling.em)],
        MdTag::Strong => seq![styled("strong"@, styling.strong)],
        MdTag::Strikethrough => seq![styled("del"@, styling.del)],
        MdTag::Link { kind, dest_url, title } => seq![
            link_element(kind, dest_url@, title@, styling),
        ],
        MdTag::FootnoteDefinition(label) => seq![
            definition_element(label@, number_of(st.labels, label@), styling),
        ],
    }
}

/// `nodes` inside the elements `opened`, the first of them outermost: the
/// innermost element gets `nodes` behind the children it has, and each other
/// element gets the next one as a child. Without elements, `nodes` themselves.
pub open spec fn wrapped(opened: Seq<ElementView>, nodes: Seq<NodeView>) -> Seq<NodeView>
    decreases opened.len(),
{
    if opened.len() == 0 {
        nodes
    } else {
        wrapped(
            opened.drop_last(),
            seq![NodeView::Element(opened.last().with_children(nodes))],
        )
    }
}

/// The nodes that a leaf event in `st` adds to the innermost element.
#[verifier::opaque]
pub open spec fn leaf_nodes(
    st: State,
    event: MdEvent,
    styling: StyleView,
    blocks: Seq<Seq<NodeView>>,
) -> Seq<NodeView> {
    match event {
        MdEvent::Text(s) => if highlights(st) {
            if blocks.len() > 0 {
                blocks[0]
            } else {
                Seq::empty()
            }
        } else if st.non_writing {
            Seq::empty()
        } else {
            seq![NodeView::Text(s@)]
        },
        MdEvent::Code(s) => seq![NodeView::Element(ElementView::new("code"@).child_text(s@))],
        MdEvent::InlineMath(s) => seq![NodeView::Element(math_element(false, s@))],
        MdEvent::DisplayMath(s) => seq![NodeView::Element(math_element(true, s@))],
        MdEvent::SoftBreak => seq![NodeView::Text(" "@)],
        MdEvent::HardBreak => seq![NodeView::Element(ElementView::new("br"@))],
        MdEvent::Rule => seq![NodeView::Element(ElementView::new("hr"@))],
        MdEvent::FootnoteReference(label) => seq![
            NodeView::Element(reference_element(label@, number_of(st.labels, label@), styling)),
        ],
        MdEvent::TaskListMarker(checked) => seq![NodeView::Element(checkbox_element(checked))],
        _ => Seq::empty(),
    }
}

/// A table: its head, one row of cells, then its body.
pub open spec fn table_node(
    head: Seq<NodeView>,
    body: Seq<NodeView>,
    styling: StyleView,
) -> NodeView {
    let row = styled("tr"@, styling.tr).with_children(head);
    let thead = styled("thead"@, styling.thead).child(NodeView::Element(row));
    let tbody = styled("tbody"@, styling.tbody).with_children(body);
    NodeView::Element(
        styled("table"@, styling.table).child(NodeView::Element(thead)).child(
            NodeView::Element(tbody),
        ),
    )
}

/// The state behind `Start(tag)`, for a tag that is no image.
#[verifier::opaque]
pub open spec fn opened(st: State, tag: MdTag, styling: StyleView) -> State {
    start_tag(st, tag, Seq::empty(), styling).0
}

/// The state behind `End(kind)`.
#[verifier::opaque]
pub open spec fn closed(st: State, kind: TagKind, styling: StyleView) -> State {
    end_tag(st, kind, styling)
}

/// The state behind a leaf event, with the highlighted blocks that are left.
#[verifier::opaque]
pub open spec fn after_leaf(
    st: State,
    event: MdEvent,
    styling: StyleView,
    blocks: Seq<Seq<NodeView>>,
) -> Step {
    step(st, seq![event], styling, blocks)
}

/// The element of an image that holds `inner`.
pub open spec fn image_node(st: State, tag: MdTag, inner: Markup, styling: StyleView) -> NodeView
    recommends
        tag is Image,
{
    NodeView::Element(
        image_element(
            tag->Image_dest_url@,
            raw_of(inner, st.labels, Seq::empty()).0,
            tag->Image_title@,
            styling,
        ),
    )
}

/// The state behind an image that holds `inner`.
#[verifier::opaque]
pub open spec fn after_image(st: State, tag: MdTag, inner: Markup, styling: StyleView) -> State
    recommends
        tag is Image,
{
    State { labels: raw_of(inner, st.labels, Seq::empty()).1, ..st }.add_child(
        image_node(st, tag, inner, styling),
    )
}

/// What a piece is rendered to: the nodes, in the shape of the nesting; the
/// state behind the piece; and the highlighted blocks that are left.
pub struct Rendered {
    pub nodes: Seq<NodeView>,
    pub state: State,
    pub blocks: Seq<Seq<NodeView>>,
}

/// Renders a piece by its structure. A leaf gives the nodes of its event. A
/// construct gives the elements that it opens, around what it holds; an image
/// gives one element, with what it holds flattened to its alternative text; a
/// table gives one element of a head and a body.
pub open spec fn render(
    m: Markup,
    st: State,
    styling: StyleView,
    blocks: Seq<Seq<NodeView>>,
) -> Rendered
    decreases m,
{
    match m {
        Markup::Empty => Rendered { nodes: Seq::empty(), state: st, blocks },
        Markup::Leaf(event, rest) => {
            let next = after_leaf(st, event, styling, blocks);
            let after = render(*rest, next.state, styling, next.blocks);
            Rendered { nodes: leaf_nodes(st, event, styling, blocks) + after.nodes, ..after }
        },
        Markup::Span(tag, inner, rest) => match tag {
            MdTag::Image { .. } => {
                let after = render(*rest, after_image(st, tag, *inner, styling), styling, blocks);
                Rendered {
                    nodes: seq![image_node(st, tag, *inner, styling)] + after.nodes,
                    ..after
                }
            },
            MdTag::Table(_) => match *inner {
                Markup::Span(MdTag::TableHead, cells, body) => {
                    let begun = opened(opened(st, tag, styling), MdTag::TableHead, styling);
                    let head = render(*cells, begun, styling, blocks);
                    let middle = closed(head.state, TagKind::TableHead, styling);
                    let rows = render(*body, middle, styling, head.blocks);
                    let after = render(
                        *rest,
                        closed(rows.state, TagKind::Table, styling),
                        styling,
                        rows.blocks,
                    );
                    Rendered {
                        nodes: seq![table_node(head.nodes, rows.nodes, styling)] + after.nodes,
                        ..after
                    }
                },
                _ => Rendered { nodes: Seq::empty(), state: st, blocks },
            },
            _ => {
                let within = render(*inner, opened(st, tag, styling), styling, blocks);
                let after = render(
                    *rest,
                    closed(within.state, kind_of(tag), styling),
                    styling,
                    within.blocks,
                );
                Rendered {
                    nodes: wrapped(frames(st, tag, styling), within.nodes) + after.nodes,
                    ..after
                }
            },
        },
    }
}

/// The stack with `nodes` behind the children of its innermost element.
pub open spec fn extended(stack: Seq<ElementView>, nodes: Seq<NodeView>) -> Seq<ElementView> {
    stack.drop_last().push(stack.last().with_children(nodes))
}

} // verus!
