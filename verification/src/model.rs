//! What the conversion computes, as mathematics: the state that is carried from
//! event to event, what each event does to it, and the tree that is left when
//! the events have run out.

use crate::event::{AlertKind, HeadingRank, LinkKind, MdEvent, MdTag, TagKind};
use crate::footnotes::{number_of, touch};
use crate::node::{ElementView, NodeView};
use crate::styling::{CssGroupView, StyleView};
use crate::table_state::{
    alignment_name, cell_ended, column_alignment, columns_within, head_begun, head_ended,
    in_head, row_begun, table_closed, table_opened, TableContextView,
};
use crate::text::{decimal, first_word, joined, views};
use vstd::prelude::*;

verus! {

/// What went wrong on the way, without stopping the conversion.
#[derive(Clone, Copy, Debug, PartialEq, Eq)]
pub enum Anomaly {
    /// An `End` came that closes more elements than are open inside the
    /// container. It was skipped.
    DanglingEnd(TagKind),
    /// When the events ran out, elements were still open inside the container.
    /// An empty container was returned in place of the tree.
    NoRoot,
}

/// The state of a conversion between two events.
pub struct State {
    /// Whether the text of code blocks is handed to the highlighter.
    pub highlighting: bool,
    /// Whether a metadata block is open: text is then dropped.
    pub non_writing: bool,
    /// The open tables, the innermost last.
    pub tables: Seq<TableContextView>,
    /// The footnote labels in the order of their first touch.
    pub labels: Seq<Seq<char>>,
    /// The elements under construction, the container first, the innermost last.
    pub stack: Seq<ElementView>,
    /// The info string of the code block that is open, while highlighting.
    pub code_info: Option<Seq<char>>,
    /// What went wrong so far.
    pub anomalies: Seq<Anomaly>,
}

/// The element `name` with the descriptor `css`, if that is not empty.
pub open spec fn styled(name: Seq<char>, css: Seq<CssGroupView>) -> ElementView {
    ElementView::new(name).css(css)
}

impl State {
    /// The state before the first event: the container is open, nothing else.
    pub open spec fn initial(styling: StyleView, highlighting: bool) -> State {
        State {
            highlighting,
            non_writing: false,
            tables: Seq::empty(),
            labels: Seq::empty(),
            stack: seq![styled("div"@, styling.container)],
            code_info: None,
            anomalies: Seq::empty(),
        }
    }

    /// One more element is under construction.
    pub open spec fn push(self, element: ElementView) -> State {
        State { stack: self.stack.push(element), ..self }
    }

    /// The innermost element gets one more child. Without an open element the
    /// child is dropped.
    pub open spec fn add_child(self, node: NodeView) -> State {
        if self.stack.len() == 0 {
            self
        } else {
            State { stack: self.stack.drop_last().push(self.stack.last().child(node)), ..self }
        }
    }

    /// The innermost element gets `nodes` as further children, in order.
    pub open spec fn add_children(self, nodes: Seq<NodeView>) -> State {
        if self.stack.len() == 0 {
            self
        } else {
            State {
                stack: self.stack.drop_last().push(self.stack.last().with_children(nodes)),
                ..self
            }
        }
    }

    /// The innermost element is finished and becomes the last child of the one
    /// below it. The container is never finished this way: where it is the only
    /// element, nothing changes.
    pub open spec fn pop(self) -> State {
        if self.stack.len() < 2 {
            self
        } else {
            let child = self.stack.last();
            let below = self.stack.drop_last();
            State {
                stack: below.drop_last().push(below.last().child(NodeView::Element(child))),
                ..self
            }
        }
    }

    /// How many elements are open inside the container.
    pub open spec fn depth(self) -> int {
        self.stack.len() - 1
    }
}

/// The tag name of a heading.
pub open spec fn heading_name(level: HeadingRank) -> Seq<char> {
    match level {
        HeadingRank::H1 => "h1"@,
        HeadingRank::H2 => "h2"@,
        HeadingRank::H3 => "h3"@,
        HeadingRank::H4 => "h4"@,
        HeadingRank::H5 => "h5"@,
        HeadingRank::H6 => "h6"@,
    }
}

/// The descriptor of a heading.
pub open spec fn heading_css(level: HeadingRank, styling: StyleView) -> Seq<CssGroupView> {
    match level {
        HeadingRank::H1 => styling.h1,
        HeadingRank::H2 => styling.h2,
        HeadingRank::H3 => styling.h3,
        HeadingRank::H4 => styling.h4,
        HeadingRank::H5 => styling.h5,
        HeadingRank::H6 => styling.h6,
    }
}

/// A heading: its id, if it has one, then its classes joined by single spaces,
/// if it has any.
pub open spec fn heading_element(
    level: HeadingRank,
    id: Option<String>,
    classes: Seq<String>,
    styling: StyleView,
) -> ElementView {
    let e = ElementView::new(heading_name(level));
    let e = match id {
        Some(id) => e.attr("id"@, id@),
        None => e,
    };
    let e = if classes.len() > 0 {
        e.attr("class"@, joined(views(classes), " "@))
    } else {
        e
    };
    e.css(heading_css(level, styling))
}

/// A table cell: `th` in the head and `td` in the body, aligned as its column.
pub open spec fn cell_element(tables: Seq<TableContextView>, styling: StyleView) -> ElementView {
    let e = if in_head(tables) {
        ElementView::new("th"@)
    } else {
        ElementView::new("td"@)
    };
    let e = match alignment_name(column_alignment(tables)) {
        Some(name) => e.attr("style"@, "text-align: "@ + name),
        None => e,
    };
    if in_head(tables) {
        e.css(styling.th)
    } else {
        e.css(styling.td)
    }
}

/// The `code` element of a code block: the first word of the info string names
/// the language, unless it is empty.
pub open spec fn code_element(info: Option<String>) -> ElementView {
    let e = ElementView::new("code"@);
    match info {
        Some(info) => if first_word(info@).len() > 0 {
            e.attr("class"@, "language-"@ + first_word(info@))
        } else {
            e
        },
        None => e,
    }
}

/// The class of an alert block quote.
pub open spec fn alert_class(kind: AlertKind) -> Seq<char> {
    match kind {
        AlertKind::Note => "markdown-alert-note"@,
        AlertKind::Tip => "markdown-alert-tip"@,
        AlertKind::Important => "markdown-alert-important"@,
        AlertKind::Warning => "markdown-alert-warning"@,
        AlertKind::Caution => "markdown-alert-caution"@,
    }
}

/// A block quote, with the class of its alert kind if it has one.
pub open spec fn quote_element(kind: Option<AlertKind>, styling: StyleView) -> ElementView {
    let e = ElementView::new("blockquote"@);
    let e = match kind {
        Some(kind) => e.attr("class"@, alert_class(kind)),
        None => e,
    };
    e.css(styling.blockquote)
}

/// A list: unordered without a start number; ordered with one, which is written
/// out unless it is 1.
pub open spec fn list_element(start: Option<u64>, styling: StyleView) -> ElementView {
    match start {
        None => styled("ul"@, styling.ul),
        Some(n) => if n == 1 {
            styled("ol"@, styling.ol)
        } else {
            ElementView::new("ol"@).attr("start"@, decimal(n as nat)).css(styling.ol)
        },
    }
}

/// An anchor: the destination, behind `mailto:` for an email link, and the
/// title unless it is empty.
pub open spec fn link_element(
    kind: LinkKind,
    dest_url: Seq<char>,
    title: Seq<char>,
    styling: StyleView,
) -> ElementView {
    let href = if kind == LinkKind::Email {
        "mailto:"@ + dest_url
    } else {
        dest_url
    };
    let e = ElementView::new("a"@).attr("href"@, href);
    let e = if title.len() > 0 {
        e.attr("title"@, title)
    } else {
        e
    };
    e.css(styling.a)
}

/// An image: source, alternative text, and the title unless it is empty.
pub open spec fn image_element(
    dest_url: Seq<char>,
    alt: Seq<char>,
    title: Seq<char>,
    styling: StyleView,
) -> ElementView {
    let e = ElementView::new("img"@).attr("src"@, dest_url).attr("alt"@, alt).css(styling.img);
    if title.len() > 0 {
        e.attr("title"@, title)
    } else {
        e
    }
}

/// The label that a footnote definition starts with: a superscript that holds
/// the number, with the descriptor of superscripts.
pub open spec fn definition_label(number: nat, styling: StyleView) -> ElementView {
    ElementView::new("sup"@).attr("class"@, "footnote-definition-label"@).child_text(
        decimal(number),
    ).css(styling.sup)
}

/// The container of a footnote definition, with its label as first child.
pub open spec fn definition_element(
    label: Seq<char>,
    number: nat,
    styling: StyleView,
) -> ElementView {
    ElementView::new("div"@).attr("class"@, "footnote-definition"@).attr("id"@, label).child(
        NodeView::Element(definition_label(number, styling)),
    )
}

/// A footnote reference: a superscript around a link to the definition, whose
/// text is the number.
pub open spec fn reference_element(
    label: Seq<char>,
    number: nat,
    styling: StyleView,
) -> ElementView {
    let link = ElementView::new("a"@).attr("href"@, "#"@ + label).child_text(decimal(number));
    ElementView::new("sup"@).attr("class"@, "footnote-reference"@).child(
        NodeView::Element(link),
    ).css(styling.sup)
}

/// The box of a task list item.
pub open spec fn checkbox_element(checked: bool) -> ElementView {
    let e = ElementView::new("input"@).attr("disabled"@, ""@).attr("type"@, "checkbox"@);
    if checked {
        e.attr("checked"@, "checked"@)
    } else {
        e
    }
}

/// A formula: a `span` of class `math math-display` or `math math-inline`.
pub open spec fn math_element(display: bool, source: Seq<char>) -> ElementView {
    let class = if display {
        "math math-display"@
    } else {
        "math math-inline"@
    };
    ElementView::new("span"@).attr("class"@, class).child_text(source)
}

/// What flattening a piece of the stream to text gives: the text, the events that
/// are left behind it, and the footnote labels.
pub struct RawText {
    pub text: Seq<char>,
    pub rest: Seq<MdEvent>,
    pub labels: Seq<Seq<char>>,
}

/// What one leaf event adds to flattened text. A footnote reference adds its
/// number in square brackets, and touches its label.
pub open spec fn raw_piece(event: MdEvent, labels: Seq<Seq<char>>) -> Seq<char> {
    match event {
        MdEvent::InlineHtml(s) => s@,
        MdEvent::Code(s) => s@,
        MdEvent::Text(s) => s@,
        MdEvent::InlineMath(s) => "$"@ + s@ + "$"@,
        MdEvent::DisplayMath(s) => "$$"@ + s@ + "$$"@,
        MdEvent::SoftBreak => " "@,
        MdEvent::HardBreak => " "@,
        MdEvent::Rule => " "@,
        MdEvent::FootnoteReference(label) => "["@ + decimal(number_of(labels, label@)) + "]"@,
        MdEvent::TaskListMarker(checked) => if checked {
            "[x]"@
        } else {
            "[ ]"@
        },
        _ => Seq::empty(),
    }
}

/// The footnote labels after one event of flattened text.
pub open spec fn raw_labels(event: MdEvent, labels: Seq<Seq<char>>) -> Seq<Seq<char>> {
    match event {
        MdEvent::FootnoteReference(label) => touch(labels, label@),
        _ => labels,
    }
}

/// Flattens the events up to the `End` that closes the construct whose `Start`
/// was just read: `nest` counts the constructs opened since. The closing `End`
/// is consumed. Where the events run out first, all of them are consumed.
pub open spec fn raw_text(
    events: Seq<MdEvent>,
    nest: nat,
    labels: Seq<Seq<char>>,
    text: Seq<char>,
) -> RawText
    decreases events.len(),
{
    if events.len() == 0 {
        RawText { text, rest: events, labels }
    } else {
        let rest = events.drop_first();
        match events[0] {
            MdEvent::Start(_) => raw_text(rest, nest + 1, labels, text),
            MdEvent::End(_) => if nest == 0 {
                RawText { text, rest, labels }
            } else {
                raw_text(rest, (nest - 1) as nat, labels, text)
            },
            event => raw_text(
                rest,
                nest,
                raw_labels(event, labels),
                text + raw_piece(event, labels),
            ),
        }
    }
}

/// The state after `Start(tag)`, and the events that follow: those behind the
/// `Start`, but for an image, whose content is consumed with it.
pub open spec fn start_tag(
    st: State,
    tag: MdTag,
    rest: Seq<MdEvent>,
    styling: StyleView,
) -> (State, Seq<MdEvent>) {
    match tag {
        MdTag::HtmlBlock => (st, rest),
        MdTag::Paragraph => (st.push(styled("p"@, styling.p)), rest),
        MdTag::Heading { level, id, classes } => (
            st.push(heading_element(level, id, classes@, styling)),
            rest,
        ),
        MdTag::Table(alignments) => (
            State { tables: table_opened(st.tables, alignments@), ..st }.push(
                styled("table"@, styling.table),
            ),
            rest,
        ),
        MdTag::TableHead => (
            State { tables: head_begun(st.tables), ..st }.push(
                styled("thead"@, styling.thead),
            ).push(styled("tr"@, styling.tr)),
            rest,
        ),
        MdTag::TableRow => (
            State { tables: row_begun(st.tables), ..st }.push(styled("tr"@, styling.tr)),
            rest,
        ),
        MdTag::TableCell => (st.push(cell_element(st.tables, styling)), rest),
        MdTag::CodeBlock(info) => if st.highlighting {
            (
                State {
                    code_info: Some(
                        match info {
                            Some(info) => info@,
                            None => Seq::empty(),
                        },
                    ),
                    ..st
                }.push(styled("pre"@, styling.codeblock)),
                rest,
            )
        } else {
            (st.push(styled("pre"@, styling.codeblock)).push(code_element(info)), rest)
        },
        MdTag::BlockQuote(kind) => (st.push(quote_element(kind, styling)), rest),
        MdTag::List(start) => (st.push(list_element(start, styling)), rest),
        MdTag::Item => (st.push(styled("li"@, styling.li)), rest),
        MdTag::DefinitionList => (st.push(styled("dl"@, styling.dl)), rest),
        MdTag::DefinitionListTitle => (st.push(styled("dt"@, styling.dt)), rest),
        MdTag::DefinitionListDefinition => (st.push(styled("dd"@, styling.dd)), rest),
        MdTag::Subscript => (st.push(styled("sub"@, styling.sub)), rest),
        MdTag::Superscript => (st.push(styled("sup"@, styling.sup)), rest),
        MdTag::Emphasis => (st.push(styled("em"@, styling.em)), rest),
        MdTag::Strong => (st.push(styled("strong"@, styling.strong)), rest),
        MdTag::Strikethrough => (st.push(styled("del"@, styling.del)), rest),
        MdTag::Link { kind, dest_url, title } => (
            st.push(link_element(kind, dest_url@, title@, styling)),
            rest,
        ),
        MdTag::Image { dest_url, title } => {
            let raw = raw_text(rest, 0, st.labels, Seq::empty());
            (
                State { labels: raw.labels, ..st }.add_child(
                    NodeView::Element(image_element(dest_url@, raw.text, title@, styling)),
                ),
                raw.rest,
            )
        },
        MdTag::FootnoteDefinition(label) => (
            State { labels: touch(st.labels, label@), ..st }.push(
                definition_element(label@, number_of(st.labels, label@), styling),
            ),
            rest,
        ),
        MdTag::MetadataBlock => (State { non_writing: true, ..st }, rest),
    }
}

/// How many open elements an `End` of this kind closes.
pub open spec fn closes(kind: TagKind, highlighting: bool) -> nat {
    match kind {
        TagKind::HtmlBlock => 0,
        TagKind::Image => 0,
        TagKind::MetadataBlock => 0,
        TagKind::Table => 2,
        TagKind::TableHead => 2,
        TagKind::CodeBlock => if highlighting {
            1
        } else {
            2
        },
        _ => 1,
    }
}

/// Whether `End(kind)` is dangling in `st`: it closes more elements than are
/// open inside the container. Only the count of the open elements decides, not
/// their kind: an `End` closes the innermost open elements whatever opened
/// them, so an `End` of one kind that comes while an element of another kind is
/// open closes that element, and is no anomaly.
pub open spec fn dangling(st: State, kind: TagKind) -> bool {
    st.depth() < closes(kind, st.highlighting)
}

/// The state after `End(kind)`. A dangling `End` is recorded and changes nothing
/// else.
pub open spec fn end_tag(st: State, kind: TagKind, styling: StyleView) -> State {
    if dangling(st, kind) {
        State { anomalies: st.anomalies.push(Anomaly::DanglingEnd(kind)), ..st }
    } else {
        match kind {
            TagKind::HtmlBlock => st,
            TagKind::Image => st,
            TagKind::MetadataBlock => State { non_writing: false, ..st },
            TagKind::Table => State { tables: table_closed(st.tables), ..st }.pop().pop(),
            TagKind::TableHead => State { tables: head_ended(st.tables), ..st }.pop().pop().push(
                styled("tbody"@, styling.tbody),
            ),
            TagKind::TableCell => State { tables: cell_ended(st.tables), ..st }.pop(),
            TagKind::CodeBlock => if st.highlighting {
                State { code_info: None, ..st }.pop()
            } else {
                st.pop().pop()
            },
            _ => st.pop(),
        }
    }
}

/// Whether the text of `st` goes to the highlighter.
pub open spec fn highlights(st: State) -> bool {
    !st.non_writing && st.highlighting && st.code_info is Some
}

/// The state after an event that is neither `Start` nor `End`, where its text
/// does not go to the highlighter.
pub open spec fn leaf(st: State, event: MdEvent, styling: StyleView) -> State {
    match event {
        MdEvent::Text(s) => if st.non_writing {
            st
        } else {
            st.add_child(NodeView::Text(s@))
        },
        MdEvent::Code(s) => st.add_child(
            NodeView::Element(ElementView::new("code"@).child_text(s@)),
        ),
        MdEvent::InlineMath(s) => st.add_child(NodeView::Element(math_element(false, s@))),
        MdEvent::DisplayMath(s) => st.add_child(NodeView::Element(math_element(true, s@))),
        MdEvent::SoftBreak => st.add_child(NodeView::Text(" "@)),
        MdEvent::HardBreak => st.add_child(NodeView::Element(ElementView::new("br"@))),
        MdEvent::Rule => st.add_child(NodeView::Element(ElementView::new("hr"@))),
        MdEvent::FootnoteReference(label) => State {
            labels: touch(st.labels, label@),
            ..st
        }.add_child(
            NodeView::Element(
                reference_element(label@, number_of(st.labels, label@), styling),
            ),
        ),
        MdEvent::TaskListMarker(checked) => st.add_child(
            NodeView::Element(checkbox_element(checked)),
        ),
        _ => st,
    }
}

/// A state, the events that are left, and the highlighted blocks that are left.
pub struct Step {
    pub state: State,
    pub rest: Seq<MdEvent>,
    pub blocks: Seq<Seq<NodeView>>,
}

/// One step: the first of `events` is handled, with what it consumes. Text that
/// goes to the highlighter is replaced by the first of `blocks`.
pub open spec fn step(
    st: State,
    events: Seq<MdEvent>,
    styling: StyleView,
    blocks: Seq<Seq<NodeView>>,
) -> Step
    recommends
        events.len() > 0,
{
    let rest = events.drop_first();
    match events[0] {
        MdEvent::Start(tag) => {
            let started = start_tag(st, tag, rest, styling);
            Step { state: started.0, rest: started.1, blocks }
        },
        MdEvent::End(kind) => Step { state: end_tag(st, kind, styling), rest, blocks },
        MdEvent::Text(s) => if highlights(st) {
            if blocks.len() > 0 {
                Step { state: st.add_children(blocks[0]), rest, blocks: blocks.drop_first() }
            } else {
                Step { state: st, rest, blocks }
            }
        } else {
            Step { state: leaf(st, events[0], styling), rest, blocks }
        },
        event => Step { state: leaf(st, event, styling), rest, blocks },
    }
}

/// The state after all of `events`.
#[verifier::opaque]
pub open spec fn run(
    st: State,
    events: Seq<MdEvent>,
    styling: StyleView,
    blocks: Seq<Seq<NodeView>>,
) -> State
    decreases events.len(),
{
    if events.len() == 0 {
        st
    } else {
        let next = step(st, events, styling, blocks);
        if next.rest.len() < events.len() {
            run(next.state, next.rest, styling, next.blocks)
        } else {
            next.state
        }
    }
}

/// What the first of `events` hands to the highlighter in `st`: the info string
/// of the open code block and the text, if the event is text that goes there.
pub open spec fn request(st: State, events: Seq<MdEvent>) -> Seq<(Seq<char>, Seq<char>)>
    recommends
        events.len() > 0,
{
    match events[0] {
        MdEvent::Text(s) => if highlights(st) {
            seq![(st.code_info->0, s@)]
        } else {
            Seq::empty()
        },
        _ => Seq::empty(),
    }
}

/// What is handed to the highlighter while `events` are converted from `st`:
/// for each piece of text of a code block, in order, the info string of the
/// block and the text.
#[verifier::opaque]
pub open spec fn requests(
    st: State,
    events: Seq<MdEvent>,
    styling: StyleView,
    blocks: Seq<Seq<NodeView>>,
) -> Seq<(Seq<char>, Seq<char>)>
    decreases events.len(),
{
    if events.len() == 0 {
        Seq::empty()
    } else {
        let next = step(st, events, styling, blocks);
        if next.rest.len() < events.len() {
            request(st, events) + requests(next.state, next.rest, styling, next.blocks)
        } else {
            request(st, events)
        }
    }
}

/// What a conversion gives: the root of the tree, and what went wrong.
pub struct Outcome {
    pub root: ElementView,
    pub anomalies: Seq<Anomaly>,
}

/// The outcome of a state at the end of the events: the container, if it is the
/// only open element; else an empty container, and one more anomaly.
pub open spec fn finish(st: State) -> Outcome {
    if st.stack.len() == 1 {
        Outcome { root: st.stack[0], anomalies: st.anomalies }
    } else {
        Outcome { root: ElementView::new("div"@), anomalies: st.anomalies.push(Anomaly::NoRoot) }
    }
}

/// The outcome of converting `events`. With `highlighting`, the text of the
/// code blocks is replaced by `blocks`, one after the other.
pub open spec fn outcome_of(
    events: Seq<MdEvent>,
    styling: StyleView,
    highlighting: bool,
    blocks: Seq<Seq<NodeView>>,
) -> Outcome {
    finish(run(State::initial(styling, highlighting), events, styling, blocks))
}

/// The tree that `events` are rendered to without highlighting.
pub open spec fn tree_of(events: Seq<MdEvent>, styling: StyleView) -> ElementView {
    outcome_of(events, styling, false, Seq::empty()).root
}

/// Flattening consumes: what is left is a suffix of the events.
pub proof fn lemma_raw_text_rest(
    events: Seq<MdEvent>,
    nest: nat,
    labels: Seq<Seq<char>>,
    text: Seq<char>,
)
    ensures
        raw_text(events, nest, labels, text).rest.len() <= events.len(),
        raw_text(events, nest, labels, text).rest == events.skip(
            events.len() - raw_text(events, nest, labels, text).rest.len(),
        ),
    decreases events.len(),
{
    if events.len() == 0 {
        assert(events.skip(0) =~= events);
    } else {
        let rest = events.drop_first();
        let r = raw_text(events, nest, labels, text);
        match events[0] {
            MdEvent::Start(_) => {
                lemma_raw_text_rest(rest, nest + 1, labels, text);
            },
            MdEvent::End(_) => {
                if nest == 0 {
                    assert(rest =~= events.skip(1));
                } else {
                    lemma_raw_text_rest(rest, (nest - 1) as nat, labels, text);
                }
            },
            event => {
                lemma_raw_text_rest(
                    rest,
                    nest,
                    raw_labels(event, labels),
                    text + raw_piece(event, labels),
                );
            },
        }
        let k = events.len() - r.rest.len();
        if k >= 1 {
            assert(rest.skip(k - 1) =~= events.skip(k));
        }
    }
}

/// Every step consumes at least one event.
pub proof fn lemma_step_consumes(
    st: State,
    events: Seq<MdEvent>,
    styling: StyleView,
    blocks: Seq<Seq<NodeView>>,
)
    requires
        events.len() > 0,
    ensures
        step(st, events, styling, blocks).rest.len() < events.len(),
{
    let rest = events.drop_first();
    match events[0] {
        MdEvent::Start(tag) => {
            match tag {
                MdTag::Image { .. } => {
                    lemma_raw_text_rest(rest, 0, st.labels, Seq::empty());
                },
                _ => {},
            }
        },
        _ => {},
    }
}

/// A step moves no column index further than one place beyond a bound that
/// held before it.
pub proof fn lemma_step_columns(
    st: State,
    events: Seq<MdEvent>,
    styling: StyleView,
    blocks: Seq<Seq<NodeView>>,
    bound: nat,
)
    requires
        events.len() > 0,
        columns_within(st.tables, bound),
    ensures
        columns_within(step(st, events, styling, blocks).state.tables, bound + 1),
{
    let after = step(st, events, styling, blocks).state.tables;
    let tables = st.tables;
    assert forall|i: int| 0 <= i < after.len() implies (#[trigger] after[i]).column_index <= bound
        + 1 by {
        match events[0] {
            MdEvent::Start(tag) => {
                if i < tables.len() {
                    assert(tables[i].column_index <= bound);
                }
            },
            MdEvent::End(kind) => {
                if i < tables.len() {
                    assert(tables[i].column_index <= bound);
                }
            },
            _ => {
                assert(after == tables);
                assert(tables[i].column_index <= bound);
            },
        }
    }
}

/// The first of the events behind a place, and what is left behind it.
pub proof fn lemma_skip_first(events: Seq<MdEvent>, pos: int)
    requires
        0 <= pos < events.len(),
    ensures
        events.skip(pos).len() > 0,
        events.skip(pos)[0] == events[pos],
        events.skip(pos).drop_first() == events.skip(pos + 1),
{
    assert(events.skip(pos).drop_first() =~= events.skip(pos + 1));
}

} // verus!
