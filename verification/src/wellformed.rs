//! What holds of every conversion, whatever the events: the attributes of an
//! element are a map, so every element of a converted tree has each of its
//! attributes once; and no footnote label is numbered twice.

use crate::event::{MdEvent, MdTag, TagKind};
use crate::footnotes::{distinct, lemma_touch, number_of};
use crate::highlighting::{all_runs, css_style, is_run, span_element, TextStyle};
use crate::markup::{extended, frames, is_leaf, leaf_nodes};
use crate::model::{
    closes, dangling, definition_label, image_element, lemma_step_consumes, outcome_of,
    raw_labels, raw_piece, raw_text, run, step, styled, Anomaly, State,
};
use crate::nesting::{lemma_end_closes, lemma_leaf_step, lemma_start_opens, popped};
use crate::node::{node_well_formed, nodes_well_formed, ElementView, NodeView};
use crate::styling::StyleView;
use crate::text::decimal;
use vstd::prelude::*;

verus! {

/// Whether every element that is open is well formed.
pub open spec fn stack_well_formed(stack: Seq<ElementView>) -> bool {
    forall|i: int| 0 <= i < stack.len() ==> (#[trigger] stack[i]).well_formed()
}

/// Whether every node of every block is well formed.
pub open spec fn blocks_well_formed(blocks: Seq<Seq<NodeView>>) -> bool {
    forall|i: int| 0 <= i < blocks.len() ==> nodes_well_formed(#[trigger] blocks[i])
}

/// The names of the attributes that the conversion sets differ where they are
/// set on one element.
proof fn lemma_names()
    ensures
        "id"@ != "class"@,
        "src"@ != "alt"@,
        "src"@ != "title"@,
        "alt"@ != "title"@,
        "href"@ != "title"@,
        "disabled"@ != "type"@,
        "disabled"@ != "checked"@,
        "type"@ != "checked"@,
{
    reveal_strlit("id");
    reveal_strlit("class");
    reveal_strlit("src");
    reveal_strlit("alt");
    reveal_strlit("title");
    reveal_strlit("href");
    reveal_strlit("disabled");
    reveal_strlit("type");
    reveal_strlit("checked");
    assert("src"@[0] != "alt"@[0]);
    assert("id"@.len() != "class"@.len());
    assert("src"@.len() != "title"@.len());
    assert("alt"@.len() != "title"@.len());
    assert("href"@.len() != "title"@.len());
    assert("disabled"@.len() != "type"@.len());
    assert("disabled"@.len() != "checked"@.len());
    assert("type"@.len() != "checked"@.len());
}

/// A well-formed child keeps an element well formed.
proof fn lemma_child(element: ElementView, node: NodeView)
    requires
        element.well_formed(),
        node_well_formed(node),
    ensures
        element.child(node).well_formed(),
{
    let after = element.child(node);
    assert forall|i: int| 0 <= i < after.children.len() implies node_well_formed(
        #[trigger] after.children[i],
    ) by {
        if i < element.children.len() {
            assert(after.children[i] == element.children[i]);
        }
    }
}

/// Well-formed children keep an element well formed.
proof fn lemma_children(element: ElementView, nodes: Seq<NodeView>)
    requires
        element.well_formed(),
        nodes_well_formed(nodes),
    ensures
        element.with_children(nodes).well_formed(),
{
    let after = element.with_children(nodes);
    assert forall|i: int| 0 <= i < after.children.len() implies node_well_formed(
        #[trigger] after.children[i],
    ) by {
        if i < element.children.len() {
            assert(after.children[i] == element.children[i]);
        } else {
            assert(after.children[i] == nodes[i - element.children.len()]);
        }
    }
}

/// Each element that the conversion makes has each of its attributes once.
proof fn lemma_elements(
    st: State,
    tag: MdTag,
    event: MdEvent,
    alt: Seq<char>,
    styling: StyleView,
)
    ensures
        forall|i: int|
            0 <= i < frames(st, tag, styling).len() ==> (#[trigger] frames(
                st,
                tag,
                styling,
            )[i]).well_formed(),
        tag is Image ==> image_element(
            tag->Image_dest_url@,
            alt,
            tag->Image_title@,
            styling,
        ).well_formed(),
        styled("tbody"@, styling.tbody).well_formed(),
        forall|blocks: Seq<Seq<NodeView>>|
            blocks_well_formed(blocks) ==> nodes_well_formed(
                #[trigger] leaf_nodes(st, event, styling, blocks),
            ),
{
    lemma_names();
    reveal(frames);
    reveal(leaf_nodes);
    assert forall|i: int| 0 <= i < frames(st, tag, styling).len() implies (#[trigger] frames(
        st,
        tag,
        styling,
    )[i]).well_formed() by {
        match tag {
            MdTag::FootnoteDefinition(label) => {
                let number = number_of(st.labels, label@);
                let bare = ElementView::new("sup"@).attr("class"@, "footnote-definition-label"@);
                lemma_child(bare, NodeView::Text(decimal(number)));
                let inner = definition_label(number, styling);
                let frame = ElementView::new("div"@).attr("class"@, "footnote-definition"@).attr(
                    "id"@,
                    label@,
                );
                lemma_child(frame, NodeView::Element(inner));
            },
            _ => {},
        }
    }
    assert forall|blocks: Seq<Seq<NodeView>>| blocks_well_formed(blocks) implies nodes_well_formed(
        #[trigger] leaf_nodes(st, event, styling, blocks),
    ) by {
        let nodes = leaf_nodes(st, event, styling, blocks);
        assert forall|i: int| 0 <= i < nodes.len() implies node_well_formed(
            #[trigger] nodes[i],
        ) by {
            match event {
                MdEvent::FootnoteReference(label) => {
                    let number = number_of(st.labels, label@);
                    let anchor = ElementView::new("a"@).attr("href"@, "#"@ + label@);
                    lemma_child(anchor, NodeView::Text(decimal(number)));
                    let link = anchor.child_text(decimal(number));
                    let frame = ElementView::new("sup"@).attr("class"@, "footnote-reference"@);
                    lemma_child(frame, NodeView::Element(link));
                },
                MdEvent::Text(_) => {
                    if blocks.len() > 0 {
                        assert(nodes_well_formed(blocks[0]));
                    }
                },
                MdEvent::Code(s) => {
                    lemma_child(ElementView::new("code"@), NodeView::Text(s@));
                },
                MdEvent::InlineMath(s) => {
                    lemma_child(
                        ElementView::new("span"@).attr("class"@, "math math-inline"@),
                        NodeView::Text(s@),
                    );
                },
                MdEvent::DisplayMath(s) => {
                    lemma_child(
                        ElementView::new("span"@).attr("class"@, "math math-display"@),
                        NodeView::Text(s@),
                    );
                },
                _ => {},
            }
        }
    }
}

proof fn lemma_extended(stack: Seq<ElementView>, nodes: Seq<NodeView>)
    requires
        stack.len() >= 1,
        stack_well_formed(stack),
        nodes_well_formed(nodes),
    ensures
        stack_well_formed(extended(stack, nodes)),
{
    let after = extended(stack, nodes);
    lemma_children(stack.last(), nodes);
    assert forall|i: int| 0 <= i < after.len() implies (#[trigger] after[i]).well_formed() by {
        if i < stack.len() - 1 {
            assert(after[i] == stack[i]);
        }
    }
}

proof fn lemma_popped(st: State, n: nat)
    requires
        stack_well_formed(st.stack),
    ensures
        stack_well_formed(popped(st, n).stack),
        st.stack.len() >= 1 ==> popped(st, n).stack.len() >= 1,
    decreases n,
{
    if n > 0 {
        let next = st.pop();
        if st.stack.len() >= 2 {
            let child = st.stack.last();
            let below = st.stack.drop_last();
            assert(child.well_formed());
            assert(below.last() == st.stack[st.stack.len() - 2]);
            lemma_child(below.last(), NodeView::Element(child));
            assert forall|i: int| 0 <= i < next.stack.len() implies (
            #[trigger] next.stack[i]).well_formed() by {
                if i < next.stack.len() - 1 {
                    assert(next.stack[i] == st.stack[i]);
                }
            }
        }
        lemma_popped(next, (n - 1) as nat);
    }
}

/// A step keeps the open elements well formed, if the blocks are.
pub proof fn lemma_step_well_formed(
    st: State,
    events: Seq<MdEvent>,
    styling: StyleView,
    blocks: Seq<Seq<NodeView>>,
)
    requires
        events.len() > 0,
        st.stack.len() >= 1,
        stack_well_formed(st.stack),
        blocks_well_formed(blocks),
    ensures
        step(st, events, styling, blocks).state.stack.len() >= 1,
        stack_well_formed(step(st, events, styling, blocks).state.stack),
        blocks_well_formed(step(st, events, styling, blocks).blocks),
{
    let rest = events.drop_first();
    let next = step(st, events, styling, blocks);
    match events[0] {
        MdEvent::Start(tag) => {
            match tag {
                MdTag::Image { dest_url, title } => {
                    let raw = raw_text(rest, 0, st.labels, Seq::empty());
                    lemma_elements(st, tag, events[0], raw.text, styling);
                    let node = NodeView::Element(
                        image_element(dest_url@, raw.text, title@, styling),
                    );
                    lemma_children(st.stack.last(), seq![node]);
                    assert(st.stack.last().child(node).children =~= st.stack.last().with_children(
                        seq![node],
                    ).children);
                    assert(next.state.stack =~= extended(st.stack, seq![node]));
                    lemma_extended(st.stack, seq![node]);
                },
                _ => {
                    lemma_start_opens(st, tag, rest, styling);
                    lemma_elements(st, tag, events[0], Seq::empty(), styling);
                    let opened = frames(st, tag, styling);
                    assert forall|i: int| 0 <= i < next.state.stack.len() implies (
                    #[trigger] next.state.stack[i]).well_formed() by {
                        if i < st.stack.len() {
                            assert(next.state.stack[i] == st.stack[i]);
                        } else {
                            assert(next.state.stack[i] == opened[i - st.stack.len()]);
                        }
                    }
                },
            }
        },
        MdEvent::End(kind) => {
            if !dangling(st, kind) {
                lemma_end_closes(st, kind, styling);
                lemma_popped(st, closes(kind, st.highlighting));
                lemma_popped(st, 2);
                if kind == TagKind::TableHead {
                    lemma_elements(st, MdTag::TableHead, events[0], Seq::empty(), styling);
                    let below = popped(st, 2).stack;
                    assert forall|i: int| 0 <= i < next.state.stack.len() implies (
                    #[trigger] next.state.stack[i]).well_formed() by {
                        if i < below.len() {
                            assert(next.state.stack[i] == below[i]);
                        }
                    }
                }
            }
        },
        event => {
            assert(is_leaf(event));
            assert(events =~= seq![event] + rest);
            lemma_leaf_step(st, event, rest, styling, blocks);
            lemma_elements(st, MdTag::Paragraph, event, Seq::empty(), styling);
            lemma_extended(st.stack, leaf_nodes(st, event, styling, blocks));
            assert forall|i: int| 0 <= i < next.blocks.len() implies nodes_well_formed(
                #[trigger] next.blocks[i],
            ) by {
                if next.blocks != blocks {
                    assert(next.blocks[i] == blocks[i + 1]);
                }
            }
        },
    }
}

/// A conversion keeps the open elements well formed, if the blocks are.
pub proof fn lemma_run_well_formed(
    st: State,
    events: Seq<MdEvent>,
    styling: StyleView,
    blocks: Seq<Seq<NodeView>>,
)
    requires
        st.stack.len() >= 1,
        stack_well_formed(st.stack),
        blocks_well_formed(blocks),
    ensures
        run(st, events, styling, blocks).stack.len() >= 1,
        stack_well_formed(run(st, events, styling, blocks).stack),
    decreases events.len(),
{
    reveal(run);
    if events.len() > 0 {
        let next = step(st, events, styling, blocks);
        lemma_step_well_formed(st, events, styling, blocks);
        lemma_step_consumes(st, events, styling, blocks);
        lemma_run_well_formed(next.state, next.rest, styling, next.blocks);
    }
}

/// Blocks of spans of runs and of runs of text are well formed.
pub proof fn lemma_runs_well_formed(blocks: Seq<Seq<NodeView>>)
    requires
        forall|i: int| 0 <= i < blocks.len() ==> all_runs(#[trigger] blocks[i]),
    ensures
        blocks_well_formed(blocks),
{
    assert forall|i: int| 0 <= i < blocks.len() implies nodes_well_formed(
        #[trigger] blocks[i],
    ) by {
        let nodes = blocks[i];
        assert(all_runs(nodes));
        assert forall|k: int| 0 <= k < nodes.len() implies node_well_formed(
            #[trigger] nodes[k],
        ) by {
            assert(is_run(nodes[k]));
            if !(nodes[k] is Text) {
                let (style, text) = choose|style: TextStyle, text: Seq<char>|
                    nodes[k] == NodeView::Element(#[trigger] span_element(style, text));
                lemma_child(
                    ElementView::new("span"@).attr(
                        "style"@,
                        css_style(style),
                    ),
                    NodeView::Text(text),
                );
            }
        }
    }
}

/// Every element of a converted tree has each of its attributes once, if that
/// holds of the blocks that take the place of code.
pub proof fn lemma_tree_well_formed(
    events: Seq<MdEvent>,
    styling: StyleView,
    highlighting: bool,
    blocks: Seq<Seq<NodeView>>,
)
    requires
        blocks_well_formed(blocks),
    ensures
        outcome_of(events, styling, highlighting, blocks).root.well_formed(),
{
    let st = State::initial(styling, highlighting);
    lemma_run_well_formed(st, events, styling, blocks);
    let last = run(st, events, styling, blocks);
    if last.stack.len() == 1 {
        assert(last.stack[0].well_formed());
    }
}

/// Flattening to text keeps the footnote labels distinct.
pub proof fn lemma_raw_text_labels(
    events: Seq<MdEvent>,
    nest: nat,
    labels: Seq<Seq<char>>,
    text: Seq<char>,
)
    requires
        distinct(labels),
    ensures
        distinct(raw_text(events, nest, labels, text).labels),
    decreases events.len(),
{
    if events.len() > 0 {
        let rest = events.drop_first();
        match events[0] {
            MdEvent::Start(_) => {
                lemma_raw_text_labels(rest, nest + 1, labels, text);
            },
            MdEvent::End(_) => {
                if nest > 0 {
                    lemma_raw_text_labels(rest, (nest - 1) as nat, labels, text);
                }
            },
            MdEvent::FootnoteReference(label) => {
                lemma_touch(labels, label@, label@);
                lemma_raw_text_labels(
                    rest,
                    nest,
                    raw_labels(events[0], labels),
                    text + raw_piece(events[0], labels),
                );
            },
            event => {
                lemma_raw_text_labels(
                    rest,
                    nest,
                    raw_labels(event, labels),
                    text + raw_piece(event, labels),
                );
            },
        }
    }
}

/// A step keeps the footnote labels distinct.
pub proof fn lemma_step_labels(
    st: State,
    events: Seq<MdEvent>,
    styling: StyleView,
    blocks: Seq<Seq<NodeView>>,
)
    requires
        events.len() > 0,
        distinct(st.labels),
    ensures
        distinct(step(st, events, styling, blocks).state.labels),
{
    match events[0] {
        MdEvent::Start(tag) => {
            match tag {
                MdTag::Image { .. } => {
                    lemma_raw_text_labels(events.drop_first(), 0, st.labels, Seq::empty());
                },
                MdTag::FootnoteDefinition(label) => {
                    lemma_touch(st.labels, label@, label@);
                },
                _ => {},
            }
        },
        MdEvent::FootnoteReference(label) => {
            lemma_touch(st.labels, label@, label@);
        },
        _ => {},
    }
}

/// No footnote label is numbered twice: whatever the events, the labels of the
/// state behind them are distinct, if they were before.
pub proof fn lemma_run_labels(
    st: State,
    events: Seq<MdEvent>,
    styling: StyleView,
    blocks: Seq<Seq<NodeView>>,
)
    requires
        distinct(st.labels),
    ensures
        distinct(run(st, events, styling, blocks).labels),
    decreases events.len(),
{
    reveal(run);
    if events.len() > 0 {
        let next = step(st, events, styling, blocks);
        lemma_step_labels(st, events, styling, blocks);
        lemma_step_consumes(st, events, styling, blocks);
        lemma_run_labels(next.state, next.rest, styling, next.blocks);
    }
}

/// Whether `a` and `b` are one element but for their children.
pub open spec fn same_element(a: ElementView, b: ElementView) -> bool {
    &&& a.tag_name == b.tag_name
    &&& a.attributes == b.attributes
    &&& a.style == b.style
}

proof fn lemma_popped_bottom(st: State, n: nat)
    requires
        st.stack.len() >= 1,
    ensures
        popped(st, n).stack.len() >= 1,
        same_element(popped(st, n).stack[0], st.stack[0]),
    decreases n,
{
    if n > 0 {
        lemma_popped_bottom(st.pop(), (n - 1) as nat);
    }
}

/// A step leaves the outermost open element open, and what it is: only its
/// children may grow.
pub proof fn lemma_step_bottom(
    st: State,
    events: Seq<MdEvent>,
    styling: StyleView,
    blocks: Seq<Seq<NodeView>>,
)
    requires
        events.len() > 0,
        st.stack.len() >= 1,
    ensures
        step(st, events, styling, blocks).state.stack.len() >= 1,
        same_element(step(st, events, styling, blocks).state.stack[0], st.stack[0]),
{
    let rest = events.drop_first();
    match events[0] {
        MdEvent::Start(tag) => {
            match tag {
                MdTag::Image { .. } => {},
                _ => {
                    lemma_start_opens(st, tag, rest, styling);
                },
            }
        },
        MdEvent::End(kind) => {
            if !dangling(st, kind) {
                lemma_end_closes(st, kind, styling);
                lemma_popped_bottom(st, closes(kind, st.highlighting));
                lemma_popped_bottom(st, 2);
            }
        },
        event => {
            assert(events =~= seq![event] + rest);
            lemma_leaf_step(st, event, rest, styling, blocks);
        },
    }
}

/// A conversion leaves the outermost open element open, and what it is.
pub proof fn lemma_run_bottom(
    st: State,
    events: Seq<MdEvent>,
    styling: StyleView,
    blocks: Seq<Seq<NodeView>>,
)
    requires
        st.stack.len() >= 1,
    ensures
        run(st, events, styling, blocks).stack.len() >= 1,
        same_element(run(st, events, styling, blocks).stack[0], st.stack[0]),
    decreases events.len(),
{
    reveal(run);
    if events.len() > 0 {
        let next = step(st, events, styling, blocks);
        lemma_step_bottom(st, events, styling, blocks);
        lemma_step_consumes(st, events, styling, blocks);
        lemma_run_bottom(next.state, next.rest, styling, next.blocks);
    }
}

/// The root of every converted tree is the container: a `div` without
/// attributes. It carries the descriptor of the container, unless elements were
/// left open at the end, which is recorded: then it is the bare `div`.
pub proof fn lemma_root_is_container(
    events: Seq<MdEvent>,
    styling: StyleView,
    highlighting: bool,
    blocks: Seq<Seq<NodeView>>,
)
    ensures
        outcome_of(events, styling, highlighting, blocks).root.tag_name == "div"@,
        outcome_of(events, styling, highlighting, blocks).root.attributes.len() == 0,
        same_element(
            outcome_of(events, styling, highlighting, blocks).root,
            styled("div"@, styling.container),
        ) || (outcome_of(events, styling, highlighting, blocks).root == ElementView::new("div"@)
            && outcome_of(events, styling, highlighting, blocks).anomalies.last()
            == Anomaly::NoRoot),
{
    let st = State::initial(styling, highlighting);
    lemma_run_bottom(st, events, styling, blocks);
}

} // verus!
