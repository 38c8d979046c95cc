//! What holds of the conversion of a well-nested stream: every construct is
//! closed at the depth at which it was opened, and the tree has the shape of the
//! nesting.

use crate::event::{MdEvent, MdTag, TagKind};
use crate::markup::{
    after_image, after_leaf, closed, extended, flatten, frames, image_node, is_leaf, kind_of,
    leaf_nodes, leaves_are_leaves, opened, raw_of, render, table_node, well_nested, wrapped,
    Markup, Rendered,
};
use crate::model::{
    closes, dangling, end_tag, highlights, image_element, lemma_step_consumes, outcome_of,
    raw_labels, raw_piece, raw_text, run, start_tag, step, styled, RawText, State,
};
use crate::node::{ElementView, NodeView};
use crate::styling::StyleView;
use vstd::prelude::*;

verus! {

/// Flattening to text passes over a well-nested piece at any depth, and goes on
/// behind it at the same depth.
pub proof fn lemma_raw_text_nested(
    m: Markup,
    tail: Seq<MdEvent>,
    nest: nat,
    labels: Seq<Seq<char>>,
    text: Seq<char>,
)
    requires
        leaves_are_leaves(m),
    ensures
        raw_text(flatten(m) + tail, nest, labels, text) == raw_text(
            tail,
            nest,
            raw_of(m, labels, text).1,
            raw_of(m, labels, text).0,
        ),
    decreases m,
{
    match m {
        Markup::Empty => {
            assert(flatten(m) + tail =~= tail);
        },
        Markup::Leaf(event, rest) => {
            let events = flatten(m) + tail;
            assert(events[0] == event);
            assert(events.drop_first() =~= flatten(*rest) + tail);
            lemma_raw_text_nested(
                *rest,
                tail,
                nest,
                raw_labels(event, labels),
                text + raw_piece(event, labels),
            );
        },
        Markup::Span(tag, inner, rest) => {
            let events = flatten(m) + tail;
            let close = seq![MdEvent::End(kind_of(tag))] + flatten(*rest) + tail;
            assert(events[0] == MdEvent::Start(tag));
            assert(events.drop_first() =~= flatten(*inner) + close);
            lemma_raw_text_nested(*inner, close, nest + 1, labels, text);
            let within = raw_of(*inner, labels, text);
            assert(close[0] == MdEvent::End(kind_of(tag)));
            assert(close.drop_first() =~= flatten(*rest) + tail);
            lemma_raw_text_nested(*rest, tail, nest, within.1, within.0);
        },
    }
}

/// `Start` of anything but an image opens its elements on top of those that are
/// open, consumes nothing more, and does not look at what follows.
pub proof fn lemma_start_opens(st: State, tag: MdTag, rest: Seq<MdEvent>, styling: StyleView)
    requires
        !(tag is Image),
    ensures
        start_tag(st, tag, rest, styling).1 == rest,
        start_tag(st, tag, rest, styling).0 == start_tag(st, tag, Seq::empty(), styling).0,
        start_tag(st, tag, rest, styling).0.stack == st.stack + frames(st, tag, styling),
        start_tag(st, tag, rest, styling).0.highlighting == st.highlighting,
        start_tag(st, tag, rest, styling).0.anomalies == st.anomalies,
{
    reveal(frames);
    assert(start_tag(st, tag, rest, styling).0.stack =~= st.stack + frames(st, tag, styling));
}

/// The stack without its `n` innermost elements, each of them finished into the
/// one below it.
pub open spec fn popped(st: State, n: nat) -> State
    decreases n,
{
    if n == 0 {
        st
    } else {
        popped(st.pop(), (n - 1) as nat)
    }
}

/// An `End` that is not dangling finishes as many elements as its kind closes;
/// that of a table head opens the body in their place.
pub proof fn lemma_end_closes(st: State, kind: TagKind, styling: StyleView)
    requires
        !dangling(st, kind),
    ensures
        end_tag(st, kind, styling).highlighting == st.highlighting,
        end_tag(st, kind, styling).anomalies == st.anomalies,
        kind != TagKind::TableHead ==> end_tag(st, kind, styling).stack == popped(
            st,
            closes(kind, st.highlighting),
        ).stack,
        kind == TagKind::TableHead ==> end_tag(st, kind, styling).stack == popped(
            st,
            2,
        ).stack.push(styled("tbody"@, styling.tbody)),
{
    reveal_with_fuel(popped, 3);
}

/// Adding children in two goes is adding them in one.
pub proof fn lemma_extended_twice(stack: Seq<ElementView>, a: Seq<NodeView>, b: Seq<NodeView>)
    requires
        stack.len() >= 1,
    ensures
        extended(extended(stack, a), b) == extended(stack, a + b),
{
    let once = extended(stack, a);
    assert(once.drop_last() =~= stack.drop_last());
    assert(stack.last().with_children(a).with_children(b).children =~= stack.last().with_children(
        a + b,
    ).children);
    assert(extended(once, b) =~= extended(stack, a + b));
}

/// Adding no children changes nothing.
pub proof fn lemma_extended_empty(stack: Seq<ElementView>)
    requires
        stack.len() >= 1,
    ensures
        extended(stack, Seq::empty()) == stack,
{
    assert(stack.last().with_children(Seq::empty()).children =~= stack.last().children);
    assert(extended(stack, Seq::empty()) =~= stack);
}

/// A leaf event adds its nodes to the innermost element, consumes nothing more
/// and does not look at what follows.
pub proof fn lemma_leaf_step(
    st: State,
    event: MdEvent,
    rest: Seq<MdEvent>,
    styling: StyleView,
    blocks: Seq<Seq<NodeView>>,
)
    requires
        is_leaf(event),
        st.stack.len() >= 1,
    ensures
        step(st, seq![event] + rest, styling, blocks).rest == rest,
        step(st, seq![event] + rest, styling, blocks).state == step(
            st,
            seq![event],
            styling,
            blocks,
        ).state,
        step(st, seq![event] + rest, styling, blocks).blocks == step(
            st,
            seq![event],
            styling,
            blocks,
        ).blocks,
        step(st, seq![event], styling, blocks).state.stack == extended(
            st.stack,
            leaf_nodes(st, event, styling, blocks),
        ),
        step(st, seq![event], styling, blocks).state.highlighting == st.highlighting,
        step(st, seq![event], styling, blocks).state.anomalies == st.anomalies,
{
    reveal(leaf_nodes);
    let events = seq![event] + rest;
    assert(events[0] == event);
    assert(events.drop_first() =~= rest);
    assert(seq![event][0] == event);
    let nodes = leaf_nodes(st, event, styling, blocks);
    let after = step(st, seq![event], styling, blocks).state;
    if nodes.len() == 0 {
        lemma_extended_empty(st.stack);
        assert(nodes =~= Seq::empty());
    } else if nodes.len() == 1 && !(event is Text && highlights(st)) {
        assert(nodes =~= seq![nodes[0]]);
        assert(st.stack.last().with_children(nodes).children =~= st.stack.last().child(
            nodes[0],
        ).children);
    }
    assert(after.stack =~= extended(st.stack, nodes));
}

/// One step over `Start` of anything but an image.
proof fn lemma_start_step(
    st: State,
    tag: MdTag,
    rest: Seq<MdEvent>,
    styling: StyleView,
    blocks: Seq<Seq<NodeView>>,
)
    requires
        !(tag is Image),
    ensures
        run(st, seq![MdEvent::Start(tag)] + rest, styling, blocks) == run(
            start_tag(st, tag, Seq::empty(), styling).0,
            rest,
            styling,
            blocks,
        ),
{
    reveal(run);
    let events = seq![MdEvent::Start(tag)] + rest;
    assert(events[0] == MdEvent::Start(tag));
    assert(events.drop_first() =~= rest);
    lemma_start_opens(st, tag, rest, styling);
}

/// One step over `End`.
pub proof fn lemma_end_step(
    st: State,
    kind: TagKind,
    rest: Seq<MdEvent>,
    styling: StyleView,
    blocks: Seq<Seq<NodeView>>,
)
    ensures
        run(st, seq![MdEvent::End(kind)] + rest, styling, blocks) == run(
            end_tag(st, kind, styling),
            rest,
            styling,
            blocks,
        ),
{
    reveal(run);
    let events = seq![MdEvent::End(kind)] + rest;
    assert(events[0] == MdEvent::End(kind));
    assert(events.drop_first() =~= rest);
}

/// Closing what `tag` opened, with `nodes` added inside: the elements are
/// finished into the one that was innermost before.
proof fn lemma_close_span(
    st: State,
    tag: MdTag,
    within: State,
    nodes: Seq<NodeView>,
    styling: StyleView,
)
    requires
        st.stack.len() >= 1,
        !(tag is Image),
        !(tag is Table),
        !(tag is TableHead),
        within.highlighting == st.highlighting,
        within.stack == extended(st.stack + frames(st, tag, styling), nodes),
    ensures
        !dangling(within, kind_of(tag)),
        end_tag(within, kind_of(tag), styling).anomalies == within.anomalies,
        end_tag(within, kind_of(tag), styling).stack == extended(
            st.stack,
            wrapped(frames(st, tag, styling), nodes),
        ),
        end_tag(within, kind_of(tag), styling).highlighting == st.highlighting,
{
    reveal(frames);
    let opened = frames(st, tag, styling);
    let kind = kind_of(tag);
    assert(closes(kind, st.highlighting) == opened.len());
    lemma_end_closes(within, kind, styling);
    reveal_with_fuel(popped, 3);
    reveal_with_fuel(wrapped, 3);
    let full = st.stack + opened;
    if opened.len() == 0 {
        assert(full =~= st.stack);
    } else if opened.len() == 1 {
        let e = opened[0].with_children(nodes);
        assert(full.last() == opened[0]);
        assert(full.drop_last() =~= st.stack);
        assert(within.stack == st.stack.push(e));
        assert(within.stack.drop_last() =~= st.stack);
        assert(opened.drop_last() =~= Seq::<ElementView>::empty());
        assert(st.stack.last().child(NodeView::Element(e)).children
            =~= st.stack.last().with_children(seq![NodeView::Element(e)]).children);
        assert(within.pop().stack =~= extended(st.stack, seq![NodeView::Element(e)]));
    } else {
        let inner = opened[1].with_children(nodes);
        let outer = opened[0].with_children(seq![NodeView::Element(inner)]);
        assert(full.last() == opened[1]);
        assert(full.drop_last() =~= st.stack.push(opened[0]));
        assert(within.stack =~= st.stack.push(opened[0]).push(inner));
        assert(within.stack.drop_last() =~= st.stack.push(opened[0]));
        assert(opened[0].child(NodeView::Element(inner)).children =~= outer.children);
        assert(within.pop().stack =~= st.stack.push(outer));
        assert(within.pop().stack.drop_last() =~= st.stack);
        assert(st.stack.last().child(NodeView::Element(outer)).children
            =~= st.stack.last().with_children(seq![NodeView::Element(outer)]).children);
        assert(within.pop().pop().stack =~= extended(st.stack, seq![NodeView::Element(outer)]));
        assert(opened.drop_last() =~= seq![opened[0]]);
        assert(opened.drop_last().drop_last() =~= Seq::<ElementView>::empty());
    }
}

/// One step over the `Start` of an image, what it holds and its `End`.
proof fn lemma_image_step(
    st: State,
    tag: MdTag,
    inner: Markup,
    rest: Seq<MdEvent>,
    styling: StyleView,
    blocks: Seq<Seq<NodeView>>,
)
    requires
        tag is Image,
        leaves_are_leaves(inner),
        st.stack.len() >= 1,
    ensures
        ({
            let raw = raw_of(inner, st.labels, Seq::empty());
            let node = NodeView::Element(
                image_element(tag->Image_dest_url@, raw.0, tag->Image_title@, styling),
            );
            let after = State { labels: raw.1, ..st }.add_child(node);
            &&& run(
                st,
                seq![MdEvent::Start(tag)] + flatten(inner) + seq![MdEvent::End(TagKind::Image)]
                    + rest,
                styling,
                blocks,
            ) == run(after, rest, styling, blocks)
            &&& after.stack == extended(st.stack, seq![node])
            &&& after.highlighting == st.highlighting
            &&& after.anomalies == st.anomalies
        }),
{
    reveal(run);
    let close = seq![MdEvent::End(TagKind::Image)] + rest;
    let events = seq![MdEvent::Start(tag)] + flatten(inner) + seq![MdEvent::End(TagKind::Image)]
        + rest;
    assert(events[0] == MdEvent::Start(tag));
    assert(events.drop_first() =~= flatten(inner) + close);
    lemma_raw_text_nested(inner, close, 0, st.labels, Seq::empty());
    assert(close[0] == MdEvent::End(TagKind::Image));
    assert(close.drop_first() =~= rest);
    let raw = raw_of(inner, st.labels, Seq::empty());
    let node = NodeView::Element(
        image_element(tag->Image_dest_url@, raw.0, tag->Image_title@, styling),
    );
    let after = State { labels: raw.1, ..st }.add_child(node);
    assert(st.stack.last().child(node).children =~= st.stack.last().with_children(
        seq![node],
    ).children);
    assert(after.stack =~= extended(st.stack, seq![node]));
    let flat = raw_text(flatten(inner) + close, 0, st.labels, Seq::empty());
    assert(flat == RawText { text: raw.0, rest, labels: raw.1 });
    assert(step(st, events, styling, blocks).rest == rest);
    assert(step(st, events, styling, blocks).state == after);
}

/// A construct that opens and closes as many elements: from `Start` to `End`,
/// given how the conversion passes over what the construct holds.
proof fn lemma_span_run(
    st: State,
    tag: MdTag,
    held: Seq<MdEvent>,
    tail: Seq<MdEvent>,
    styling: StyleView,
    blocks: Seq<Seq<NodeView>>,
    within: Rendered,
)
    requires
        st.stack.len() >= 1,
        !(tag is Image),
        !(tag is Table),
        !(tag is TableHead),
        run(
            start_tag(st, tag, Seq::empty(), styling).0,
            held + (seq![MdEvent::End(kind_of(tag))] + tail),
            styling,
            blocks,
        ) == run(within.state, seq![MdEvent::End(kind_of(tag))] + tail, styling, within.blocks),
        within.state.stack == extended(
            start_tag(st, tag, Seq::empty(), styling).0.stack,
            within.nodes,
        ),
        within.state.highlighting == start_tag(st, tag, Seq::empty(), styling).0.highlighting,
        within.state.anomalies == start_tag(st, tag, Seq::empty(), styling).0.anomalies,
    ensures
        run(
            st,
            seq![MdEvent::Start(tag)] + held + seq![MdEvent::End(kind_of(tag))] + tail,
            styling,
            blocks,
        ) == run(end_tag(within.state, kind_of(tag), styling), tail, styling, within.blocks),
        end_tag(within.state, kind_of(tag), styling).stack == extended(
            st.stack,
            wrapped(frames(st, tag, styling), within.nodes),
        ),
        end_tag(within.state, kind_of(tag), styling).highlighting == st.highlighting,
        end_tag(within.state, kind_of(tag), styling).anomalies == st.anomalies,
{
    let kind = kind_of(tag);
    let close = seq![MdEvent::End(kind)] + tail;
    let events = seq![MdEvent::Start(tag)] + held + seq![MdEvent::End(kind)] + tail;
    assert(events =~= seq![MdEvent::Start(tag)] + (held + close));
    lemma_start_step(st, tag, held + close, styling, blocks);
    lemma_start_opens(st, tag, Seq::empty(), styling);
    lemma_end_step(within.state, kind, tail, styling, within.blocks);
    lemma_close_span(st, tag, within.state, within.nodes, styling);
}

/// A table: from its `Start` to its `End`, given how the conversion passes over
/// the cells of its head and over its body.
proof fn lemma_table_run(
    st: State,
    tag: MdTag,
    cells: Seq<MdEvent>,
    body: Seq<MdEvent>,
    tail: Seq<MdEvent>,
    styling: StyleView,
    blocks: Seq<Seq<NodeView>>,
    head: Rendered,
    rows: Rendered,
)
    requires
        st.stack.len() >= 1,
        tag is Table,
        ({
            let opened = start_tag(st, tag, Seq::empty(), styling).0;
            let begun = start_tag(opened, MdTag::TableHead, Seq::empty(), styling).0;
            let middle = end_tag(head.state, TagKind::TableHead, styling);
            let t3 = seq![MdEvent::End(TagKind::Table)] + tail;
            let t2 = seq![MdEvent::End(TagKind::TableHead)] + (body + t3);
            &&& run(begun, cells + t2, styling, blocks) == run(
                head.state,
                t2,
                styling,
                head.blocks,
            )
            &&& head.state.stack == extended(begun.stack, head.nodes)
            &&& head.state.highlighting == st.highlighting
            &&& head.state.anomalies == st.anomalies
            &&& rows.state.anomalies == middle.anomalies
            &&& run(middle, body + t3, styling, head.blocks) == run(
                rows.state,
                t3,
                styling,
                rows.blocks,
            )
            &&& rows.state.stack == extended(middle.stack, rows.nodes)
            &&& rows.state.highlighting == st.highlighting
        }),
    ensures
        run(
            st,
            seq![MdEvent::Start(tag)] + (seq![MdEvent::Start(MdTag::TableHead)] + cells
                + seq![MdEvent::End(TagKind::TableHead)] + body)
                + seq![MdEvent::End(TagKind::Table)] + tail,
            styling,
            blocks,
        ) == run(end_tag(rows.state, TagKind::Table, styling), tail, styling, rows.blocks),
        end_tag(rows.state, TagKind::Table, styling).stack == extended(
            st.stack,
            seq![table_node(head.nodes, rows.nodes, styling)],
        ),
        end_tag(rows.state, TagKind::Table, styling).highlighting == st.highlighting,
        end_tag(rows.state, TagKind::Table, styling).anomalies == st.anomalies,
{
    let events = seq![MdEvent::Start(tag)] + (seq![MdEvent::Start(MdTag::TableHead)] + cells
        + seq![MdEvent::End(TagKind::TableHead)] + body) + seq![MdEvent::End(TagKind::Table)]
        + tail;
    let opened = start_tag(st, tag, Seq::empty(), styling).0;
    let begun = start_tag(opened, MdTag::TableHead, Seq::empty(), styling).0;
    let middle = end_tag(head.state, TagKind::TableHead, styling);
    let closed = end_tag(rows.state, TagKind::Table, styling);
    let table = styled("table"@, styling.table);
    let thead = styled("thead"@, styling.thead);
    let tr = styled("tr"@, styling.tr);
    let tbody = styled("tbody"@, styling.tbody);
    let t3 = seq![MdEvent::End(TagKind::Table)] + tail;
    let t2 = seq![MdEvent::End(TagKind::TableHead)] + (body + t3);
    let t1 = seq![MdEvent::Start(MdTag::TableHead)] + (cells + t2);
    assert(events =~= seq![MdEvent::Start(tag)] + t1);
    lemma_start_step(st, tag, t1, styling, blocks);
    lemma_start_opens(st, tag, Seq::empty(), styling);
    lemma_start_step(opened, MdTag::TableHead, cells + t2, styling, blocks);
    lemma_start_opens(opened, MdTag::TableHead, Seq::empty(), styling);
    assert(opened.stack =~= st.stack.push(table));
    assert(begun.stack =~= st.stack.push(table).push(thead).push(tr));
    assert(run(st, events, styling, blocks) == run(head.state, t2, styling, head.blocks));

    let row = tr.with_children(head.nodes);
    let thead_done = thead.child(NodeView::Element(row));
    let table_head = table.child(NodeView::Element(thead_done));
    assert(head.state.stack =~= st.stack.push(table).push(thead).push(row)) by {
        assert(begun.stack.drop_last() =~= st.stack.push(table).push(thead));
    }
    lemma_end_step(head.state, TagKind::TableHead, body + t3, styling, head.blocks);
    assert(middle.anomalies == st.anomalies) by {
        lemma_end_closes(head.state, TagKind::TableHead, styling);
    }
    assert(middle.stack =~= st.stack.push(table_head).push(tbody)) by {
        lemma_end_closes(head.state, TagKind::TableHead, styling);
        reveal_with_fuel(popped, 3);
        assert(head.state.stack.drop_last() =~= st.stack.push(table).push(thead));
        assert(head.state.pop().stack =~= st.stack.push(table).push(thead_done));
        assert(head.state.pop().stack.drop_last() =~= st.stack.push(table));
        assert(head.state.pop().pop().stack =~= st.stack.push(table_head));
    }
    assert(run(st, events, styling, blocks) == run(rows.state, t3, styling, rows.blocks));

    let tbody_done = tbody.with_children(rows.nodes);
    let table_done = table_head.child(NodeView::Element(tbody_done));
    let node = table_node(head.nodes, rows.nodes, styling);
    assert(rows.state.stack =~= st.stack.push(table_head).push(tbody_done)) by {
        assert(middle.stack.drop_last() =~= st.stack.push(table_head));
    }
    lemma_end_step(rows.state, TagKind::Table, tail, styling, rows.blocks);
    assert(closed.stack == extended(st.stack, seq![node]) && closed.highlighting
        == st.highlighting && closed.anomalies == st.anomalies) by {
        lemma_end_closes(rows.state, TagKind::Table, styling);
        reveal_with_fuel(popped, 3);
        assert(rows.state.stack.drop_last() =~= st.stack.push(table_head));
        assert(rows.state.pop().stack =~= st.stack.push(table_done));
        assert(rows.state.pop().stack.drop_last() =~= st.stack);
        assert(node == NodeView::Element(table_done));
        assert(st.stack.last().child(node).children =~= st.stack.last().with_children(
            seq![node],
        ).children);
        assert(rows.state.pop().pop().stack =~= extended(st.stack, seq![node]));
    }
}

/// What `lemma_render` states of a piece, a state and what follows.
#[verifier::opaque]
pub open spec fn rendered_right(
    m: Markup,
    st: State,
    tail: Seq<MdEvent>,
    styling: StyleView,
    blocks: Seq<Seq<NodeView>>,
) -> bool {
    let r = render(m, st, styling, blocks);
    &&& run(st, flatten(m) + tail, styling, blocks) == run(r.state, tail, styling, r.blocks)
    &&& r.state.stack == extended(st.stack, r.nodes)
    &&& r.state.highlighting == st.highlighting
    &&& r.state.anomalies == st.anomalies
}

/// One step over a leaf event.
proof fn lemma_leaf_run(
    st: State,
    event: MdEvent,
    rest: Seq<MdEvent>,
    styling: StyleView,
    blocks: Seq<Seq<NodeView>>,
)
    requires
        is_leaf(event),
        st.stack.len() >= 1,
    ensures
        run(st, seq![event] + rest, styling, blocks) == run(
            after_leaf(st, event, styling, blocks).state,
            rest,
            styling,
            after_leaf(st, event, styling, blocks).blocks,
        ),
        after_leaf(st, event, styling, blocks).state.stack == extended(
            st.stack,
            leaf_nodes(st, event, styling, blocks),
        ),
        after_leaf(st, event, styling, blocks).state.highlighting == st.highlighting,
        after_leaf(st, event, styling, blocks).state.anomalies == st.anomalies,
{
    reveal(run);
    reveal(after_leaf);
    lemma_leaf_step(st, event, rest, styling, blocks);
    lemma_step_consumes(st, seq![event] + rest, styling, blocks);
}

/// A state behind `Start` or `End`, by its name.
proof fn lemma_named_states(st: State, tag: MdTag, kind: TagKind, styling: StyleView)
    ensures
        opened(st, tag, styling) == start_tag(st, tag, Seq::empty(), styling).0,
        closed(st, kind, styling) == end_tag(st, kind, styling),
{
    reveal(opened);
    reveal(closed);
}

proof fn lemma_render_empty(
    st: State,
    tail: Seq<MdEvent>,
    styling: StyleView,
    blocks: Seq<Seq<NodeView>>,
)
    requires
        st.stack.len() >= 1,
    ensures
        rendered_right(Markup::Empty, st, tail, styling, blocks),
{
    reveal(rendered_right);
    assert(flatten(Markup::Empty) + tail =~= tail);
    lemma_extended_empty(st.stack);
}

proof fn lemma_leaf_depth(
    st: State,
    event: MdEvent,
    styling: StyleView,
    blocks: Seq<Seq<NodeView>>,
)
    requires
        is_leaf(event),
        st.stack.len() >= 1,
    ensures
        after_leaf(st, event, styling, blocks).state.stack.len() >= 1,
{
    reveal(after_leaf);
    lemma_leaf_step(st, event, Seq::empty(), styling, blocks);
}

proof fn lemma_render_leaf(
    event: MdEvent,
    rest: Markup,
    st: State,
    tail: Seq<MdEvent>,
    styling: StyleView,
    blocks: Seq<Seq<NodeView>>,
)
    requires
        is_leaf(event),
        st.stack.len() >= 1,
        rendered_right(
            rest,
            after_leaf(st, event, styling, blocks).state,
            tail,
            styling,
            after_leaf(st, event, styling, blocks).blocks,
        ),
    ensures
        rendered_right(Markup::Leaf(event, Box::new(rest)), st, tail, styling, blocks),
{
    reveal(rendered_right);
    let m = Markup::Leaf(event, Box::new(rest));
    let next = after_leaf(st, event, styling, blocks);
    let own = leaf_nodes(st, event, styling, blocks);
    let events = flatten(m) + tail;
    assert(events =~= seq![event] + (flatten(rest) + tail));
    lemma_leaf_run(st, event, flatten(rest) + tail, styling, blocks);
    let after = render(rest, next.state, styling, next.blocks);
    lemma_extended_twice(st.stack, own, after.nodes);
}

proof fn lemma_image_depth(st: State, tag: MdTag, inner: Markup, styling: StyleView)
    requires
        tag is Image,
        st.stack.len() >= 1,
    ensures
        after_image(st, tag, inner, styling).stack.len() >= 1,
{
    reveal(after_image);
}

proof fn lemma_render_image(
    tag: MdTag,
    inner: Markup,
    rest: Markup,
    st: State,
    tail: Seq<MdEvent>,
    styling: StyleView,
    blocks: Seq<Seq<NodeView>>,
)
    requires
        tag is Image,
        leaves_are_leaves(inner),
        st.stack.len() >= 1,
        rendered_right(rest, after_image(st, tag, inner, styling), tail, styling, blocks),
    ensures
        rendered_right(
            Markup::Span(tag, Box::new(inner), Box::new(rest)),
            st,
            tail,
            styling,
            blocks,
        ),
{
    reveal(rendered_right);
    reveal(after_image);
    let m = Markup::Span(tag, Box::new(inner), Box::new(rest));
    let events = flatten(m) + tail;
    let behind = flatten(rest) + tail;
    let node = image_node(st, tag, inner, styling);
    let shown = after_image(st, tag, inner, styling);
    assert(events =~= seq![MdEvent::Start(tag)] + flatten(inner) + seq![
        MdEvent::End(TagKind::Image),
    ] + behind);
    lemma_image_step(st, tag, inner, behind, styling, blocks);
    let after = render(rest, shown, styling, blocks);
    lemma_extended_twice(st.stack, seq![node], after.nodes);
}

pub proof fn lemma_opened_depth(st: State, tag: MdTag, styling: StyleView)
    requires
        !(tag is Image),
        st.stack.len() >= 1,
    ensures
        opened(st, tag, styling).stack.len() >= st.stack.len(),
{
    reveal(opened);
    lemma_start_opens(st, tag, Seq::empty(), styling);
}

/// Behind the `End` of a construct whose content was rendered right, the
/// elements that were open before the construct are open again.
pub proof fn lemma_span_closed(
    tag: MdTag,
    inner: Markup,
    st: State,
    tail: Seq<MdEvent>,
    styling: StyleView,
    blocks: Seq<Seq<NodeView>>,
)
    requires
        !(tag is Image),
        !(tag is Table),
        !(tag is TableHead),
        st.stack.len() >= 1,
        rendered_right(inner, opened(st, tag, styling), tail, styling, blocks),
    ensures
        closed(
            render(inner, opened(st, tag, styling), styling, blocks).state,
            kind_of(tag),
            styling,
        ).stack.len() == st.stack.len(),
{
    reveal(rendered_right);
    reveal(opened);
    reveal(closed);
    let within = render(inner, opened(st, tag, styling), styling, blocks);
    lemma_start_opens(st, tag, Seq::empty(), styling);
    lemma_close_span(st, tag, within.state, within.nodes, styling);
}

proof fn lemma_render_span(
    tag: MdTag,
    inner: Markup,
    rest: Markup,
    st: State,
    tail: Seq<MdEvent>,
    styling: StyleView,
    blocks: Seq<Seq<NodeView>>,
)
    requires
        !(tag is Image),
        !(tag is Table),
        !(tag is TableHead),
        st.stack.len() >= 1,
        ({
            let within = render(inner, opened(st, tag, styling), styling, blocks);
            &&& rendered_right(
                inner,
                opened(st, tag, styling),
                seq![MdEvent::End(kind_of(tag))] + (flatten(rest) + tail),
                styling,
                blocks,
            )
            &&& rendered_right(
                rest,
                closed(within.state, kind_of(tag), styling),
                tail,
                styling,
                within.blocks,
            )
        }),
    ensures
        rendered_right(
            Markup::Span(tag, Box::new(inner), Box::new(rest)),
            st,
            tail,
            styling,
            blocks,
        ),
{
    reveal(rendered_right);
    let m = Markup::Span(tag, Box::new(inner), Box::new(rest));
    let events = flatten(m) + tail;
    let behind = flatten(rest) + tail;
    let kind = kind_of(tag);
    let within = render(inner, opened(st, tag, styling), styling, blocks);
    lemma_named_states(st, tag, kind, styling);
    lemma_named_states(within.state, tag, kind, styling);
    lemma_span_run(st, tag, flatten(inner), behind, styling, blocks, within);
    assert(events =~= seq![MdEvent::Start(tag)] + flatten(inner) + seq![MdEvent::End(kind)]
        + behind);
    let after = render(rest, closed(within.state, kind, styling), styling, within.blocks);
    lemma_extended_twice(
        st.stack,
        wrapped(frames(st, tag, styling), within.nodes),
        after.nodes,
    );
}

/// The state in which the cells of a table head are read.
pub open spec fn head_state(st: State, tag: MdTag, styling: StyleView) -> State {
    opened(opened(st, tag, styling), MdTag::TableHead, styling)
}

/// The head of a table opens three elements: the table, its head and the row
/// of the head.
pub proof fn lemma_head_depth(st: State, tag: MdTag, styling: StyleView)
    requires
        tag is Table,
        st.stack.len() >= 1,
    ensures
        head_state(st, tag, styling).stack.len() == st.stack.len() + 3,
        head_state(st, tag, styling).highlighting == st.highlighting,
{
    reveal(opened);
    reveal(frames);
    lemma_start_opens(st, tag, Seq::empty(), styling);
    lemma_start_opens(opened(st, tag, styling), MdTag::TableHead, Seq::empty(), styling);
}

/// Behind the head of a table, the table and its body are open.
proof fn lemma_head_closed(
    st: State,
    tag: MdTag,
    cells: Markup,
    tail: Seq<MdEvent>,
    styling: StyleView,
    blocks: Seq<Seq<NodeView>>,
)
    requires
        tag is Table,
        st.stack.len() >= 1,
        rendered_right(cells, head_state(st, tag, styling), tail, styling, blocks),
    ensures
        closed(
            render(cells, head_state(st, tag, styling), styling, blocks).state,
            TagKind::TableHead,
            styling,
        ).stack.len() == st.stack.len() + 2,
        closed(
            render(cells, head_state(st, tag, styling), styling, blocks).state,
            TagKind::TableHead,
            styling,
        ).highlighting == st.highlighting,
{
    reveal(rendered_right);
    reveal(closed);
    lemma_head_depth(st, tag, styling);
    let head = render(cells, head_state(st, tag, styling), styling, blocks);
    lemma_end_closes(head.state, TagKind::TableHead, styling);
    reveal_with_fuel(popped, 3);
}

/// Behind the `End` of a table, the elements that were open before it are open
/// again.
proof fn lemma_table_closed(
    st: State,
    tag: MdTag,
    cells: Markup,
    body: Markup,
    tail: Seq<MdEvent>,
    styling: StyleView,
    blocks: Seq<Seq<NodeView>>,
)
    requires
        tag is Table,
        st.stack.len() >= 1,
        ({
            let head = render(cells, head_state(st, tag, styling), styling, blocks);
            let middle = closed(head.state, TagKind::TableHead, styling);
            &&& middle.stack.len() == st.stack.len() + 2
            &&& middle.highlighting == st.highlighting
            &&& rendered_right(body, middle, tail, styling, head.blocks)
        }),
    ensures
        ({
            let head = render(cells, head_state(st, tag, styling), styling, blocks);
            let middle = closed(head.state, TagKind::TableHead, styling);
            let rows = render(body, middle, styling, head.blocks);
            closed(rows.state, TagKind::Table, styling).stack.len() == st.stack.len()
        }),
{
    reveal(rendered_right);
    reveal(closed);
    let head = render(cells, head_state(st, tag, styling), styling, blocks);
    let middle = closed(head.state, TagKind::TableHead, styling);
    let rows = render(body, middle, styling, head.blocks);
    lemma_end_closes(rows.state, TagKind::Table, styling);
    reveal_with_fuel(popped, 3);
}

proof fn lemma_render_table(
    tag: MdTag,
    cells: Markup,
    body: Markup,
    rest: Markup,
    st: State,
    tail: Seq<MdEvent>,
    styling: StyleView,
    blocks: Seq<Seq<NodeView>>,
)
    requires
        tag is Table,
        st.stack.len() >= 1,
        ({
            let head = render(cells, head_state(st, tag, styling), styling, blocks);
            let middle = closed(head.state, TagKind::TableHead, styling);
            let rows = render(body, middle, styling, head.blocks);
            let t3 = seq![MdEvent::End(TagKind::Table)] + (flatten(rest) + tail);
            let t2 = seq![MdEvent::End(TagKind::TableHead)] + (flatten(body) + t3);
            &&& rendered_right(cells, head_state(st, tag, styling), t2, styling, blocks)
            &&& rendered_right(body, middle, t3, styling, head.blocks)
            &&& rendered_right(
                rest,
                closed(rows.state, TagKind::Table, styling),
                tail,
                styling,
                rows.blocks,
            )
        }),
    ensures
        rendered_right(
            Markup::Span(
                tag,
                Box::new(Markup::Span(MdTag::TableHead, Box::new(cells), Box::new(body))),
                Box::new(rest),
            ),
            st,
            tail,
            styling,
            blocks,
        ),
{
    reveal(rendered_right);
    let inner = Markup::Span(MdTag::TableHead, Box::new(cells), Box::new(body));
    let m = Markup::Span(tag, Box::new(inner), Box::new(rest));
    let events = flatten(m) + tail;
    let behind = flatten(rest) + tail;
    let begun = head_state(st, tag, styling);
    lemma_head_depth(st, tag, styling);
    let head = render(cells, begun, styling, blocks);
    let middle = closed(head.state, TagKind::TableHead, styling);
    let rows = render(body, middle, styling, head.blocks);
    lemma_named_states(st, tag, TagKind::Table, styling);
    lemma_named_states(opened(st, tag, styling), MdTag::TableHead, TagKind::Table, styling);
    lemma_named_states(head.state, tag, TagKind::TableHead, styling);
    lemma_named_states(rows.state, tag, TagKind::Table, styling);
    lemma_table_run(st, tag, flatten(cells), flatten(body), behind, styling, blocks, head, rows);
    let done = closed(rows.state, TagKind::Table, styling);
    let node = table_node(head.nodes, rows.nodes, styling);
    assert(events =~= seq![MdEvent::Start(tag)] + flatten(inner) + seq![
        MdEvent::End(TagKind::Table),
    ] + behind);
    let after = render(rest, done, styling, rows.blocks);
    lemma_extended_twice(st.stack, seq![node], after.nodes);
}

/// The conversion of a well-nested piece, from any state in which the container
/// is open and before anything that may follow: it goes on behind the piece in
/// the state that the rendering of the piece by its structure gives; just as
/// many elements are open then as were before, those below the innermost are
/// untouched, and the innermost has got the rendered nodes as its last children.
/// Nothing went wrong on the way.
pub proof fn lemma_render(
    m: Markup,
    st: State,
    tail: Seq<MdEvent>,
    styling: StyleView,
    blocks: Seq<Seq<NodeView>>,
)
    requires
        well_nested(m),
        st.stack.len() >= 1,
    ensures
        rendered_right(m, st, tail, styling, blocks),
    decreases m,
{
    match m {
        Markup::Empty => {
            lemma_render_empty(st, tail, styling, blocks);
        },
        Markup::Leaf(event, rest) => {
            let next = after_leaf(st, event, styling, blocks);
            lemma_leaf_depth(st, event, styling, blocks);
            lemma_render(*rest, next.state, tail, styling, next.blocks);
            lemma_render_leaf(event, *rest, st, tail, styling, blocks);
        },
        Markup::Span(tag, inner, rest) => {
            let behind = flatten(*rest) + tail;
            match tag {
                MdTag::Image { .. } => {
                    lemma_image_depth(st, tag, *inner, styling);
                    lemma_render(
                        *rest,
                        after_image(st, tag, *inner, styling),
                        tail,
                        styling,
                        blocks,
                    );
                    lemma_render_image(tag, *inner, *rest, st, tail, styling, blocks);
                },
                MdTag::Table(_) => {
                    match *inner {
                        Markup::Span(MdTag::TableHead, cells, body) => {
                            let begun = head_state(st, tag, styling);
                            lemma_head_depth(st, tag, styling);
                            let t3 = seq![MdEvent::End(TagKind::Table)] + behind;
                            let t2 = seq![MdEvent::End(TagKind::TableHead)] + (flatten(*body)
                                + t3);
                            lemma_render(*cells, begun, t2, styling, blocks);
                            let head = render(*cells, begun, styling, blocks);
                            let middle = closed(head.state, TagKind::TableHead, styling);
                            lemma_head_closed(st, tag, *cells, t2, styling, blocks);
                            lemma_render(*body, middle, t3, styling, head.blocks);
                            let rows = render(*body, middle, styling, head.blocks);
                            lemma_table_closed(st, tag, *cells, *body, t3, styling, blocks);
                            lemma_render(
                                *rest,
                                closed(rows.state, TagKind::Table, styling),
                                tail,
                                styling,
                                rows.blocks,
                            );
                            lemma_render_table(
                                tag,
                                *cells,
                                *body,
                                *rest,
                                st,
                                tail,
                                styling,
                                blocks,
                            );
                        },
                        _ => {},
                    }
                },
                _ => {
                    let kind = kind_of(tag);
                    let close = seq![MdEvent::End(kind)] + behind;
                    lemma_opened_depth(st, tag, styling);
                    lemma_render(*inner, opened(st, tag, styling), close, styling, blocks);
                    let within = render(*inner, opened(st, tag, styling), styling, blocks);
                    lemma_span_closed(tag, *inner, st, close, styling, blocks);
                    lemma_render(
                        *rest,
                        closed(within.state, kind, styling),
                        tail,
                        styling,
                        within.blocks,
                    );
                    lemma_render_span(tag, *inner, *rest, st, tail, styling, blocks);
                },
            }
        },
    }
}

/// A well-nested stream is converted to the container around the rendering of
/// its structure, and nothing goes wrong: every `Start` finds its `End` at the
/// depth at which it was opened, and the tree has the shape of the nesting.
pub proof fn lemma_nesting_mirrored(
    m: Markup,
    styling: StyleView,
    highlighting: bool,
    blocks: Seq<Seq<NodeView>>,
)
    requires
        well_nested(m),
    ensures
        outcome_of(flatten(m), styling, highlighting, blocks).root == styled(
            "div"@,
            styling.container,
        ).with_children(render(m, State::initial(styling, highlighting), styling, blocks).nodes),
        outcome_of(flatten(m), styling, highlighting, blocks).anomalies.len() == 0,
{
    let st = State::initial(styling, highlighting);
    lemma_render(m, st, Seq::empty(), styling, blocks);
    reveal(rendered_right);
    reveal(run);
    assert(flatten(m) + Seq::<MdEvent>::empty() =~= flatten(m));
    let r = render(m, st, styling, blocks);
    assert(st.stack.drop_last() =~= Seq::<ElementView>::empty());
    assert(r.state.stack =~= seq![st.stack.last().with_children(r.nodes)]);
}

} // verus!
