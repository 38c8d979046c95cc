//! The footnote numbers of a stream: the labels that a stream touches, in the
//! order in which it touches them, and the numbers that are rendered at those
//! touches. A touch is a footnote reference, in running text or in what an
//! image holds, or the start of a footnote definition.

use crate::event::{MdEvent, MdTag};
use crate::footnotes::{
    labels_after, lemma_numbers_stable_and_ordered, number_at, number_of, touch,
};
use crate::model::{
    definition_element, lemma_step_consumes, raw_labels, raw_piece, raw_text, reference_element,
    run, step, State,
};
use crate::node::NodeView;
use crate::styling::StyleView;
use crate::text::decimal;
use vstd::prelude::*;

verus! {

/// The labels after `touches` were touched in order, starting from `labels`.
pub open spec fn touch_all(labels: Seq<Seq<char>>, touches: Seq<Seq<char>>) -> Seq<Seq<char>>
    decreases touches.len(),
{
    if touches.len() == 0 {
        labels
    } else {
        touch(touch_all(labels, touches.drop_last()), touches.last())
    }
}

/// Whether `numbers` are the numbers that the touches `touches` are answered
/// with, one after the other, starting from `labels`.
pub open spec fn numbered(
    labels: Seq<Seq<char>>,
    touches: Seq<Seq<char>>,
    numbers: Seq<nat>,
) -> bool {
    &&& numbers.len() == touches.len()
    &&& forall|k: int|
        0 <= k < touches.len() ==> #[trigger] numbers[k] == number_of(
            touch_all(labels, touches.take(k)),
            touches[k],
        )
}

/// Touching two runs of labels one after the other is touching them as one run.
pub proof fn lemma_touch_all_append(labels: Seq<Seq<char>>, a: Seq<Seq<char>>, b: Seq<Seq<char>>)
    ensures
        touch_all(labels, a + b) == touch_all(touch_all(labels, a), b),
    decreases b.len(),
{
    if b.len() == 0 {
        assert(a + b =~= a);
    } else {
        lemma_touch_all_append(labels, a, b.drop_last());
        assert((a + b).drop_last() =~= a + b.drop_last());
        assert((a + b).last() == b.last());
    }
}

/// Starting from no labels, the labels after the first `k` touches.
pub proof fn lemma_touch_all_is_labels_after(touches: Seq<Seq<char>>, k: nat)
    requires
        k <= touches.len(),
    ensures
        touch_all(Seq::empty(), touches.take(k as int)) == labels_after(touches, k),
    decreases k,
{
    if k > 0 {
        lemma_touch_all_is_labels_after(touches, (k - 1) as nat);
        assert(touches.take(k as int).drop_last() =~= touches.take(k - 1));
        assert(touches.take(k as int).last() == touches[k - 1]);
    }
}

/// Numbers of two runs of touches, one after the other, are the numbers of the
/// runs as one.
pub proof fn lemma_numbered_append(
    labels: Seq<Seq<char>>,
    a: Seq<Seq<char>>,
    na: Seq<nat>,
    b: Seq<Seq<char>>,
    nb: Seq<nat>,
)
    requires
        numbered(labels, a, na),
        numbered(touch_all(labels, a), b, nb),
    ensures
        numbered(labels, a + b, na + nb),
{
    let all = a + b;
    let numbers = na + nb;
    assert forall|k: int| 0 <= k < all.len() implies #[trigger] numbers[k] == number_of(
        touch_all(labels, all.take(k)),
        all[k],
    ) by {
        if k < a.len() {
            assert(all.take(k) =~= a.take(k));
            assert(numbers[k] == na[k]);
        } else {
            let j = k - a.len();
            assert(all.take(k) =~= a + b.take(j));
            lemma_touch_all_append(labels, a, b.take(j));
            assert(numbers[k] == nb[j]);
        }
    }
}

/// The labels that flattening to text touches: those of the footnote
/// references up to the `End` that closes the construct.
pub open spec fn raw_touches(events: Seq<MdEvent>, nest: nat) -> Seq<Seq<char>>
    decreases events.len(),
{
    if events.len() == 0 {
        Seq::empty()
    } else {
        let rest = events.drop_first();
        match events[0] {
            MdEvent::Start(_) => raw_touches(rest, nest + 1),
            MdEvent::End(_) => if nest == 0 {
                Seq::empty()
            } else {
                raw_touches(rest, (nest - 1) as nat)
            },
            MdEvent::FootnoteReference(label) => seq![label@] + raw_touches(rest, nest),
            _ => raw_touches(rest, nest),
        }
    }
}

/// The numbers that flattening to text writes between square brackets, one for
/// each footnote reference.
pub open spec fn raw_numbers(events: Seq<MdEvent>, nest: nat, labels: Seq<Seq<char>>) -> Seq<nat>
    decreases events.len(),
{
    if events.len() == 0 {
        Seq::empty()
    } else {
        let rest = events.drop_first();
        match events[0] {
            MdEvent::Start(_) => raw_numbers(rest, nest + 1, labels),
            MdEvent::End(_) => if nest == 0 {
                Seq::empty()
            } else {
                raw_numbers(rest, (nest - 1) as nat, labels)
            },
            MdEvent::FootnoteReference(label) => seq![number_of(labels, label@)] + raw_numbers(
                rest,
                nest,
                touch(labels, label@),
            ),
            _ => raw_numbers(rest, nest, labels),
        }
    }
}

/// One touch from `labels`.
proof fn lemma_one_touch(labels: Seq<Seq<char>>, label: Seq<char>)
    ensures
        touch_all(labels, seq![label]) == touch(labels, label),
        numbered(labels, seq![label], seq![number_of(labels, label)]),
        numbered(labels, Seq::empty(), Seq::empty()),
{
    let one = seq![label];
    assert(one.drop_last() =~= Seq::<Seq<char>>::empty());
    assert(touch_all(labels, one.drop_last()) == labels);
    assert(one.take(0) =~= Seq::<Seq<char>>::empty());
}

/// Flattening to text touches the labels of its footnote references in order,
/// and writes the number of each as it stands at that touch.
pub proof fn lemma_raw_numbered(
    events: Seq<MdEvent>,
    nest: nat,
    labels: Seq<Seq<char>>,
    text: Seq<char>,
)
    ensures
        raw_text(events, nest, labels, text).labels == touch_all(
            labels,
            raw_touches(events, nest),
        ),
        numbered(labels, raw_touches(events, nest), raw_numbers(events, nest, labels)),
    decreases events.len(),
{
    lemma_one_touch(labels, Seq::empty());
    if events.len() > 0 {
        let rest = events.drop_first();
        match events[0] {
            MdEvent::Start(_) => {
                lemma_raw_numbered(rest, nest + 1, labels, text);
            },
            MdEvent::End(_) => {
                if nest > 0 {
                    lemma_raw_numbered(rest, (nest - 1) as nat, labels, text);
                }
            },
            MdEvent::FootnoteReference(label) => {
                let after = touch(labels, label@);
                let more = text + raw_piece(events[0], labels);
                lemma_raw_numbered(rest, nest, after, more);
                lemma_one_touch(labels, label@);
                lemma_touch_all_append(labels, seq![label@], raw_touches(rest, nest));
                lemma_numbered_append(
                    labels,
                    seq![label@],
                    seq![number_of(labels, label@)],
                    raw_touches(rest, nest),
                    raw_numbers(rest, nest, after),
                );
            },
            event => {
                lemma_raw_numbered(
                    rest,
                    nest,
                    raw_labels(event, labels),
                    text + raw_piece(event, labels),
                );
            },
        }
    }
}

/// The labels that the first of `events` touches, with what it consumes.
pub open spec fn step_touches(events: Seq<MdEvent>) -> Seq<Seq<char>>
    recommends
        events.len() > 0,
{
    match events[0] {
        MdEvent::FootnoteReference(label) => seq![label@],
        MdEvent::Start(MdTag::FootnoteDefinition(label)) => seq![label@],
        MdEvent::Start(MdTag::Image { .. }) => raw_touches(events.drop_first(), 0),
        _ => Seq::empty(),
    }
}

/// The numbers that the first of `events` renders in `st`, with what it
/// consumes: that of a reference in its link, that of a definition in its
/// label, those of the references that an image holds in its alternative text.
pub open spec fn step_numbers(st: State, events: Seq<MdEvent>) -> Seq<nat>
    recommends
        events.len() > 0,
{
    match events[0] {
        MdEvent::FootnoteReference(label) => seq![number_of(st.labels, label@)],
        MdEvent::Start(MdTag::FootnoteDefinition(label)) => seq![number_of(st.labels, label@)],
        MdEvent::Start(MdTag::Image { .. }) => raw_numbers(events.drop_first(), 0, st.labels),
        _ => Seq::empty(),
    }
}

/// The labels that the conversion of `events` from `st` touches, in order.
#[verifier::opaque]
pub open spec fn touches(
    st: State,
    events: Seq<MdEvent>,
    styling: StyleView,
    blocks: Seq<Seq<NodeView>>,
) -> Seq<Seq<char>>
    decreases events.len(),
{
    if events.len() == 0 {
        Seq::empty()
    } else {
        let next = step(st, events, styling, blocks);
        if next.rest.len() < events.len() {
            step_touches(events) + touches(next.state, next.rest, styling, next.blocks)
        } else {
            step_touches(events)
        }
    }
}

/// The footnote numbers that the conversion of `events` from `st` renders, in
/// order.
#[verifier::opaque]
pub open spec fn numbers(
    st: State,
    events: Seq<MdEvent>,
    styling: StyleView,
    blocks: Seq<Seq<NodeView>>,
) -> Seq<nat>
    decreases events.len(),
{
    if events.len() == 0 {
        Seq::empty()
    } else {
        let next = step(st, events, styling, blocks);
        if next.rest.len() < events.len() {
            step_numbers(st, events) + numbers(next.state, next.rest, styling, next.blocks)
        } else {
            step_numbers(st, events)
        }
    }
}

/// What a footnote reference and the start of a footnote definition render: the
/// element of the reference, or of the definition, with the number that
/// `step_numbers` gives for the step.
pub proof fn lemma_touch_rendered(
    st: State,
    events: Seq<MdEvent>,
    styling: StyleView,
    blocks: Seq<Seq<NodeView>>,
)
    requires
        events.len() > 0,
    ensures
        events[0] matches MdEvent::FootnoteReference(label) ==> step(
            st,
            events,
            styling,
            blocks,
        ).state == (State { labels: touch(st.labels, label@), ..st }).add_child(
            NodeView::Element(reference_element(label@, step_numbers(st, events)[0], styling)),
        ),
        events[0] matches MdEvent::Start(MdTag::FootnoteDefinition(label)) ==> step(
            st,
            events,
            styling,
            blocks,
        ).state == (State { labels: touch(st.labels, label@), ..st }).push(
            definition_element(label@, step_numbers(st, events)[0], styling),
        ),
        events[0] matches MdEvent::FootnoteReference(label) ==> raw_piece(events[0], st.labels)
            == "["@ + decimal(step_numbers(st, events)[0]) + "]"@,
{
}

/// One step touches its labels in order, and renders the number of each as it
/// stands at that touch.
pub proof fn lemma_step_numbered(
    st: State,
    events: Seq<MdEvent>,
    styling: StyleView,
    blocks: Seq<Seq<NodeView>>,
)
    requires
        events.len() > 0,
    ensures
        step(st, events, styling, blocks).state.labels == touch_all(
            st.labels,
            step_touches(events),
        ),
        numbered(st.labels, step_touches(events), step_numbers(st, events)),
{
    lemma_one_touch(st.labels, Seq::empty());
    match events[0] {
        MdEvent::FootnoteReference(label) => {
            lemma_one_touch(st.labels, label@);
        },
        MdEvent::Start(tag) => {
            match tag {
                MdTag::FootnoteDefinition(label) => {
                    lemma_one_touch(st.labels, label@);
                },
                MdTag::Image { .. } => {
                    lemma_raw_numbered(events.drop_first(), 0, st.labels, Seq::empty());
                },
                _ => {},
            }
        },
        _ => {},
    }
}

/// A conversion touches the labels of its stream in order: the labels behind it
/// are those before it with the touches of the stream, and each number that it
/// renders is the number of the label as it stands at that touch.
pub proof fn lemma_run_numbered(
    st: State,
    events: Seq<MdEvent>,
    styling: StyleView,
    blocks: Seq<Seq<NodeView>>,
)
    ensures
        run(st, events, styling, blocks).labels == touch_all(
            st.labels,
            touches(st, events, styling, blocks),
        ),
        numbered(
            st.labels,
            touches(st, events, styling, blocks),
            numbers(st, events, styling, blocks),
        ),
    decreases events.len(),
{
    reveal(run);
    reveal(touches);
    reveal(numbers);
    lemma_one_touch(st.labels, Seq::empty());
    if events.len() > 0 {
        let next = step(st, events, styling, blocks);
        lemma_step_consumes(st, events, styling, blocks);
        lemma_step_numbered(st, events, styling, blocks);
        lemma_run_numbered(next.state, next.rest, styling, next.blocks);
        let later = touches(next.state, next.rest, styling, next.blocks);
        lemma_touch_all_append(st.labels, step_touches(events), later);
        lemma_numbered_append(
            st.labels,
            step_touches(events),
            step_numbers(st, events),
            later,
            numbers(next.state, next.rest, styling, next.blocks),
        );
    }
}

/// Footnote numbers are stable and follow the order of first touch, in every
/// stream: where `touches` are the labels that the stream touches, in order, and
/// `numbers` the numbers that are rendered at those touches, the number at
/// touch `k` is the one that the `k`-th of these touches is answered with,
/// starting from no labels. So two touches of one label render one number; a
/// label touched for the first time renders a number above all that were
/// rendered before, the count of the labels so far plus one; and the first
/// touch renders 1.
pub proof fn lemma_stream_numbers(
    events: Seq<MdEvent>,
    styling: StyleView,
    highlighting: bool,
    blocks: Seq<Seq<NodeView>>,
)
    ensures
        ({
            let st = State::initial(styling, highlighting);
            let touched = touches(st, events, styling, blocks);
            let rendered = numbers(st, events, styling, blocks);
            &&& rendered.len() == touched.len()
            &&& run(st, events, styling, blocks).labels == labels_after(touched, touched.len())
            &&& forall|k: int|
                0 <= k < touched.len() ==> #[trigger] rendered[k] == number_at(touched, k)
            &&& touched.len() > 0 ==> rendered[0] == 1
            &&& forall|i: int, j: int|
                0 <= i < j < touched.len() && touched[i] == touched[j] ==> #[trigger] rendered[i]
                    == #[trigger] rendered[j]
            &&& forall|i: int, j: int|
                0 <= i < j < touched.len() && (forall|k: int|
                    0 <= k < j ==> touched[k] != touched[j]) ==> #[trigger] rendered[i]
                    < #[trigger] rendered[j] && rendered[j] == labels_after(
                    touched,
                    j as nat,
                ).len() + 1
        }),
{
    let st = State::initial(styling, highlighting);
    let touched = touches(st, events, styling, blocks);
    let rendered = numbers(st, events, styling, blocks);
    lemma_run_numbered(st, events, styling, blocks);
    lemma_touch_all_is_labels_after(touched, touched.len());
    assert(touched.take(touched.len() as int) =~= touched);
    assert forall|k: int| 0 <= k < touched.len() implies #[trigger] rendered[k] == number_at(
        touched,
        k,
    ) by {
        lemma_touch_all_is_labels_after(touched, k as nat);
    }
    if touched.len() > 0 {
        assert(labels_after(touched, 0) =~= Seq::<Seq<char>>::empty());
    }
    assert forall|i: int, j: int|
        0 <= i < j < touched.len() && touched[i] == touched[j] implies #[trigger] rendered[i]
        == #[trigger] rendered[j] by {
        lemma_numbers_stable_and_ordered(touched, i, j);
    }
    assert forall|i: int, j: int|
        0 <= i < j < touched.len() && (forall|k: int|
            0 <= k < j ==> touched[k] != touched[j]) implies #[trigger] rendered[i]
        < #[trigger] rendered[j] && rendered[j] == labels_after(touched, j as nat).len()
        + 1 by {
        lemma_numbers_stable_and_ordered(touched, i, j);
    }
}

} // verus!
