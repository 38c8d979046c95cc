//! Dangling `End` events: they are recorded, and change nothing else.

use crate::event::{MdEvent, TagKind};
use crate::markup::{flatten, render, well_nested, Markup};
use crate::model::{
    closes, dangling, end_tag, finish, lemma_step_consumes, outcome_of, run, step, Anomaly, State,
};
use crate::nesting::{lemma_end_step, lemma_render, rendered_right};
use crate::node::NodeView;
use crate::styling::StyleView;
use vstd::prelude::*;

verus! {

/// Whether two states differ at most in what went wrong.
pub open spec fn same_but_anomalies(a: State, b: State) -> bool {
    a == (State { anomalies: a.anomalies, ..b })
}

/// What goes wrong while `events` are converted from `st`.
pub open spec fn new_anomalies(
    st: State,
    events: Seq<MdEvent>,
    styling: StyleView,
    blocks: Seq<Seq<NodeView>>,
) -> Seq<Anomaly> {
    run(st, events, styling, blocks).anomalies.skip(st.anomalies.len() as int)
}

/// What goes wrong in one step: a dangling `End`, or nothing.
pub open spec fn step_anomalies(st: State, event: MdEvent) -> Seq<Anomaly> {
    match event {
        MdEvent::End(kind) => if dangling(st, kind) {
            seq![Anomaly::DanglingEnd(kind)]
        } else {
            Seq::empty()
        },
        _ => Seq::empty(),
    }
}

proof fn lemma_step_anomalies(
    a: State,
    b: State,
    events: Seq<MdEvent>,
    styling: StyleView,
    blocks: Seq<Seq<NodeView>>,
)
    requires
        events.len() > 0,
        same_but_anomalies(a, b),
    ensures
        step(a, events, styling, blocks).rest == step(b, events, styling, blocks).rest,
        step(a, events, styling, blocks).blocks == step(b, events, styling, blocks).blocks,
        same_but_anomalies(
            step(a, events, styling, blocks).state,
            step(b, events, styling, blocks).state,
        ),
        step(a, events, styling, blocks).state.anomalies == a.anomalies + step_anomalies(
            a,
            events[0],
        ),
        step(b, events, styling, blocks).state.anomalies == b.anomalies + step_anomalies(
            a,
            events[0],
        ),
{
    let sa = step(a, events, styling, blocks).state;
    let sb = step(b, events, styling, blocks).state;
    assert(sa.anomalies =~= a.anomalies + step_anomalies(a, events[0]));
    assert(sb.anomalies =~= b.anomalies + step_anomalies(a, events[0]));
}

/// What went wrong before has no influence on the conversion: two states that
/// differ at most in it are converted alike, and the same goes wrong from both.
pub proof fn lemma_run_anomalies(
    a: State,
    b: State,
    events: Seq<MdEvent>,
    styling: StyleView,
    blocks: Seq<Seq<NodeView>>,
)
    requires
        same_but_anomalies(a, b),
    ensures
        same_but_anomalies(run(a, events, styling, blocks), run(b, events, styling, blocks)),
        run(a, events, styling, blocks).anomalies == a.anomalies + new_anomalies(
            a,
            events,
            styling,
            blocks,
        ),
        run(b, events, styling, blocks).anomalies == b.anomalies + new_anomalies(
            a,
            events,
            styling,
            blocks,
        ),
    decreases events.len(),
{
    reveal(run);
    if events.len() == 0 {
        assert(a.anomalies + new_anomalies(a, events, styling, blocks) =~= a.anomalies);
        assert(b.anomalies + new_anomalies(a, events, styling, blocks) =~= b.anomalies);
    } else {
        let sa = step(a, events, styling, blocks);
        let sb = step(b, events, styling, blocks);
        lemma_step_anomalies(a, b, events, styling, blocks);
        lemma_step_consumes(a, events, styling, blocks);
        lemma_run_anomalies(sa.state, sb.state, sa.rest, styling, sa.blocks);
        let first = step_anomalies(a, events[0]);
        let later = new_anomalies(sa.state, sa.rest, styling, sa.blocks);
        let ra = run(a, events, styling, blocks);
        let rb = run(b, events, styling, blocks);
        assert(ra.anomalies =~= a.anomalies + (first + later));
        assert(rb.anomalies =~= b.anomalies + (first + later));
        assert(new_anomalies(a, events, styling, blocks) =~= first + later);
    }
}

/// A dangling `End` is absorbed: the conversion goes on behind it as it would
/// without it, but for the record of it.
pub proof fn lemma_dangling_end_absorbed(
    st: State,
    kind: TagKind,
    tail: Seq<MdEvent>,
    styling: StyleView,
    blocks: Seq<Seq<NodeView>>,
)
    requires
        dangling(st, kind),
    ensures
        same_but_anomalies(
            run(st, seq![MdEvent::End(kind)] + tail, styling, blocks),
            run(st, tail, styling, blocks),
        ),
        run(st, seq![MdEvent::End(kind)] + tail, styling, blocks).anomalies
            == st.anomalies.push(Anomaly::DanglingEnd(kind)) + new_anomalies(
            st,
            tail,
            styling,
            blocks,
        ),
        run(st, tail, styling, blocks).anomalies == st.anomalies + new_anomalies(
            st,
            tail,
            styling,
            blocks,
        ),
{
    lemma_end_step(st, kind, tail, styling, blocks);
    let skipped = end_tag(st, kind, styling);
    lemma_run_anomalies(st, skipped, tail, styling, blocks);
}

/// An `End` that closes something, put behind a well-nested stream and before
/// any events, changes nothing of the tree: all that stands before and behind
/// it is rendered as without it. It is recorded, before whatever else goes
/// wrong.
pub proof fn lemma_stray_end_absorbed(
    before: Markup,
    kind: TagKind,
    after: Seq<MdEvent>,
    styling: StyleView,
    highlighting: bool,
    blocks: Seq<Seq<NodeView>>,
)
    requires
        well_nested(before),
        closes(kind, highlighting) > 0,
    ensures
        outcome_of(
            flatten(before) + seq![MdEvent::End(kind)] + after,
            styling,
            highlighting,
            blocks,
        ).root == outcome_of(flatten(before) + after, styling, highlighting, blocks).root,
        outcome_of(
            flatten(before) + seq![MdEvent::End(kind)] + after,
            styling,
            highlighting,
            blocks,
        ).anomalies == seq![Anomaly::DanglingEnd(kind)] + outcome_of(
            flatten(before) + after,
            styling,
            highlighting,
            blocks,
        ).anomalies,
{
    let st = State::initial(styling, highlighting);
    let stray = seq![MdEvent::End(kind)] + after;
    assert(flatten(before) + seq![MdEvent::End(kind)] + after =~= flatten(before) + stray);
    lemma_render(before, st, stray, styling, blocks);
    lemma_render(before, st, after, styling, blocks);
    reveal(rendered_right);
    let r = render(before, st, styling, blocks);
    lemma_dangling_end_absorbed(r.state, kind, after, styling, r.blocks);
    let with = run(r.state, stray, styling, r.blocks);
    let without = run(r.state, after, styling, r.blocks);
    let news = new_anomalies(r.state, after, styling, r.blocks);
    assert(r.state.anomalies =~= Seq::<Anomaly>::empty());
    assert(with.anomalies =~= seq![Anomaly::DanglingEnd(kind)] + news);
    assert(without.anomalies =~= news);
    let o1 = finish(with);
    let o2 = finish(without);
    assert(o1.anomalies =~= seq![Anomaly::DanglingEnd(kind)] + o2.anomalies);
}

} // verus!
