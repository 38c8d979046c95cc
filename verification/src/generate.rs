//! The conversion itself: a stack of elements under construction that follows
//! the `Start` and `End` events of the stream.

use crate::event::{AlertKind, HeadingRank, LinkKind, MdEvent, MdTag, TagKind};
use crate::footnotes::FootnoteRegistry;
use crate::highlighting::{highlight, highlighted};
use crate::model::{
    alert_class, cell_element, checkbox_element, code_element, definition_element, end_tag,
    finish, heading_css, heading_element, heading_name, image_element, leaf, lemma_skip_first,
    lemma_step_columns, lemma_step_consumes, link_element, list_element, math_element,
    outcome_of, quote_element, raw_piece, raw_text, reference_element, request, requests, run,
    start_tag, styled, tree_of, Anomaly, Outcome, RawText, State,
};
use crate::node::{
    elements_view, lemma_element_node_view, node_well_formed, nodes_view, Element, ElementView,
    Node, NodeView,
};
use crate::styling::{CMarkStyle, Css, StyleView};
use crate::table_state::{columns_within, TableState};
use crate::text::{append, decimal_string, join, leading_word};
use crate::wellformed::{blocks_well_formed, lemma_runs_well_formed, lemma_tree_well_formed};
use vstd::prelude::*;

verus! {

/// The element `name` with a copy of `css`, if that is not empty.
fn styled_element(name: &str, css: &Css) -> (r: Element)
    ensures
        r@ == styled(name@, css@),
{
    Element::new(name).css(css)
}

fn heading_tag(level: HeadingRank) -> (r: &'static str)
    ensures
        r@ == heading_name(level),
{
    match level {
        HeadingRank::H1 => "h1",
        HeadingRank::H2 => "h2",
        HeadingRank::H3 => "h3",
        HeadingRank::H4 => "h4",
        HeadingRank::H5 => "h5",
        HeadingRank::H6 => "h6",
    }
}

fn heading_style(level: HeadingRank, styling: &CMarkStyle) -> (r: &Css)
    ensures
        r@ == heading_css(level, styling@),
{
    match level {
        HeadingRank::H1 => &styling.h1,
        HeadingRank::H2 => &styling.h2,
        HeadingRank::H3 => &styling.h3,
        HeadingRank::H4 => &styling.h4,
        HeadingRank::H5 => &styling.h5,
        HeadingRank::H6 => &styling.h6,
    }
}

fn heading(
    level: HeadingRank,
    id: &Option<String>,
    classes: &Vec<String>,
    styling: &CMarkStyle,
) -> (r: Element)
    ensures
        r@ == heading_element(level, *id, classes@, styling@),
{
    let mut element = Element::new(heading_tag(level));
    if let Some(id) = id {
        element = element.attr("id", id.clone());
    }
    if classes.len() > 0 {
        element = element.attr("class", join(classes, " "));
    }
    element.css(heading_style(level, styling))
}

fn cell(tables: &TableState, styling: &CMarkStyle) -> (r: Element)
    ensures
        r@ == cell_element(tables@, styling@),
{
    let head = tables.head();
    let mut element = if head {
        Element::new("th")
    } else {
        Element::new("td")
    };
    if let Some(name) = tables.alignment() {
        element = element.attr("style", append("text-align: ", name.as_str()));
    }
    if head {
        element.css(&styling.th)
    } else {
        element.css(&styling.td)
    }
}

fn code(info: &Option<String>) -> (r: Element)
    ensures
        r@ == code_element(*info),
{
    let element = Element::new("code");
    match info {
        Some(info) => {
            let language = leading_word(info.as_str());
            if language.as_str().unicode_len() > 0 {
                element.attr("class", append("language-", language.as_str()))
            } else {
                element
            }
        },
        None => element,
    }
}

fn alert_name(kind: AlertKind) -> (r: &'static str)
    ensures
        r@ == alert_class(kind),
{
    match kind {
        AlertKind::Note => "markdown-alert-note",
        AlertKind::Tip => "markdown-alert-tip",
        AlertKind::Important => "markdown-alert-important",
        AlertKind::Warning => "markdown-alert-warning",
        AlertKind::Caution => "markdown-alert-caution",
    }
}

fn quote(kind: &Option<AlertKind>, styling: &CMarkStyle) -> (r: Element)
    ensures
        r@ == quote_element(*kind, styling@),
{
    let mut element = Element::new("blockquote");
    if let Some(kind) = kind {
        element = element.attr("class", String::from_str(alert_name(*kind)));
    }
    element.css(&styling.blockquote)
}

fn list(start: &Option<u64>, styling: &CMarkStyle) -> (r: Element)
    ensures
        r@ == list_element(*start, styling@),
{
    match start {
        None => styled_element("ul", &styling.ul),
        Some(n) => {
            if *n == 1 {
                styled_element("ol", &styling.ol)
            } else {
                Element::new("ol").attr("start", decimal_string(*n)).css(&styling.ol)
            }
        },
    }
}

fn is_email(kind: &LinkKind) -> (r: bool)
    ensures
        r == (*kind == LinkKind::Email),
{
    match kind {
        LinkKind::Email => true,
        _ => false,
    }
}

fn link(kind: &LinkKind, dest_url: &String, title: &String, styling: &CMarkStyle) -> (r: Element)
    ensures
        r@ == link_element(*kind, dest_url@, title@, styling@),
{
    let href = if is_email(kind) {
        append("mailto:", dest_url.as_str())
    } else {
        dest_url.clone()
    };
    let mut element = Element::new("a").attr("href", href);
    if title.as_str().unicode_len() > 0 {
        element = element.attr("title", title.clone());
    }
    element.css(&styling.a)
}

fn image(dest_url: &String, alt: String, title: &String, styling: &CMarkStyle) -> (r: Element)
    ensures
        r@ == image_element(dest_url@, alt@, title@, styling@),
{
    let element = Element::new("img").attr("src", dest_url.clone()).attr("alt", alt).css(
        &styling.img,
    );
    if title.as_str().unicode_len() > 0 {
        element.attr("title", title.clone())
    } else {
        element
    }
}

fn definition(label: &String, number: usize, styling: &CMarkStyle) -> (r: Element)
    ensures
        r@ == definition_element(label@, number as nat, styling@),
{
    let sup = Element::new("sup").attr(
        "class",
        String::from_str("footnote-definition-label"),
    ).child_text(decimal_string(number as u64)).css(&styling.sup);
    proof {
        lemma_element_node_view(sup);
    }
    Element::new("div").attr("class", String::from_str("footnote-definition")).attr(
        "id",
        label.clone(),
    ).child(Node::Element(sup))
}

fn reference(label: &String, number: usize, styling: &CMarkStyle) -> (r: Element)
    ensures
        r@ == reference_element(label@, number as nat, styling@),
{
    let anchor = Element::new("a").attr("href", append("#", label.as_str())).child_text(
        decimal_string(number as u64),
    );
    proof {
        lemma_element_node_view(anchor);
    }
    Element::new("sup").attr("class", String::from_str("footnote-reference")).child(
        Node::Element(anchor),
    ).css(&styling.sup)
}

fn checkbox(checked: bool) -> (r: Element)
    ensures
        r@ == checkbox_element(checked),
{
    let element = Element::new("input").attr("disabled", String::new()).attr(
        "type",
        String::from_str("checkbox"),
    );
    proof {
        reveal_strlit("");
        assert(""@ =~= Seq::<char>::empty());
    }
    if checked {
        element.attr("checked", String::from_str("checked"))
    } else {
        element
    }
}

fn math(display: bool, source: &String) -> (r: Element)
    ensures
        r@ == math_element(display, source@),
{
    let class = if display {
        "math math-display"
    } else {
        "math math-inline"
    };
    Element::new("span").attr("class", String::from_str(class)).child_text(source.clone())
}

/// The state of a conversion: the elements under construction and what is
/// carried along with them.
struct Writer {
    highlighting: bool,
    non_writing: bool,
    tables: TableState,
    footnotes: FootnoteRegistry,
    stack: Vec<Element>,
    code_info: Option<String>,
    anomalies: Vec<Anomaly>,
}

impl View for Writer {
    type V = State;

    closed spec fn view(&self) -> State {
        State {
            highlighting: self.highlighting,
            non_writing: self.non_writing,
            tables: self.tables@,
            labels: self.footnotes@,
            stack: elements_view(self.stack@),
            code_info: match self.code_info {
                Some(info) => Some(info@),
                None => None,
            },
            anomalies: self.anomalies@,
        }
    }
}

impl Writer {
    /// The state before the first event: the container is open.
    fn new(styling: &CMarkStyle, highlighting: bool) -> (r: Writer)
        ensures
            r@ == State::initial(styling@, highlighting),
    {
        let mut stack: Vec<Element> = Vec::new();
        stack.push(styled_element("div", &styling.container));
        let r = Writer {
            highlighting,
            non_writing: false,
            tables: TableState::new(),
            footnotes: FootnoteRegistry::new(),
            stack,
            code_info: None,
            anomalies: Vec::new(),
        };
        assert(r@.stack =~= seq![styled("div"@, styling.container@)]);
        assert(r@.anomalies =~= Seq::empty());
        r
    }

    /// Opens `element`.
    fn push_node(&mut self, element: Element)
        ensures
            final(self)@ == old(self)@.push(element@),
    {
        self.stack.push(element);
        assert(self@.stack =~= old(self)@.stack.push(element@));
    }

    /// Opens `element` with the descriptor `css`, if that is not empty.
    fn push_element_styled(&mut self, element: Element, css: &Css)
        ensures
            final(self)@ == old(self)@.push(element@.css(css@)),
    {
        self.push_node(element.css(css));
    }

    /// Opens the element `name` with the descriptor `css`, if that is not empty.
    fn push_elname(&mut self, name: &str, css: &Css)
        ensures
            final(self)@ == old(self)@.push(styled(name@, css@)),
    {
        self.push_node(styled_element(name, css));
    }

    /// Finishes the innermost element into the one below it. The container
    /// stays open.
    fn pop_node(&mut self)
        ensures
            final(self)@ == old(self)@.pop(),
    {
        if self.stack.len() >= 2 {
            let child = self.stack.pop().unwrap();
            let parent = self.stack.pop().unwrap();
            proof {
                lemma_element_node_view(child);
            }
            self.stack.push(parent.child(Node::Element(child)));
            assert(self@.stack =~= old(self)@.pop().stack);
        }
    }

    /// Gives the innermost element one more child.
    fn add_child(&mut self, node: Node)
        ensures
            final(self)@ == old(self)@.add_child(node@),
    {
        if self.stack.len() > 0 {
            let parent = self.stack.pop().unwrap();
            self.stack.push(parent.child(node));
            assert(self@.stack =~= old(self)@.add_child(node@).stack);
        }
    }

    /// Gives the innermost element one more child, an element.
    fn add_element(&mut self, element: Element)
        ensures
            final(self)@ == old(self)@.add_child(NodeView::Element(element@)),
    {
        proof {
            lemma_element_node_view(element);
        }
        self.add_child(Node::Element(element));
    }

    /// Gives the innermost element `nodes` as further children.
    fn add_children(&mut self, nodes: Vec<Node>)
        ensures
            final(self)@ == old(self)@.add_children(nodes_view(nodes@)),
    {
        if self.stack.len() > 0 {
            let parent = self.stack.pop().unwrap();
            self.stack.push(parent.with_children(nodes));
            assert(self@.stack =~= old(self)@.add_children(nodes_view(nodes@)).stack);
        }
    }

    /// Gives the innermost element one more child, the empty element `name`.
    fn add_child_name(&mut self, name: &str)
        ensures
            final(self)@ == old(self)@.add_child(NodeView::Element(ElementView::new(name@))),
    {
        self.add_element(Element::new(name));
    }
}

impl Writer {
    /// Flattens what follows `pos` to text, up to the `End` that closes the
    /// construct whose `Start` stands before `pos`, and returns the text with
    /// the place behind that `End`.
    fn raw_text(&mut self, events: &Vec<MdEvent>, pos: usize) -> (r: (String, usize))
        requires
            pos <= events.len(),
        ensures
            pos <= r.1 <= events.len(),
            ({
                let raw = raw_text(events@.skip(pos as int), 0, old(self)@.labels, Seq::empty());
                &&& r.0@ == raw.text
                &&& events@.skip(r.1 as int) == raw.rest
                &&& final(self)@ == (State { labels: raw.labels, ..old(self)@ })
            }),
    {
        let mut nest: usize = 0;
        let mut writer = String::new();
        let mut i: usize = pos;
        let mut open = true;
        let ghost whole = raw_text(events@.skip(pos as int), 0, old(self)@.labels, Seq::empty());
        while open && i < events.len()
            invariant
                pos <= i <= events.len(),
                nest <= i - pos,
                self@ == (State { labels: self@.labels, ..old(self)@ }),
                whole == raw_text(events@.skip(pos as int), 0, old(self)@.labels, Seq::empty()),
                open ==> whole == raw_text(
                    events@.skip(i as int),
                    nest as nat,
                    self@.labels,
                    writer@,
                ),
                !open ==> whole == (RawText {
                    text: writer@,
                    rest: events@.skip(i as int),
                    labels: self@.labels,
                }),
            decreases events.len() - i,
        {
            let ghost here = events@.skip(i as int);
            let ghost labels = self@.labels;
            let ghost text = writer@;
            assert(here.len() > 0 && here[0] == events@[i as int]);
            assert(here.drop_first() =~= events@.skip(i + 1));
            let event = &events[i];
            i = i + 1;
            match event {
                MdEvent::Start(_) => {
                    nest = nest + 1;
                },
                MdEvent::End(_) => {
                    if nest == 0 {
                        open = false;
                    } else {
                        nest = nest - 1;
                    }
                },
                MdEvent::Html(_) => {
                    assert(text + raw_piece(*event, labels) =~= text);
                },
                MdEvent::InlineHtml(s) => {
                    writer.append(s.as_str());
                },
                MdEvent::Code(s) => {
                    writer.append(s.as_str());
                },
                MdEvent::Text(s) => {
                    writer.append(s.as_str());
                },
                MdEvent::InlineMath(s) => {
                    writer.append("$");
                    writer.append(s.as_str());
                    writer.append("$");
                    assert(writer@ =~= text + raw_piece(*event, labels));
                },
                MdEvent::DisplayMath(s) => {
                    writer.append("$$");
                    writer.append(s.as_str());
                    writer.append("$$");
                    assert(writer@ =~= text + raw_piece(*event, labels));
                },
                MdEvent::SoftBreak => {
                    writer.append(" ");
                },
                MdEvent::HardBreak => {
                    writer.append(" ");
                },
                MdEvent::Rule => {
                    writer.append(" ");
                },
                MdEvent::FootnoteReference(label) => {
                    let number = self.footnotes.resolve(label.as_str());
                    writer.append("[");
                    writer.append(decimal_string(number as u64).as_str());
                    writer.append("]");
                    assert(writer@ =~= text + raw_piece(*event, labels));
                },
                MdEvent::TaskListMarker(checked) => {
                    if *checked {
                        writer.append("[x]");
                    } else {
                        writer.append("[ ]");
                    }
                },
            }
        }
        proof {
            if open {
                assert(events@.skip(i as int).len() == 0);
            }
        }
        (writer, i)
    }
}

impl Writer {
    /// Opens what `tag` starts. `pos` is the place behind the `Start`; the place
    /// to go on at is returned, which lies further on only for an image.
    fn start_tag(
        &mut self,
        tag: &MdTag,
        events: &Vec<MdEvent>,
        pos: usize,
        styling: &CMarkStyle,
    ) -> (next: usize)
        requires
            pos <= events.len(),
        ensures
            pos <= next <= events.len(),
            final(self)@ == start_tag(old(self)@, *tag, events@.skip(pos as int), styling@).0,
            events@.skip(next as int) == start_tag(
                old(self)@,
                *tag,
                events@.skip(pos as int),
                styling@,
            ).1,
    {
        match tag {
            MdTag::HtmlBlock => {},
            MdTag::Paragraph => {
                self.push_elname("p", &styling.p);
            },
            MdTag::Heading { level, id, classes } => {
                self.push_node(heading(*level, id, classes, styling));
            },
            MdTag::Table(alignments) => {
                self.tables.open(alignments);
                self.push_element_styled(Element::new("table"), &styling.table);
            },
            MdTag::TableHead => {
                self.tables.begin_head();
                self.push_elname("thead", &styling.thead);
                self.push_elname("tr", &styling.tr);
            },
            MdTag::TableRow => {
                self.tables.begin_row();
                self.push_elname("tr", &styling.tr);
            },
            MdTag::TableCell => {
                let element = cell(&self.tables, styling);
                self.push_node(element);
            },
            MdTag::CodeBlock(info) => {
                self.push_element_styled(Element::new("pre"), &styling.codeblock);
                if self.highlighting {
                    self.code_info = match info {
                        Some(info) => Some(info.clone()),
                        None => Some(String::new()),
                    };
                } else {
                    self.push_node(code(info));
                }
            },
            MdTag::BlockQuote(kind) => {
                self.push_node(quote(kind, styling));
            },
            MdTag::List(start) => {
                self.push_node(list(start, styling));
            },
            MdTag::Item => {
                self.push_elname("li", &styling.li);
            },
            MdTag::DefinitionList => {
                self.push_elname("dl", &styling.dl);
            },
            MdTag::DefinitionListTitle => {
                self.push_elname("dt", &styling.dt);
            },
            MdTag::DefinitionListDefinition => {
                self.push_elname("dd", &styling.dd);
            },
            MdTag::Subscript => {
                self.push_elname("sub", &styling.sub);
            },
            MdTag::Superscript => {
                self.push_elname("sup", &styling.sup);
            },
            MdTag::Emphasis => {
                self.push_elname("em", &styling.em);
            },
            MdTag::Strong => {
                self.push_elname("strong", &styling.strong);
            },
            MdTag::Strikethrough => {
                self.push_elname("del", &styling.del);
            },
            MdTag::Link { kind, dest_url, title } => {
                self.push_node(link(kind, dest_url, title, styling));
            },
            MdTag::Image { dest_url, title } => {
                let (alt, next) = self.raw_text(events, pos);
                self.add_element(image(dest_url, alt, title, styling));
                return next;
            },
            MdTag::FootnoteDefinition(label) => {
                let number = self.footnotes.resolve(label.as_str());
                self.push_node(definition(label, number, styling));
            },
            MdTag::MetadataBlock => {
                self.non_writing = true;
            },
        }
        pos
    }

    /// How many open elements an `End` of this kind closes.
    fn closes(&self, kind: TagKind) -> (r: usize)
        ensures
            r == crate::model::closes(kind, self@.highlighting),
    {
        match kind {
            TagKind::HtmlBlock => 0,
            TagKind::Image => 0,
            TagKind::MetadataBlock => 0,
            TagKind::Table => 2,
            TagKind::TableHead => 2,
            TagKind::CodeBlock => if self.highlighting {
                1
            } else {
                2
            },
            _ => 1,
        }
    }

    /// Closes what an `End` of this kind ends, if that much is open.
    fn end_tag(&mut self, kind: TagKind, styling: &CMarkStyle)
        requires
            columns_within(old(self)@.tables, (usize::MAX - 1) as nat),
        ensures
            final(self)@ == end_tag(old(self)@, kind, styling@),
    {
        if self.stack.len() < self.closes(kind) + 1 {
            self.anomalies.push(Anomaly::DanglingEnd(kind));
            return ;
        }
        match kind {
            TagKind::HtmlBlock => {},
            TagKind::Image => {},
            TagKind::MetadataBlock => {
                self.non_writing = false;
            },
            TagKind::Table => {
                self.tables.close();
                self.pop_node();
                self.pop_node();
            },
            TagKind::TableHead => {
                self.tables.end_head();
                self.pop_node();
                self.pop_node();
                self.push_elname("tbody", &styling.tbody);
            },
            TagKind::TableCell => {
                self.tables.end_cell();
                self.pop_node();
            },
            TagKind::CodeBlock => {
                self.pop_node();
                if self.highlighting {
                    self.code_info = None;
                } else {
                    self.pop_node();
                }
            },
            _ => {
                self.pop_node();
            },
        }
    }

    /// Renders an event that is neither `Start` nor `End`, and whose text does
    /// not go to the highlighter.
    fn leaf(&mut self, event: &MdEvent, styling: &CMarkStyle)
        requires
            !(*event is Start),
            !(*event is End),
        ensures
            final(self)@ == leaf(old(self)@, *event, styling@),
    {
        match event {
            MdEvent::Text(text) => {
                if !self.non_writing {
                    self.add_child(Node::Text(text.clone()));
                }
            },
            MdEvent::Code(text) => {
                self.add_element(Element::new("code").child_text(text.clone()));
            },
            MdEvent::InlineMath(text) => {
                self.add_element(math(false, text));
            },
            MdEvent::DisplayMath(text) => {
                self.add_element(math(true, text));
            },
            MdEvent::SoftBreak => {
                self.add_child(Node::Text(String::from_str(" ")));
            },
            MdEvent::HardBreak => {
                self.add_child_name("br");
            },
            MdEvent::Rule => {
                self.add_child_name("hr");
            },
            MdEvent::FootnoteReference(label) => {
                let number = self.footnotes.resolve(label.as_str());
                self.add_element(reference(label, number, styling));
            },
            MdEvent::TaskListMarker(checked) => {
                self.add_element(checkbox(*checked));
            },
            _ => {},
        }
    }
}

/// What a conversion gives: the root of the tree, which is the container, and
/// what went wrong on the way.
#[derive(Debug, PartialEq, Eq)]
pub struct Conversion {
    pub root: Element,
    pub anomalies: Vec<Anomaly>,
}

impl View for Conversion {
    type V = Outcome;

    open spec fn view(&self) -> Outcome {
        Outcome { root: self.root@, anomalies: self.anomalies@ }
    }
}

/// Whether `blocks` are answers of the highlighter to `asked`: one block for
/// each pair of info string and text, in order, which is what `highlight` gives
/// for that text.
pub open spec fn answers(
    asked: Seq<(Seq<char>, Seq<char>)>,
    blocks: Seq<Seq<NodeView>>,
) -> bool {
    &&& blocks.len() == asked.len()
    &&& forall|i: int| 0 <= i < blocks.len() ==> highlighted(asked[i].1, #[trigger] blocks[i])
}

/// Whether the highlighter was asked for just the text of the code blocks of
/// `events`, piece by piece and in order, and `blocks` are its answers.
pub open spec fn highlighted_with(
    events: Seq<MdEvent>,
    styling: StyleView,
    blocks: Seq<Seq<NodeView>>,
) -> bool {
    answers(requests(State::initial(styling, true), events, styling, blocks), blocks)
}

impl Writer {
    /// What is left when the events have run out.
    fn finish(self) -> (r: Conversion)
        ensures
            r@ == finish(self@),
    {
        let mut writer = self;
        if writer.stack.len() == 1 {
            let root = writer.stack.pop().unwrap();
            Conversion { root, anomalies: writer.anomalies }
        } else {
            writer.anomalies.push(Anomaly::NoRoot);
            Conversion { root: Element::new("div"), anomalies: writer.anomalies }
        }
    }

    /// Handles the events one after the other. While highlighting, the text of
    /// code blocks is replaced by the blocks of `given`, one after the other, and
    /// dropped when they have run out; without `given`, by what the highlighter
    /// makes of it. The blocks that the text was replaced by are returned, with
    /// those of `given` that were left over behind them.
    fn run(
        &mut self,
        events: &Vec<MdEvent>,
        styling: &CMarkStyle,
        given: Option<Vec<Vec<Node>>>,
    ) -> (blocks: Ghost<Seq<Seq<NodeView>>>)
        requires
            columns_within(old(self)@.tables, 0),
        ensures
            final(self)@ == run(old(self)@, events@, styling@, blocks@),
            match given {
                Some(list) => blocks@ == blocks_view(list@),
                None => answers(requests(old(self)@, events@, styling@, blocks@), blocks@) && (
                !old(self)@.highlighting ==> blocks@.len() == 0),
            },
    {
        proof {
            reveal(run);
            reveal(requests);
        }
        let ghost start = self@;
        let ghost mut log: Seq<Seq<NodeView>> = Seq::empty();
        let ghost mut asked: Seq<(Seq<char>, Seq<char>)> = Seq::empty();
        let (listed, mut pending) = match given {
            Some(list) => (true, list),
            None => (false, Vec::new()),
        };
        let ghost all = blocks_view(pending@);
        let mut pos: usize = 0;
        assert(events@.skip(0) =~= events@);
        assert(log + blocks_view(pending@) =~= all);
        assert forall|future: Seq<Seq<NodeView>>|
            #[trigger] run(start, events@, styling@, log + future) == run(
                self@,
                events@.skip(pos as int),
                styling@,
                future,
            ) by {
            assert(log + future =~= future);
        }
        assert forall|future: Seq<Seq<NodeView>>|
            #[trigger] requests(start, events@, styling@, log + future) == asked + requests(
                self@,
                events@.skip(pos as int),
                styling@,
                future,
            ) by {
            assert(log + future =~= future);
            assert(asked + requests(self@, events@.skip(pos as int), styling@, future)
                =~= requests(self@, events@.skip(pos as int), styling@, future));
        }
        while pos < events.len()
            invariant
                pos <= events.len(),
                columns_within(self@.tables, pos as nat),
                self@.highlighting == start.highlighting,
                listed ==> log + blocks_view(pending@) == all,
                !listed ==> answers(asked, log),
                !listed && !start.highlighting ==> log.len() == 0,
                !listed ==> forall|future: Seq<Seq<NodeView>>|
                    #[trigger] requests(start, events@, styling@, log + future) == asked
                        + requests(self@, events@.skip(pos as int), styling@, future),
                forall|future: Seq<Seq<NodeView>>|
                    (listed ==> future == blocks_view(pending@)) ==> #[trigger] run(
                        start,
                        events@,
                        styling@,
                        log + future,
                    ) == run(self@, events@.skip(pos as int), styling@, future),
            decreases events.len() - pos,
        {
            let ghost st = self@;
            let ghost here = events@.skip(pos as int);
            let ghost before = log;
            let ghost asked_before = asked;
            let ghost left = blocks_view(pending@);
            let ghost at = pos;
            proof {
                lemma_skip_first(events@, pos as int);
            }
            let event = &events[pos];
            let mut next = pos + 1;
            let mut to_highlighter = false;
            let mut replaced = false;
            match event {
                MdEvent::Start(tag) => {
                    next = self.start_tag(tag, events, pos + 1, styling);
                },
                MdEvent::End(kind) => {
                    self.end_tag(*kind, styling);
                },
                MdEvent::Text(text) => {
                    if self.highlighting && !self.non_writing {
                        if let Some(info) = &self.code_info {
                            to_highlighter = true;
                            if !listed {
                                let nodes = highlight(info.as_str(), text.as_str());
                                proof {
                                    log = log.push(nodes_view(nodes@));
                                    asked = asked.push((info@, text@));
                                }
                                self.add_children(nodes);
                                replaced = true;
                            } else if pending.len() > 0 {
                                let nodes = pending.remove(0);
                                proof {
                                    log = log.push(nodes_view(nodes@));
                                    assert(blocks_view(pending@) =~= left.drop_first());
                                    assert(before + left =~= log + blocks_view(pending@));
                                }
                                self.add_children(nodes);
                                replaced = true;
                            }
                        }
                    }
                    if !to_highlighter {
                        self.leaf(event, styling);
                    }
                },
                _ => {
                    self.leaf(event, styling);
                },
            }
            proof {
                reveal(run);
                lemma_step_columns(st, here, styling@, seq![log.last()], at as nat);
                assert forall|future: Seq<Seq<NodeView>>|
                    (listed ==> future == blocks_view(pending@)) implies #[trigger] run(
                    start,
                    events@,
                    styling@,
                    log + future,
                ) == run(self@, events@.skip(next as int), styling@, future) by {
                    if replaced {
                        let fed = seq![log.last()] + future;
                        assert(before + fed =~= log + future);
                        assert(fed.drop_first() =~= future);
                        if listed {
                            assert(fed =~= left);
                        }
                        lemma_step_consumes(st, here, styling@, fed);
                        assert(run(start, events@, styling@, before + fed) == run(
                            st,
                            here,
                            styling@,
                            fed,
                        ));
                    } else {
                        lemma_step_consumes(st, here, styling@, future);
                        assert(run(start, events@, styling@, before + future) == run(
                            st,
                            here,
                            styling@,
                            future,
                        ));
                    }
                }
                if !listed {
                    reveal(requests);
                    assert forall|future: Seq<Seq<NodeView>>|
                        #[trigger] requests(start, events@, styling@, log + future) == asked
                            + requests(self@, events@.skip(next as int), styling@, future) by {
                        let fed = if replaced {
                            seq![log.last()] + future
                        } else {
                            future
                        };
                        assert(before + fed =~= log + future);
                        if replaced {
                            assert(fed.drop_first() =~= future);
                        }
                        lemma_step_consumes(st, here, styling@, fed);
                        assert(requests(start, events@, styling@, before + fed) == asked_before
                            + requests(st, here, styling@, fed));
                        let own = request(st, here);
                        let later = requests(self@, events@.skip(next as int), styling@, future);
                        assert(requests(st, here, styling@, fed) == own + later);
                        assert(asked_before + (own + later) =~= (asked_before + own) + later);
                        assert(asked =~= asked_before + own);
                    }
                    assert(answers(asked, log)) by {
                        assert forall|i: int| 0 <= i < log.len() implies highlighted(
                            asked[i].1,
                            #[trigger] log[i],
                        ) by {
                            if i < before.len() {
                                assert(log[i] == before[i]);
                                assert(asked[i] == asked_before[i]);
                            }
                        }
                    }
                }
            }
            pos = next;
        }
        proof {
            reveal(run);
            reveal(requests);
            assert(log + Seq::<Seq<NodeView>>::empty() =~= log);
            assert(events@.skip(pos as int).len() == 0);
            if !listed {
                assert(requests(start, events@, styling@, log) =~= asked);
            }
        }
        if listed {
            Ghost(all)
        } else {
            Ghost(log)
        }
    }
}

/// The views of blocks of nodes.
pub open spec fn blocks_view(blocks: Seq<Vec<Node>>) -> Seq<Seq<NodeView>> {
    Seq::new(blocks.len(), |i: int| nodes_view(blocks[i]@))
}

/// Converts `events` to a tree. With `highlighting`, the text of code blocks is
/// coloured: each piece of it is replaced by what the highlighter makes of it,
/// spans of runs or, where it cannot colour, the text itself. Every element of
/// the tree has each of its attributes once.
pub fn convert(events: &Vec<MdEvent>, styling: &CMarkStyle, highlighting: bool) -> (r: Conversion)
    ensures
        !highlighting ==> r@ == outcome_of(events@, styling@, false, Seq::empty()),
        highlighting ==> exists|blocks: Seq<Seq<NodeView>>|
            highlighted_with(events@, styling@, blocks) && r@ == #[trigger] outcome_of(
                events@,
                styling@,
                true,
                blocks,
            ),
        r@.root.well_formed(),
{
    let mut writer = Writer::new(styling, highlighting);
    let blocks = writer.run(events, styling, None);
    let r = writer.finish();
    proof {
        lemma_runs_well_formed(blocks@);
        lemma_tree_well_formed(events@, styling@, highlighting, blocks@);
        if highlighting {
            assert(highlighted_with(events@, styling@, blocks@) && r@ == outcome_of(
                events@,
                styling@,
                true,
                blocks@,
            ));
        } else {
            assert(blocks@ =~= Seq::empty());
        }
    }
    r
}

/// Converts `events` to a tree in which the text of code blocks is replaced by
/// `blocks`, one after the other: what a highlighter would have made of it. The
/// text is dropped where the blocks have run out, and blocks that are left over
/// are not used.
pub fn convert_given(events: &Vec<MdEvent>, styling: &CMarkStyle, blocks: Vec<Vec<Node>>) -> (r:
    Conversion)
    ensures
        r@ == outcome_of(events@, styling@, true, blocks_view(blocks@)),
        blocks_well_formed(blocks_view(blocks@)) ==> r@.root.well_formed(),
{
    let mut writer = Writer::new(styling, true);
    let _ = writer.run(events, styling, Some(blocks));
    proof {
        if blocks_well_formed(blocks_view(blocks@)) {
            lemma_tree_well_formed(events@, styling@, true, blocks_view(blocks@));
        }
    }
    writer.finish()
}

/// Converts `events` to a tree, without highlighting, and returns its root.
pub fn generate_tree(events: Vec<MdEvent>, styling: CMarkStyle) -> (r: Node)
    ensures
        r@ == NodeView::Element(tree_of(events@, styling@)),
        node_well_formed(r@),
{
    let conversion = convert(&events, &styling, false);
    proof {
        lemma_element_node_view(conversion.root);
    }
    Node::Element(conversion.root)
}

} // verus!
