//! Code highlighting: `syntect` colours the text of a code block line by line,
//! and each coloured run becomes a `span` with an inline style.

use crate::node::{nodes_view, Element, ElementView, Node, NodeView};
use crate::node::lemma_element_node_view;
use crate::text::{decimal, decimal_string, views};
use vstd::prelude::*;
use vstd::std_specs::iter::IteratorSpec;

verus! {

/// A colour by its red, green, blue and alpha components.
#[derive(Clone, Copy, Debug, PartialEq, Eq)]
pub struct Rgba {
    pub r: u8,
    pub g: u8,
    pub b: u8,
    pub a: u8,
}

/// How a run of text is drawn.
#[derive(Clone, Copy, Debug, PartialEq, Eq)]
pub struct TextStyle {
    pub foreground: Rgba,
    pub background: Rgba,
    pub bold: bool,
    pub italic: bool,
    pub underline: bool,
}

/// The name of the syntax that text in no known language is coloured with.
const PLAIN_TEXT: &'static str = "Plain Text";

/// The theme that code is coloured with.
const THEME: &'static str = "base16-eighties.dark";

/// `syntect::parsing::SyntaxSet`. Nothing is known of its values here: they are only handed on.
#[verifier::external_type_specification]
#[verifier::external_body]
pub struct ExSyntaxSet(syntect::parsing::SyntaxSet);

/// `syntect::parsing::SyntaxReference`. Nothing is known of its values here:
/// they are only handed on.
#[verifier::external_type_specification]
#[verifier::external_body]
pub struct ExSyntaxReference(syntect::parsing::SyntaxReference);

/// `syntect::highlighting::ThemeSet`. Nothing is known of its values here: they are only handed on.
#[verifier::external_type_specification]
#[verifier::external_body]
pub struct ExThemeSet(syntect::highlighting::ThemeSet);

/// `syntect::highlighting::Theme`. Nothing is known of its values here: they are only handed on.
#[verifier::external_type_specification]
#[verifier::external_body]
pub struct ExTheme(syntect::highlighting::Theme);

/// `syntect::highlighting::Style`. Nothing is known of its values here: they are only handed on.
#[verifier::external_type_specification]
#[verifier::external_body]
pub struct ExStyle(syntect::highlighting::Style);

/// `syntect::easy::HighlightLines`. Nothing is known of its values here: they are only handed on.
#[verifier::external_type_specification]
#[verifier::external_body]
pub struct ExHighlightLines<'a>(syntect::easy::HighlightLines<'a>);

/// `syntect::Error`. Nothing is known of its values here: they are only handed on.
#[verifier::external_type_specification]
#[verifier::external_body]
pub struct ExError(syntect::Error);

/// `color` in the functional notation of CSS.
pub open spec fn css_color(color: Rgba) -> Seq<char> {
    "rgba("@ + decimal(color.r as nat) + ", "@ + decimal(color.g as nat) + ", "@ + decimal(
        color.b as nat,
    ) + ", "@ + decimal(color.a as nat) + ")"@
}

/// The inline style of a run: both colours, then one declaration for each of
/// bold, italic and underline that is set, in this order.
pub open spec fn css_style(style: TextStyle) -> Seq<char> {
    let base = "color: "@ + css_color(style.foreground) + "; background_color: "@ + css_color(
        style.background,
    );
    let bold = if style.bold {
        base + " font-weight: bold;"@
    } else {
        base
    };
    let italic = if style.italic {
        bold + " font-style: italic;"@
    } else {
        bold
    };
    if style.underline {
        italic + " text-decoration: underline;"@
    } else {
        italic
    }
}

/// The `span` of one run.
pub open spec fn span_element(style: TextStyle, text: Seq<char>) -> ElementView {
    ElementView::new("span"@).attr("style"@, css_style(style)).child_text(text)
}

/// The spans of the runs of a line, in order.
pub open spec fn line_spans(runs: Seq<(TextStyle, String)>) -> Seq<NodeView> {
    Seq::new(runs.len(), |i: int| NodeView::Element(span_element(runs[i].0, runs[i].1@)))
}

/// Whether `node` is the `span` of some run, or a run of text.
pub open spec fn is_run(node: NodeView) -> bool {
    ||| node is Text
    ||| exists|style: TextStyle, text: Seq<char>|
        node == NodeView::Element(#[trigger] span_element(style, text))
}

/// Whether each of `nodes` is the `span` of some run, or a run of text.
pub open spec fn all_runs(nodes: Seq<NodeView>) -> bool {
    forall|i: int| 0 <= i < nodes.len() ==> is_run(#[trigger] nodes[i])
}

/// Writes a colour in the functional notation of CSS.
pub fn color_to_css(color: &Rgba) -> (r: String)
    ensures
        r@ == css_color(*color),
{
    let mut out = String::from_str("rgba(");
    out.append(decimal_string(color.r as u64).as_str());
    out.append(", ");
    out.append(decimal_string(color.g as u64).as_str());
    out.append(", ");
    out.append(decimal_string(color.b as u64).as_str());
    out.append(", ");
    out.append(decimal_string(color.a as u64).as_str());
    out.append(")");
    out
}

/// Wraps a run of text in a `span` that carries the style of the run.
pub fn generate_span(style: &TextStyle, txt: &str) -> (r: Element)
    ensures
        r@ == span_element(*style, txt@),
{
    let mut value = String::from_str("color: ");
    value.append(color_to_css(&style.foreground).as_str());
    value.append("; background_color: ");
    value.append(color_to_css(&style.background).as_str());
    if style.bold {
        value.append(" font-weight: bold;");
    }
    if style.italic {
        value.append(" font-style: italic;");
    }
    if style.underline {
        value.append(" text-decoration: underline;");
    }
    Element::new("span").attr("style", value).child_text(String::from_str(txt))
}

/// Wraps each run of a line in its `span`.
pub fn generate_line(inputs: &Vec<(TextStyle, String)>) -> (r: Vec<Node>)
    ensures
        nodes_view(r@) == line_spans(inputs@),
        all_runs(nodes_view(r@)),
{
    let mut spans: Vec<Node> = Vec::new();
    let mut i: usize = 0;
    while i < inputs.len()
        invariant
            i <= inputs.len(),
            spans@.len() == i,
            forall|k: int|
                0 <= k < i ==> spans@[k]@ == NodeView::Element(
                    span_element(inputs@[k].0, inputs@[k].1@),
                ),
        decreases inputs.len() - i,
    {
        let span = generate_span(&inputs[i].0, inputs[i].1.as_str());
        proof {
            lemma_element_node_view(span);
        }
        spans.push(Node::Element(span));
        i = i + 1;
    }
    assert(nodes_view(spans@) =~= line_spans(inputs@));
    assert forall|k: int| 0 <= k < spans@.len() implies is_run(
        #[trigger] nodes_view(spans@)[k],
    ) by {
        assert(nodes_view(spans@)[k] == NodeView::Element(
            span_element(inputs@[k].0, inputs@[k].1@),
        ));
    }
    spans
}

/// Where the first line of `s` ends: behind its first line feed, or at the end
/// of `s` where it has none.
pub open spec fn line_end(s: Seq<char>) -> nat
    decreases s.len(),
{
    if s.len() == 0 {
        0
    } else if s[0] == '\n' {
        1
    } else {
        1 + line_end(s.drop_first())
    }
}

/// The lines of `s`, each with the line feed that ends it. The last line has
/// none where `s` does not end in one; the empty string has no line.
pub open spec fn lines_with_endings(s: Seq<char>) -> Seq<Seq<char>>
    decreases s.len(),
{
    if s.len() == 0 || line_end(s) == 0 || line_end(s) > s.len() {
        Seq::empty()
    } else {
        seq![s.take(line_end(s) as int)] + lines_with_endings(s.skip(line_end(s) as int))
    }
}

/// Calls `syntect::parsing::SyntaxSet::load_defaults_newlines`.
#[verifier::external_body]
fn load_syntaxes() -> syntect::parsing::SyntaxSet {
    syntect::parsing::SyntaxSet::load_defaults_newlines()
}

/// Calls `syntect::highlighting::ThemeSet::load_defaults`.
#[verifier::external_body]
fn load_themes() -> syntect::highlighting::ThemeSet {
    syntect::highlighting::ThemeSet::load_defaults()
}

/// Calls `SyntaxSet::find_syntax_by_token`: the syntax with the file extension
/// `token`, or else named `token`, if the set has one.
#[verifier::external_body]
fn find_syntax_by_token<'a>(
    syntaxes: &'a syntect::parsing::SyntaxSet,
    token: &str,
) -> Option<&'a syntect::parsing::SyntaxReference> {
    syntaxes.find_syntax_by_token(token)
}

/// Calls `SyntaxSet::find_syntax_by_name`.
#[verifier::external_body]
fn find_syntax_by_name<'a>(
    syntaxes: &'a syntect::parsing::SyntaxSet,
    name: &str,
) -> Option<&'a syntect::parsing::SyntaxReference> {
    syntaxes.find_syntax_by_name(name)
}

/// Looks `name` up in the `themes` of a `ThemeSet`.
#[verifier::external_body]
fn find_theme<'a>(
    themes: &'a syntect::highlighting::ThemeSet,
    name: &str,
) -> Option<&'a syntect::highlighting::Theme> {
    themes.themes.get(name)
}

/// Calls `syntect::easy::HighlightLines::new`.
#[verifier::external_body]
fn new_highlighter<'a>(
    syntax: &syntect::parsing::SyntaxReference,
    theme: &'a syntect::highlighting::Theme,
) -> syntect::easy::HighlightLines<'a> {
    syntect::easy::HighlightLines::new(syntax, theme)
}

/// The fields of a `syntect::highlighting::Style`, the font style as one flag
/// for each of `FontStyle::BOLD`, `ITALIC` and `UNDERLINE`.
#[verifier::external_body]
fn style_from(style: syntect::highlighting::Style) -> TextStyle {
    let (fg, bg, font) = (style.foreground, style.background, style.font_style);
    TextStyle {
        foreground: Rgba { r: fg.r, g: fg.g, b: fg.b, a: fg.a },
        background: Rgba { r: bg.r, g: bg.g, b: bg.b, a: bg.a },
        bold: font.contains(syntect::highlighting::FontStyle::BOLD),
        italic: font.contains(syntect::highlighting::FontStyle::ITALIC),
        underline: font.contains(syntect::highlighting::FontStyle::UNDERLINE),
    }
}

/// A highlighter together with the syntaxes that its syntax was found in, so
/// that it is never run with others.
struct LineHighlighter<'a> {
    syntaxes: &'a syntect::parsing::SyntaxSet,
    lines: syntect::easy::HighlightLines<'a>,
}

/// Calls `HighlightLines::highlight_line` on one line, with the syntaxes of the
/// highlighter. Which runs come back depends on the lines that the highlighter
/// has seen before, so they are not said. Their texts are successive pieces of
/// the line from its start: put together they are the line, or a beginning of
/// it where the highlighter stopped early.
#[verifier::external_body]
fn highlight_line(highlighter: &mut LineHighlighter<'_>, line: &str) -> (r: Result<
    Vec<(TextStyle, String)>,
    syntect::Error,
>)
    ensures
        r matches Ok(runs) ==> run_text(runs@).is_prefix_of(line@),
{
    let runs = highlighter.lines.highlight_line(line, highlighter.syntaxes)?;
    Ok(runs.into_iter().map(|(style, text)| (style_from(style), String::from(text))).collect())
}

/// A place behind the first line feed, or at the end where there is none, is
/// where the first line ends.
proof fn lemma_line_end_at(t: Seq<char>, e: nat)
    requires
        1 <= e <= t.len(),
        forall|k: int| 0 <= k < e - 1 ==> #[trigger] t[k] != '\n',
        t[e - 1] == '\n' || e == t.len(),
    ensures
        line_end(t) == e,
    decreases t.len(),
{
    if t[0] == '\n' {
        if e > 1 {
            assert(t[0] != '\n');
        }
    } else if e == 1 {
        assert(t.drop_first().len() == 0);
        assert(line_end(t.drop_first()) == 0);
    } else {
        let rest = t.drop_first();
        assert forall|k: int| 0 <= k < e - 2 implies #[trigger] rest[k] != '\n' by {
            assert(rest[k] == t[k + 1]);
        }
        assert(rest[e - 2] == t[e - 1]);
        lemma_line_end_at(rest, (e - 1) as nat);
        assert(line_end(t) == 1 + line_end(rest));
    }
}

/// Cuts `s` into its lines, behind each line feed.
fn split_lines(s: &str) -> (r: Vec<String>)
    ensures
        views(r@) == lines_with_endings(s@),
{
    broadcast use vstd::string::group_string_axioms;

    let n = s.unicode_len();
    let mut out: Vec<String> = Vec::new();
    let mut chars = s.chars();
    let mut start: usize = 0;
    let mut i: usize = 0;
    let mut more = true;
    assert(s@.skip(0) =~= s@);
    assert(views(out@) + lines_with_endings(s@) =~= lines_with_endings(s@));
    while more
        invariant
            n == s@.len(),
            start <= i <= n,
            !more ==> i == n,
            chars.remaining() == s@.skip(i as int),
            lines_with_endings(s@) == views(out@) + lines_with_endings(s@.skip(start as int)),
            forall|k: int| start <= k < i ==> #[trigger] s@[k] != '\n',
        decreases n - i + (if more { 1nat } else { 0nat }),
    {
        let ghost before = views(out@);
        let ghost left = s@.skip(start as int);
        match chars.next() {
            Some(c) => {
                assert(c == s@[i as int]);
                assert(s@.skip(i as int).drop_first() =~= s@.skip(i + 1));
                i = i + 1;
                if c == '\n' {
                    proof {
                        assert forall|k: int| 0 <= k < i - start - 1 implies #[trigger] left[k]
                            != '\n' by {
                            assert(left[k] == s@[start + k]);
                        }
                        lemma_line_end_at(left, (i - start) as nat);
                        assert(left.take(i - start) =~= s@.subrange(start as int, i as int));
                        assert(left.skip(i - start) =~= s@.skip(i as int));
                    }
                    out.push(String::from_str(s.substring_char(start, i)));
                    proof {
                        assert(views(out@) =~= before + seq![left.take(i - start)]);
                        assert(views(out@) + lines_with_endings(s@.skip(i as int)) =~= before + (
                        seq![left.take(i - start)] + lines_with_endings(s@.skip(i as int))));
                    }
                    start = i;
                }
            },
            None => {
                more = false;
            },
        }
    }
    if start < n {
        let ghost before = views(out@);
        let ghost left = s@.skip(start as int);
        proof {
            assert forall|k: int| 0 <= k < n - start - 1 implies #[trigger] left[k] != '\n' by {
                assert(left[k] == s@[start + k]);
            }
            lemma_line_end_at(left, (n - start) as nat);
            assert(left.take(n - start) =~= s@.subrange(start as int, n as int));
            assert(left.skip(n - start) =~= Seq::<char>::empty());
            assert(lines_with_endings(left.skip(n - start)) =~= Seq::<Seq<char>>::empty());
            assert(lines_with_endings(left) == seq![left.take(n - start)] + lines_with_endings(
                left.skip(n - start),
            ));
        }
        out.push(String::from_str(s.substring_char(start, n)));
        proof {
            assert(views(out@) =~= before + seq![left.take(n - start)]);
            assert(before + (seq![left.take(n - start)] + Seq::<Seq<char>>::empty()) =~= views(
                out@,
            ));
        }
    } else {
        assert(s@.skip(start as int) =~= Seq::<char>::empty());
        assert(lines_with_endings(s@.skip(start as int)) =~= Seq::<Seq<char>>::empty());
        assert(views(out@) + Seq::<Seq<char>>::empty() =~= views(out@));
    }
    out
}

/// Colours `s` as code of the language that `info` names, or as plain text:
/// its lines are coloured in order, and each gives the spans of its runs, or
/// itself where it cannot be coloured; which runs, the highlighter decides.
/// Where the syntaxes or the theme cannot be had, all of `s` is given as it is.
pub fn highlight(info: &str, s: &str) -> (r: Vec<Node>)
    ensures
        highlighted(s@, nodes_view(r@)),
{
    let syntaxes = load_syntaxes();
    let themes = load_themes();
    let mut output: Vec<Node> = Vec::new();
    match LineHighlighter::new(&syntaxes, &themes, info) {
        Some(made) => {
            let mut highlighter = made;
            let lines = split_lines(s);
            let ghost all = views(lines@);
            let ghost mut outcomes: Seq<Option<Seq<(TextStyle, String)>>> = Seq::empty();
            let mut i: usize = 0;
            assert(nodes_view(output@) =~= assembled(all.take(0), outcomes));
            while i < lines.len()
                invariant
                    i <= lines.len(),
                    all == views(lines@),
                    outcomes.len() == i,
                    all_runs(nodes_view(output@)),
                    nodes_view(output@) == assembled(all.take(i as int), outcomes),
                    forall|k: int| 0 <= k < i ==> fits(all[k], #[trigger] outcomes[k]),
                decreases lines.len() - i,
            {
                let ghost before = nodes_view(output@);
                let ghost tried = outcomes;
                match highlight_line(&mut highlighter, lines[i].as_str()) {
                    Ok(runs) => {
                        let mut spans = generate_line(&runs);
                        let ghost added = nodes_view(spans@);
                        output.append(&mut spans);
                        proof {
                            outcomes = outcomes.push(Some(runs@));
                            assert(nodes_view(output@) =~= before + added);
                        }
                    },
                    Err(_) => {
                        let ghost line = NodeView::Text(lines@[i as int]@);
                        output.push(Node::Text(lines[i].clone()));
                        proof {
                            outcomes = outcomes.push(None);
                            assert(nodes_view(output@) =~= before + seq![line]);
                        }
                    },
                }
                proof {
                    let now = all.take(i + 1);
                    assert(now.drop_last() =~= all.take(i as int));
                    assert(now.last() == lines@[i as int]@);
                    assert(outcomes.drop_last() =~= tried);
                    assert forall|k: int| 0 <= k < i + 1 implies fits(
                        all[k],
                        #[trigger] outcomes[k],
                    ) by {
                        if k < i {
                            assert(outcomes[k] == tried[k]);
                        }
                    }
                }
                i = i + 1;
            }
            proof {
                assert(all.take(lines.len() as int) =~= all);
                assert(all_fit(lines_with_endings(s@), outcomes) && nodes_view(output@)
                    == assembled(lines_with_endings(s@), outcomes));
            }
        },
        None => {
            output.push(Node::Text(String::from_str(s)));
            assert(nodes_view(output@) =~= seq![NodeView::Text(s@)]);
        },
    }
    output
}

impl<'a> LineHighlighter<'a> {
    /// The highlighter for the language that `info` names, or for plain text
    /// where no syntax has that name, with the theme that code is coloured with.
    /// There is none where the syntaxes lack plain text or the themes lack that
    /// theme.
    fn new(
        syntaxes: &'a syntect::parsing::SyntaxSet,
        themes: &'a syntect::highlighting::ThemeSet,
        info: &str,
    ) -> (r: Option<LineHighlighter<'a>>) {
        let syntax = match find_syntax_by_token(syntaxes, info) {
            Some(syntax) => Some(syntax),
            None => find_syntax_by_name(syntaxes, PLAIN_TEXT),
        };
        match (syntax, find_theme(themes, THEME)) {
            (Some(syntax), Some(theme)) => Some(
                LineHighlighter { syntaxes, lines: new_highlighter(syntax, theme) },
            ),
            _ => None,
        }
    }
}

/// The texts of the runs of a line, put together.
pub open spec fn run_text(runs: Seq<(TextStyle, String)>) -> Seq<char>
    decreases runs.len(),
{
    if runs.len() == 0 {
        Seq::empty()
    } else {
        run_text(runs.drop_last()) + runs.last().1@
    }
}

/// Whether `outcome` may be what colouring `line` gave: runs whose texts, put
/// together, are a beginning of `line`; or that it could not be coloured.
pub open spec fn fits(line: Seq<char>, outcome: Option<Seq<(TextStyle, String)>>) -> bool {
    match outcome {
        Some(runs) => run_text(runs).is_prefix_of(line),
        None => true,
    }
}

/// Whether `outcomes` holds one outcome for each of `lines`, which fits it.
pub open spec fn all_fit(
    lines: Seq<Seq<char>>,
    outcomes: Seq<Option<Seq<(TextStyle, String)>>>,
) -> bool {
    &&& outcomes.len() == lines.len()
    &&& forall|k: int| 0 <= k < lines.len() ==> fits(lines[k], #[trigger] outcomes[k])
}

/// What `highlight` gives for the text `s`, whatever the highlighter answers:
/// spans of runs and runs of text, which are either `s` as one run of text, or
/// the lines of `s` in order, each as the spans of runs that fit it or as text.
pub open spec fn highlighted(s: Seq<char>, nodes: Seq<NodeView>) -> bool {
    &&& all_runs(nodes)
    &&& (nodes == seq![NodeView::Text(s)] || exists|
        outcomes: Seq<Option<Seq<(TextStyle, String)>>>,
    |
        all_fit(lines_with_endings(s), outcomes) && nodes == #[trigger] assembled(
            lines_with_endings(s),
            outcomes,
        ))
}

/// What one line is given as: the spans of the runs that it was coloured to,
/// or the line itself where it could not be coloured.
pub open spec fn line_block(
    line: Seq<char>,
    outcome: Option<Seq<(TextStyle, String)>>,
) -> Seq<NodeView> {
    match outcome {
        Some(runs) => line_spans(runs),
        None => seq![NodeView::Text(line)],
    }
}

/// What `lines` are given as, one after the other, where `outcomes` holds for
/// each line the runs that it was coloured to, if it could be coloured.
pub open spec fn assembled(
    lines: Seq<Seq<char>>,
    outcomes: Seq<Option<Seq<(TextStyle, String)>>>,
) -> Seq<NodeView>
    decreases lines.len(),
{
    if lines.len() == 0 || outcomes.len() != lines.len() {
        Seq::empty()
    } else {
        assembled(lines.drop_last(), outcomes.drop_last()) + line_block(
            lines.last(),
            outcomes.last(),
        )
    }
}

} // verus!
