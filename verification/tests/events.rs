use vertigo_cmark::{
    convert, convert_given, generate_tree, AlertKind, Anomaly, CMarkStyle, ColumnAlign, Css,
    CssGroup, Element,
    HeadingRank, LinkKind, MdEvent, MdTag, Node, TagKind,
};

fn text(value: &str) -> Node {
    Node::Text(value.to_string())
}

fn el(name: &str, children: Vec<Node>) -> Node {
    el_with(name, &[], children)
}

fn el_with(name: &str, attributes: &[(&str, &str)], children: Vec<Node>) -> Node {
    Node::Element(Element {
        tag_name: name.to_string(),
        attributes: attributes.iter().map(|(k, v)| (k.to_string(), v.to_string())).collect(),
        style: None,
        children,
    })
}

fn styled(node: Node, css: &str) -> Node {
    match node {
        Node::Element(element) => Node::Element(Element { style: Some(Css::str(css)), ..element }),
        other => other,
    }
}

fn css_text(css: &Css) -> String {
    let mut parts: Vec<String> = Vec::new();
    for group in &css.groups {
        match group {
            CssGroup::Rules { value } => parts.push(value.clone()),
            CssGroup::Media { query, rules } => {
                parts.push(format!("@media {} {{ {} }}", query, rules.join("; ")))
            }
        }
    }
    parts.join("; ")
}

/// Writes a tree as markup: attributes by name, the style descriptor folded into
/// the `style` attribute, text as it is.
fn pseudo_html(node: &Node) -> String {
    match node {
        Node::Text(value) => value.clone(),
        Node::Element(element) => {
            let mut attributes: Vec<(String, String)> = Vec::new();
            for (name, value) in &element.attributes {
                attributes.retain(|(n, _)| n != name);
                attributes.push((name.clone(), value.clone()));
            }
            if let Some(css) = &element.style {
                let mut styles: Vec<String> = vec![css_text(css)];
                if let Some(at) = attributes.iter().position(|(n, _)| n == "style") {
                    styles.push(attributes.remove(at).1);
                }
                styles.sort();
                attributes.push(("style".to_string(), styles.join("; ")));
            }
            attributes.sort();
            let mut out = format!("<{}", element.tag_name);
            for (name, value) in &attributes {
                out.push_str(&format!(" {}='{}'", name, value));
            }
            if element.children.is_empty() {
                out.push_str(" />");
            } else {
                out.push('>');
                for child in &element.children {
                    out.push_str(&pseudo_html(child));
                }
                out.push_str(&format!("</{}>", element.tag_name));
            }
            out
        }
    }
}

fn start(tag: MdTag) -> MdEvent {
    MdEvent::Start(tag)
}

fn end(kind: TagKind) -> MdEvent {
    MdEvent::End(kind)
}

fn txt(value: &str) -> MdEvent {
    MdEvent::Text(value.to_string())
}

fn paragraph(value: &str) -> Vec<MdEvent> {
    vec![start(MdTag::Paragraph), txt(value), end(TagKind::Paragraph)]
}

fn plain(events: Vec<MdEvent>) -> Node {
    generate_tree(events, CMarkStyle::default())
}

fn image(dest: &str, title: &str) -> MdTag {
    MdTag::Image { dest_url: dest.to_string(), title: title.to_string() }
}

#[test]
fn no_events_give_the_empty_container() {
    assert_eq!(plain(vec![]), el("div", vec![]));
    let conversion = convert(&vec![], &CMarkStyle::default(), true);
    assert_eq!(Node::Element(conversion.root), el("div", vec![]));
    assert!(conversion.anomalies.is_empty());
}

#[test]
fn nesting_is_mirrored() {
    let events = vec![
        start(MdTag::List(None)),
        start(MdTag::Item),
        start(MdTag::Paragraph),
        txt("a "),
        start(MdTag::Strong),
        start(MdTag::Emphasis),
        txt("b"),
        end(TagKind::Emphasis),
        end(TagKind::Strong),
        end(TagKind::Paragraph),
        start(MdTag::List(Some(1))),
        start(MdTag::Item),
        txt("c"),
        end(TagKind::Item),
        end(TagKind::List),
        end(TagKind::Item),
        end(TagKind::List),
        MdEvent::Rule,
    ];
    let expected = el(
        "div",
        vec![
            el(
                "ul",
                vec![el(
                    "li",
                    vec![
                        el("p", vec![text("a "), el("strong", vec![el("em", vec![text("b")])])]),
                        el("ol", vec![el("li", vec![text("c")])]),
                    ],
                )],
            ),
            el("hr", vec![]),
        ],
    );
    let conversion = convert(&events, &CMarkStyle::default(), false);
    assert!(conversion.anomalies.is_empty());
    assert_eq!(Node::Element(conversion.root), expected);
    assert_eq!(plain(events), expected);
}

#[test]
fn dangling_end_is_absorbed() {
    let mut events = paragraph("a");
    events.push(end(TagKind::Emphasis));
    events.extend(paragraph("b"));
    let expected = el("div", vec![el("p", vec![text("a")]), el("p", vec![text("b")])]);
    let conversion = convert(&events, &CMarkStyle::default(), false);
    assert_eq!(conversion.anomalies, vec![Anomaly::DanglingEnd(TagKind::Emphasis)]);
    assert_eq!(Node::Element(conversion.root), expected);

    let mut clean = paragraph("a");
    clean.extend(paragraph("b"));
    assert_eq!(plain(events), plain(clean));
}

#[test]
fn dangling_end_changes_no_state() {
    let events = vec![
        end(TagKind::TableHead),
        end(TagKind::Table),
        end(TagKind::TableCell),
        end(TagKind::CodeBlock),
        start(MdTag::TableCell),
        txt("x"),
        end(TagKind::TableCell),
    ];
    let conversion = convert(&events, &CMarkStyle::default(), false);
    assert_eq!(
        conversion.anomalies,
        vec![
            Anomaly::DanglingEnd(TagKind::TableHead),
            Anomaly::DanglingEnd(TagKind::Table),
            Anomaly::DanglingEnd(TagKind::TableCell),
            Anomaly::DanglingEnd(TagKind::CodeBlock),
        ]
    );
    assert_eq!(Node::Element(conversion.root), el("div", vec![el("th", vec![text("x")])]));
}

#[test]
fn end_that_closes_two_needs_two() {
    let events =
        vec![start(MdTag::Paragraph), txt("a"), end(TagKind::Table), end(TagKind::Paragraph)];
    let conversion = convert(&events, &CMarkStyle::default(), false);
    assert_eq!(conversion.anomalies, vec![Anomaly::DanglingEnd(TagKind::Table)]);
    assert_eq!(Node::Element(conversion.root), el("div", vec![el("p", vec![text("a")])]));
}

#[test]
fn ends_that_close_nothing_are_no_anomaly() {
    let events = vec![
        end(TagKind::HtmlBlock),
        end(TagKind::Image),
        end(TagKind::MetadataBlock),
        txt("a"),
    ];
    let conversion = convert(&events, &CMarkStyle::default(), false);
    assert!(conversion.anomalies.is_empty());
    assert_eq!(Node::Element(conversion.root), el("div", vec![text("a")]));
}

#[test]
fn open_elements_at_the_end_give_no_root() {
    let events = vec![start(MdTag::Paragraph), txt("a")];
    let conversion = convert(
        &events,
        &CMarkStyle { container: Css::str("color: red"), ..Default::default() },
        false,
    );
    assert_eq!(conversion.anomalies, vec![Anomaly::NoRoot]);
    assert_eq!(Node::Element(conversion.root), el("div", vec![]));
}

#[test]
fn footnote_numbers_follow_first_touch() {
    let reference = |label: &str, number: &str| {
        el_with(
            "sup",
            &[("class", "footnote-reference")],
            vec![el_with("a", &[("href", &format!("#{}", label))], vec![text(number)])],
        )
    };
    let definition = |label: &str, number: &str| {
        el_with(
            "div",
            &[("class", "footnote-definition"), ("id", label)],
            vec![el_with("sup", &[("class", "footnote-definition-label")], vec![text(number)])],
        )
    };
    let events = vec![
        MdEvent::FootnoteReference("b".to_string()),
        start(MdTag::FootnoteDefinition("a".to_string())),
        end(TagKind::FootnoteDefinition),
        MdEvent::FootnoteReference("a".to_string()),
        MdEvent::FootnoteReference("c".to_string()),
        start(MdTag::FootnoteDefinition("b".to_string())),
        end(TagKind::FootnoteDefinition),
        MdEvent::FootnoteReference("b".to_string()),
    ];
    let expected = el(
        "div",
        vec![
            reference("b", "1"),
            definition("a", "2"),
            reference("a", "2"),
            reference("c", "3"),
            definition("b", "1"),
            reference("b", "1"),
        ],
    );
    assert_eq!(plain(events), expected);
}

#[test]
fn footnote_numbers_go_beyond_nine() {
    let mut events = Vec::new();
    for i in 0..12 {
        events.push(MdEvent::FootnoteReference(format!("n{}", i)));
    }
    let tree = plain(events);
    let html = pseudo_html(&tree);
    assert!(html.contains("<a href='#n9'>10</a>"));
    assert!(html.contains("<a href='#n11'>12</a>"));
}

#[test]
fn image_takes_flattened_text() {
    let events = vec![
        start(MdTag::Paragraph),
        start(image("cat.png", "")),
        txt("a "),
        start(MdTag::Emphasis),
        txt("b"),
        end(TagKind::Emphasis),
        MdEvent::Code("c".to_string()),
        MdEvent::InlineHtml("<i>".to_string()),
        MdEvent::Html("<div>".to_string()),
        MdEvent::InlineMath("x".to_string()),
        MdEvent::DisplayMath("y".to_string()),
        MdEvent::SoftBreak,
        MdEvent::HardBreak,
        MdEvent::Rule,
        MdEvent::FootnoteReference("n".to_string()),
        MdEvent::TaskListMarker(true),
        MdEvent::TaskListMarker(false),
        end(TagKind::Image),
        MdEvent::FootnoteReference("n".to_string()),
        end(TagKind::Paragraph),
    ];
    let expected = el(
        "div",
        vec![el(
            "p",
            vec![
                el_with(
                    "img",
                    &[("src", "cat.png"), ("alt", "a bc<i>$x$$$y$$   [1][x][ ]")],
                    vec![],
                ),
                el_with(
                    "sup",
                    &[("class", "footnote-reference")],
                    vec![el_with("a", &[("href", "#n")], vec![text("1")])],
                ),
            ],
        )],
    );
    assert_eq!(plain(events), expected);
}

#[test]
fn image_with_title_and_style() {
    let events = vec![start(image("dog.jpg", "A dog")), txt("dog"), end(TagKind::Image)];
    let tree = generate_tree(
        events,
        CMarkStyle { img: Css::str("width: 10px"), ..Default::default() },
    );
    let expected = el(
        "div",
        vec![styled(
            el_with("img", &[("src", "dog.jpg"), ("alt", "dog"), ("title", "A dog")], vec![]),
            "width: 10px",
        )],
    );
    assert_eq!(tree, expected);
}

#[test]
fn image_without_end_takes_all_that_is_left() {
    let events = vec![start(image("x.png", "")), txt("a"), start(MdTag::Emphasis), txt("b")];
    let expected = el("div", vec![el_with("img", &[("src", "x.png"), ("alt", "ab")], vec![])]);
    assert_eq!(plain(events), expected);
}

#[test]
fn metadata_block_drops_text_only() {
    let events = vec![
        start(MdTag::MetadataBlock),
        txt("title: x"),
        MdEvent::Code("kept".to_string()),
        end(TagKind::MetadataBlock),
        txt("after"),
    ];
    let expected =
        el("div", vec![el("code", vec![text("kept")]), text("after")]);
    assert_eq!(plain(events), expected);
}

#[test]
fn html_is_dropped() {
    let events = vec![
        start(MdTag::HtmlBlock),
        MdEvent::Html("<b>".to_string()),
        end(TagKind::HtmlBlock),
        start(MdTag::Paragraph),
        MdEvent::InlineHtml("<i>".to_string()),
        txt("a"),
        end(TagKind::Paragraph),
    ];
    assert_eq!(plain(events), el("div", vec![el("p", vec![text("a")])]));
}

#[test]
fn breaks_and_markers() {
    let events = vec![
        txt("a"),
        MdEvent::SoftBreak,
        txt("b"),
        MdEvent::HardBreak,
        MdEvent::TaskListMarker(true),
        MdEvent::TaskListMarker(false),
    ];
    let expected = el(
        "div",
        vec![
            text("a"),
            text(" "),
            text("b"),
            el("br", vec![]),
            el_with(
                "input",
                &[("disabled", ""), ("type", "checkbox"), ("checked", "checked")],
                vec![],
            ),
            el_with("input", &[("disabled", ""), ("type", "checkbox")], vec![]),
        ],
    );
    assert_eq!(plain(events), expected);
}

#[test]
fn heading_with_id_and_classes() {
    let events = vec![
        start(MdTag::Heading {
            level: HeadingRank::H3,
            id: Some("top".to_string()),
            classes: vec!["a".to_string(), "b".to_string(), "c".to_string()],
        }),
        txt("t"),
        end(TagKind::Heading),
        start(MdTag::Heading { level: HeadingRank::H6, id: None, classes: vec![] }),
        end(TagKind::Heading),
    ];
    let expected = el(
        "div",
        vec![
            el_with("h3", &[("id", "top"), ("class", "a b c")], vec![text("t")]),
            el("h6", vec![]),
        ],
    );
    assert_eq!(plain(events), expected);
}

#[test]
fn list_start_numbers() {
    let list = |start_at: Option<u64>| {
        plain(vec![start(MdTag::List(start_at)), end(TagKind::List)])
    };
    assert_eq!(list(None), el("div", vec![el("ul", vec![])]));
    assert_eq!(list(Some(1)), el("div", vec![el("ol", vec![])]));
    assert_eq!(list(Some(0)), el("div", vec![el_with("ol", &[("start", "0")], vec![])]));
    assert_eq!(list(Some(42)), el("div", vec![el_with("ol", &[("start", "42")], vec![])]));
    assert_eq!(
        list(Some(u64::MAX)),
        el("div", vec![el_with("ol", &[("start", "18446744073709551615")], vec![])])
    );
}

#[test]
fn code_block_language_is_the_first_word() {
    let block = |info: Option<&str>| {
        plain(vec![
            start(MdTag::CodeBlock(info.map(|i| i.to_string()))),
            txt("x"),
            end(TagKind::CodeBlock),
        ])
    };
    let with_class = |class: &str| {
        el("div", vec![el("pre", vec![el_with("code", &[("class", class)], vec![text("x")])])])
    };
    let without = el("div", vec![el("pre", vec![el("code", vec![text("x")])])]);
    assert_eq!(block(Some("rust")), with_class("language-rust"));
    assert_eq!(block(Some("rust ignore")), with_class("language-rust"));
    assert_eq!(block(Some("rust\tignore")), with_class("language-rust"));
    assert_eq!(block(Some("c++,x")), with_class("language-c++,x"));
    assert_eq!(block(Some("")), without);
    assert_eq!(block(Some(" rust")), without);
    assert_eq!(block(None), without);
}

#[test]
fn links_and_email() {
    let link = |kind: LinkKind, title: &str| {
        plain(vec![
            start(MdTag::Link {
                kind,
                dest_url: "him@example.com".to_string(),
                title: title.to_string(),
            }),
            txt("x"),
            end(TagKind::Link),
        ])
    };
    assert_eq!(
        link(LinkKind::Email, ""),
        el("div", vec![el_with("a", &[("href", "mailto:him@example.com")], vec![text("x")])])
    );
    assert_eq!(
        link(LinkKind::Autolink, "t"),
        el(
            "div",
            vec![el_with("a", &[("href", "him@example.com"), ("title", "t")], vec![text("x")])]
        )
    );
    assert_eq!(
        link(LinkKind::WikiLink { has_pothole: true }, ""),
        el("div", vec![el_with("a", &[("href", "him@example.com")], vec![text("x")])])
    );
}

#[test]
fn alert_kinds() {
    let quote = |kind: Option<AlertKind>| {
        pseudo_html(&plain(vec![start(MdTag::BlockQuote(kind)), end(TagKind::BlockQuote)]))
    };
    assert_eq!(quote(None), "<div><blockquote /></div>");
    assert_eq!(
        quote(Some(AlertKind::Note)),
        "<div><blockquote class='markdown-alert-note' /></div>"
    );
    assert_eq!(quote(Some(AlertKind::Tip)), "<div><blockquote class='markdown-alert-tip' /></div>");
    assert_eq!(
        quote(Some(AlertKind::Important)),
        "<div><blockquote class='markdown-alert-important' /></div>"
    );
    assert_eq!(
        quote(Some(AlertKind::Warning)),
        "<div><blockquote class='markdown-alert-warning' /></div>"
    );
    assert_eq!(
        quote(Some(AlertKind::Caution)),
        "<div><blockquote class='markdown-alert-caution' /></div>"
    );
}

#[test]
fn simple_tags_and_their_styles() {
    let style = CMarkStyle {
        p: Css::str("p"),
        li: Css::str("li"),
        dl: Css::str("dl"),
        dt: Css::str("dt"),
        dd: Css::str("dd"),
        sub: Css::str("sub"),
        sup: Css::str("sup"),
        em: Css::str("em"),
        strong: Css::str("strong"),
        del: Css::str("del"),
        ..Default::default()
    };
    let cases = vec![
        (MdTag::Paragraph, TagKind::Paragraph, "p"),
        (MdTag::Item, TagKind::Item, "li"),
        (MdTag::DefinitionList, TagKind::DefinitionList, "dl"),
        (MdTag::DefinitionListTitle, TagKind::DefinitionListTitle, "dt"),
        (MdTag::DefinitionListDefinition, TagKind::DefinitionListDefinition, "dd"),
        (MdTag::Subscript, TagKind::Subscript, "sub"),
        (MdTag::Superscript, TagKind::Superscript, "sup"),
        (MdTag::Emphasis, TagKind::Emphasis, "em"),
        (MdTag::Strong, TagKind::Strong, "strong"),
        (MdTag::Strikethrough, TagKind::Strikethrough, "del"),
    ];
    for (tag, kind, name) in cases {
        let tree = generate_tree(vec![start(tag), end(kind)], style.clone());
        assert_eq!(tree, el("div", vec![styled(el(name, vec![]), name)]));
    }
}

#[test]
fn definition_label_takes_the_superscript_style() {
    let events = || vec![
        start(MdTag::FootnoteDefinition("a".to_string())),
        end(TagKind::FootnoteDefinition),
    ];
    let label = |style: CMarkStyle| match generate_tree(events(), style) {
        Node::Element(root) => match &root.children[0] {
            Node::Element(definition) => {
                assert_eq!(definition.style, None);
                match &definition.children[0] {
                    Node::Element(label) => label.style.clone(),
                    _ => panic!("no label"),
                }
            }
            _ => panic!("no definition"),
        },
        _ => panic!("no root"),
    };
    let both = CMarkStyle {
        sub: Css::str("color: blue"),
        sup: Css::str("color: gray"),
        ..Default::default()
    };
    assert_eq!(label(both), Some(Css::str("color: gray")));
    let only_sub = CMarkStyle { sub: Css::str("color: blue"), ..Default::default() };
    assert_eq!(label(only_sub), None);
    let only_sup = CMarkStyle { sup: Css::str("color: gray"), ..Default::default() };
    assert_eq!(label(only_sup), Some(Css::str("color: gray")));
}

#[test]
fn table_cells_carry_the_alignment_of_their_column() {
    let cell = |value: &str| vec![start(MdTag::TableCell), txt(value), end(TagKind::TableCell)];
    let mut events = vec![
        start(MdTag::Table(vec![
            ColumnAlign::Left,
            ColumnAlign::Center,
            ColumnAlign::Right,
            ColumnAlign::Unset,
        ])),
        start(MdTag::TableHead),
    ];
    for value in ["a", "b", "c", "d", "e"] {
        events.extend(cell(value));
    }
    events.push(end(TagKind::TableHead));
    events.push(start(MdTag::TableRow));
    for value in ["1", "2", "3", "4", "5"] {
        events.extend(cell(value));
    }
    events.push(end(TagKind::TableRow));
    events.push(start(MdTag::TableRow));
    events.extend(cell("6"));
    events.push(end(TagKind::TableRow));
    events.push(end(TagKind::Table));
    events.extend(cell("7"));

    let row = |name: &str, values: [&str; 5]| {
        el(
            "tr",
            vec![
                el_with(name, &[("style", "text-align: left")], vec![text(values[0])]),
                el_with(name, &[("style", "text-align: center")], vec![text(values[1])]),
                el_with(name, &[("style", "text-align: right")], vec![text(values[2])]),
                el(name, vec![text(values[3])]),
                el(name, vec![text(values[4])]),
            ],
        )
    };
    let expected = el(
        "div",
        vec![
            el(
                "table",
                vec![
                    el("thead", vec![row("th", ["a", "b", "c", "d", "e"])]),
                    el(
                        "tbody",
                        vec![
                            row("td", ["1", "2", "3", "4", "5"]),
                            el(
                                "tr",
                                vec![el_with(
                                    "td",
                                    &[("style", "text-align: left")],
                                    vec![text("6")],
                                )],
                            ),
                        ],
                    ),
                ],
            ),
            el("th", vec![text("7")]),
        ],
    );
    let conversion = convert(&events, &CMarkStyle::default(), false);
    assert!(conversion.anomalies.is_empty());
    assert_eq!(Node::Element(conversion.root), expected);
}

#[test]
fn table_has_one_head_and_one_body() {
    let events = vec![
        start(MdTag::Table(vec![])),
        start(MdTag::TableHead),
        end(TagKind::TableHead),
        end(TagKind::Table),
    ];
    let expected =
        el(
            "div",
            vec![el("table", vec![el("thead", vec![el("tr", vec![])]), el("tbody", vec![])])],
        );
    assert_eq!(plain(events), expected);
}

#[test]
fn nested_table_keeps_the_outer_alignments() {
    let events = vec![
        start(MdTag::Table(vec![ColumnAlign::Right])),
        start(MdTag::TableHead),
        start(MdTag::TableCell),
        start(MdTag::Table(vec![ColumnAlign::Center])),
        start(MdTag::TableHead),
        start(MdTag::TableCell),
        end(TagKind::TableCell),
        end(TagKind::TableHead),
        end(TagKind::Table),
        end(TagKind::TableCell),
        start(MdTag::TableCell),
        end(TagKind::TableCell),
        end(TagKind::TableHead),
        start(MdTag::TableRow),
        start(MdTag::TableCell),
        end(TagKind::TableCell),
        end(TagKind::TableRow),
        end(TagKind::Table),
    ];
    let inner = el(
        "table",
        vec![
            el(
                "thead",
                vec![el("tr", vec![el_with("th", &[("style", "text-align: center")], vec![])])],
            ),
            el("tbody", vec![]),
        ],
    );
    let expected = el(
        "div",
        vec![el(
            "table",
            vec![
                el(
                    "thead",
                    vec![el(
                        "tr",
                        vec![
                            el_with("th", &[("style", "text-align: right")], vec![inner]),
                            el("th", vec![]),
                        ],
                    )],
                ),
                el(
                    "tbody",
                    vec![el("tr", vec![el_with("td", &[("style", "text-align: right")], vec![])])],
                ),
            ],
        )],
    );
    let conversion = convert(&events, &CMarkStyle::default(), false);
    assert!(conversion.anomalies.is_empty());
    assert_eq!(Node::Element(conversion.root), expected);
}

#[test]
fn highlighting_replaces_the_text_of_code_blocks() {
    let events = vec![
        start(MdTag::Paragraph),
        txt("let"),
        end(TagKind::Paragraph),
        start(MdTag::CodeBlock(None)),
        txt("one\ntwo\n"),
        end(TagKind::CodeBlock),
        start(MdTag::MetadataBlock),
        start(MdTag::CodeBlock(Some("rust".to_string()))),
        txt("dropped"),
        end(TagKind::CodeBlock),
        end(TagKind::MetadataBlock),
        txt("after"),
    ];
    let style = "color: rgba(211, 208, 200, 255); background_color: rgba(45, 45, 45, 255)";
    let expected = el(
        "div",
        vec![
            el("p", vec![text("let")]),
            el(
                "pre",
                vec![
                    el_with("span", &[("style", style)], vec![text("one\n")]),
                    el_with("span", &[("style", style)], vec![text("two\n")]),
                ],
            ),
            el("pre", vec![]),
            text("after"),
        ],
    );
    let conversion = convert(&events, &CMarkStyle::default(), true);
    assert!(conversion.anomalies.is_empty());
    assert_eq!(Node::Element(conversion.root), expected);
}

#[test]
fn given_blocks_replace_the_text_of_code_blocks() {
    let events = vec![
        txt("a"),
        start(MdTag::CodeBlock(Some("x".to_string()))),
        txt("one"),
        txt("two"),
        end(TagKind::CodeBlock),
        start(MdTag::CodeBlock(None)),
        txt("three"),
        txt("four"),
        end(TagKind::CodeBlock),
        txt("b"),
    ];
    let blocks = || vec![
        vec![text("1"), el("i", vec![])],
        vec![],
        vec![el_with("span", &[("style", "s")], vec![text("3")])],
    ];
    let expected = el(
        "div",
        vec![
            text("a"),
            el("pre", vec![text("1"), el("i", vec![])]),
            el("pre", vec![el_with("span", &[("style", "s")], vec![text("3")])]),
            text("b"),
        ],
    );
    let conversion = convert_given(&events, &CMarkStyle::default(), blocks());
    assert!(conversion.anomalies.is_empty());
    assert_eq!(Node::Element(conversion.root), expected);

    let mut more = blocks();
    more.push(vec![text("4")]);
    more.push(vec![text("unused")]);
    let conversion = convert_given(&events, &CMarkStyle::default(), more);
    let expected = el(
        "div",
        vec![
            text("a"),
            el("pre", vec![text("1"), el("i", vec![])]),
            el(
                "pre",
                vec![el_with("span", &[("style", "s")], vec![text("3")]), text("4")],
            ),
            text("b"),
        ],
    );
    assert_eq!(Node::Element(conversion.root), expected);

    let conversion = convert_given(&events, &CMarkStyle::default(), vec![]);
    let expected =
        el("div", vec![text("a"), el("pre", vec![]), el("pre", vec![]), text("b")]);
    assert_eq!(Node::Element(conversion.root), expected);
}

#[test]
fn end_of_another_kind_closes_what_is_open() {
    let events = vec![
        start(MdTag::Paragraph),
        txt("a"),
        end(TagKind::Emphasis),
        txt("b"),
        end(TagKind::Paragraph),
    ];
    let conversion = convert(&events, &CMarkStyle::default(), false);
    assert_eq!(conversion.anomalies, vec![Anomaly::DanglingEnd(TagKind::Paragraph)]);
    assert_eq!(
        Node::Element(conversion.root),
        el("div", vec![el("p", vec![text("a")]), text("b")])
    );
}

#[test]
fn root_is_the_container_whatever_comes() {
    let style = CMarkStyle { container: Css::str("c"), p: Css::str("p"), ..Default::default() };
    let streams = vec![
        vec![],
        vec![end(TagKind::Table), end(TagKind::Paragraph)],
        paragraph("a"),
        vec![start(MdTag::Paragraph)],
    ];
    for events in streams {
        let conversion = convert(&events, &style, false);
        assert_eq!(conversion.root.tag_name, "div");
        assert!(conversion.root.attributes.is_empty());
        if conversion.anomalies.last() == Some(&Anomaly::NoRoot) {
            assert_eq!(conversion.root.style, None);
        } else {
            assert_eq!(conversion.root.style, Some(Css::str("c")));
        }
    }
}
