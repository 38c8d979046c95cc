use vertigo_cmark::footnotes::FootnoteRegistry;
use vertigo_cmark::highlighting::{
    color_to_css, generate_line, generate_span, highlight, Rgba, TextStyle,
};
use vertigo_cmark::options::{
    ENABLE_DEFINITION_LIST, ENABLE_FOOTNOTES, ENABLE_GFM, ENABLE_HEADING_ATTRIBUTES, ENABLE_MATH,
    ENABLE_OLD_FOOTNOTES, ENABLE_PLUSES_DELIMITED_METADATA_BLOCKS, ENABLE_SMART_PUNCTUATION,
    ENABLE_STRIKETHROUGH, ENABLE_SUBSCRIPT, ENABLE_SUPERSCRIPT, ENABLE_TABLES, ENABLE_TASKLISTS,
    ENABLE_WIKILINKS, ENABLE_YAML_STYLE_METADATA_BLOCKS,
};
use vertigo_cmark::table_state::TableState;
use pulldown_cmark::Options as Parser;
use vertigo_cmark::text::{append, decimal_string, join, leading_word};
use vertigo_cmark::{CMarkStyle, ColumnAlign, Css, CssGroup, Element, Node, Options};

fn style(bold: bool, italic: bool, underline: bool) -> TextStyle {
    TextStyle {
        foreground: Rgba { r: 1, g: 20, b: 255, a: 0 },
        background: Rgba { r: 45, g: 45, b: 45, a: 255 },
        bold,
        italic,
        underline,
    }
}

fn span(style_value: &str, value: &str) -> Element {
    Element {
        tag_name: "span".to_string(),
        attributes: vec![("style".to_string(), style_value.to_string())],
        style: None,
        children: vec![Node::Text(value.to_string())],
    }
}

#[test]
fn decimal_numerals() {
    assert_eq!(decimal_string(0), "0");
    assert_eq!(decimal_string(7), "7");
    assert_eq!(decimal_string(9), "9");
    assert_eq!(decimal_string(10), "10");
    assert_eq!(decimal_string(109), "109");
    assert_eq!(decimal_string(1234567890), "1234567890");
    assert_eq!(decimal_string(u64::MAX), u64::MAX.to_string());
}

#[test]
fn joining() {
    let words = |v: &[&str]| v.iter().map(|s| s.to_string()).collect::<Vec<String>>();
    assert_eq!(join(&words(&[]), " "), "");
    assert_eq!(join(&words(&["a"]), " "), "a");
    assert_eq!(join(&words(&["a", "b", "c"]), " "), "a b c");
    assert_eq!(join(&words(&["a", "", "c"]), ", "), "a, , c");
    assert_eq!(append("ab", "cd"), "abcd");
    assert_eq!(append("", ""), "");
}

#[test]
fn leading_words() {
    assert_eq!(leading_word(""), "");
    assert_eq!(leading_word("rust"), "rust");
    assert_eq!(leading_word("rust ignore"), "rust");
    assert_eq!(leading_word("rust\nignore"), "rust");
    assert_eq!(leading_word("rust\u{a0}ignore"), "rust");
    assert_eq!(leading_word("rust\u{3000}ignore"), "rust");
    assert_eq!(leading_word("r\u{fc}st x"), "r\u{fc}st");
    assert_eq!(leading_word("rust\u{200b}x y"), "rust\u{200b}x");
    assert_eq!(leading_word(" rust"), "");
    for c in ['\t', '\n', '\u{b}', '\u{c}', '\r', ' ', '\u{85}', '\u{a0}', '\u{1680}', '\u{2000}',
        '\u{200a}', '\u{2028}', '\u{2029}', '\u{202f}', '\u{205f}', '\u{3000}']
    {
        assert!(c.is_whitespace());
        assert_eq!(leading_word(&format!("ab{}cd", c)), "ab");
    }
    for c in '\0'..=char::MAX {
        let cut = leading_word(&format!("a{}b", c));
        assert_eq!(cut == "a", c.is_whitespace(), "{:?}", c);
    }
    let others =
        ['\u{8}', '\u{e}', '\u{1f}', '!', '\u{84}', '\u{86}', '\u{1fff}', '\u{200b}', '\u{2027}'];
    for c in others {
        assert!(!c.is_whitespace());
        assert_eq!(leading_word(&format!("ab{}cd e", c)), format!("ab{}cd", c));
    }
}

#[test]
fn registry_numbers_labels_in_order_of_first_touch() {
    let mut registry = FootnoteRegistry::new();
    assert_eq!(registry.len(), 0);
    assert_eq!(registry.resolve("b"), 1);
    assert_eq!(registry.resolve("a"), 2);
    assert_eq!(registry.resolve("b"), 1);
    assert_eq!(registry.resolve(""), 3);
    assert_eq!(registry.resolve("B"), 4);
    assert_eq!(registry.resolve("a"), 2);
    assert_eq!(registry.resolve(""), 3);
    assert_eq!(registry.len(), 4);
}

#[test]
fn table_state_follows_rows_and_cells() {
    let mut tables = TableState::new();
    assert!(tables.head());
    assert_eq!(tables.alignment(), None);
    tables.end_cell();
    tables.begin_row();
    tables.end_head();
    tables.close();
    assert!(tables.head());

    tables.open(&vec![
        ColumnAlign::Left,
        ColumnAlign::Center,
        ColumnAlign::Right,
        ColumnAlign::Unset,
    ]);
    tables.begin_head();
    assert!(tables.head());
    assert_eq!(tables.alignment(), Some("left".to_string()));
    tables.end_cell();
    assert_eq!(tables.alignment(), Some("center".to_string()));
    tables.end_cell();
    assert_eq!(tables.alignment(), Some("right".to_string()));
    tables.end_cell();
    assert_eq!(tables.alignment(), None);
    tables.end_cell();
    assert_eq!(tables.alignment(), None);
    tables.end_head();
    assert!(!tables.head());
    tables.begin_row();
    assert_eq!(tables.alignment(), Some("left".to_string()));
    assert_eq!(tables.contexts[0].column_index, 0);

    tables.open(&vec![]);
    assert!(tables.head());
    assert_eq!(tables.alignment(), None);
    tables.close();
    assert!(!tables.head());
    assert_eq!(tables.alignment(), Some("left".to_string()));
    tables.close();
    assert_eq!(tables.contexts.len(), 0);
}

#[test]
fn colors() {
    assert_eq!(color_to_css(&Rgba { r: 0, g: 0, b: 0, a: 0 }), "rgba(0, 0, 0, 0)");
    assert_eq!(color_to_css(&Rgba { r: 204, g: 153, b: 9, a: 255 }), "rgba(204, 153, 9, 255)");
}

#[test]
fn spans_carry_their_style() {
    let base = "color: rgba(1, 20, 255, 0); background_color: rgba(45, 45, 45, 255)";
    assert_eq!(generate_span(&style(false, false, false), "x"), span(base, "x"));
    assert_eq!(
        generate_span(&style(true, false, false), ""),
        span(&format!("{} font-weight: bold;", base), "")
    );
    assert_eq!(
        generate_span(&style(false, true, false), "x"),
        span(&format!("{} font-style: italic;", base), "x")
    );
    assert_eq!(
        generate_span(&style(false, false, true), "x"),
        span(&format!("{} text-decoration: underline;", base), "x")
    );
    assert_eq!(
        generate_span(&style(true, true, true), "a\n"),
        span(
            &format!(
                "{} font-weight: bold; font-style: italic; text-decoration: underline;",
                base
            ),
            "a\n"
        )
    );
}

#[test]
fn lines_of_spans() {
    assert_eq!(generate_line(&vec![]), vec![]);
    let runs = vec![
        (style(false, false, false), "a".to_string()),
        (style(true, false, false), "b".to_string()),
    ];
    assert_eq!(
        generate_line(&runs),
        vec![
            Node::Element(generate_span(&style(false, false, false), "a")),
            Node::Element(generate_span(&style(true, false, false), "b")),
        ]
    );
}

#[test]
fn highlighting_goes_line_by_line() {
    let plain = "color: rgba(211, 208, 200, 255); background_color: rgba(45, 45, 45, 255)";
    assert_eq!(highlight("", ""), vec![]);
    assert_eq!(
        highlight("no such language", "one\ntwo\n\nthree"),
        vec![
            Node::Element(span(plain, "one\n")),
            Node::Element(span(plain, "two\n")),
            Node::Element(span(plain, "\n")),
            Node::Element(span(plain, "three")),
        ]
    );
    let keyword = "color: rgba(204, 153, 204, 255); background_color: rgba(45, 45, 45, 255)";
    let by_extension = highlight("rs", "let");
    let by_name = highlight("RUST", "let");
    assert_eq!(by_extension, vec![Node::Element(span(keyword, "let"))]);
    assert_eq!(by_name, by_extension);
}

#[test]
fn option_bits_are_those_of_the_parser() {
    assert_eq!(ENABLE_TABLES, Parser::ENABLE_TABLES.bits());
    assert_eq!(ENABLE_FOOTNOTES, Parser::ENABLE_FOOTNOTES.bits());
    assert_eq!(ENABLE_STRIKETHROUGH, Parser::ENABLE_STRIKETHROUGH.bits());
    assert_eq!(ENABLE_TASKLISTS, Parser::ENABLE_TASKLISTS.bits());
    assert_eq!(ENABLE_SMART_PUNCTUATION, Parser::ENABLE_SMART_PUNCTUATION.bits());
    assert_eq!(ENABLE_HEADING_ATTRIBUTES, Parser::ENABLE_HEADING_ATTRIBUTES.bits());
    assert_eq!(
        ENABLE_YAML_STYLE_METADATA_BLOCKS,
        Parser::ENABLE_YAML_STYLE_METADATA_BLOCKS.bits()
    );
    assert_eq!(
        ENABLE_PLUSES_DELIMITED_METADATA_BLOCKS,
        Parser::ENABLE_PLUSES_DELIMITED_METADATA_BLOCKS.bits()
    );
    assert_eq!(ENABLE_OLD_FOOTNOTES, Parser::ENABLE_OLD_FOOTNOTES.bits());
    assert_eq!(ENABLE_MATH, Parser::ENABLE_MATH.bits());
    assert_eq!(ENABLE_GFM, Parser::ENABLE_GFM.bits());
    assert_eq!(ENABLE_DEFINITION_LIST, Parser::ENABLE_DEFINITION_LIST.bits());
    assert_eq!(ENABLE_SUPERSCRIPT, Parser::ENABLE_SUPERSCRIPT.bits());
    assert_eq!(ENABLE_SUBSCRIPT, Parser::ENABLE_SUBSCRIPT.bits());
    assert_eq!(ENABLE_WIKILINKS, Parser::ENABLE_WIKILINKS.bits());
    assert_eq!(Parser::all().bits(), 0xfffe);
}

#[test]
fn option_sets() {
    assert_eq!(Options::empty().bits, 0);
    assert_eq!(Options::enable_tables().bits, ENABLE_TABLES);
    assert_eq!(Options::enable_footnotes().bits, ENABLE_FOOTNOTES);
    assert_eq!(Options::enable_strikethrough().bits, ENABLE_STRIKETHROUGH);
    assert_eq!(Options::enable_tasklists().bits, ENABLE_TASKLISTS);
    assert_eq!(Options::enable_smart_punctuation().bits, ENABLE_SMART_PUNCTUATION);
    assert_eq!(Options::enable_heading_attributes().bits, ENABLE_HEADING_ATTRIBUTES);
    assert_eq!(
        Options::enable_yaml_style_metadata_blocks().bits,
        ENABLE_YAML_STYLE_METADATA_BLOCKS
    );
    assert_eq!(
        Options::enable_pluses_delimited_metadata_blocks().bits,
        ENABLE_PLUSES_DELIMITED_METADATA_BLOCKS
    );
    assert_eq!(Options::enable_old_footnotes().bits, ENABLE_OLD_FOOTNOTES);
    assert_eq!(Options::enable_math().bits, ENABLE_MATH);
    assert_eq!(Options::enable_gfm().bits, ENABLE_GFM);
    assert_eq!(Options::enable_definition_list().bits, ENABLE_DEFINITION_LIST);
    assert_eq!(Options::enable_superscript().bits, ENABLE_SUPERSCRIPT);
    assert_eq!(Options::enable_subscript().bits, ENABLE_SUBSCRIPT);
    assert_eq!(Options::enable_wikilinks().bits, ENABLE_WIKILINKS);

    let both = Options::enable_tables().union(Options::enable_math());
    assert_eq!(both.bits, 2 | 1024);
    assert!(both.contains(Options::enable_tables()));
    assert!(both.contains(Options::empty()));
    assert!(!both.contains(Options::enable_gfm()));
    assert!(!Options::enable_footnotes().contains(Options::enable_old_footnotes()));
    let mut set = Options::empty();
    set.insert(Options::enable_gfm());
    set.insert(Options::enable_gfm());
    set.insert(Options::enable_tables());
    assert_eq!(set, Options::from_bits(2048 | 2));
}

#[test]
fn style_descriptors() {
    assert!(Css::empty().is_empty());
    assert!(Css::default().is_empty());
    assert!(!Css::str("color: red").is_empty());
    assert_eq!(
        Css::str("color: red").groups,
        vec![CssGroup::Rules { value: "color: red".to_string() }]
    );
    let media = Css {
        groups: vec![
            CssGroup::Rules { value: "a".to_string() },
            CssGroup::Media { query: "print".to_string(), rules: vec!["b".to_string()] },
        ],
    };
    assert_eq!(media.clone(), media);
    let style = CMarkStyle::default();
    assert!(style.container.is_empty() && style.p.is_empty() && style.table.is_empty());
    assert!(style.codeblock.is_empty() && style.sup.is_empty() && style.img.is_empty());
}

#[test]
fn elements_are_built_in_order() {
    let element = Element::new("a")
        .attr("href", "x".to_string())
        .child_text("1".to_string())
        .css(&Css::empty())
        .attr("title", "t".to_string())
        .child(Node::Element(Element::new("b")))
        .with_children(vec![Node::Text("2".to_string()), Node::Text("3".to_string())]);
    assert_eq!(
        element,
        Element {
            tag_name: "a".to_string(),
            attributes: vec![
                ("href".to_string(), "x".to_string()),
                ("title".to_string(), "t".to_string())
            ],
            style: None,
            children: vec![
                Node::Text("1".to_string()),
                Node::Element(Element::new("b")),
                Node::Text("2".to_string()),
                Node::Text("3".to_string()),
            ],
        }
    );
    assert_eq!(Element::new("p").css(&Css::str("x")).style, Some(Css::str("x")));
}

#[test]
fn long_code_is_cut_into_all_its_lines() {
    let mut code = String::new();
    for i in 0..2000 {
        code.push_str(&format!("line {} \u{e9}\u{4e2d}\n", i));
    }
    code.push_str("last");
    let nodes = highlight("no such language", &code);
    assert_eq!(nodes.len(), 2001);
    let mut joined = String::new();
    for node in &nodes {
        match node {
            Node::Element(span) => match &span.children[0] {
                Node::Text(value) => joined.push_str(value),
                _ => panic!("no text"),
            },
            Node::Text(value) => joined.push_str(value),
        }
    }
    assert_eq!(joined, code);
}
