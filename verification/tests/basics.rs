use vertigo_cmark::{to_vertigo, to_vertigo_opts, Css, CssGroup, Element, Node, Options};

fn text(value: &str) -> Node {
    Node::Text(value.to_string())
}

fn el(name: &str, children: Vec<Node>) -> Node {
    el_with(name, &[], children)
}

fn el_with(name: &str, attributes: &[(&str, &str)], children: Vec<Node>) -> Node {
    Node::Element(Element {
        tag_name: name.to_string(),
        attributes: attributes.iter().map(|(k, v)| (k.to_string(), v.to_string())).collect(),
        style: None,
        children,
    })
}

fn styled(node: Node, css: &str) -> Node {
    match node {
        Node::Element(element) => Node::Element(Element { style: Some(Css::str(css)), ..element }),
        other => other,
    }
}

fn css_text(css: &Css) -> String {
    let mut parts: Vec<String> = Vec::new();
    for group in &css.groups {
        match group {
            CssGroup::Rules { value } => parts.push(value.clone()),
            CssGroup::Media { query, rules } => {
                parts.push(format!("@media {} {{ {} }}", query, rules.join("; ")))
            }
        }
    }
    parts.join("; ")
}

/// Writes a tree as markup: attributes by name, the style descriptor folded into
/// the `style` attribute, text as it is.
fn pseudo_html(node: &Node) -> String {
    match node {
        Node::Text(value) => value.clone(),
        Node::Element(element) => {
            let mut attributes: Vec<(String, String)> = Vec::new();
            for (name, value) in &element.attributes {
                attributes.retain(|(n, _)| n != name);
                attributes.push((name.clone(), value.clone()));
            }
            if let Some(css) = &element.style {
                let mut styles: Vec<String> = vec![css_text(css)];
                if let Some(at) = attributes.iter().position(|(n, _)| n == "style") {
                    styles.push(attributes.remove(at).1);
                }
                styles.sort();
                attributes.push(("style".to_string(), styles.join("; ")));
            }
            attributes.sort();
            let mut out = format!("<{}", element.tag_name);
            for (name, value) in &attributes {
                out.push_str(&format!(" {}='{}'", name, value));
            }
            if element.children.is_empty() {
                out.push_str(" />");
            } else {
                out.push('>');
                for child in &element.children {
                    out.push_str(&pseudo_html(child));
                }
                out.push_str(&format!("</{}>", element.tag_name));
            }
            out
        }
    }
}

#[test]
fn mod_text() {
    let el1 = to_vertigo("foo bar");
    let el2 = el("div", vec![el("p", vec![text("foo bar")])]);
    assert_eq!(pseudo_html(&el1), pseudo_html(&el2));
}

#[test]
fn tests_text() {
    let el1 = to_vertigo("foo bar");
    let el2 = el("div", vec![el("p", vec![text("foo bar")])]);
    assert_eq!(pseudo_html(&el1), pseudo_html(&el2));
}

#[test]
fn heading_rule() {
    let el1 = to_vertigo(
        r#"
# Heading 1

foo

---

bar
"#,
    );
    let el2 = el(
        "div",
        vec![
            el("h1", vec![text("Heading 1")]),
            el("p", vec![text("foo")]),
            el("hr", vec![]),
            el("p", vec![text("bar")]),
        ],
    );
    assert_eq!(pseudo_html(&el1), pseudo_html(&el2));
}

#[test]
fn mod_text_bold_inline() {
    let el1 = to_vertigo("foo __spam__ bar");
    let el2 = el("div", vec![el("p", vec![text("foo <strong>spam</strong> bar")])]);
    assert_eq!(pseudo_html(&el1), pseudo_html(&el2));
}

#[test]
fn tests_text_bold_inline() {
    let el1 = to_vertigo("foo __spam__ bar");
    let el2 = el("div", vec![el("p", vec![text("foo <strong>spam</strong> bar")])]);
    assert_eq!(pseudo_html(&el1), pseudo_html(&el2));
}

#[test]
fn mod_text_italics_inline() {
    let el1 = to_vertigo("foo *spam* bar");
    let el2 = el("div", vec![el("p", vec![text("foo <em>spam</em> bar")])]);
    assert_eq!(pseudo_html(&el1), pseudo_html(&el2));
}

#[test]
fn tests_text_italics_inline() {
    let el1 = to_vertigo("foo *spam* bar");
    let el2 = el("div", vec![el("p", vec![text("foo <em>spam</em> bar")])]);
    assert_eq!(pseudo_html(&el1), pseudo_html(&el2));
}

#[test]
fn mod_paragraph_line_join() {
    let el1 = to_vertigo(
        r#"Some text.
Another line for the same paragraph.
And another"#,
    );
    let el2 = el(
        "div",
        vec![el("p", vec![text("Some text. Another line for the same paragraph. And another")])],
    );
    assert_eq!(pseudo_html(&el1), pseudo_html(&el2));
}

#[test]
fn tests_paragraph_line_join() {
    let el1 = to_vertigo(
        r#"Some text.
Another line for the same paragraph.
And another"#,
    );
    let el2 = el(
        "div",
        vec![el("p", vec![text("Some text. Another line for the same paragraph. And another")])],
    );
    assert_eq!(pseudo_html(&el1), pseudo_html(&el2));
}

#[test]
fn mod_two_paragraphs() {
    let el1 = to_vertigo(
        r#"Some text.

Line for second paragraph.
Another line of second paragraph."#,
    );
    let el2 = el(
        "div",
        vec![
            el("p", vec![text("Some text.")]),
            el("p", vec![text("Line for second paragraph. Another line of second paragraph.")]),
        ],
    );
    assert_eq!(pseudo_html(&el1), pseudo_html(&el2));
}

#[test]
fn mod_two_paragraphs_2() {
    let el1 = to_vertigo(
        r#"Some text.
Some more text.

Line for second paragraph.
Another line of second paragraph."#,
    );
    let el2 = el(
        "div",
        vec![
            el("p", vec![text("Some text. Some more text.")]),
            el("p", vec![text("Line for second paragraph. Another line of second paragraph.")]),
        ],
    );
    assert_eq!(pseudo_html(&el1), pseudo_html(&el2));
}

#[test]
fn mod_brackets() {
    let el1 = to_vertigo(r#"Text with [two or more] brackets"#);
    let el2 = el("div", vec![el("p", vec![text("Text with [two or more] brackets")])]);
    assert_eq!(pseudo_html(&el1), pseudo_html(&el2));
}

#[test]
fn tests_brackets() {
    let el1 = to_vertigo(r#"Text with [two or more] brackets"#);
    let el2 = el("div", vec![el("p", vec![text("Text with [two or more] brackets")])]);
    assert_eq!(pseudo_html(&el1), pseudo_html(&el2));
}

#[test]
fn math() {
    let mut opts = Options::empty();
    opts.insert(Options::enable_math());
    let el1 = to_vertigo_opts(
        r#"
Some $2+2=4$ equation.

And more complex one:

$$a^2 + 2b + c = 0$$"#,
        opts,
    );
    let el2 = el(
        "div",
        vec![
            el(
                "p",
                vec![
                    text("Some "),
                    el_with("span", &[("class", "math math-inline")], vec![text("2+2=4")]),
                    text(" equation."),
                ],
            ),
            el("p", vec![text("And more complex one:")]),
            el(
                "p",
                vec![el_with(
                    "span",
                    &[("class", "math math-display")],
                    vec![text("a^2 + 2b + c = 0")],
                )],
            ),
        ],
    );
    assert_eq!(pseudo_html(&el1), pseudo_html(&el2));
}

#[test]
fn footnotes() {
    let mut opts = Options::empty();
    opts.insert(Options::enable_footnotes());
    let el1 = to_vertigo_opts(
        r#"
This is sentence with footnote[^1]. I hope it works[^2].

[^1]: In fact, this is a footnote.

[^2]: Or at least the test passes."#,
        opts,
    );
    let el2 = el(
        "div",
        vec![
            el(
                "p",
                vec![
                    text("This is sentence with footnote"),
                    el_with(
                        "sup",
                        &[("class", "footnote-reference")],
                        vec![el_with("a", &[("href", "#1")], vec![text("1")])],
                    ),
                    text(". I hope it works"),
                    el_with(
                        "sup",
                        &[("class", "footnote-reference")],
                        vec![el_with("a", &[("href", "#2")], vec![text("2")])],
                    ),
                    text("."),
                ],
            ),
            el_with(
                "div",
                &[("class", "footnote-definition"), ("id", "1")],
                vec![
                    el_with("sup", &[("class", "footnote-definition-label")], vec![text("1")]),
                    el("p", vec![text("In fact, this is a footnote.")]),
                ],
            ),
            el_with(
                "div",
                &[("class", "footnote-definition"), ("id", "2")],
                vec![
                    el_with("sup", &[("class", "footnote-definition-label")], vec![text("2")]),
                    el("p", vec![text("Or at least the test passes.")]),
                ],
            ),
        ],
    );
    assert_eq!(pseudo_html(&el1), pseudo_html(&el2));
    assert_eq!(el1, el2);
}

#[test]
fn all_headings() {
    let el1 = to_vertigo(
        r#"
# Heading 1

## Heading 2

### Heading 3

#### Heading 4

##### Heading 5

###### Heading 6
"#,
    );
    let el2 = el(
        "div",
        vec![
            el("h1", vec![text("Heading 1")]),
            el("h2", vec![text("Heading 2")]),
            el("h3", vec![text("Heading 3")]),
            el("h4", vec![text("Heading 4")]),
            el("h5", vec![text("Heading 5")]),
            el("h6", vec![text("Heading 6")]),
        ],
    );
    assert_eq!(pseudo_html(&el1), pseudo_html(&el2));
    assert_eq!(el1, el2);
}

#[test]
fn mod_blockquote() {
    let mut opts = Options::empty();
    opts.insert(Options::enable_gfm());
    let el1 = to_vertigo_opts(
        r#"
Usual text for testing:

> Lorem ipsum

> [!NOTE]
> dolor sit amet

> [!TIP]
> dolor sit amet

> [!IMPORTANT]
> dolor sit amet

> [!WARNING]
> dolor sit amet

> [!CAUTION]
> dolor sit amet
"#,
        opts,
    );
    let quote = |class: &str| {
        el_with("blockquote", &[("class", class)], vec![el("p", vec![text("dolor sit amet")])])
    };
    let el2 = el(
        "div",
        vec![
            el("p", vec![text("Usual text for testing:")]),
            el("blockquote", vec![el("p", vec![text("Lorem ipsum")])]),
            quote("markdown-alert-note"),
            quote("markdown-alert-tip"),
            quote("markdown-alert-important"),
            quote("markdown-alert-warning"),
            quote("markdown-alert-caution"),
        ],
    );
    assert_eq!(pseudo_html(&el1), pseudo_html(&el2));
    assert_eq!(el1, el2);
}

#[test]
fn mod_link() {
    let el1 = to_vertigo(
        r#"
[Vertigo Cmark](https://github.com/vertigo-web/vertigo-cmark)

[Vertigo][vertigo]

[do not email him](mailto:him@example.com)

[vertigo]: https://github.com/vertigo-web/vertigo "Vertigo Code"
"#,
    );
    let el2 = el(
        "div",
        vec![
            el(
                "p",
                vec![el_with(
                    "a",
                    &[("href", "https://github.com/vertigo-web/vertigo-cmark")],
                    vec![text("Vertigo Cmark")],
                )],
            ),
            el(
                "p",
                vec![el_with(
                    "a",
                    &[
                        ("href", "https://github.com/vertigo-web/vertigo"),
                        ("title", "Vertigo Code"),
                    ],
                    vec![text("Vertigo")],
                )],
            ),
            el(
                "p",
                vec![el_with(
                    "a",
                    &[("href", "mailto:him@example.com")],
                    vec![text("do not email him")],
                )],
            ),
        ],
    );
    assert_eq!(pseudo_html(&el1), pseudo_html(&el2));
    assert_eq!(el1, el2);
}

#[test]
fn mod_image() {
    let el1 = to_vertigo(
        r#"
![This is a cat](cat.png)

![This is a dog][dog]

[dog]: dog.jpg "An image of a dog"
"#,
    );
    let el2 = el(
        "div",
        vec![
            el("p", vec![el_with("img", &[("alt", "This is a cat"), ("src", "cat.png")], vec![])]),
            el(
                "p",
                vec![el_with(
                    "img",
                    &[("alt", "This is a dog"), ("title", "An image of a dog"), ("src", "dog.jpg")],
                    vec![],
                )],
            ),
        ],
    );
    assert_eq!(pseudo_html(&el1), pseudo_html(&el2));
    let _ = styled(text(""), "");
}
