use vertigo_cmark::{
    to_vertigo, to_vertigo_report, CMarkStyle, Css, CssGroup, Element, Node, Options,
};

fn text(value: &str) -> Node {
    Node::Text(value.to_string())
}

fn el(name: &str, children: Vec<Node>) -> Node {
    el_with(name, &[], children)
}

fn el_with(name: &str, attributes: &[(&str, &str)], children: Vec<Node>) -> Node {
    Node::Element(Element {
        tag_name: name.to_string(),
        attributes: attributes.iter().map(|(k, v)| (k.to_string(), v.to_string())).collect(),
        style: None,
        children,
    })
}

fn styled(node: Node, css: &str) -> Node {
    match node {
        Node::Element(element) => Node::Element(Element { style: Some(Css::str(css)), ..element }),
        other => other,
    }
}

fn css_text(css: &Css) -> String {
    let mut parts: Vec<String> = Vec::new();
    for group in &css.groups {
        match group {
            CssGroup::Rules { value } => parts.push(value.clone()),
            CssGroup::Media { query, rules } => {
                parts.push(format!("@media {} {{ {} }}", query, rules.join("; ")))
            }
        }
    }
    parts.join("; ")
}

/// Writes a tree as markup: attributes by name, the style descriptor folded into
/// the `style` attribute, text as it is.
fn pseudo_html(node: &Node) -> String {
    match node {
        Node::Text(value) => value.clone(),
        Node::Element(element) => {
            let mut attributes: Vec<(String, String)> = Vec::new();
            for (name, value) in &element.attributes {
                attributes.retain(|(n, _)| n != name);
                attributes.push((name.clone(), value.clone()));
            }
            if let Some(css) = &element.style {
                let mut styles: Vec<String> = vec![css_text(css)];
                if let Some(at) = attributes.iter().position(|(n, _)| n == "style") {
                    styles.push(attributes.remove(at).1);
                }
                styles.sort();
                attributes.push(("style".to_string(), styles.join("; ")));
            }
            attributes.sort();
            let mut out = format!("<{}", element.tag_name);
            for (name, value) in &attributes {
                out.push_str(&format!(" {}='{}'", name, value));
            }
            if element.children.is_empty() {
                out.push_str(" />");
            } else {
                out.push('>');
                for child in &element.children {
                    out.push_str(&pseudo_html(child));
                }
                out.push_str(&format!("</{}>", element.tag_name));
            }
            out
        }
    }
}

const KEYWORD: &str = "color: rgba(204, 153, 204, 255); background_color: rgba(45, 45, 45, 255)";
const PLAIN: &str = "color: rgba(211, 208, 200, 255); background_color: rgba(45, 45, 45, 255)";
const NUMBER: &str = "color: rgba(249, 145, 87, 255); background_color: rgba(45, 45, 45, 255)";

fn span(style: &str, value: &str) -> Node {
    el_with("span", &[("style", style)], vec![text(value)])
}

fn highlighted(source: &str) -> Node {
    let conversion =
        to_vertigo_report(source, Options::enable_tables(), &CMarkStyle::default(), true);
    assert!(conversion.anomalies.is_empty());
    Node::Element(conversion.root)
}

#[test]
fn code_codeblock() {
    let el1 = to_vertigo(
        r#"
Example of rust code:

```rust
let x = 2;
let y = x + 1;
```
"#,
    );
    let el2 = el(
        "div",
        vec![
            el("p", vec![text("Example of rust code:")]),
            el(
                "pre",
                vec![el_with(
                    "code",
                    &[("class", "language-rust")],
                    vec![text(
                        "let x = 2;
let y = x + 1;
",
                    )],
                )],
            ),
        ],
    );
    assert_eq!(pseudo_html(&el1), pseudo_html(&el2));
}

#[test]
fn code_highlighting_codeblock() {
    let el1 = highlighted(
        r#"
Example of rust code:

```rust
let x = 2 + 2;
if x == 4 {
    println!("{}", x);
}
```
"#,
    );
    let el2 = el(
        "div",
        vec![
            el("p", vec![text("Example of rust code:")]),
            el(
                "pre",
                vec![
                    span(KEYWORD, "let"),
                    span(PLAIN, " x "),
                    span(PLAIN, "="),
                    span(PLAIN, " "),
                    span(NUMBER, "2"),
                    span(PLAIN, " "),
                    span(PLAIN, "+"),
                    span(PLAIN, " "),
                    span(NUMBER, "2"),
                    span(PLAIN, ";"),
                    span(PLAIN, "\n"),
                    span(KEYWORD, "if"),
                    span(PLAIN, " x "),
                    span(PLAIN, "="),
                    span(PLAIN, "="),
                    span(PLAIN, " "),
                    span(NUMBER, "4"),
                    span(PLAIN, " "),
                    span(PLAIN, "{"),
                    span(PLAIN, "\n"),
                    span(PLAIN, "    "),
                    span(PLAIN, "println!"),
                    span(PLAIN, "("),
                    span(PLAIN, "\""),
                    span(NUMBER, "{}"),
                    span(PLAIN, "\""),
                    span(PLAIN, ","),
                    span(PLAIN, " x"),
                    span(PLAIN, ")"),
                    span(PLAIN, ";"),
                    span(PLAIN, "\n"),
                    span(PLAIN, "}"),
                    span(PLAIN, "\n"),
                ],
            ),
        ],
    );
    assert_eq!(pseudo_html(&el1), pseudo_html(&el2));
}

#[test]
fn codeblock_no_info() {
    let el1 = highlighted(
        r#"
Example of unknown code:
```
example
```
"#,
    );
    let el2 = el(
        "div",
        vec![
            el("p", vec![text("Example of unknown code:")]),
            el("pre", vec![span(PLAIN, "example\n")]),
        ],
    );
    assert_eq!(pseudo_html(&el1), pseudo_html(&el2));
    assert_eq!(el1, el2);
    let _ = styled(text(""), "");
}
