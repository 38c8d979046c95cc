use vertigo_cmark::{to_vertigo, to_vertigo_opts, Css, CssGroup, Element, Node, Options};

fn text(value: &str) -> Node {
    Node::Text(value.to_string())
}

fn el(name: &str, children: Vec<Node>) -> Node {
    el_with(name, &[], children)
}

fn el_with(name: &str, attributes: &[(&str, &str)], children: Vec<Node>) -> Node {
    Node::Element(Element {
        tag_name: name.to_string(),
        attributes: attributes.iter().map(|(k, v)| (k.to_string(), v.to_string())).collect(),
        style: None,
        children,
    })
}

fn styled(node: Node, css: &str) -> Node {
    match node {
        Node::Element(element) => Node::Element(Element { style: Some(Css::str(css)), ..element }),
        other => other,
    }
}

fn css_text(css: &Css) -> String {
    let mut parts: Vec<String> = Vec::new();
    for group in &css.groups {
        match group {
            CssGroup::Rules { value } => parts.push(value.clone()),
            CssGroup::Media { query, rules } => {
                parts.push(format!("@media {} {{ {} }}", query, rules.join("; ")))
            }
        }
    }
    parts.join("; ")
}

/// Writes a tree as markup: attributes by name, the style descriptor folded into
/// the `style` attribute, text as it is.
fn pseudo_html(node: &Node) -> String {
    match node {
        Node::Text(value) => value.clone(),
        Node::Element(element) => {
            let mut attributes: Vec<(String, String)> = Vec::new();
            for (name, value) in &element.attributes {
                attributes.retain(|(n, _)| n != name);
                attributes.push((name.clone(), value.clone()));
            }
            if let Some(css) = &element.style {
                let mut styles: Vec<String> = vec![css_text(css)];
                if let Some(at) = attributes.iter().position(|(n, _)| n == "style") {
                    styles.push(attributes.remove(at).1);
                }
                styles.sort();
                attributes.push(("style".to_string(), styles.join("; ")));
            }
            attributes.sort();
            let mut out = format!("<{}", element.tag_name);
            for (name, value) in &attributes {
                out.push_str(&format!(" {}='{}'", name, value));
            }
            if element.children.is_empty() {
                out.push_str(" />");
            } else {
                out.push('>');
                for child in &element.children {
                    out.push_str(&pseudo_html(child));
                }
                out.push_str(&format!("</{}>", element.tag_name));
            }
            out
        }
    }
}

#[test]
fn lists_lists() {
    let el1 = to_vertigo(
        r#"
Unordered list:

- One
- Two

Ordered list:

1. One
2. Two

List continuation:

3. Three
4. Four
"#,
    );
    let el2 = el(
        "div",
        vec![
            el("p", vec![text("Unordered list:")]),
            el("ul", vec![el("li", vec![text("One")]), el("li", vec![text("Two")])]),
            el("p", vec![text("Ordered list:")]),
            el("ol", vec![el("li", vec![text("One")]), el("li", vec![text("Two")])]),
            el("p", vec![text("List continuation:")]),
            el_with(
                "ol",
                &[("start", "3")],
                vec![el("li", vec![text("Three")]), el("li", vec![text("Four")])],
            ),
        ],
    );
    assert_eq!(pseudo_html(&el1), pseudo_html(&el2));
    assert_eq!(el1, el2);
}

#[test]
fn definition_list() {
    let opts = Options::enable_definition_list();
    let el1 = to_vertigo_opts(
        r#"
Coffee
  : Black hot drink

Milk
  : White cold drink
"#,
        opts,
    );
    let el2 = el(
        "div",
        vec![el(
            "dl",
            vec![
                el("dt", vec![text("Coffee")]),
                el("dd", vec![text("Black hot drink")]),
                el("dt", vec![text("Milk")]),
                el("dd", vec![text("White cold drink")]),
            ],
        )],
    );
    assert_eq!(pseudo_html(&el1), pseudo_html(&el2));
    assert_eq!(el1, el2);
}

#[test]
fn task_list() {
    let opts = Options::enable_tasklists();
    let el1 = to_vertigo_opts(
        r#"
Implement in vertigo-cmark:

- [x] Rendering CommonMark,
- [ ] Frying pancakes."#,
        opts,
    );
    let el2 = el(
        "div",
        vec![
            el("p", vec![text("Implement in vertigo-cmark:")]),
            el(
                "ul",
                vec![
                    el(
                        "li",
                        vec![
                            el_with(
                                "input",
                                &[("checked", "checked"), ("disabled", ""), ("type", "checkbox")],
                                vec![],
                            ),
                            text("Rendering CommonMark,"),
                        ],
                    ),
                    el(
                        "li",
                        vec![
                            el_with("input", &[("disabled", ""), ("type", "checkbox")], vec![]),
                            text("Frying pancakes."),
                        ],
                    ),
                ],
            ),
        ],
    );
    assert_eq!(pseudo_html(&el1), pseudo_html(&el2));
    let _ = styled(text(""), "");
}
