use vertigo_cmark::{to_vertigo, Css, CssGroup, Element, Node};

fn text(value: &str) -> Node {
    Node::Text(value.to_string())
}

fn el(name: &str, children: Vec<Node>) -> Node {
    el_with(name, &[], children)
}

fn el_with(name: &str, attributes: &[(&str, &str)], children: Vec<Node>) -> Node {
    Node::Element(Element {
        tag_name: name.to_string(),
        attributes: attributes.iter().map(|(k, v)| (k.to_string(), v.to_string())).collect(),
        style: None,
        children,
    })
}

fn styled(node: Node, css: &str) -> Node {
    match node {
        Node::Element(element) => Node::Element(Element { style: Some(Css::str(css)), ..element }),
        other => other,
    }
}

fn css_text(css: &Css) -> String {
    let mut parts: Vec<String> = Vec::new();
    for group in &css.groups {
        match group {
            CssGroup::Rules { value } => parts.push(value.clone()),
            CssGroup::Media { query, rules } => {
                parts.push(format!("@media {} {{ {} }}", query, rules.join("; ")))
            }
        }
    }
    parts.join("; ")
}

/// Writes a tree as markup: attributes by name, the style descriptor folded into
/// the `style` attribute, text as it is.
fn pseudo_html(node: &Node) -> String {
    match node {
        Node::Text(value) => value.clone(),
        Node::Element(element) => {
            let mut attributes: Vec<(String, String)> = Vec::new();
            for (name, value) in &element.attributes {
                attributes.retain(|(n, _)| n != name);
                attributes.push((name.clone(), value.clone()));
            }
            if let Some(css) = &element.style {
                let mut styles: Vec<String> = vec![css_text(css)];
                if let Some(at) = attributes.iter().position(|(n, _)| n == "style") {
                    styles.push(attributes.remove(at).1);
                }
                styles.sort();
                attributes.push(("style".to_string(), styles.join("; ")));
            }
            attributes.sort();
            let mut out = format!("<{}", element.tag_name);
            for (name, value) in &attributes {
                out.push_str(&format!(" {}='{}'", name, value));
            }
            if element.children.is_empty() {
                out.push_str(" />");
            } else {
                out.push('>');
                for child in &element.children {
                    out.push_str(&pseudo_html(child));
                }
                out.push_str(&format!("</{}>", element.tag_name));
            }
            out
        }
    }
}

fn row(cell: &str, cells: Vec<Vec<Node>>) -> Node {
    el("tr", cells.into_iter().map(|children| el(cell, children)).collect())
}

#[test]
fn table_table_1() {
    let el1 = to_vertigo(
        r##" foo|bar
 ---|---
 baz|bim
 "##,
    );
    let el2 = el(
        "div",
        vec![el(
            "table",
            vec![
                el("thead", vec![row("th", vec![vec![text("foo")], vec![text("bar")]])]),
                el("tbody", vec![row("td", vec![vec![text("baz")], vec![text("bim")]])]),
            ],
        )],
    );
    assert_eq!(pseudo_html(&el1), pseudo_html(&el2));
    assert_eq!(el1, el2);
}

#[test]
fn table_table_2() {
    let el1 = to_vertigo(
        r##"
| Head cell  | Another      |
| ---------- | ------------ |
| Cell text  | Another cell |
| More cells | *below...*   |
| ```Inlines``` | __allowed__ |
"##,
    );
    let el2 = el(
        "div",
        vec![el(
            "table",
            vec![
                el(
                    "thead",
                    vec![row("th", vec![vec![text("Head cell")], vec![text("Another")]])],
                ),
                el(
                    "tbody",
                    vec![
                        row("td", vec![vec![text("Cell text")], vec![text("Another cell")]]),
                        row(
                            "td",
                            vec![vec![text("More cells")], vec![el("em", vec![text("below...")])]],
                        ),
                        row(
                            "td",
                            vec![
                                vec![el("code", vec![text("Inlines")])],
                                vec![el("strong", vec![text("allowed")])],
                            ],
                        ),
                    ],
                ),
            ],
        )],
    );
    assert_eq!(pseudo_html(&el1), pseudo_html(&el2));
    assert_eq!(el1, el2);
}

#[test]
fn table_table_mixed() {
    let el1 = to_vertigo(
        r##"# Something

I'm saying something

| Head 1 | Head 2 |
| ------ | ------ |
| Cell 1 | Cell 2 |
"##,
    );
    let el2 = el(
        "div",
        vec![
            el("h1", vec![text("Something")]),
            el("p", vec![text("I'm saying something")]),
            el(
                "table",
                vec![
                    el("thead", vec![row("th", vec![vec![text("Head 1")], vec![text("Head 2")]])]),
                    el("tbody", vec![row("td", vec![vec![text("Cell 1")], vec![text("Cell 2")]])]),
                ],
            ),
        ],
    );
    assert_eq!(pseudo_html(&el1), pseudo_html(&el2));
    assert_eq!(el1, el2);
    let _ = (styled(text(""), ""), el_with("", &[], vec![]));
}
