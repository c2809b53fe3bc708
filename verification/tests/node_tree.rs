use dom::tree::AttrMap;
use dom::tree::ElementData;
use dom::tree::Node;
use dom::tree::NodeType;
use dom::printer::pretty_print;

fn attrs(pairs: &[(&str, &str)]) -> AttrMap {
    let mut m: AttrMap = Vec::new();
    for (k, v) in pairs {
        m.push((k.to_string(), v.to_string()));
    }
    m
}

fn element(tag: &str, pairs: &[(&str, &str)], children: Vec<Node>) -> Node {
    Node::new(
        NodeType::Element(ElementData::new(tag.to_string(), attrs(pairs))),
        children,
    )
}

fn text(s: &str) -> Node {
    Node::new(NodeType::Text(s.to_string()), Vec::new())
}

fn comment(s: &str) -> Node {
    Node::new(NodeType::Comment(s.to_string()), Vec::new())
}

fn printed(node: &Node, indent: usize) -> Vec<String> {
    let mut out: Vec<String> = Vec::new();
    pretty_print(node, indent, &mut out);
    out
}

fn sorted(mut v: Vec<String>) -> Vec<String> {
    v.sort();
    v
}

#[test]
fn new_keeps_payload_and_children() {
    let n = element("div", &[], vec![text("hi"), comment("note")]);
    assert_eq!(n.children.len(), 2);
    match &n.node_type {
        NodeType::Element(e) => {
            assert_eq!(e.tag_name, "div");
            assert!(e.attributes.is_empty());
        }
        _ => panic!("expected an element payload"),
    }
}

#[test]
fn text_node_renders_as_its_text() {
    let n = text("hello world");
    assert_eq!(n.render(), "hello world");
}

#[test]
fn comment_node_renders_as_its_body() {
    let n = comment("to do");
    assert_eq!(n.render(), "to do");
}

#[test]
fn element_renders_with_attributes_in_insertion_order() {
    let e = ElementData::new("p".to_string(), attrs(&[("a", "1"), ("b", "2")]));
    assert_eq!(e.render(), "<p,a=\"1\"b=\"2\">");
    let n = Node::new(NodeType::Element(e), Vec::new());
    assert_eq!(n.render(), "<p,a=\"1\"b=\"2\">");
}

#[test]
fn element_without_attributes_renders_bare() {
    let e = ElementData::new("div".to_string(), Vec::new());
    assert_eq!(e.render(), "<div,>");
}

#[test]
fn get_id_returns_the_id_attribute() {
    let e = ElementData::new("p".to_string(), attrs(&[("id", "x"), ("class", "a b")]));
    assert_eq!(e.get_id(), Some("x"));
}

#[test]
fn get_id_is_absent_without_an_id_attribute() {
    let e = ElementData::new("p".to_string(), attrs(&[("class", "a b")]));
    assert_eq!(e.get_id(), None);
}

#[test]
fn get_classes_splits_on_single_spaces() {
    let e = ElementData::new("p".to_string(), attrs(&[("class", "a b")]));
    assert_eq!(
        sorted(e.get_classes()),
        vec!["a".to_string(), "b".to_string()]
    );
}

#[test]
fn get_classes_keeps_the_empty_piece_of_a_double_space() {
    let e = ElementData::new("p".to_string(), attrs(&[("class", "a  b")]));
    assert_eq!(
        sorted(e.get_classes()),
        vec!["".to_string(), "a".to_string(), "b".to_string()]
    );
}

#[test]
fn get_classes_keeps_leading_and_trailing_empty_pieces() {
    let e = ElementData::new("p".to_string(), attrs(&[("class", " a ")]));
    assert_eq!(sorted(e.get_classes()), vec!["".to_string(), "a".to_string()]);
}

#[test]
fn get_classes_collapses_duplicates() {
    let e = ElementData::new("p".to_string(), attrs(&[("class", "a b a")]));
    assert_eq!(
        sorted(e.get_classes()),
        vec!["a".to_string(), "b".to_string()]
    );
}

#[test]
fn get_classes_is_empty_without_a_class_attribute() {
    let e = ElementData::new("p".to_string(), attrs(&[("id", "x")]));
    assert_eq!(e.get_classes(), Vec::<String>::new());
}

#[test]
fn get_classes_is_empty_on_an_empty_class_attribute() {
    let e = ElementData::new("p".to_string(), attrs(&[("class", "")]));
    assert_eq!(e.get_classes(), Vec::<String>::new());
}

#[test]
fn prints_one_element_with_one_text_child() {
    let tree = element("div", &[], vec![text("hi")]);
    assert_eq!(printed(&tree, 0), vec!["<div,>", "  hi", "</div>"]);
}

#[test]
fn prints_a_comment_at_the_current_indent_with_no_closing_line() {
    let tree = comment("note");
    assert_eq!(printed(&tree, 4), vec!["    <!---note--->"]);
}

#[test]
fn prints_a_text_leaf_as_its_text() {
    let tree = text("hi");
    assert_eq!(printed(&tree, 0), vec!["hi"]);
}

#[test]
fn prints_a_chain_with_mirrored_indentation() {
    let tree = element(
        "a",
        &[],
        vec![element("b", &[], vec![element("c", &[], vec![text("deep")])])],
    );
    let lines = printed(&tree, 0);
    assert_eq!(lines.len(), 2 * 3 + 1);
    assert_eq!(
        lines,
        vec![
            "<a,>",
            "  <b,>",
            "    <c,>",
            "      deep",
            "    </c>",
            "  </b>",
            "</a>",
        ]
    );
}

#[test]
fn prints_siblings_in_order_between_the_element_lines() {
    let tree = element("ul", &[], vec![text("one"), comment("two"), text("three")]);
    assert_eq!(
        printed(&tree, 0),
        vec!["<ul,>", "  one", "  <!---two--->", "  three", "</ul>"]
    );
}

#[test]
fn prints_from_a_nonzero_starting_indent() {
    let tree = element("div", &[], vec![text("hi")]);
    assert_eq!(printed(&tree, 2), vec!["  <div,>", "    hi", "  </div>"]);
}

#[test]
fn pretty_print_appends_after_existing_lines() {
    let mut out: Vec<String> = vec!["before".to_string()];
    pretty_print(&text("hi"), 0, &mut out);
    assert_eq!(out, vec!["before", "hi"]);
}

#[test]
fn element_attributes_appear_in_the_opening_line() {
    let tree = element("div", &[("id", "x")], Vec::new());
    assert_eq!(printed(&tree, 0), vec!["<div,id=\"x\">", "</div>"]);
}
