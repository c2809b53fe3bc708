//! The tree printer: an indenting, recursive textual dump of a node and all
//! of its descendants.

use vstd::prelude::*;

verus! {

use vstd::string::StringExecFns;
use crate::tree::ElementData;
use crate::tree::Node;
use crate::tree::NodeType;
use crate::tree::element_text;
use crate::tree::string_views;

/// A run of `n` space characters, the indentation prefix of a printed line.
pub open spec fn indent_text(n: nat) -> Seq<char> {
    Seq::new(n, |i: int| ' ')
}

/// The printer's rendering of a comment body: `<!---body--->`.
pub open spec fn comment_text(c: Seq<char>) -> Seq<char> {
    "<!---"@ + c + "--->"@
}

/// The content of a node's opening line, indentation aside: the raw text for
/// a text node, `<!---body--->` for a comment, the element rendering for an
/// element.
pub open spec fn opening_text(nt: NodeType) -> Seq<char> {
    match nt {
        NodeType::Text(t) => t@,
        NodeType::Comment(c) => comment_text(c@),
        NodeType::Element(e) => element_text(e),
    }
}

/// The content of an element's closing line, indentation aside: `</tag>`.
pub open spec fn closing_text(e: ElementData) -> Seq<char> {
    "</"@ + e.tag_name@ + ">"@
}

/// Every line the printer emits for a node at a given indentation: one
/// opening line, then the lines of the children in order, each two spaces
/// deeper, then, for an element node only, one closing line.
pub open spec fn node_lines(n: Node, indent: nat) -> Seq<Seq<char>>
    decreases n,
{
    let body = seq![indent_text(indent) + opening_text(n.node_type)] + forest_lines(
        n.children@,
        indent + 2,
    );
    match n.node_type {
        NodeType::Element(e) => body.push(indent_text(indent) + closing_text(e)),
        _ => body,
    }
}

/// The lines the printer emits for a sequence of sibling nodes, in order.
pub open spec fn forest_lines(ns: Seq<Node>, indent: nat) -> Seq<Seq<char>>
    decreases ns,
{
    if ns.len() == 0 {
        Seq::empty()
    } else {
        forest_lines(ns.drop_last(), indent) + node_lines(ns.last(), indent)
    }
}

/// The depth of a tree: one for the node itself plus the deepest child.
pub open spec fn depth(n: Node) -> nat
    decreases n,
{
    1 + forest_depth(n.children@)
}

/// The largest depth among a sequence of sibling nodes; zero for none.
pub open spec fn forest_depth(ns: Seq<Node>) -> nat
    decreases ns,
{
    if ns.len() == 0 {
        0
    } else {
        let d = depth(ns.last());
        let rest = forest_depth(ns.drop_last());
        if d > rest {
            d
        } else {
            rest
        }
    }
}

/// No sibling is deeper than the forest.
proof fn lemma_forest_depth_bound(ns: Seq<Node>, i: int)
    requires
        0 <= i < ns.len(),
    ensures
        depth(ns[i]) <= forest_depth(ns),
    decreases ns.len(),
{
    if i == ns.len() - 1 {
        assert(ns.last() == ns[i]);
    } else {
        lemma_forest_depth_bound(ns.drop_last(), i);
        assert(ns.drop_last()[i] == ns[i]);
    }
}

/// Appends to `out` one line per visited node, walking the tree depth first
/// from `node`: each node's opening line carries `indent_size` spaces at its
/// recursion level, children are printed two spaces deeper, and an element
/// node is closed by a `</tag>` line at its own indentation after all of its
/// children. The bound on `indent_size` only keeps the deepest indentation
/// representable on the machine.
pub fn pretty_print(node: &Node, indent_size: usize, out: &mut Vec<String>)
    requires
        indent_size + 2 * depth(*node) - 2 <= usize::MAX,
    ensures
        string_views(final(out)@) == string_views(old(out)@) + node_lines(
            *node,
            indent_size as nat,
        ),
    decreases *node,
{
    let mut line = indent_string(indent_size);
    match &node.node_type {
        NodeType::Text(t) => {
            line.append(t.as_str());
        },
        NodeType::Comment(c) => {
            line.append("<!---");
            line.append(c.as_str());
            line.append("--->");
        },
        NodeType::Element(e) => {
            let rendered = e.render();
            line.append(rendered.as_str());
        },
    }
    proof {
        assert(line@ =~= indent_text(indent_size as nat) + opening_text(node.node_type));
    }
    let ghost entry = out@;
    out.push(line);
    proof {
        assert(string_views(out@) =~= string_views(entry) + seq![
            indent_text(indent_size as nat) + opening_text(node.node_type),
        ]);
        assert(node.children@.subrange(0, 0) =~= Seq::<Node>::empty());
    }
    let mut i: usize = 0;
    while i < node.children.len()
        invariant
            i <= node.children@.len(),
            indent_size + 2 * depth(*node) - 2 <= usize::MAX,
            string_views(out@) == string_views(entry) + seq![
                indent_text(indent_size as nat) + opening_text(node.node_type),
            ] + forest_lines(node.children@.subrange(0, i as int), indent_size as nat + 2),
        decreases node.children@.len() - i,
    {
        proof {
            lemma_forest_depth_bound(node.children@, i as int);
        }
        let ghost before = out@;
        pretty_print(&node.children[i], indent_size + 2, out);
        proof {
            let pre1 = node.children@.subrange(0, i as int + 1);
            assert(pre1.drop_last() =~= node.children@.subrange(0, i as int));
            assert(pre1.last() == node.children@[i as int]);
            assert(string_views(out@) =~= string_views(entry) + seq![
                indent_text(indent_size as nat) + opening_text(node.node_type),
            ] + forest_lines(pre1, indent_size as nat + 2));
        }
        i = i + 1;
    }
    proof {
        assert(node.children@.subrange(0, node.children@.len() as int) =~= node.children@);
    }
    if let NodeType::Element(e) = &node.node_type {
        let mut closing = indent_string(indent_size);
        closing.append("</");
        closing.append(e.tag_name.as_str());
        closing.append(">");
        proof {
            assert(closing@ =~= indent_text(indent_size as nat) + closing_text(*e));
        }
        let ghost before_close = out@;
        out.push(closing);
        proof {
            assert(string_views(out@) =~= string_views(before_close).push(
                indent_text(indent_size as nat) + closing_text(*e),
            ));
            assert(string_views(out@) =~= string_views(entry) + node_lines(
                *node,
                indent_size as nat,
            ));
        }
    } else {
        proof {
            assert(string_views(out@) =~= string_views(entry) + node_lines(
                *node,
                indent_size as nat,
            ));
        }
    }
}

/// A text node's printed output: one line of `indent` spaces and the raw
/// text, then its children's lines two spaces deeper, and no closing line.
/// A childless text node prints as its text alone.
pub proof fn lemma_text_lines(n: Node, s: String, indent: nat)
    requires
        n.node_type == NodeType::Text(s),
    ensures
        node_lines(n, indent) == seq![indent_text(indent) + s@] + forest_lines(
            n.children@,
            indent + 2,
        ),
        n.children@.len() == 0 && indent == 0 ==> node_lines(n, indent) == seq![s@],
{
    assert(node_lines(n, indent) == seq![indent_text(indent) + s@] + forest_lines(
        n.children@,
        indent + 2,
    ));
    if n.children@.len() == 0 && indent == 0 {
        assert(indent_text(0) + s@ =~= s@);
        assert(node_lines(n, indent) =~= seq![s@]);
    }
}

/// A comment node's printed output: one line of `indent` spaces and
/// `<!---body--->`, then its children's lines two spaces deeper, and no
/// closing line.
pub proof fn lemma_comment_lines(n: Node, c: String, indent: nat)
    requires
        n.node_type == NodeType::Comment(c),
    ensures
        node_lines(n, indent) == seq![indent_text(indent) + comment_text(c@)] + forest_lines(
            n.children@,
            indent + 2,
        ),
{
}

/// An element node's printed output: exactly one opening line rendering the
/// element and exactly one closing line `</tag>`, both at the node's own
/// indentation, with every descendant's lines strictly between the two,
/// printed two spaces deeper.
pub proof fn lemma_element_lines(n: Node, e: ElementData, indent: nat)
    requires
        n.node_type == NodeType::Element(e),
    ensures
        node_lines(n, indent).len() == 2 + forest_lines(n.children@, indent + 2).len(),
        node_lines(n, indent).first() == indent_text(indent) + element_text(e),
        node_lines(n, indent).last() == indent_text(indent) + closing_text(e),
        node_lines(n, indent).subrange(
            1,
            node_lines(n, indent).len() - 1,
        ) == forest_lines(n.children@, indent + 2),
{
    let lines = node_lines(n, indent);
    let body = forest_lines(n.children@, indent + 2);
    assert(lines == (seq![indent_text(indent) + opening_text(n.node_type)] + body).push(
        indent_text(indent) + closing_text(e),
    ));
    assert(lines.subrange(1, lines.len() - 1) =~= body);
}

/// Every line the printer emits for a subtree begins with the subtree's own
/// indentation: at least `indent` leading spaces. Together with the structure
/// of an element's output this pins the indentation discipline: a child's
/// lines carry exactly two spaces more than its parent's own prefix.
pub proof fn lemma_lines_indented(n: Node, indent: nat)
    ensures
        forall|j: int|
            0 <= j < node_lines(n, indent).len() ==> node_lines(n, indent)[j].len() >= indent
                && node_lines(n, indent)[j].subrange(0, indent as int) == indent_text(indent),
    decreases n,
{
    let lines = node_lines(n, indent);
    let opening = indent_text(indent) + opening_text(n.node_type);
    let body = forest_lines(n.children@, indent + 2);
    lemma_forest_lines_indented(n.children@, indent + 2);
    assert(opening.subrange(0, indent as int) =~= indent_text(indent));
    assert forall|j: int| 0 <= j < lines.len() implies lines[j].len() >= indent
        && lines[j].subrange(0, indent as int) == indent_text(indent) by {
        if j == 0 {
            assert(lines[0] == opening);
        } else if j <= body.len() {
            assert(lines[j] == body[j - 1]);
            assert(body[j - 1].subrange(0, indent as int + 2) == indent_text(indent + 2));
            assert(body[j - 1].subrange(0, indent as int) =~= indent_text(indent + 2).subrange(
                0,
                indent as int,
            ));
            assert(indent_text(indent + 2).subrange(0, indent as int) =~= indent_text(indent));
        } else {
            match n.node_type {
                NodeType::Element(e) => {
                    assert(lines[j] == indent_text(indent) + closing_text(e));
                    assert(lines[j].subrange(0, indent as int) =~= indent_text(indent));
                },
                _ => {
                    assert(false);
                },
            }
        }
    }
}

/// Every line the printer emits for a forest of siblings begins with at
/// least `indent` leading spaces.
pub proof fn lemma_forest_lines_indented(ns: Seq<Node>, indent: nat)
    ensures
        forall|j: int|
            0 <= j < forest_lines(ns, indent).len() ==> forest_lines(ns, indent)[j].len() >= indent
                && forest_lines(ns, indent)[j].subrange(0, indent as int) == indent_text(indent),
    decreases ns,
{
    if ns.len() > 0 {
        lemma_forest_lines_indented(ns.drop_last(), indent);
        lemma_lines_indented(ns.last(), indent);
        let rest = forest_lines(ns.drop_last(), indent);
        let last = node_lines(ns.last(), indent);
        assert forall|j: int| 0 <= j < forest_lines(ns, indent).len() implies forest_lines(
            ns,
            indent,
        )[j].len() >= indent && forest_lines(ns, indent)[j].subrange(0, indent as int)
            == indent_text(indent) by {
            if j < rest.len() {
                assert(forest_lines(ns, indent)[j] == rest[j]);
            } else {
                assert(forest_lines(ns, indent)[j] == last[j - rest.len()]);
            }
        }
    }
}

/// The number of element nodes of a tree.
pub open spec fn element_count(n: Node) -> nat
    decreases n,
{
    (match n.node_type {
        NodeType::Element(_) => 1nat,
        _ => 0nat,
    }) + forest_element_count(n.children@)
}

/// The number of element nodes of a sequence of sibling trees.
pub open spec fn forest_element_count(ns: Seq<Node>) -> nat
    decreases ns,
{
    if ns.len() == 0 {
        0
    } else {
        forest_element_count(ns.drop_last()) + element_count(ns.last())
    }
}

/// The number of text and comment nodes of a tree.
pub open spec fn text_comment_count(n: Node) -> nat
    decreases n,
{
    (match n.node_type {
        NodeType::Element(_) => 0nat,
        _ => 1nat,
    }) + forest_text_comment_count(n.children@)
}

/// The number of text and comment nodes of a sequence of sibling trees.
pub open spec fn forest_text_comment_count(ns: Seq<Node>) -> nat
    decreases ns,
{
    if ns.len() == 0 {
        0
    } else {
        forest_text_comment_count(ns.drop_last()) + text_comment_count(ns.last())
    }
}

/// The printer emits exactly two lines per element node and one line per
/// text or comment node, whatever the indentation and the tree's shape.
pub proof fn lemma_line_count(n: Node, indent: nat)
    ensures
        node_lines(n, indent).len() == 2 * element_count(n) + text_comment_count(n),
    decreases n,
{
    lemma_forest_line_count(n.children@, indent + 2);
}

/// The line count of a forest is the sum of its trees' line counts.
pub proof fn lemma_forest_line_count(ns: Seq<Node>, indent: nat)
    ensures
        forest_lines(ns, indent).len() == 2 * forest_element_count(ns) + forest_text_comment_count(
            ns,
        ),
    decreases ns,
{
    if ns.len() > 0 {
        lemma_forest_line_count(ns.drop_last(), indent);
        lemma_line_count(ns.last(), indent);
    }
}

/// Builds the indentation prefix of `n` spaces.
fn indent_string(n: usize) -> (r: String)
    ensures
        r@ == indent_text(n as nat),
{
    let mut r = String::new();
    let mut i: usize = 0;
    while i < n
        invariant
            i <= n,
            r@ == indent_text(i as nat),
        decreases n - i,
    {
        proof {
            reveal_strlit(" ");
            assert(r@ + " "@ =~= indent_text((i + 1) as nat));
        }
        r.append(" ");
        i = i + 1;
    }
    r
}

} // verus!
