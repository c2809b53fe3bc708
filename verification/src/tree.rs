//! The node tree data model: nodes, node payloads, and element metadata.

use vstd::prelude::*;

verus! {

use vstd::string::StrSliceExecFns;
use vstd::string::StringExecFns;

/// The attribute mapping of an element: attribute names paired with their
/// values, in insertion order. Keys are meant to be unique; lookups take the
/// first binding of a name. An ordered representation makes the debug
/// rendering deterministic (insertion order), where a hash-based mapping
/// would leave the attribute order unspecified.
pub type AttrMap = Vec<(String, String)>;

/// A vertex of the document tree: a payload and the ordered children this
/// node owns.
pub struct Node {
    pub children: Vec<Node>,
    pub node_type: NodeType,
}

/// The closed set of payloads a node may carry.
pub enum NodeType {
    Text(String),
    Element(ElementData),
    Comment(String),
}

/// Element-specific metadata: the tag name and the attribute mapping.
pub struct ElementData {
    pub tag_name: String,
    pub attributes: AttrMap,
}


/// The value bound to `key` in an attribute list: the value of the first
/// pair whose name equals `key`, or `None` when no pair matches.
pub open spec fn attr_value(attrs: Seq<(String, String)>, key: Seq<char>) -> Option<Seq<char>>
    decreases attrs.len(),
{
    if attrs.len() == 0 {
        None
    } else if attrs[0].0@ == key {
        Some(attrs[0].1@)
    } else {
        attr_value(attrs.drop_first(), key)
    }
}

/// An attribute lookup succeeds exactly when some pair bears the key, and
/// then returns the value of the first such pair.
pub proof fn lemma_attr_value_found(attrs: Seq<(String, String)>, key: Seq<char>)
    ensures
        (attr_value(attrs, key) is Some) <==> (exists|i: int|
            0 <= i < attrs.len() && attrs[i].0@ == key),
        attr_value(attrs, key) matches Some(v) ==> exists|i: int|
            0 <= i < attrs.len() && attrs[i].0@ == key && attrs[i].1@ == v && (forall|j: int|
                0 <= j < i ==> attrs[j].0@ != key),
    decreases attrs.len(),
{
    if attrs.len() == 0 {
    } else if attrs[0].0@ == key {
        let i = 0int;
        assert(0 <= i < attrs.len() && attrs[i].0@ == key && attrs[i].1@ == attrs[0].1@ && (
        forall|j: int| 0 <= j < i ==> attrs[j].0@ != key));
    } else {
        let rest = attrs.drop_first();
        lemma_attr_value_found(rest, key);
        if attr_value(attrs, key) is Some {
            let i = choose|i: int| 0 <= i < rest.len() && rest[i].0@ == key;
            assert(attrs[i + 1] == rest[i]);
            let v = attr_value(rest, key)->0;
            let w = choose|i: int|
                0 <= i < rest.len() && rest[i].0@ == key && rest[i].1@ == v && (forall|j: int|
                    0 <= j < i ==> rest[j].0@ != key);
            assert(attrs[w + 1] == rest[w]);
            assert(forall|j: int| 0 <= j < w + 1 ==> attrs[j].0@ != key) by {
                assert(forall|j: int| 1 <= j < w + 1 ==> attrs[j] == rest[j - 1]);
            }
        }
        if exists|i: int| 0 <= i < attrs.len() && attrs[i].0@ == key {
            let i = choose|i: int| 0 <= i < attrs.len() && attrs[i].0@ == key;
            assert(i != 0);
            assert(rest[i - 1] == attrs[i]);
            assert(attr_value(rest, key) is Some);
        }
    }
}

/// The text of one attribute pair in the debug rendering: `name="value"`.
pub open spec fn attr_text(p: (String, String)) -> Seq<char> {
    p.0@ + "=\""@ + p.1@ + "\""@
}

/// The text of a whole attribute list in the debug rendering: the pairs'
/// texts concatenated in insertion order, with no separator between them.
pub open spec fn attrs_text(attrs: Seq<(String, String)>) -> Seq<char>
    decreases attrs.len(),
{
    if attrs.len() == 0 {
        Seq::empty()
    } else {
        attrs_text(attrs.drop_last()) + attr_text(attrs.last())
    }
}

/// The debug rendering of element metadata: `<tag,name="value"...>`.
pub open spec fn element_text(e: ElementData) -> Seq<char> {
    "<"@ + e.tag_name@ + ","@ + attrs_text(e.attributes@) + ">"@
}

/// The debug rendering of a node payload: the raw string for text and
/// comments, the element rendering for elements.
pub open spec fn node_text(nt: NodeType) -> Seq<char> {
    match nt {
        NodeType::Text(t) => t@,
        NodeType::Comment(c) => c@,
        NodeType::Element(e) => element_text(e),
    }
}

/// The pieces of `s` split on the ASCII space character. Splitting keeps
/// empty pieces: consecutive, leading or trailing spaces each contribute an
/// empty string. Every string has at least one piece; the empty string has
/// exactly one, itself empty.
pub open spec fn split_on_space(s: Seq<char>) -> Seq<Seq<char>>
    decreases s.len(),
{
    if s.len() == 0 {
        seq![Seq::<char>::empty()]
    } else {
        let rest = split_on_space(s.drop_last());
        if s.last() == ' ' {
            rest.push(Seq::empty())
        } else {
            rest.update(rest.len() - 1, rest.last().push(s.last()))
        }
    }
}

/// Splitting yields at least one piece, whatever the string.
pub proof fn lemma_split_on_space_len(s: Seq<char>)
    ensures
        split_on_space(s).len() >= 1,
    decreases s.len(),
{
    if s.len() > 0 {
        lemma_split_on_space_len(s.drop_last());
    }
}

/// The set of class names of an element: the `class` attribute's value split
/// on spaces, duplicates collapsed; empty when the attribute is absent or its
/// value is the empty string.
pub open spec fn class_set(e: ElementData) -> Set<Seq<char>> {
    match attr_value(e.attributes@, "class"@) {
        None => Set::empty(),
        Some(v) => if v.len() == 0 {
            Set::empty()
        } else {
            split_on_space(v).to_set()
        },
    }
}

/// The views of the strings of a list.
pub open spec fn string_views(v: Seq<String>) -> Seq<Seq<char>> {
    v.map_values(|s: String| s@)
}

/// True when no two strings of the list read the same.
pub open spec fn all_distinct(v: Seq<String>) -> bool {
    forall|i: int, j: int| 0 <= i < j < v.len() ==> v[i]@ != v[j]@
}

/// Appending an element to a sequence inserts it into the sequence's set.
proof fn lemma_to_set_push(s: Seq<Seq<char>>, x: Seq<char>)
    ensures
        s.push(x).to_set() == s.to_set().insert(x),
{
    assert forall|a: Seq<char>| s.push(x).to_set().contains(a) implies s.to_set().insert(
        x,
    ).contains(a) by {
        let i = choose|i: int| 0 <= i < s.push(x).len() && s.push(x)[i] == a;
        if i < s.len() {
            assert(s[i] == a);
        }
    }
    assert forall|a: Seq<char>| s.to_set().insert(x).contains(a) implies s.push(x).to_set().contains(
        a,
    ) by {
        if a == x {
            assert(s.push(x)[s.len() as int] == a);
        } else {
            let i = choose|i: int| 0 <= i < s.len() && s[i] == a;
            assert(s.push(x)[i] == a);
        }
    }
    assert(s.push(x).to_set() =~= s.to_set().insert(x));
}

/// Appends `piece` to the list unless a string reading the same is already
/// there, so that the list keeps set semantics.
fn push_unique(pieces: &mut Vec<String>, piece: &str)
    ensures
        string_views(final(pieces)@).to_set() == string_views(old(pieces)@).to_set().insert(
            piece@,
        ),
        all_distinct(old(pieces)@) ==> all_distinct(final(pieces)@),
{
    let piece_owned: String = piece.to_owned();
    let mut i: usize = 0;
    while i < pieces.len()
        invariant
            i <= pieces@.len(),
            *pieces == *old(pieces),
            piece_owned@ == piece@,
            forall|k: int| 0 <= k < i ==> pieces@[k]@ != piece@,
        decreases pieces@.len() - i,
    {
        if pieces[i] == piece_owned {
            proof {
                assert(string_views(pieces@)[i as int] == piece@);
                assert(string_views(pieces@).to_set().contains(piece@));
                assert(string_views(pieces@).to_set() =~= string_views(
                    pieces@,
                ).to_set().insert(piece@));
            }
            return;
        }
        i = i + 1;
    }
    pieces.push(piece_owned);
    proof {
        assert(string_views(pieces@) =~= string_views(old(pieces)@).push(piece@));
        lemma_to_set_push(string_views(old(pieces)@), piece@);
    }
}

/// The view of an optional borrowed string.
pub open spec fn str_opt_view(o: Option<&str>) -> Option<Seq<char>> {
    match o {
        Some(s) => Some(s@),
        None => None,
    }
}

/// Scans an attribute list for the first pair whose name equals `key` and
/// returns a borrow of its value.
fn lookup<'a>(attrs: &'a AttrMap, key: &str) -> (r: Option<&'a str>)
    ensures
        str_opt_view(r) == attr_value(attrs@, key@),
{
    let key_owned: String = key.to_owned();
    proof {
        assert(attrs@.skip(0) =~= attrs@);
    }
    let mut i: usize = 0;
    while i < attrs.len()
        invariant
            i <= attrs@.len(),
            key_owned@ == key@,
            attr_value(attrs@, key@) == attr_value(attrs@.skip(i as int), key@),
        decreases attrs@.len() - i,
    {
        let p = &attrs[i];
        proof {
            assert(attrs@.skip(i as int)[0] == attrs@[i as int]);
            assert(attrs@.skip(i as int).drop_first() =~= attrs@.skip(i as int + 1));
        }
        if p.0 == key_owned {
            return Some(p.1.as_str());
        }
        i = i + 1;
    }
    proof {
        assert(attrs@.skip(i as int) =~= Seq::<(String, String)>::empty());
    }
    None
}

impl Node {
    /// Builds a node from a payload and an already-constructed child list.
    /// Any combination is accepted; construction cannot fail.
    pub fn new(node_type: NodeType, children: Vec<Node>) -> (n: Node)
        ensures
            n.node_type == node_type,
            n.children == children,
    {
        Node { node_type, children }
    }

    /// The single-line debug rendering of this node alone; children are not
    /// visited. A text or comment node renders as its raw string, an element
    /// node as its metadata's rendering.
    pub fn render(&self) -> (r: String)
        ensures
            r@ == node_text(self.node_type),
    {
        self.node_type.render()
    }
}

impl ElementData {
    /// Builds element metadata from a tag name and an attribute mapping.
    /// Neither is validated; construction cannot fail.
    pub fn new(tag_name: String, attributes: AttrMap) -> (e: ElementData)
        ensures
            e.tag_name == tag_name,
            e.attributes == attributes,
    {
        ElementData { tag_name, attributes }
    }

    /// The value of the `id` attribute, or `None` when the element has no
    /// `id` attribute. The returned borrow lives as long as the metadata.
    pub fn get_id(&self) -> (r: Option<&str>)
        ensures
            str_opt_view(r) == attr_value(self.attributes@, "id"@),
    {
        lookup(&self.attributes, "id")
    }

    /// The class names of the element: the value of its `class` attribute
    /// split on single spaces, one string per distinct piece, in no promised
    /// order. Consecutive, leading or trailing spaces yield empty pieces,
    /// which are kept. Without a `class` attribute, or with an empty one, the
    /// list is empty.
    pub fn get_classes(&self) -> (r: Vec<String>)
        ensures
            all_distinct(r@),
            string_views(r@).to_set() == class_set(*self),
    {
        let mut r: Vec<String> = Vec::new();
        proof {
            assert(string_views(r@).to_set() =~= Set::<Seq<char>>::empty());
        }
        let v = match lookup(&self.attributes, "class") {
            None => {
                return r;
            },
            Some(v) => v,
        };
        let n = v.unicode_len();
        if n == 0 {
            return r;
        }
        proof {
            assert(v@.subrange(0, 0) =~= Seq::<char>::empty());
            assert(split_on_space(Seq::<char>::empty()) == seq![Seq::<char>::empty()]);
            assert(split_on_space(v@.subrange(0, 0)).drop_last() =~= Seq::<Seq<char>>::empty());
        }
        let mut start: usize = 0;
        let mut i: usize = 0;
        while i < n
            invariant
                start <= i <= n,
                n == v@.len(),
                split_on_space(v@.subrange(0, i as int)).len() >= 1,
                split_on_space(v@.subrange(0, i as int)).last() == v@.subrange(
                    start as int,
                    i as int,
                ),
                string_views(r@).to_set() == split_on_space(
                    v@.subrange(0, i as int),
                ).drop_last().to_set(),
                all_distinct(r@),
            decreases n - i,
        {
            let ghost pre = v@.subrange(0, i as int);
            let ghost pre1 = v@.subrange(0, i as int + 1);
            proof {
                assert(pre1.drop_last() =~= pre);
                assert(pre1.last() == v@[i as int]);
                lemma_split_on_space_len(pre);
            }
            let ghost sp = split_on_space(pre);
            let ghost sp1 = split_on_space(pre1);
            let c = v.get_char(i);
            if c == ' ' {
                let piece = v.substring_char(start, i);
                push_unique(&mut r, piece);
                proof {
                    assert(sp1 == sp.push(Seq::<char>::empty()));
                    assert(sp1.drop_last() =~= sp);
                    assert(sp.drop_last().push(sp.last()) =~= sp);
                    lemma_to_set_push(sp.drop_last(), sp.last());
                    assert(string_views(r@).to_set() == sp1.drop_last().to_set());
                    assert(sp1.last() =~= v@.subrange(i as int + 1, i as int + 1));
                }
                start = i + 1;
            } else {
                proof {
                    assert(sp1 == sp.update(sp.len() - 1, sp.last().push(v@[i as int])));
                    assert(sp1.drop_last() =~= sp.drop_last());
                    assert(sp1.last() == sp.last().push(v@[i as int]));
                    assert(v@.subrange(start as int, i as int).push(v@[i as int]) =~= v@.subrange(
                        start as int,
                        i as int + 1,
                    ));
                }
            }
            i = i + 1;
        }
        proof {
            assert(v@.subrange(0, n as int) =~= v@);
            lemma_split_on_space_len(v@);
        }
        let piece = v.substring_char(start, n);
        push_unique(&mut r, piece);
        proof {
            let sp = split_on_space(v@);
            assert(sp.drop_last().push(sp.last()) =~= sp);
            lemma_to_set_push(sp.drop_last(), sp.last());
            assert(string_views(r@).to_set() == sp.to_set());
        }
        r
    }

    /// The single-line debug rendering `<tag,name="value"...>`, with the
    /// attributes in insertion order.
    pub fn render(&self) -> (r: String)
        ensures
            r@ == element_text(*self),
    {
        let mut r: String = "<".to_owned();
        r.append(self.tag_name.as_str());
        r.append(",");
        let mut i: usize = 0;
        while i < self.attributes.len()
            invariant
                i <= self.attributes@.len(),
                r@ == "<"@ + self.tag_name@ + ","@ + attrs_text(
                    self.attributes@.subrange(0, i as int),
                ),
            decreases self.attributes@.len() - i,
        {
            let p = &self.attributes[i];
            proof {
                let pre = self.attributes@.subrange(0, i as int + 1);
                assert(pre.drop_last() =~= self.attributes@.subrange(0, i as int));
                assert(pre.last() == self.attributes@[i as int]);
            }
            r.append(p.0.as_str());
            r.append("=\"");
            r.append(p.1.as_str());
            r.append("\"");
            i = i + 1;
        }
        proof {
            assert(self.attributes@.subrange(0, self.attributes@.len() as int)
                =~= self.attributes@);
        }
        r.append(">");
        r
    }
}

impl NodeType {
    /// The single-line debug rendering of this payload: the raw string for
    /// text and comments, the element rendering for elements.
    pub fn render(&self) -> (r: String)
        ensures
            r@ == node_text(*self),
    {
        match self {
            NodeType::Text(t) => t.clone(),
            NodeType::Comment(c) => c.clone(),
            NodeType::Element(e) => e.render(),
        }
    }
}

} // verus!
