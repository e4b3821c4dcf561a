//! The document tree that the package model and the flattener read.

use vstd::prelude::*;

verus! {

/// What a node of a document is.
#[derive(Debug, Clone, Copy, PartialEq, Eq, Structural)]
pub enum NodeKind {
    Root,
    Element,
    Instruction,
    Comment,
    Text,
}

/// One attribute of an element.
#[derive(Debug)]
pub struct Attribute {
    /// The namespace that the attribute's prefix stands for.
    pub namespace: Option<String>,
    /// The name without its prefix.
    pub name: String,
    pub value: String,
}

/// A node of a document with the nodes below it.
#[derive(Debug)]
pub struct XmlNode {
    /// The place of the node among all nodes of its document, in document
    /// order.
    pub id: usize,
    pub kind: NodeKind,
    /// The tag name of an element, without its prefix; empty otherwise.
    pub name: String,
    pub attributes: Vec<Attribute>,
    /// The text of the node: its own for a text node or a comment, that
    /// of its first child for an element whose first child is a text
    /// node, none otherwise.
    pub text: Option<String>,
    pub children: Vec<XmlNode>,
}

/// An attribute as plain values.
pub struct AttributeView {
    pub namespace: Option<Seq<char>>,
    pub name: Seq<char>,
    pub value: Seq<char>,
}

/// A node with the nodes below it, as plain values.
pub struct XmlTree {
    pub id: usize,
    pub kind: NodeKind,
    pub name: Seq<char>,
    pub attributes: Seq<AttributeView>,
    pub text: Option<Seq<char>>,
    pub children: Seq<XmlTree>,
}

/// The characters of a string that may be missing.
pub open spec fn opt_view(s: Option<String>) -> Option<Seq<char>> {
    match s {
        Some(t) => Some(t@),
        None => None,
    }
}

impl View for Attribute {
    type V = AttributeView;

    open spec fn view(&self) -> AttributeView {
        AttributeView { namespace: opt_view(self.namespace), name: self.name@, value: self.value@ }
    }
}

/// The node with the nodes below it, as plain values.
pub open spec fn tree_of(node: XmlNode) -> XmlTree
    decreases node,
{
    XmlTree {
        id: node.id,
        kind: node.kind,
        name: node.name@,
        attributes: Seq::new(node.attributes@.len(), |i: int| node.attributes@[i]@),
        text: opt_view(node.text),
        children: Seq::new(
            node.children@.len(),
            |i: int|
                if 0 <= i < node.children@.len() {
                    tree_of(node.children@[i])
                } else {
                    arbitrary()
                },
        ),
    }
}

impl View for XmlNode {
    type V = XmlTree;

    open spec fn view(&self) -> XmlTree {
        tree_of(*self)
    }
}

impl Attribute {
    /// An attribute without a namespace.
    pub fn new(name: &str, value: &str) -> (r: Attribute)
        ensures
            r@ == (AttributeView { namespace: None, name: name@, value: value@ }),
    {
        Attribute { namespace: None, name: name.to_owned(), value: value.to_owned() }
    }
}

impl AttributeView {
    /// The attribute is named `name` in the namespace `ns`.
    pub open spec fn in_namespace(self, ns: Seq<char>, name: Seq<char>) -> bool {
        self.name == name && self.namespace == Some(ns)
    }
}

/// `==` on `str`: two strings are equal exactly where they hold the same
/// characters.
#[verifier::external_body]
pub(crate) fn str_eq(a: &str, b: &str) -> (r: bool)
    ensures
        r == (a@ == b@),
{
    a == b
}

/// Index of the first attribute among `attrs` that is named `name`, in
/// whatever namespace.
pub open spec fn attribute_index(attrs: Seq<AttributeView>, name: Seq<char>) -> Option<int>
    decreases attrs.len(),
{
    if attrs.len() == 0 {
        None
    } else if attrs[0].name == name {
        Some(0)
    } else {
        match attribute_index(attrs.drop_first(), name) {
            Some(i) => Some(i + 1),
            None => None,
        }
    }
}

/// Index of the first attribute among `attrs` that is named `name` in the
/// namespace `ns`.
pub open spec fn attribute_index_ns(attrs: Seq<AttributeView>, ns: Seq<char>, name: Seq<char>) -> Option<int>
    decreases attrs.len(),
{
    if attrs.len() == 0 {
        None
    } else if attrs[0].in_namespace(ns, name) {
        Some(0)
    } else {
        match attribute_index_ns(attrs.drop_first(), ns, name) {
            Some(i) => Some(i + 1),
            None => None,
        }
    }
}

/// Index of the `n`-th element among `nodes`, counted from 0.
pub open spec fn element_index(nodes: Seq<XmlTree>, n: int) -> Option<int>
    decreases nodes.len(),
{
    if nodes.len() == 0 || n < 0 {
        None
    } else if nodes[0].kind == NodeKind::Element && n == 0 {
        Some(0)
    } else {
        let rest = if nodes[0].kind == NodeKind::Element {
            n - 1
        } else {
            n
        };
        match element_index(nodes.drop_first(), rest) {
            Some(i) => Some(i + 1),
            None => None,
        }
    }
}

/// The index of an element child is an index of an element.
pub proof fn lemma_element_index(nodes: Seq<XmlTree>, n: int)
    ensures
        element_index(nodes, n) matches Some(i) ==> 0 <= i < nodes.len() && nodes[i].kind == NodeKind::Element,
    decreases nodes.len(),
{
    if nodes.len() > 0 && n >= 0 {
        let rest = if nodes[0].kind == NodeKind::Element {
            n - 1
        } else {
            n
        };
        lemma_element_index(nodes.drop_first(), rest);
    }
}

impl XmlTree {
    /// The value of the first attribute named `name`, whatever its
    /// namespace.
    pub open spec fn attr(self, name: Seq<char>) -> Option<Seq<char>> {
        match attribute_index(self.attributes, name) {
            Some(i) => Some(self.attributes[i].value),
            None => None,
        }
    }

    /// The value of the first attribute named `name` in the namespace
    /// `ns`.
    pub open spec fn attr_ns(self, ns: Seq<char>, name: Seq<char>) -> Option<Seq<char>> {
        match attribute_index_ns(self.attributes, ns, name) {
            Some(i) => Some(self.attributes[i].value),
            None => None,
        }
    }

    /// The `n`-th element among the children, counted from 0.
    pub open spec fn element_child(self, n: int) -> Option<XmlTree> {
        match element_index(self.children, n) {
            Some(i) => Some(self.children[i]),
            None => None,
        }
    }
}

/// What the view of a node holds, field by field.
pub proof fn lemma_view(node: XmlNode)
    ensures
        node@.id == node.id,
        node@.kind == node.kind,
        node@.name == node.name@,
        node@.text == opt_view(node.text),
        node@.attributes.len() == node.attributes@.len(),
        forall|i: int| 0 <= i < node.attributes@.len() ==> #[trigger] node@.attributes[i] == node.attributes@[i]@,
        node@.children.len() == node.children@.len(),
        forall|i: int| 0 <= i < node.children@.len() ==> #[trigger] node@.children[i] == node.children@[i]@,
{
    reveal_with_fuel(tree_of, 2);
}

impl XmlNode {
    /// Whether the node is an element.
    pub fn is_element(&self) -> (r: bool)
        ensures
            r == (self@.kind == NodeKind::Element),
    {
        self.kind == NodeKind::Element
    }

    /// Whether the node is a text node.
    pub fn is_text(&self) -> (r: bool)
        ensures
            r == (self@.kind == NodeKind::Text),
    {
        self.kind == NodeKind::Text
    }

    /// Whether the node is an element with the tag name `name`.
    pub fn has_tag_name(&self, name: &str) -> (r: bool)
        ensures
            r == (self@.kind == NodeKind::Element && self@.name == name@),
    {
        self.kind == NodeKind::Element && str_eq(self.name.as_str(), name)
    }

    /// The tag name of the node.
    pub fn name(&self) -> (r: &str)
        ensures
            r@ == self@.name,
    {
        self.name.as_str()
    }

    /// How many nodes stand directly below.
    pub fn child_count(&self) -> (r: usize)
        ensures
            r == self@.children.len(),
    {
        self.children.len()
    }

    /// The `i`-th node directly below.
    pub fn child(&self, i: usize) -> (r: &XmlNode)
        requires
            i < self@.children.len(),
        ensures
            r@ == self@.children[i as int],
            *r == self.children@[i as int],
    {
        &self.children[i]
    }

    /// The value of the first attribute named `name`.
    pub fn attribute(&self, name: &str) -> (r: Option<&str>)
        ensures
            (match self@.attr(name@) {
                Some(v) => r matches Some(found) && found@ == v,
                None => r is None,
            }),
    {
        let ghost attrs = self@.attributes;
        let mut i: usize = 0;
        proof {
            assert(attrs.skip(0) == attrs);
        }
        while i < self.attributes.len()
            invariant
                i <= self.attributes.len(),
                attrs == self@.attributes,
                attribute_index(attrs, name@) == (match attribute_index(attrs.skip(i as int), name@) {
                    Some(k) => Some(k + i),
                    None => None,
                }),
            decreases self.attributes.len() - i,
        {
            proof {
                assert(attrs.skip(i as int).drop_first() == attrs.skip(i + 1));
                assert(attrs[i as int] == self.attributes@[i as int]@);
            }
            if str_eq(self.attributes[i].name.as_str(), name) {
                return Some(self.attributes[i].value.as_str());
            }
            i += 1;
        }
        None
    }

    /// The value of the first attribute named `name` in the namespace
    /// `ns`.
    pub fn attribute_ns(&self, ns: &str, name: &str) -> (r: Option<&str>)
        ensures
            (match self@.attr_ns(ns@, name@) {
                Some(v) => r matches Some(found) && found@ == v,
                None => r is None,
            }),
    {
        let ghost attrs = self@.attributes;
        let mut i: usize = 0;
        proof {
            assert(attrs.skip(0) == attrs);
        }
        while i < self.attributes.len()
            invariant
                i <= self.attributes.len(),
                attrs == self@.attributes,
                attribute_index_ns(attrs, ns@, name@) == (match attribute_index_ns(
                    attrs.skip(i as int),
                    ns@,
                    name@,
                ) {
                    Some(k) => Some(k + i),
                    None => None,
                }),
            decreases self.attributes.len() - i,
        {
            proof {
                assert(attrs.skip(i as int).drop_first() == attrs.skip(i + 1));
                assert(attrs[i as int] == self.attributes@[i as int]@);
            }
            let attr = &self.attributes[i];
            if str_eq(attr.name.as_str(), name) {
                match &attr.namespace {
                    Some(n) => {
                        if str_eq(n.as_str(), ns) {
                            return Some(attr.value.as_str());
                        }
                    },
                    None => {},
                }
            }
            i += 1;
        }
        None
    }

    /// The text of the node, where it has one.
    pub fn text(&self) -> (r: Option<&str>)
        ensures
            (match self@.text {
                Some(v) => r matches Some(found) && found@ == v,
                None => r is None,
            }),
    {
        match &self.text {
            Some(t) => Some(t.as_str()),
            None => None,
        }
    }

    /// A text node.
    pub fn new_text(id: usize, text: &str) -> (r: XmlNode)
        ensures
            r@ == (XmlTree {
                id,
                kind: NodeKind::Text,
                name: Seq::empty(),
                attributes: Seq::empty(),
                text: Some(text@),
                children: Seq::empty(),
            }),
    {
        let r = XmlNode {
            id,
            kind: NodeKind::Text,
            name: String::new(),
            attributes: Vec::new(),
            text: Some(text.to_owned()),
            children: Vec::new(),
        };
        proof {
            assert(r@.attributes =~= Seq::<AttributeView>::empty());
            assert(r@.children =~= Seq::<XmlTree>::empty());
        }
        r
    }

    /// An element. Its text is that of its first child where that is a
    /// text node.
    pub fn new_element(id: usize, name: &str, attributes: Vec<Attribute>, children: Vec<XmlNode>) -> (r: XmlNode)
        ensures
            r@.id == id,
            r@.kind == NodeKind::Element,
            r@.name == name@,
            r@.attributes == Seq::new(attributes@.len(), |i: int| attributes@[i]@),
            r@.children == Seq::new(children@.len(), |i: int| children@[i]@),
            r@.text == (if children@.len() > 0 && children@[0]@.kind == NodeKind::Text {
                children@[0]@.text
            } else {
                None
            }),
    {
        let text = if children.len() > 0 && children[0].is_text() {
            match children[0].text() {
                Some(t) => Some(t.to_owned()),
                None => None,
            }
        } else {
            None
        };
        let r = XmlNode { id, kind: NodeKind::Element, name: name.to_owned(), attributes, text, children };
        proof {
            assert(r@.attributes =~= Seq::new(attributes@.len(), |i: int| attributes@[i]@));
            assert(r@.children =~= Seq::new(children@.len(), |i: int| children@[i]@));
        }
        r
    }

    /// The `n`-th element among the children, counted from 0.
    pub fn nth_element_child(&self, n: usize) -> (r: Option<&XmlNode>)
        ensures
            (match self@.element_child(n as int) {
                Some(t) => r matches Some(c) && c@ == t,
                None => r is None,
            }),
            r matches Some(c) ==> decreases_to!(self@ => c@),
    {
        let ghost nodes = self@.children;
        let mut i: usize = 0;
        let mut left = n;
        proof {
            assert(nodes.skip(0) == nodes);
        }
        while i < self.children.len()
            invariant
                i <= self.children.len(),
                left <= n,
                nodes == self@.children,
                element_index(nodes, n as int) == (match element_index(nodes.skip(i as int), left as int) {
                    Some(k) => Some(k + i),
                    None => None,
                }),
            decreases self.children.len() - i,
        {
            proof {
                assert(nodes.skip(i as int).drop_first() == nodes.skip(i + 1));
                assert(nodes[i as int] == self.children@[i as int]@);
            }
            if self.children[i].is_element() {
                if left == 0 {
                    return Some(&self.children[i]);
                }
                left -= 1;
            }
            i += 1;
        }
        None
    }
}

} // verus!
