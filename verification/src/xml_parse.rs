//! Reading a document from its text. The parsing is roxmltree's; this
//! module declares what is believed of it and copies its tree into the
//! library's own.

use vstd::prelude::*;
use crate::xml::{opt_view, Attribute, NodeKind, XmlNode, XmlTree};

verus! {

/// `roxmltree::Document`, held as it is; what it holds is named by
/// [`document_tree`].
#[verifier::external_type_specification]
#[verifier::external_body]
pub struct ExDocument<'input>(roxmltree::Document<'input>);

/// `roxmltree::Node`, held as it is; what it stands for is named by
/// [`node_tree`].
#[verifier::external_type_specification]
#[verifier::external_body]
pub struct ExNode<'a, 'input: 'a>(roxmltree::Node<'a, 'input>);

/// `roxmltree::Error`, held as it is; what it holds is named by
/// [`error_view`].
#[verifier::external_type_specification]
#[verifier::external_body]
pub struct ExParseError(roxmltree::Error);

/// Why a text is no document.
#[derive(Debug)]
pub struct XmlError {
    /// The name of the entity that the text refers to without defining
    /// it, where that is the fault.
    pub entity: Option<String>,
    /// The fault in the parser's words.
    pub message: String,
}

/// A parse failure as plain values.
pub struct XmlFailure {
    pub entity: Option<Seq<char>>,
    pub message: Seq<char>,
}

impl View for XmlError {
    type V = XmlFailure;

    open spec fn view(&self) -> XmlFailure {
        XmlFailure { entity: opt_view(self.entity), message: self.message@ }
    }
}

/// What `roxmltree::Document::parse` makes of `text`: the tree below the
/// root node, or the failure.
pub uninterp spec fn parsed_xml(text: Seq<char>) -> Result<XmlTree, XmlFailure>;

/// The tree that a parsed document holds, from its root node down.
pub uninterp spec fn document_tree(doc: roxmltree::Document) -> XmlTree;

/// The node with all nodes below it.
pub uninterp spec fn node_tree(node: roxmltree::Node) -> XmlTree;

/// What a parse error holds.
pub uninterp spec fn error_view(error: roxmltree::Error) -> XmlFailure;

/// `roxmltree::Document::parse`. Parsing is a function of the text: the
/// same text gives the same tree or the same failure.
#[verifier::external_body]
fn parse_document<'input>(text: &'input str) -> (r: Result<roxmltree::Document<'input>, roxmltree::Error>)
    ensures
        r matches Ok(doc) ==> parsed_xml(text@) matches Ok(tree) && tree == document_tree(doc),
        r matches Err(e) ==> parsed_xml(text@) matches Err(failure) && failure == error_view(e),
{
    roxmltree::Document::parse(text)
}

/// `roxmltree::Document::root`: the root node stands for the whole tree.
#[verifier::external_body]
fn document_root<'a, 'input>(doc: &'a roxmltree::Document<'input>) -> (r: roxmltree::Node<'a, 'input>)
    ensures
        node_tree(r) == document_tree(*doc),
{
    doc.root()
}

/// `roxmltree::Node::id`, as a number: the place of the node in document
/// order.
#[verifier::external_body]
fn node_id(node: roxmltree::Node) -> (r: usize)
    ensures
        r == node_tree(node).id,
{
    node.id().get_usize()
}

/// `roxmltree::Node::node_type`.
#[verifier::external_body]
fn node_kind(node: roxmltree::Node) -> (r: NodeKind)
    ensures
        r == node_tree(node).kind,
{
    match node.node_type() {
        roxmltree::NodeType::Root => NodeKind::Root,
        roxmltree::NodeType::Element => NodeKind::Element,
        roxmltree::NodeType::PI => NodeKind::Instruction,
        roxmltree::NodeType::Comment => NodeKind::Comment,
        roxmltree::NodeType::Text => NodeKind::Text,
    }
}

/// `roxmltree::Node::tag_name`, the local name of it.
#[verifier::external_body]
fn node_name(node: roxmltree::Node) -> (r: String)
    ensures
        r@ == node_tree(node).name,
{
    node.tag_name().name().to_owned()
}

/// `roxmltree::Node::attributes`, each attribute with its namespace, its
/// local name and its value, in the order of the document.
#[verifier::external_body]
fn node_attributes(node: roxmltree::Node) -> (r: Vec<Attribute>)
    ensures
        r@.len() == node_tree(node).attributes.len(),
        forall|i: int| 0 <= i < r@.len() ==> (#[trigger] r@[i])@ == node_tree(node).attributes[i],
{
    node.attributes().map(
        |a|
            Attribute {
                namespace: a.namespace().map(str::to_owned),
                name: a.name().to_owned(),
                value: a.value().to_owned(),
            },
    ).collect()
}

/// `roxmltree::Node::text`.
#[verifier::external_body]
fn node_text(node: roxmltree::Node) -> (r: Option<String>)
    ensures
        opt_view(r) == node_tree(node).text,
{
    node.text().map(str::to_owned)
}

/// `roxmltree::Node::children`: the nodes directly below, in the order
/// of the document.
#[verifier::external_body]
fn node_children<'a, 'input>(node: roxmltree::Node<'a, 'input>) -> (r: Vec<roxmltree::Node<'a, 'input>>)
    ensures
        r@.len() == node_tree(node).children.len(),
        forall|i: int| 0 <= i < r@.len() ==> node_tree(#[trigger] r@[i]) == node_tree(node).children[i],
{
    node.children().collect()
}

/// The entity name of `roxmltree::Error::UnknownEntityReference`.
#[verifier::external_body]
fn error_entity(error: &roxmltree::Error) -> (r: Option<String>)
    ensures
        opt_view(r) == error_view(*error).entity,
{
    match error {
        roxmltree::Error::UnknownEntityReference(name, _) => Some(name.clone()),
        _ => None,
    }
}

/// What `roxmltree::Error` displays as.
#[verifier::external_body]
fn error_message(error: &roxmltree::Error) -> (r: String)
    ensures
        r@ == error_view(*error).message,
{
    format!("{}", error)
}

/// Copies `node` and what is below it.
fn convert(node: roxmltree::Node) -> (r: XmlNode)
    ensures
        r@ == node_tree(node),
    decreases node_tree(node),
{
    let kids = node_children(node);
    let mut children: Vec<XmlNode> = Vec::new();
    let mut i: usize = 0;
    while i < kids.len()
        invariant
            i <= kids.len(),
            kids@.len() == node_tree(node).children.len(),
            forall|j: int| 0 <= j < kids@.len() ==> node_tree(#[trigger] kids@[j]) == node_tree(node).children[j],
            children@.len() == i,
            forall|j: int| 0 <= j < i ==> (#[trigger] children@[j])@ == node_tree(node).children[j],
        decreases kids.len() - i,
    {
        let child = convert(kids[i]);
        children.push(child);
        i += 1;
    }
    let r = XmlNode {
        id: node_id(node),
        kind: node_kind(node),
        name: node_name(node),
        attributes: node_attributes(node),
        text: node_text(node),
        children,
    };
    proof {
        assert(r@.children =~= node_tree(node).children);
        assert(r@.attributes =~= node_tree(node).attributes);
    }
    r
}

/// Reads `text` as a document and hands out the tree below its root
/// node, or says why it is none.
pub fn parse_xml(text: &str) -> (r: Result<XmlNode, XmlError>)
    ensures
        (match parsed_xml(text@) {
            Ok(tree) => r matches Ok(node) && node@ == tree,
            Err(failure) => r matches Err(e) && e@ == failure,
        }),
{
    match parse_document(text) {
        Ok(doc) => Ok(convert(document_root(&doc))),
        Err(e) => Err(XmlError { entity: error_entity(&e), message: error_message(&e) }),
    }
}

} // verus!
