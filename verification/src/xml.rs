//! Reading of XML documents.
//!
//! A document is parsed by `roxmltree`. Its nodes are numbered; a node is
//! known by its number, and everything here that takes a node takes the
//! document with it. The number has to be that of a node of the document:
//! `roxmltree::Document::get_node` has no node for any other number.

use vstd::prelude::*;

verus! {

/// A parsed document. Nothing of its inside is known here; what it holds is
/// told by the functions below.
#[verifier::external_type_specification]
#[verifier::external_body]
pub struct ExDocument<'input>(roxmltree::Document<'input>);

/// The number of nodes of a document. The nodes are numbered from zero.
pub uninterp spec fn node_count(document: &roxmltree::Document<'_>) -> nat;

/// The number of the root element of a document.
pub uninterp spec fn root_element(document: &roxmltree::Document<'_>) -> nat;

/// The numbers of the children of a node, in the order of the document.
pub uninterp spec fn children(document: &roxmltree::Document<'_>, node: nat) -> Seq<nat>;

/// Whether a node is an element.
pub uninterp spec fn is_element(document: &roxmltree::Document<'_>, node: nat) -> bool;

/// The tag of a node: its namespace, where it has one, and its local name.
/// A node that is no element has an empty name and no namespace.
pub uninterp spec fn tag(document: &roxmltree::Document<'_>, node: nat) -> (
    Option<Seq<char>>,
    Seq<char>,
);

/// The text of a node: for an element, its first child where that is a text.
pub uninterp spec fn node_text(document: &roxmltree::Document<'_>, node: nat) -> Option<
    Seq<char>,
>;

/// The text that a document was parsed from: what
/// `roxmltree::Document::input_text` gives.
pub uninterp spec fn source(document: &roxmltree::Document<'_>) -> Seq<char>;

/// Why `roxmltree::Document::parse` takes a text for no document, in the
/// words that `roxmltree` has for it; nothing where it takes the text for
/// one.
pub uninterp spec fn parse_failure(text: Seq<char>) -> Option<Seq<char>>;

/// Calls `roxmltree::Document::parse`. Whether the text is taken for a
/// document, and with which words it is refused, depends on the text alone;
/// which texts are documents is not claimed. A document keeps the text that
/// it was parsed from.
#[verifier::external_body]
pub(crate) fn parse(text: &str) -> (parsed: Result<roxmltree::Document<'_>, String>)
    ensures
        match parsed {
            Ok(document) => parse_failure(text@) is None && source(&document) == text@,
            Err(words) => parse_failure(text@) == Some(words@),
        },
{
    roxmltree::Document::parse(text).map_err(|error| error.to_string())
}

/// Calls `roxmltree::Document::root_element`, which gives the first element
/// of the document; a parsed document always has one.
#[verifier::external_body]
pub(crate) fn root_element_of(document: &roxmltree::Document<'_>) -> (node: usize)
    ensures
        node == root_element(document),
        node < node_count(document),
{
    document.root_element().id().get_usize()
}

/// Calls `roxmltree::Node::children` on the node of the given number and
/// gives the numbers of the nodes that it yields, in its order. They are
/// nodes of the same document.
#[verifier::external_body]
pub(crate) fn children_of(document: &roxmltree::Document<'_>, node: usize) -> (found: Vec<usize>)
    requires
        node < node_count(document),
    ensures
        found@.map_values(|child: usize| child as nat) == children(document, node as nat),
        forall|i: int| 0 <= i < found.len() ==> (#[trigger] found@[i]) < node_count(document),
{
    let node = document.get_node(roxmltree::NodeId::from(node)).unwrap();
    node.children().map(|child| child.id().get_usize()).collect()
}

/// Calls `roxmltree::Node::is_element` on the node of the given number.
#[verifier::external_body]
pub(crate) fn is_element_at(document: &roxmltree::Document<'_>, node: usize) -> (element: bool)
    requires
        node < node_count(document),
    ensures
        element == is_element(document, node as nat),
{
    document.get_node(roxmltree::NodeId::from(node)).unwrap().is_element()
}

/// Calls `roxmltree::Node::tag_name` on the node of the given number and
/// gives the namespace and the local name of the result.
#[verifier::external_body]
pub(crate) fn tag_of(document: &roxmltree::Document<'_>, node: usize) -> (found: (
    Option<String>,
    String,
))
    requires
        node < node_count(document),
    ensures
        found.1@ == tag(document, node as nat).1,
        match found.0 {
            Some(namespace) => tag(document, node as nat).0 == Some(namespace@),
            None => tag(document, node as nat).0 is None,
        },
{
    let name = document.get_node(roxmltree::NodeId::from(node)).unwrap().tag_name();
    (name.namespace().map(str::to_owned), name.name().to_owned())
}

/// Calls `roxmltree::Node::text` on the node of the given number.
#[verifier::external_body]
pub(crate) fn text_of(document: &roxmltree::Document<'_>, node: usize) -> (found: Option<String>)
    requires
        node < node_count(document),
    ensures
        match found {
            Some(found) => node_text(document, node as nat) == Some(found@),
            None => node_text(document, node as nat) is None,
        },
{
    document.get_node(roxmltree::NodeId::from(node)).unwrap().text().map(str::to_owned)
}

} // verus!
