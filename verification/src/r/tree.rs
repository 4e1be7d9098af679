//! Parsing Rd source with `rd-source`, and carrying its tree over into
//! [`Node`]s.

use vstd::prelude::*;

use rd_ast::RdNode;

use super::{from_document, rd_topic, Document, Node};
use crate::ir::Topic;

verus! {

#[verifier::external_type_specification]
#[verifier::external_body]
pub struct ExRdAstDocument(rd_ast::RdDocument);

#[verifier::external_type_specification]
#[verifier::external_body]
pub struct ExRdAstNode(rd_ast::RdNode);

#[verifier::external_type_specification]
#[verifier::external_body]
pub struct ExRdParseError(rd_source::ParseError);

/// Why Rd source could not be parsed.
#[derive(Debug)]
pub struct RdError {
    /// The parser's own account of the failure.
    pub message: String,
}

/// Whether `rd_source::parse` accepts `source`.
pub uninterp spec fn rd_parses(source: Seq<char>) -> bool;

/// The top-level nodes `rd_source::parse` reads from `source`, each carried
/// over as a [`Node`].
pub uninterp spec fn rd_tree(source: Seq<char>) -> Seq<Node>;

/// The `Display` text of the error `rd_source::parse` refuses `source` with.
pub uninterp spec fn rd_refusal(source: Seq<char>) -> Seq<char>;

/// The top-level nodes an `rd_ast::RdDocument` holds, each carried over as
/// a [`Node`].
pub uninterp spec fn rd_nodes(document: rd_ast::RdDocument) -> Seq<Node>;

/// `rd_source::parse`, on the UTF-8 bytes of `source`, keeping the
/// document, or the error's `Display` text. The parser refuses input
/// holding a NUL byte before it reads anything else.
#[verifier::external_body]
fn rd_parse(source: &str) -> (r: Result<rd_ast::RdDocument, String>)
    ensures
        r is Ok <==> rd_parses(source@),
        source@.contains('\0') ==> r is Err,
        r matches Ok(d) ==> rd_nodes(d) == rd_tree(source@),
        r matches Err(m) ==> m@ == rd_refusal(source@),
{
    match rd_source::parse(source.as_bytes()) {
        Ok(parsed) => Ok(parsed.into_parts().0),
        Err(error) => Err(error.to_string()),
    }
}

/// How many top-level nodes `rd_ast::RdDocument::nodes` holds.
#[verifier::external_body]
fn node_count(document: &rd_ast::RdDocument) -> (r: usize)
    ensures
        r == rd_nodes(*document).len(),
{
    document.nodes().len()
}

/// The `i`-th top-level node of `rd_ast::RdDocument::nodes`, carried over,
/// if there is one.
#[verifier::external_body]
fn node_at(document: &rd_ast::RdDocument, i: usize) -> (r: Option<Node>)
    ensures
        r is Some <==> i < rd_nodes(*document).len(),
        r matches Some(n) ==> n == rd_nodes(*document)[i as int],
{
    document.nodes().get(i).map(convert_node)
}

/// An `rd_ast` node as a [`Node`], one for one: leaves keep their text, a
/// macro its `RdTag::as_rd_tag` name, its option and its children, a group
/// its children; any other node is `Raw`.
#[verifier::external_body]
fn convert_node(node: &rd_ast::RdNode) -> Node {
    match node {
        RdNode::Text(t) => Node::Text(t.clone()),
        RdNode::RCode(t) => Node::RCode(t.clone()),
        RdNode::Verb(t) => Node::Verb(t.clone()),
        RdNode::Comment(t) => Node::Comment(t.clone()),
        RdNode::Group(g) => Node::Group(g.children().iter().map(convert_node).collect()),
        RdNode::Tagged(t) => Node::Tagged {
            tag: t.tag().as_rd_tag().to_owned(),
            option: t.option().map(|o| o.iter().map(convert_node).collect()),
            children: t.children().iter().map(convert_node).collect(),
        },
        _ => Node::Raw,
    }
}

/// A parsed document's top-level nodes, carried over.
fn document_of(document: &rd_ast::RdDocument) -> (r: Document)
    ensures
        r.nodes@ == rd_nodes(*document),
{
    let n = node_count(document);
    let mut nodes: Vec<Node> = Vec::new();
    let mut i: usize = 0;
    while i < n
        invariant
            i <= n,
            n == rd_nodes(*document).len(),
            nodes@ == rd_nodes(*document).subrange(0, i as int),
        decreases n - i,
    {
        match node_at(document, i) {
            Some(node) => nodes.push(node),
            None => {},
        }
        assert(nodes@ =~= rd_nodes(*document).subrange(0, i + 1));
        i = i + 1;
    }
    assert(nodes@ =~= rd_nodes(*document));
    Document { nodes }
}

/// Parse Rd source and convert it to a [`Topic`].
pub fn parse(source: &str) -> (r: Result<Topic, RdError>)
    ensures
        r is Ok <==> rd_parses(source@),
        source@.contains('\0') ==> r is Err,
        r matches Ok(t) ==> rd_topic(t, rd_tree(source@)),
        r matches Err(e) ==> e.message@ == rd_refusal(source@),
{
    match rd_parse(source) {
        Ok(document) => Ok(from_document(&document_of(&document))),
        Err(message) => Err(RdError { message }),
    }
}

} // verus!
