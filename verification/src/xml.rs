//! XML documents as plain values, read with `roxmltree`.
//!
//! A document is the list of its nodes in document order. Each node names its
//! parent by index, so the children of a node are the later nodes that name
//! it, in the order in which they stand.

use vstd::prelude::*;
use crate::text::{views, lemma_views_push};

verus! {

/// A place in a text: row and column, both counted from 1.
#[derive(Clone, Copy, Debug, PartialEq, Eq, Structural)]
pub struct TextPos {
    pub row: u32,
    pub col: u32,
}

/// One node of a document.
#[derive(Debug)]
pub struct XmlNode {
    /// Index of the parent; the root has none.
    pub parent: Option<usize>,
    /// Whether the node is an element (and not text, a comment, ...).
    pub element: bool,
    /// Local tag name; empty unless the node is an element.
    pub name: String,
    /// For an element, the text of its first child if that is a text node; for
    /// text and comments, their own text.
    pub text: Option<String>,
    /// Where the node begins in the source text.
    pub start: TextPos,
    /// Where the node ends in the source text.
    pub end: TextPos,
}

/// What an `XmlNode` holds, with texts as sequences of characters.
pub struct XmlNodeView {
    pub parent: Option<usize>,
    pub element: bool,
    pub name: Seq<char>,
    pub text: Option<Seq<char>>,
    pub start: TextPos,
    pub end: TextPos,
}

/// The characters of an optional string.
pub open spec fn opt_text(text: Option<String>) -> Option<Seq<char>> {
    match text {
        Some(t) => Some(t@),
        None => None,
    }
}

impl View for XmlNode {
    type V = XmlNodeView;

    open spec fn view(&self) -> XmlNodeView {
        XmlNodeView {
            parent: self.parent,
            element: self.element,
            name: self.name@,
            text: opt_text(self.text),
            start: self.start,
            end: self.end,
        }
    }
}

/// A parsed document: its nodes in document order, the root first.
#[derive(Debug)]
pub struct XmlDocument {
    pub nodes: Vec<XmlNode>,
}

impl View for XmlDocument {
    type V = Seq<XmlNodeView>;

    open spec fn view(&self) -> Seq<XmlNodeView> {
        views(self.nodes@)
    }
}

/// Why a text could not be read as XML.
#[derive(Debug)]
pub struct XmlError {
    pub message: String,
}

/// `roxmltree::Document`, as a value that is handed on: what it holds is read
/// through the functions below.
#[verifier::external_type_specification]
#[verifier::external_body]
pub struct ExDocument<'input>(roxmltree::Document<'input>);

/// `roxmltree::Error`, as a value that is handed on.
#[verifier::external_type_specification]
#[verifier::external_body]
pub struct ExRoxmlError(roxmltree::Error);

/// The nodes of the document that `roxmltree` reads from a text, in document
/// order; `None` where it refuses the text.
pub uninterp spec fn xml_of_text(text: Seq<char>) -> Option<Seq<XmlNodeView>>;

/// The nodes that a `roxmltree::Document` holds, in document order.
pub uninterp spec fn document_nodes(doc: roxmltree::Document) -> Seq<XmlNodeView>;

/// `roxmltree::Document::parse`: the document of a text, which depends on the
/// text alone, or the parser's error.
#[verifier::external_body]
fn read_document<'a>(text: &'a str) -> (r: Result<roxmltree::Document<'a>, roxmltree::Error>)
    ensures
        match r {
            Ok(doc) => xml_of_text(text@) == Some(document_nodes(doc)),
            Err(_) => xml_of_text(text@) is None,
        },
{
    roxmltree::Document::parse(text)
}

/// `Display` of a `roxmltree::Error`: its message.
#[verifier::external_body]
fn error_message(error: &roxmltree::Error) -> String {
    error.to_string()
}

/// `Document::descendants`, counted: the number of nodes of the document.
#[verifier::external_body]
fn node_count(doc: &roxmltree::Document) -> (r: usize)
    ensures
        r == document_nodes(*doc).len(),
{
    doc.descendants().len()
}

/// `Node::parent` of the node at `index`, as an index.
#[verifier::external_body]
fn node_parent(doc: &roxmltree::Document, index: usize) -> (r: Option<usize>)
    requires
        index < document_nodes(*doc).len(),
    ensures
        r == document_nodes(*doc)[index as int].parent,
{
    doc.get_node(roxmltree::NodeId::from(index)).unwrap().parent().map(|p| p.id().get_usize())
}

/// `Node::is_element` of the node at `index`.
#[verifier::external_body]
fn node_is_element(doc: &roxmltree::Document, index: usize) -> (r: bool)
    requires
        index < document_nodes(*doc).len(),
    ensures
        r == document_nodes(*doc)[index as int].element,
{
    doc.get_node(roxmltree::NodeId::from(index)).unwrap().is_element()
}

/// `Node::tag_name` of the node at `index`: its local name.
#[verifier::external_body]
fn node_name(doc: &roxmltree::Document, index: usize) -> (r: String)
    requires
        index < document_nodes(*doc).len(),
    ensures
        r@ == document_nodes(*doc)[index as int].name,
{
    doc.get_node(roxmltree::NodeId::from(index)).unwrap().tag_name().name().to_string()
}

/// `Node::text` of the node at `index`.
#[verifier::external_body]
fn node_text(doc: &roxmltree::Document, index: usize) -> (r: Option<String>)
    requires
        index < document_nodes(*doc).len(),
    ensures
        opt_text(r) == document_nodes(*doc)[index as int].text,
{
    doc.get_node(roxmltree::NodeId::from(index)).unwrap().text().map(|t| t.to_string())
}

/// `Document::text_pos_at` at the start of `Node::range` of the node at
/// `index`. Rows and columns are counted from 1.
#[verifier::external_body]
fn node_start(doc: &roxmltree::Document, index: usize) -> (r: TextPos)
    requires
        index < document_nodes(*doc).len(),
    ensures
        r == document_nodes(*doc)[index as int].start,
        r.row >= 1,
        r.col >= 1,
{
    let pos = doc.text_pos_at(doc.get_node(roxmltree::NodeId::from(index)).unwrap().range().start);
    TextPos { row: pos.row, col: pos.col }
}

/// `Document::text_pos_at` at the end of `Node::range` of the node at `index`.
/// Rows and columns are counted from 1.
#[verifier::external_body]
fn node_end(doc: &roxmltree::Document, index: usize) -> (r: TextPos)
    requires
        index < document_nodes(*doc).len(),
    ensures
        r == document_nodes(*doc)[index as int].end,
        r.row >= 1,
        r.col >= 1,
{
    let pos = doc.text_pos_at(doc.get_node(roxmltree::NodeId::from(index)).unwrap().range().end);
    TextPos { row: pos.row, col: pos.col }
}

/// Every position of the nodes is counted from 1.
pub open spec fn positions_from_one(nodes: Seq<XmlNodeView>) -> bool {
    forall|i: int|
        0 <= i < nodes.len() ==> {
            &&& (#[trigger] nodes[i]).start.row >= 1
            &&& nodes[i].start.col >= 1
            &&& nodes[i].end.row >= 1
            &&& nodes[i].end.col >= 1
        }
}

impl XmlDocument {
    /// Reads a text as XML. The document holds what the parser tells of each
    /// node, in document order.
    pub fn parse(text: &str) -> (r: Result<XmlDocument, XmlError>)
        ensures
            match r {
                Ok(doc) => xml_of_text(text@) == Some(doc@) && positions_from_one(doc@),
                Err(_) => xml_of_text(text@) is None,
            },
    {
        match read_document(text) {
            Err(error) => Err(XmlError { message: error_message(&error) }),
            Ok(doc) => {
                let count = node_count(&doc);
                let mut nodes: Vec<XmlNode> = Vec::new();
                let mut i: usize = 0;
                while i < count
                    invariant
                        i <= count,
                        count == document_nodes(doc).len(),
                        views(nodes@) == document_nodes(doc).take(i as int),
                        positions_from_one(views(nodes@)),
                    decreases count - i,
                {
                    let node = XmlNode {
                        parent: node_parent(&doc, i),
                        element: node_is_element(&doc, i),
                        name: node_name(&doc, i),
                        text: node_text(&doc, i),
                        start: node_start(&doc, i),
                        end: node_end(&doc, i),
                    };
                    proof {
                        lemma_views_push(nodes@, node);
                        assert(node@ == document_nodes(doc)[i as int]);
                        assert(document_nodes(doc).take(i as int).push(node@)
                            =~= document_nodes(doc).take(i + 1));
                    }
                    nodes.push(node);
                    i += 1;
                }
                assert(document_nodes(doc).take(count as int) =~= document_nodes(doc));
                Ok(XmlDocument { nodes })
            },
        }
    }
}

} // verus!
