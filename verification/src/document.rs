//! Reading and writing XML documents with the `xmltree` crate. What the
//! crate reads is taken over into the element tree of this library, and
//! what it writes is handed to it from there, field by field.
use vstd::prelude::*;
use crate::xml::{XmlElement, ElementView, XmlNode};

verus! {

#[verifier::external_type_specification]
#[verifier::external_body]
pub struct ExElement(xmltree::Element);

#[verifier::external_type_specification]
#[verifier::external_body]
pub struct ExXMLNode(xmltree::XMLNode);

/// The root element that `xmltree::Element::parse` reads from these bytes;
/// `None` where it reads none.
pub uninterp spec fn xml_document(bytes: Seq<u8>) -> Option<ElementView>;

/// The bytes that `xmltree::Element::write` writes for a document with
/// this root; `None` where it refuses the element.
pub uninterp spec fn xml_text(root: ElementView) -> Option<Seq<u8>>;

/// Takes a node of `xmltree` over, variant by variant.
#[verifier::external_body]
fn node_from_tree(n: &xmltree::XMLNode) -> XmlNode {
    match n {
        xmltree::XMLNode::Element(e) => XmlNode::Element(element_from_tree(e)),
        xmltree::XMLNode::Comment(s) => XmlNode::Comment(s.clone()),
        xmltree::XMLNode::CData(s) => XmlNode::CData(s.clone()),
        xmltree::XMLNode::Text(s) => XmlNode::Text(s.clone()),
        xmltree::XMLNode::ProcessingInstruction(t, d) => XmlNode::ProcessingInstruction(
            t.clone(),
            d.clone(),
        ),
    }
}

/// Takes an element of `xmltree` over, field by field: the namespace
/// declarations in the order of their prefixes, the attributes and the
/// children in document order.
#[verifier::external_body]
fn element_from_tree(e: &xmltree::Element) -> XmlElement {
    XmlElement {
        prefix: e.prefix.clone(),
        namespace: e.namespace.clone(),
        namespaces: e.namespaces.as_ref().map(
            |n| n.0.iter().map(|(k, v)| (k.clone(), v.clone())).collect(),
        ),
        name: e.name.clone(),
        attributes: e.attributes.iter().map(|(k, v)| (k.clone(), v.clone())).collect(),
        children: e.children.iter().map(node_from_tree).collect(),
    }
}

/// Hands a node to `xmltree`, variant by variant.
#[verifier::external_body]
fn node_to_tree(n: &XmlNode) -> xmltree::XMLNode {
    match n {
        XmlNode::Element(e) => xmltree::XMLNode::Element(element_to_tree(e)),
        XmlNode::Comment(s) => xmltree::XMLNode::Comment(s.clone()),
        XmlNode::CData(s) => xmltree::XMLNode::CData(s.clone()),
        XmlNode::Text(s) => xmltree::XMLNode::Text(s.clone()),
        XmlNode::ProcessingInstruction(t, d) => xmltree::XMLNode::ProcessingInstruction(
            t.clone(),
            d.clone(),
        ),
    }
}

/// Hands an element to `xmltree`, field by field. Of two declarations of
/// one prefix, or two attributes of one name, the map that `xmltree` keeps
/// them in holds the later one.
#[verifier::external_body]
fn element_to_tree(e: &XmlElement) -> xmltree::Element {
    let mut out = xmltree::Element::new(&e.name);
    out.prefix = e.prefix.clone();
    out.namespace = e.namespace.clone();
    out.namespaces = e.namespaces.as_ref().map(|n| xmltree::Namespace(n.iter().cloned().collect()));
    out.attributes = e.attributes.iter().cloned().collect();
    out.children = e.children.iter().map(node_to_tree).collect();
    out
}

/// Wraps `xmltree::Element::parse`: the root element of the document, taken
/// over into the element tree of this library, or `None` where the bytes
/// are no well-formed document.
#[verifier::external_body]
fn parse_document(bytes: &[u8]) -> (r: Option<XmlElement>)
    ensures
        match r {
            Some(e) => xml_document(bytes@) == Some(e@),
            None => xml_document(bytes@) is None,
        },
{
    match xmltree::Element::parse(bytes) {
        Ok(e) => Some(element_from_tree(&e)),
        Err(_) => None,
    }
}

/// Wraps `xmltree::Element::write`: the bytes of the document with this
/// root, or `None` where the writer refuses it.
#[verifier::external_body]
fn write_document(root: &XmlElement) -> (r: Option<Vec<u8>>)
    ensures
        match r {
            Some(b) => xml_text(root@) == Some(b@),
            None => xml_text(root@) is None,
        },
{
    let mut buf: Vec<u8> = Vec::new();
    match element_to_tree(root).write(&mut buf) {
        Ok(()) => Some(buf),
        Err(_) => None,
    }
}

/// The root element of an XML document; `None` where the bytes hold none.
pub fn read_xml(bytes: &[u8]) -> (r: Option<XmlElement>)
    ensures
        match r {
            Some(e) => xml_document(bytes@) == Some(e@),
            None => xml_document(bytes@) is None,
        },
{
    parse_document(bytes)
}

/// The XML document with this root; `None` where it cannot be written.
pub fn write_xml(root: &XmlElement) -> (r: Option<Vec<u8>>)
    ensures
        match r {
            Some(b) => xml_text(root@) == Some(b@),
            None => xml_text(root@) is None,
        },
{
    write_document(root)
}

} // verus!
