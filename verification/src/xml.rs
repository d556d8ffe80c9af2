//! A plain model of an XML document, and the call that parses one.

use vstd::prelude::*;
use xmltree::{Element, XMLNode};

verus! {

/// An XML element: its name, its attributes in key order, and its children.
#[derive(Debug)]
pub struct XmlElement {
    pub name: String,
    pub attributes: Vec<(String, String)>,
    pub children: Vec<XmlNode>,
}

/// A child of an element: an element, or anything else (text, comment, ...).
#[derive(Debug)]
pub enum XmlNode {
    Element(XmlElement),
    Other,
}

/// The mathematical value of an element.
pub struct XmlTree {
    pub name: Seq<char>,
    pub attributes: Seq<(Seq<char>, Seq<char>)>,
    pub children: Seq<Option<XmlTree>>,
}

impl XmlElement {
    pub open spec fn tree(&self) -> XmlTree
        decreases self,
    {
        XmlTree {
            name: self.name@,
            attributes: self.attributes@.map_values(|p: (String, String)| (p.0@, p.1@)),
            children: Seq::new(
                self.children@.len(),
                |i: int|
                    if 0 <= i < self.children@.len() {
                        proof {
                            assert(decreases_to!(self.children => self.children@));
                            assert(decreases_to!(self.children@ => self.children@[i]));
                        }
                        node_tree(self.children@[i])
                    } else {
                        None
                    },
            ),
        }
    }
}

pub open spec fn node_tree(n: XmlNode) -> Option<XmlTree>
    decreases n,
{
    match n {
        XmlNode::Element(e) => Some(e.tree()),
        XmlNode::Other => None,
    }
}

#[verifier::external_type_specification]
#[verifier::external_body]
pub struct ExXmlElement(Element);

#[verifier::external_type_specification]
#[verifier::external_body]
pub struct ExXmlParseError(xmltree::ParseError);

/// What `xmltree::Element::parse` makes of a document, as a tree; `None` where
/// it refuses the document.
pub uninterp spec fn xml_parse(bytes: Seq<u8>) -> Option<XmlTree>;

/// The value of the first attribute named `key`, if any.
pub open spec fn attr_value(attrs: Seq<(Seq<char>, Seq<char>)>, key: Seq<char>) -> Option<Seq<char>>
    decreases attrs.len(),
{
    if attrs.len() == 0 {
        None
    } else if attrs[0].0 == key {
        Some(attrs[0].1)
    } else {
        attr_value(attrs.drop_first(), key)
    }
}

/// The first child element named `name`, if any.
pub open spec fn first_child_named(children: Seq<Option<XmlTree>>, name: Seq<char>) -> Option<XmlTree>
    decreases children.len(),
{
    if children.len() == 0 {
        None
    } else {
        match children[0] {
            Some(t) => if t.name == name { Some(t) } else { first_child_named(children.drop_first(), name) },
            None => first_child_named(children.drop_first(), name),
        }
    }
}

/// Copies an `xmltree` element into the plain model: name, attributes in
/// the map's order (key order, with the `attribute-sorted` feature), children
/// with every non-element node as `Other`.
#[verifier::external_body]
fn convert_element(e: &Element) -> XmlElement {
    XmlElement {
        name: e.name.clone(),
        attributes: e.attributes.iter().map(|(k, v)| (k.clone(), v.clone())).collect(),
        children: e.children.iter().map(|c| match c {
            XMLNode::Element(x) => XmlNode::Element(convert_element(x)),
            _ => XmlNode::Other,
        }).collect(),
    }
}

/// Parses an XML document with `xmltree::Element::parse`, which is
/// deterministic: the result is named `xml_parse`.
#[verifier::external_body]
pub(crate) fn parse_document(d: &[u8]) -> (r: Result<XmlElement, xmltree::ParseError>)
    ensures
        xml_parse(d@) == match r {
            Ok(e) => Some(e.tree()),
            Err(_) => None::<XmlTree>,
        },
{
    match Element::parse(d) {
        Ok(e) => Ok(convert_element(&e)),
        Err(e) => Err(e),
    }
}

/// An XML document that could not be parsed, with the parser's message.
#[derive(Debug)]
pub struct XmlError {
    pub message: String,
}

/// The parser's message for a refused document (`Display` of
/// `xmltree::ParseError`). Nothing is claimed of the text.
#[verifier::external_body]
fn xml_error_text(e: &xmltree::ParseError) -> String {
    e.to_string()
}

/// Parses an XML document into the plain model.
pub fn parse_xml(d: &[u8]) -> (r: Result<XmlElement, XmlError>)
    ensures
        xml_parse(d@) == match r {
            Ok(e) => Some(e.tree()),
            Err(_) => None::<XmlTree>,
        },
{
    match parse_document(d) {
        Ok(e) => Ok(e),
        Err(e) => Err(XmlError { message: xml_error_text(&e) }),
    }
}

impl XmlElement {
    /// The value of the first attribute named `key`.
    pub fn attribute(&self, key: &str) -> (v: Option<&String>)
        ensures
            match v {
                Some(s) => attr_value(self.tree().attributes, key@) == Some(s@),
                None => attr_value(self.tree().attributes, key@) is None,
            },
    {
        let k = key.to_owned();
        let ghost attrs = self.tree().attributes;
        let mut i: usize = 0;
        assert(attrs.skip(0) == attrs);
        while i < self.attributes.len()
            invariant
                i <= self.attributes@.len(),
                attrs == self.tree().attributes,
                attr_value(attrs, key@) == attr_value(attrs.skip(i as int), key@),
                k@ == key@,
            decreases self.attributes@.len() - i,
        {
            proof {
                assert(attrs.skip(i as int).drop_first() == attrs.skip(i + 1));
            }
            if self.attributes[i].0 == k {
                return Some(&self.attributes[i].1);
            }
            i = i + 1;
        }
        None
    }

    /// The first child element named `name`.
    pub fn get_child(&self, name: &str) -> (c: Option<&XmlElement>)
        ensures
            match c {
                Some(e) => first_child_named(self.tree().children, name@) == Some(e.tree()),
                None => first_child_named(self.tree().children, name@) is None,
            },
    {
        let k = name.to_owned();
        let ghost ch = self.tree().children;
        let mut i: usize = 0;
        assert(ch.skip(0) == ch);
        while i < self.children.len()
            invariant
                i <= self.children@.len(),
                ch == self.tree().children,
                first_child_named(ch, name@) == first_child_named(ch.skip(i as int), name@),
                k@ == name@,
            decreases self.children@.len() - i,
        {
            proof {
                assert(ch.skip(i as int).drop_first() == ch.skip(i + 1));
                assert(ch.skip(i as int)[0] == ch[i as int]);
                assert(ch[i as int] == node_tree(self.children@[i as int]));
            }
            match &self.children[i] {
                XmlNode::Element(e) => {
                    if e.name == k {
                        return Some(e);
                    }
                },
                XmlNode::Other => {},
            }
            i = i + 1;
        }
        None
    }
}

} // verus!
