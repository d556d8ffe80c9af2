//! Compiler specifications: where a processor keeps the return address.

use vstd::prelude::*;
use crate::numbers::parse_i64;
use crate::numbers;
use crate::xml::{parse_xml, XmlElement, XmlNode, XmlTree};
use crate::xml;

verus! {

/// Where the return address of a call is kept.
#[derive(Debug)]
pub enum CspecRetaddr {
    /// In memory: `size` bytes at `offset` of the address space `space`.
    Varnode { space: String, offset: i64, size: i64 },
    /// In the named register.
    Register { name: String },
}

/// The value of a `CspecRetaddr`.
pub enum RetaddrValue {
    Varnode { space: Seq<char>, offset: int, size: int },
    Register { name: Seq<char> },
}

impl CspecRetaddr {
    pub open spec fn value(&self) -> RetaddrValue {
        match self {
            CspecRetaddr::Varnode { space, offset, size } => RetaddrValue::Varnode {
                space: space@,
                offset: *offset as int,
                size: *size as int,
            },
            CspecRetaddr::Register { name } => RetaddrValue::Register { name: name@ },
        }
    }
}

/// A decimal `i64` attribute text, if it is one.
pub open spec fn decimal_i64(s: Seq<char>) -> Option<int> {
    match numbers::spec_parse_i64(vstd::utf8::encode_utf8(s), 10) {
        Ok(v) => Some(v),
        Err(_) => None,
    }
}

/// The return address a compiler specification states: the first child
/// of its first `returnaddress` element must be an element, either
/// `register` with a `name`, or `varnode` with a `space` and decimal
/// `offset` and `size`. `None` where the document does not say so.
pub open spec fn spec_return_address(root: XmlTree) -> Option<RetaddrValue> {
    match xml::first_child_named(root.children, "returnaddress"@) {
        None => None,
        Some(ret) => if ret.children.len() == 0 {
            None
        } else {
            match ret.children[0] {
                None => None,
                Some(el) => if el.name == "register"@ {
                    match xml::attr_value(el.attributes, "name"@) {
                        Some(n) => Some(RetaddrValue::Register { name: n }),
                        None => None,
                    }
                } else if el.name == "varnode"@ {
                    match (
                        xml::attr_value(el.attributes, "space"@),
                        xml::attr_value(el.attributes, "offset"@),
                        xml::attr_value(el.attributes, "size"@),
                    ) {
                        (Some(sp), Some(off), Some(sz)) => match (decimal_i64(off), decimal_i64(sz)) {
                            (Some(o), Some(z)) => Some(RetaddrValue::Varnode { space: sp, offset: o, size: z }),
                            _ => None,
                        },
                        _ => None,
                    }
                } else {
                    None
                },
            }
        },
    }
}

/// Reads the return address from a parsed compiler specification.
pub fn read_return_address(root: &XmlElement) -> (r: Option<CspecRetaddr>)
    ensures
        match r {
            Some(a) => spec_return_address(root.tree()) == Some(a.value()),
            None => spec_return_address(root.tree()) is None,
        },
{
    let ret = match root.get_child("returnaddress") {
        Some(e) => e,
        None => return None,
    };
    if ret.children.len() == 0 {
        return None;
    }
    assert(ret.tree().children[0] == xml::node_tree(ret.children@[0]));
    let el = match &ret.children[0] {
        XmlNode::Element(e) => e,
        XmlNode::Other => return None,
    };
    let register = "register".to_owned();
    let varnode = "varnode".to_owned();
    if el.name == register {
        match el.attribute("name") {
            Some(n) => Some(CspecRetaddr::Register { name: n.clone() }),
            None => None,
        }
    } else if el.name == varnode {
        let space = match el.attribute("space") {
            Some(s) => s,
            None => return None,
        };
        let offset = match el.attribute("offset") {
            Some(s) => s,
            None => return None,
        };
        let size = match el.attribute("size") {
            Some(s) => s,
            None => return None,
        };
        let o = match parse_i64(offset.as_str().as_bytes(), 10) {
            Ok(v) => v,
            Err(_) => return None,
        };
        let z = match parse_i64(size.as_str().as_bytes(), 10) {
            Ok(v) => v,
            Err(_) => return None,
        };
        Some(CspecRetaddr::Varnode { space: space.clone(), offset: o, size: z })
    } else {
        None
    }
}

/// A compiler specification: the document and the return address it states.
pub struct CompilerSpec {
    pub root: XmlElement,
    pub return_addr: CspecRetaddr,
}

impl CompilerSpec {
    /// Reads a compiler specification that parses and states a return address.
    pub fn from_bytes(d: &[u8]) -> (c: CompilerSpec)
        requires
            xml::xml_parse(d@) matches Some(t) && spec_return_address(t) is Some,
        ensures
            xml::xml_parse(d@) == Some(c.root.tree()),
            spec_return_address(c.root.tree()) == Some(c.return_addr.value()),
    {
        let root = match parse_xml(d) {
            Ok(e) => e,
            Err(_) => {
                proof {
                    assert(false);
                }
                XmlElement { name: String::new(), attributes: Vec::new(), children: Vec::new() }
            },
        };
        match read_return_address(&root) {
            Some(return_addr) => CompilerSpec { root, return_addr },
            None => {
                proof {
                    assert(false);
                }
                CompilerSpec { root, return_addr: CspecRetaddr::Register { name: String::new() } }
            },
        }
    }

    /// Reads a compiler specification, or `None` where the document does not
    /// parse or does not state a return address.
    pub fn try_from_bytes(d: &[u8]) -> (r: Option<CompilerSpec>)
        ensures
            r is Some <==> (xml::xml_parse(d@) matches Some(t) && spec_return_address(t) is Some),
            r matches Some(c) ==> {
                &&& xml::xml_parse(d@) == Some(c.root.tree())
                &&& spec_return_address(c.root.tree()) == Some(c.return_addr.value())
            },
    {
        let root = match parse_xml(d) {
            Ok(e) => e,
            Err(_) => return None,
        };
        match read_return_address(&root) {
            Some(_) => Some(CompilerSpec::from_bytes(d)),
            None => None,
        }
    }
}

} // verus!
