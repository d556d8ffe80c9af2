//! Loader opinions: which processor family an ELF machine number belongs to,
//! as Ghidra's `.opinion` documents tell.

use vstd::prelude::*;
use crate::arch::{arches, SpecLibrary, UnidisArch};
use crate::arch;
use crate::numbers::parse_u64;
use crate::numbers;
use crate::xml::{parse_xml, XmlElement, XmlError, XmlNode, XmlTree};
use crate::xml;

verus! {

/// The outcome of searching an opinion document for an ELF machine number.
#[derive(Debug, Clone, Copy, PartialEq, Eq, Structural)]
pub enum ElfScan {
    /// An entry lists the number.
    Found,
    /// No entry lists it.
    NotFound,
    /// Before any match, an entry's `primary` value is not a decimal `u64`.
    Malformed,
}

/// The loader named by constraints that apply to ELF files.
pub open spec fn elf_loader() -> Seq<char> {
    "Executable and Linking Format (ELF)"@
}

/// The first outcome that is not `NotFound`, or `NotFound`.
pub open spec fn first_scan(s: Seq<ElfScan>) -> ElfScan
    decreases s.len(),
{
    if s.len() == 0 {
        ElfScan::NotFound
    } else {
        let f = first_scan(s.drop_last());
        if f != ElfScan::NotFound {
            f
        } else {
            s.last()
        }
    }
}

proof fn lemma_first_scan_step(s: Seq<ElfScan>, i: int)
    requires
        0 <= i < s.len(),
    ensures
        first_scan(s.take(i + 1)) == if first_scan(s.take(i)) != ElfScan::NotFound {
            first_scan(s.take(i))
        } else {
            s[i]
        },
{
    assert(s.take(i + 1).drop_last() == s.take(i));
}

/// What an element's own `primary` attribute says of `tgt`.
pub open spec fn primary_scan(t: XmlTree, tgt: u64) -> ElfScan {
    match xml::attr_value(t.attributes, "primary"@) {
        None => ElfScan::NotFound,
        Some(p) => match numbers::spec_parse_u64(vstd::utf8::encode_utf8(p), 10) {
            Ok(v) => if v == tgt { ElfScan::Found } else { ElfScan::NotFound },
            Err(_) => ElfScan::Malformed,
        },
    }
}

/// `primary_scan` of a child, where non-elements say nothing.
pub open spec fn child_primary_scan(c: Option<XmlTree>, tgt: u64) -> ElfScan {
    match c {
        Some(t) => primary_scan(t, tgt),
        None => ElfScan::NotFound,
    }
}

/// `child_primary_scan` of each child.
pub open spec fn primary_scans(ch: Seq<Option<XmlTree>>, tgt: u64) -> Seq<ElfScan> {
    Seq::new(ch.len(), |i: int| child_primary_scan(ch[i], tgt))
}

/// An entry of a constraint: its own `primary`, then those of its element
/// children, in order.
pub open spec fn entry_scan(t: XmlTree, tgt: u64) -> ElfScan {
    let own = primary_scan(t, tgt);
    if own != ElfScan::NotFound {
        own
    } else {
        first_scan(primary_scans(t.children, tgt))
    }
}

/// `entry_scan` of a child, where non-elements say nothing.
pub open spec fn child_entry_scan(c: Option<XmlTree>, tgt: u64) -> ElfScan {
    match c {
        Some(t) => entry_scan(t, tgt),
        None => ElfScan::NotFound,
    }
}

/// `child_entry_scan` of each child.
pub open spec fn entry_scans(ch: Seq<Option<XmlTree>>, tgt: u64) -> Seq<ElfScan> {
    Seq::new(ch.len(), |i: int| child_entry_scan(ch[i], tgt))
}

/// Whether some attribute is `key` with value `value`.
pub open spec fn has_attr(attrs: Seq<(Seq<char>, Seq<char>)>, key: Seq<char>, value: Seq<char>) -> bool {
    exists|i: int| 0 <= i < attrs.len() && attrs[i].0 == key && attrs[i].1 == value
}

/// A child of the document root: a `constraint` element whose loader is ELF
/// is searched entry by entry; anything else says nothing.
pub open spec fn constraint_scan(c: Option<XmlTree>, tgt: u64) -> ElfScan {
    match c {
        Some(t) => if t.name == "constraint"@ && has_attr(t.attributes, "loader"@, elf_loader()) {
            first_scan(entry_scans(t.children, tgt))
        } else {
            ElfScan::NotFound
        },
        None => ElfScan::NotFound,
    }
}

/// `constraint_scan` of each child.
pub open spec fn constraint_scans(ch: Seq<Option<XmlTree>>, tgt: u64) -> Seq<ElfScan> {
    Seq::new(ch.len(), |i: int| constraint_scan(ch[i], tgt))
}

/// The search of a whole opinion document for the ELF machine number `tgt`.
pub open spec fn elf_scan(root: XmlTree, tgt: u64) -> ElfScan {
    first_scan(constraint_scans(root.children, tgt))
}

fn primary_of(e: &XmlElement, tgt: u64) -> (r: ElfScan)
    ensures
        r == primary_scan(e.tree(), tgt),
{
    match e.attribute("primary") {
        None => ElfScan::NotFound,
        Some(p) => match parse_u64(p.as_str().as_bytes(), 10) {
            Ok(v) => if v == tgt { ElfScan::Found } else { ElfScan::NotFound },
            Err(_) => ElfScan::Malformed,
        },
    }
}

fn entry_of(e: &XmlElement, tgt: u64) -> (r: ElfScan)
    ensures
        r == entry_scan(e.tree(), tgt),
{
    let own = primary_of(e, tgt);
    if own != ElfScan::NotFound {
        return own;
    }
    let ghost s = primary_scans(e.tree().children, tgt);
    let mut i: usize = 0;
    while i < e.children.len()
        invariant
            i <= e.children@.len(),
            s == primary_scans(e.tree().children, tgt),
            s.len() == e.children@.len(),
            first_scan(s.take(i as int)) == ElfScan::NotFound,
            primary_scan(e.tree(), tgt) == ElfScan::NotFound,
        decreases e.children@.len() - i,
    {
        proof {
            lemma_first_scan_step(s, i as int);
            assert(e.tree().children[i as int] == xml::node_tree(e.children@[i as int]));
        }
        let r = match &e.children[i] {
            XmlNode::Element(c) => primary_of(c, tgt),
            XmlNode::Other => ElfScan::NotFound,
        };
        assert(r == s[i as int]);
        if r != ElfScan::NotFound {
            proof {
                assert(first_scan(s.take(i + 1)) == r);
                lemma_first_scan_settled(s, i + 1);
                assert(first_scan(s) == r);
                assert(primary_scan(e.tree(), tgt) == ElfScan::NotFound);
                assert(entry_scan(e.tree(), tgt) == first_scan(s));
            }
            return r;
        }
        i = i + 1;
    }
    proof {
        assert(s.take(i as int) == s);
    }
    ElfScan::NotFound
}

fn has_elf_loader(e: &XmlElement) -> (b: bool)
    ensures
        b == has_attr(e.tree().attributes, "loader"@, elf_loader()),
{
    let key = "loader".to_owned();
    let value = "Executable and Linking Format (ELF)".to_owned();
    let ghost attrs = e.tree().attributes;
    let mut i: usize = 0;
    while i < e.attributes.len()
        invariant
            i <= e.attributes@.len(),
            attrs == e.tree().attributes,
            key@ == "loader"@,
            value@ == elf_loader(),
            forall|j: int| 0 <= j < i ==> !(attrs[j].0 == key@ && attrs[j].1 == value@),
        decreases e.attributes@.len() - i,
    {
        if e.attributes[i].0 == key && e.attributes[i].1 == value {
            assert(attrs[i as int].0 == key@ && attrs[i as int].1 == value@);
            return true;
        }
        i = i + 1;
    }
    false
}

fn constraint_of(c: &XmlNode, tgt: u64) -> (r: ElfScan)
    ensures
        r == constraint_scan(xml::node_tree(*c), tgt),
{
    let e = match c {
        XmlNode::Element(e) => e,
        XmlNode::Other => return ElfScan::NotFound,
    };
    let name = "constraint".to_owned();
    if !(e.name == name && has_elf_loader(e)) {
        return ElfScan::NotFound;
    }
    let ghost s = entry_scans(e.tree().children, tgt);
    let mut i: usize = 0;
    while i < e.children.len()
        invariant
            i <= e.children@.len(),
            s == entry_scans(e.tree().children, tgt),
            s.len() == e.children@.len(),
            first_scan(s.take(i as int)) == ElfScan::NotFound,
            constraint_scan(xml::node_tree(*c), tgt) == first_scan(s),
        decreases e.children@.len() - i,
    {
        proof {
            lemma_first_scan_step(s, i as int);
            assert(e.tree().children[i as int] == xml::node_tree(e.children@[i as int]));
        }
        let r = match &e.children[i] {
            XmlNode::Element(x) => entry_of(x, tgt),
            XmlNode::Other => ElfScan::NotFound,
        };
        assert(r == s[i as int]);
        if r != ElfScan::NotFound {
            proof {
                lemma_first_scan_settled(s, i + 1);
            }
            return r;
        }
        i = i + 1;
    }
    proof {
        assert(s.take(i as int) == s);
    }
    ElfScan::NotFound
}

/// Searches a document root for the ELF machine number `tgt`.
fn document_scan(root: &XmlElement, tgt: u64) -> (r: ElfScan)
    ensures
        r == elf_scan(root.tree(), tgt),
{
    let ghost s = constraint_scans(root.tree().children, tgt);
    let mut i: usize = 0;
    while i < root.children.len()
        invariant
            i <= root.children@.len(),
            s == constraint_scans(root.tree().children, tgt),
            s.len() == root.children@.len(),
            first_scan(s.take(i as int)) == ElfScan::NotFound,
        decreases root.children@.len() - i,
    {
        proof {
            lemma_first_scan_step(s, i as int);
            assert(root.tree().children[i as int] == xml::node_tree(root.children@[i as int]));
        }
        let r = constraint_of(&root.children[i], tgt);
        if r != ElfScan::NotFound {
            proof {
                lemma_first_scan_settled(s, i + 1);
            }
            return r;
        }
        i = i + 1;
    }
    proof {
        assert(s.take(i as int) == s);
    }
    ElfScan::NotFound
}

/// A parsed opinion document.
pub struct OpinionFile {
    pub constraint: XmlElement,
}

impl OpinionFile {
    /// Parses an opinion document that the XML parser accepts.
    pub fn from_bytes(d: &[u8]) -> (f: OpinionFile)
        requires
            xml::xml_parse(d@) is Some,
        ensures
            xml::xml_parse(d@) == Some(f.constraint.tree()),
    {
        match parse_xml(d) {
            Ok(e) => OpinionFile { constraint: e },
            Err(_) => {
                proof {
                    assert(false);
                }
                OpinionFile {
                    constraint: XmlElement { name: String::new(), attributes: Vec::new(), children: Vec::new() },
                }
            },
        }
    }

    /// Parses an opinion document, or reports the parser's refusal.
    pub fn try_from_bytes(d: &[u8]) -> (r: Result<OpinionFile, XmlError>)
        ensures
            r is Ok <==> xml::xml_parse(d@) is Some,
            r matches Ok(f) ==> xml::xml_parse(d@) == Some(f.constraint.tree()),
    {
        match parse_xml(d) {
            Ok(_) => Ok(OpinionFile::from_bytes(d)),
            Err(e) => Err(e),
        }
    }

    /// Searches the document for the ELF machine number `tgt`, reporting a
    /// `primary` value met before any match that is not a decimal `u64`.
    pub fn scan_elf(&self, tgt: u64) -> (r: ElfScan)
        ensures
            r == elf_scan(self.constraint.tree(), tgt),
    {
        document_scan(&self.constraint, tgt)
    }

    /// Whether some ELF constraint of the document lists the machine number
    /// `tgt`, as an entry's `primary` or one of its children's.
    pub fn find_elf(&self, tgt: u64) -> (r: Option<()>)
        requires
            elf_scan(self.constraint.tree(), tgt) != ElfScan::Malformed,
        ensures
            r is Some <==> elf_scan(self.constraint.tree(), tgt) == ElfScan::Found,
    {
        match document_scan(&self.constraint, tgt) {
            ElfScan::Found => Some(()),
            _ => None,
        }
    }
}

/// Why the opinion documents could not answer.
#[derive(Debug, Clone, Copy, PartialEq, Eq, Structural)]
pub enum OpinionError {
    /// The document of the specification at this position is not XML.
    Unreadable { index: usize },
    /// A `primary` value in the document at this position is not a `u64`.
    MalformedPrimary { index: usize },
}

/// The answer of the documents from position `i` on, in order: the family of
/// the first whose search finds `tgt`; an error for the first document met
/// that is unreadable or whose search meets a malformed value.
pub open spec fn lookup_from(entries: Seq<(UnidisArch, Seq<char>)>, tgt: u64, i: int) -> Result<Option<UnidisArch>, OpinionError>
    decreases entries.len() - i,
{
    if i < 0 || i >= entries.len() {
        Ok(None)
    } else {
        match xml::xml_parse(vstd::utf8::encode_utf8(entries[i].1)) {
            None => Err(OpinionError::Unreadable { index: i as usize }),
            Some(t) => match elf_scan(t, tgt) {
                ElfScan::Found => Ok(Some(entries[i].0)),
                ElfScan::NotFound => lookup_from(entries, tgt, i + 1),
                ElfScan::Malformed => Err(OpinionError::MalformedPrimary { index: i as usize }),
            },
        }
    }
}

/// The opinion documents of a library's specifications, in the order of
/// `arches()`, each with its family.
pub open spec fn opinions_of(lib: SpecLibrary) -> Seq<(UnidisArch, Seq<char>)> {
    Seq::new(lib.files@.len(), |i: int| (arch::spec_arches()[i].arch, lib.files@[i].opinion@))
}

/// The opinion documents of the known specifications, each with its family.
pub struct Opinions {
    pub entries: Vec<(UnidisArch, String)>,
}

impl Opinions {
    /// The documents and families as values.
    pub open spec fn spec_entries(&self) -> Seq<(UnidisArch, Seq<char>)> {
        self.entries@.map_values(|e: (UnidisArch, String)| (e.0, e.1@))
    }

    /// The answer of all the documents.
    pub open spec fn spec_lookup(&self, tgt: u64) -> Result<Option<UnidisArch>, OpinionError> {
        lookup_from(self.spec_entries(), tgt, 0)
    }

    /// Takes the opinion document of every known specification, in the
    /// order of `arches()`, with its family.
    pub fn new(lib: &SpecLibrary) -> (o: Opinions)
        requires
            lib.wf(),
        ensures
            o.spec_entries() == opinions_of(*lib),
            o.entries@.len() == arch::spec_arches().len(),
            forall|i: int| 0 <= i < o.entries@.len() ==> {
                &&& (#[trigger] o.entries@[i]).0 == arch::spec_arches()[i].arch
                &&& o.entries@[i].1@ == lib.files@[i].opinion@
            },
    {
        let specs = arches();
        let mut entries: Vec<(UnidisArch, String)> = Vec::new();
        let mut i: usize = 0;
        while i < specs.len()
            invariant
                specs@ == arch::spec_arches(),
                lib.wf(),
                i <= specs@.len(),
                entries@.len() == i,
                forall|j: int| 0 <= j < i ==> {
                    &&& (#[trigger] entries@[j]).0 == arch::spec_arches()[j].arch
                    &&& entries@[j].1@ == lib.files@[j].opinion@
                },
            decreases specs@.len() - i,
        {
            entries.push((specs[i].arch, lib.files[i].opinion.clone()));
            i = i + 1;
        }
        Opinions { entries }
    }

    /// The family of the first document, in order, that lists the ELF
    /// machine number `tgt`.
    pub fn lookup_elf(&self, tgt: u64) -> (r: Option<UnidisArch>)
        requires
            self.spec_lookup(tgt) is Ok,
        ensures
            Ok::<Option<UnidisArch>, OpinionError>(r) == self.spec_lookup(tgt),
    {
        let mut i: usize = 0;
        while i < self.entries.len()
            invariant
                i <= self.entries@.len(),
                self.spec_lookup(tgt) == lookup_from(self.spec_entries(), tgt, i as int),
                self.spec_lookup(tgt) is Ok,
            decreases self.entries@.len() - i,
        {
            let text = &self.entries[i].1;
            assert(self.spec_entries()[i as int].1 == text@);
            let of = OpinionFile::from_bytes(text.as_str().as_bytes());
            if of.find_elf(tgt).is_some() {
                return Some(self.entries[i].0);
            }
            i = i + 1;
        }
        None
    }

    /// The family of the first document, in order, that lists the ELF
    /// machine number `tgt`; or the first document that is unreadable or
    /// holds a malformed value before the answer is found.
    pub fn try_lookup_elf(&self, tgt: u64) -> (r: Result<Option<UnidisArch>, OpinionError>)
        ensures
            r == self.spec_lookup(tgt),
    {
        let mut i: usize = 0;
        while i < self.entries.len()
            invariant
                i <= self.entries@.len(),
                self.spec_lookup(tgt) == lookup_from(self.spec_entries(), tgt, i as int),
            decreases self.entries@.len() - i,
        {
            let text = &self.entries[i].1;
            assert(self.spec_entries()[i as int].1 == text@);
            let of = match OpinionFile::try_from_bytes(text.as_str().as_bytes()) {
                Ok(f) => f,
                Err(_) => return Err(OpinionError::Unreadable { index: i }),
            };
            match of.scan_elf(tgt) {
                ElfScan::Found => return Ok(self.lookup_elf(tgt)),
                ElfScan::Malformed => return Err(OpinionError::MalformedPrimary { index: i }),
                ElfScan::NotFound => {},
            }
            i = i + 1;
        }
        Ok(self.lookup_elf(tgt))
    }
}

/// Opinions taken from one library answer every lookup alike: the answer
/// depends on the library's documents and the machine number alone.
pub proof fn lemma_lookup_depends_on_library(o1: Opinions, o2: Opinions, lib: SpecLibrary, tgt: u64)
    requires
        o1.spec_entries() == opinions_of(lib),
        o2.spec_entries() == opinions_of(lib),
    ensures
        o1.spec_lookup(tgt) == o2.spec_lookup(tgt),
{
}

/// Once a prefix has settled on an outcome, the whole sequence has.
proof fn lemma_first_scan_settled(s: Seq<ElfScan>, k: int)
    requires
        0 <= k <= s.len(),
        first_scan(s.take(k)) != ElfScan::NotFound,
    ensures
        first_scan(s) == first_scan(s.take(k)),
    decreases s.len() - k,
{
    if k < s.len() {
        lemma_first_scan_step(s, k);
        lemma_first_scan_settled(s, k + 1);
    } else {
        assert(s.take(k) == s);
    }
}

} // verus!
