//! Reading an executable for the command line: the ELF image as plain values,
//! the family its machine number stands for, and the executable sections to
//! disassemble, in order.

use vstd::prelude::*;
use crate::arch::UnidisArch;
use crate::disasm::slice_range;
use crate::opinion::{OpinionError, Opinions};

verus! {

/// One section header of an ELF image, with its name from the section name
/// table when the table has one at its index.
pub struct ElfSection {
    pub name: Option<String>,
    pub flags: u64,
    pub kind: u32,
    pub offset: u64,
    pub size: u64,
    pub addr: u64,
}

/// An ELF image: its machine number and its section headers, in order.
pub struct ElfImage {
    pub machine: u16,
    pub sections: Vec<ElfSection>,
}

/// What parsing a file gave.
pub enum ElfParse {
    /// The file could not be parsed; the parser's message.
    Failed(String),
    /// The file is an object of another kind.
    Other,
    /// The file is an ELF image.
    Elf(ElfImage),
}

/// A section header as a value.
pub struct ElfSectionView {
    pub name: Option<Seq<char>>,
    pub flags: u64,
    pub kind: u32,
    pub offset: u64,
    pub size: u64,
    pub addr: u64,
}

/// An ELF image as a value.
pub struct ElfImageView {
    pub machine: u16,
    pub sections: Seq<ElfSectionView>,
}

/// What parsing a file gave, as a value.
pub enum ElfParseView {
    Failed(Seq<char>),
    Other,
    Elf(ElfImageView),
}

impl View for ElfSection {
    type V = ElfSectionView;

    open spec fn view(&self) -> ElfSectionView {
        ElfSectionView {
            name: match self.name {
                Some(n) => Some(n@),
                None => None,
            },
            flags: self.flags,
            kind: self.kind,
            offset: self.offset,
            size: self.size,
            addr: self.addr,
        }
    }
}

impl View for ElfImage {
    type V = ElfImageView;

    open spec fn view(&self) -> ElfImageView {
        ElfImageView { machine: self.machine, sections: self.sections@.map_values(|s: ElfSection| s@) }
    }
}

impl View for ElfParse {
    type V = ElfParseView;

    open spec fn view(&self) -> ElfParseView {
        match self {
            ElfParse::Failed(m) => ElfParseView::Failed(m@),
            ElfParse::Other => ElfParseView::Other,
            ElfParse::Elf(img) => ElfParseView::Elf(img@),
        }
    }
}

/// What goblin makes of a file's bytes.
pub uninterp spec fn elf_parse(data: Seq<u8>) -> ElfParseView;

/// Parses a file with `goblin::Object::parse` (goblin 0.10.7) and, for an ELF
/// image, reads its machine number and its section headers, each with its
/// name looked up in the section name table (`Strtab::get_at`, which answers
/// `None` for an offset it does not hold). The result is named, not stated:
/// it is whatever goblin makes of these bytes. That goblin answers a
/// malformed file with an error rather than a panic is its own design and is
/// not shown here from its source.
#[verifier::external_body]
fn read_elf(data: &[u8]) -> (r: ElfParse)
    ensures
        r@ == elf_parse(data@),
{
    match goblin::Object::parse(data) {
        Err(e) => ElfParse::Failed(e.to_string()),
        Ok(goblin::Object::Elf(elf)) => ElfParse::Elf(ElfImage {
            machine: elf.header.e_machine,
            sections: elf.section_headers.iter().map(|h| ElfSection {
                name: elf.shdr_strtab.get_at(h.sh_name).map(|s| s.to_string()),
                flags: h.sh_flags, kind: h.sh_type, offset: h.sh_offset, size: h.sh_size, addr: h.sh_addr,
            }).collect(),
        }),
        Ok(_) => ElfParse::Other,
    }
}

/// A section is executable when its flags have both `SHF_ALLOC` and
/// `SHF_EXECINSTR` in their low 32 bits (goblin's `is_executable`).
pub open spec fn is_executable(flags: u64) -> bool {
    (flags as u32) & 2u32 == 2u32 && (flags as u32) & 4u32 == 4u32
}

/// Whether a section is executable.
pub fn section_is_executable(flags: u64) -> (b: bool)
    ensures
        b == is_executable(flags),
{
    (flags as u32) & 2u32 == 2u32 && (flags as u32) & 4u32 == 4u32
}

/// Where a section's contents lie in the file: none for a section that
/// occupies no file space (`SHT_NOBITS`), otherwise from its offset over its
/// size, the end saturating (goblin's `file_range`).
pub open spec fn file_range(kind: u32, offset: u64, size: u64) -> Option<(usize, usize)> {
    if kind == 8 {
        None
    } else {
        Some(((offset as usize), (offset as usize).saturating_add(size as usize)))
    }
}

/// Where a section's contents lie in the file.
pub fn section_file_range(kind: u32, offset: u64, size: u64) -> (r: Option<(usize, usize)>)
    ensures
        r == file_range(kind, offset, size),
{
    if kind == 8 {
        None
    } else {
        Some(((offset as usize), (offset as usize).saturating_add(size as usize)))
    }
}

/// The executable sections, in order.
pub open spec fn executable_sections(secs: Seq<ElfSectionView>) -> Seq<ElfSectionView>
    decreases secs.len(),
{
    if secs.len() == 0 {
        Seq::<ElfSectionView>::empty()
    } else if is_executable(secs.last().flags) {
        executable_sections(secs.drop_last()).push(secs.last())
    } else {
        executable_sections(secs.drop_last())
    }
}

/// What to do with one executable section.
pub enum SectionStep {
    /// Disassemble these bytes, loaded at `addr`.
    Disassemble { name: String, bytes: Vec<u8>, addr: u64 },
    /// The section has no name in the name table.
    MissingName,
    /// The section occupies no file space.
    MissingRange { name: String },
    /// The section's range is not inside the file.
    OutsideFile { name: String },
}

/// The step for an executable section of a file holding `data`: its name is
/// needed first, then its range, which must lie inside the file.
pub open spec fn step_matches(st: SectionStep, sec: ElfSectionView, data: Seq<u8>) -> bool {
    match sec.name {
        None => st is MissingName,
        Some(n) => match file_range(sec.kind, sec.offset, sec.size) {
            None => st matches SectionStep::MissingRange { name } && name@ == n,
            Some(range) => if range.1 <= data.len() {
                st matches SectionStep::Disassemble { name, bytes, addr } && name@ == n
                    && bytes@ == data.subrange(range.0 as int, range.1 as int) && addr == sec.addr
            } else {
                st matches SectionStep::OutsideFile { name } && name@ == n
            },
        },
    }
}

/// The steps for the executable sections `ex`, in order, up to and including
/// the first that cannot be disassembled.
pub open spec fn steps_match(steps: Seq<SectionStep>, ex: Seq<ElfSectionView>, data: Seq<u8>) -> bool {
    &&& steps.len() <= ex.len()
    &&& forall|k: int| 0 <= k < steps.len() ==> step_matches(#[trigger] steps[k], ex[k], data)
    &&& forall|k: int| 0 <= k < steps.len() - 1 ==> (#[trigger] steps[k]) is Disassemble
    &&& steps.len() < ex.len() ==> steps.len() > 0 && !(steps.last() is Disassemble)
}

/// The step for one executable section.
fn section_step(sec: &ElfSection, data: &[u8]) -> (st: SectionStep)
    ensures
        step_matches(st, sec@, data@),
{
    let name = match &sec.name {
        None => return SectionStep::MissingName,
        Some(n) => n.clone(),
    };
    match section_file_range(sec.kind, sec.offset, sec.size) {
        None => SectionStep::MissingRange { name },
        Some(range) => {
            if range.1 <= data.len() {
                let bytes = slice_range(data, range.0, range.1);
                SectionStep::Disassemble { name, bytes, addr: sec.addr }
            } else {
                SectionStep::OutsideFile { name }
            }
        },
    }
}

/// The steps for the executable sections of an image read from `data`, in
/// order, up to and including the first that cannot be disassembled.
pub fn section_steps(img: &ElfImage, data: &[u8]) -> (steps: Vec<SectionStep>)
    ensures
        steps_match(steps@, executable_sections(img@.sections), data@),
{
    let ghost secs = img@.sections;
    let mut steps: Vec<SectionStep> = Vec::new();
    let mut i: usize = 0;
    while i < img.sections.len()
        invariant
            secs == img@.sections,
            i <= secs.len(),
            steps_match(steps@, executable_sections(secs.take(i as int)), data@),
            steps@.len() == executable_sections(secs.take(i as int)).len(),
            forall|k: int| 0 <= k < steps@.len() ==> (#[trigger] steps@[k]) is Disassemble,
        decreases secs.len() - i,
    {
        let sec = &img.sections[i];
        proof {
            assert(secs.take(i + 1).drop_last() == secs.take(i as int));
            assert(secs[i as int] == sec@);
        }
        if section_is_executable(sec.flags) {
            let st = section_step(sec, data);
            let ok = matches!(st, SectionStep::Disassemble { .. });
            let ghost before = steps@;
            steps.push(st);
            proof {
                assert(steps@.drop_last() == before);
                assert(executable_sections(secs.take(i + 1)) == executable_sections(secs.take(i as int)).push(sec@));
            }
            if !ok {
                proof {
                    assert(steps_match(steps@, executable_sections(secs.take(i + 1)), data@));
                    lemma_prefix_steps(secs, i as int + 1);
                }
                return steps;
            }
        }
        i = i + 1;
    }
    proof {
        assert(secs.take(i as int) == secs);
    }
    steps
}

/// The executable sections of a prefix are a prefix of those of the whole.
proof fn lemma_prefix_steps(secs: Seq<ElfSectionView>, n: int)
    requires
        0 <= n <= secs.len(),
    ensures
        executable_sections(secs.take(n)).len() <= executable_sections(secs).len(),
        forall|k: int| 0 <= k < executable_sections(secs.take(n)).len() ==>
            #[trigger] executable_sections(secs.take(n))[k] == executable_sections(secs)[k],
    decreases secs.len() - n,
{
    if n < secs.len() {
        lemma_prefix_steps(secs, n + 1);
        let a = executable_sections(secs.take(n));
        let b = executable_sections(secs.take(n + 1));
        assert(secs.take(n + 1).drop_last() == secs.take(n));
        assert forall|k: int| 0 <= k < a.len() implies #[trigger] a[k] == executable_sections(secs)[k] by {
            assert(a[k] == b[k]);
        }
    } else {
        assert(secs.take(n) == secs);
    }
}

/// Why a file cannot be disassembled at all.
pub enum BinaryError {
    /// The file could not be parsed; the parser's message.
    ParseFailed(String),
    /// The file is not an ELF image.
    NotElf,
    /// No opinion document lists the image's machine number.
    NoOpinion(u16),
    /// An opinion document could not be read.
    OpinionFailed(OpinionError),
}

/// The family to disassemble with and the steps for the executable sections.
pub struct BinaryPlan {
    pub arch: UnidisArch,
    pub steps: Vec<SectionStep>,
}

/// Plans the disassembly of a file: parses it, looks its machine number up
/// in the opinion documents (a family given by the user is taken in place of
/// the answer, but the answer is still needed), and lists the steps for its
/// executable sections.
pub fn plan_binary(data: &[u8], arch: Option<UnidisArch>, opinions: &Opinions) -> (r: Result<BinaryPlan, BinaryError>)
    ensures
        match elf_parse(data@) {
            ElfParseView::Failed(m) => r matches Err(BinaryError::ParseFailed(s)) && s@ == m,
            ElfParseView::Other => r matches Err(BinaryError::NotElf),
            ElfParseView::Elf(img) => match opinions.spec_lookup(img.machine as u64) {
                Err(e) => r matches Err(BinaryError::OpinionFailed(e2)) && e2 == e,
                Ok(None) => r matches Err(BinaryError::NoOpinion(m)) && m == img.machine,
                Ok(Some(a)) => r matches Ok(p) && p.arch == (match arch {
                    Some(x) => x,
                    None => a,
                }) && steps_match(p.steps@, executable_sections(img.sections), data@),
            },
        },
{
    let img = match read_elf(data) {
        ElfParse::Failed(m) => return Err(BinaryError::ParseFailed(m)),
        ElfParse::Other => return Err(BinaryError::NotElf),
        ElfParse::Elf(img) => img,
    };
    let found = match opinions.try_lookup_elf(img.machine as u64) {
        Err(e) => return Err(BinaryError::OpinionFailed(e)),
        Ok(None) => return Err(BinaryError::NoOpinion(img.machine)),
        Ok(Some(a)) => a,
    };
    let family = match arch {
        Some(x) => x,
        None => found,
    };
    Ok(BinaryPlan { arch: family, steps: section_steps(&img, data) })
}

} // verus!
