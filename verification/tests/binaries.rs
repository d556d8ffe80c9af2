use unidis::arch::{arches, ArchFiles, SpecLibrary, UnidisArch};
use unidis::cli::dis_binary;
use unidis::elf::{plan_binary, section_file_range, section_is_executable, BinaryError, SectionStep};
use unidis::opinion::Opinions;

const X86_OPINION: &str = r#"<opinions>
    <constraint loader="Executable and Linking Format (ELF)" compilerSpecID="gcc">
        <constraint primary="62" processor="x86" endian="little" size="64" />
    </constraint>
</opinions>"#;

fn library() -> SpecLibrary {
    let mut files: Vec<ArchFiles> = (0..arches().len())
        .map(|_| ArchFiles { pspec: "broken".to_string(), sla: vec![], opinion: "<opinions/>".to_string() })
        .collect();
    files[0].opinion = X86_OPINION.to_string();
    SpecLibrary { files }
}

fn put16(b: &mut Vec<u8>, v: u16) {
    b.extend_from_slice(&v.to_le_bytes());
}

fn put32(b: &mut Vec<u8>, v: u32) {
    b.extend_from_slice(&v.to_le_bytes());
}

fn put64(b: &mut Vec<u8>, v: u64) {
    b.extend_from_slice(&v.to_le_bytes());
}

fn section(b: &mut Vec<u8>, name: u32, kind: u32, flags: u64, addr: u64, offset: u64, size: u64) {
    put32(b, name);
    put32(b, kind);
    put64(b, flags);
    put64(b, addr);
    put64(b, offset);
    put64(b, size);
    put32(b, 0);
    put32(b, 0);
    put64(b, 1);
    put64(b, 0);
}

/// A small x86-64 ELF file: an executable `.text` of four bytes, an
/// executable `.bss` that occupies no file space, and the name table.
fn small_elf(machine: u16) -> Vec<u8> {
    let mut b = vec![0x7f, b'E', b'L', b'F', 2, 1, 1, 0, 0, 0, 0, 0, 0, 0, 0, 0];
    put16(&mut b, 2);
    put16(&mut b, machine);
    put32(&mut b, 1);
    put64(&mut b, 0x401000);
    put64(&mut b, 0);
    put64(&mut b, 96);
    put32(&mut b, 0);
    put16(&mut b, 64);
    put16(&mut b, 56);
    put16(&mut b, 0);
    put16(&mut b, 64);
    put16(&mut b, 4);
    put16(&mut b, 3);
    assert_eq!(b.len(), 64);
    b.extend_from_slice(&[0x90, 0x90, 0xc3, 0x90]);
    b.extend_from_slice(b"\0.text\0.bss\0.shstrtab\0");
    while b.len() < 96 {
        b.push(0);
    }
    section(&mut b, 0, 0, 0, 0, 0, 0);
    section(&mut b, 1, 1, 6, 0x401000, 64, 4);
    section(&mut b, 7, 8, 6, 0x402000, 68, 16);
    section(&mut b, 12, 3, 0, 0, 68, 22);
    b
}

#[test]
fn section_flags_and_ranges() {
    assert!(section_is_executable(6));
    assert!(section_is_executable(0x1_0000_0006));
    assert!(!section_is_executable(4));
    assert!(!section_is_executable(2));
    assert_eq!(section_file_range(8, 10, 5), None);
    assert_eq!(section_file_range(1, 10, 5), Some((10, 15)));
    assert_eq!(section_file_range(1, u64::MAX, 5), Some((usize::MAX, usize::MAX)));
}

#[test]
fn plan_of_a_small_executable() {
    let data = small_elf(62);
    let o = Opinions::new(&library());
    let plan = plan_binary(&data, None, &o).ok().unwrap();
    assert_eq!(plan.arch, UnidisArch::X86_64);
    assert_eq!(plan.steps.len(), 2);
    match &plan.steps[0] {
        SectionStep::Disassemble { name, bytes, addr } => {
            assert_eq!(name, ".text");
            assert_eq!(bytes, &vec![0x90, 0x90, 0xc3, 0x90]);
            assert_eq!(*addr, 0x401000);
        },
        _ => panic!("expected the text section"),
    }
    assert!(matches!(&plan.steps[1], SectionStep::MissingRange { name } if name == ".bss"));
    let forced = plan_binary(&data, Some(UnidisArch::Riscv), &o).ok().unwrap();
    assert_eq!(forced.arch, UnidisArch::Riscv);
}

#[test]
fn plan_refusals() {
    let o = Opinions::new(&library());
    assert!(matches!(plan_binary(b"abc", None, &o), Err(BinaryError::ParseFailed(_))));
    assert!(matches!(plan_binary(b"this is certainly not an object file", None, &o), Err(BinaryError::NotElf)));
    let other = small_elf(40);
    assert!(matches!(plan_binary(&other, Some(UnidisArch::Arm), &o), Err(BinaryError::NoOpinion(40))));
}

#[test]
fn command_line_section_needs_an_engine() {
    let lib = library();
    let mut count = Some(5i64);
    assert!(dis_binary(UnidisArch::X86_64, vec![0x90], &mut count, &lib).is_err());
    assert_eq!(count, Some(5));
}
