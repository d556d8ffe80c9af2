use unidis::arch::{arches, ArchFiles, SpecLibrary, UnidisArch};
use unidis::cspec::{CompilerSpec, CspecRetaddr};
use unidis::opinion::{ElfScan, OpinionError, OpinionFile, Opinions};
use unidis::xml::{parse_xml, XmlNode};

const X86_OPINION: &str = r#"<opinions>
    <constraint loader="Portable Executable (PE)" compilerSpecID="windows">
        <constraint primary="332" processor="x86" endian="little" size="32" />
    </constraint>
    <constraint loader="Executable and Linking Format (ELF)" compilerSpecID="gcc">
        <constraint primary="3" processor="x86" endian="little" size="32" />
        <constraint primary="62" processor="x86" endian="little" size="64" />
        <constraint processor="x86" endian="little" size="64">
            <constraint primary="1000" />
        </constraint>
    </constraint>
</opinions>"#;

const ARM_OPINION: &str = r#"<opinions>
    <constraint loader="Executable and Linking Format (ELF)" compilerSpecID="default">
        <constraint primary="40" processor="ARM" endian="little" size="32" variant="v8" />
        <constraint primary="62" processor="ARM" endian="little" size="32" />
    </constraint>
</opinions>"#;

const BAD_OPINION: &str = r#"<opinions>
    <constraint loader="Executable and Linking Format (ELF)">
        <constraint primary="forty" processor="ARM" />
    </constraint>
</opinions>"#;

fn library(opinions: &[(usize, &str)]) -> SpecLibrary {
    let mut files: Vec<ArchFiles> = (0..arches().len())
        .map(|_| ArchFiles { pspec: String::new(), sla: vec![], opinion: "<opinions/>".to_string() })
        .collect();
    for (i, text) in opinions {
        files[*i].opinion = text.to_string();
    }
    SpecLibrary { files }
}

#[test]
fn xml_model_reads_names_attributes_children() {
    let e = parse_xml(br#"<a x="1" b="2"><c/>text<d y="3"/></a>"#).unwrap();
    assert_eq!(e.name, "a");
    assert_eq!(e.attributes, vec![("b".to_string(), "2".to_string()), ("x".to_string(), "1".to_string())]);
    assert_eq!(e.attribute("x").map(|s| s.as_str()), Some("1"));
    assert_eq!(e.attribute("z"), None);
    assert_eq!(e.children.len(), 3);
    assert!(matches!(e.children[1], XmlNode::Other));
    assert_eq!(e.get_child("d").unwrap().attribute("y").map(|s| s.as_str()), Some("3"));
    assert!(e.get_child("e").is_none());
    assert!(parse_xml(b"<a>").is_err());
    assert!(parse_xml(b"not xml").is_err());
}

#[test]
fn opinion_file_finds_elf_machines() {
    let f = OpinionFile::from_bytes(X86_OPINION.as_bytes());
    assert_eq!(f.find_elf(62), Some(()));
    assert_eq!(f.find_elf(3), Some(()));
    assert_eq!(f.find_elf(1000), Some(()));
    assert_eq!(f.find_elf(332), None);
    assert_eq!(f.find_elf(40), None);
    assert_eq!(f.scan_elf(41), ElfScan::NotFound);
}

#[test]
fn opinion_file_with_a_bad_number() {
    let f = OpinionFile::try_from_bytes(BAD_OPINION.as_bytes()).ok().unwrap();
    assert_eq!(f.scan_elf(40), ElfScan::Malformed);
    assert!(OpinionFile::try_from_bytes(b"<opinions>").is_err());
}

#[test]
fn opinions_answer_in_specification_order() {
    let lib = library(&[(0, X86_OPINION), (3, ARM_OPINION)]);
    let o = Opinions::new(&lib);
    assert_eq!(o.entries.len(), 22);
    assert_eq!(o.lookup_elf(62), Some(UnidisArch::X86_64));
    assert_eq!(o.lookup_elf(40), Some(UnidisArch::Arm));
    assert_eq!(o.lookup_elf(7), None);
    assert_eq!(o.try_lookup_elf(40), Ok(Some(UnidisArch::Arm)));
    assert_eq!(o.try_lookup_elf(7), Ok(None));
}

#[test]
fn opinions_report_broken_documents() {
    let lib = library(&[(1, BAD_OPINION), (3, ARM_OPINION)]);
    let o = Opinions::new(&lib);
    assert_eq!(o.try_lookup_elf(40), Err(OpinionError::MalformedPrimary { index: 1 }));
    let lib = library(&[(0, X86_OPINION), (2, "<broken")]);
    let o = Opinions::new(&lib);
    assert_eq!(o.try_lookup_elf(62), Ok(Some(UnidisArch::X86_64)));
    assert_eq!(o.try_lookup_elf(40), Err(OpinionError::Unreadable { index: 2 }));
}

#[test]
fn compiler_spec_return_address() {
    let reg = br#"<compiler_spec><returnaddress><register name="LR"/></returnaddress></compiler_spec>"#;
    let c = CompilerSpec::from_bytes(reg);
    assert!(matches!(c.return_addr, CspecRetaddr::Register { ref name } if name == "LR"));
    let mem = br#"<compiler_spec><data/><returnaddress><varnode space="stack" offset="-8" size="8"/></returnaddress></compiler_spec>"#;
    let c = CompilerSpec::try_from_bytes(mem).unwrap();
    match c.return_addr {
        CspecRetaddr::Varnode { space, offset, size } => {
            assert_eq!(space, "stack");
            assert_eq!(offset, -8);
            assert_eq!(size, 8);
        },
        _ => panic!("expected a varnode"),
    }
    assert_eq!(c.root.name, "compiler_spec");
}

#[test]
fn compiler_spec_without_a_return_address() {
    assert!(CompilerSpec::try_from_bytes(b"<compiler_spec/>").is_none());
    assert!(CompilerSpec::try_from_bytes(br#"<c><returnaddress><register/></returnaddress></c>"#).is_none());
    assert!(CompilerSpec::try_from_bytes(br#"<c><returnaddress><varnode space="s" offset="x" size="1"/></returnaddress></c>"#).is_none());
    assert!(CompilerSpec::try_from_bytes(br#"<c><returnaddress><pentry/></returnaddress></c>"#).is_none());
    assert!(CompilerSpec::try_from_bytes(b"<c>").is_none());
}
