use unidis::arch::{arches, default_index, ArchFiles, SpecLibrary, UnidisArch};
use unidis::archmap::{arch_map_get, get_arch_map, text_order, TextOrder};
use unidis::assemble::{assemble_plan, AsmArch, AsmMode, AssembleError, AssemblyPlan};
use unidis::numbers::{IntErrorKind, ParseIntError};
use unidis::page::{arch_choices, handle_post, index_get_page, index_page, DisReq, PostOutcome};
use unidis::web::{disassemble_impl, guess_arch, is_guess_request, pick_best, DisasmError, HexError};
use unidis::disasm::UniDis;

/// A library whose processor specifications are not documents at all, so that
/// no engine can be built from it.
fn broken_library() -> SpecLibrary {
    SpecLibrary {
        files: (0..arches().len())
            .map(|_| ArchFiles { pspec: "not a document".to_string(), sla: vec![1, 2, 3], opinion: String::new() })
            .collect(),
    }
}

#[test]
fn arches_are_listed_in_order() {
    let a = arches();
    assert_eq!(a.len(), 22);
    assert_eq!(a[0].arch_id, "X86_64::LE::default");
    assert_eq!(a[0].arch, UnidisArch::X86_64);
    assert_eq!(a[0].sla, "x86-64.sla");
    assert_eq!(a[15].arch, UnidisArch::Hexagon);
    assert_eq!(a[21].arch_id, "AArch64::LE::Apple-Silicon");
}

#[test]
fn each_family_has_a_default_of_that_family() {
    let a = arches();
    for f in [UnidisArch::X86_64, UnidisArch::Arm, UnidisArch::Hexagon, UnidisArch::Riscv, UnidisArch::AArch64] {
        assert_eq!(a[default_index(f)].arch, f);
    }
    assert_eq!(a[default_index(UnidisArch::Arm)].arch_id, "ARM::LE::V8");
    assert_eq!(a[default_index(UnidisArch::Riscv)].arch_id, "RISCV::64::LE::default");
}

#[test]
fn identifier_map_is_sorted_and_complete() {
    let m = get_arch_map();
    assert_eq!(m.len(), 22);
    for w in m.windows(2) {
        assert!(w[0].0 < w[1].0);
    }
    assert_eq!(m[0].0, "AArch64::BE::default");
    assert_eq!(arch_map_get(&m, "X86_64::LE::default"), Some(UnidisArch::X86_64));
    assert_eq!(arch_map_get(&m, "QDSP6::LE::default"), Some(UnidisArch::Hexagon));
    assert_eq!(arch_map_get(&m, "RISCV::32::LE::default"), Some(UnidisArch::Riscv));
    assert_eq!(arch_map_get(&m, "x86_64::LE::default"), None);
    assert_eq!(arch_map_get(&m, ""), None);
}

#[test]
fn texts_compare_like_str() {
    assert_eq!(text_order("ARM", "ARMv"), TextOrder::Before);
    assert_eq!(text_order("b", "a"), TextOrder::After);
    assert_eq!(text_order("same", "same"), TextOrder::Same);
    assert_eq!(text_order("", "a"), TextOrder::Before);
    assert!(is_guess_request("Guess for me"));
    assert!(!is_guess_request("Guess for me "));
}

#[test]
fn best_guess_takes_the_first_largest() {
    assert_eq!(pick_best(&vec![]), UnidisArch::Arm);
    assert_eq!(pick_best(&vec![(UnidisArch::X86_64, 0)]), UnidisArch::Arm);
    assert_eq!(pick_best(&vec![(UnidisArch::X86_64, 4), (UnidisArch::Riscv, 4)]), UnidisArch::X86_64);
    assert_eq!(
        pick_best(&vec![(UnidisArch::X86_64, 2), (UnidisArch::Riscv, 6), (UnidisArch::AArch64, 5)]),
        UnidisArch::Riscv
    );
}

#[test]
fn engine_refuses_a_broken_specification() {
    let r = UniDis::new(vec![0x90], "not a document", &[0, 1]);
    assert!(r.is_err());
    let lib = broken_library();
    assert!(UniDis::new_arch(vec![0x90], UnidisArch::X86_64, &lib).is_err());
}

#[test]
fn foo() {
    let lib = broken_library();
    assert!(guess_arch(b"Test", &lib).is_err());
    assert_eq!(
        assemble_plan("nop", "0x0", "X86_64::LE::default"),
        Ok(AssemblyPlan { arch: AsmArch::X86, mode: AsmMode::Mode64, base_addr: 0 })
    );
}

#[test]
fn disassembly_refusals_in_order() {
    let lib = broken_library();
    let r = disassemble_impl("", "zz", "nope", true, true, &lib);
    assert!(matches!(r, Err(DisasmError::NoInput)));
    assert_eq!(r.unwrap_err().message(), "Give me something to disassemble first");
    let r = disassemble_impl("zz", "0xq", "nope", true, true, &lib);
    assert!(matches!(r, Err(DisasmError::BadNumber(ParseIntError { kind: IntErrorKind::InvalidDigit }))));
    assert_eq!(r.unwrap_err().message(), "Failed to parse number");
    let r = disassemble_impl("9", "0", "nope", true, true, &lib);
    assert!(matches!(r, Err(DisasmError::BadHex(HexError::OddLength))));
    assert_eq!(r.unwrap_err().message(), "I can't decode that as hex, sorry");
    let r = disassemble_impl("90", "0", "nope", true, true, &lib);
    assert!(matches!(r, Err(DisasmError::BadArch)));
    assert_eq!(r.unwrap_err().message(), "Bad arch");
    let r = disassemble_impl("90", "0", "X86_64::LE::default", true, true, &lib);
    assert!(matches!(r, Err(DisasmError::CreateFailed(_))));
    assert_eq!(r.unwrap_err().message(), "Failed to create arch");
    let r = disassemble_impl("90", "0", "Guess for me", true, true, &lib);
    assert!(matches!(r, Err(DisasmError::GuessFailed(_))));
    assert!(r.unwrap_err().message().starts_with("Failed to guess arch: "));
}

#[test]
fn assembly_plans() {
    assert_eq!(assemble_plan("", "0", "X86_64::LE::default"), Err(AssembleError::NoInput));
    assert_eq!(
        assemble_plan("nop", "1x", "X86_64::LE::default"),
        Err(AssembleError::BadNumber(ParseIntError { kind: IntErrorKind::InvalidDigit }))
    );
    assert_eq!(assemble_plan("nop", "16", "Guess for me"), Err(AssembleError::NoGuess));
    assert_eq!(assemble_plan("nop", "16", "MIPS"), Err(AssembleError::ArchNotFound));
    assert_eq!(assemble_plan("nop", "16", "RISCV::64::LE::default"), Err(AssembleError::Unsupported));
    assert_eq!(
        assemble_plan("nop", "16", "ARM::BE::V7"),
        Ok(AssemblyPlan { arch: AsmArch::Arm, mode: AsmMode::V8, base_addr: 16 })
    );
    assert_eq!(
        assemble_plan("nop", "0x20", "AArch64::BE::default"),
        Ok(AssemblyPlan { arch: AsmArch::Arm64, mode: AsmMode::LittleEndian, base_addr: 32 })
    );
    assert_eq!(
        assemble_plan("nop", "0", "QDSP6::LE::default"),
        Ok(AssemblyPlan { arch: AsmArch::Hexagon, mode: AsmMode::LittleEndian, base_addr: 0 })
    );
    assert_eq!(AssembleError::NoGuess.message(), "I can't guess what architecture you want to assemble for!");
    assert_eq!(
        AssembleError::Unsupported.message(),
        "Unsupported architecture, currently we can only assemble for:\n- X86_64\n- Arm\n- ARM64\n- Hexagon\n"
    );
    assert_eq!(AssembleError::ArchNotFound.message(), "Arch not found");
}

#[test]
fn choices_mark_the_selected_identifier() {
    let c = arch_choices("ARM::LE::V8");
    assert_eq!(c.len(), 22);
    assert_eq!(c.iter().filter(|p| p.1).count(), 1);
    assert!(c.iter().any(|p| p.0 == "ARM::LE::V8" && p.1));
    assert_eq!(arch_choices("nothing").iter().filter(|p| p.1).count(), 0);
    let p = index_page("out".to_string(), "90".to_string(), false, true, "X86_64::LE::default", "T".to_string());
    assert_eq!(p.output, "out");
    assert!(!p.with_bytes && p.with_address);
    assert!(p.arches.iter().any(|c| c.0 == "X86_64::LE::default" && c.1));
}

#[test]
fn first_page_is_empty() {
    let p = index_get_page();
    assert_eq!(p.output, "");
    assert_eq!(p.input_data, "");
    assert!(p.with_bytes && p.with_address);
    assert_eq!(p.output_title, "Output");
    assert!(p.arches.iter().all(|c| !c.1));
}

fn form(mode: &str, input: &str, arch: &str, base: &str) -> DisReq {
    DisReq {
        mode: mode.to_string(),
        input_data: input.to_string(),
        arch: arch.to_string(),
        base_addr: base.to_string(),
        with_bytes: Some("on".to_string()),
        with_addr: None,
    }
}

#[test]
fn form_answers() {
    let lib = broken_library();
    assert!(matches!(
        handle_post(&form("DISASSEMBLE", "90", "X86_64::LE::default", "0xz"), &lib),
        PostOutcome::BadBaseAddr(ParseIntError { kind: IntErrorKind::InvalidDigit })
    ));
    assert!(matches!(handle_post(&form("ASSEMBLE", "zz", "x", "0x10"), &lib), PostOutcome::Assemble(16)));
    assert!(matches!(
        handle_post(&form("DISASSEMBLE", "zz", "x", "0"), &lib),
        PostOutcome::BadHex(HexError::InvalidHexCharacter { c: 'z', index: 0 })
    ));
    let long = "00".repeat(129);
    assert!(matches!(handle_post(&form("DISASSEMBLE", &long, "x", "0"), &lib), PostOutcome::TooLong));
    let exact = "00".repeat(128);
    assert!(matches!(handle_post(&form("DISASSEMBLE", &exact, "x", "0"), &lib), PostOutcome::ArchNotFound));
    assert!(matches!(
        handle_post(&form("DISASSEMBLE", "90", "X86_64::LE::default", "0"), &lib),
        PostOutcome::EngineFailed(_)
    ));
    assert!(matches!(handle_post(&form("DISASSEMBLE", "90", "Guess for me", "0"), &lib), PostOutcome::EngineFailed(_)));
}
