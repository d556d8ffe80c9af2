use unidis::cli::{cli_step, CliEnd, CliStep};
use unidis::disasm::{decode_step, instruction_of, RunEnd, RunStep, UniDisInstruction};
use unidis::sleigh::{EngineError, NativeInstr, PcodeOp, Varnode};

fn native(address: u64, size: usize, mnemonic: &str) -> NativeInstr {
    NativeInstr { mnemonic: mnemonic.to_string(), body: String::new(), address, size }
}

fn instr(address: u64, bytes: Vec<u8>) -> UniDisInstruction {
    UniDisInstruction { res: native(address, bytes.len(), "NOP"), pcode: vec![], bytes }
}

fn failure(text: &str) -> EngineError {
    EngineError { message: text.to_string() }
}

#[test]
fn run_steps() {
    assert!(matches!(decode_step(Ok(None)), RunStep::Stop(RunEnd::EndOfData)));
    assert!(matches!(decode_step(Err(failure("bad"))), RunStep::Stop(RunEnd::EngineFailed(e)) if e.message == "bad"));
    assert!(matches!(decode_step(Ok(Some(instr(4, vec![])))), RunStep::Stop(RunEnd::EmptyInstruction(i)) if i.res.address == 4));
    assert!(matches!(decode_step(Ok(Some(instr(4, vec![0x90])))), RunStep::Push(i) if i.bytes == vec![0x90]));
}

#[test]
fn walk_steps() {
    assert!(matches!(cli_step(Ok(None), false), CliStep::Stop(CliEnd::Finished)));
    assert!(matches!(cli_step(Ok(None), true), CliStep::Stop(CliEnd::Finished)));
    assert!(matches!(cli_step(Err(failure("x")), false), CliStep::Record(None)));
    assert!(matches!(cli_step(Ok(Some(instr(0, vec![]))), false), CliStep::Stop(CliEnd::Stalled(_))));
    assert!(matches!(cli_step(Ok(Some(instr(0, vec![]))), true), CliStep::Record(Some(_))));
    assert!(matches!(cli_step(Ok(Some(instr(0, vec![1, 2]))), false), CliStep::Record(Some(i)) if i.bytes == vec![1, 2]));
}

#[test]
fn instruction_from_engine_answers() {
    let data = [0x10, 0x89, 0xf0, 0xc3];
    let op = PcodeOp { inputs: vec![Varnode { space: 1, offset: 0, size: 4 }], output: None };
    let i = instruction_of(Ok(native(1, 2, "MOV")), Ok(vec![op.clone()]), &data, 1).ok().unwrap();
    assert_eq!(i.bytes, vec![0x89, 0xf0]);
    assert_eq!(i.res.mnemonic, "MOV");
    assert_eq!(i.pcode.len(), 1);
    let e = instruction_of(Err(failure("native")), Err(failure("pcode")), &data, 1).err().unwrap();
    assert_eq!(e.message, "native");
    let e = instruction_of(Ok(native(1, 2, "MOV")), Err(failure("pcode")), &data, 1).err().unwrap();
    assert_eq!(e.message, "pcode");
}
