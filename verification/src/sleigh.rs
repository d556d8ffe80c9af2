//! The boundary with the SLEIGH engine: the engine's types, the calls into it,
//! and the plain values that its results are turned into.

use vstd::prelude::*;
use libsla::{Address, GhidraSleigh, InstructionBytes, Sleigh, VarnodeData};

verus! {

#[verifier::external_type_specification]
#[verifier::external_body]
pub struct ExGhidraSleigh(GhidraSleigh);

#[verifier::external_type_specification]
#[verifier::external_body]
pub struct ExInstructionBytes(InstructionBytes);

#[verifier::external_type_specification]
#[verifier::external_body]
pub struct ExSleighError(libsla::Error);

/// A varnode: `size` bytes at `offset` in the address space `space`.
///
/// The space is identified by the engine's identifier for it, which is unique
/// within one engine instance.
#[derive(PartialEq, Eq, Structural, Clone, Copy, Debug)]
pub struct Varnode {
    pub space: usize,
    pub offset: u64,
    pub size: usize,
}

/// One p-code operation: the varnodes it reads and the one it writes, if any.
#[derive(Clone, Debug)]
pub struct PcodeOp {
    pub inputs: Vec<Varnode>,
    pub output: Option<Varnode>,
}

/// One native instruction as the engine renders it.
#[derive(Clone, Debug)]
pub struct NativeInstr {
    /// The mnemonic, such as `MOV`.
    pub mnemonic: String,
    /// The operands as one text, such as `EAX,ESI`.
    pub body: String,
    /// The offset in the code space at which the instruction starts.
    pub address: u64,
    /// The number of bytes the instruction occupies.
    pub size: usize,
}

/// The bytes that an instruction loader serves to the engine.
pub uninterp spec fn loader_contents(l: InstructionBytes) -> Seq<u8>;

/// Whether libsla builds an engine from a processor specification and a
/// compiled sleigh specification.
pub uninterp spec fn sleigh_accepts(pspec: Seq<char>, sla: Seq<u8>) -> bool;

/// Builds a SLEIGH engine from a processor specification and a compiled
/// sleigh specification (`GhidraSleigh::builder().processor_spec(..)?.build(..)`).
/// The build parses the two documents and nothing else, so whether it
/// succeeds is named as a function of them (`sleigh_accepts`); nothing is
/// claimed of the engine built.
#[verifier::external_body]
pub(crate) fn sleigh_build(pspec: &str, sla: &[u8]) -> (r: Result<GhidraSleigh, libsla::Error>)
    ensures
        r is Ok <==> sleigh_accepts(pspec@, sla@),
{
    GhidraSleigh::builder().processor_spec(pspec)?.build(sla)
}

/// Wraps `InstructionBytes::new`, which keeps the bytes as they are.
#[verifier::external_body]
pub(crate) fn loader_new(data: Vec<u8>) -> (l: InstructionBytes)
    ensures
        loader_contents(l) == data@,
{
    InstructionBytes::new(data)
}

/// Wraps `Sleigh::disassemble_native` at `offset` in the engine's default code
/// space. In libsla 1.2.0 a success reports the address it was asked for as its
/// origin, and is only returned when the loader holds every byte of the
/// instruction (`handle_disassembly_response` checks this with
/// `InstructionBytes::load_instruction_bytes`, which refuses a start at or past
/// the end). Which instruction is found is not stated.
#[verifier::external_body]
pub(crate) fn sleigh_disassemble_native(sleigh: &GhidraSleigh, loader: &InstructionBytes, offset: u64)
    -> (r: Result<NativeInstr, libsla::Error>)
    ensures
        r matches Ok(n) ==> {
            &&& n.address == offset
            &&& offset < loader_contents(*loader).len()
            &&& offset + n.size <= loader_contents(*loader).len()
        },
{
    let at = Address::new(sleigh.default_code_space(), offset);
    match sleigh.disassemble_native(loader, at) {
        Ok(n) => Ok(NativeInstr {
            mnemonic: n.instruction.mnemonic,
            body: n.instruction.body,
            address: n.origin.address.offset,
            size: n.origin.size,
        }),
        Err(e) => Err(e),
    }
}

/// Wraps `Sleigh::disassemble_pcode` at `offset` in the engine's default code
/// space, keeping each operation's inputs and output. Nothing is claimed of
/// the operations found.
#[verifier::external_body]
pub(crate) fn sleigh_disassemble_pcode(sleigh: &GhidraSleigh, loader: &InstructionBytes, offset: u64)
    -> Result<Vec<PcodeOp>, libsla::Error>
{
    let at = Address::new(sleigh.default_code_space(), offset);
    let v = |d: &VarnodeData| Varnode { space: d.address.address_space.id.raw_id(), offset: d.address.offset, size: d.size };
    match sleigh.disassemble_pcode(loader, at) {
        Ok(p) => Ok(p.instructions.iter().map(|i| PcodeOp { inputs: i.inputs.iter().map(v).collect(), output: i.output.as_ref().map(v) }).collect()),
        Err(e) => Err(e),
    }
}

} // verus!

verus! {

/// An error reported by the SLEIGH engine, kept as its message.
#[derive(Debug)]
pub struct EngineError {
    pub message: String,
}

/// The message of an engine error (its `Display` text, from `thiserror`).
/// Nothing is claimed of the text.
#[verifier::external_body]
pub(crate) fn engine_error_text(e: &libsla::Error) -> String {
    e.to_string()
}

/// Turns an engine error into the library's error.
pub fn engine_error(e: libsla::Error) -> EngineError {
    EngineError { message: engine_error_text(&e) }
}

} // verus!
