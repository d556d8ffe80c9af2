//! The disassembler: a cursor over a byte buffer that asks the SLEIGH engine
//! for one instruction at a time.

use vstd::prelude::*;
use libsla::{GhidraSleigh, InstructionBytes};
use crate::sleigh::{
    engine_error, loader_new, sleigh_build, sleigh_disassemble_native,
    sleigh_disassemble_pcode, EngineError, NativeInstr, PcodeOp, Varnode,
};
use crate::sleigh;
use crate::text::split_string;
use crate::text;
use crate::arch::{default_index, SpecLibrary, UnidisArch};
use crate::arch;

verus! {

/// All inputs of the operations, in order.
pub open spec fn flat_inputs(ops: Seq<PcodeOp>) -> Seq<Varnode>
    decreases ops.len(),
{
    if ops.len() == 0 {
        Seq::<Varnode>::empty()
    } else {
        flat_inputs(ops.drop_last()) + ops.last().inputs@
    }
}

/// `s` with each run of equal neighbours cut down to its first element
/// (what `Vec::dedup` leaves).
pub open spec fn dedup_runs(s: Seq<Varnode>) -> Seq<Varnode>
    decreases s.len(),
{
    if s.len() == 0 {
        s
    } else {
        let d = dedup_runs(s.drop_last());
        if d.len() > 0 && d.last() == s.last() {
            d
        } else {
            d.push(s.last())
        }
    }
}

/// `s` without its first occurrence of `x`, or `s` itself if `x` does not occur.
pub open spec fn remove_first(s: Seq<Varnode>, x: Varnode) -> Seq<Varnode>
    decreases s.len(),
{
    if s.len() == 0 {
        s
    } else if s[0] == x {
        s.drop_first()
    } else {
        seq![s[0]] + remove_first(s.drop_first(), x)
    }
}

/// `s` after removing, for each operation in order that writes a varnode, the
/// first occurrence of that varnode.
pub open spec fn remove_outputs(s: Seq<Varnode>, ops: Seq<PcodeOp>) -> Seq<Varnode>
    decreases ops.len(),
{
    if ops.len() == 0 {
        s
    } else {
        let r = remove_outputs(s, ops.drop_last());
        match ops.last().output {
            Some(o) => remove_first(r, o),
            None => r,
        }
    }
}

/// The varnodes an instruction reads that its own operations did not write
/// (as far as `input_varnodes` computes it).
pub open spec fn live_inputs(ops: Seq<PcodeOp>) -> Seq<Varnode> {
    remove_outputs(dedup_runs(flat_inputs(ops)), ops)
}

proof fn lemma_remove_at_first(s: Seq<Varnode>, x: Varnode, j: int)
    requires
        0 <= j < s.len(),
        s[j] == x,
        forall|k: int| 0 <= k < j ==> s[k] != x,
    ensures
        remove_first(s, x) == s.remove(j),
    decreases s.len(),
{
    if j > 0 {
        lemma_remove_at_first(s.drop_first(), x, j - 1);
        assert(s.remove(j) =~= seq![s[0]] + s.drop_first().remove(j - 1));
    } else {
        assert(s.remove(0) =~= s.drop_first());
    }
}

proof fn lemma_remove_absent(s: Seq<Varnode>, x: Varnode)
    requires
        forall|k: int| 0 <= k < s.len() ==> s[k] != x,
    ensures
        remove_first(s, x) == s,
    decreases s.len(),
{
    if s.len() > 0 {
        lemma_remove_absent(s.drop_first(), x);
        assert(s =~= seq![s[0]] + s.drop_first());
    }
}

/// A disassembled instruction: the engine's rendering, its p-code and its bytes.
pub struct UniDisInstruction {
    pub res: NativeInstr,
    pub pcode: Vec<PcodeOp>,
    pub bytes: Vec<u8>,
}

impl UniDisInstruction {
    /// The mnemonic, a space and the operands.
    pub fn to_str(&self) -> (out: String)
        ensures
            out@ == self.res.mnemonic@ + seq![' '] + self.res.body@,
    {
        let mut out = String::new();
        out.append(self.res.mnemonic.as_str());
        proof {
            reveal_strlit(" ");
        }
        out.append(" ");
        out.append(self.res.body.as_str());
        out
    }

    /// The varnodes the instruction reads: all inputs of its operations in
    /// order, neighbouring repeats cut, then for each operation that writes a
    /// varnode the first remaining occurrence of it removed.
    pub fn input_varnodes(&self) -> (all_in: Vec<Varnode>)
        ensures
            all_in@ == live_inputs(self.pcode@),
    {
        let ops = &self.pcode;
        let mut flat: Vec<Varnode> = Vec::new();
        let mut i: usize = 0;
        while i < ops.len()
            invariant
                i <= ops@.len(),
                flat@ == flat_inputs(ops@.take(i as int)),
            decreases ops@.len() - i,
        {
            let ins = &ops[i].inputs;
            let ghost before = flat@;
            let mut j: usize = 0;
            while j < ins.len()
                invariant
                    j <= ins@.len(),
                    flat@ == before + ins@.take(j as int),
                decreases ins@.len() - j,
            {
                flat.push(ins[j]);
                proof {
                    assert(ins@.take(j + 1) == ins@.take(j as int).push(ins@[j as int]));
                }
                j = j + 1;
            }
            proof {
                assert(ins@.take(j as int) == ins@);
                assert(ops@.take(i + 1).drop_last() == ops@.take(i as int));
            }
            i = i + 1;
        }
        proof {
            assert(ops@.take(i as int) == ops@);
        }
        let mut all_in: Vec<Varnode> = Vec::new();
        let mut k: usize = 0;
        while k < flat.len()
            invariant
                k <= flat@.len(),
                all_in@ == dedup_runs(flat@.take(k as int)),
            decreases flat@.len() - k,
        {
            let v = flat[k];
            proof {
                assert(flat@.take(k + 1).drop_last() == flat@.take(k as int));
            }
            if all_in.len() == 0 || all_in[all_in.len() - 1] != v {
                all_in.push(v);
            }
            k = k + 1;
        }
        proof {
            assert(flat@.take(k as int) == flat@);
        }
        let ghost base = all_in@;
        let mut m: usize = 0;
        while m < ops.len()
            invariant
                m <= ops@.len(),
                all_in@ == remove_outputs(base, ops@.take(m as int)),
            decreases ops@.len() - m,
        {
            proof {
                assert(ops@.take(m + 1).drop_last() == ops@.take(m as int));
            }
            match ops[m].output {
                Some(o) => {
                    let mut p: usize = 0;
                    while p < all_in.len() && all_in[p] != o
                        invariant
                            p <= all_in@.len(),
                            forall|q: int| 0 <= q < p ==> all_in@[q] != o,
                        decreases all_in@.len() - p,
                    {
                        p = p + 1;
                    }
                    let found = p < all_in.len();
                    if found {
                        proof {
                            lemma_remove_at_first(all_in@, o, p as int);
                        }
                        all_in.remove(p);
                    } else {
                        proof {
                            lemma_remove_absent(all_in@, o);
                        }
                    }
                },
                None => {},
            }
            m = m + 1;
        }
        proof {
            assert(ops@.take(m as int) == ops@);
        }
        all_in
    }

    /// The operands, split at every comma.
    pub fn args(&self) -> (args: Vec<String>)
        ensures
            args@.map_values(|p: String| p@) == text::split_by(self.res.body@, ','),
    {
        split_string(self.res.body.as_str(), ',')
    }

    /// The address at which the instruction starts.
    pub fn address(&self) -> (a: u64)
        ensures
            a == self.res.address,
    {
        self.res.address
    }

    /// The instruction's mnemonic.
    pub fn memonic(&self) -> (m: String)
        ensures
            m@ == self.res.mnemonic@,
    {
        self.res.mnemonic.clone()
    }

    /// The bytes the instruction occupies.
    pub fn bytes(&self) -> (b: &[u8])
        ensures
            b@ == self.bytes@,
    {
        self.bytes.as_slice()
    }
}

} // verus!

verus! {

/// Whether an engine is built from the files of the specification that
/// stands for the family `arch`.
pub open spec fn family_builds(lib: SpecLibrary, arch: UnidisArch) -> bool {
    let f = lib.files@[arch::spec_default_index(arch)];
    sleigh::sleigh_accepts(f.pspec@, f.sla@)
}

/// A disassembler over a buffer of bytes, with the position of the next
/// instruction to decode and, as a ghost record, what each call of `next`
/// answered.
pub struct UniDis {
    sleigh: GhidraSleigh,
    instructions: InstructionBytes,
    data: Vec<u8>,
    current_pos: u64,
    spec_files: Ghost<(Seq<char>, Seq<u8>)>,
    trace: Ghost<Seq<DecodeOutcome>>,
}

/// What one call of `UniDis::next` answers.
pub type DecodeOutcome = Result<Option<UniDisInstruction>, EngineError>;

impl UniDis {
    #[verifier::type_invariant]
    spec fn loader_matches(self) -> bool {
        sleigh::loader_contents(self.instructions) == self.data@
    }

    /// The bytes being disassembled.
    pub closed spec fn spec_data(self) -> Seq<u8> {
        self.data@
    }

    /// The offset of the next instruction.
    pub closed spec fn spec_pos(self) -> u64 {
        self.current_pos
    }

    /// The processor specification the engine was built from.
    pub closed spec fn spec_pspec(self) -> Seq<char> {
        self.spec_files@.0
    }

    /// The compiled sleigh specification the engine was built from.
    pub closed spec fn spec_sla(self) -> Seq<u8> {
        self.spec_files@.1
    }

    /// What the calls of `next` on this disassembler answered, in order.
    pub closed spec fn spec_trace(self) -> Seq<DecodeOutcome> {
        self.trace@
    }

    /// The engine, the loader, the bytes and the specification files.
    pub closed spec fn engine(self) -> (GhidraSleigh, InstructionBytes, Seq<u8>, (Seq<char>, Seq<u8>)) {
        (self.sleigh, self.instructions, self.data@, self.spec_files@)
    }

    /// The two hold the same engine, loader, bytes and specification files.
    pub open spec fn same_engine(self, other: UniDis) -> bool {
        self.engine() == other.engine()
    }

    /// Builds a disassembler over `data` from a processor specification and a
    /// compiled sleigh specification, positioned at offset 0.
    pub fn new(data: Vec<u8>, pspec: &str, sla: &[u8]) -> (r: Result<UniDis, EngineError>)
        ensures
            r is Ok <==> sleigh::sleigh_accepts(pspec@, sla@),
            r matches Ok(u) ==> {
                &&& u.spec_data() == data@
                &&& u.spec_pos() == 0
                &&& u.spec_pspec() == pspec@
                &&& u.spec_sla() == sla@
                &&& u.spec_trace().len() == 0
            },
    {
        let sleigh = match sleigh_build(pspec, sla) {
            Ok(s) => s,
            Err(e) => return Err(engine_error(e)),
        };
        let instructions = loader_new(data.clone());
        Ok(UniDis { sleigh, instructions, data, current_pos: 0, spec_files: Ghost((pspec@, sla@)), trace: Ghost(Seq::empty()) })
    }

    /// Builds a disassembler over `d` for the specification that stands for
    /// the family `arc` (see `default_index`), taking its files from `lib`.
    pub fn new_arch(d: Vec<u8>, arc: UnidisArch, lib: &SpecLibrary) -> (r: Result<UniDis, EngineError>)
        requires
            lib.wf(),
        ensures
            r is Ok <==> family_builds(*lib, arc),
            r matches Ok(u) ==> {
                &&& u.spec_data() == d@
                &&& u.spec_pos() == 0
                &&& u.spec_pspec() == lib.files@[arch::spec_default_index(arc)].pspec@
                &&& u.spec_sla() == lib.files@[arch::spec_default_index(arc)].sla@
                &&& u.spec_trace().len() == 0
            },
    {
        let i = default_index(arc);
        let files = &lib.files[i];
        UniDis::new(d, files.pspec.as_str(), files.sla.as_slice())
    }

    /// The bytes being disassembled.
    pub fn data(&self) -> (d: &Vec<u8>)
        ensures
            d@ == self.spec_data(),
    {
        &self.data
    }

    /// The offset of the next instruction.
    pub fn position(&self) -> (p: u64)
        ensures
            p == self.spec_pos(),
    {
        self.current_pos
    }

    /// Decodes the instruction at the current position without moving: asks
    /// the engine for the native instruction and, when that succeeds, for its
    /// p-code, and puts them together with the bytes (see `instruction_of`).
    /// On success the instruction starts at the current position, lies within
    /// the buffer, and carries exactly the bytes it occupies.
    pub fn dissassemble(&self) -> (r: Result<UniDisInstruction, EngineError>)
        ensures
            r matches Ok(i) ==> {
                &&& i.res.address == self.spec_pos()
                &&& self.spec_pos() < self.spec_data().len()
                &&& self.spec_pos() + i.res.size <= self.spec_data().len()
                &&& i.bytes@ == self.spec_data().subrange(
                    self.spec_pos() as int,
                    self.spec_pos() + i.res.size,
                )
            },
    {
        proof {
            use_type_invariant(self);
        }
        let native = match sleigh_disassemble_native(&self.sleigh, &self.instructions, self.current_pos) {
            Ok(n) => Ok(n),
            Err(e) => Err(engine_error(e)),
        };
        let pcode = if native.is_ok() {
            match sleigh_disassemble_pcode(&self.sleigh, &self.instructions, self.current_pos) {
                Ok(p) => Ok(p),
                Err(e) => Err(engine_error(e)),
            }
        } else {
            Ok(Vec::new())
        };
        let ghost n0 = native;
        let r = instruction_of(native, pcode, self.data.as_slice(), self.current_pos);
        proof {
            if r is Ok {
                assert(n0 is Ok);
            }
        }
        r
    }

    /// Moves the position `cnt` bytes forward.
    pub fn skip_bytes(&mut self, cnt: u64)
        requires
            old(self).spec_pos() + cnt <= u64::MAX,
        ensures
            final(self).spec_pos() == old(self).spec_pos() + cnt,
            final(self).spec_data() == old(self).spec_data(),
            final(self).same_engine(*old(self)),
            final(self).spec_pspec() == old(self).spec_pspec(),
            final(self).spec_sla() == old(self).spec_sla(),
            final(self).spec_trace() == old(self).spec_trace(),
    {
        proof {
            use_type_invariant(&*self);
        }
        self.current_pos = self.current_pos + cnt;
    }

    /// Decodes the next instruction and moves past it. At or past the end of
    /// the buffer it answers `Ok(None)`; when the engine fails the position
    /// stays where it was. The engine, its files and the bytes never change;
    /// the answer is added to the trace (see `next_step`).
    pub fn next(&mut self) -> (r: DecodeOutcome)
        ensures
            next_step(*old(self), r, *final(self)),
    {
        proof {
            use_type_invariant(&*self);
        }
        let r = if self.current_pos >= self.data.len() as u64 {
            Ok(None)
        } else {
            match self.dissassemble() {
                Ok(i) => {
                    self.current_pos = self.current_pos + i.res.size as u64;
                    Ok(Some(i))
                },
                Err(e) => Err(e),
            }
        };
        proof {
            self.trace@ = self.trace@.push(r);
        }
        r
    }
}

/// What one call of `next` does, from the disassembler `old` answering `r`
/// and leaving `new`: the engine, its files and the bytes stay; the answer is
/// added to the trace; it is `Ok(None)` exactly at or past the end; an
/// instruction starts at the old position, carries the bytes it occupies and
/// the position moves past it; otherwise the position stays.
pub open spec fn next_step(old: UniDis, r: DecodeOutcome, new: UniDis) -> bool {
    &&& new.same_engine(old)
    &&& new.spec_data() == old.spec_data()
    &&& new.spec_pspec() == old.spec_pspec()
    &&& new.spec_sla() == old.spec_sla()
    &&& new.spec_trace() == old.spec_trace().push(r)
    &&& (old.spec_pos() >= old.spec_data().len() <==> r matches Ok(None))
    &&& (r matches Ok(Some(i)) ==> {
        &&& i.res.address == old.spec_pos()
        &&& i.res.size == i.bytes@.len()
        &&& new.spec_pos() == old.spec_pos() + i.res.size
        &&& new.spec_pos() <= old.spec_data().len()
        &&& i.bytes@ == old.spec_data().subrange(old.spec_pos() as int, new.spec_pos() as int)
    })
    &&& (!(r is Ok && r->Ok_0 is Some) ==> new.spec_pos() == old.spec_pos())
}

/// Puts an instruction together from the engine's two answers at `pos`: the
/// native rendering's error if it failed, else the p-code's error if that
/// failed, else the instruction with the bytes of `data` it occupies.
pub fn instruction_of(
    native: Result<NativeInstr, EngineError>,
    pcode: Result<Vec<PcodeOp>, EngineError>,
    data: &[u8],
    pos: u64,
) -> (r: Result<UniDisInstruction, EngineError>)
    requires
        native matches Ok(n) ==> pos + n.size <= data@.len(),
    ensures
        native is Err ==> r == Err::<UniDisInstruction, EngineError>(native->Err_0),
        native is Ok && pcode is Err ==> r == Err::<UniDisInstruction, EngineError>(pcode->Err_0),
        native is Ok && pcode is Ok ==> (r is Ok && ({
            let i = r->Ok_0;
            &&& i.res == native->Ok_0
            &&& i.pcode@ == pcode->Ok_0@
            &&& i.bytes@ == data@.subrange(pos as int, pos + native->Ok_0.size)
        })),
{
    match native {
        Err(e) => Err(e),
        Ok(n) => match pcode {
            Err(e) => Err(e),
            Ok(p) => {
                let _n = data.len();
                let start = pos as usize;
                let end = start + n.size;
                let bytes = slice_range(data, start, end);
                Ok(UniDisInstruction { res: n, pcode: p, bytes })
            },
        },
    }
}

/// Copies `s[start..end]`.
pub(crate) fn slice_range(s: &[u8], start: usize, end: usize) -> (r: Vec<u8>)
    requires
        start <= end <= s@.len(),
    ensures
        r@ == s@.subrange(start as int, end as int),
{
    let mut r: Vec<u8> = Vec::new();
    let mut k = start;
    while k < end
        invariant
            start <= k <= end <= s@.len(),
            r@ == s@.subrange(start as int, k as int),
        decreases end - k,
    {
        r.push(s[k]);
        proof {
            assert(s@.subrange(start as int, k + 1) == s@.subrange(start as int, k as int).push(s@[k as int]));
        }
        k = k + 1;
    }
    r
}

/// The bytes of the instructions, one after another.
pub open spec fn covered_bytes(instrs: Seq<UniDisInstruction>) -> Seq<u8>
    decreases instrs.len(),
{
    if instrs.len() == 0 {
        Seq::<u8>::empty()
    } else {
        covered_bytes(instrs.drop_last()) + instrs.last().bytes@
    }
}

/// The instructions lie back to back from `start` over `data`: each starts
/// where the previous one ended and carries the bytes of `data` it occupies.
pub open spec fn tiles(instrs: Seq<UniDisInstruction>, data: Seq<u8>, start: int) -> bool {
    &&& instrs.len() > 0 ==> 0 <= start && start + covered_bytes(instrs).len() <= data.len()
    &&& instrs.len() > 0 ==> covered_bytes(instrs) == data.subrange(start, start + covered_bytes(instrs).len())
    &&& forall|k: int| 0 <= k < instrs.len() ==>
        (#[trigger] instrs[k]).res.address == start + covered_bytes(instrs.take(k)).len()
            && instrs[k].bytes@.len() == instrs[k].res.size
}

#[verifier::rlimit(40)]
#[verifier::spinoff_prover]
proof fn lemma_tiles_push(prev: Seq<UniDisInstruction>, i: UniDisInstruction, data: Seq<u8>, start: int)
    requires
        tiles(prev, data, start),
        0 <= start,
        i.res.address == start + covered_bytes(prev).len(),
        i.res.address + i.res.size <= data.len(),
        i.bytes@ == data.subrange(i.res.address as int, i.res.address + i.res.size),
    ensures
        tiles(prev.push(i), data, start),
{
    let s = prev.push(i);
    assert(s.drop_last() == prev);
    assert(s.take(prev.len() as int) == prev);
    assert forall|k: int| 0 <= k < s.len() implies
        (#[trigger] s[k]).res.address == start + covered_bytes(s.take(k)).len()
            && s[k].bytes@.len() == s[k].res.size by {
        if k < prev.len() {
            assert(s.take(k) == prev.take(k));
            assert(s[k] == prev[k]);
        }
    }
    assert(covered_bytes(s) =~= data.subrange(start, start + covered_bytes(s).len()));
}

/// Why a run of decoding stopped.
pub enum RunEnd {
    /// The position reached the end of the buffer.
    EndOfData,
    /// The engine could not decode an instruction.
    EngineFailed(EngineError),
    /// The engine decoded an instruction of no bytes, which would not advance.
    EmptyInstruction(UniDisInstruction),
}

/// What a run of decoding does with one answer of `next`: goes on with an
/// instruction, or stops.
pub enum RunStep {
    Push(UniDisInstruction),
    Stop(RunEnd),
}

/// The step for an answer: the end of the data, a failure and an instruction
/// of no bytes stop the run; any other instruction is kept.
pub open spec fn spec_decode_step(o: DecodeOutcome) -> RunStep {
    match o {
        Ok(None) => RunStep::Stop(RunEnd::EndOfData),
        Err(e) => RunStep::Stop(RunEnd::EngineFailed(e)),
        Ok(Some(i)) => if i.res.size == 0 {
            RunStep::Stop(RunEnd::EmptyInstruction(i))
        } else {
            RunStep::Push(i)
        },
    }
}

/// Decides what a run of decoding does with one answer of `next`.
pub fn decode_step(o: DecodeOutcome) -> (s: RunStep)
    ensures
        s == spec_decode_step(o),
{
    match o {
        Ok(None) => RunStep::Stop(RunEnd::EndOfData),
        Err(e) => RunStep::Stop(RunEnd::EngineFailed(e)),
        Ok(Some(i)) => if i.res.size == 0 {
            RunStep::Stop(RunEnd::EmptyInstruction(i))
        } else {
            RunStep::Push(i)
        },
    }
}

/// The answers `outs` of successive calls of `next` make the run `instrs`
/// ending with `end`: every answer but the last is kept, in order, and the
/// last stops the run with `end`.
pub open spec fn is_run_trace(outs: Seq<DecodeOutcome>, instrs: Seq<UniDisInstruction>, end: RunEnd) -> bool {
    &&& outs.len() == instrs.len() + 1
    &&& forall|k: int| 0 <= k < instrs.len() ==> spec_decode_step(#[trigger] outs[k]) == RunStep::Push(instrs[k])
    &&& spec_decode_step(outs.last()) == RunStep::Stop(end)
}

/// Calls `next` until the end of the buffer, the first failure, or an
/// instruction of no bytes (see `decode_step`), and returns the instructions
/// decoded, in order, with why the run stopped. The answers of those calls
/// are exactly what the trace gains. The instructions lie back to back from
/// where the run started, and the position ends right after the last one.
#[verifier::rlimit(40)]
#[verifier::spinoff_prover]
pub fn decode_run(dis: &mut UniDis) -> (run: (Vec<UniDisInstruction>, RunEnd))
    ensures
        final(dis).same_engine(*old(dis)),
        final(dis).spec_trace().take(old(dis).spec_trace().len() as int) == old(dis).spec_trace(),
        is_run_trace(final(dis).spec_trace().skip(old(dis).spec_trace().len() as int), run.0@, run.1),
        run.1 is EndOfData <==> final(dis).spec_pos() >= old(dis).spec_data().len(),
        run.1 matches RunEnd::EmptyInstruction(i) ==> i.res.size == 0
            && i.res.address == final(dis).spec_pos(),
        final(dis).spec_data() == old(dis).spec_data(),
        tiles(run.0@, old(dis).spec_data(), old(dis).spec_pos() as int),
        final(dis).spec_pos() == old(dis).spec_pos() + covered_bytes(run.0@).len(),
        exists|states: Seq<UniDis>| #[trigger] next_chain(
            states,
            final(dis).spec_trace().skip(old(dis).spec_trace().len() as int),
        ) && states[0] == *old(dis) && states.last() == *final(dis),
{
    let mut instrs: Vec<UniDisInstruction> = Vec::new();
    let ghost data = dis.spec_data();
    let ghost start = dis.spec_pos() as int;
    let ghost t0 = dis.spec_trace();
    let ghost mut states: Seq<UniDis> = seq![*dis];
    let ghost mut outs: Seq<DecodeOutcome> = Seq::empty();
    assert(dis.spec_trace().skip(t0.len() as int) =~= outs);
    loop
        invariant
            next_chain(states, outs),
            states[0] == *old(dis),
            states.last() == *dis,
            outs == dis.spec_trace().skip(t0.len() as int),
            dis.spec_data() == data,
            data == old(dis).spec_data(),
            dis.same_engine(*old(dis)),
            start == old(dis).spec_pos() as int,
            t0 == old(dis).spec_trace(),
            dis.spec_trace().len() == t0.len() + instrs@.len(),
            dis.spec_trace().take(t0.len() as int) == t0,
            forall|k: int| 0 <= k < instrs@.len() ==>
                spec_decode_step(#[trigger] dis.spec_trace()[t0.len() + k]) == RunStep::Push(instrs@[k]),
            tiles(instrs@, data, start),
            dis.spec_pos() == start + covered_bytes(instrs@).len(),
        decreases data.len() + 1 - dis.spec_pos(),
    {
        let ghost prev = instrs@;
        let ghost before = *dis;
        let o = dis.next();
        proof {
            lemma_chain_push(states, outs, *dis, o);
            states = states.push(*dis);
            outs = outs.push(o);
            assert(dis.spec_trace().skip(t0.len() as int) =~= outs);
            assert(dis.spec_trace() == before.spec_trace().push(o));
            assert forall|k: int| 0 <= k < instrs@.len() implies
                spec_decode_step(#[trigger] dis.spec_trace()[t0.len() + k]) == RunStep::Push(instrs@[k]) by {
                assert(dis.spec_trace()[t0.len() + k] == before.spec_trace()[t0.len() + k]);
            }
            assert(dis.spec_trace().take(t0.len() as int) == before.spec_trace().take(t0.len() as int));
        }
        let ghost og = o;
        match decode_step(o) {
            RunStep::Push(i) => {
                proof {
                    lemma_tiles_push(prev, i, data, start);
                    assert(dis.spec_trace()[(t0.len() + prev.len()) as int] == og);
                }
                instrs.push(i);
                proof {
                    assert forall|k: int| 0 <= k < instrs@.len() implies
                        spec_decode_step(#[trigger] dis.spec_trace()[t0.len() + k]) == RunStep::Push(instrs@[k]) by {
                        if k < prev.len() {
                            assert(instrs@[k] == prev[k]);
                        }
                    }
                }
            },
            RunStep::Stop(end) => {
                proof {
                    let outs = dis.spec_trace().skip(t0.len() as int);
                    assert(outs.len() == instrs@.len() + 1);
                    assert forall|k: int| 0 <= k < instrs@.len() implies
                        spec_decode_step(#[trigger] outs[k]) == RunStep::Push(instrs@[k]) by {
                        assert(outs[k] == dis.spec_trace()[t0.len() + k]);
                    }
                    assert(outs.last() == og);
                }
                return (instrs, end);
            },
        }
    }
}

} // verus!

verus! {

/// A chain of calls of `next` goes on with one more call.
pub proof fn lemma_chain_push(states: Seq<UniDis>, outs: Seq<DecodeOutcome>, s: UniDis, o: DecodeOutcome)
    requires
        next_chain(states, outs),
        next_step(states.last(), o, s),
    ensures
        next_chain(states.push(s), outs.push(o)),
        states.push(s)[0] == states[0],
{
    let ns = states.push(s);
    let no = outs.push(o);
    assert forall|k: int| 0 <= k < no.len() implies next_step(ns[k], #[trigger] no[k], ns[k + 1]) by {
        if k < outs.len() {
            assert(no[k] == outs[k]);
            assert(ns[k] == states[k] && ns[k + 1] == states[k + 1]);
            assert(next_step(states[k], outs[k], states[k + 1]));
        } else {
            assert(ns[k] == states.last());
        }
    }
}

/// `states[k]` answers `outs[k]` to a call of `next` and becomes `states[k + 1]`.
pub open spec fn next_chain(states: Seq<UniDis>, outs: Seq<DecodeOutcome>) -> bool {
    &&& states.len() == outs.len() + 1
    &&& forall|k: int| 0 <= k < outs.len() ==> next_step(states[k], #[trigger] outs[k], states[k + 1])
}

/// The instructions of answers that are all instructions.
pub open spec fn instructions_of(outs: Seq<DecodeOutcome>) -> Seq<UniDisInstruction> {
    outs.map_values(|o: DecodeOutcome| o->Ok_0->Some_0)
}

/// Successive calls of `next` that each answer an instruction tile the bytes:
/// each instruction starts where the one before ended and carries the bytes
/// it occupies, and the position ends after the last. When the position has
/// then reached the end, so that the next call answers `Ok(None)`, the
/// instructions cover the bytes from where the calls started up to the end.
pub proof fn lemma_next_calls_tile(states: Seq<UniDis>, outs: Seq<DecodeOutcome>)
    requires
        next_chain(states, outs),
        forall|k: int| 0 <= k < outs.len() ==> (#[trigger] outs[k]) is Ok && outs[k]->Ok_0 is Some,
    ensures
        tiles(instructions_of(outs), states[0].spec_data(), states[0].spec_pos() as int),
        states.last().spec_pos() == states[0].spec_pos() + covered_bytes(instructions_of(outs)).len(),
        states.last().spec_data() == states[0].spec_data(),
        states.last().spec_pos() == states[0].spec_data().len() ==>
            covered_bytes(instructions_of(outs)) == states[0].spec_data().subrange(
                states[0].spec_pos() as int,
                states[0].spec_data().len() as int,
            ),
    decreases outs.len(),
{
    let s0 = states[0];
    let is = instructions_of(outs);
    if outs.len() > 0 {
        let n = outs.len() - 1;
        let ps = states.take(n + 1);
        let po = outs.take(n);
        assert forall|k: int| 0 <= k < po.len() implies next_step(ps[k], #[trigger] po[k], ps[k + 1]) by {
            assert(po[k] == outs[k]);
            assert(ps[k] == states[k] && ps[k + 1] == states[k + 1]);
        }
        assert forall|k: int| 0 <= k < po.len() implies (#[trigger] po[k]) is Ok && po[k]->Ok_0 is Some by {
            assert(po[k] == outs[k]);
        }
        lemma_next_calls_tile(ps, po);
        assert(instructions_of(po) == is.drop_last());
        assert(next_step(states[n], outs[n], states[n + 1]));
        assert(states[n] == ps.last());
        assert(is.last() == outs[n]->Ok_0->Some_0);
        lemma_tiles_push(instructions_of(po), is.last(), s0.spec_data(), s0.spec_pos() as int);
        assert(instructions_of(po).push(is.last()) == is);
    } else {
        assert(covered_bytes(is) == Seq::<u8>::empty());
    }
    if states.last().spec_pos() == s0.spec_data().len() {
        if is.len() > 0 {
            assert(covered_bytes(is) == s0.spec_data().subrange(
                s0.spec_pos() as int, s0.spec_pos() + covered_bytes(is).len()));
        } else {
            assert(s0.spec_data().subrange(s0.spec_pos() as int, s0.spec_data().len() as int) =~= Seq::<u8>::empty());
        }
    }
}

/// A loop that calls `next` while it answers instructions of at least one
/// byte ends within one call more than the bytes left: each such call moves
/// the position forward, and at or past the end `next` answers `Ok(None)`.
pub proof fn lemma_next_calls_bounded(states: Seq<UniDis>, outs: Seq<DecodeOutcome>)
    requires
        next_chain(states, outs),
        states[0].spec_pos() <= states[0].spec_data().len(),
        forall|k: int| 0 <= k < outs.len() - 1 ==>
            (#[trigger] outs[k]) is Ok && outs[k]->Ok_0 is Some && outs[k]->Ok_0->Some_0.res.size >= 1,
    ensures
        outs.len() <= states[0].spec_data().len() - states[0].spec_pos() + 1,
{
    if outs.len() >= 2 {
        let k = outs.len() - 2;
        lemma_positions_advance(states, outs, k);
        assert(outs[k] is Ok && outs[k]->Ok_0 is Some);
        assert(next_step(states[k], outs[k], states[k + 1]));
    }
}

/// Before a call that answers an instruction of at least one byte, the
/// position has moved at least one byte per such call, over the same bytes.
proof fn lemma_positions_advance(states: Seq<UniDis>, outs: Seq<DecodeOutcome>, n: int)
    requires
        next_chain(states, outs),
        0 <= n <= outs.len(),
        forall|k: int| 0 <= k < outs.len() - 1 ==>
            (#[trigger] outs[k]) is Ok && outs[k]->Ok_0 is Some && outs[k]->Ok_0->Some_0.res.size >= 1,
    ensures
        n <= outs.len() - 1 ==> states[n].spec_pos() >= states[0].spec_pos() + n,
        n <= outs.len() - 1 ==> states[n].spec_data() == states[0].spec_data(),
    decreases n,
{
    if n > 0 && n <= outs.len() - 1 {
        lemma_positions_advance(states, outs, n - 1);
        let k = n - 1;
        assert(next_step(states[k], outs[k], states[k + 1]));
    }
}

} // verus!

verus! {

/// `instrs` and `end` are what successive calls of `next` made, through
/// `decode_step`, on a disassembler over `bytes` at offset 0 whose engine was
/// built from the processor specification `pspec` and the compiled sleigh
/// specification `sla`.
pub open spec fn is_engine_run(
    instrs: Seq<UniDisInstruction>,
    end: RunEnd,
    bytes: Seq<u8>,
    pspec: Seq<char>,
    sla: Seq<u8>,
) -> bool {
    exists|states: Seq<UniDis>, outs: Seq<DecodeOutcome>| {
        &&& #[trigger] next_chain(states, outs)
        &&& states[0].spec_data() == bytes
        &&& states[0].spec_pos() == 0
        &&& states[0].spec_pspec() == pspec
        &&& states[0].spec_sla() == sla
        &&& is_run_trace(outs, instrs, end)
    }
}

/// `is_engine_run` with the engine of the specification that stands for the
/// family `fam`, its files taken from `lib`.
pub open spec fn is_family_run(
    instrs: Seq<UniDisInstruction>,
    end: RunEnd,
    bytes: Seq<u8>,
    lib: SpecLibrary,
    fam: UnidisArch,
) -> bool {
    is_engine_run(
        instrs,
        end,
        bytes,
        lib.files@[arch::spec_default_index(fam)].pspec@,
        lib.files@[arch::spec_default_index(fam)].sla@,
    )
}

/// A run of `decode_run` on a disassembler that `new_arch` has just built for
/// `fam` over `bytes` is a run of that family's engine.
pub proof fn lemma_fresh_run(
    u: UniDis,
    v: UniDis,
    run: (Seq<UniDisInstruction>, RunEnd),
    bytes: Seq<u8>,
    lib: SpecLibrary,
    fam: UnidisArch,
)
    requires
        u.spec_data() == bytes,
        u.spec_pos() == 0,
        u.spec_pspec() == lib.files@[arch::spec_default_index(fam)].pspec@,
        u.spec_sla() == lib.files@[arch::spec_default_index(fam)].sla@,
        is_run_trace(v.spec_trace().skip(u.spec_trace().len() as int), run.0, run.1),
        exists|states: Seq<UniDis>| #[trigger] next_chain(states, v.spec_trace().skip(u.spec_trace().len() as int))
            && states[0] == u && states.last() == v,
    ensures
        is_family_run(run.0, run.1, bytes, lib, fam),
{
    let outs = v.spec_trace().skip(u.spec_trace().len() as int);
    let states = choose|states: Seq<UniDis>| #[trigger] next_chain(states, outs)
        && states[0] == u && states.last() == v;
    assert(next_chain(states, outs));
}

} // verus!

verus! {

/// How often `v` occurs in `s`.
pub open spec fn occurrences(s: Seq<Varnode>, v: Varnode) -> nat
    decreases s.len(),
{
    if s.len() == 0 {
        0
    } else {
        (if s[0] == v { 1nat } else { 0nat }) + occurrences(s.drop_first(), v)
    }
}

/// How many of the operations write `v`.
pub open spec fn writes(ops: Seq<PcodeOp>, v: Varnode) -> nat
    decreases ops.len(),
{
    if ops.len() == 0 {
        0
    } else {
        writes(ops.drop_last(), v) + (if ops.last().output == Some(v) { 1nat } else { 0nat })
    }
}

proof fn lemma_remove_first_occurrences(s: Seq<Varnode>, x: Varnode, v: Varnode)
    ensures
        occurrences(remove_first(s, x), v) == if v == x && occurrences(s, x) > 0 {
            (occurrences(s, v) - 1) as nat
        } else {
            occurrences(s, v)
        },
    decreases s.len(),
{
    if s.len() > 0 && s[0] != x {
        lemma_remove_first_occurrences(s.drop_first(), x, v);
        let t = remove_first(s.drop_first(), x);
        assert((seq![s[0]] + t)[0] == s[0]);
        assert((seq![s[0]] + t).drop_first() =~= t);
    }
}

proof fn lemma_remove_outputs_occurrences(s: Seq<Varnode>, ops: Seq<PcodeOp>, v: Varnode)
    ensures
        occurrences(remove_outputs(s, ops), v) == if occurrences(s, v) >= writes(ops, v) {
            (occurrences(s, v) - writes(ops, v)) as nat
        } else {
            0nat
        },
    decreases ops.len(),
{
    if ops.len() > 0 {
        lemma_remove_outputs_occurrences(s, ops.drop_last(), v);
        let r = remove_outputs(s, ops.drop_last());
        match ops.last().output {
            Some(o) => {
                lemma_remove_first_occurrences(r, o, v);
                if o == v {
                    lemma_remove_first_occurrences(r, o, o);
                }
            },
            None => {},
        }
    }
}

/// Each operation that writes a varnode takes away one read of it, no more:
/// a varnode is listed as often as it is read (repeats cut) less as often as
/// it is written, and not at all when it is written at least as often.
pub proof fn lemma_input_varnodes_counts(ops: Seq<PcodeOp>, v: Varnode)
    ensures
        occurrences(live_inputs(ops), v) == if occurrences(dedup_runs(flat_inputs(ops)), v) >= writes(ops, v) {
            (occurrences(dedup_runs(flat_inputs(ops)), v) - writes(ops, v)) as nat
        } else {
            0nat
        },
{
    lemma_remove_outputs_occurrences(dedup_runs(flat_inputs(ops)), ops, v);
}

} // verus!
