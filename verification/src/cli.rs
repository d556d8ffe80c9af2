//! The command-line listing: the walk over a section that decodes one
//! instruction after another, skipping a byte where decoding fails, within a
//! budget of instructions; and the pieces of each printed line.

use vstd::prelude::*;
use crate::arch::{SpecLibrary, UnidisArch};
use crate::disasm::{DecodeOutcome, UniDis, UniDisInstruction};
use crate::disasm;
use crate::sleigh::EngineError;
use crate::text::{push_hex, string_from_chars};
use crate::listing::push_hex_bytes;
use crate::listing;
use crate::text;

verus! {

/// How a walk ended.
pub enum CliEnd {
    /// The position reached the end of the section.
    Finished,
    /// The budget of instructions ran out.
    CountReached,
    /// Without a budget, the engine decoded an instruction of no bytes, which
    /// would be decoded again forever.
    Stalled(UniDisInstruction),
}

/// How far a walk moved: the bytes of each decoded instruction, one byte for
/// each failure.
pub open spec fn walked(items: Seq<Option<UniDisInstruction>>) -> int
    decreases items.len(),
{
    if items.len() == 0 {
        0
    } else {
        walked(items.drop_last()) + match items.last() {
            Some(i) => i.bytes@.len() as int,
            None => 1int,
        }
    }
}

/// An outcome of a walk over `data` that stood at `p`: `p` is inside the
/// data, and a decoded instruction starts there and carries the bytes it
/// occupies.
pub open spec fn outcome_fits(it: Option<UniDisInstruction>, data: Seq<u8>, p: int) -> bool {
    &&& 0 <= p < data.len()
    &&& it matches Some(i) ==> {
        &&& i.res.address == p
        &&& i.res.size == i.bytes@.len()
        &&& p + i.res.size <= data.len()
        &&& i.bytes@ == data.subrange(p, p + i.res.size)
    }
}

/// Each outcome of a walk over `data` from `start` fits where the walk stood.
pub open spec fn walk_fits(items: Seq<Option<UniDisInstruction>>, data: Seq<u8>, start: int) -> bool {
    forall|k: int| 0 <= k < items.len() ==> outcome_fits(#[trigger] items[k], data, start + walked(items.take(k)))
}

proof fn lemma_walk_push(
    prev: Seq<Option<UniDisInstruction>>,
    it: Option<UniDisInstruction>,
    data: Seq<u8>,
    start: int,
)
    requires
        walk_fits(prev, data, start),
        outcome_fits(it, data, start + walked(prev)),
    ensures
        walk_fits(prev.push(it), data, start),
        walked(prev.push(it)) == walked(prev) + match it {
            Some(i) => i.bytes@.len() as int,
            None => 1int,
        },
{
    let s = prev.push(it);
    assert(s.drop_last() == prev);
    assert(s.take(prev.len() as int) == prev);
    assert forall|k: int| 0 <= k < s.len() implies outcome_fits(#[trigger] s[k], data, start + walked(s.take(k))) by {
        if k < prev.len() {
            assert(s.take(k) == prev.take(k));
            assert(s[k] == prev[k]);
        }
    }
}

/// What the walk does with one answer of `next`.
pub enum CliStep {
    /// Record this outcome: an instruction, or `None` for a failure.
    Record(Option<UniDisInstruction>),
    /// Stop the walk.
    Stop(CliEnd),
}

/// The step for an answer: the end of the data ends the walk; a failure is
/// recorded as `None`; an instruction is recorded, except one of no bytes
/// when there is no budget, which would be decoded again forever and stalls
/// the walk.
pub open spec fn spec_cli_step(o: DecodeOutcome, budgeted: bool) -> CliStep {
    match o {
        Ok(None) => CliStep::Stop(CliEnd::Finished),
        Err(_) => CliStep::Record(None),
        Ok(Some(i)) => if i.res.size == 0 && !budgeted {
            CliStep::Stop(CliEnd::Stalled(i))
        } else {
            CliStep::Record(Some(i))
        },
    }
}

/// Decides what the walk does with one answer of `next`.
pub fn cli_step(o: DecodeOutcome, budgeted: bool) -> (s: CliStep)
    ensures
        s == spec_cli_step(o, budgeted),
{
    match o {
        Ok(None) => CliStep::Stop(CliEnd::Finished),
        Err(_) => CliStep::Record(None),
        Ok(Some(i)) => if i.res.size == 0 && !budgeted {
            CliStep::Stop(CliEnd::Stalled(i))
        } else {
            CliStep::Record(Some(i))
        },
    }
}

/// The answers `outs` of successive calls of `next` make the walk that
/// recorded `items` and ended with `end`: each recorded outcome is the step of
/// its answer, in order; a walk stopped by the budget ends before asking
/// again, any other ends with the step of its last answer.
pub open spec fn is_cli_trace(
    outs: Seq<DecodeOutcome>,
    items: Seq<Option<UniDisInstruction>>,
    end: CliEnd,
    budgeted: bool,
) -> bool {
    &&& forall|k: int| 0 <= k < items.len() ==> spec_cli_step(#[trigger] outs[k], budgeted) == CliStep::Record(items[k])
    &&& end is CountReached ==> outs.len() == items.len()
    &&& !(end is CountReached) ==> outs.len() == items.len() + 1
        && spec_cli_step(outs.last(), budgeted) == CliStep::Stop(end)
}

/// After a call of `next` left `m`, the walk skipped one byte and left `b`.
pub open spec fn skip_step(m: UniDis, b: UniDis) -> bool {
    &&& b.same_engine(m)
    &&& b.spec_data() == m.spec_data()
    &&& b.spec_pspec() == m.spec_pspec()
    &&& b.spec_sla() == m.spec_sla()
    &&& b.spec_pos() == m.spec_pos() + 1
    &&& b.spec_trace() == m.spec_trace()
}

/// The rounds of a walk: from `states[k]` a call of `next` answered `outs[k]`
/// and left `mids[k]`; after a failure one byte was skipped, which left
/// `states[k + 1]`, and otherwise `states[k + 1]` is `mids[k]`.
pub open spec fn walk_chain(states: Seq<UniDis>, mids: Seq<UniDis>, outs: Seq<DecodeOutcome>) -> bool {
    &&& states.len() == outs.len() + 1
    &&& mids.len() == outs.len()
    &&& forall|k: int| 0 <= k < outs.len() ==> {
        &&& disasm::next_step(states[k], #[trigger] outs[k], mids[k])
        &&& outs[k] is Err ==> skip_step(mids[k], states[k + 1])
        &&& !(outs[k] is Err) ==> states[k + 1] == mids[k]
    }
}

/// A walk goes on with one more round.
proof fn lemma_walk_chain_push(
    states: Seq<UniDis>,
    mids: Seq<UniDis>,
    outs: Seq<DecodeOutcome>,
    m: UniDis,
    o: DecodeOutcome,
    b: UniDis,
)
    requires
        walk_chain(states, mids, outs),
        disasm::next_step(states.last(), o, m),
        o is Err ==> skip_step(m, b),
        !(o is Err) ==> b == m,
    ensures
        walk_chain(states.push(b), mids.push(m), outs.push(o)),
        states.push(b)[0] == states[0],
{
    let ns = states.push(b);
    let nm = mids.push(m);
    let no = outs.push(o);
    assert forall|k: int| 0 <= k < no.len() implies {
        &&& disasm::next_step(ns[k], #[trigger] no[k], nm[k])
        &&& no[k] is Err ==> skip_step(nm[k], ns[k + 1])
        &&& !(no[k] is Err) ==> ns[k + 1] == nm[k]
    } by {
        if k < outs.len() {
            assert(no[k] == outs[k] && nm[k] == mids[k]);
            assert(ns[k] == states[k] && ns[k + 1] == states[k + 1]);
        } else {
            assert(ns[k] == states.last());
        }
    }
}

/// `items` and `end` are what a walk (see `cli_run`) recorded with the budget
/// given or not: the answers of successive rounds on a disassembler over
/// `bytes` at offset 0 whose engine was built from `pspec` and `sla`, through
/// `cli_step`.
pub open spec fn is_engine_walk(
    items: Seq<Option<UniDisInstruction>>,
    end: CliEnd,
    bytes: Seq<u8>,
    pspec: Seq<char>,
    sla: Seq<u8>,
    budgeted: bool,
) -> bool {
    exists|states: Seq<UniDis>, mids: Seq<UniDis>, outs: Seq<DecodeOutcome>| {
        &&& #[trigger] walk_chain(states, mids, outs)
        &&& states[0].spec_data() == bytes
        &&& states[0].spec_pos() == 0
        &&& states[0].spec_pspec() == pspec
        &&& states[0].spec_sla() == sla
        &&& is_cli_trace(outs, items, end, budgeted)
    }
}

/// Rounds of a walk that recorded `items`, one per answer, with the budget
/// given or not.
#[verifier::opaque]
pub open spec fn walk_state(
    states: Seq<UniDis>,
    mids: Seq<UniDis>,
    outs: Seq<DecodeOutcome>,
    items: Seq<Option<UniDisInstruction>>,
    budgeted: bool,
) -> bool {
    &&& walk_chain(states, mids, outs)
    &&& outs.len() == items.len()
    &&& forall|k: int| 0 <= k < items.len() ==> spec_cli_step(#[trigger] outs[k], budgeted) == CliStep::Record(items[k])
}

proof fn lemma_walk_state_start(s0: UniDis, budgeted: bool)
    ensures
        walk_state(seq![s0], Seq::empty(), Seq::empty(), Seq::empty(), budgeted),
{
    reveal(walk_state);
}

proof fn lemma_walk_state_record(
    states: Seq<UniDis>,
    mids: Seq<UniDis>,
    outs: Seq<DecodeOutcome>,
    items: Seq<Option<UniDisInstruction>>,
    budgeted: bool,
    mid: UniDis,
    og: DecodeOutcome,
    nd: UniDis,
    it: Option<UniDisInstruction>,
)
    requires
        walk_state(states, mids, outs, items, budgeted),
        disasm::next_step(states.last(), og, mid),
        spec_cli_step(og, budgeted) == CliStep::Record(it),
        og is Err ==> skip_step(mid, nd),
        !(og is Err) ==> nd == mid,
    ensures
        walk_state(states.push(nd), mids.push(mid), outs.push(og), items.push(it), budgeted),
        states.push(nd)[0] == states[0],
{
    reveal(walk_state);
    lemma_walk_chain_push(states, mids, outs, mid, og, nd);
    let no = outs.push(og);
    let ni = items.push(it);
    assert forall|k: int| 0 <= k < ni.len() implies spec_cli_step(#[trigger] no[k], budgeted) == CliStep::Record(ni[k]) by {
        if k < items.len() {
            assert(no[k] == outs[k] && ni[k] == items[k]);
        }
    }
}

proof fn lemma_walk_state_stop(
    states: Seq<UniDis>,
    mids: Seq<UniDis>,
    outs: Seq<DecodeOutcome>,
    items: Seq<Option<UniDisInstruction>>,
    budgeted: bool,
    mid: UniDis,
    og: DecodeOutcome,
    end: CliEnd,
)
    requires
        walk_state(states, mids, outs, items, budgeted),
        disasm::next_step(states.last(), og, mid),
        spec_cli_step(og, budgeted) == CliStep::Stop(end),
    ensures
        walk_chain(states.push(mid), mids.push(mid), outs.push(og)),
        states.push(mid)[0] == states[0],
        states.push(mid).last() == mid,
        is_cli_trace(outs.push(og), items, end, budgeted),
{
    reveal(walk_state);
    lemma_walk_chain_push(states, mids, outs, mid, og, mid);
    let no = outs.push(og);
    assert forall|k: int| 0 <= k < items.len() implies spec_cli_step(#[trigger] no[k], budgeted) == CliStep::Record(items[k]) by {
        assert(no[k] == outs[k]);
    }
}

proof fn lemma_walk_state_budget(
    states: Seq<UniDis>,
    mids: Seq<UniDis>,
    outs: Seq<DecodeOutcome>,
    items: Seq<Option<UniDisInstruction>>,
    budgeted: bool,
)
    requires
        walk_state(states, mids, outs, items, budgeted),
    ensures
        walk_chain(states, mids, outs),
        is_cli_trace(outs, items, CliEnd::CountReached, budgeted),
{
    reveal(walk_state);
}

/// A trace that gained one answer after a prefix `t0` has that answer last.
proof fn lemma_trace_suffix(before: Seq<DecodeOutcome>, t0: Seq<DecodeOutcome>, o: DecodeOutcome)
    requires
        before.take(t0.len() as int) == t0,
        t0.len() <= before.len(),
    ensures
        before.push(o).skip(t0.len() as int) == before.skip(t0.len() as int).push(o),
        before.push(o).take(t0.len() as int) == t0,
{
    assert(before.push(o).skip(t0.len() as int) =~= before.skip(t0.len() as int).push(o));
    assert(before.push(o).take(t0.len() as int) =~= before.take(t0.len() as int));
}

/// The budget left after recording `n` outcomes from a budget of `c`.
pub open spec fn budget_left(c: i64, n: int) -> i64 {
    if c <= 0 {
        c
    } else {
        (c - n) as i64
    }
}

/// Walks from the current position: while the budget, if there is one, is
/// not used up, decodes the next instruction and does what `cli_step` says;
/// a failure skips one byte. Each recorded outcome spends one unit of the
/// budget, so a budget of `n` records at most `n` outcomes, and exactly `n`
/// when the section holds that many. The budget left is written back.
#[verifier::rlimit(40)]
#[verifier::spinoff_prover]
pub fn cli_run(dis: &mut UniDis, count_limit: &mut Option<i64>) -> (r: (Vec<Option<UniDisInstruction>>, CliEnd))
    ensures
        final(dis).same_engine(*old(dis)),
        final(dis).spec_data() == old(dis).spec_data(),
        final(dis).spec_trace().take(old(dis).spec_trace().len() as int) == old(dis).spec_trace(),
        is_cli_trace(
            final(dis).spec_trace().skip(old(dis).spec_trace().len() as int),
            r.0@,
            r.1,
            *old(count_limit) is Some,
        ),
        walk_fits(r.0@, old(dis).spec_data(), old(dis).spec_pos() as int),
        final(dis).spec_pos() == old(dis).spec_pos() + walked(r.0@),
        *old(count_limit) is None ==> *final(count_limit) is None && !(r.1 is CountReached),
        *old(count_limit) matches Some(c) ==> {
            &&& *final(count_limit) == Some(budget_left(c, r.0@.len() as int))
            &&& r.1 is CountReached <==> c <= r.0@.len()
            &&& r.0@.len() <= if c <= 0 { 0 } else { c as int }
            &&& !(r.1 is Stalled)
        },
        r.1 is Finished ==> old(dis).spec_pos() + walked(r.0@) >= old(dis).spec_data().len(),
        r.1 matches CliEnd::Stalled(i) ==> {
            &&& i.res.size == 0
            &&& i.res.address == old(dis).spec_pos() + walked(r.0@)
            &&& i.res.address < old(dis).spec_data().len()
        },
        exists|states: Seq<UniDis>, mids: Seq<UniDis>| #[trigger] walk_chain(
            states,
            mids,
            final(dis).spec_trace().skip(old(dis).spec_trace().len() as int),
        ) && states[0] == *old(dis) && states.last() == *final(dis),
{
    let ghost data = dis.spec_data();
    let ghost start = dis.spec_pos() as int;
    let ghost c0 = *count_limit;
    let ghost t0 = dis.spec_trace();
    let budgeted = count_limit.is_some();
    let ghost mut states: Seq<UniDis> = seq![*dis];
    let ghost mut mids: Seq<UniDis> = Seq::empty();
    let ghost mut outs: Seq<DecodeOutcome> = Seq::empty();
    proof {
        assert(dis.spec_trace().skip(t0.len() as int) =~= outs);
        assert(dis.spec_trace().take(t0.len() as int) =~= t0);
        lemma_walk_state_start(*dis, budgeted);
    }
    let mut items: Vec<Option<UniDisInstruction>> = Vec::new();
    let _n = dis.data().len();
    loop
        invariant
            walk_state(states, mids, outs, items@, budgeted),
            states[0] == *old(dis),
            states.last() == *dis,
            outs == dis.spec_trace().skip(t0.len() as int),
            dis.spec_trace().take(t0.len() as int) == t0,
            t0.len() <= dis.spec_trace().len(),
            t0 == old(dis).spec_trace(),
            data.len() <= usize::MAX,
            dis.spec_data() == data,
            data == old(dis).spec_data(),
            dis.same_engine(*old(dis)),
            start == old(dis).spec_pos() as int,
            c0 == *old(count_limit),
            budgeted == c0 is Some,
            walk_fits(items@, data, start),
            dis.spec_pos() == start + walked(items@),
            c0 is None ==> *count_limit is None,
            c0 matches Some(c) ==> {
                &&& *count_limit == Some(budget_left(c, items@.len() as int))
                &&& items@.len() <= if c <= 0 { 0 } else { c as int }
            },
        decreases data.len() + 1 - dis.spec_pos(),
            (match *count_limit { Some(t) => if t > 0 { t as int } else { 0int }, None => 0int }),
    {
        if let Some(t) = *count_limit {
            if t <= 0 {
                proof {
                    lemma_walk_state_budget(states, mids, outs, items@, budgeted);
                }
                return (items, CliEnd::CountReached);
            }
        }
        let ghost prev = items@;
        let ghost before = *dis;
        let o = dis.next();
        let ghost og = o;
        let ghost mid = *dis;
        proof {
            lemma_trace_suffix(before.spec_trace(), t0, og);
        }
        match cli_step(o, budgeted) {
            CliStep::Stop(end) => {
                proof {
                    lemma_walk_state_stop(states, mids, outs, prev, budgeted, mid, og, end);
                }
                return (items, end);
            },
            CliStep::Record(it) => {
                proof {
                    lemma_walk_push(prev, it, data, start);
                }
                if it.is_none() {
                    dis.skip_bytes(1);
                }
                items.push(it);
                if let Some(t) = *count_limit {
                    *count_limit = Some(t - 1);
                }
                proof {
                    lemma_walk_state_record(states, mids, outs, prev, budgeted, mid, og, *dis, it);
                    states = states.push(*dis);
                    mids = mids.push(mid);
                    outs = outs.push(og);
                }
            },
        }
    }
}

/// The pieces of one printed line: the address, the bytes, the padding after
/// them, the mnemonic, the padding after it, and the operands.
pub struct CliLine {
    pub address: String,
    pub bytes: String,
    pub pad: usize,
    pub mnemonic: String,
    pub mnemonic_pad: usize,
    pub args: Vec<String>,
}

/// The number of bytes of a text in UTF-8.
pub open spec fn utf8_len(s: Seq<char>) -> int {
    vstd::utf8::encode_utf8(s).len() as int
}

/// An instruction fits a printed line: its bytes fit in the 40 columns before
/// the mnemonic, and its mnemonic in 16.
pub open spec fn line_fits(i: UniDisInstruction) -> bool {
    3 * i.bytes@.len() <= 40 && utf8_len(i.res.mnemonic@) <= 16
}

/// The line printed for an instruction whose address is shifted by `offset`
/// (wrapping at 2^64): the address as eight lower-case hexadecimal digits,
/// each byte as two and a space, padding to column 40, the mnemonic, padding
/// to 16 bytes, and the operands split at every comma.
pub open spec fn line_matches(l: CliLine, i: UniDisInstruction, offset: u64) -> bool {
    &&& l.address@ == text::hex_padded(vstd::wrapping::u64_specs::wrapping_add(i.res.address, offset) as nat, 8, false)
    &&& l.bytes@ == listing::hex_bytes(i.bytes@, false)
    &&& l.pad == 40 - 3 * i.bytes@.len()
    &&& l.mnemonic@ == i.res.mnemonic@
    &&& l.mnemonic_pad == 16 - utf8_len(i.res.mnemonic@)
    &&& l.args@.map_values(|p: String| p@) == text::split_by(i.res.body@, ',')
}

/// The printed line of an instruction; `None` when it does not fit.
pub fn cli_line(i: &UniDisInstruction, offset: u64) -> (r: Option<CliLine>)
    ensures
        r is Some <==> line_fits(*i),
        r matches Some(l) ==> line_matches(l, *i, offset),
{
    let nb = i.bytes.len();
    if nb > 13 {
        return None;
    }
    let mlen = i.res.mnemonic.as_str().as_bytes().len();
    if mlen > 16 {
        return None;
    }
    let mut a: Vec<char> = Vec::new();
    push_hex(&mut a, i.address().wrapping_add(offset), 8, false);
    let mut b: Vec<char> = Vec::new();
    push_hex_bytes(&mut b, i.bytes(), false);
    proof {
        assert(a@ == text::hex_padded(vstd::wrapping::u64_specs::wrapping_add(i.res.address, offset) as nat, 8, false));
    }
    Some(CliLine {
        address: string_from_chars(a.as_slice()),
        bytes: string_from_chars(b.as_slice()),
        pad: 40 - 3 * nb,
        mnemonic: i.memonic(),
        mnemonic_pad: 16 - mlen,
        args: i.args(),
    })
}

/// Disassembles a section for the command line: builds the engine of the
/// family over `d` and walks it from the start (see `cli_run`).
pub fn dis_binary(
    arch: UnidisArch,
    d: Vec<u8>,
    count_limit: &mut Option<i64>,
    lib: &SpecLibrary,
) -> (r: Result<(Vec<Option<UniDisInstruction>>, CliEnd), EngineError>)
    requires
        lib.wf(),
    ensures
        r is Ok <==> crate::disasm::family_builds(*lib, arch),
        r is Err ==> *final(count_limit) == *old(count_limit),
        r matches Ok(w) ==> {
            &&& is_engine_walk(
                w.0@,
                w.1,
                d@,
                lib.files@[crate::arch::spec_default_index(arch)].pspec@,
                lib.files@[crate::arch::spec_default_index(arch)].sla@,
                *old(count_limit) is Some,
            )
            &&& walk_fits(w.0@, d@, 0)
            &&& *old(count_limit) is None ==> *final(count_limit) is None && !(w.1 is CountReached)
            &&& *old(count_limit) matches Some(c) ==> {
                &&& *final(count_limit) == Some(budget_left(c, w.0@.len() as int))
                &&& w.1 is CountReached <==> c <= w.0@.len()
                &&& w.0@.len() <= if c <= 0 { 0 } else { c as int }
            }
            &&& w.1 is Finished ==> walked(w.0@) >= d@.len()
        },
{
    let ghost dv = d@;
    let mut dis = match UniDis::new_arch(d, arch, lib) {
        Ok(x) => x,
        Err(e) => return Err(e),
    };
    assert(dis.spec_data() == dv && dis.spec_pos() == 0);
    let ghost u0 = dis;
    let w = cli_run(&mut dis, count_limit);
    proof {
        let outs = dis.spec_trace().skip(u0.spec_trace().len() as int);
        let (states, mids) = choose|states: Seq<UniDis>, mids: Seq<UniDis>| #[trigger] walk_chain(states, mids, outs)
            && states[0] == u0 && states.last() == dis;
        assert(walk_chain(states, mids, outs));
        assert(is_cli_trace(outs, w.0@, w.1, *old(count_limit) is Some));
    }
    Ok(w)
}

} // verus!

verus! {

/// The address a printed line shows is the instruction's offset plus the
/// section's load address, wrapping at 2^64: at least eight hexadecimal
/// digits that read back as that sum.
pub proof fn lemma_cli_address(l: CliLine, i: UniDisInstruction, offset: u64)
    requires
        line_matches(l, i, offset),
    ensures
        l.address@.len() >= 8,
        crate::numbers::spec_parse_u64(vstd::utf8::encode_utf8(l.address@), 16)
            == Ok::<int, crate::numbers::IntErrorKind>(
                vstd::wrapping::u64_specs::wrapping_add(i.res.address, offset) as int,
            ),
{
    text::lemma_hex_padded_reads_back(vstd::wrapping::u64_specs::wrapping_add(i.res.address, offset) as nat, 8, false);
}

/// Instructions at different offsets of one section are printed at different
/// addresses.
pub proof fn lemma_cli_addresses_differ(l1: CliLine, i1: UniDisInstruction, l2: CliLine, i2: UniDisInstruction, offset: u64)
    requires
        line_matches(l1, i1, offset),
        line_matches(l2, i2, offset),
        i1.res.address != i2.res.address,
    ensures
        l1.address@ != l2.address@,
{
    lemma_cli_address(l1, i1, offset);
    lemma_cli_address(l2, i2, offset);
    let a1 = vstd::wrapping::u64_specs::wrapping_add(i1.res.address, offset);
    let a2 = vstd::wrapping::u64_specs::wrapping_add(i2.res.address, offset);
    assert(a1 != a2);
}

} // verus!
