//! What the web front ends compute: reading the request's texts, choosing or
//! guessing the processor, and producing the listing or the assembly output.

use vstd::prelude::*;
use crate::arch::{SpecLibrary, UnidisArch};
use crate::archmap::{arch_map_get, get_arch_map, text_order, TextOrder};
use crate::archmap;
use crate::disasm::{decode_run, RunEnd, UniDis, UniDisInstruction};
use crate::disasm;
use crate::listing::{push_web_line};
use crate::listing;
use crate::numbers::{parse_u64, IntErrorKind, ParseIntError};
use crate::numbers;
use crate::sleigh::EngineError;
use crate::text::{push_chars, string_from_chars};
use crate::text;

verus! {

/// A refused hexadecimal text (the variants of `hex::FromHexError`).
#[derive(Debug, Clone, Copy, PartialEq, Eq, Structural)]
pub enum HexError {
    InvalidHexCharacter { c: char, index: usize },
    OddLength,
    InvalidStringLength,
}

/// The value of a hexadecimal digit byte, either case.
pub open spec fn hex_value(c: u8) -> Option<u8> {
    if 48 <= c <= 57 {
        Some((c - 48) as u8)
    } else if 97 <= c <= 102 {
        Some((c - 87) as u8)
    } else if 65 <= c <= 70 {
        Some((c - 55) as u8)
    } else {
        None
    }
}

/// The position of the first byte that is not a hexadecimal digit.
pub open spec fn first_non_hex(b: Seq<u8>) -> Option<int>
    decreases b.len(),
{
    if b.len() == 0 {
        None
    } else {
        match first_non_hex(b.drop_last()) {
            Some(i) => Some(i),
            None => if hex_value(b.last()) is None { Some(b.len() - 1) } else { None },
        }
    }
}

/// What `hex::decode` makes of bytes: an odd length is refused first, then
/// the first byte that is not a digit; otherwise each pair of digits is a byte.
pub open spec fn spec_hex_decode(b: Seq<u8>) -> Result<Seq<u8>, HexError> {
    if b.len() % 2 != 0 {
        Err(HexError::OddLength)
    } else {
        match first_non_hex(b) {
            Some(i) => Err(HexError::InvalidHexCharacter { c: b[i] as char, index: i as usize }),
            None => Ok(Seq::new(
                (b.len() / 2) as nat,
                |k: int| (hex_value(b[2 * k]).unwrap() * 16 + hex_value(b[2 * k + 1]).unwrap()) as u8,
            )),
        }
    }
}

/// `hex::decode` (hex 0.4.3): `FromHex for Vec<u8>` refuses an odd length,
/// then maps each pair through `val`, which accepts `0-9`, `a-f`, `A-F` and
/// reports the first other byte with its index; the collect stops there.
#[verifier::external_body]
fn hex_decode(data: &[u8]) -> (r: Result<Vec<u8>, HexError>)
    ensures
        match r {
            Ok(v) => spec_hex_decode(data@) == Ok::<Seq<u8>, HexError>(v@),
            Err(e) => spec_hex_decode(data@) == Err::<Seq<u8>, HexError>(e),
        },
{
    match hex::decode(data) {
        Ok(v) => Ok(v),
        Err(hex::FromHexError::InvalidHexCharacter { c, index }) => Err(HexError::InvalidHexCharacter { c, index }),
        Err(hex::FromHexError::OddLength) => Err(HexError::OddLength),
        Err(hex::FromHexError::InvalidStringLength) => Err(HexError::InvalidStringLength),
    }
}

/// The bytes without the spaces.
pub open spec fn without_spaces(b: Seq<u8>) -> Seq<u8>
    decreases b.len(),
{
    if b.len() == 0 {
        b
    } else if b.last() == 32 {
        without_spaces(b.drop_last())
    } else {
        without_spaces(b.drop_last()).push(b.last())
    }
}

/// Removes the spaces (byte 32) from `b`.
pub fn remove_spaces(b: &[u8]) -> (r: Vec<u8>)
    ensures
        r@ == without_spaces(b@),
{
    let mut r: Vec<u8> = Vec::new();
    let mut i: usize = 0;
    while i < b.len()
        invariant
            i <= b@.len(),
            r@ == without_spaces(b@.take(i as int)),
        decreases b@.len() - i,
    {
        proof {
            assert(b@.take(i + 1).drop_last() == b@.take(i as int));
        }
        if b[i] != 32 {
            r.push(b[i]);
        }
        i = i + 1;
    }
    proof {
        assert(b@.take(i as int) == b@);
    }
    r
}

/// Decodes a hexadecimal text in which spaces are ignored.
pub fn decode_hex_input(input: &str) -> (r: Result<Vec<u8>, HexError>)
    ensures
        match r {
            Ok(v) => spec_hex_decode(without_spaces(vstd::utf8::encode_utf8(input@))) == Ok::<Seq<u8>, HexError>(v@),
            Err(e) => spec_hex_decode(without_spaces(vstd::utf8::encode_utf8(input@))) == Err::<Seq<u8>, HexError>(e),
        },
{
    let b = remove_spaces(input.as_bytes());
    hex_decode(b.as_slice())
}

/// A base address: hexadecimal after a `0x` prefix, decimal otherwise.
pub open spec fn spec_parse_base_addr(b: Seq<u8>) -> Result<int, IntErrorKind> {
    if b.len() >= 2 && b[0] == 48 && b[1] == 120 {
        numbers::spec_parse_u64(b.skip(2), 16)
    } else {
        numbers::spec_parse_u64(b, 10)
    }
}

/// Reads a base address: hexadecimal after a `0x` prefix, decimal otherwise.
pub fn parse_base_addr(s: &str) -> (r: Result<u64, ParseIntError>)
    ensures
        match r {
            Ok(v) => spec_parse_base_addr(vstd::utf8::encode_utf8(s@)) == Ok::<int, IntErrorKind>(v as int),
            Err(e) => spec_parse_base_addr(vstd::utf8::encode_utf8(s@)) == Err::<int, IntErrorKind>(e.kind),
        },
{
    let b = s.as_bytes();
    if b.len() >= 2 && b[0] == 48 && b[1] == 120 {
        let rest = slice_from(b, 2);
        parse_u64(rest.as_slice(), 16)
    } else {
        parse_u64(b, 10)
    }
}

/// Copies `s[start..]`.
fn slice_from(s: &[u8], start: usize) -> (r: Vec<u8>)
    requires
        start <= s@.len(),
    ensures
        r@ == s@.skip(start as int),
{
    let mut r: Vec<u8> = Vec::new();
    let mut k = start;
    while k < s.len()
        invariant
            start <= k <= s@.len(),
            r@ == s@.subrange(start as int, k as int),
        decreases s@.len() - k,
    {
        r.push(s[k]);
        proof {
            assert(s@.subrange(start as int, k + 1) == s@.subrange(start as int, k as int).push(s@[k as int]));
        }
        k = k + 1;
    }
    r
}

} // verus!

verus! {

/// The web listing of a run of instructions: the line of each, in order.
pub open spec fn listing_of(instrs: Seq<UniDisInstruction>, base: u64, with_addr: bool, with_bytes: bool) -> Seq<char>
    decreases instrs.len(),
{
    if instrs.len() == 0 {
        Seq::<char>::empty()
    } else {
        listing_of(instrs.drop_last(), base, with_addr, with_bytes)
            + listing::web_line_of(instrs.last(), base, with_addr, with_bytes)
    }
}

/// Renders the web listing of a run of instructions, addresses shifted by `base`.
pub fn listing_text(instrs: &Vec<UniDisInstruction>, base: u64, with_addr: bool, with_bytes: bool) -> (s: String)
    ensures
        s@ == listing_of(instrs@, base, with_addr, with_bytes),
{
    let mut out: Vec<char> = Vec::new();
    let mut i: usize = 0;
    while i < instrs.len()
        invariant
            i <= instrs@.len(),
            out@ == listing_of(instrs@.take(i as int), base, with_addr, with_bytes),
        decreases instrs@.len() - i,
    {
        proof {
            assert(instrs@.take(i + 1).drop_last() == instrs@.take(i as int));
        }
        push_web_line(&mut out, &instrs[i], base, with_addr, with_bytes);
        i = i + 1;
    }
    proof {
        assert(instrs@.take(i as int) == instrs@);
    }
    string_from_chars(out.as_slice())
}

/// The best guess so far over a list of (family, bytes decoded): the first
/// family that decoded strictly more bytes than every one before it, with
/// its count; ARM with 0 when none decoded any.
pub open spec fn best_guess(counts: Seq<(UnidisArch, usize)>) -> (int, UnidisArch)
    decreases counts.len(),
{
    if counts.len() == 0 {
        (0, UnidisArch::Arm)
    } else {
        let r = best_guess(counts.drop_last());
        if counts.last().1 > r.0 {
            (counts.last().1 as int, counts.last().0)
        } else {
            r
        }
    }
}

/// Picks the family that decoded the most bytes; the first one on a tie, ARM
/// when none decoded any.
pub fn pick_best(counts: &Vec<(UnidisArch, usize)>) -> (a: UnidisArch)
    ensures
        a == best_guess(counts@).1,
{
    let mut best: usize = 0;
    let mut arch = UnidisArch::Arm;
    let mut i: usize = 0;
    while i < counts.len()
        invariant
            i <= counts@.len(),
            (best as int, arch) == best_guess(counts@.take(i as int)),
        decreases counts@.len() - i,
    {
        proof {
            assert(counts@.take(i + 1).drop_last() == counts@.take(i as int));
        }
        if counts[i].1 > best {
            best = counts[i].1;
            arch = counts[i].0;
        }
        i = i + 1;
    }
    proof {
        assert(counts@.take(i as int) == counts@);
    }
    arch
}

/// `run` is what a whole run of decoding (see `decode_run`) over `x` made
/// with the engine of the family `fam`: successive calls of `next` on a
/// disassembler built from that family's files over `x`, through
/// `decode_step`, give these instructions and a reason to stop, which is the
/// end of the data exactly when the run covers all of `x`.
pub open spec fn run_ends(run: Seq<UniDisInstruction>, x: Seq<u8>, lib: SpecLibrary, fam: UnidisArch) -> bool {
    exists|end: RunEnd|
        #[trigger] disasm::is_family_run(run, end, x, lib, fam)
            && (end is EndOfData <==> disasm::covered_bytes(run).len() >= x.len())
}

/// `a` is a guess that counts of whole runs over `x`, one per identifier, make.
pub open spec fn is_guess(x: Seq<u8>, lib: SpecLibrary, a: UnidisArch) -> bool {
    exists|counts: Seq<(UnidisArch, usize)>, runs: Seq<Seq<UniDisInstruction>>|
        #[trigger] counts_fit(counts, runs, x, lib) && a == best_guess(counts).1
}

/// Counts that go with the identifier map: one per entry, in map order, each
/// for that entry's family and each the number of bytes covered by a whole
/// run of instructions decoded back to back over `x` from its start by the
/// engine of that family.
pub open spec fn counts_fit(
    counts: Seq<(UnidisArch, usize)>,
    runs: Seq<Seq<UniDisInstruction>>,
    x: Seq<u8>,
    lib: SpecLibrary,
) -> bool {
    &&& counts.len() == archmap::spec_arch_map().len()
    &&& runs.len() == counts.len()
    &&& forall|k: int| 0 <= k < counts.len() ==> {
        &&& (#[trigger] counts[k]).0 == archmap::spec_arch_map()[k].1
        &&& disasm::tiles(runs[k], x, 0)
        &&& run_ends(runs[k], x, lib, counts[k].0)
        &&& counts[k].1 == disasm::covered_bytes(runs[k]).len()
    }
}

/// The number of bytes the instructions occupy, one after another.
pub fn count_decoded(instrs: &Vec<UniDisInstruction>) -> (n: usize)
    requires
        disasm::covered_bytes(instrs@).len() <= usize::MAX,
    ensures
        n == disasm::covered_bytes(instrs@).len(),
{
    let mut n: usize = 0;
    let mut i: usize = 0;
    while i < instrs.len()
        invariant
            i <= instrs@.len(),
            n == disasm::covered_bytes(instrs@.take(i as int)).len(),
            disasm::covered_bytes(instrs@).len() <= usize::MAX,
        decreases instrs@.len() - i,
    {
        proof {
            assert(instrs@.take(i + 1).drop_last() == instrs@.take(i as int));
            lemma_covered_prefix(instrs@, i as int + 1);
        }
        n = n + instrs[i].bytes.len();
        i = i + 1;
    }
    proof {
        assert(instrs@.take(i as int) == instrs@);
    }
    n
}

/// The bytes of a prefix of instructions are no more than those of all.
proof fn lemma_covered_prefix(s: Seq<UniDisInstruction>, n: int)
    requires
        0 <= n <= s.len(),
    ensures
        disasm::covered_bytes(s.take(n)).len() <= disasm::covered_bytes(s).len(),
    decreases s.len() - n,
{
    if n < s.len() {
        lemma_covered_prefix(s, n + 1);
        assert(s.take(n + 1).drop_last() == s.take(n));
    } else {
        assert(s.take(n) == s);
    }
}

/// Guesses the family of `x`: decodes it with the specification of every
/// identifier, in identifier order, from the start until the end, the first
/// failure or an instruction of no bytes (see `decode_run`), counts the bytes
/// decoded (see `count_decoded`), and picks the family that decoded the most
/// (see `pick_best`). Fails exactly when an engine cannot be built; the
/// family picked then builds.
pub fn guess_arch(x: &[u8], lib: &SpecLibrary) -> (r: Result<UnidisArch, EngineError>)
    requires
        lib.wf(),
    ensures
        r is Ok <==> forall|k: int| 0 <= k < archmap::spec_arch_map().len() ==>
            disasm::family_builds(*lib, (#[trigger] archmap::spec_arch_map()[k]).1),
        r matches Ok(a) ==> disasm::family_builds(*lib, a),
        r matches Ok(a) ==> is_guess(x@, *lib, a),
{
    let m = get_arch_map();
    let mut counts: Vec<(UnidisArch, usize)> = Vec::new();
    let ghost mut runs: Seq<Seq<UniDisInstruction>> = Seq::empty();
    let _n = x.len();
    let mut i: usize = 0;
    while i < m.len()
        invariant
            lib.wf(),
            x@.len() <= usize::MAX,
            archmap::map_value(m@) == archmap::spec_arch_map(),
            i <= m@.len(),
            counts@.len() == i,
            runs.len() == i,
            forall|k: int| 0 <= k < i ==> disasm::family_builds(*lib, (#[trigger] archmap::spec_arch_map()[k]).1),
            forall|k: int| 0 <= k < i ==> {
                &&& (#[trigger] counts@[k]).0 == archmap::spec_arch_map()[k].1
                &&& disasm::tiles(runs[k], x@, 0)
                &&& run_ends(runs[k], x@, *lib, counts@[k].0)
                &&& counts@[k].1 == disasm::covered_bytes(runs[k]).len()
            },
        decreases m@.len() - i,
    {
        let bytes = slice_from(x, 0);
        assert(bytes@ == x@.skip(0));
        assert(archmap::map_value(m@)[i as int].1 == m@[i as int].1);
        let mut dis = match UniDis::new_arch(bytes, m[i].1, lib) {
            Ok(d) => d,
            Err(e) => {
                assert(!disasm::family_builds(*lib, archmap::spec_arch_map()[i as int].1));
                return Err(e);
            },
        };
        assert(dis.spec_data() == x@ && dis.spec_pos() == 0);
        let ghost u0 = dis;
        let run = decode_run(&mut dis);
        proof {
            if run.0@.len() > 0 {
                assert(disasm::covered_bytes(run.0@).len() <= x@.len());
            }
            disasm::lemma_fresh_run(u0, dis, (run.0@, run.1), x@, *lib, m@[i as int].1);
            assert(run_ends(run.0@, x@, *lib, m@[i as int].1));
        }
        let c = count_decoded(&run.0);
        let ghost before = counts@;
        let ghost runs_before = runs;
        counts.push((m[i].1, c));
        proof {
            runs = runs.push(run.0@);
            assert forall|k: int| 0 <= k < i implies counts@[k] == before[k] && runs[k] == runs_before[k] by {}
            assert forall|k: int| 0 <= k < i + 1 implies {
                &&& (#[trigger] counts@[k]).0 == archmap::spec_arch_map()[k].1
                &&& disasm::tiles(runs[k], x@, 0)
                &&& run_ends(runs[k], x@, *lib, counts@[k].0)
                &&& counts@[k].1 == disasm::covered_bytes(runs[k]).len()
            } by {
                if k == i {
                    assert(archmap::map_value(m@)[k].1 == m@[k].1);
                }
            }
        }
        i = i + 1;
    }
    let a = pick_best(&counts);
    proof {
        assert(counts_fit(counts@, runs, x@, *lib));
        assert(is_guess(x@, *lib, a));
        lemma_best_guess_is_largest(counts@);
        if best_guess(counts@).0 > 0 {
            let k = choose|k: int| {
                &&& 0 <= k < counts@.len()
                &&& (#[trigger] counts@[k]).1 == best_guess(counts@).0
                &&& counts@[k].0 == best_guess(counts@).1
                &&& forall|j: int| 0 <= j < k ==> (#[trigger] counts@[j]).1 < best_guess(counts@).0
            };
            assert(disasm::family_builds(*lib, archmap::spec_arch_map()[k].1));
        } else {
            archmap::lemma_family_in_map(UnidisArch::Arm);
            let j = choose|j: int| 0 <= j < archmap::spec_arch_map().len()
                && (#[trigger] archmap::spec_arch_map()[j]).1 == UnidisArch::Arm;
            assert(disasm::family_builds(*lib, archmap::spec_arch_map()[j].1));
        }
    }
    Ok(a)
}

} // verus!

verus! {

/// The label with which a request leaves the choice of family to a guess.
pub open spec fn guess_label() -> Seq<char> {
    "Guess for me"@
}

/// Whether a requested identifier asks for a guess.
pub fn is_guess_request(arch: &str) -> (b: bool)
    ensures
        b == (arch@ == guess_label()),
{
    text_order(arch, "Guess for me") == TextOrder::Same
}

/// The bytes a request's hexadecimal text stands for, spaces ignored.
pub open spec fn request_bytes(input: Seq<char>) -> Result<Seq<u8>, HexError> {
    spec_hex_decode(without_spaces(vstd::utf8::encode_utf8(input)))
}

/// The base address a request's text stands for.
pub open spec fn request_base(base: Seq<char>) -> Result<int, IntErrorKind> {
    spec_parse_base_addr(vstd::utf8::encode_utf8(base))
}

/// `text` is the web listing of instructions decoded back to back over
/// `bytes` from its start.
pub open spec fn is_run_listing(
    text: Seq<char>,
    bytes: Seq<u8>,
    base: u64,
    with_addr: bool,
    with_bytes: bool,
    lib: SpecLibrary,
    fam: UnidisArch,
) -> bool {
    exists|instrs: Seq<UniDisInstruction>|
        disasm::tiles(instrs, bytes, 0) && run_ends(instrs, bytes, lib, fam)
            && text == #[trigger] listing_of(instrs, base, with_addr, with_bytes)
}

/// `text` is the listing of a whole run over `bytes` by the engine of the
/// family the request names: the one the identifier `arch` maps to, or, for
/// the guess label, a family guessed from `bytes` (see `is_guess`).
pub open spec fn is_request_listing(
    text: Seq<char>,
    bytes: Seq<u8>,
    base: u64,
    with_addr: bool,
    with_bytes: bool,
    lib: SpecLibrary,
    arch: Seq<char>,
) -> bool {
    if arch == guess_label() {
        exists|a: UnidisArch|
            is_guess(bytes, lib, a) && #[trigger] is_run_listing(text, bytes, base, with_addr, with_bytes, lib, a)
    } else {
        archmap::map_lookup(archmap::spec_arch_map(), arch) is Some && is_run_listing(
            text,
            bytes,
            base,
            with_addr,
            with_bytes,
            lib,
            archmap::map_lookup(archmap::spec_arch_map(), arch)->Some_0,
        )
    }
}

/// An engine is built for the family of every entry of the identifier map.
pub open spec fn all_families_build(lib: SpecLibrary) -> bool {
    forall|k: int| 0 <= k < archmap::spec_arch_map().len() ==>
        disasm::family_builds(lib, (#[trigger] archmap::spec_arch_map()[k]).1)
}

/// The input is not empty and both texts of a request can be read.
pub open spec fn request_ok(input: Seq<char>, base: Seq<char>) -> bool {
    input.len() > 0 && request_base(base) is Ok && request_bytes(input) is Ok
}

/// Why a disassembly request was refused.
#[derive(Debug)]
pub enum DisasmError {
    /// The input text is empty.
    NoInput,
    /// The base address is not a number.
    BadNumber(ParseIntError),
    /// The input is not hexadecimal.
    BadHex(HexError),
    /// An engine could not be built while guessing the family.
    GuessFailed(EngineError),
    /// No specification has the requested identifier.
    BadArch,
    /// The engine for the chosen family could not be built.
    CreateFailed(EngineError),
}

/// The text shown for a refused disassembly request.
pub open spec fn disasm_error_text(e: DisasmError) -> Seq<char> {
    match e {
        DisasmError::NoInput => "Give me something to disassemble first"@,
        DisasmError::BadNumber(_) => "Failed to parse number"@,
        DisasmError::BadHex(_) => "I can't decode that as hex, sorry"@,
        DisasmError::GuessFailed(inner) => "Failed to guess arch: new arch fail\n\nCaused by:\n    "@ + inner.message@,
        DisasmError::BadArch => "Bad arch"@,
        DisasmError::CreateFailed(_) => "Failed to create arch"@,
    }
}

impl DisasmError {
    /// The text shown for this refusal.
    pub fn message(&self) -> (s: String)
        ensures
            s@ == disasm_error_text(*self),
    {
        match self {
            DisasmError::NoInput => "Give me something to disassemble first".to_owned(),
            DisasmError::BadNumber(_) => "Failed to parse number".to_owned(),
            DisasmError::BadHex(_) => "I can't decode that as hex, sorry".to_owned(),
            DisasmError::GuessFailed(inner) => {
                let mut out: Vec<char> = Vec::new();
                push_chars(&mut out, "Failed to guess arch: new arch fail\n\nCaused by:\n    ");
                push_chars(&mut out, inner.message.as_str());
                string_from_chars(out.as_slice())
            },
            DisasmError::BadArch => "Bad arch".to_owned(),
            DisasmError::CreateFailed(_) => "Failed to create arch".to_owned(),
        }
    }
}

/// Disassembles a request of the web front end: `input_data` is hexadecimal
/// (spaces ignored), `base_addr` is added to each address, `arch` is an
/// identifier of the map or the guess label. The checks come in this order:
/// empty input, base address, hexadecimal, identifier; then the engine is
/// built and the bytes are decoded from the start until the end or the first
/// failure, and the listing of what was decoded is returned.
pub fn disassemble_impl(
    input_data: &str,
    base_addr: &str,
    arch: &str,
    with_addr: bool,
    with_bytes: bool,
    lib: &SpecLibrary,
) -> (r: Result<String, DisasmError>)
    requires
        lib.wf(),
    ensures
        input_data@.len() == 0 <==> r matches Err(DisasmError::NoInput),
        input_data@.len() > 0 && request_base(base_addr@) is Err ==>
            (r matches Err(DisasmError::BadNumber(e)) && request_base(base_addr@) == Err::<int, IntErrorKind>(e.kind)),
        input_data@.len() > 0 && request_base(base_addr@) is Ok && request_bytes(input_data@) is Err ==>
            (r matches Err(DisasmError::BadHex(e)) && request_bytes(input_data@) == Err::<Seq<u8>, HexError>(e)),
        request_ok(input_data@, base_addr@) && arch@ == guess_label() ==>
            (r is Ok || r matches Err(DisasmError::GuessFailed(_))),
        request_ok(input_data@, base_addr@) && arch@ == guess_label() ==>
            (r matches Err(DisasmError::GuessFailed(_)) <==> !all_families_build(*lib)),
        request_ok(input_data@, base_addr@) && arch@ != guess_label()
            && archmap::map_lookup(archmap::spec_arch_map(), arch@) is None ==> r matches Err(DisasmError::BadArch),
        request_ok(input_data@, base_addr@) && arch@ != guess_label()
            && archmap::map_lookup(archmap::spec_arch_map(), arch@) is Some ==>
            (r is Ok || r matches Err(DisasmError::CreateFailed(_))),
        request_ok(input_data@, base_addr@) && arch@ != guess_label()
            && archmap::map_lookup(archmap::spec_arch_map(), arch@) is Some ==>
            (r matches Err(DisasmError::CreateFailed(_)) <==> !disasm::family_builds(
                *lib,
                archmap::map_lookup(archmap::spec_arch_map(), arch@)->Some_0,
            )),
        r matches Ok(s) ==> {
            &&& request_base(base_addr@) matches Ok(b)
            &&& request_bytes(input_data@) matches Ok(bytes)
            &&& is_request_listing(s@, bytes, b as u64, with_addr, with_bytes, *lib, arch@)
        },
{
    if input_data.is_empty() {
        return Err(DisasmError::NoInput);
    }
    let base = match parse_base_addr(base_addr) {
        Ok(b) => b,
        Err(e) => return Err(DisasmError::BadNumber(e)),
    };
    let x = match decode_hex_input(input_data) {
        Ok(v) => v,
        Err(e) => return Err(DisasmError::BadHex(e)),
    };
    let family = if is_guess_request(arch) {
        match guess_arch(x.as_slice(), lib) {
            Ok(a) => a,
            Err(e) => return Err(DisasmError::GuessFailed(e)),
        }
    } else {
        let m = get_arch_map();
        match arch_map_get(&m, arch) {
            Some(v) => v,
            None => return Err(DisasmError::BadArch),
        }
    };
    let ghost xv = x@;
    let mut dis = match UniDis::new_arch(x, family, lib) {
        Ok(d) => d,
        Err(e) => return Err(DisasmError::CreateFailed(e)),
    };
    assert(dis.spec_data() == xv && dis.spec_pos() == 0);
    let ghost u0 = dis;
    let run = decode_run(&mut dis);
    let out = listing_text(&run.0, base, with_addr, with_bytes);
    proof {
        disasm::lemma_fresh_run(u0, dis, (run.0@, run.1), xv, *lib, family);
        assert(run_ends(run.0@, xv, *lib, family));
        assert(request_base(base_addr@) == Ok::<int, IntErrorKind>(base as int));
        assert(request_bytes(input_data@) == Ok::<Seq<u8>, HexError>(xv));
        assert(disasm::tiles(run.0@, xv, 0));
        assert(out@ == listing_of(run.0@, (base as int) as u64, with_addr, with_bytes));
        assert(is_run_listing(out@, xv, (base as int) as u64, with_addr, with_bytes, *lib, family));
        assert(is_request_listing(out@, xv, (base as int) as u64, with_addr, with_bytes, *lib, arch@));
    }
    Ok(out)
}

} // verus!

verus! {

/// The guess goes to the family that decoded the most bytes: no family
/// decoded more, every family before it decoded fewer, and when none decoded
/// any the guess is ARM.
pub proof fn lemma_best_guess_is_largest(counts: Seq<(UnidisArch, usize)>)
    ensures
        forall|k: int| 0 <= k < counts.len() ==> (#[trigger] counts[k]).1 <= best_guess(counts).0,
        best_guess(counts).0 == 0 ==> best_guess(counts).1 == UnidisArch::Arm,
        best_guess(counts).0 > 0 ==> exists|k: int| {
            &&& 0 <= k < counts.len()
            &&& (#[trigger] counts[k]).1 == best_guess(counts).0
            &&& counts[k].0 == best_guess(counts).1
            &&& forall|j: int| 0 <= j < k ==> (#[trigger] counts[j]).1 < best_guess(counts).0
        },
    decreases counts.len(),
{
    if counts.len() > 0 {
        let prev = counts.drop_last();
        lemma_best_guess_is_largest(prev);
        let r = best_guess(prev);
        assert forall|k: int| 0 <= k < prev.len() implies #[trigger] counts[k] == prev[k] by {}
        if counts.last().1 > r.0 {
            let k = counts.len() - 1;
            assert(counts[k].1 == best_guess(counts).0);
            assert forall|j: int| 0 <= j < k implies (#[trigger] counts[j]).1 < best_guess(counts).0 by {
                assert(counts[j] == prev[j]);
            }
        } else if r.0 > 0 {
            let k = choose|k: int| {
                &&& 0 <= k < prev.len()
                &&& (#[trigger] prev[k]).1 == r.0
                &&& prev[k].0 == r.1
                &&& forall|j: int| 0 <= j < k ==> (#[trigger] prev[j]).1 < r.0
            };
            assert(counts[k] == prev[k]);
            assert forall|j: int| 0 <= j < k implies (#[trigger] counts[j]).1 < best_guess(counts).0 by {
                assert(counts[j] == prev[j]);
            }
        }
    }
}

} // verus!
