//! Assembly requests: which assembler target a request asks for, and how the
//! assembled bytes are shown. The assembling itself is done by Keystone.

use vstd::prelude::*;
use crate::arch::UnidisArch;
use crate::archmap::{arch_map_get, get_arch_map};
use crate::archmap;
use crate::numbers::ParseIntError;
use crate::text::{push_hex, string_from_chars};
use crate::listing;
use crate::web::{is_guess_request, parse_base_addr};
use crate::web;

verus! {

/// The assembler architectures used (Keystone's `Arch`).
#[derive(Debug, Clone, Copy, PartialEq, Eq, Structural)]
pub enum AsmArch {
    X86,
    Arm,
    Arm64,
    Hexagon,
}

/// The assembler modes used (Keystone's `Mode`).
#[derive(Debug, Clone, Copy, PartialEq, Eq, Structural)]
pub enum AsmMode {
    Mode64,
    V8,
    LittleEndian,
}

/// What an accepted assembly request asks of the assembler.
#[derive(Debug, Clone, Copy, PartialEq, Eq, Structural)]
pub struct AssemblyPlan {
    pub arch: AsmArch,
    pub mode: AsmMode,
    pub base_addr: u64,
}

/// Why an assembly request was refused before the assembler ran.
#[derive(Debug, Clone, Copy, PartialEq, Eq, Structural)]
pub enum AssembleError {
    /// The input text is empty.
    NoInput,
    /// The base address is not a number.
    BadNumber(ParseIntError),
    /// The request asks for a guess, which assembly cannot make.
    NoGuess,
    /// The family has no assembler target.
    Unsupported,
    /// No specification has the requested identifier.
    ArchNotFound,
}

/// The assembler target of a family, where it has one.
pub open spec fn asm_target(a: UnidisArch) -> Option<(AsmArch, AsmMode)> {
    match a {
        UnidisArch::X86_64 => Some((AsmArch::X86, AsmMode::Mode64)),
        UnidisArch::Arm => Some((AsmArch::Arm, AsmMode::V8)),
        UnidisArch::AArch64 => Some((AsmArch::Arm64, AsmMode::LittleEndian)),
        UnidisArch::Hexagon => Some((AsmArch::Hexagon, AsmMode::LittleEndian)),
        UnidisArch::Riscv => None,
    }
}

/// The assembler target of a family, where it has one.
pub fn target_of(a: UnidisArch) -> (t: Option<(AsmArch, AsmMode)>)
    ensures
        t == asm_target(a),
{
    match a {
        UnidisArch::X86_64 => Some((AsmArch::X86, AsmMode::Mode64)),
        UnidisArch::Arm => Some((AsmArch::Arm, AsmMode::V8)),
        UnidisArch::AArch64 => Some((AsmArch::Arm64, AsmMode::LittleEndian)),
        UnidisArch::Hexagon => Some((AsmArch::Hexagon, AsmMode::LittleEndian)),
        UnidisArch::Riscv => None,
    }
}

/// The answer to an assembly request, checked in this order: empty input,
/// base address, guess label, identifier, family.
pub open spec fn spec_assemble_plan(input: Seq<char>, base: Seq<char>, arch: Seq<char>) -> Result<AssemblyPlan, AssembleError> {
    if input.len() == 0 {
        Err(AssembleError::NoInput)
    } else {
        match web::request_base(base) {
            Err(k) => Err(AssembleError::BadNumber(ParseIntError { kind: k })),
            Ok(b) => if arch == web::guess_label() {
                Err(AssembleError::NoGuess)
            } else {
                match archmap::map_lookup(archmap::spec_arch_map(), arch) {
                    None => Err(AssembleError::ArchNotFound),
                    Some(a) => match asm_target(a) {
                        None => Err(AssembleError::Unsupported),
                        Some(t) => Ok(AssemblyPlan { arch: t.0, mode: t.1, base_addr: b as u64 }),
                    },
                }
            },
        }
    }
}

/// Reads an assembly request: the input must not be empty, the base address
/// must be a number, and the identifier must name a family that has an
/// assembler target.
pub fn assemble_plan(input_data: &str, base_addr: &str, arch: &str) -> (r: Result<AssemblyPlan, AssembleError>)
    ensures
        r == spec_assemble_plan(input_data@, base_addr@, arch@),
{
    if input_data.is_empty() {
        return Err(AssembleError::NoInput);
    }
    let base = match parse_base_addr(base_addr) {
        Ok(b) => b,
        Err(e) => return Err(AssembleError::BadNumber(e)),
    };
    if is_guess_request(arch) {
        return Err(AssembleError::NoGuess);
    }
    let m = get_arch_map();
    let family = match arch_map_get(&m, arch) {
        Some(a) => a,
        None => return Err(AssembleError::ArchNotFound),
    };
    match target_of(family) {
        None => Err(AssembleError::Unsupported),
        Some(t) => Ok(AssemblyPlan { arch: t.0, mode: t.1, base_addr: base }),
    }
}

/// The text shown for a refused assembly request.
pub open spec fn assemble_error_text(e: AssembleError) -> Seq<char> {
    match e {
        AssembleError::NoInput => "Give me something to assemble first"@,
        AssembleError::BadNumber(_) => "Failed to parse number"@,
        AssembleError::NoGuess => "I can't guess what architecture you want to assemble for!"@,
        AssembleError::Unsupported =>
            "Unsupported architecture, currently we can only assemble for:\n- X86_64\n- Arm\n- ARM64\n- Hexagon\n"@,
        AssembleError::ArchNotFound => "Arch not found"@,
    }
}

impl AssembleError {
    /// The text shown for this refusal.
    pub fn message(&self) -> (s: String)
        ensures
            s@ == assemble_error_text(*self),
    {
        match self {
            AssembleError::NoInput => "Give me something to assemble first".to_owned(),
            AssembleError::BadNumber(_) => "Failed to parse number".to_owned(),
            AssembleError::NoGuess => "I can't guess what architecture you want to assemble for!".to_owned(),
            AssembleError::Unsupported =>
                "Unsupported architecture, currently we can only assemble for:\n- X86_64\n- Arm\n- ARM64\n- Hexagon\n".to_owned(),
            AssembleError::ArchNotFound => "Arch not found".to_owned(),
        }
    }
}

/// Assembled bytes as shown: each as two upper-case hexadecimal digits,
/// separated by single spaces.
pub open spec fn assembly_text(bytes: Seq<u8>) -> Seq<char> {
    if bytes.len() == 0 {
        Seq::<char>::empty()
    } else {
        listing::hex_bytes(bytes, true).drop_last()
    }
}

/// Shows assembled bytes: upper-case hexadecimal pairs separated by spaces.
pub fn format_assembly(bytes: &[u8]) -> (s: String)
    ensures
        s@ == assembly_text(bytes@),
{
    let mut out: Vec<char> = Vec::new();
    let mut i: usize = 0;
    while i < bytes.len()
        invariant
            i <= bytes@.len(),
            i > 0 ==> out@ == assembly_text(bytes@.take(i as int)),
            i == 0 ==> out@.len() == 0,
        decreases bytes@.len() - i,
    {
        let ghost before = out@;
        if i > 0 {
            out.push(' ');
        }
        push_hex(&mut out, bytes[i] as u64, 2, true);
        proof {
            let t = bytes@.take(i + 1);
            let prev = bytes@.take(i as int);
            let hp = crate::text::hex_padded(bytes@[i as int] as nat, 2, true);
            assert(t.drop_last() == prev);
            assert(t.last() == bytes@[i as int]);
            assert(listing::hex_bytes(t, true) == listing::hex_bytes(prev, true) + hp + seq![' ']);
            if i > 0 {
                let hb = listing::hex_bytes(prev, true);
                assert(hb == listing::hex_bytes(prev.drop_last(), true)
                    + crate::text::hex_padded(prev.last() as nat, 2, true) + seq![' ']);
                assert(before.push(' ') =~= hb);
                assert(out@ =~= hb + hp);
            } else {
                assert(prev.len() == 0);
                assert(listing::hex_bytes(prev, true) == Seq::<char>::empty());
                assert(out@ =~= hp);
            }
            assert(out@ =~= assembly_text(t));
        }
        i = i + 1;
    }
    proof {
        assert(bytes@.take(i as int) == bytes@);
    }
    string_from_chars(out.as_slice())
}

} // verus!

verus! {

/// The code of the upper-case hexadecimal digit for `d` (below 16).
pub open spec fn digit_code(d: u8) -> u8 {
    if d < 10 {
        (48 + d) as u8
    } else {
        (55 + d) as u8
    }
}

/// The bytes of `b` as a text of hexadecimal digit pairs, without spaces.
pub open spec fn pair_codes(b: Seq<u8>) -> Seq<u8> {
    Seq::new(2 * b.len(), |i: int| if i % 2 == 0 { digit_code(b[i / 2] / 16) } else { digit_code(b[i / 2] % 16) })
}

/// Characters as bytes, one byte each.
pub open spec fn ascii_bytes(s: Seq<char>) -> Seq<u8> {
    s.map_values(|c: char| c as u8)
}

proof fn lemma_hex_pair(v: u8)
    ensures
        crate::text::hex_padded(v as nat, 2, true)
            == seq![crate::text::hex_digit((v / 16) as nat, true), crate::text::hex_digit((v % 16) as nat, true)],
{
    let d = crate::text::hex_digits(v as nat, true);
    if v < 16 {
        assert(d == seq![crate::text::hex_digit(v as nat, true)]);
        assert(crate::text::repeat_char('0', 1) == seq!['0']);
        assert(crate::text::hex_digit(0, true) == '0');
        assert(crate::text::hex_padded(v as nat, 2, true) =~= seq!['0', crate::text::hex_digit(v as nat, true)]);
    } else {
        assert((v / 16) < 16);
        assert(crate::text::hex_digits((v / 16) as nat, true) == seq![crate::text::hex_digit((v / 16) as nat, true)]);
        assert(d =~= seq![crate::text::hex_digit((v / 16) as nat, true), crate::text::hex_digit((v % 16) as nat, true)]);
    }
}

proof fn lemma_digit_char(d: nat)
    requires
        d < 16,
    ensures
        '\0' <= crate::text::hex_digit(d, true) <= '\u{7f}',
        crate::text::hex_digit(d, true) as u8 == digit_code(d as u8),
        crate::text::hex_digit(d, true) != ' ',
{
}

/// The bytes of the text of `b` with a space after each pair, read as ASCII.
proof fn lemma_hex_bytes_ascii(b: Seq<u8>)
    ensures
        vstd::utf8::is_ascii_chars(listing::hex_bytes(b, true)),
        crate::web::without_spaces(ascii_bytes(listing::hex_bytes(b, true))) == pair_codes(b),
        listing::hex_bytes(b, true).len() == 3 * b.len(),
    decreases b.len(),
{
    let hb = listing::hex_bytes(b, true);
    if b.len() == 0 {
        assert(ascii_bytes(hb) =~= Seq::<u8>::empty());
        assert(pair_codes(b) =~= Seq::<u8>::empty());
    } else {
        let p = b.drop_last();
        let v = b.last();
        lemma_hex_bytes_ascii(p);
        lemma_hex_pair(v);
        let hi = crate::text::hex_digit((v / 16) as nat, true);
        let lo = crate::text::hex_digit((v % 16) as nat, true);
        lemma_digit_char((v / 16) as nat);
        lemma_digit_char((v % 16) as nat);
        let hp = listing::hex_bytes(p, true);
        assert(hb == hp + seq![hi, lo] + seq![' ']);
        assert(hb =~= hp + seq![hi, lo, ' ']);
        assert forall|i: int| 0 <= i < hb.len() implies '\0' <= #[trigger] hb[i] <= '\u{7f}' by {
            if i < hp.len() {
                assert(hb[i] == hp[i]);
            }
        }
        assert(ascii_bytes(hb) =~= ascii_bytes(hp) + seq![hi as u8, lo as u8, 32u8]);
        lemma_without_spaces_concat(ascii_bytes(hp), seq![hi as u8, lo as u8, 32u8]);
        let tail = seq![hi as u8, lo as u8, 32u8];
        assert(tail.drop_last() =~= seq![hi as u8, lo as u8]);
        assert(seq![hi as u8, lo as u8].drop_last() =~= seq![hi as u8]);
        assert(seq![hi as u8].drop_last() =~= Seq::<u8>::empty());
        assert(crate::web::without_spaces(tail) =~= seq![hi as u8, lo as u8]) by {
            reveal_with_fuel(crate::web::without_spaces, 4);
        }
        assert(pair_codes(b) =~= pair_codes(p) + seq![digit_code(v / 16), digit_code(v % 16)]);
    }
}

/// Removing spaces from a concatenation removes them from each part.
proof fn lemma_without_spaces_concat(x: Seq<u8>, y: Seq<u8>)
    ensures
        crate::web::without_spaces(x + y) == crate::web::without_spaces(x) + crate::web::without_spaces(y),
    decreases y.len(),
{
    if y.len() == 0 {
        assert(x + y =~= x);
        assert(crate::web::without_spaces(y) =~= Seq::<u8>::empty());
    } else {
        lemma_without_spaces_concat(x, y.drop_last());
        assert((x + y).drop_last() =~= x + y.drop_last());
        assert((x + y).last() == y.last());
    }
}

/// A text of digit pairs has no byte that is not a digit.
proof fn lemma_pairs_all_hex(b: Seq<u8>, n: int)
    requires
        0 <= n <= pair_codes(b).len(),
    ensures
        crate::web::first_non_hex(pair_codes(b).take(n)) is None,
    decreases n,
{
    if n > 0 {
        lemma_pairs_all_hex(b, n - 1);
        let t = pair_codes(b).take(n);
        assert(t.drop_last() =~= pair_codes(b).take(n - 1));
        let i = n - 1;
        let d = if i % 2 == 0 { b[i / 2] / 16 } else { b[i / 2] % 16 };
        assert(t.last() == digit_code(d));
        assert(crate::web::hex_value(digit_code(d)) is Some);
    }
}

/// What the assembly output shows can be read back as disassembly input: the
/// request's hexadecimal text gives the same bytes.
pub proof fn lemma_assembly_text_reads_back(bytes: Seq<u8>)
    ensures
        crate::web::request_bytes(assembly_text(bytes)) == Ok::<Seq<u8>, crate::web::HexError>(bytes),
{
    let hb = listing::hex_bytes(bytes, true);
    lemma_hex_bytes_ascii(bytes);
    let shown = assembly_text(bytes);
    let codes = pair_codes(bytes);
    if bytes.len() == 0 {
        assert(shown =~= Seq::<char>::empty());
        assert(vstd::utf8::encode_utf8(shown) =~= Seq::<u8>::empty());
        assert(crate::web::without_spaces(Seq::<u8>::empty()) =~= Seq::<u8>::empty());
        assert(codes =~= Seq::<u8>::empty());
    } else {
        assert(hb.last() == ' ') by {
            assert(hb == listing::hex_bytes(bytes.drop_last(), true)
                + crate::text::hex_padded(bytes.last() as nat, 2, true) + seq![' ']);
        }
        assert(vstd::utf8::is_ascii_chars(shown)) by {
            assert forall|i: int| 0 <= i < shown.len() implies '\0' <= #[trigger] shown[i] <= '\u{7f}' by {
                assert(shown[i] == hb[i]);
            }
        }
        vstd::utf8::is_ascii_chars_encode_utf8(shown);
        assert(vstd::utf8::encode_utf8(shown) =~= ascii_bytes(shown));
        assert(ascii_bytes(hb) =~= ascii_bytes(shown) + seq![32u8]);
        lemma_without_spaces_concat(ascii_bytes(shown), seq![32u8]);
        assert(seq![32u8].drop_last() =~= Seq::<u8>::empty());
        assert(crate::web::without_spaces(seq![32u8]) =~= Seq::<u8>::empty()) by {
            reveal_with_fuel(crate::web::without_spaces, 2);
        }
        assert(crate::web::without_spaces(ascii_bytes(shown)) =~= codes);
    }
    lemma_pairs_all_hex(bytes, codes.len() as int);
    assert(codes.take(codes.len() as int) =~= codes);
    assert(codes.len() % 2 == 0);
    let decoded = Seq::new(
        (codes.len() / 2) as nat,
        |k: int| (crate::web::hex_value(codes[2 * k]).unwrap() * 16 + crate::web::hex_value(codes[2 * k + 1]).unwrap()) as u8,
    );
    assert forall|k: int| 0 <= k < bytes.len() implies #[trigger] decoded[k] == bytes[k] by {
        assert(codes[2 * k] == digit_code(bytes[k] / 16));
        assert(codes[2 * k + 1] == digit_code(bytes[k] % 16));
    }
    assert(decoded =~= bytes);
}

} // verus!
