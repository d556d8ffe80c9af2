//! Listings: the text the web front ends show for a run of disassembled
//! instructions, and the pieces of a line of the command-line listing.

use vstd::prelude::*;
use crate::disasm::UniDisInstruction;
use crate::text::{push_chars, push_hex, push_repeat};
use crate::text;

verus! {

/// The pieces joined with `sep` between neighbours.
pub open spec fn join_text(pieces: Seq<Seq<char>>, sep: Seq<char>) -> Seq<char>
    decreases pieces.len(),
{
    if pieces.len() == 0 {
        Seq::<char>::empty()
    } else if pieces.len() == 1 {
        pieces[0]
    } else {
        join_text(pieces.drop_last(), sep) + sep + pieces.last()
    }
}

/// Each byte as two hexadecimal digits followed by a space.
pub open spec fn hex_bytes(bytes: Seq<u8>, upper: bool) -> Seq<char>
    decreases bytes.len(),
{
    if bytes.len() == 0 {
        Seq::<char>::empty()
    } else {
        hex_bytes(bytes.drop_last(), upper) + text::hex_padded(bytes.last() as nat, 2, upper) + seq![' ']
    }
}

/// The start of a web listing line: optionally the address (`{:08x}: `),
/// optionally the bytes (`{:02X} ` each).
pub open spec fn web_prefix(address: u64, bytes: Seq<u8>, with_addr: bool, with_bytes: bool) -> Seq<char> {
    (if with_addr { text::hex_padded(address as nat, 8, false) + seq![':', ' '] } else { Seq::<char>::empty() })
        + (if with_bytes { hex_bytes(bytes, true) } else { Seq::<char>::empty() })
}

/// The rest of a web listing line: eight spaces, the mnemonic, four spaces
/// when there are operands, the operands joined by `, `, and a newline.
pub open spec fn web_body(mnemonic: Seq<char>, args: Seq<Seq<char>>) -> Seq<char> {
    text::repeat_char(' ', 8) + mnemonic
        + (if args.len() > 0 { text::repeat_char(' ', 4) } else { Seq::<char>::empty() })
        + join_text(args, seq![',', ' ']) + seq!['\n']
}

/// One line of the web listing.
pub open spec fn web_line(
    address: u64,
    bytes: Seq<u8>,
    mnemonic: Seq<char>,
    args: Seq<Seq<char>>,
    with_addr: bool,
    with_bytes: bool,
) -> Seq<char> {
    web_prefix(address, bytes, with_addr, with_bytes) + web_body(mnemonic, args)
}

/// The web listing line of an instruction whose address is shifted by `base`
/// (wrapping at 2^64).
pub open spec fn web_line_of(c: UniDisInstruction, base: u64, with_addr: bool, with_bytes: bool) -> Seq<char> {
    web_line(
        vstd::wrapping::u64_specs::wrapping_add(c.res.address, base),
        c.bytes@,
        c.res.mnemonic@,
        text::split_by(c.res.body@, ','),
        with_addr,
        with_bytes,
    )
}

/// Appends each byte as two hexadecimal digits and a space.
pub fn push_hex_bytes(out: &mut Vec<char>, bytes: &[u8], upper: bool)
    ensures
        final(out)@ == old(out)@ + hex_bytes(bytes@, upper),
{
    let mut i: usize = 0;
    while i < bytes.len()
        invariant
            i <= bytes@.len(),
            out@ == old(out)@ + hex_bytes(bytes@.take(i as int), upper),
        decreases bytes@.len() - i,
    {
        proof {
            assert(bytes@.take(i + 1).drop_last() == bytes@.take(i as int));
        }
        push_hex(out, bytes[i] as u64, 2, upper);
        out.push(' ');
        i = i + 1;
    }
    proof {
        assert(bytes@.take(i as int) == bytes@);
    }
}

/// Appends the pieces joined with `sep`.
pub fn push_joined(out: &mut Vec<char>, pieces: &Vec<String>, sep: &str)
    ensures
        final(out)@ == old(out)@ + join_text(pieces@.map_values(|p: String| p@), sep@),
{
    let ghost ps = pieces@.map_values(|p: String| p@);
    let mut i: usize = 0;
    while i < pieces.len()
        invariant
            i <= pieces@.len(),
            ps == pieces@.map_values(|p: String| p@),
            out@ == old(out)@ + join_text(ps.take(i as int), sep@),
        decreases pieces@.len() - i,
    {
        proof {
            assert(ps.take(i + 1).drop_last() == ps.take(i as int));
        }
        if i > 0 {
            push_chars(out, sep);
        }
        push_chars(out, pieces[i].as_str());
        proof {
            if i == 0 {
                assert(ps.take(1) == seq![ps[0]]);
            }
        }
        i = i + 1;
    }
    proof {
        assert(ps.take(i as int) == ps);
    }
}

fn push_web_prefix(out: &mut Vec<char>, address: u64, bytes: &[u8], with_addr: bool, with_bytes: bool)
    ensures
        final(out)@ == old(out)@ + web_prefix(address, bytes@, with_addr, with_bytes),
{
    let ghost start = out@;
    if with_addr {
        push_hex(out, address, 8, false);
        out.push(':');
        out.push(' ');
    }
    let ghost p1 = if with_addr { text::hex_padded(address as nat, 8, false) + seq![':', ' '] } else { Seq::<char>::empty() };
    assert(out@ =~= start + p1);
    let ghost a = out@;
    if with_bytes {
        push_hex_bytes(out, bytes, true);
    }
    let ghost p2 = if with_bytes { hex_bytes(bytes@, true) } else { Seq::<char>::empty() };
    assert(out@ =~= a + p2);
    assert(out@ =~= start + (p1 + p2));
}

fn push_web_body(out: &mut Vec<char>, mnemonic: &str, args: &Vec<String>)
    ensures
        final(out)@ == old(out)@ + web_body(mnemonic@, args@.map_values(|p: String| p@)),
{
    let ghost start = out@;
    push_repeat(out, ' ', 8);
    push_chars(out, mnemonic);
    let ghost p3 = text::repeat_char(' ', 8) + mnemonic@;
    assert(out@ =~= start + p3);
    let ghost d = out@;
    if args.len() > 0 {
        push_repeat(out, ' ', 4);
    }
    let ghost pieces = args@.map_values(|p: String| p@);
    let ghost p4 = if pieces.len() > 0 { text::repeat_char(' ', 4) } else { Seq::<char>::empty() };
    assert(out@ =~= d + p4);
    let ghost e = out@;
    proof {
        reveal_strlit(", ");
    }
    push_joined(out, args, ", ");
    out.push('\n');
    let ghost p5 = join_text(pieces, seq![',', ' ']) + seq!['\n'];
    assert(", "@ =~= seq![',', ' ']);
    assert(out@ =~= e + p5);
    assert(out@ =~= start + (p3 + p4 + p5));
}

/// Appends the web listing line of `c`, its address shifted by `base`.
pub fn push_web_line(out: &mut Vec<char>, c: &UniDisInstruction, base: u64, with_addr: bool, with_bytes: bool)
    ensures
        final(out)@ == old(out)@ + web_line_of(*c, base, with_addr, with_bytes),
{
    let ghost start = out@;
    let addr = c.address().wrapping_add(base);
    push_web_prefix(out, addr, c.bytes(), with_addr, with_bytes);
    let ghost mid = out@;
    let args = c.args();
    push_web_body(out, c.res.mnemonic.as_str(), &args);
    assert(out@ =~= start + (web_prefix(addr, c.bytes@, with_addr, with_bytes) + web_body(c.res.mnemonic@, args@.map_values(|p: String| p@))));
}

} // verus!

verus! {

/// The total length of the pieces.
pub open spec fn total_len(pieces: Seq<Seq<char>>) -> int
    decreases pieces.len(),
{
    if pieces.len() == 0 {
        0
    } else {
        total_len(pieces.drop_last()) + pieces.last().len()
    }
}

/// Joining keeps every piece: the result is as long as all the pieces
/// together plus one separator between each two neighbours.
pub proof fn lemma_join_text_len(pieces: Seq<Seq<char>>, sep: Seq<char>)
    requires
        pieces.len() >= 1,
    ensures
        join_text(pieces, sep).len() == total_len(pieces) + sep.len() * (pieces.len() - 1),
    decreases pieces.len(),
{
    if pieces.len() > 1 {
        lemma_join_text_len(pieces.drop_last(), sep);
        assert(sep.len() * (pieces.len() - 1) == sep.len() * (pieces.len() - 2) + sep.len()) by (nonlinear_arith);
    } else {
        assert(total_len(pieces.drop_last()) == 0);
    }
}

/// Joining with a one-character separator is `join_with`, which undoes
/// `split_by`.
pub proof fn lemma_join_text_single(pieces: Seq<Seq<char>>, c: char)
    ensures
        join_text(pieces, seq![c]) == text::join_with(pieces, c),
    decreases pieces.len(),
{
    if pieces.len() > 1 {
        lemma_join_text_single(pieces.drop_last(), c);
    }
}

/// The operands of a listing line are all the pieces of the operand text:
/// joined again with a comma they give that text back, and the operand part
/// of the line, joined with `, `, is one character longer per comma.
pub proof fn lemma_operands_kept(body: Seq<char>)
    ensures
        join_text(text::split_by(body, ','), seq![',']) == body,
        join_text(text::split_by(body, ','), seq![',', ' ']).len()
            == body.len() + text::split_by(body, ',').len() - 1,
{
    let ps = text::split_by(body, ',');
    text::lemma_split_nonempty(body, ',');
    lemma_join_text_single(ps, ',');
    text::lemma_split_join(body, ',');
    lemma_join_text_len(ps, seq![',']);
    lemma_join_text_len(ps, seq![',', ' ']);
}

/// The address a web listing line shows is the instruction's address plus the
/// base address, wrapping at 2^64: the line starts with at least eight
/// hexadecimal digits, then `: `, and those digits read back as that sum.
pub proof fn lemma_web_line_address(c: UniDisInstruction, base: u64, with_bytes: bool)
    ensures
        exists|n: int| {
            &&& 8 <= n
            &&& n + 2 <= web_line_of(c, base, true, with_bytes).len()
            &&& web_line_of(c, base, true, with_bytes)[n] == ':'
            &&& web_line_of(c, base, true, with_bytes)[n + 1] == ' '
            &&& crate::numbers::spec_parse_u64(
                vstd::utf8::encode_utf8(#[trigger] web_line_of(c, base, true, with_bytes).take(n)),
                16,
            ) == Ok::<int, crate::numbers::IntErrorKind>(
                vstd::wrapping::u64_specs::wrapping_add(c.res.address, base) as int,
            )
        },
{
    let a = vstd::wrapping::u64_specs::wrapping_add(c.res.address, base);
    let h = text::hex_padded(a as nat, 8, false);
    text::lemma_hex_padded_reads_back(a as nat, 8, false);
    let line = web_line_of(c, base, true, with_bytes);
    let n = h.len() as int;
    let rest = (if with_bytes { hex_bytes(c.bytes@, true) } else { Seq::<char>::empty() })
        + web_body(c.res.mnemonic@, text::split_by(c.res.body@, ','));
    assert(line =~= h + seq![':', ' '] + rest);
    assert(line.take(n) =~= h);
    assert(line[n] == ':' && line[n + 1] == ' ');
}

} // verus!
