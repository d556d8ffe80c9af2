//! Character-level helpers: splitting a text at a separator, and building
//! strings from characters.

use vstd::prelude::*;
use crate::numbers;

verus! {

/// The pieces of `s` between occurrences of `sep`, in order, as `str::split`
/// produces them: one more piece than there are separators, empty pieces
/// included.
pub open spec fn split_by(s: Seq<char>, sep: char) -> Seq<Seq<char>>
    decreases s.len(),
{
    if s.len() == 0 {
        seq![Seq::<char>::empty()]
    } else {
        let r = split_by(s.drop_last(), sep);
        if s.last() == sep {
            r.push(Seq::<char>::empty())
        } else {
            r.update(r.len() - 1, r.last().push(s.last()))
        }
    }
}

/// The pieces joined with `sep` between neighbours.
pub open spec fn join_with(pieces: Seq<Seq<char>>, sep: char) -> Seq<char>
    decreases pieces.len(),
{
    if pieces.len() == 0 {
        Seq::<char>::empty()
    } else if pieces.len() == 1 {
        pieces[0]
    } else {
        join_with(pieces.drop_last(), sep) + seq![sep] + pieces.last()
    }
}

/// `split_by` never yields an empty list.
pub proof fn lemma_split_nonempty(s: Seq<char>, sep: char)
    ensures
        split_by(s, sep).len() >= 1,
    decreases s.len(),
{
    if s.len() > 0 {
        lemma_split_nonempty(s.drop_last(), sep);
    }
}

/// Joining the pieces of a split with the same separator gives back the text.
pub proof fn lemma_split_join(s: Seq<char>, sep: char)
    ensures
        join_with(split_by(s, sep), sep) == s,
    decreases s.len(),
{
    if s.len() > 0 {
        let p = s.drop_last();
        lemma_split_join(p, sep);
        lemma_split_nonempty(p, sep);
        let r = split_by(p, sep);
        if s.last() == sep {
            assert(r.push(Seq::<char>::empty()).drop_last() == r);
            assert(s == p + seq![sep] + Seq::<char>::empty());
        } else {
            let r2 = r.update(r.len() - 1, r.last().push(s.last()));
            if r.len() == 1 {
                assert(s == r[0].push(s.last()));
            } else {
                assert(r2.drop_last() == r.drop_last());
                assert(join_with(r, sep) == join_with(r.drop_last(), sep) + seq![sep] + r.last());
                let q = join_with(r.drop_last(), sep);
                assert(p == q + seq![sep] + r.last());
                assert(s =~= p.push(s.last()));
                assert(p.push(s.last()) =~= q + seq![sep] + r.last().push(s.last()));
            }
        }
    }
}

/// No piece of a split holds the separator.
pub proof fn lemma_split_pieces_free(s: Seq<char>, sep: char)
    ensures
        forall|i: int, j: int|
            0 <= i < split_by(s, sep).len() && 0 <= j < split_by(s, sep)[i].len()
                ==> split_by(s, sep)[i][j] != sep,
    decreases s.len(),
{
    if s.len() > 0 {
        lemma_split_pieces_free(s.drop_last(), sep);
        lemma_split_nonempty(s.drop_last(), sep);
    }
}

/// The number of pieces is one more than the number of separators.
pub proof fn lemma_split_count(s: Seq<char>, sep: char)
    ensures
        split_by(s, sep).len() == s.filter(|c: char| c == sep).len() + 1,
    decreases s.len(),
{
    reveal_with_fuel(Seq::<_>::filter, 1);
    if s.len() > 0 {
        lemma_split_count(s.drop_last(), sep);
        lemma_split_nonempty(s.drop_last(), sep);
    }
}

/// Turns characters into a `String` (`String::from_iter`).
#[verifier::external_body]
pub(crate) fn string_from_chars(chars: &[char]) -> (s: String)
    ensures
        s@ == chars@,
{
    String::from_iter(chars.iter())
}

/// Splits `s` at every `sep`, as `str::split` does.
pub fn split_string(s: &str, sep: char) -> (pieces: Vec<String>)
    ensures
        pieces@.map_values(|p: String| p@) == split_by(s@, sep),
{
    let n = s.unicode_len();
    let mut pieces: Vec<String> = Vec::new();
    let mut cur: Vec<char> = Vec::new();
    let mut i: usize = 0;
    while i < n
        invariant
            n == s@.len(),
            i <= n,
            pieces@.map_values(|p: String| p@).push(cur@) == split_by(s@.take(i as int), sep),
        decreases n - i,
    {
        let c = s.get_char(i);
        proof {
            assert(s@.take(i + 1).drop_last() == s@.take(i as int));
            assert(s@.take(i + 1).last() == c);
        }
        if c == sep {
            let piece = string_from_chars(cur.as_slice());
            pieces.push(piece);
            cur = Vec::new();
            proof {
                assert(pieces@.map_values(|p: String| p@).push(cur@)
                    == split_by(s@.take(i as int), sep).push(Seq::<char>::empty()));
            }
        } else {
            let ghost old_cur = cur@;
            cur.push(c);
            proof {
                let r = split_by(s@.take(i as int), sep);
                assert(pieces@.map_values(|p: String| p@).push(cur@)
                    == r.update(r.len() - 1, r.last().push(c)));
            }
        }
        i = i + 1;
    }
    let last = string_from_chars(cur.as_slice());
    pieces.push(last);
    proof {
        assert(s@.take(n as int) == s@);
        assert(pieces@.map_values(|p: String| p@)
            == split_by(s@.take(i as int), sep));
    }
    pieces
}

/// Appends the characters of `s` to `out`.
pub fn push_chars(out: &mut Vec<char>, s: &str)
    ensures
        final(out)@ == old(out)@ + s@,
{
    let n = s.unicode_len();
    let mut i: usize = 0;
    while i < n
        invariant
            n == s@.len(),
            i <= n,
            out@ == old(out)@ + s@.take(i as int),
        decreases n - i,
    {
        out.push(s.get_char(i));
        proof {
            assert(s@.take(i + 1) == s@.take(i as int).push(s@[i as int]));
        }
        i = i + 1;
    }
    proof {
        assert(s@.take(n as int) == s@);
    }
}

/// `n` copies of `c`.
pub open spec fn repeat_char(c: char, n: nat) -> Seq<char> {
    Seq::new(n, |i: int| c)
}

/// Appends `n` copies of `c` to `out`.
pub fn push_repeat(out: &mut Vec<char>, c: char, n: usize)
    ensures
        final(out)@ == old(out)@ + repeat_char(c, n as nat),
{
    let mut i: usize = 0;
    while i < n
        invariant
            i <= n,
            out@ == old(out)@ + repeat_char(c, i as nat),
        decreases n - i,
    {
        out.push(c);
        proof {
            assert(repeat_char(c, (i + 1) as nat) == repeat_char(c, i as nat).push(c));
        }
        i = i + 1;
    }
}

/// The hexadecimal digit for `d` (below 16), lower or upper case.
pub open spec fn hex_digit(d: nat, upper: bool) -> char {
    if d < 10 {
        (48 + d) as char
    } else if upper {
        (55 + d) as char
    } else {
        (87 + d) as char
    }
}

/// The hexadecimal digits of `v`, most significant first, without leading
/// zeros (`0` for zero).
pub open spec fn hex_digits(v: nat, upper: bool) -> Seq<char>
    decreases v,
{
    if v < 16 {
        seq![hex_digit(v, upper)]
    } else {
        hex_digits(v / 16, upper).push(hex_digit(v % 16, upper))
    }
}

/// `v` in hexadecimal, padded with zeros on the left to at least `width`
/// characters (what `{:0width$x}` and `{:0width$X}` print).
pub open spec fn hex_padded(v: nat, width: nat, upper: bool) -> Seq<char> {
    let d = hex_digits(v, upper);
    if d.len() < width {
        repeat_char('0', (width - d.len()) as nat) + d
    } else {
        d
    }
}

fn hex_char(d: u64, upper: bool) -> (c: char)
    requires
        d < 16,
    ensures
        c == hex_digit(d as nat, upper),
{
    if d < 10 {
        ((48 + d) as u8) as char
    } else if upper {
        ((55 + d) as u8) as char
    } else {
        ((87 + d) as u8) as char
    }
}

fn hex_len(v: u64) -> (n: usize)
    ensures
        n == hex_digits(v as nat, false).len(),
        forall|u: bool| #[trigger] hex_digits(v as nat, u).len() == n,
        n <= 16,
    decreases v,
{
    proof {
        lemma_hex_len_any(v as nat);
        reveal_with_fuel(pow16, 17);
        assert(pow16(16) == 0x1_0000_0000_0000_0000);
        lemma_hex_len_le(v as nat, 16);
    }
    if v < 16 {
        1
    } else {
        let n = hex_len(v / 16);
        n + 1
    }
}

proof fn lemma_hex_len_any(v: nat)
    ensures
        forall|u: bool| #[trigger] hex_digits(v, u).len() == hex_digits(v, false).len(),
    decreases v,
{
    if v >= 16 {
        lemma_hex_len_any(v / 16);
        assert forall|u: bool| #[trigger] hex_digits(v, u).len() == hex_digits(v, false).len() by {
            assert(hex_digits(v, u).len() == hex_digits(v / 16, u).len() + 1);
            assert(hex_digits(v / 16, u).len() == hex_digits(v / 16, false).len());
        }
    }
}

/// Below `16^k` a number has at most `k` hexadecimal digits.
proof fn lemma_hex_len_le(v: nat, k: nat)
    requires
        k >= 1,
        v < pow16(k),
    ensures
        hex_digits(v, false).len() <= k,
    decreases k,
{
    if v >= 16 {
        assert(k >= 2) by {
            if k == 1 {
                assert(pow16(1) == 16 * pow16(0));
            }
        }
        assert(pow16(k) == 16 * pow16((k - 1) as nat));
        assert(v / 16 < pow16((k - 1) as nat)) by (nonlinear_arith)
            requires v < pow16(k), pow16(k) == 16 * pow16((k - 1) as nat);
        lemma_hex_len_le(v / 16, (k - 1) as nat);
    }
}

/// `16^k`.
pub open spec fn pow16(k: nat) -> nat
    decreases k,
{
    if k == 0 {
        1
    } else {
        16 * pow16((k - 1) as nat)
    }
}

fn push_hex_digits(out: &mut Vec<char>, v: u64, upper: bool)
    ensures
        final(out)@ == old(out)@ + hex_digits(v as nat, upper),
    decreases v,
{
    if v >= 16 {
        push_hex_digits(out, v / 16, upper);
    }
    let c = hex_char(v % 16, upper);
    out.push(c);
    proof {
        if v >= 16 {
            assert(hex_digits(v as nat, upper) == hex_digits((v / 16) as nat, upper).push(c));
        }
    }
}

/// Appends `v` in hexadecimal, zero-padded on the left to `width` characters.
pub fn push_hex(out: &mut Vec<char>, v: u64, width: usize, upper: bool)
    ensures
        final(out)@ == old(out)@ + hex_padded(v as nat, width as nat, upper),
{
    let n = hex_len(v);
    if n < width {
        push_repeat(out, '0', width - n);
    }
    let ghost mid = out@;
    push_hex_digits(out, v, upper);
    proof {
        if n < width {
            assert(out@ == old(out)@ + (repeat_char('0', (width - n) as nat) + hex_digits(v as nat, upper)));
        } else {
            assert(out@ == old(out)@ + hex_digits(v as nat, upper));
        }
    }
}

} // verus!

verus! {

/// The codes of characters taken one byte each.
pub open spec fn char_codes(s: Seq<char>) -> Seq<u8> {
    s.map_values(|c: char| c as u8)
}

proof fn lemma_hex_digit_code(d: nat, upper: bool)
    requires
        d < 16,
    ensures
        numbers::digit_of(hex_digit(d, upper) as u8, 16) == Some(d),
        '\0' <= hex_digit(d, upper) <= '\u{7f}',
        48 <= hex_digit(d, upper) as u8 <= 102,
{
}

proof fn lemma_hex_digits_scan(v: nat, upper: bool)
    requires
        v <= u64::MAX,
    ensures
        numbers::scan_digits(char_codes(hex_digits(v, upper)), 16, false, 0, u64::MAX as int) == Ok::<int, numbers::IntErrorKind>(v as int),
        hex_digits(v, upper).len() >= 1,
        forall|i: int| 0 <= i < hex_digits(v, upper).len() ==>
            '\0' <= #[trigger] hex_digits(v, upper)[i] <= '\u{7f}' && 48 <= hex_digits(v, upper)[i] as u8 <= 102,
    decreases v,
{
    let h = hex_digits(v, upper);
    let cs = char_codes(h);
    if v < 16 {
        lemma_hex_digit_code(v, upper);
        assert(cs.drop_last() =~= Seq::<u8>::empty());
        assert(cs.last() == hex_digit(v, upper) as u8);
        assert(numbers::scan_digits(cs.drop_last(), 16, false, 0, u64::MAX as int) == Ok::<int, numbers::IntErrorKind>(0));
        assert(0 * 16 + v == v);
    } else {
        let q = v / 16;
        let r = v % 16;
        lemma_hex_digits_scan(q, upper);
        lemma_hex_digit_code(r, upper);
        let hq = hex_digits(q, upper);
        assert(h == hq.push(hex_digit(r, upper)));
        assert(cs.drop_last() =~= char_codes(hq));
        assert(cs.last() == hex_digit(r, upper) as u8);
        assert(numbers::scan_digits(cs.drop_last(), 16, false, 0, u64::MAX as int) == Ok::<int, numbers::IntErrorKind>(q as int));
        assert(q * 16 + r == v) by (nonlinear_arith)
            requires
                q == v / 16,
                r == v % 16,
        ;
        assert forall|i: int| 0 <= i < h.len() implies
            '\0' <= #[trigger] h[i] <= '\u{7f}' && 48 <= h[i] as u8 <= 102 by {
            if i < hq.len() {
                assert(h[i] == hq[i]);
            }
        }
    }
}

proof fn lemma_scan_zeros(z: nat, s: Seq<u8>)
    ensures
        numbers::scan_digits(Seq::new(z, |i: int| 48u8) + s, 16, false, 0, u64::MAX as int)
            == numbers::scan_digits(s, 16, false, 0, u64::MAX as int),
    decreases z + s.len(),
{
    let zs = Seq::new(z, |i: int| 48u8);
    if s.len() == 0 {
        assert(zs + s =~= zs);
        if z > 0 {
            let zp = Seq::new((z - 1) as nat, |i: int| 48u8);
            lemma_scan_zeros((z - 1) as nat, Seq::<u8>::empty());
            assert(zp + Seq::<u8>::empty() =~= zp);
            assert(zs.drop_last() =~= zp);
        }
    } else {
        lemma_scan_zeros(z, s.drop_last());
        assert((zs + s).drop_last() =~= zs + s.drop_last());
        assert((zs + s).last() == s.last());
    }
}

/// A number written in hexadecimal by `hex_padded` reads back as itself:
/// the text is ASCII, at least `width` long, and `u64::from_str_radix(.., 16)`
/// of it gives the number.
pub proof fn lemma_hex_padded_reads_back(v: nat, width: nat, upper: bool)
    requires
        v <= u64::MAX,
    ensures
        vstd::utf8::is_ascii_chars(hex_padded(v, width, upper)),
        hex_padded(v, width, upper).len() >= width,
        hex_padded(v, width, upper).len() >= 1,
        numbers::spec_parse_u64(vstd::utf8::encode_utf8(hex_padded(v, width, upper)), 16)
            == Ok::<int, numbers::IntErrorKind>(v as int),
{
    let d = hex_digits(v, upper);
    let hp = hex_padded(v, width, upper);
    lemma_hex_digits_scan(v, upper);
    let z: nat = if d.len() < width { (width - d.len()) as nat } else { 0 };
    let zs = Seq::new(z, |i: int| 48u8);
    assert(hp =~= repeat_char('0', z) + d);
    assert(char_codes(hp) =~= zs + char_codes(d));
    lemma_scan_zeros(z, char_codes(d));
    assert forall|i: int| 0 <= i < hp.len() implies '\0' <= #[trigger] hp[i] <= '\u{7f}' by {
        if i >= z {
            assert(hp[i] == d[i - z]);
        }
    }
    vstd::utf8::is_ascii_chars_encode_utf8(hp);
    assert(vstd::utf8::encode_utf8(hp) =~= char_codes(hp));
    let src = char_codes(hp);
    if z == 0 {
        assert(src[0] == d[0] as u8);
    } else {
        assert(src[0] == 48u8);
    }
}

} // verus!
