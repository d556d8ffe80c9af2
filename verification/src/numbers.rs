//! Integer parsing with the semantics of the standard library's
//! `from_str_radix`: an optional sign, then digits of the radix, checked for
//! overflow digit by digit.

use vstd::prelude::*;

verus! {

/// Why a text is not an integer (the kinds `core::num::IntErrorKind` uses).
#[derive(Debug, Clone, Copy, PartialEq, Eq, Structural)]
pub enum IntErrorKind {
    Empty,
    InvalidDigit,
    PosOverflow,
    NegOverflow,
}

/// A refused integer text.
#[derive(Debug, Clone, Copy, PartialEq, Eq, Structural)]
pub struct ParseIntError {
    pub kind: IntErrorKind,
}

/// The value of an ASCII digit in `radix` (`char::to_digit`), if it is one.
pub open spec fn digit_of(c: u8, radix: nat) -> Option<nat> {
    let v: int = if 48 <= c <= 57 {
        c - 48
    } else if 97 <= c <= 122 {
        c - 87
    } else if 65 <= c <= 90 {
        c - 55
    } else {
        36
    };
    if v < radix {
        Some(v as nat)
    } else {
        None
    }
}

/// Folds the digits left to right into a value within `[min, max]`,
/// subtracting each digit when `neg` holds; the first digit that is invalid,
/// or that takes the value out of range, decides the error.
pub open spec fn scan_digits(digits: Seq<u8>, radix: nat, neg: bool, min: int, max: int) -> Result<int, IntErrorKind>
    decreases digits.len(),
{
    if digits.len() == 0 {
        Ok(0)
    } else {
        match scan_digits(digits.drop_last(), radix, neg, min, max) {
            Err(e) => Err(e),
            Ok(v) => match digit_of(digits.last(), radix) {
                None => Err(IntErrorKind::InvalidDigit),
                Some(d) => {
                    let w = if neg { v * radix - d } else { v * radix + d };
                    if w > max {
                        Err(IntErrorKind::PosOverflow)
                    } else if w < min {
                        Err(IntErrorKind::NegOverflow)
                    } else {
                        Ok(w)
                    }
                },
            },
        }
    }
}

/// What `from_str_radix` makes of the bytes `src` for a type with range
/// `[min, max]`; `signed` tells whether a leading `-` is a sign.
pub open spec fn spec_parse_int(src: Seq<u8>, radix: nat, signed: bool, min: int, max: int) -> Result<int, IntErrorKind> {
    if src.len() == 0 {
        Err(IntErrorKind::Empty)
    } else if src.len() == 1 && (src[0] == 43 || src[0] == 45) {
        Err(IntErrorKind::InvalidDigit)
    } else if src[0] == 43 {
        scan_digits(src.drop_first(), radix, false, min, max)
    } else if src[0] == 45 && signed {
        scan_digits(src.drop_first(), radix, true, min, max)
    } else {
        scan_digits(src, radix, false, min, max)
    }
}

/// `u64::from_str_radix` on bytes.
pub open spec fn spec_parse_u64(src: Seq<u8>, radix: nat) -> Result<int, IntErrorKind> {
    spec_parse_int(src, radix, false, 0, u64::MAX as int)
}

/// `i64::from_str_radix` on bytes.
pub open spec fn spec_parse_i64(src: Seq<u8>, radix: nat) -> Result<int, IntErrorKind> {
    spec_parse_int(src, radix, true, i64::MIN as int, i64::MAX as int)
}

fn digit_value(c: u8, radix: u32) -> (d: Option<u32>)
    requires
        2 <= radix <= 36,
    ensures
        match digit_of(c, radix as nat) {
            Some(v) => d == Some(v as u32),
            None => d is None,
        },
{
    let v: u32 = if 48 <= c && c <= 57 {
        (c - 48) as u32
    } else if 97 <= c && c <= 122 {
        (c - 87) as u32
    } else if 65 <= c && c <= 90 {
        (c - 55) as u32
    } else {
        36
    };
    if v < radix {
        Some(v)
    } else {
        None
    }
}

proof fn lemma_scan_step(digits: Seq<u8>, i: int, radix: nat, neg: bool, min: int, max: int)
    requires
        0 <= i < digits.len(),
    ensures
        scan_digits(digits.take(i + 1), radix, neg, min, max) == match scan_digits(digits.take(i), radix, neg, min, max) {
            Err(e) => Err(e),
            Ok(v) => match digit_of(digits[i], radix) {
                None => Err(IntErrorKind::InvalidDigit),
                Some(d) => {
                    let w = if neg { v * radix - d } else { v * radix + d };
                    if w > max {
                        Err(IntErrorKind::PosOverflow)
                    } else if w < min {
                        Err(IntErrorKind::NegOverflow)
                    } else {
                        Ok(w)
                    }
                },
            },
        },
{
    assert(digits.take(i + 1).drop_last() == digits.take(i));
}

/// Parses an unsigned 64-bit integer as `u64::from_str_radix` does.
pub fn parse_u64(src: &[u8], radix: u32) -> (r: Result<u64, ParseIntError>)
    requires
        2 <= radix <= 36,
    ensures
        match r {
            Ok(v) => spec_parse_u64(src@, radix as nat) == Ok::<int, IntErrorKind>(v as int),
            Err(e) => spec_parse_u64(src@, radix as nat) == Err::<int, IntErrorKind>(e.kind),
        },
{
    let n = src.len();
    if n == 0 {
        return Err(ParseIntError { kind: IntErrorKind::Empty });
    }
    if n == 1 && (src[0] == 43 || src[0] == 45) {
        return Err(ParseIntError { kind: IntErrorKind::InvalidDigit });
    }
    let start: usize = if src[0] == 43 { 1 } else { 0 };
    let ghost digits = src@.skip(start as int);
    assert(start == 1 ==> digits == src@.drop_first());
    assert(start == 0 ==> digits == src@);
    let mut acc: u64 = 0;
    let mut i: usize = start;
    assert(digits.take(0) == Seq::<u8>::empty());
    assert(spec_parse_u64(src@, radix as nat) == scan_digits(digits, radix as nat, false, 0, u64::MAX as int));
    while i < n
        invariant
            spec_parse_u64(src@, radix as nat) == scan_digits(digits, radix as nat, false, 0, u64::MAX as int),
            start <= i <= n,
            n == src@.len(),
            digits == src@.skip(start as int),
            scan_digits(digits.take(i - start), radix as nat, false, 0, u64::MAX as int) == Ok::<int, IntErrorKind>(acc as int),
            2 <= radix <= 36,
        decreases n - i,
    {
        proof {
            lemma_scan_step(digits, i - start, radix as nat, false, 0, u64::MAX as int);
            assert(digits[i - start] == src@[i as int]);
        }
        let mul = acc.checked_mul(radix as u64);
        let d = match digit_value(src[i], radix) {
            Some(d) => d,
            None => {
                proof {
                    lemma_scan_error_stays(digits, (i - start + 1) as int, radix as nat, false, 0, u64::MAX as int);
                }
                return Err(ParseIntError { kind: IntErrorKind::InvalidDigit });
            },
        };
        let m = match mul {
            Some(m) => m,
            None => {
                proof {
                    lemma_scan_error_stays(digits, (i - start + 1) as int, radix as nat, false, 0, u64::MAX as int);
                }
                return Err(ParseIntError { kind: IntErrorKind::PosOverflow });
            },
        };
        acc = match m.checked_add(d as u64) {
            Some(v) => v,
            None => {
                proof {
                    lemma_scan_error_stays(digits, (i - start + 1) as int, radix as nat, false, 0, u64::MAX as int);
                }
                return Err(ParseIntError { kind: IntErrorKind::PosOverflow });
            },
        };
        i = i + 1;
    }
    proof {
        assert(digits.take(i - start) == digits);
    }
    Ok(acc)
}

/// Parses a signed 64-bit integer as `i64::from_str_radix` does.
pub fn parse_i64(src: &[u8], radix: u32) -> (r: Result<i64, ParseIntError>)
    requires
        2 <= radix <= 36,
    ensures
        match r {
            Ok(v) => spec_parse_i64(src@, radix as nat) == Ok::<int, IntErrorKind>(v as int),
            Err(e) => spec_parse_i64(src@, radix as nat) == Err::<int, IntErrorKind>(e.kind),
        },
{
    let n = src.len();
    if n == 0 {
        return Err(ParseIntError { kind: IntErrorKind::Empty });
    }
    if n == 1 && (src[0] == 43 || src[0] == 45) {
        return Err(ParseIntError { kind: IntErrorKind::InvalidDigit });
    }
    let neg = src[0] == 45;
    let start: usize = if src[0] == 43 || src[0] == 45 { 1 } else { 0 };
    let ghost digits = src@.skip(start as int);
    let ghost lo = i64::MIN as int;
    let ghost hi = i64::MAX as int;
    assert(start == 1 ==> digits == src@.drop_first());
    assert(start == 0 ==> digits == src@);
    let mut acc: i64 = 0;
    let mut i: usize = start;
    assert(digits.take(0) == Seq::<u8>::empty());
    assert(spec_parse_i64(src@, radix as nat) == scan_digits(digits, radix as nat, neg, lo, hi));
    while i < n
        invariant
            spec_parse_i64(src@, radix as nat) == scan_digits(digits, radix as nat, neg, lo, hi),
            lo == i64::MIN as int,
            hi == i64::MAX as int,
            neg ==> acc <= 0,
            !neg ==> acc >= 0,
            neg == (src@[0] == 45),
            start <= i <= n,
            n == src@.len(),
            digits == src@.skip(start as int),
            scan_digits(digits.take(i - start), radix as nat, neg, lo, hi) == Ok::<int, IntErrorKind>(acc as int),
            2 <= radix <= 36,
        decreases n - i,
    {
        proof {
            lemma_scan_step(digits, i - start, radix as nat, neg, lo, hi);
            assert(digits[i - start] == src@[i as int]);
        }
        let mul = acc.checked_mul(radix as i64);
        let d = match digit_value(src[i], radix) {
            Some(d) => d,
            None => {
                proof {
                    lemma_scan_error_stays(digits, (i - start + 1) as int, radix as nat, neg, lo, hi);
                }
                return Err(ParseIntError { kind: IntErrorKind::InvalidDigit });
            },
        };
        let overflow = if neg { IntErrorKind::NegOverflow } else { IntErrorKind::PosOverflow };
        proof {
            assert(neg ==> acc * radix <= 0) by (nonlinear_arith)
                requires neg ==> acc <= 0, radix >= 2;
            assert(!neg ==> acc * radix >= 0) by (nonlinear_arith)
                requires !neg ==> acc >= 0, radix >= 2;
        }
        let m = match mul {
            Some(m) => m,
            None => {
                proof {
                    lemma_scan_error_stays(digits, (i - start + 1) as int, radix as nat, neg, lo, hi);
                }
                return Err(ParseIntError { kind: overflow });
            },
        };
        let next = if neg { m.checked_sub(d as i64) } else { m.checked_add(d as i64) };
        acc = match next {
            Some(v) => v,
            None => {
                proof {
                    lemma_scan_error_stays(digits, (i - start + 1) as int, radix as nat, neg, lo, hi);
                }
                return Err(ParseIntError { kind: overflow });
            },
        };
        i = i + 1;
    }
    proof {
        assert(digits.take(i - start) == digits);
    }
    Ok(acc)
}

/// Once a prefix of the digits is refused, so is every longer prefix, for
/// the same reason.
proof fn lemma_scan_error_stays(digits: Seq<u8>, k: int, radix: nat, neg: bool, min: int, max: int)
    requires
        0 <= k <= digits.len(),
        scan_digits(digits.take(k), radix, neg, min, max) is Err,
    ensures
        scan_digits(digits, radix, neg, min, max) == scan_digits(digits.take(k), radix, neg, min, max),
    decreases digits.len() - k,
{
    if k < digits.len() {
        lemma_scan_step(digits, k, radix, neg, min, max);
        lemma_scan_error_stays(digits, k + 1, radix, neg, min, max);
    } else {
        assert(digits.take(k) == digits);
    }
}

} // verus!
