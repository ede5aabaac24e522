//! The coercers: decode the value a navigation stopped at as one requested
//! scalar type, or report it absent. A kind mismatch is absence, never an
//! error, so a batch over heterogeneous documents never aborts on data.

use vstd::prelude::*;

use crate::scan::Kind;
use crate::scan::is_digit;
use crate::scan::kind_at;
use crate::scan::number_end;
use crate::scan::digits_end;
use crate::scan::skip_digits;
use crate::scan::skip_number;
use crate::scan::skip_string;
use crate::scan::skip_value;
use crate::scan::string_end;
use crate::scan::value_end;

verus! {

/// Value of one hexadecimal digit byte, or -1 where the byte is none.
pub open spec fn hex_val(b: u8) -> int {
    if 0x30 <= b <= 0x39 {
        b - 0x30
    } else if 0x41 <= b <= 0x46 {
        b - 0x41 + 10
    } else if 0x61 <= b <= 0x66 {
        b - 0x61 + 10
    } else {
        -1
    }
}

/// Value of the four hexadecimal digits at `s[i..i+4)`, all of which must
/// sit before `end`.
pub open spec fn hex4(s: Seq<u8>, i: int, end: int) -> Option<int> {
    if 0 <= i && i + 4 <= end && end <= s.len() && hex_val(s[i]) >= 0 && hex_val(s[i + 1]) >= 0
        && hex_val(s[i + 2]) >= 0 && hex_val(s[i + 3]) >= 0 {
        Some(
            hex_val(s[i]) * 0x1000 + hex_val(s[i + 1]) * 0x100 + hex_val(s[i + 2]) * 0x10 + hex_val(
                s[i + 3],
            ),
        )
    } else {
        None
    }
}

/// What a single-character escape decodes to.
pub open spec fn esc_byte(b: u8) -> Option<u8> {
    if b == 0x22 {
        Some(0x22)
    } else if b == 0x5c {
        Some(0x5c)
    } else if b == 0x2f {
        Some(0x2f)
    } else if b == 0x62 {
        Some(0x08)
    } else if b == 0x66 {
        Some(0x0c)
    } else if b == 0x6e {
        Some(0x0a)
    } else if b == 0x72 {
        Some(0x0d)
    } else if b == 0x74 {
        Some(0x09)
    } else {
        None
    }
}

/// The UTF-8 encoding of one code point.
pub open spec fn utf8_enc(cp: int) -> Seq<u8> {
    if cp < 0x80 {
        seq![cp as u8]
    } else if cp < 0x800 {
        seq![(0xc0 + cp / 0x40) as u8, (0x80 + cp % 0x40) as u8]
    } else if cp < 0x10000 {
        seq![
            (0xe0 + cp / 0x1000) as u8,
            (0x80 + (cp / 0x40) % 0x40) as u8,
            (0x80 + cp % 0x40) as u8,
        ]
    } else {
        seq![
            (0xf0 + cp / 0x40000) as u8,
            (0x80 + (cp / 0x1000) % 0x40) as u8,
            (0x80 + (cp / 0x40) % 0x40) as u8,
            (0x80 + cp % 0x40) as u8,
        ]
    }
}

/// The decoded bytes of the string body `s[i..end)`: escapes resolved, a
/// `\u` escape encoded as UTF-8, a surrogate pair combined, a lone
/// surrogate, a bad escape or an unescaped control byte rejected.
pub open spec fn unescaped(s: Seq<u8>, i: int, end: int) -> Option<Seq<u8>>
    decreases end - i,
{
    if !(0 <= i && end <= s.len()) {
        None
    } else if i >= end {
        Some(Seq::empty())
    } else if s[i] == 0x5c {
        if i + 1 >= end {
            None
        } else if s[i + 1] == 0x75 {
            match hex4(s, i + 2, end) {
                None => None,
                Some(cp) => if 0xd800 <= cp < 0xdc00 {
                    if i + 12 <= end && s[i + 6] == 0x5c && s[i + 7] == 0x75 {
                        match hex4(s, i + 8, end) {
                            None => None,
                            Some(lo) => if 0xdc00 <= lo < 0xe000 {
                                match unescaped(s, i + 12, end) {
                                    None => None,
                                    Some(rest) => Some(
                                        utf8_enc(
                                            0x10000 + (cp - 0xd800) * 0x400 + (lo - 0xdc00),
                                        ) + rest,
                                    ),
                                }
                            } else {
                                None
                            },
                        }
                    } else {
                        None
                    }
                } else if 0xdc00 <= cp < 0xe000 {
                    None
                } else {
                    match unescaped(s, i + 6, end) {
                        None => None,
                        Some(rest) => Some(utf8_enc(cp) + rest),
                    }
                },
            }
        } else {
            match esc_byte(s[i + 1]) {
                None => None,
                Some(b) => match unescaped(s, i + 2, end) {
                    None => None,
                    Some(rest) => Some(seq![b] + rest),
                },
            }
        }
    } else if s[i] < 0x20 {
        None
    } else {
        match unescaped(s, i + 1, end) {
            None => None,
            Some(rest) => Some(seq![s[i]] + rest),
        }
    }
}

/// The decoded text of the string value that starts at `i`, at its opening
/// quote.
pub open spec fn decoded_text(s: Seq<u8>, i: int) -> Option<Seq<u8>> {
    match string_end(s, i + 1) {
        None => None,
        Some(k) => unescaped(s, i + 1, k - 1),
    }
}

/// Decimal value of the digit run `s[i..end)`.
pub open spec fn digits_val(s: Seq<u8>, i: int, end: int) -> int
    decreases end - i,
{
    if !(0 <= i && i < end && end <= s.len()) {
        0
    } else {
        digits_val(s, i, end - 1) * 10 + (s[end - 1] - 0x30)
    }
}

/// End of the literal that starts at `i` read as a plain integer: a sign and
/// digits with nothing after them, no fraction and no exponent.
pub open spec fn int_literal_end(s: Seq<u8>, i: int) -> Option<int> {
    let d0 = if 0 <= i < s.len() && s[i] == 0x2d {
        i + 1
    } else {
        i
    };
    let k = digits_end(s, d0);
    if k == d0 {
        None
    } else if k < s.len() && (s[k] == 0x2e || s[k] == 0x65 || s[k] == 0x45) {
        None
    } else {
        Some(k)
    }
}

/// The value at `i` read as a signed 64-bit integer: absent unless a plain
/// integer literal starts there and its value fits.
pub open spec fn int_at(s: Seq<u8>, i: int) -> Option<i64> {
    match int_literal_end(s, i) {
        None => None,
        Some(k) => {
            let neg = 0 <= i < s.len() && s[i] == 0x2d;
            let d0 = if neg {
                i + 1
            } else {
                i
            };
            let mag = digits_val(s, d0, k);
            let v = if neg {
                -mag
            } else {
                mag
            };
            if i64::MIN <= v <= i64::MAX {
                Some(v as i64)
            } else {
                None
            }
        },
    }
}

/// The value at `i` read as a boolean: absent unless one of the two boolean
/// literals starts there.
pub open spec fn bool_at(s: Seq<u8>, i: int) -> Option<bool> {
    if !(0 <= i < s.len()) {
        None
    } else if s[i] == 0x74 && i + 4 <= s.len() && s[i + 1] == 0x72 && s[i + 2] == 0x75 && s[i + 3]
        == 0x65 {
        Some(true)
    } else if s[i] == 0x66 && i + 5 <= s.len() && s[i + 1] == 0x61 && s[i + 2] == 0x6c && s[i + 3]
        == 0x73 && s[i + 4] == 0x65 {
        Some(false)
    } else {
        None
    }
}

/// Which scalar a caller asked a located value to be decoded as.
#[derive(Clone, Copy, Debug, PartialEq, Eq, Structural)]
pub enum Coercion {
    /// A string node, unescaped.
    Text,
    /// A plain integer literal, as a signed 64-bit integer.
    Int,
    /// A boolean literal, as a boolean.
    Boolean,
    /// A boolean literal, as the text `true` or `false`.
    BooleanText,
    /// The exact source bytes of the value, whatever its kind.
    Raw,
    /// The exact source bytes of a numeric literal.
    NumberText,
}

/// A decoded scalar.
#[derive(Clone, Debug, PartialEq, Eq)]
pub enum CellValue {
    Text(Vec<u8>),
    Int(i64),
    Boolean(bool),
}

/// The decoded scalar as the contracts speak of it.
pub enum Cell {
    Text(Seq<u8>),
    Int(i64),
    Boolean(bool),
}

impl View for CellValue {
    type V = Cell;

    open spec fn view(&self) -> Cell {
        match self {
            CellValue::Text(v) => Cell::Text(v@),
            CellValue::Int(n) => Cell::Int(*n),
            CellValue::Boolean(b) => Cell::Boolean(*b),
        }
    }
}

/// An optional decoded scalar, lifted to the model's type.
pub open spec fn cell_opt(r: Option<CellValue>) -> Option<Cell> {
    match r {
        Some(v) => Some(v@),
        None => None,
    }
}

/// What coercing the value at `i` to `c` yields: the decoded scalar, or
/// `None` where the value is not of the kind the coercion asks for or is
/// malformed at its position.
pub open spec fn coerce_model(s: Seq<u8>, i: int, c: Coercion) -> Option<Cell> {
    match c {
        Coercion::Text => if kind_at(s, i) == Some(Kind::Text) {
            match decoded_text(s, i) {
                None => None,
                Some(t) => Some(Cell::Text(t)),
            }
        } else {
            None
        },
        Coercion::Int => match int_at(s, i) {
            None => None,
            Some(n) => Some(Cell::Int(n)),
        },
        Coercion::Boolean => match bool_at(s, i) {
            None => None,
            Some(b) => Some(Cell::Boolean(b)),
        },
        Coercion::BooleanText => match bool_at(s, i) {
            None => None,
            Some(b) => Some(
                Cell::Text(
                    if b {
                        seq![0x74u8, 0x72u8, 0x75u8, 0x65u8]
                    } else {
                        seq![0x66u8, 0x61u8, 0x6cu8, 0x73u8, 0x65u8]
                    },
                ),
            ),
        },
        Coercion::Raw => match value_end(s, i) {
            None => None,
            Some(j) => Some(Cell::Text(s.subrange(i, j))),
        },
        Coercion::NumberText => if kind_at(s, i) == Some(Kind::Number) {
            match number_end(s, i) {
                None => None,
                Some(j) => Some(Cell::Text(s.subrange(i, j))),
            }
        } else {
            None
        },
    }
}


/// One hexadecimal digit byte, decoded.
fn hex_nib(b: u8) -> (r: Option<u8>)
    ensures
        match r {
            Some(v) => hex_val(b) == v as int,
            None => hex_val(b) < 0,
        },
{
    if 0x30 <= b && b <= 0x39 {
        Some(b - 0x30)
    } else if 0x41 <= b && b <= 0x46 {
        Some(b - 0x41 + 10)
    } else if 0x61 <= b && b <= 0x66 {
        Some(b - 0x61 + 10)
    } else {
        None
    }
}

/// Four hexadecimal digit bytes at `i`, decoded; all must sit before `end`.
fn read_hex4(s: &[u8], i: usize, end: usize) -> (r: Option<u32>)
    requires
        i <= end <= s@.len(),
    ensures
        match r {
            Some(c) => hex4(s@, i as int, end as int) == Some(c as int) && c < 0x10000,
            None => hex4(s@, i as int, end as int) is None,
        },
{
    if end - i < 4 {
        return None;
    }
    let a = match hex_nib(s[i]) {
        Some(v) => v,
        None => {
            return None;
        },
    };
    let b = match hex_nib(s[i + 1]) {
        Some(v) => v,
        None => {
            return None;
        },
    };
    let c = match hex_nib(s[i + 2]) {
        Some(v) => v,
        None => {
            return None;
        },
    };
    let d = match hex_nib(s[i + 3]) {
        Some(v) => v,
        None => {
            return None;
        },
    };
    Some((a as u32) * 0x1000 + (b as u32) * 0x100 + (c as u32) * 0x10 + (d as u32))
}

/// Append the UTF-8 encoding of one code point.
fn push_utf8(out: &mut Vec<u8>, cp: u32)
    requires
        cp < 0x110000,
    ensures
        final(out)@ == old(out)@ + utf8_enc(cp as int),
{
    if cp < 0x80 {
        out.push(cp as u8);
        proof {
            assert(out@ =~= old(out)@ + utf8_enc(cp as int));
        }
    } else if cp < 0x800 {
        out.push((0xc0 + cp / 0x40) as u8);
        out.push((0x80 + cp % 0x40) as u8);
        proof {
            assert(out@ =~= old(out)@ + utf8_enc(cp as int));
        }
    } else if cp < 0x10000 {
        out.push((0xe0 + cp / 0x1000) as u8);
        out.push((0x80 + (cp / 0x40) % 0x40) as u8);
        out.push((0x80 + cp % 0x40) as u8);
        proof {
            assert(out@ =~= old(out)@ + utf8_enc(cp as int));
        }
    } else {
        out.push((0xf0 + cp / 0x40000) as u8);
        out.push((0x80 + (cp / 0x1000) % 0x40) as u8);
        out.push((0x80 + (cp / 0x40) % 0x40) as u8);
        out.push((0x80 + cp % 0x40) as u8);
        proof {
            assert(out@ =~= old(out)@ + utf8_enc(cp as int));
        }
    }
}

/// What a single-character escape decodes to.
fn simple_escape(b: u8) -> (r: Option<u8>)
    ensures
        r == esc_byte(b),
{
    if b == 0x22 {
        Some(0x22)
    } else if b == 0x5c {
        Some(0x5c)
    } else if b == 0x2f {
        Some(0x2f)
    } else if b == 0x62 {
        Some(0x08)
    } else if b == 0x66 {
        Some(0x0c)
    } else if b == 0x6e {
        Some(0x0a)
    } else if b == 0x72 {
        Some(0x0d)
    } else if b == 0x74 {
        Some(0x09)
    } else {
        None
    }
}

/// Decode the string body `s[lo..hi)`, resolving every escape.
fn unescape_range(s: &[u8], lo: usize, hi: usize) -> (r: Option<Vec<u8>>)
    requires
        lo <= hi <= s@.len(),
    ensures
        match r {
            Some(v) => unescaped(s@, lo as int, hi as int) == Some(v@),
            None => unescaped(s@, lo as int, hi as int) is None,
        },
{
    let mut out: Vec<u8> = Vec::new();
    let mut k = lo;
    loop
        invariant
            lo <= k <= hi <= s@.len(),
            unescaped(s@, lo as int, hi as int) == (match unescaped(s@, k as int, hi as int) {
                Some(t) => Some(out@ + t),
                None => None::<Seq<u8>>,
            }),
        decreases hi - k,
    {
        if k >= hi {
            proof {
                assert(out@ + Seq::<u8>::empty() =~= out@);
            }
            return Some(out);
        }
        let b = s[k];
        if b == 0x5c {
            if hi - k < 2 {
                return None;
            }
            let e = s[k + 1];
            if e == 0x75 {
                let cp = match read_hex4(s, k + 2, hi) {
                    Some(c) => c,
                    None => {
                        return None;
                    },
                };
                if 0xd800 <= cp && cp < 0xdc00 {
                    if hi - k >= 12 && s[k + 6] == 0x5c && s[k + 7] == 0x75 {
                        let lo2 = match read_hex4(s, k + 8, hi) {
                            Some(c) => c,
                            None => {
                                return None;
                            },
                        };
                        if 0xdc00 <= lo2 && lo2 < 0xe000 {
                            let c2 = 0x10000 + (cp - 0xd800) * 0x400 + (lo2 - 0xdc00);
                            let ghost prev = out@;
                            push_utf8(&mut out, c2);
                            proof {
                                let rest = unescaped(s@, k + 12, hi as int)->Some_0;
                                assert(prev + (utf8_enc(c2 as int) + rest) =~= out@ + rest);
                            }
                            k = k + 12;
                        } else {
                            return None;
                        }
                    } else {
                        return None;
                    }
                } else if 0xdc00 <= cp && cp < 0xe000 {
                    return None;
                } else {
                    let ghost prev = out@;
                    push_utf8(&mut out, cp);
                    proof {
                        let rest = unescaped(s@, k + 6, hi as int)->Some_0;
                        assert(prev + (utf8_enc(cp as int) + rest) =~= out@ + rest);
                    }
                    k = k + 6;
                }
            } else {
                match simple_escape(e) {
                    Some(d) => {
                        let ghost prev = out@;
                        out.push(d);
                        proof {
                            let rest = unescaped(s@, k + 2, hi as int)->Some_0;
                            assert(prev + (seq![d] + rest) =~= out@ + rest);
                        }
                        k = k + 2;
                    },
                    None => {
                        return None;
                    },
                }
            }
        } else if b < 0x20 {
            return None;
        } else {
            let ghost prev = out@;
            out.push(b);
            proof {
                let rest = unescaped(s@, (k + 1) as int, hi as int)->Some_0;
                assert(prev + (seq![b] + rest) =~= out@ + rest);
            }
            k = k + 1;
        }
    }
}

/// Every byte up to `digits_end` is a digit, and the end stays in bounds.
proof fn lemma_digits_end_range(s: Seq<u8>, i: int)
    requires
        0 <= i <= s.len(),
    ensures
        i <= digits_end(s, i) <= s.len(),
        forall|q: int| i <= q < digits_end(s, i) ==> is_digit(s[q]),
    decreases s.len() - i,
{
    if i < s.len() && is_digit(s[i]) {
        lemma_digits_end_range(s, i + 1);
    }
}

/// The value of a digit run is never negative.
proof fn lemma_digits_val_nonneg(s: Seq<u8>, i: int, end: int)
    requires
        0 <= i <= end <= s.len(),
        forall|q: int| i <= q < end ==> is_digit(s[q]),
    ensures
        digits_val(s, i, end) >= 0,
    decreases end - i,
{
    if i < end {
        lemma_digits_val_nonneg(s, i, end - 1);
    }
}

/// A digit run's value only grows as more digits are taken in.
proof fn lemma_digits_val_grows(s: Seq<u8>, i: int, t: int, end: int)
    requires
        0 <= i <= t <= end <= s.len(),
        forall|q: int| i <= q < end ==> is_digit(s[q]),
    ensures
        digits_val(s, i, end) >= digits_val(s, i, t),
    decreases end - t,
{
    if t < end {
        lemma_digits_val_grows(s, i, t, end - 1);
        lemma_digits_val_nonneg(s, i, end - 1);
    }
}

/// Parse the plain integer literal at `i` into a signed 64-bit integer.
fn parse_int_at(s: &[u8], i: usize) -> (r: Option<i64>)
    requires
        i <= s@.len(),
    ensures
        r == int_at(s@, i as int),
{
    let neg = i < s.len() && s[i] == 0x2d;
    let d0 = if neg {
        i + 1
    } else {
        i
    };
    let k = skip_digits(s, d0);
    if k == d0 {
        return None;
    }
    if k < s.len() && (s[k] == 0x2e || s[k] == 0x65 || s[k] == 0x45) {
        return None;
    }
    let limit: u64 = if neg {
        9223372036854775808
    } else {
        9223372036854775807
    };
    proof {
        lemma_digits_end_range(s@, d0 as int);
    }
    let mut mag: u64 = 0;
    let mut big = false;
    let mut t = d0;
    while t < k
        invariant
            d0 <= t <= k <= s@.len(),
            k as int == digits_end(s@, d0 as int),
            forall|q: int| d0 <= q < k ==> is_digit(s@[q]),
            limit >= 9,
            !big ==> mag as int == digits_val(s@, d0 as int, t as int) && mag <= limit,
            big ==> digits_val(s@, d0 as int, t as int) > limit,
        decreases k - t,
    {
        let d = (s[t] - 0x30) as u64;
        proof {
            lemma_digits_val_nonneg(s@, d0 as int, t as int);
            assert(is_digit(s@[t as int]));
            assert(d <= 9);
        }
        if big || mag > (limit - d) / 10 {
            big = true;
        } else {
            mag = mag * 10 + d;
        }
        t = t + 1;
    }
    if big {
        proof {
            lemma_digits_val_grows(s@, d0 as int, t as int, k as int);
        }
        return None;
    }
    if neg {
        if mag == 9223372036854775808 {
            Some(i64::MIN)
        } else {
            Some(-(mag as i64))
        }
    } else {
        Some(mag as i64)
    }
}

/// Copy the bytes `s[lo..hi)` out as an owned vector.
fn copy_range(s: &[u8], lo: usize, hi: usize) -> (r: Vec<u8>)
    requires
        lo <= hi <= s@.len(),
    ensures
        r@ == s@.subrange(lo as int, hi as int),
{
    let mut out: Vec<u8> = Vec::new();
    let mut k = lo;
    proof {
        assert(out@ =~= s@.subrange(lo as int, lo as int));
    }
    while k < hi
        invariant
            lo <= k <= hi <= s@.len(),
            out@ == s@.subrange(lo as int, k as int),
        decreases hi - k,
    {
        out.push(s[k]);
        proof {
            assert(s@.subrange(lo as int, (k + 1) as int) =~= s@.subrange(
                lo as int,
                k as int,
            ).push(s@[k as int]));
        }
        k = k + 1;
    }
    out
}

/// Read the boolean literal that starts at `i`, if one does.
fn read_bool_at(s: &[u8], i: usize) -> (r: Option<bool>)
    requires
        i <= s@.len(),
    ensures
        r == bool_at(s@, i as int),
{
    if i >= s.len() {
        return None;
    }
    if s[i] == 0x74 && s.len() - i >= 4 && s[i + 1] == 0x72 && s[i + 2] == 0x75 && s[i + 3]
        == 0x65 {
        Some(true)
    } else if s[i] == 0x66 && s.len() - i >= 5 && s[i + 1] == 0x61 && s[i + 2] == 0x6c && s[i + 3]
        == 0x73 && s[i + 4] == 0x65 {
        Some(false)
    } else {
        None
    }
}

/// Decode the value that starts at `i` as the scalar that `c` asks for, or
/// report it absent on any kind mismatch or malformed destination.
pub fn coerce_at(s: &[u8], i: usize, c: Coercion) -> (r: Option<CellValue>)
    requires
        i <= s@.len(),
    ensures
        cell_opt(r) == coerce_model(s@, i as int, c),
{
    match c {
        Coercion::Text => {
            if i >= s.len() || s[i] != 0x22 {
                return None;
            }
            let k = match skip_string(s, i + 1) {
                Some(k) => k,
                None => {
                    return None;
                },
            };
            match unescape_range(s, i + 1, k - 1) {
                Some(v) => Some(CellValue::Text(v)),
                None => None,
            }
        },
        Coercion::Int => match parse_int_at(s, i) {
            Some(n) => Some(CellValue::Int(n)),
            None => None,
        },
        Coercion::Boolean => match read_bool_at(s, i) {
            Some(b) => Some(CellValue::Boolean(b)),
            None => None,
        },
        Coercion::BooleanText => match read_bool_at(s, i) {
            Some(b) => {
                let mut v: Vec<u8> = Vec::new();
                if b {
                    v.push(0x74);
                    v.push(0x72);
                    v.push(0x75);
                    v.push(0x65);
                    proof {
                        assert(v@ =~= seq![0x74u8, 0x72u8, 0x75u8, 0x65u8]);
                    }
                } else {
                    v.push(0x66);
                    v.push(0x61);
                    v.push(0x6c);
                    v.push(0x73);
                    v.push(0x65);
                    proof {
                        assert(v@ =~= seq![0x66u8, 0x61u8, 0x6cu8, 0x73u8, 0x65u8]);
                    }
                }
                Some(CellValue::Text(v))
            },
            None => None,
        },
        Coercion::Raw => match skip_value(s, i) {
            Some(j) => Some(CellValue::Text(copy_range(s, i, j))),
            None => None,
        },
        Coercion::NumberText => {
            if i >= s.len() || !(s[i] == 0x2d || (0x30 <= s[i] && s[i] <= 0x39)) {
                return None;
            }
            match skip_number(s, i) {
                Some(j) => Some(CellValue::Text(copy_range(s, i, j))),
                None => None,
            }
        },
    }
}

} // verus!
