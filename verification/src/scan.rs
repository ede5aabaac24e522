//! Structural scanning of JSON text: where a value that starts at a given
//! byte ends, without decoding it. These bounds are the model that the lazy
//! navigator and the coercers are specified against.

use vstd::prelude::*;

verus! {

/// The kind of JSON value that begins at a byte, judged from that byte alone.
#[derive(Clone, Copy, Debug, PartialEq, Eq, Structural)]
pub enum Kind {
    Object,
    Array,
    Text,
    Number,
    Boolean,
    Null,
}

pub open spec fn is_ws(b: u8) -> bool {
    b == 0x20 || b == 0x09 || b == 0x0a || b == 0x0d
}

pub open spec fn is_digit(b: u8) -> bool {
    0x30 <= b <= 0x39
}

/// First index at or after `i` that does not hold JSON whitespace.
pub open spec fn ws_end(s: Seq<u8>, i: int) -> int
    decreases s.len() - i,
{
    if 0 <= i < s.len() && is_ws(s[i]) {
        ws_end(s, i + 1)
    } else {
        i
    }
}

/// First index at or after `i` that does not hold a decimal digit.
pub open spec fn digits_end(s: Seq<u8>, i: int) -> int
    decreases s.len() - i,
{
    if 0 <= i < s.len() && is_digit(s[i]) {
        digits_end(s, i + 1)
    } else {
        i
    }
}

/// End of a string body that starts at `i`, just after the opening quote:
/// the index after the closing quote, or `None` if the string never closes.
/// A backslash always escapes the byte that follows it.
pub open spec fn string_end(s: Seq<u8>, i: int) -> Option<int>
    decreases s.len() - i,
{
    if !(0 <= i < s.len()) {
        None
    } else if s[i] == 0x22 {
        Some(i + 1)
    } else if s[i] == 0x5c {
        if i + 2 <= s.len() {
            string_end(s, i + 2)
        } else {
            None
        }
    } else {
        string_end(s, i + 1)
    }
}

/// End of an optional fraction part at `i`: a dot must be followed by at
/// least one digit.
pub open spec fn frac_end(s: Seq<u8>, i: int) -> Option<int> {
    if 0 <= i < s.len() && s[i] == 0x2e {
        let k = digits_end(s, i + 1);
        if k == i + 1 {
            None
        } else {
            Some(k)
        }
    } else {
        Some(i)
    }
}

/// End of an optional exponent part at `i`: `e` or `E`, an optional sign,
/// then at least one digit.
pub open spec fn exp_end(s: Seq<u8>, i: int) -> Option<int> {
    if 0 <= i < s.len() && (s[i] == 0x65 || s[i] == 0x45) {
        let j = if 0 <= i + 1 < s.len() && (s[i + 1] == 0x2b || s[i + 1] == 0x2d) {
            i + 2
        } else {
            i + 1
        };
        let k = digits_end(s, j);
        if k == j {
            None
        } else {
            Some(k)
        }
    } else {
        Some(i)
    }
}

/// End of a numeric literal that starts at `i`: an optional minus sign, at
/// least one digit, then optional fraction and exponent parts.
pub open spec fn number_end(s: Seq<u8>, i: int) -> Option<int> {
    let j = if 0 <= i < s.len() && s[i] == 0x2d {
        i + 1
    } else {
        i
    };
    let k = digits_end(s, j);
    if k == j {
        None
    } else {
        match frac_end(s, k) {
            None => None,
            Some(m) => exp_end(s, m),
        }
    }
}

/// End of the value that starts at byte `i`, or `None` if no value can be
/// read there. The value's bytes are exactly `s[i..end)`: no surrounding
/// whitespace is consumed.
pub open spec fn value_end(s: Seq<u8>, i: int) -> Option<int>
    decreases s.len() - i, 0int,
{
    if !(0 <= i < s.len()) {
        None
    } else if s[i] == 0x22 {
        string_end(s, i + 1)
    } else if s[i] == 0x7b {
        object_body_end(s, i + 1)
    } else if s[i] == 0x5b {
        array_body_end(s, i + 1)
    } else if s[i] == 0x74 {
        if i + 4 <= s.len() && s[i + 1] == 0x72 && s[i + 2] == 0x75 && s[i + 3] == 0x65 {
            Some(i + 4)
        } else {
            None
        }
    } else if s[i] == 0x66 {
        if i + 5 <= s.len() && s[i + 1] == 0x61 && s[i + 2] == 0x6c && s[i + 3] == 0x73
            && s[i + 4] == 0x65 {
            Some(i + 5)
        } else {
            None
        }
    } else if s[i] == 0x6e {
        if i + 4 <= s.len() && s[i + 1] == 0x75 && s[i + 2] == 0x6c && s[i + 3] == 0x6c {
            Some(i + 4)
        } else {
            None
        }
    } else if s[i] == 0x2d || is_digit(s[i]) {
        number_end(s, i)
    } else {
        None
    }
}

/// End of an object whose opening brace sits just before `i`: either the
/// closing brace of an empty object or the end of its member list.
pub open spec fn object_body_end(s: Seq<u8>, i: int) -> Option<int>
    decreases s.len() - i, 2int,
{
    if !(0 <= i) {
        None
    } else {
        let j = ws_end(s, i);
        if !(i <= j < s.len()) {
            None
        } else if s[j] == 0x7d {
            Some(j + 1)
        } else {
            members_end(s, j)
        }
    }
}

/// End of a member list whose first member's key starts exactly at `i`:
/// `"key" : value` pairs separated by commas, closed by a brace.
pub open spec fn members_end(s: Seq<u8>, i: int) -> Option<int>
    decreases s.len() - i, 1int,
{
    if !(0 <= i < s.len()) || s[i] != 0x22 {
        None
    } else {
        match string_end(s, i + 1) {
            None => None,
            Some(k) => if !(i + 1 <= k <= s.len()) {
                None
            } else {
                let c = ws_end(s, k);
                if !(k <= c < s.len()) || s[c] != 0x3a {
                    None
                } else {
                    let v = ws_end(s, c + 1);
                    if !(c + 1 <= v <= s.len()) {
                        None
                    } else {
                        match value_end(s, v) {
                            None => None,
                            Some(w) => if !(v < w <= s.len()) {
                                None
                            } else {
                                let x = ws_end(s, w);
                                if !(w <= x < s.len()) {
                                    None
                                } else if s[x] == 0x2c {
                                    let y = ws_end(s, x + 1);
                                    if !(x + 1 <= y <= s.len()) {
                                        None
                                    } else {
                                        members_end(s, y)
                                    }
                                } else if s[x] == 0x7d {
                                    Some(x + 1)
                                } else {
                                    None
                                }
                            },
                        }
                    }
                }
            },
        }
    }
}

/// End of an array whose opening bracket sits just before `i`: either the
/// closing bracket of an empty array or the end of its element list.
pub open spec fn array_body_end(s: Seq<u8>, i: int) -> Option<int>
    decreases s.len() - i, 2int,
{
    if !(0 <= i) {
        None
    } else {
        let j = ws_end(s, i);
        if !(i <= j < s.len()) {
            None
        } else if s[j] == 0x5d {
            Some(j + 1)
        } else {
            elements_end(s, j)
        }
    }
}

/// End of an element list whose first element starts exactly at `i`: values
/// separated by commas, closed by a bracket.
pub open spec fn elements_end(s: Seq<u8>, i: int) -> Option<int>
    decreases s.len() - i, 1int,
{
    if !(0 <= i < s.len()) {
        None
    } else {
        match value_end(s, i) {
            None => None,
            Some(w) => if !(i < w <= s.len()) {
                None
            } else {
                let x = ws_end(s, w);
                if !(w <= x < s.len()) {
                    None
                } else if s[x] == 0x2c {
                    let y = ws_end(s, x + 1);
                    if !(x + 1 <= y <= s.len()) {
                        None
                    } else {
                        elements_end(s, y)
                    }
                } else if s[x] == 0x5d {
                    Some(x + 1)
                } else {
                    None
                }
            },
        }
    }
}

/// Value kind read off the first byte of a value, as a lazy scanner reports
/// it before decoding anything.
pub open spec fn kind_at(s: Seq<u8>, i: int) -> Option<Kind> {
    if !(0 <= i < s.len()) {
        None
    } else if s[i] == 0x22 {
        Some(Kind::Text)
    } else if s[i] == 0x7b {
        Some(Kind::Object)
    } else if s[i] == 0x5b {
        Some(Kind::Array)
    } else if s[i] == 0x74 || s[i] == 0x66 {
        Some(Kind::Boolean)
    } else if s[i] == 0x6e {
        Some(Kind::Null)
    } else if s[i] == 0x2d || is_digit(s[i]) {
        Some(Kind::Number)
    } else {
        None
    }
}

/// The positions an executable scanner reports, lifted to the model's type.
pub open spec fn opt_pos(r: Option<usize>) -> Option<int> {
    match r {
        Some(j) => Some(j as int),
        None => None,
    }
}

/// Advance past whitespace.
pub fn skip_ws(s: &[u8], i: usize) -> (r: usize)
    requires
        i <= s@.len(),
    ensures
        r as int == ws_end(s@, i as int),
        i <= r <= s@.len(),
{
    let mut k = i;
    while k < s.len() && (s[k] == 0x20 || s[k] == 0x09 || s[k] == 0x0a || s[k] == 0x0d)
        invariant
            i <= k <= s@.len(),
            ws_end(s@, i as int) == ws_end(s@, k as int),
        decreases s@.len() - k,
    {
        k = k + 1;
    }
    k
}

/// Advance past decimal digits.
pub fn skip_digits(s: &[u8], i: usize) -> (r: usize)
    requires
        i <= s@.len(),
    ensures
        r as int == digits_end(s@, i as int),
        i <= r <= s@.len(),
{
    let mut k = i;
    while k < s.len() && 0x30 <= s[k] && s[k] <= 0x39
        invariant
            i <= k <= s@.len(),
            digits_end(s@, i as int) == digits_end(s@, k as int),
        decreases s@.len() - k,
    {
        k = k + 1;
    }
    k
}

/// Advance past a string body, the opening quote already consumed.
pub fn skip_string(s: &[u8], i: usize) -> (r: Option<usize>)
    requires
        i <= s@.len(),
    ensures
        opt_pos(r) == string_end(s@, i as int),
        r matches Some(j) ==> i < j <= s@.len(),
{
    let mut k = i;
    loop
        invariant
            i <= k <= s@.len(),
            string_end(s@, i as int) == string_end(s@, k as int),
        decreases s@.len() - k,
    {
        if k >= s.len() {
            return None;
        }
        let b = s[k];
        if b == 0x22 {
            return Some(k + 1);
        }
        if b == 0x5c {
            if s.len() - k >= 2 {
                k = k + 2;
            } else {
                return None;
            }
        } else {
            k = k + 1;
        }
    }
}

/// Advance past a numeric literal.
pub fn skip_number(s: &[u8], i: usize) -> (r: Option<usize>)
    requires
        i <= s@.len(),
    ensures
        opt_pos(r) == number_end(s@, i as int),
        r matches Some(j) ==> i < j <= s@.len(),
{
    let j = if i < s.len() && s[i] == 0x2d {
        i + 1
    } else {
        i
    };
    let k = skip_digits(s, j);
    if k == j {
        return None;
    }
    let m = if k < s.len() && s[k] == 0x2e {
        let k2 = skip_digits(s, k + 1);
        if k2 == k + 1 {
            return None;
        }
        k2
    } else {
        k
    };
    if m < s.len() && (s[m] == 0x65 || s[m] == 0x45) {
        let j2 = if m + 1 < s.len() && (s[m + 1] == 0x2b || s[m + 1] == 0x2d) {
            m + 2
        } else {
            m + 1
        };
        let k3 = skip_digits(s, j2);
        if k3 == j2 {
            None
        } else {
            Some(k3)
        }
    } else {
        Some(m)
    }
}

/// Advance past one whole value, whatever its kind, without decoding it.
pub fn skip_value(s: &[u8], i: usize) -> (r: Option<usize>)
    requires
        i <= s@.len(),
    ensures
        opt_pos(r) == value_end(s@, i as int),
        r matches Some(j) ==> i < j <= s@.len(),
    decreases s@.len() - i, 0int,
{
    if i >= s.len() {
        return None;
    }
    let b = s[i];
    if b == 0x22 {
        skip_string(s, i + 1)
    } else if b == 0x7b {
        skip_object_body(s, i + 1)
    } else if b == 0x5b {
        skip_array_body(s, i + 1)
    } else if b == 0x74 {
        if s.len() - i >= 4 && s[i + 1] == 0x72 && s[i + 2] == 0x75 && s[i + 3] == 0x65 {
            Some(i + 4)
        } else {
            None
        }
    } else if b == 0x66 {
        if s.len() - i >= 5 && s[i + 1] == 0x61 && s[i + 2] == 0x6c && s[i + 3] == 0x73
            && s[i + 4] == 0x65 {
            Some(i + 5)
        } else {
            None
        }
    } else if b == 0x6e {
        if s.len() - i >= 4 && s[i + 1] == 0x75 && s[i + 2] == 0x6c && s[i + 3] == 0x6c {
            Some(i + 4)
        } else {
            None
        }
    } else if b == 0x2d || (0x30 <= b && b <= 0x39) {
        skip_number(s, i)
    } else {
        None
    }
}

/// Advance past an object body, the opening brace already consumed.
pub fn skip_object_body(s: &[u8], i: usize) -> (r: Option<usize>)
    requires
        i <= s@.len(),
    ensures
        opt_pos(r) == object_body_end(s@, i as int),
        r matches Some(j) ==> i < j <= s@.len(),
    decreases s@.len() - i, 2int,
{
    let j = skip_ws(s, i);
    if j >= s.len() {
        None
    } else if s[j] == 0x7d {
        Some(j + 1)
    } else {
        skip_members(s, j)
    }
}

/// Advance past an object's member list, positioned at the first key.
pub fn skip_members(s: &[u8], i: usize) -> (r: Option<usize>)
    requires
        i <= s@.len(),
    ensures
        opt_pos(r) == members_end(s@, i as int),
        r matches Some(j) ==> i < j <= s@.len(),
    decreases s@.len() - i, 1int,
{
    if i >= s.len() || s[i] != 0x22 {
        return None;
    }
    let k = match skip_string(s, i + 1) {
        Some(k) => k,
        None => {
            return None;
        },
    };
    let c = skip_ws(s, k);
    if c >= s.len() || s[c] != 0x3a {
        return None;
    }
    let v = skip_ws(s, c + 1);
    let w = match skip_value(s, v) {
        Some(w) => w,
        None => {
            return None;
        },
    };
    let x = skip_ws(s, w);
    if x >= s.len() {
        return None;
    }
    if s[x] == 0x2c {
        let y = skip_ws(s, x + 1);
        skip_members(s, y)
    } else if s[x] == 0x7d {
        Some(x + 1)
    } else {
        None
    }
}

/// Advance past an array body, the opening bracket already consumed.
pub fn skip_array_body(s: &[u8], i: usize) -> (r: Option<usize>)
    requires
        i <= s@.len(),
    ensures
        opt_pos(r) == array_body_end(s@, i as int),
        r matches Some(j) ==> i < j <= s@.len(),
    decreases s@.len() - i, 2int,
{
    let j = skip_ws(s, i);
    if j >= s.len() {
        None
    } else if s[j] == 0x5d {
        Some(j + 1)
    } else {
        skip_elements(s, j)
    }
}

/// Advance past an array's element list, positioned at the first element.
pub fn skip_elements(s: &[u8], i: usize) -> (r: Option<usize>)
    requires
        i <= s@.len(),
    ensures
        opt_pos(r) == elements_end(s@, i as int),
        r matches Some(j) ==> i < j <= s@.len(),
    decreases s@.len() - i, 1int,
{
    if i >= s.len() {
        return None;
    }
    let w = match skip_value(s, i) {
        Some(w) => w,
        None => {
            return None;
        },
    };
    let x = skip_ws(s, w);
    if x >= s.len() {
        return None;
    }
    if s[x] == 0x2c {
        let y = skip_ws(s, x + 1);
        skip_elements(s, y)
    } else if s[x] == 0x5d {
        Some(x + 1)
    } else {
        None
    }
}

/// The kind of the value that starts at `i`, judged from its first byte.
pub fn peek_kind(s: &[u8], i: usize) -> (r: Option<Kind>)
    requires
        i <= s@.len(),
    ensures
        r == kind_at(s@, i as int),
{
    if i >= s.len() {
        return None;
    }
    let b = s[i];
    if b == 0x22 {
        Some(Kind::Text)
    } else if b == 0x7b {
        Some(Kind::Object)
    } else if b == 0x5b {
        Some(Kind::Array)
    } else if b == 0x74 || b == 0x66 {
        Some(Kind::Boolean)
    } else if b == 0x6e {
        Some(Kind::Null)
    } else if b == 0x2d || (0x30 <= b && b <= 0x39) {
        Some(Kind::Number)
    } else {
        None
    }
}

} // verus!
