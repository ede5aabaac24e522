//! Round-trip law for raw passthrough: the exact source fragment of a value
//! is itself a complete JSON value of the same kind. The scanner reads
//! nothing outside a value's own bytes, so the fragment, re-scanned on its
//! own, parses end to end and reports the kind it reported in place.

use vstd::prelude::*;

use crate::scan::array_body_end;
use crate::scan::digits_end;
use crate::scan::elements_end;
use crate::scan::is_digit;
use crate::scan::is_ws;
use crate::scan::kind_at;
use crate::scan::Kind;
use crate::scan::members_end;
use crate::scan::number_end;
use crate::scan::object_body_end;
use crate::scan::string_end;
use crate::scan::value_end;
use crate::scan::ws_end;

use crate::nav::Acc;
use crate::nav::element_value;
use crate::nav::member_value;
use crate::nav::nav_from;
use crate::nav::navigate_model;
use crate::coerce::Cell;
use crate::coerce::Coercion;
use crate::coerce::coerce_model;
use crate::coerce::digits_val;
use crate::coerce::hex4;
use crate::coerce::int_at;
use crate::coerce::unescaped;
use crate::batch::extract_model;

verus! {

/// Where whitespace skipping stops never comes before where it starts, nor
/// after the end of the text.
proof fn lemma_ws_end_bounds(s: Seq<u8>, i: int)
    requires
        0 <= i <= s.len(),
    ensures
        i <= ws_end(s, i) <= s.len(),
    decreases s.len() - i,
{
    if i < s.len() && is_ws(s[i]) {
        lemma_ws_end_bounds(s, i + 1);
    }
}

/// Where a digit run stops never comes before where it starts, nor after
/// the end of the text.
proof fn lemma_digits_end_bounds(s: Seq<u8>, i: int)
    requires
        0 <= i <= s.len(),
    ensures
        i <= digits_end(s, i) <= s.len(),
    decreases s.len() - i,
{
    if i < s.len() && is_digit(s[i]) {
        lemma_digits_end_bounds(s, i + 1);
    }
}

/// A closed string body ends after where it starts and within the text.
proof fn lemma_string_end_bounds(s: Seq<u8>, i: int)
    requires
        0 <= i,
    ensures
        string_end(s, i) matches Some(j) ==> i < j <= s.len(),
    decreases s.len() - i,
{
    if i < s.len() {
        if s[i] == 0x5c {
            if i + 2 <= s.len() {
                lemma_string_end_bounds(s, i + 2);
            }
        } else if s[i] != 0x22 {
            lemma_string_end_bounds(s, i + 1);
        }
    }
}

/// A closed member list ends after where it starts and within the text.
proof fn lemma_members_end_bounds(s: Seq<u8>, i: int)
    requires
        0 <= i,
    ensures
        members_end(s, i) matches Some(j) ==> i < j <= s.len(),
    decreases s.len() - i,
{
    if i < s.len() && s[i] == 0x22 {
        if let Some(k) = string_end(s, i + 1) {
            if i + 1 <= k <= s.len() {
                let c = ws_end(s, k);
                if k <= c < s.len() && s[c] == 0x3a {
                    let v = ws_end(s, c + 1);
                    if c + 1 <= v <= s.len() {
                        if let Some(w) = value_end(s, v) {
                            if v < w <= s.len() {
                                let x = ws_end(s, w);
                                if w <= x < s.len() && s[x] == 0x2c {
                                    let y = ws_end(s, x + 1);
                                    if x + 1 <= y <= s.len() {
                                        lemma_members_end_bounds(s, y);
                                    }
                                }
                            }
                        }
                    }
                }
            }
        }
    }
}

/// A closed element list ends after where it starts and within the text.
proof fn lemma_elements_end_bounds(s: Seq<u8>, i: int)
    requires
        0 <= i,
    ensures
        elements_end(s, i) matches Some(j) ==> i < j <= s.len(),
    decreases s.len() - i,
{
    if 0 <= i < s.len() {
        if let Some(w) = value_end(s, i) {
            if i < w <= s.len() {
                let x = ws_end(s, w);
                if w <= x < s.len() && s[x] == 0x2c {
                    let y = ws_end(s, x + 1);
                    if x + 1 <= y <= s.len() {
                        lemma_elements_end_bounds(s, y);
                    }
                }
            }
        }
    }
}

/// Whitespace skipping lands on the same spot in any text that carries the
/// same bytes from the start of the run through its stopping byte.
proof fn lemma_ws_translate(s: Seq<u8>, t: Seq<u8>, d: int, i: int)
    requires
        0 <= i,
        ws_end(s, i) < s.len(),
        0 <= i + d,
        ws_end(s, i) + d < t.len(),
        forall|q: int| i <= q < ws_end(s, i) ==> t[q + d] == s[q],
        t[ws_end(s, i) + d] == s[ws_end(s, i)],
    ensures
        ws_end(t, i + d) == ws_end(s, i) + d,
    decreases s.len() - i,
{
    lemma_ws_end_bounds(s, i);
    if i < s.len() && is_ws(s[i]) {
        assert(ws_end(s, i + 1) == ws_end(s, i));
        lemma_ws_translate(s, t, d, i + 1);
    }
}

/// A digit run stops at the same spot in any text that carries the same
/// bytes, provided the other text also stops it: by ending exactly there or
/// by carrying the same non-digit byte there.
proof fn lemma_digits_translate(s: Seq<u8>, t: Seq<u8>, d: int, i: int)
    requires
        0 <= i <= s.len(),
        0 <= i + d,
        digits_end(s, i) + d <= t.len(),
        forall|q: int| i <= q < digits_end(s, i) ==> q + d < t.len() && t[q + d] == s[q],
        digits_end(s, i) + d == t.len() || (digits_end(s, i) < s.len() && t[digits_end(s, i) + d]
            == s[digits_end(s, i)]),
    ensures
        digits_end(t, i + d) == digits_end(s, i) + d,
    decreases s.len() - i,
{
    lemma_digits_end_bounds(s, i);
    if i < s.len() && is_digit(s[i]) {
        lemma_digits_translate(s, t, d, i + 1);
    }
}

/// A numeric literal ends at the same spot in any text that carries the same
/// bytes, provided the other text also ends it there.
proof fn lemma_number_translate(s: Seq<u8>, t: Seq<u8>, d: int, i: int, j: int)
    requires
        0 <= i, j <= s.len(),
        number_end(s, i) == Some(j),
        0 <= i + d, j + d <= t.len(),
        forall|q: int| i <= q < j ==> t[q + d] == s[q],
        j + d == t.len() || (j < s.len() && t[j + d] == s[j]),
    ensures
        number_end(t, i + d) == Some(j + d),
        i < j,
{
    let j0 = if 0 <= i < s.len() && s[i] == 0x2d {
        i + 1
    } else {
        i
    };
    let k1 = digits_end(s, j0);
    lemma_digits_end_bounds(s, j0);
    if k1 < s.len() && s[k1] == 0x2e {
        // a fraction part follows the integer digits
        let m = digits_end(s, k1 + 1);
        lemma_digits_end_bounds(s, k1 + 1);
        if m < s.len() && (s[m] == 0x65 || s[m] == 0x45) {
            let j1 = if 0 <= m + 1 < s.len() && (s[m + 1] == 0x2b || s[m + 1] == 0x2d) {
                m + 2
            } else {
                m + 1
            };
            lemma_digits_end_bounds(s, j1);
            lemma_digits_translate(s, t, d, j0);
            lemma_digits_translate(s, t, d, k1 + 1);
            lemma_digits_translate(s, t, d, j1);
        } else {
            lemma_digits_translate(s, t, d, j0);
            lemma_digits_translate(s, t, d, k1 + 1);
        }
    } else if k1 < s.len() && (s[k1] == 0x65 || s[k1] == 0x45) {
        // an exponent part follows the integer digits
        let j1 = if 0 <= k1 + 1 < s.len() && (s[k1 + 1] == 0x2b || s[k1 + 1] == 0x2d) {
            k1 + 2
        } else {
            k1 + 1
        };
        lemma_digits_end_bounds(s, j1);
        lemma_digits_translate(s, t, d, j0);
        lemma_digits_translate(s, t, d, j1);
    } else {
        // the literal is the integer digits alone
        lemma_digits_translate(s, t, d, j0);
    }
}

/// A string body closes at the same spot in any text that carries the same
/// bytes up to and including its closing quote.
proof fn lemma_string_translate(s: Seq<u8>, t: Seq<u8>, d: int, i: int, j: int)
    requires
        0 <= i, j <= s.len(),
        string_end(s, i) == Some(j),
        0 <= i + d, j + d <= t.len(),
        forall|q: int| i <= q < j ==> t[q + d] == s[q],
    ensures
        string_end(t, i + d) == Some(j + d),
    decreases s.len() - i,
{
    lemma_string_end_bounds(s, i);
    if i < s.len() {
        if s[i] == 0x5c {
            if i + 2 <= s.len() {
                lemma_string_end_bounds(s, i + 2);
                lemma_string_translate(s, t, d, i + 2, j);
            }
        } else if s[i] != 0x22 {
            lemma_string_end_bounds(s, i + 1);
            lemma_string_translate(s, t, d, i + 1, j);
        }
    }
}

/// A whole value ends at the same spot in any text that carries the same
/// bytes, provided the other text also ends it there.
proof fn lemma_value_translate(s: Seq<u8>, t: Seq<u8>, d: int, i: int, j: int)
    requires
        0 <= i, j <= s.len(),
        value_end(s, i) == Some(j),
        0 <= i + d, j + d <= t.len(),
        forall|q: int| i <= q < j ==> t[q + d] == s[q],
        j + d == t.len() || (j < s.len() && t[j + d] == s[j]),
    ensures
        value_end(t, i + d) == Some(j + d),
    decreases s.len() - i, 0int,
{
    let b = s[i];
    if b == 0x22 {
        lemma_string_end_bounds(s, i + 1);
        lemma_string_translate(s, t, d, i + 1, j);
    } else if b == 0x7b {
        let w = ws_end(s, i + 1);
        lemma_members_end_bounds(s, w);
        lemma_object_body_translate(s, t, d, i + 1, j);
    } else if b == 0x5b {
        let w = ws_end(s, i + 1);
        lemma_elements_end_bounds(s, w);
        lemma_array_body_translate(s, t, d, i + 1, j);
    } else if b == 0x74 || b == 0x66 || b == 0x6e {
        // a literal: its bytes are carried over one for one
    } else {
        lemma_number_translate(s, t, d, i, j);
    }
}

/// An object body ends at the same spot in any text carrying the same bytes.
proof fn lemma_object_body_translate(s: Seq<u8>, t: Seq<u8>, d: int, i: int, j: int)
    requires
        0 <= i, j <= s.len(),
        object_body_end(s, i) == Some(j),
        0 <= i + d, j + d <= t.len(),
        forall|q: int| i - 1 <= q < j ==> t[q + d] == s[q],
    ensures
        object_body_end(t, i + d) == Some(j + d),
    decreases s.len() - i, 2int,
{
    let w = ws_end(s, i);
    lemma_members_end_bounds(s, w);
    lemma_ws_translate(s, t, d, i);
    if s[w] != 0x7d {
        lemma_members_translate(s, t, d, w, j);
    }
}

/// A member list ends at the same spot in any text carrying the same bytes.
proof fn lemma_members_translate(s: Seq<u8>, t: Seq<u8>, d: int, i: int, j: int)
    requires
        0 <= i, j <= s.len(),
        members_end(s, i) == Some(j),
        0 <= i + d, j + d <= t.len(),
        forall|q: int| i <= q < j ==> t[q + d] == s[q],
    ensures
        members_end(t, i + d) == Some(j + d),
    decreases s.len() - i, 1int,
{
    lemma_members_end_bounds(s, i);
    let k = string_end(s, i + 1)->Some_0;
    lemma_string_end_bounds(s, i + 1);
    let c = ws_end(s, k);
    let v = ws_end(s, c + 1);
    let w = value_end(s, v)->Some_0;
    let x = ws_end(s, w);
    if s[x] == 0x2c {
        let y = ws_end(s, x + 1);
        lemma_members_end_bounds(s, y);
        lemma_string_translate(s, t, d, i + 1, k);
        lemma_ws_translate(s, t, d, k);
        lemma_ws_translate(s, t, d, c + 1);
        lemma_value_translate(s, t, d, v, w);
        lemma_ws_translate(s, t, d, w);
        lemma_ws_translate(s, t, d, x + 1);
        lemma_members_translate(s, t, d, y, j);
    } else {
        // the closing brace ends the list: j == x + 1
        lemma_string_translate(s, t, d, i + 1, k);
        lemma_ws_translate(s, t, d, k);
        lemma_ws_translate(s, t, d, c + 1);
        lemma_value_translate(s, t, d, v, w);
        lemma_ws_translate(s, t, d, w);
    }
}

/// An array body ends at the same spot in any text carrying the same bytes.
proof fn lemma_array_body_translate(s: Seq<u8>, t: Seq<u8>, d: int, i: int, j: int)
    requires
        0 <= i, j <= s.len(),
        array_body_end(s, i) == Some(j),
        0 <= i + d, j + d <= t.len(),
        forall|q: int| i - 1 <= q < j ==> t[q + d] == s[q],
    ensures
        array_body_end(t, i + d) == Some(j + d),
    decreases s.len() - i, 2int,
{
    let w = ws_end(s, i);
    lemma_elements_end_bounds(s, w);
    lemma_ws_translate(s, t, d, i);
    if s[w] != 0x5d {
        lemma_elements_translate(s, t, d, w, j);
    }
}

/// An element list ends at the same spot in any text carrying the same bytes.
proof fn lemma_elements_translate(s: Seq<u8>, t: Seq<u8>, d: int, i: int, j: int)
    requires
        0 <= i, j <= s.len(),
        elements_end(s, i) == Some(j),
        0 <= i + d, j + d <= t.len(),
        forall|q: int| i <= q < j ==> t[q + d] == s[q],
    ensures
        elements_end(t, i + d) == Some(j + d),
    decreases s.len() - i, 1int,
{
    lemma_elements_end_bounds(s, i);
    let w = value_end(s, i)->Some_0;
    let x = ws_end(s, w);
    if s[x] == 0x2c {
        let y = ws_end(s, x + 1);
        lemma_elements_end_bounds(s, y);
        lemma_value_translate(s, t, d, i, w);
        lemma_ws_translate(s, t, d, w);
        lemma_ws_translate(s, t, d, x + 1);
        lemma_elements_translate(s, t, d, y, j);
    } else {
        // the closing bracket ends the list: j == x + 1
        lemma_value_translate(s, t, d, i, w);
        lemma_ws_translate(s, t, d, w);
    }
}

/// A value ends strictly after it starts.
proof fn lemma_value_end_lb(s: Seq<u8>, i: int, j: int)
    requires
        0 <= i, j <= s.len(),
        value_end(s, i) == Some(j),
    ensures
        i < j,
{
    let b = s[i];
    if b == 0x22 {
        lemma_string_end_bounds(s, i + 1);
    } else if b == 0x7b {
        let w = ws_end(s, i + 1);
        lemma_ws_end_bounds(s, i + 1);
        lemma_members_end_bounds(s, w);
    } else if b == 0x5b {
        let w = ws_end(s, i + 1);
        lemma_ws_end_bounds(s, i + 1);
        lemma_elements_end_bounds(s, w);
    } else if b == 0x74 || b == 0x66 || b == 0x6e {
        // a literal ends a fixed number of bytes further on
    } else {
        let j0 = if s[i] == 0x2d {
            i + 1
        } else {
            i
        };
        lemma_digits_end_bounds(s, j0);
        let k1 = digits_end(s, j0);
        if k1 < s.len() && s[k1] == 0x2e {
            lemma_digits_end_bounds(s, k1 + 1);
            let m = digits_end(s, k1 + 1);
            if m < s.len() && (s[m] == 0x65 || s[m] == 0x45) {
                let j1 = if 0 <= m + 1 < s.len() && (s[m + 1] == 0x2b || s[m + 1] == 0x2d) {
                    m + 2
                } else {
                    m + 1
                };
                lemma_digits_end_bounds(s, j1);
            }
        } else if k1 < s.len() && (s[k1] == 0x65 || s[k1] == 0x45) {
            let j1 = if 0 <= k1 + 1 < s.len() && (s[k1 + 1] == 0x2b || s[k1 + 1] == 0x2d) {
                k1 + 2
            } else {
                k1 + 1
            };
            lemma_digits_end_bounds(s, j1);
        }
    }
}

/// The raw-passthrough round trip: the exact source fragment of a value,
/// scanned on its own, is one complete JSON value, consuming the fragment
/// end to end, and its kind is the kind reported where it was found.
pub proof fn lemma_raw_fragment_reparses(s: Seq<u8>, i: int, j: int)
    requires
        0 <= i, j <= s.len(),
        value_end(s, i) == Some(j),
    ensures
        i < j,
        value_end(s.subrange(i, j), 0) == Some(j - i),
        kind_at(s.subrange(i, j), 0) == kind_at(s, i),
{
    lemma_value_end_lb(s, i, j);
    lemma_value_translate(s, s.subrange(i, j), -i, i, j);
}

/// Scanning a member list for a key lands on the same member in any text
/// that carries the list's bytes; and a found member's value lies, fully
/// parsed, strictly inside the list.
proof fn lemma_member_value_translate(s: Seq<u8>, t: Seq<u8>, d: int, i: int, e: int, key: Seq<u8>)
    requires
        0 <= i, e <= s.len(),
        members_end(s, i) == Some(e),
        0 <= i + d, e + d <= t.len(),
        forall|q: int| i <= q < e ==> t[q + d] == s[q],
    ensures
        match member_value(s, i, key) {
            None => member_value(t, i + d, key) is None,
            Some(v) => member_value(t, i + d, key) == Some(v + d) && i < v < e && (value_end(s, v)
                matches Some(w) && v < w < e),
        },
    decreases s.len() - i,
{
    lemma_members_end_bounds(s, i);
    let k = string_end(s, i + 1)->Some_0;
    lemma_string_end_bounds(s, i + 1);
    let c = ws_end(s, k);
    let v = ws_end(s, c + 1);
    let w = value_end(s, v)->Some_0;
    let x = ws_end(s, w);
    if s[x] == 0x2c {
        let y = ws_end(s, x + 1);
        lemma_members_end_bounds(s, y);
    }
    lemma_string_translate(s, t, d, i + 1, k);
    lemma_ws_translate(s, t, d, k);
    lemma_ws_translate(s, t, d, c + 1);
    assert(t.subrange(i + 1 + d, k - 1 + d) =~= s.subrange(i + 1, k - 1));
    if s.subrange(i + 1, k - 1) == key {
        // the key matches here: both scans stop at this member's value
    } else {
        lemma_value_translate(s, t, d, v, w);
        lemma_ws_translate(s, t, d, w);
        if s[x] == 0x2c {
            let y = ws_end(s, x + 1);
            lemma_ws_translate(s, t, d, x + 1);
            lemma_member_value_translate(s, t, d, y, e, key);
        }
    }
}

/// Skipping ahead to an array element lands on the same element in any text
/// that carries the list's bytes; and a found element lies, fully parsed,
/// strictly inside the list.
proof fn lemma_element_value_translate(s: Seq<u8>, t: Seq<u8>, d: int, i: int, e: int, idx: int)
    requires
        0 <= i, e <= s.len(),
        elements_end(s, i) == Some(e),
        0 <= i + d, e + d <= t.len(),
        forall|q: int| i <= q < e ==> t[q + d] == s[q],
    ensures
        match element_value(s, i, idx) {
            None => element_value(t, i + d, idx) is None,
            Some(v) => element_value(t, i + d, idx) == Some(v + d) && i <= v < e && (value_end(
                s,
                v,
            ) matches Some(w) && v < w < e),
        },
    decreases s.len() - i,
{
    lemma_elements_end_bounds(s, i);
    let w = value_end(s, i)->Some_0;
    let x = ws_end(s, w);
    if s[x] == 0x2c {
        let y = ws_end(s, x + 1);
        lemma_elements_end_bounds(s, y);
    }
    if idx == 0 {
        // the sought element starts right here, in both texts
    } else {
        lemma_value_translate(s, t, d, i, w);
        lemma_ws_translate(s, t, d, w);
        if s[x] == 0x2c {
            let y = ws_end(s, x + 1);
            lemma_ws_translate(s, t, d, x + 1);
            lemma_element_value_translate(s, t, d, y, e, idx - 1);
        }
    }
}

/// Navigation from a parsed value resolves to the same relative spot, with
/// the same kind there, in any text that carries the value's bytes.
proof fn lemma_nav_from_translate(
    s: Seq<u8>,
    t: Seq<u8>,
    d: int,
    i: int,
    j: int,
    path: Seq<Acc>,
    n: int,
)
    requires
        0 <= i, j <= s.len(),
        value_end(s, i) == Some(j),
        0 <= i + d, j + d <= t.len(),
        forall|q: int| i <= q < j ==> t[q + d] == s[q],
    ensures
        match nav_from(s, i, path, n) {
            None => nav_from(t, i + d, path, n) is None,
            Some(f) => nav_from(t, i + d, path, n) == Some(f + d) && i <= f < j && kind_at(
                t,
                f + d,
            ) == kind_at(s, f) && (value_end(s, f) matches Some(w) && f < w <= j),
        },
    decreases path.len() - n,
{
    lemma_value_end_lb(s, i, j);
    if 0 <= n < path.len() {
        match path[n] {
            Acc::Key(key) => {
                if s[i] == 0x7b {
                    let w0 = ws_end(s, i + 1);
                    if s[w0] != 0x7d {
                        lemma_members_end_bounds(s, w0);
                        lemma_ws_translate(s, t, d, i + 1);
                        lemma_member_value_translate(s, t, d, w0, j, key);
                        match member_value(s, w0, key) {
                            None => {},
                            Some(v) => {
                                let w2 = value_end(s, v)->Some_0;
                                lemma_nav_from_translate(s, t, d, v, w2, path, n + 1);
                            },
                        }
                    } else {
                        lemma_ws_translate(s, t, d, i + 1);
                    }
                }
            },
            Acc::Index(idx) => {
                if s[i] == 0x5b && idx >= 0 {
                    let w0 = ws_end(s, i + 1);
                    if s[w0] != 0x5d {
                        lemma_elements_end_bounds(s, w0);
                        lemma_ws_translate(s, t, d, i + 1);
                        lemma_element_value_translate(s, t, d, w0, j, idx);
                        match element_value(s, w0, idx) {
                            None => {},
                            Some(v) => {
                                let w2 = value_end(s, v)->Some_0;
                                lemma_nav_from_translate(s, t, d, v, w2, path, n + 1);
                            },
                        }
                    } else {
                        lemma_ws_translate(s, t, d, i + 1);
                    }
                }
            },
        }
    }
}

/// The raw-passthrough round trip, continued: the fragment is an equivalent
/// document. Every path resolves in the re-parsed fragment exactly as it
/// resolves from the value's place in the whole text, to the same relative
/// position and the same kind of value.
pub proof fn lemma_raw_fragment_navigates_alike(s: Seq<u8>, i: int, j: int, path: Seq<Acc>)
    requires
        0 <= i, j <= s.len(),
        value_end(s, i) == Some(j),
    ensures
        navigate_model(s.subrange(i, j), path) == (match nav_from(s, i, path, 0) {
            None => None::<(int, Kind)>,
            Some(f) => match kind_at(s, f) {
                None => None,
                Some(k) => Some((f - i, k)),
            },
        }),
{
    let t = s.subrange(i, j);
    lemma_value_end_lb(s, i, j);
    assert(ws_end(t, 0) == 0);
    lemma_nav_from_translate(s, t, -i, i, j, path, 0);
}

/// A run of digits carries the same decimal value in any text that carries
/// the same bytes.
proof fn lemma_digits_val_translate(s: Seq<u8>, t: Seq<u8>, d: int, a: int, k: int)
    requires
        0 <= a <= k <= s.len(),
        0 <= a + d,
        k + d <= t.len(),
        forall|q: int| a <= q < k ==> t[q + d] == s[q],
    ensures
        digits_val(t, a + d, k + d) == digits_val(s, a, k),
    decreases k - a,
{
    if a < k {
        lemma_digits_val_translate(s, t, d, a, k - 1);
    }
}

/// A string body decodes to the same bytes in any text that carries the
/// same bytes.
proof fn lemma_unescaped_translate(s: Seq<u8>, t: Seq<u8>, d: int, a: int, end: int)
    requires
        0 <= a <= end <= s.len(),
        0 <= a + d,
        end + d <= t.len(),
        forall|q: int| a <= q < end ==> t[q + d] == s[q],
    ensures
        unescaped(t, a + d, end + d) == unescaped(s, a, end),
    decreases end - a,
{
    if a >= end {
    } else if s[a] == 0x5c {
        if a + 1 >= end {
        } else if s[a + 1] == 0x75 {
            match hex4(s, a + 2, end) {
                None => {},
                Some(cp) => {
                    if 0xd800 <= cp < 0xdc00 {
                        if a + 12 <= end && s[a + 6] == 0x5c && s[a + 7] == 0x75 {
                            match hex4(s, a + 8, end) {
                                None => {},
                                Some(lo) => {
                                    if 0xdc00 <= lo < 0xe000 {
                                        lemma_unescaped_translate(s, t, d, a + 12, end);
                                    }
                                },
                            }
                        }
                    } else if 0xdc00 <= cp < 0xe000 {
                    } else {
                        lemma_unescaped_translate(s, t, d, a + 6, end);
                    }
                },
            }
        } else {
            lemma_unescaped_translate(s, t, d, a + 2, end);
        }
    } else if s[a] < 0x20 {
    } else {
        lemma_unescaped_translate(s, t, d, a + 1, end);
    }
}

/// A parsed value reads as the same 64-bit integer, or as none, in any text
/// that carries its bytes and ends it the same way.
proof fn lemma_int_translate(s: Seq<u8>, t: Seq<u8>, d: int, f: int, w: int)
    requires
        0 <= f, w <= s.len(),
        value_end(s, f) == Some(w),
        0 <= f + d,
        w + d <= t.len(),
        forall|q: int| f <= q < w ==> t[q + d] == s[q],
        w + d == t.len() || (w < s.len() && t[w + d] == s[w]),
    ensures
        int_at(t, f + d) == int_at(s, f),
{
    lemma_value_end_lb(s, f, w);
    if s[f] == 0x2d || is_digit(s[f]) {
        let d0 = if s[f] == 0x2d {
            f + 1
        } else {
            f
        };
        let k1 = digits_end(s, d0);
        lemma_digits_end_bounds(s, d0);
        if k1 < s.len() && s[k1] == 0x2e {
            // the value has a fraction part: it is no integer in either text
            lemma_digits_end_bounds(s, k1 + 1);
            let m = digits_end(s, k1 + 1);
            if m < s.len() && (s[m] == 0x65 || s[m] == 0x45) {
                let j1 = if 0 <= m + 1 < s.len() && (s[m + 1] == 0x2b || s[m + 1] == 0x2d) {
                    m + 2
                } else {
                    m + 1
                };
                lemma_digits_end_bounds(s, j1);
            }
            lemma_digits_translate(s, t, d, d0);
        } else if k1 < s.len() && (s[k1] == 0x65 || s[k1] == 0x45) {
            // the value has an exponent part: it is no integer in either text
            let j1 = if 0 <= k1 + 1 < s.len() && (s[k1 + 1] == 0x2b || s[k1 + 1] == 0x2d) {
                k1 + 2
            } else {
                k1 + 1
            };
            lemma_digits_end_bounds(s, j1);
            lemma_digits_translate(s, t, d, d0);
        } else {
            // the value is the plain integer literal s[f..w)
            lemma_digits_translate(s, t, d, d0);
            lemma_digits_val_translate(s, t, d, d0, k1);
        }
    }
}

/// Coercion reads nothing outside a value's own bytes: whatever a coercion
/// yields at the value's place, it yields at the value's copy in any text
/// that carries its bytes and ends it the same way.
proof fn lemma_coerce_translate(s: Seq<u8>, t: Seq<u8>, d: int, f: int, w: int, c: Coercion)
    requires
        0 <= f, w <= s.len(),
        value_end(s, f) == Some(w),
        0 <= f + d,
        w + d <= t.len(),
        forall|q: int| f <= q < w ==> t[q + d] == s[q],
        w + d == t.len() || (w < s.len() && t[w + d] == s[w]),
    ensures
        coerce_model(t, f + d, c) == coerce_model(s, f, c),
{
    lemma_value_end_lb(s, f, w);
    match c {
        Coercion::Text => {
            if s[f] == 0x22 {
                lemma_string_end_bounds(s, f + 1);
                lemma_string_translate(s, t, d, f + 1, w);
                lemma_unescaped_translate(s, t, d, f + 1, w - 1);
            }
        },
        Coercion::Int => {
            lemma_int_translate(s, t, d, f, w);
        },
        Coercion::Boolean => {
            // a boolean literal is read off five copied bytes at most
        },
        Coercion::BooleanText => {
            // as for the boolean itself
        },
        Coercion::Raw => {
            lemma_value_translate(s, t, d, f, w);
            assert(t.subrange(f + d, w + d) =~= s.subrange(f, w));
        },
        Coercion::NumberText => {
            if s[f] == 0x2d || is_digit(s[f]) {
                lemma_number_translate(s, t, d, f, w);
                assert(t.subrange(f + d, w + d) =~= s.subrange(f, w));
            }
        },
    }
}

/// The raw-passthrough round trip, completed: extracting any path with any
/// coercion from the re-parsed fragment yields exactly what coercing the
/// value that the path reaches from the fragment's place yields. The
/// fragment is an equivalent document.
pub proof fn lemma_raw_fragment_extracts_alike(
    s: Seq<u8>,
    i: int,
    j: int,
    path: Seq<Acc>,
    c: Coercion,
)
    requires
        0 <= i, j <= s.len(),
        value_end(s, i) == Some(j),
    ensures
        extract_model(s.subrange(i, j), path, c) == (match nav_from(s, i, path, 0) {
            None => None::<Cell>,
            Some(f) => coerce_model(s, f, c),
        }),
{
    let t = s.subrange(i, j);
    lemma_value_end_lb(s, i, j);
    assert(ws_end(t, 0) == 0);
    lemma_nav_from_translate(s, t, -i, i, j, path, 0);
    match nav_from(s, i, path, 0) {
        None => {},
        Some(f) => {
            let w = value_end(s, f)->Some_0;
            lemma_coerce_translate(s, t, -i, f, w, c);
        },
    }
}

} // verus!
