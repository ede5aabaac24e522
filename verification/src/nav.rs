//! The lazy navigator: follow a path of object-key and array-index accessors
//! through JSON text, skipping every sibling value structurally, and stop at
//! the byte where the addressed value starts.

use vstd::prelude::*;

use crate::scan::Kind;
use crate::scan::kind_at;
use crate::scan::opt_pos;
use crate::scan::peek_kind;
use crate::scan::skip_string;
use crate::scan::skip_value;
use crate::scan::skip_ws;
use crate::scan::string_end;
use crate::scan::value_end;
use crate::scan::ws_end;

verus! {

/// One step of a path: descend into an object member by key, or into an
/// array element by zero-based position.
#[derive(Clone, Debug, PartialEq, Eq)]
pub enum Accessor {
    Key(Vec<u8>),
    Index(u64),
}

/// The accessor as the contracts speak of it.
pub enum Acc {
    Key(Seq<u8>),
    Index(int),
}

impl View for Accessor {
    type V = Acc;

    open spec fn view(&self) -> Acc {
        match self {
            Accessor::Key(k) => Acc::Key(k@),
            Accessor::Index(x) => Acc::Index(*x as int),
        }
    }
}

/// The whole path as the contracts speak of it.
pub open spec fn path_model(p: Seq<Accessor>) -> Seq<Acc> {
    Seq::new(p.len(), |n: int| p[n]@)
}

/// Position of the value of the first member whose raw key bytes equal
/// `key`, scanning a member list that starts at `i`; `None` when the list
/// closes without a match or is malformed. The key bytes are compared
/// verbatim, with no unescaping on either side.
pub open spec fn member_value(s: Seq<u8>, i: int, key: Seq<u8>) -> Option<int>
    decreases s.len() - i,
{
    if !(0 <= i < s.len()) || s[i] != 0x22 {
        None
    } else {
        match string_end(s, i + 1) {
            None => None,
            Some(k) => if !(i + 1 <= k <= s.len()) {
                None
            } else {
                let c = ws_end(s, k);
                if !(k <= c < s.len()) || s[c] != 0x3a {
                    None
                } else {
                    let v = ws_end(s, c + 1);
                    if !(c + 1 <= v <= s.len()) {
                        None
                    } else if s.subrange(i + 1, k - 1) == key {
                        Some(v)
                    } else {
                        match value_end(s, v) {
                            None => None,
                            Some(w) => if !(v < w <= s.len()) {
                                None
                            } else {
                                let x = ws_end(s, w);
                                if !(w <= x < s.len()) {
                                    None
                                } else if s[x] == 0x2c {
                                    let y = ws_end(s, x + 1);
                                    if !(x + 1 <= y <= s.len()) {
                                        None
                                    } else {
                                        member_value(s, y, key)
                                    }
                                } else {
                                    None
                                }
                            },
                        }
                    }
                }
            },
        }
    }
}

/// Position of the element `idx` places further into an element list that
/// starts at `i`; `None` when the list closes first or is malformed.
pub open spec fn element_value(s: Seq<u8>, i: int, idx: int) -> Option<int>
    decreases s.len() - i,
{
    if !(0 <= i < s.len()) {
        None
    } else if idx == 0 {
        Some(i)
    } else {
        match value_end(s, i) {
            None => None,
            Some(w) => if !(i < w <= s.len()) {
                None
            } else {
                let x = ws_end(s, w);
                if !(w <= x < s.len()) {
                    None
                } else if s[x] == 0x2c {
                    let y = ws_end(s, x + 1);
                    if !(x + 1 <= y <= s.len()) {
                        None
                    } else {
                        element_value(s, y, idx - 1)
                    }
                } else {
                    None
                }
            },
        }
    }
}

/// Position reached by applying `path[n..]` to the value that starts at `i`.
/// A key accessor demands an object and a matching member; an index accessor
/// demands an array that is long enough; anything else, a malformed document
/// included, resolves to `None`.
pub open spec fn nav_from(s: Seq<u8>, i: int, path: Seq<Acc>, n: int) -> Option<int>
    decreases path.len() - n,
{
    if !(0 <= i < s.len()) {
        None
    } else if n < 0 {
        None
    } else if n >= path.len() {
        Some(i)
    } else {
        match path[n] {
            Acc::Key(key) => if s[i] != 0x7b {
                None
            } else {
                let j = ws_end(s, i + 1);
                if !(i + 1 <= j < s.len()) {
                    None
                } else if s[j] == 0x7d {
                    None
                } else {
                    match member_value(s, j, key) {
                        None => None,
                        Some(v) => nav_from(s, v, path, n + 1),
                    }
                }
            },
            Acc::Index(idx) => if s[i] != 0x5b || idx < 0 {
                None
            } else {
                let j = ws_end(s, i + 1);
                if !(i + 1 <= j < s.len()) {
                    None
                } else if s[j] == 0x5d {
                    None
                } else {
                    match element_value(s, j, idx) {
                        None => None,
                        Some(v) => nav_from(s, v, path, n + 1),
                    }
                }
            },
        }
    }
}

/// What navigation reports for a whole document: the position of the value
/// the path addresses and the kind read off its first byte, or `None` when
/// the path does not resolve.
pub open spec fn navigate_model(s: Seq<u8>, path: Seq<Acc>) -> Option<(int, Kind)> {
    match nav_from(s, ws_end(s, 0), path, 0) {
        None => None,
        Some(i) => match kind_at(s, i) {
            None => None,
            Some(k) => Some((i, k)),
        },
    }
}

/// Navigation is deterministic and side-effect-free: what it reports is a
/// function of the document and the path alone, so whatever two runs over
/// the same inputs yield is one and the same, however often they are made.
pub proof fn lemma_navigate_deterministic(
    s: Seq<u8>,
    path: Seq<Acc>,
    r1: Option<(int, Kind)>,
    r2: Option<(int, Kind)>,
)
    requires
        r1 == navigate_model(s, path),
        r2 == navigate_model(s, path),
    ensures
        r1 == r2,
{
}

/// Whether `s[lo..hi)` equals `key`, byte for byte.
fn range_eq(s: &[u8], lo: usize, hi: usize, key: &[u8]) -> (r: bool)
    requires
        lo <= hi <= s@.len(),
    ensures
        r == (s@.subrange(lo as int, hi as int) == key@),
{
    if hi - lo != key.len() {
        proof {
            assert(s@.subrange(lo as int, hi as int).len() == hi - lo);
        }
        return false;
    }
    let mut t: usize = 0;
    while t < key.len()
        invariant
            lo <= hi <= s@.len(),
            hi - lo == key@.len(),
            t <= key@.len(),
            forall|q: int| 0 <= q < t ==> s@[lo + q] == key@[q],
        decreases key@.len() - t,
    {
        if s[lo + t] != key[t] {
            proof {
                assert(s@.subrange(lo as int, hi as int)[t as int] == s@[lo + t]);
            }
            return false;
        }
        t = t + 1;
    }
    proof {
        assert(s@.subrange(lo as int, hi as int) =~= key@);
    }
    true
}

/// Find the value of the member named `key` in a member list starting at `i`.
fn find_member(s: &[u8], i: usize, key: &[u8]) -> (r: Option<usize>)
    requires
        i <= s@.len(),
    ensures
        opt_pos(r) == member_value(s@, i as int, key@),
        r matches Some(v) ==> i < v <= s@.len(),
    decreases s@.len() - i,
{
    if i >= s.len() || s[i] != 0x22 {
        return None;
    }
    let k = match skip_string(s, i + 1) {
        Some(k) => k,
        None => {
            return None;
        },
    };
    let c = skip_ws(s, k);
    if c >= s.len() || s[c] != 0x3a {
        return None;
    }
    let v = skip_ws(s, c + 1);
    if range_eq(s, i + 1, k - 1, key) {
        return Some(v);
    }
    let w = match skip_value(s, v) {
        Some(w) => w,
        None => {
            return None;
        },
    };
    let x = skip_ws(s, w);
    if x >= s.len() {
        return None;
    }
    if s[x] == 0x2c {
        let y = skip_ws(s, x + 1);
        find_member(s, y, key)
    } else {
        None
    }
}

/// Find the element `idx` places further into an element list starting at `i`.
fn find_element(s: &[u8], i: usize, idx: u64) -> (r: Option<usize>)
    requires
        i <= s@.len(),
    ensures
        opt_pos(r) == element_value(s@, i as int, idx as int),
        r matches Some(v) ==> i <= v < s@.len(),
    decreases s@.len() - i,
{
    if i >= s.len() {
        return None;
    }
    if idx == 0 {
        return Some(i);
    }
    let w = match skip_value(s, i) {
        Some(w) => w,
        None => {
            return None;
        },
    };
    let x = skip_ws(s, w);
    if x >= s.len() {
        return None;
    }
    if s[x] == 0x2c {
        let y = skip_ws(s, x + 1);
        find_element(s, y, idx - 1)
    } else {
        None
    }
}

/// Apply `path[n..]` starting from the value at `i`.
fn nav_rec(s: &[u8], i: usize, path: &Vec<Accessor>, n: usize) -> (r: Option<usize>)
    requires
        i <= s@.len(),
        n <= path@.len(),
    ensures
        opt_pos(r) == nav_from(s@, i as int, path_model(path@), n as int),
        r matches Some(v) ==> v < s@.len(),
    decreases path@.len() - n,
{
    if i >= s.len() {
        return None;
    }
    if n == path.len() {
        return Some(i);
    }
    proof {
        assert(path_model(path@)[n as int] == path@[n as int]@);
    }
    match &path[n] {
        Accessor::Key(key) => {
            if s[i] != 0x7b {
                return None;
            }
            let j = skip_ws(s, i + 1);
            if j >= s.len() || s[j] == 0x7d {
                return None;
            }
            match find_member(s, j, key.as_slice()) {
                None => None,
                Some(v) => nav_rec(s, v, path, n + 1),
            }
        },
        Accessor::Index(idx) => {
            if s[i] != 0x5b {
                return None;
            }
            let j = skip_ws(s, i + 1);
            if j >= s.len() || s[j] == 0x5d {
                return None;
            }
            match find_element(s, j, *idx) {
                None => None,
                Some(v) => nav_rec(s, v, path, n + 1),
            }
        },
    }
}

/// Walk `json` along `path` and report where the addressed value starts and
/// what kind of value sits there, or `None` when the path does not resolve:
/// a missing key, a short array, an accessor applied to the wrong kind of
/// node, and malformed text met on the way all look alike here.
pub fn navigate(json: &[u8], path: &Vec<Accessor>) -> (r: Option<(usize, Kind)>)
    ensures
        match r {
            None => navigate_model(json@, path_model(path@)) is None,
            Some((p, k)) => navigate_model(json@, path_model(path@)) == Some((p as int, k)),
        },
{
    let root = skip_ws(json, 0);
    match nav_rec(json, root, path, 0) {
        None => None,
        Some(p) => match peek_kind(json, p) {
            None => None,
            Some(k) => Some((p, k)),
        },
    }
}

} // verus!
