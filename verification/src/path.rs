//! The path model: compile a list of accessor arguments, as a caller hands
//! them over, into an immutable path, separating the hard failure of a
//! structurally invalid argument list from the per-row nullity of a null
//! argument.

use vstd::prelude::*;

use crate::nav::Acc;
use crate::nav::Accessor;
use crate::nav::path_model;

verus! {

/// One accessor argument as it arrives at the call boundary: a text to be
/// read as an object key, an integer to be read as an array index, a null,
/// or a value of some type the functions cannot interpret.
#[derive(Clone, Debug, PartialEq, Eq)]
pub enum PathToken {
    Text(Vec<u8>),
    Int(i64),
    Null,
    Other,
}

/// The one call-level failure: the accessor list itself is malformed. Per-row
/// conditions never surface here; they become null output slots.
#[derive(Clone, Copy, Debug, PartialEq, Eq, Structural)]
pub enum PathError {
    InvalidPathArgument,
}

/// Whether one accessor argument is structurally acceptable: text, a
/// non-negative integer, or null.
pub open spec fn token_ok(t: PathToken) -> bool {
    match t {
        PathToken::Text(_) => true,
        PathToken::Int(x) => x >= 0,
        PathToken::Null => true,
        PathToken::Other => false,
    }
}

/// Whether the accessor list is structurally acceptable: non-empty, and
/// every argument a text, a non-negative integer or a null.
pub open spec fn tokens_well_formed(ts: Seq<PathToken>) -> bool {
    ts.len() > 0 && forall|n: int| 0 <= n < ts.len() ==> token_ok(ts[n])
}

/// Whether some accessor argument is null.
pub open spec fn tokens_have_null(ts: Seq<PathToken>) -> bool {
    exists|n: int| 0 <= n < ts.len() && ts[n] is Null
}

/// The accessor one non-null, well-formed argument compiles to.
pub open spec fn token_acc(t: PathToken) -> Acc {
    match t {
        PathToken::Text(k) => Acc::Key(k@),
        PathToken::Int(x) => Acc::Index(x as int),
        PathToken::Null => Acc::Index(-1),
        PathToken::Other => Acc::Index(-1),
    }
}

/// The path a well-formed, null-free accessor list compiles to.
pub open spec fn path_of_tokens(ts: Seq<PathToken>) -> Seq<Acc> {
    Seq::new(ts.len(), |n: int| token_acc(ts[n]))
}

/// Whether an accessor list is malformed in the way that fails a whole
/// call even when paths vary per row: empty, or holding an argument of a
/// type the functions cannot interpret.
pub open spec fn tokens_fatal(ts: Seq<PathToken>) -> bool {
    !(ts.len() > 0 && forall|n: int| 0 <= n < ts.len() ==> !(ts[n] is Other))
}

/// Whether some accessor argument is a negative integer.
pub open spec fn tokens_have_negative(ts: Seq<PathToken>) -> bool {
    exists|n: int| 0 <= n < ts.len() && ((#[trigger] ts[n]) matches PathToken::Int(x) && x < 0)
}

/// An owned copy of a byte vector.
fn clone_bytes(v: &Vec<u8>) -> (r: Vec<u8>)
    ensures
        r@ == v@,
{
    let mut out: Vec<u8> = Vec::new();
    let mut n: usize = 0;
    while n < v.len()
        invariant
            n <= v@.len(),
            out@ == v@.subrange(0, n as int),
        decreases v@.len() - n,
    {
        out.push(v[n]);
        proof {
            assert(v@.subrange(0, (n + 1) as int) =~= v@.subrange(0, n as int).push(v@[n as int]));
        }
        n = n + 1;
    }
    proof {
        assert(v@.subrange(0, v@.len() as int) =~= v@);
    }
    out
}

/// Compile an accessor list. An empty list, an argument of an uninterpretable
/// type, or a negative index is a call-level failure; a null argument makes
/// the whole row null, reported as `Ok(None)`; otherwise the compiled path
/// comes back.
pub fn build_path(tokens: &Vec<PathToken>) -> (r: Result<Option<Vec<Accessor>>, PathError>)
    ensures
        match r {
            Err(e) => !tokens_well_formed(tokens@) && e == PathError::InvalidPathArgument,
            Ok(None) => tokens_well_formed(tokens@) && tokens_have_null(tokens@),
            Ok(Some(p)) => tokens_well_formed(tokens@) && !tokens_have_null(tokens@)
                && path_model(p@) == path_of_tokens(tokens@),
        },
{
    if tokens.len() == 0 {
        return Err(PathError::InvalidPathArgument);
    }
    let mut out: Vec<Accessor> = Vec::new();
    let mut saw_null = false;
    let mut n: usize = 0;
    while n < tokens.len()
        invariant
            n <= tokens@.len(),
            forall|q: int| 0 <= q < n ==> token_ok(tokens@[q]),
            saw_null == exists|q: int| 0 <= q < n && tokens@[q] is Null,
            !saw_null ==> out@.len() == n && forall|q: int| 0 <= q < n ==> out@[q]@ == token_acc(
                tokens@[q],
            ),
        decreases tokens@.len() - n,
    {
        match &tokens[n] {
            PathToken::Text(k) => {
                out.push(Accessor::Key(clone_bytes(k)));
            },
            PathToken::Int(x) => {
                if *x < 0 {
                    return Err(PathError::InvalidPathArgument);
                }
                out.push(Accessor::Index(*x as u64));
            },
            PathToken::Null => {
                saw_null = true;
            },
            PathToken::Other => {
                return Err(PathError::InvalidPathArgument);
            },
        }
        n = n + 1;
    }
    if saw_null {
        Ok(None)
    } else {
        proof {
            assert(path_model(out@) =~= path_of_tokens(tokens@));
        }
        Ok(Some(out))
    }
}

/// Compile one row's accessor arguments. The shape failures, an empty list
/// or an uninterpretable argument, are call-level here too; a null or a
/// negative index only nulls this row, reported as `Ok(None)`.
pub fn build_row_path(tokens: &Vec<PathToken>) -> (r: Result<Option<Vec<Accessor>>, PathError>)
    ensures
        match r {
            Err(e) => tokens_fatal(tokens@) && e == PathError::InvalidPathArgument,
            Ok(None) => !tokens_fatal(tokens@) && (tokens_have_null(tokens@)
                || tokens_have_negative(tokens@)),
            Ok(Some(p)) => !tokens_fatal(tokens@) && !tokens_have_null(tokens@)
                && !tokens_have_negative(tokens@) && path_model(p@) == path_of_tokens(tokens@),
        },
{
    if tokens.len() == 0 {
        return Err(PathError::InvalidPathArgument);
    }
    let mut out: Vec<Accessor> = Vec::new();
    let mut row_null = false;
    let mut n: usize = 0;
    while n < tokens.len()
        invariant
            n <= tokens@.len(),
            forall|q: int| 0 <= q < n ==> !(tokens@[q] is Other),
            row_null == exists|q: int|
                0 <= q < n && (tokens@[q] is Null || (tokens@[q] matches PathToken::Int(x) && x
                    < 0)),
            !row_null ==> out@.len() == n && forall|q: int| 0 <= q < n ==> out@[q]@ == token_acc(
                tokens@[q],
            ),
        decreases tokens@.len() - n,
    {
        match &tokens[n] {
            PathToken::Text(k) => {
                out.push(Accessor::Key(clone_bytes(k)));
            },
            PathToken::Int(x) => {
                if *x < 0 {
                    row_null = true;
                } else {
                    out.push(Accessor::Index(*x as u64));
                }
            },
            PathToken::Null => {
                row_null = true;
            },
            PathToken::Other => {
                return Err(PathError::InvalidPathArgument);
            },
        }
        n = n + 1;
    }
    if row_null {
        Ok(None)
    } else {
        proof {
            assert(path_model(out@) =~= path_of_tokens(tokens@));
        }
        Ok(Some(out))
    }
}

/// An empty accessor list is never well formed, whatever the JSON text, so
/// every extraction rejects it as the invalid-path failure.
pub proof fn lemma_empty_tokens_invalid(ts: Seq<PathToken>)
    requires
        ts.len() == 0,
    ensures
        !tokens_well_formed(ts),
        tokens_fatal(ts),
{
}

} // verus!
