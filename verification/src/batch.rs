//! The row-vectorized invoker: one extraction per row of a nullable column
//! of JSON texts, under one shared path or under per-row accessor arguments.
//! No row's outcome ever aborts the batch; only a structurally invalid
//! accessor list fails the whole invocation.

use vstd::prelude::*;

use crate::coerce::Cell;
use crate::coerce::CellValue;
use crate::coerce::Coercion;
use crate::coerce::cell_opt;
use crate::coerce::coerce_at;
use crate::coerce::coerce_model;
use crate::nav::Acc;
use crate::nav::Accessor;
use crate::nav::navigate;
use crate::nav::navigate_model;
use crate::nav::path_model;
use crate::path::PathError;
use crate::path::PathToken;
use crate::path::build_path;
use crate::path::build_row_path;
use crate::path::path_of_tokens;
use crate::path::tokens_fatal;
use crate::path::tokens_have_negative;
use crate::path::tokens_have_null;
use crate::path::tokens_well_formed;

verus! {

/// What extracting with coercion `c` at `path` yields from one document.
pub open spec fn extract_model(s: Seq<u8>, path: Seq<Acc>, c: Coercion) -> Option<Cell> {
    match navigate_model(s, path) {
        None => None,
        Some(pk) => coerce_model(s, pk.0, c),
    }
}

/// A nullable JSON-text input, lifted to the model's type.
pub open spec fn opt_bytes(j: Option<&[u8]>) -> Option<Seq<u8>> {
    match j {
        Some(s) => Some(s@),
        None => None,
    }
}

/// An owned nullable JSON-text input, lifted to the model's type.
pub open spec fn opt_vec(j: Option<Vec<u8>>) -> Option<Seq<u8>> {
    match j {
        Some(v) => Some(v@),
        None => None,
    }
}

/// What one nullable row yields: null in, null out; otherwise the extraction.
pub open spec fn row_model(j: Option<Seq<u8>>, path: Seq<Acc>, c: Coercion) -> Option<Cell> {
    match j {
        None => None,
        Some(s) => extract_model(s, path, c),
    }
}

/// Extract one value from one nullable document: navigate, then coerce; a
/// null input, an unresolved path and a kind mismatch all yield `None`.
pub fn extract_value(json: Option<&[u8]>, path: &Vec<Accessor>, c: Coercion) -> (r: Option<
    CellValue,
>)
    ensures
        cell_opt(r) == row_model(opt_bytes(json), path_model(path@), c),
{
    match json {
        None => None,
        Some(s) => match navigate(s, path) {
            None => None,
            Some((p, _)) => coerce_at(s, p, c),
        },
    }
}

/// Extract the string value at `path`, unescaped; absent unless a string
/// node sits there.
pub fn json_get_str(json: Option<&[u8]>, path: &Vec<Accessor>) -> (r: Option<Vec<u8>>)
    ensures
        match r {
            Some(v) => row_model(opt_bytes(json), path_model(path@), Coercion::Text) == Some(
                Cell::Text(v@),
            ),
            None => row_model(opt_bytes(json), path_model(path@), Coercion::Text) is None,
        },
{
    match extract_value(json, path, Coercion::Text) {
        Some(CellValue::Text(v)) => Some(v),
        _ => None,
    }
}

/// Extract the signed 64-bit integer at `path`; absent unless a plain
/// integer literal that fits sits there.
pub fn json_get_int(json: Option<&[u8]>, path: &Vec<Accessor>) -> (r: Option<i64>)
    ensures
        match r {
            Some(n) => row_model(opt_bytes(json), path_model(path@), Coercion::Int) == Some(
                Cell::Int(n),
            ),
            None => row_model(opt_bytes(json), path_model(path@), Coercion::Int) is None,
        },
{
    match extract_value(json, path, Coercion::Int) {
        Some(CellValue::Int(n)) => Some(n),
        _ => None,
    }
}

/// Extract the boolean at `path`; absent unless a boolean literal sits there.
pub fn json_get_bool(json: Option<&[u8]>, path: &Vec<Accessor>) -> (r: Option<bool>)
    ensures
        match r {
            Some(b) => row_model(opt_bytes(json), path_model(path@), Coercion::Boolean) == Some(
                Cell::Boolean(b),
            ),
            None => row_model(opt_bytes(json), path_model(path@), Coercion::Boolean) is None,
        },
{
    match extract_value(json, path, Coercion::Boolean) {
        Some(CellValue::Boolean(b)) => Some(b),
        _ => None,
    }
}

/// Extract the boolean at `path` as the text `true` or `false`, for callers
/// that want a uniformly textual column.
pub fn json_get_bool_text(json: Option<&[u8]>, path: &Vec<Accessor>) -> (r: Option<Vec<u8>>)
    ensures
        match r {
            Some(v) => row_model(opt_bytes(json), path_model(path@), Coercion::BooleanText) == Some(
                Cell::Text(v@),
            ),
            None => row_model(opt_bytes(json), path_model(path@), Coercion::BooleanText) is None,
        },
{
    match extract_value(json, path, Coercion::BooleanText) {
        Some(CellValue::Text(v)) => Some(v),
        _ => None,
    }
}

/// Extract the exact source bytes of the value at `path`, unparsed, whatever
/// its kind.
pub fn json_get_raw(json: Option<&[u8]>, path: &Vec<Accessor>) -> (r: Option<Vec<u8>>)
    ensures
        match r {
            Some(v) => row_model(opt_bytes(json), path_model(path@), Coercion::Raw) == Some(
                Cell::Text(v@),
            ),
            None => row_model(opt_bytes(json), path_model(path@), Coercion::Raw) is None,
        },
{
    match extract_value(json, path, Coercion::Raw) {
        Some(CellValue::Text(v)) => Some(v),
        _ => None,
    }
}

/// Extract the exact source bytes of the numeric literal at `path`; absent
/// unless a number sits there. A caller that wants a floating-point value
/// parses these bytes itself, outside this library.
pub fn json_get_number_text(json: Option<&[u8]>, path: &Vec<Accessor>) -> (r: Option<Vec<u8>>)
    ensures
        match r {
            Some(v) => row_model(opt_bytes(json), path_model(path@), Coercion::NumberText) == Some(
                Cell::Text(v@),
            ),
            None => row_model(opt_bytes(json), path_model(path@), Coercion::NumberText) is None,
        },
{
    match extract_value(json, path, Coercion::NumberText) {
        Some(CellValue::Text(v)) => Some(v),
        _ => None,
    }
}

/// What one row of a batch under one shared accessor list yields: null when
/// any shared argument is null, otherwise the row's own extraction.
pub open spec fn shared_row_model(row: Option<Vec<u8>>, ts: Seq<PathToken>, c: Coercion) -> Option<
    Cell,
> {
    if tokens_have_null(ts) {
        None
    } else {
        row_model(opt_vec(row), path_of_tokens(ts), c)
    }
}

/// Apply one shared path to every row. The output column has one slot per
/// row; a slot is null exactly where the input is null or the extraction is
/// absent, and holds the single-row extraction result everywhere else. Only
/// a structurally invalid accessor list fails the call.
pub fn invoke_shared(rows: &Vec<Option<Vec<u8>>>, tokens: &Vec<PathToken>, c: Coercion) -> (r:
    Result<Vec<Option<CellValue>>, PathError>)
    ensures
        match r {
            Err(e) => !tokens_well_formed(tokens@) && e == PathError::InvalidPathArgument,
            Ok(out) => tokens_well_formed(tokens@) && out@.len() == rows@.len() && forall|n: int|
                0 <= n < rows@.len() ==> cell_opt(#[trigger] out@[n]) == shared_row_model(
                    rows@[n],
                    tokens@,
                    c,
                ),
        },
{
    let path = match build_path(tokens) {
        Err(e) => {
            return Err(e);
        },
        Ok(p) => p,
    };
    let mut out: Vec<Option<CellValue>> = Vec::new();
    let mut n: usize = 0;
    match path {
        None => {
            while n < rows.len()
                invariant
                    n <= rows@.len(),
                    out@.len() == n,
                    tokens_well_formed(tokens@),
                    tokens_have_null(tokens@),
                    forall|q: int| 0 <= q < n ==> cell_opt(#[trigger] out@[q]) == shared_row_model(
                        rows@[q],
                        tokens@,
                        c,
                    ),
                decreases rows@.len() - n,
            {
                out.push(None);
                n = n + 1;
            }
            Ok(out)
        },
        Some(p) => {
            while n < rows.len()
                invariant
                    n <= rows@.len(),
                    out@.len() == n,
                    tokens_well_formed(tokens@),
                    !tokens_have_null(tokens@),
                    path_model(p@) == path_of_tokens(tokens@),
                    forall|q: int| 0 <= q < n ==> cell_opt(#[trigger] out@[q]) == shared_row_model(
                        rows@[q],
                        tokens@,
                        c,
                    ),
                decreases rows@.len() - n,
            {
                let cell = match &rows[n] {
                    None => None,
                    Some(v) => extract_value(Some(v.as_slice()), &p, c),
                };
                out.push(cell);
                n = n + 1;
            }
            Ok(out)
        },
    }
}

/// What one row yields under its own accessor arguments: null when any of
/// them is null or a negative index, otherwise the row's own extraction.
pub open spec fn per_row_model(row: Option<Vec<u8>>, ts: Seq<PathToken>, c: Coercion) -> Option<
    Cell,
> {
    if tokens_have_null(ts) || tokens_have_negative(ts) {
        None
    } else {
        row_model(opt_vec(row), path_of_tokens(ts), c)
    }
}

/// Apply a per-row accessor list to every row. Argument-list shape is a
/// property of the columns, so an empty or uninterpretable list in any row
/// fails the whole call; a null or negative argument only nulls its row.
pub fn invoke_per_row(
    rows: &Vec<Option<Vec<u8>>>,
    paths: &Vec<Vec<PathToken>>,
    c: Coercion,
) -> (r: Result<Vec<Option<CellValue>>, PathError>)
    requires
        rows@.len() == paths@.len(),
    ensures
        match r {
            Err(e) => (exists|n: int|
                0 <= n < paths@.len() && tokens_fatal(#[trigger] paths@[n]@)) && e
                == PathError::InvalidPathArgument,
            Ok(out) => out@.len() == rows@.len() && (forall|n: int|
                0 <= n < paths@.len() ==> !tokens_fatal(#[trigger] paths@[n]@)) && forall|n: int|
                0 <= n < rows@.len() ==> cell_opt(#[trigger] out@[n]) == per_row_model(
                    rows@[n],
                    paths@[n]@,
                    c,
                ),
        },
{
    let mut out: Vec<Option<CellValue>> = Vec::new();
    let mut n: usize = 0;
    while n < rows.len()
        invariant
            rows@.len() == paths@.len(),
            n <= rows@.len(),
            out@.len() == n,
            forall|q: int| 0 <= q < n ==> !tokens_fatal(#[trigger] paths@[q]@),
            forall|q: int| 0 <= q < n ==> cell_opt(#[trigger] out@[q]) == per_row_model(
                rows@[q],
                paths@[q]@,
                c,
            ),
        decreases rows@.len() - n,
    {
        let cell = match build_row_path(&paths[n]) {
            Err(e) => {
                return Err(e);
            },
            Ok(None) => None,
            Ok(Some(p)) => match &rows[n] {
                None => None,
                Some(v) => extract_value(Some(v.as_slice()), &p, c),
            },
        };
        out.push(cell);
        n = n + 1;
    }
    Ok(out)
}

} // verus!
