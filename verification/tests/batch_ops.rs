use json_path_extract::batch::invoke_per_row;
use json_path_extract::batch::invoke_shared;
use json_path_extract::batch::json_get_int;
use json_path_extract::coerce::CellValue;
use json_path_extract::coerce::Coercion;
use json_path_extract::nav::Accessor;
use json_path_extract::path::PathError;
use json_path_extract::path::PathToken;
use json_path_extract::path::build_path;

fn tok(name: &str) -> PathToken {
    PathToken::Text(name.as_bytes().to_vec())
}

fn rows(texts: &[Option<&str>]) -> Vec<Option<Vec<u8>>> {
    texts.iter().map(|t| t.map(|s| s.as_bytes().to_vec())).collect()
}

#[test]
fn empty_accessor_list_is_rejected() {
    let tokens: Vec<PathToken> = vec![];
    let batch = rows(&[Some(r#"{"a": 1}"#)]);
    assert_eq!(invoke_shared(&batch, &tokens, Coercion::Int), Err(PathError::InvalidPathArgument));
    let other = rows(&[None, Some("17"), Some("not json")]);
    assert_eq!(invoke_shared(&other, &tokens, Coercion::Text), Err(PathError::InvalidPathArgument));
    assert!(matches!(build_path(&tokens), Err(PathError::InvalidPathArgument)));
}

#[test]
fn uninterpretable_argument_is_rejected() {
    let tokens = vec![tok("a"), PathToken::Other];
    let batch = rows(&[Some(r#"{"a": 1}"#)]);
    assert_eq!(invoke_shared(&batch, &tokens, Coercion::Int), Err(PathError::InvalidPathArgument));
}

#[test]
fn negative_index_is_rejected_at_construction() {
    let tokens = vec![tok("a"), PathToken::Int(-1)];
    let batch = rows(&[Some(r#"{"a": [1]}"#)]);
    assert_eq!(invoke_shared(&batch, &tokens, Coercion::Int), Err(PathError::InvalidPathArgument));
}

#[test]
fn null_shared_argument_nulls_every_row() {
    let tokens = vec![tok("a"), PathToken::Null];
    let batch = rows(&[Some(r#"{"a": [1]}"#), Some("2"), None]);
    let out = invoke_shared(&batch, &tokens, Coercion::Int).unwrap();
    assert_eq!(out, vec![None, None, None]);
}

#[test]
fn mixed_batch_nulls_exactly_the_absent_rows() {
    let tokens = vec![tok("a"), PathToken::Int(1)];
    let texts: Vec<Option<&str>> = vec![
        Some(r#"{"a": [10, 20, 30]}"#),
        None,
        Some(r#"{"a": [10]}"#),
        Some(r#"{"b": [10, 20]}"#),
        Some(r#"{"a": "x"}"#),
        Some(r#"{"a": [1, 99]}"#),
        Some("not json at all"),
    ];
    let batch = rows(&texts);
    let out = invoke_shared(&batch, &tokens, Coercion::Int).unwrap();
    assert_eq!(out.len(), batch.len());
    assert_eq!(
        out,
        vec![
            Some(CellValue::Int(20)),
            None,
            None,
            None,
            None,
            Some(CellValue::Int(99)),
            None,
        ],
    );
    let path = vec![Accessor::Key(b"a".to_vec()), Accessor::Index(1)];
    for (row, slot) in batch.iter().zip(out.iter()) {
        let single = json_get_int(row.as_deref(), &path);
        match slot {
            Some(CellValue::Int(n)) => assert_eq!(single, Some(*n)),
            Some(_) => unreachable!(),
            None => assert_eq!(single, None),
        }
    }
}

#[test]
fn shared_string_extraction_over_a_batch() {
    let tokens = vec![tok("name")];
    let batch = rows(&[Some(r#"{"name": "ada"}"#), Some(r#"{"name": 7}"#), None]);
    let out = invoke_shared(&batch, &tokens, Coercion::Text).unwrap();
    assert_eq!(out, vec![Some(CellValue::Text(b"ada".to_vec())), None, None]);
}

#[test]
fn per_row_paths_select_per_row() {
    let batch = rows(&[
        Some(r#"{"a": 1, "b": 2}"#),
        Some(r#"{"a": 1, "b": 2}"#),
        Some(r#"[5, 6]"#),
    ]);
    let paths = vec![
        vec![tok("a")],
        vec![tok("b")],
        vec![PathToken::Int(1)],
    ];
    let out = invoke_per_row(&batch, &paths, Coercion::Int).unwrap();
    assert_eq!(
        out,
        vec![Some(CellValue::Int(1)), Some(CellValue::Int(2)), Some(CellValue::Int(6))],
    );
}

#[test]
fn per_row_null_or_negative_argument_nulls_only_its_row() {
    let batch = rows(&[Some("[7]"), Some("[7]"), Some("[7]")]);
    let paths = vec![
        vec![PathToken::Int(0)],
        vec![PathToken::Null],
        vec![PathToken::Int(-3)],
    ];
    let out = invoke_per_row(&batch, &paths, Coercion::Int).unwrap();
    assert_eq!(out, vec![Some(CellValue::Int(7)), None, None]);
}

#[test]
fn per_row_empty_list_fails_the_call() {
    let batch = rows(&[Some("[7]"), Some("[7]")]);
    let paths = vec![vec![PathToken::Int(0)], vec![]];
    assert_eq!(
        invoke_per_row(&batch, &paths, Coercion::Int),
        Err(PathError::InvalidPathArgument),
    );
}

#[test]
fn build_path_compiles_text_and_index() {
    let tokens = vec![tok("a"), PathToken::Int(3)];
    let built = build_path(&tokens).unwrap().unwrap();
    assert_eq!(built, vec![Accessor::Key(b"a".to_vec()), Accessor::Index(3)]);
}
