//! Patch-script parsing and substitution.

use twpatcher::error::PatchError;
use twpatcher::script::{parse_script, parse_script_invocation, prepare_script};

fn script_text() -> Vec<u8> {
    let mut s = Vec::new();
    s.extend_from_slice(b"SELECT 1;\n");
    s.extend_from_slice(b"-- metadata start\n");
    s.extend_from_slice(b"-- affected land_units\n");
    s.extend_from_slice(b"-- affected main_units\n");
    s.extend_from_slice(b"-- created helper data__\n");
    s.extend_from_slice(b"-- param mult 1.0\n");
    s.extend_from_slice(b"-- metadata end\n");
    s.extend_from_slice(b"UPDATE t SET x = x * $mult$ WHERE pack = '$pack_name$';\n");
    s
}

#[test]
fn metadata_block_parses() {
    let script = parse_script(&script_text()).unwrap();
    assert_eq!(
        script.metadata.tables_affected,
        vec![b"land_units".to_vec(), b"main_units".to_vec()]
    );
    assert_eq!(script.metadata.tables_created.len(), 1);
    assert_eq!(script.metadata.tables_created[0].table_name, b"helper".to_vec());
    assert_eq!(script.metadata.tables_created[0].file_name, b"data__".to_vec());
    assert_eq!(script.metadata.parameters.len(), 1);
    assert_eq!(script.metadata.parameters[0].key, b"mult".to_vec());
    assert_eq!(script.metadata.parameters[0].default_value, b"1.0".to_vec());
    // The body keeps everything outside the block.
    assert_eq!(
        script.body,
        b"SELECT 1;\nUPDATE t SET x = x * $mult$ WHERE pack = '$pack_name$';\n".to_vec()
    );
}

#[test]
fn unterminated_metadata_is_a_format_failure() {
    let mut s = Vec::new();
    s.extend_from_slice(b"-- metadata start\n");
    s.extend_from_slice(b"-- affected foo\n");
    match parse_script(&s) {
        Err(PatchError::ScriptFormatFailure(_)) => {},
        other => panic!("expected a format failure, got {:?}", other),
    }
}

#[test]
fn unknown_directive_is_a_format_failure() {
    let mut s = Vec::new();
    s.extend_from_slice(b"-- metadata start\n");
    s.extend_from_slice(b"-- banana\n");
    s.extend_from_slice(b"-- metadata end\n");
    assert!(parse_script(&s).is_err());
}

#[test]
fn missing_parameter_takes_declared_default() {
    // A declared parameter invoked with no supplied value substitutes
    // its default into the template.
    let script = parse_script(&script_text()).unwrap();
    let batch = prepare_script(&script, &vec![], &b"override.pack".to_vec());
    assert_eq!(
        batch,
        b"SELECT 1;\nUPDATE t SET x = x * 1.0 WHERE pack = 'override.pack';\n".to_vec()
    );
}

#[test]
fn supplied_parameter_beats_default() {
    let script = parse_script(&script_text()).unwrap();
    let batch = prepare_script(&script, &vec![b"2.5".to_vec()], &b"p.pack".to_vec());
    assert_eq!(
        batch,
        b"SELECT 1;\nUPDATE t SET x = x * 2.5 WHERE pack = 'p.pack';\n".to_vec()
    );
}

#[test]
fn invocation_splits_path_and_params() {
    let (path, params) = parse_script_invocation(&b"scripts/my.sql;2;fast".to_vec()).unwrap();
    assert_eq!(path, b"scripts/my.sql".to_vec());
    assert_eq!(params, vec![b"2".to_vec(), b"fast".to_vec()]);
}

#[test]
fn invocation_supports_quoting() {
    let (path, params) =
        parse_script_invocation(&b"\"dir with;semi/my.sql\";\"a \"\"quoted\"\" value\"".to_vec())
            .unwrap();
    assert_eq!(path, b"dir with;semi/my.sql".to_vec());
    assert_eq!(params, vec![b"a \"quoted\" value".to_vec()]);
}

#[test]
fn invocation_without_params() {
    let (path, params) = parse_script_invocation(&b"only/path.sql".to_vec()).unwrap();
    assert_eq!(path, b"only/path.sql".to_vec());
    assert!(params.is_empty());
}

#[test]
fn empty_invocation_path_is_refused() {
    assert!(parse_script_invocation(&b";p1".to_vec()).is_err());
    assert!(parse_script_invocation(&b"\"unterminated".to_vec()).is_err());
}
