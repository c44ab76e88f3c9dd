//! End-to-end tests of the interpreter through its public entry points.

use rua::{ExeState, ParseProto, RuaError, ParseError};

fn transcript(source: &str) -> Result<Vec<String>, String> {
    let proto = match ParseProto::new(source).parse() {
        Ok(p) => p,
        Err(_) => return Err(String::from("parse error")),
    };
    let mut state = ExeState::new();
    match state.execute(proto) {
        Ok(()) => Ok(state.output().clone()),
        Err(e) => Err(e.text()),
    }
}

#[test]
fn test_print() {
    let source = "print(nil)\nprint(false)\nprint(123)\nprint(123456)\nprint(123456.0)\n";
    rua::rua(source).unwrap();
    assert_eq!(
        transcript(source).unwrap(),
        vec!["nil", "false", "123", "123456", "123456.0"]
    );
}

#[test]
fn test_local_var() {
    let source = "local a = \"hello, local!\"\nlocal b = a\nprint(b)\nprint(print)\nlocal print = print\nprint \"I'm local-print!\"\n";
    rua::rua(source).unwrap();
    let out = transcript(source).unwrap();
    assert_eq!(out[0], "hello, local!");
    assert_eq!(out[2], "I'm local-print!");
}

#[test]
fn test_assignment() {
    let source = "local a = 456\na = 123\nprint(a)\na = a\nprint(a)\na = g\nprint(a)\ng = 123\nprint(g)\ng = a\nprint(g)\ng = g2\nprint(g)\n";
    rua::rua(source).unwrap();
    assert_eq!(
        transcript(source).unwrap(),
        vec!["123", "123", "nil", "123", "nil", "nil"]
    );
}

#[test]
fn end_to_end_local_assignment_prints_twice() {
    // local declaration, local-to-local self-assignment, repeated reads
    let out = transcript("local a = 456\na = 123\nprint(a)\na = a\nprint(a)").unwrap();
    assert_eq!(out, vec!["123", "123"]);
}

#[test]
fn unknown_global_reads_as_nil() {
    let out = transcript("print(undefined_name)").unwrap();
    assert_eq!(out, vec!["nil"]);
}

#[test]
fn local_shadowing_resolves_newest_declaration() {
    let out = transcript("local a = 1\nlocal a = 2\nprint(a)").unwrap();
    assert_eq!(out, vec!["2"]);
}

#[test]
fn call_on_non_function_fails_and_prints_nothing() {
    let proto = ParseProto::new("g = 1\ng(2)").parse().unwrap();
    let mut state = ExeState::new();
    let err = state.execute(proto).unwrap_err();
    assert_eq!(err.text(), "1 is not a function");
    assert!(state.output().is_empty());
}

#[test]
fn runtime_error_does_not_undo_earlier_prints() {
    let proto = ParseProto::new("print(7)\ng = 5\ng(2)").parse().unwrap();
    let mut state = ExeState::new();
    assert!(state.execute(proto).is_err());
    assert_eq!(state.output().clone(), vec!["7"]);
}

#[test]
fn comment_statement_is_skipped() {
    let out = transcript("-- a comment line\nprint(1)").unwrap();
    assert_eq!(out, vec!["1"]);
}

#[test]
fn unterminated_comment_is_not_a_comment() {
    // without a terminating newline the marker lexes as two minus tokens,
    // which no statement starts with
    match rua::rua("--x") {
        Err(RuaError::Parse(ParseError::Token(u))) => assert_eq!(u.expected, ""),
        other => panic!("expected an unexpected-token error, got {:?}", other),
    }
}

#[test]
fn negative_and_large_integers_print_exactly() {
    let out = transcript("print(-123)\nprint(0)\nprint(9223372036854775807)\nprint(-9223372036854775808)").unwrap();
    assert_eq!(
        out,
        vec!["-123", "0", "9223372036854775807", "-9223372036854775808"]
    );
}

#[test]
fn float_literal_prints_as_spelled() {
    let out = transcript("print(1.5)\nprint(123456.0)").unwrap();
    assert_eq!(out, vec!["1.5", "123456.0"]);
}

#[test]
fn overlong_integer_is_a_name_not_a_number() {
    // the digits overflow a 64-bit integer, so they lex as a word and read
    // as an unknown global
    let out = transcript("print(99999999999999999999)").unwrap();
    assert_eq!(out, vec!["nil"]);
}

#[test]
fn string_argument_call_form() {
    let out = transcript("print \"direct\"").unwrap();
    assert_eq!(out, vec!["direct"]);
}

#[test]
fn escapes_decode_into_printed_text() {
    let out = transcript("print \"A\\66\\x43\"").unwrap();
    assert_eq!(out, vec!["ABC"]);
}

#[test]
fn runtime_error_surfaces_through_rua() {
    match rua::rua("g = 1\ng(2)") {
        Err(RuaError::Runtime(e)) => assert_eq!(e.text(), "1 is not a function"),
        other => panic!("expected a runtime error, got {:?}", other),
    }
}

#[test]
fn pool_overflow_is_rejected_not_misread() {
    // fill the pool with 256 string constants, so that pooling the
    // identifier `print` lands past the u8 index range and its instruction
    // would alias a non-identifier slot
    let mut source = String::from("local a = \"x0\"\n");
    for i in 1..256 {
        source.push_str(&format!("a = \"x{}\"\n", i));
    }
    source.push_str("print(a)\n");
    match rua::rua(&source) {
        Err(RuaError::Capacity) => {}
        other => panic!("expected the capacity error, got {:?}", other),
    }
}
