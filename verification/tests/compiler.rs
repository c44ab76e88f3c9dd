//! Tests of the compiler: constant pooling, shadowing, lowering, errors.

use rua::{ByteCode, LossyStr, ParseError, ParseProto, Token, Value};

#[test]
fn identical_literal_constants_pool_once() {
    // the string "x" appears twice, the identifier `print` twice: one pool
    // entry each
    let proto = ParseProto::new("print \"x\"\nprint \"x\"").parse().unwrap();
    assert_eq!(proto.constants.len(), 2);
    assert!(proto.constants[0]
        .equals(&Value::Identifier(b"print".to_vec())));
    assert!(proto.constants[1]
        .equals(&Value::String(LossyStr::from_bytes(b"x".to_vec()))));
}

#[test]
fn distinct_constants_keep_first_seen_order() {
    let proto = ParseProto::new("print \"a\"\nprint \"b\"\nprint \"a\"")
        .parse()
        .unwrap();
    assert_eq!(proto.constants.len(), 3);
    assert!(proto.constants[1].equals(&Value::String(LossyStr::from_bytes(b"a".to_vec()))));
    assert!(proto.constants[2].equals(&Value::String(LossyStr::from_bytes(b"b".to_vec()))));
}

#[test]
fn shadowing_resolves_to_second_register() {
    let proto = ParseProto::new("local a = 1\nlocal a = 2\nprint(a)")
        .parse()
        .unwrap();
    // registers: 0 and 1 hold the two `a`s; the call loads the callee into
    // register 2 and moves the *second* declaration's register as argument
    assert_eq!(proto.bytecodes[0], ByteCode::LoadInt(0, 1));
    assert_eq!(proto.bytecodes[1], ByteCode::LoadInt(1, 2));
    assert_eq!(proto.bytecodes[3], ByteCode::Move(3, 1));
}

#[test]
fn locals_table_keeps_both_declarations() {
    let proto = ParseProto::new("local a = 1\nlocal a = 2").parse().unwrap();
    assert_eq!(proto.locals, vec![b"a".to_vec(), b"a".to_vec()]);
}

#[test]
fn local_var_returns_rightmost_match() {
    let proto = ParseProto::new("local a = 1\nlocal b = 2\nlocal a = 3")
        .parse()
        .unwrap();
    assert_eq!(proto.local_var(&b"a".to_vec()), Some(2));
    assert_eq!(proto.local_var(&b"b".to_vec()), Some(1));
    assert_eq!(proto.local_var(&b"c".to_vec()), None);
}

#[test]
fn small_integer_loads_directly_large_through_pool() {
    let proto = ParseProto::new("local a = 7\nlocal b = 70000")
        .parse()
        .unwrap();
    assert_eq!(proto.bytecodes[0], ByteCode::LoadInt(0, 7));
    assert_eq!(proto.bytecodes[1], ByteCode::LoadConst(1, 0));
    assert!(proto.constants[0].equals(&Value::Integer(70000)));
}

#[test]
fn global_assignment_forms_lower_to_dedicated_codes() {
    let proto = ParseProto::new("local l = 1\ng = 5\ng = l\ng = h")
        .parse()
        .unwrap();
    assert_eq!(proto.bytecodes[0], ByteCode::LoadInt(0, 1));
    assert!(matches!(proto.bytecodes[1], ByteCode::SetGlobalConst(_, _)));
    assert!(matches!(proto.bytecodes[2], ByteCode::SetGlobalLocal(_, 0)));
    assert!(matches!(proto.bytecodes[3], ByteCode::SetGlobalGlobal(_, _)));
}

#[test]
fn missing_variable_after_local_is_reported() {
    match ParseProto::new("local = 1").parse() {
        Err(ParseError::Token(u)) => {
            assert_eq!(u.expected, "<variable>");
            assert_eq!(u.actual, Token::Assign);
        }
        other => panic!("expected an unexpected-token error, got {:?}", other),
    }
}

#[test]
fn missing_assign_after_local_name_is_reported() {
    match ParseProto::new("local a 1").parse() {
        Err(ParseError::Token(u)) => assert_eq!(u.expected, "`=`"),
        other => panic!("expected an unexpected-token error, got {:?}", other),
    }
}

#[test]
fn missing_expression_is_reported() {
    match ParseProto::new("a =").parse() {
        Err(ParseError::Token(u)) => {
            assert_eq!(u.expected, "<expression>");
            assert_eq!(u.actual, Token::Eof);
        }
        other => panic!("expected an unexpected-token error, got {:?}", other),
    }
}

#[test]
fn missing_close_paren_is_reported() {
    match ParseProto::new("print(1").parse() {
        Err(ParseError::Token(u)) => assert_eq!(u.expected, "`)`"),
        other => panic!("expected an unexpected-token error, got {:?}", other),
    }
}

#[test]
fn bad_call_form_is_reported() {
    match ParseProto::new("print 5").parse() {
        Err(ParseError::Token(u)) => assert_eq!(u.expected, "`(<expression>)` or string"),
        other => panic!("expected an unexpected-token error, got {:?}", other),
    }
}

#[test]
fn lex_failure_propagates_through_parse() {
    match ParseProto::new("local a = \"oops").parse() {
        Err(ParseError::Lex(le)) => assert_eq!(le.pos, 10),
        other => panic!("expected a lexical error, got {:?}", other),
    }
}

#[test]
fn bytecode_stack_renders_one_line_per_instruction() {
    let proto = ParseProto::new("local a = 1\nprint(a)").parse().unwrap();
    let text = rua::ByteCodeStack(proto.bytecodes.as_slice()).to_text();
    assert_eq!(
        text,
        "    LoadInt(0, 1)\n    GetGlobal(1, 0)\n    Move(2, 0)\n    Call(1, 1)\n"
    );
}
