//! Tests of the value model and the byte-string representation.

use rua::{LossyStr, LuaFunc, Value};

#[test]
fn short_bytes_round_trip_inline() {
    let s = LossyStr::from_bytes(b"short".to_vec());
    assert_eq!(s.as_bytes(), b"short");
    assert_eq!(s.to_str(), "short");
}

#[test]
fn long_bytes_round_trip_on_the_heap() {
    let long = b"a byte sequence well past the inline capacity".to_vec();
    let s = LossyStr::from_bytes(long.clone());
    assert_eq!(s.as_bytes(), long.as_slice());
    let copy = s.clone();
    assert_eq!(copy.as_bytes(), long.as_slice());
    assert_eq!(copy.to_str(), "a byte sequence well past the inline capacity");
}

#[test]
fn invalid_utf8_renders_lossily() {
    let s = LossyStr::from_bytes(vec![b'a', 0xFF, b'b']);
    assert_eq!(s.as_bytes(), &[b'a', 0xFF, b'b']);
    assert_eq!(s.to_str(), "a\u{FFFD}b");
}

#[test]
fn equality_is_structural_per_variant() {
    assert!(Value::Nil.equals(&Value::Nil));
    assert!(!Value::Nil.equals(&Value::Boolean(false)));
    assert!(Value::Integer(3).equals(&Value::Integer(3)));
    assert!(!Value::Integer(3).equals(&Value::Integer(4)));
    assert!(Value::Float(b"1.5".to_vec()).equals(&Value::Float(b"1.5".to_vec())));
    assert!(!Value::Float(b"1.5".to_vec()).equals(&Value::Float(b"1.50".to_vec())));
    assert!(Value::String(LossyStr::from_bytes(b"x".to_vec()))
        .equals(&Value::String(LossyStr::from_bytes(b"x".to_vec()))));
    assert!(!Value::String(LossyStr::from_bytes(b"x".to_vec()))
        .equals(&Value::Identifier(b"x".to_vec())));
    assert!(Value::Function(LuaFunc::Print).equals(&Value::Function(LuaFunc::Print)));
}

#[test]
fn string_equality_crosses_representations() {
    // inline and heap values with equal bytes compare equal; representation
    // is canonical by length
    let a = Value::String(LossyStr::from_bytes(b"same bytes".to_vec()));
    let b = Value::String(LossyStr::from_bytes(b"same bytes".to_vec()));
    assert!(a.equals(&b));
}

#[test]
fn default_value_is_nil() {
    assert!(Value::default().equals(&Value::Nil));
}

#[test]
fn as_identifier_distinguishes_variants() {
    let id = Value::Identifier(b"print".to_vec());
    assert_eq!(id.as_identifier(), Some(&b"print".to_vec()));
    assert_eq!(Value::Integer(1).as_identifier(), None);
}

#[test]
fn clone_preserves_the_value() {
    let v = Value::String(LossyStr::from_bytes(b"cloned".to_vec()));
    let w = v.clone();
    assert!(v.equals(&w));
}
