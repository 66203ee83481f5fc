use lox::globals::Globals;
use lox::report::{error, error_at_token, report};
use lox::text::{append_bytes, append_decimal, copy_bytes, same_bytes};
use lox::token::{Token, TokenKind};
use lox::value::{negate_number, number_less, numbers_equal, Value};

fn samples() -> Vec<f64> {
    vec![
        0.0,
        -0.0,
        1.0,
        -1.0,
        0.5,
        -0.5,
        2.0,
        1e300,
        -1e300,
        5e-324,
        -5e-324,
        f64::MIN_POSITIVE,
        f64::MAX,
        f64::MIN,
        f64::INFINITY,
        f64::NEG_INFINITY,
        f64::NAN,
        -f64::NAN,
        f64::from_bits(0x7ff0_0000_0000_0001),
        f64::from_bits(0xffff_ffff_ffff_ffff),
    ]
}

#[test]
fn number_equality_is_that_of_binary64() {
    for a in samples() {
        for b in samples() {
            assert_eq!(numbers_equal(a.to_bits(), b.to_bits()), a == b, "{} == {}", a, b);
        }
    }
}

#[test]
fn number_order_is_that_of_binary64() {
    for a in samples() {
        for b in samples() {
            assert_eq!(number_less(a.to_bits(), b.to_bits()), a < b, "{} < {}", a, b);
        }
    }
}

#[test]
fn number_negation_is_that_of_binary64() {
    for a in samples() {
        assert_eq!(negate_number(a.to_bits()), (-a).to_bits(), "-{}", a);
    }
}

#[test]
fn value_predicates() {
    let number = Value::Number(1.0f64.to_bits());
    let string = Value::string(b"s");
    assert!(Value::Bool(true).is_bool() && !Value::Nil.is_bool());
    assert!(Value::Nil.is_nil() && !number.is_nil());
    assert!(number.is_number() && !string.is_number());
    assert!(string.is_obj() && string.is_string() && !Value::Nil.is_obj());
    assert!(Value::Bool(true).as_bool());
    assert!(!Value::Bool(false).as_bool());
    assert_eq!(number.as_number(), 1.0f64.to_bits());
    assert_eq!(string.into_obj().into_string(), b"s".to_vec());
}

#[test]
fn only_nil_and_false_are_falsey() {
    assert!(Value::Nil.is_falsey());
    assert!(Value::Bool(false).is_falsey());
    assert!(!Value::Bool(true).is_falsey());
    assert!(!Value::Number(0.0f64.to_bits()).is_falsey());
    assert!(!Value::string(b"").is_falsey());
}

#[test]
fn values_of_different_kinds_are_unequal() {
    let values = vec![
        Value::Nil,
        Value::Bool(false),
        Value::Bool(true),
        Value::Number(0.0f64.to_bits()),
        Value::Number(1.0f64.to_bits()),
        Value::string(b""),
        Value::string(b"1"),
    ];
    for (i, a) in values.iter().enumerate() {
        for (j, b) in values.iter().enumerate() {
            assert_eq!(a.equals(b), i == j, "{:?} == {:?}", a, b);
        }
    }
    assert!(Value::string(b"ab").equals(&Value::string(b"ab")));
}

#[test]
fn value_order_and_negation() {
    let one = Value::Number(1.0f64.to_bits());
    let two = Value::Number(2.0f64.to_bits());
    assert!(one.less(&two) && !two.less(&one) && !one.less(&one));
    assert!(two.greater(&one) && !one.greater(&two));
    assert_eq!(one.neg().as_number(), (-1.0f64).to_bits());
}

#[test]
fn text_of_values() {
    assert_eq!(Value::Nil.text(), Some(b"nil".to_vec()));
    assert_eq!(Value::Bool(true).text(), Some(b"true".to_vec()));
    assert_eq!(Value::Bool(false).text(), Some(b"false".to_vec()));
    assert_eq!(Value::string(b"raw \xff").text(), Some(b"raw \xff".to_vec()));
    assert_eq!(Value::Number(7.0f64.to_bits()).text(), None);
}

#[test]
fn clone_keeps_the_value() {
    let string = Value::string(b"abc");
    assert!(string.clone().equals(&string));
    assert!(Value::Number(3.5f64.to_bits()).clone().equals(&Value::Number(3.5f64.to_bits())));
}

#[test]
fn byte_string_helpers() {
    assert_eq!(copy_bytes(b"abc"), b"abc".to_vec());
    assert!(same_bytes(b"abc", b"abc"));
    assert!(!same_bytes(b"abc", b"abd"));
    assert!(!same_bytes(b"abc", b"ab"));
    assert!(same_bytes(b"", b""));
    let mut buffer = b"ab".to_vec();
    append_bytes(&mut buffer, b"cd");
    assert_eq!(buffer, b"abcd".to_vec());
}

#[test]
fn decimal_numerals() {
    for (n, text) in [(0usize, "0"), (7, "7"), (10, "10"), (409, "409"), (65536, "65536")] {
        let mut buffer = b"n=".to_vec();
        append_decimal(&mut buffer, n);
        assert_eq!(buffer, format!("n={}", text).into_bytes());
    }
    let mut buffer = Vec::new();
    append_decimal(&mut buffer, usize::MAX);
    assert_eq!(buffer, usize::MAX.to_string().into_bytes());
}

#[test]
fn diagnostics_are_formatted() {
    assert_eq!(error(3, b"Unexpected character."), b"[line 3] Error: Unexpected character.".to_vec());
    assert_eq!(report(12, b" at end", b"Oops."), b"[line 12] Error at end: Oops.".to_vec());
    let token = Token::new(TokenKind::Identifier, b"x".to_vec(), 2);
    assert_eq!(error_at_token(&token, b"Bad."), b"[line 2] Error at 'x': Bad.".to_vec());
    let eof = Token::new(TokenKind::Eof, Vec::new(), 9);
    assert_eq!(error_at_token(&eof, b"Bad."), b"[line 9] Error at end: Bad.".to_vec());
}

#[test]
fn globals_define_get_and_assign() {
    let mut globals = Globals::new();
    assert!(!globals.contains(b"a"));
    assert!(globals.get(b"a").is_none());
    assert!(!globals.assign(b"a", Value::Nil));
    assert!(!globals.contains(b"a"));
    globals.define(b"a", Value::Number(1.0f64.to_bits()));
    globals.define(b"b", Value::string(b"two"));
    assert!(globals.get(b"a").unwrap().equals(&Value::Number(1.0f64.to_bits())));
    assert!(globals.assign(b"a", Value::Bool(true)));
    assert!(globals.get(b"a").unwrap().equals(&Value::Bool(true)));
    globals.define(b"a", Value::Nil);
    assert!(globals.get(b"a").unwrap().equals(&Value::Nil));
    assert!(globals.get(b"b").unwrap().equals(&Value::string(b"two")));
    assert_eq!(globals.entries.len(), 2);
}
