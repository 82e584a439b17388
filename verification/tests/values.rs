use scripteval::ast::{Name, Opcode};
use scripteval::value::{dup_values, lists_equal, ErrorKind, Value};

fn text(s: &str) -> Value {
    Value::Str(s.to_string())
}

fn float(x: f32) -> Value {
    Value::Float(x.to_bits())
}

#[test]
fn truthiness_of_each_variant() {
    assert!(Value::Boolean(true).is_truthy());
    assert!(!Value::Boolean(false).is_truthy());
    assert!(Value::Integer(4).is_truthy());
    assert!(Value::Integer(-1).is_truthy());
    assert!(!Value::Integer(0).is_truthy());
    assert!(float(0.5).is_truthy());
    assert!(float(f32::NAN).is_truthy());
    assert!(!float(0.0).is_truthy());
    assert!(!float(-0.0).is_truthy());
    assert!(text("a").is_truthy());
    assert!(!text("").is_truthy());
    assert!(Value::List(vec![Value::Null]).is_truthy());
    assert!(!Value::List(vec![]).is_truthy());
    assert!(!Value::Null.is_truthy());
    assert!(Value::Closure(0).is_truthy());
    assert!(Value::Native(0).is_truthy());
    assert!(Value::Error(ErrorKind::TypeError).is_truthy());
}

#[test]
fn equality_within_a_variant() {
    assert!(Value::Boolean(true).equals(&Value::Boolean(true)));
    assert!(!Value::Boolean(true).equals(&Value::Boolean(false)));
    assert!(Value::Integer(3).equals(&Value::Integer(3)));
    assert!(!Value::Integer(3).equals(&Value::Integer(4)));
    assert!(float(1.5).equals(&float(1.5)));
    assert!(float(0.0).equals(&float(-0.0)));
    assert!(!float(f32::NAN).equals(&float(f32::NAN)));
    assert!(text("ab").equals(&text("ab")));
    assert!(!text("ab").equals(&text("abc")));
    assert!(Value::Null.equals(&Value::Null));
    assert!(Value::Closure(2).equals(&Value::Closure(2)));
    assert!(!Value::Closure(2).equals(&Value::Closure(3)));
    assert!(Value::Native(2).equals(&Value::Native(2)));
    assert!(!Value::Native(2).equals(&Value::Native(3)));
    assert!(Value::Error(ErrorKind::IndexError).equals(&Value::Error(ErrorKind::IndexError)));
    assert!(!Value::Error(ErrorKind::IndexError).equals(&Value::Error(ErrorKind::TypeError)));
}

#[test]
fn equality_of_integer_and_float_is_numeric() {
    assert!(Value::Integer(2).equals(&float(2.0)));
    assert!(float(2.0).equals(&Value::Integer(2)));
    assert!(!Value::Integer(2).equals(&float(2.5)));
    assert!(Value::Integer(0).equals(&float(-0.0)));
    assert!(Value::Integer(16_777_217).equals(&float(16_777_216.0)));
    assert!(!Value::Integer(16_777_218).equals(&float(16_777_216.0)));
}

#[test]
fn equality_of_lists_is_element_by_element() {
    let a = Value::List(vec![Value::Integer(1), text("x"), Value::List(vec![float(2.0)])]);
    let b = Value::List(vec![float(1.0), text("x"), Value::List(vec![Value::Integer(2)])]);
    let c = Value::List(vec![Value::Integer(1), text("x")]);
    let d = Value::List(vec![Value::Integer(1), text("y"), Value::List(vec![float(2.0)])]);
    assert!(a.equals(&b));
    assert!(!a.equals(&c));
    assert!(!c.equals(&a));
    assert!(!a.equals(&d));
    assert!(Value::List(vec![]).equals(&Value::List(vec![])));
    assert!(lists_equal(&vec![Value::Null], &vec![Value::Null]));
    assert!(!lists_equal(&vec![Value::Null], &vec![]));
}

#[test]
fn incompatible_variants_are_unequal() {
    assert!(!text("a").equals(&Value::List(vec![])));
    assert!(!Value::Null.equals(&Value::Boolean(false)));
    assert!(!Value::Integer(1).equals(&Value::Boolean(true)));
    assert!(!Value::Integer(0).equals(&Value::Null));
    assert!(!text("1").equals(&Value::Integer(1)));
    assert!(!Value::Closure(1).equals(&Value::Native(1)));
}

#[test]
fn copies_are_equal_to_their_originals() {
    let v = Value::List(vec![
        Value::Integer(1),
        text("x"),
        Value::List(vec![float(2.0), Value::Null, Value::Boolean(true)]),
        Value::Closure(4),
        Value::Native(5),
        Value::Error(ErrorKind::ArityError),
    ]);
    assert_eq!(v.dup(), v);
    assert_eq!(v.clone(), v);
    let items = vec![text("a"), Value::Integer(2)];
    assert_eq!(dup_values(&items), items);
}

#[test]
fn error_kinds_have_their_names() {
    assert_eq!(ErrorKind::TypeError.name(), "TypeError");
    assert_eq!(ErrorKind::NameError.name(), "NameError");
    assert_eq!(ErrorKind::ArityError.name(), "ArityError");
    assert_eq!(ErrorKind::IndexError.name(), "IndexError");
    assert_eq!(ErrorKind::AttributeError.name(), "AttributeError");
    assert_eq!(ErrorKind::ArithmeticError.name(), "ArithmeticError");
    assert_eq!(ErrorKind::ImportError.name(), "ImportError");
    assert_eq!(ErrorKind::InvariantViolation.name(), "InvariantViolation");
    assert_eq!(ErrorKind::StackOverflow.name(), "StackOverflow");
}

#[test]
fn only_invariant_violations_cannot_be_caught() {
    assert!(!ErrorKind::InvariantViolation.is_catchable());
    assert!(ErrorKind::TypeError.is_catchable());
    assert!(ErrorKind::StackOverflow.is_catchable());
    assert!(ErrorKind::ImportError.is_catchable());
}

#[test]
fn operators_print_as_in_a_tree() {
    assert_eq!(Opcode::Mul.debug_text(), "Op::Mul");
    assert_eq!(Opcode::Div.debug_text(), "Op::Div");
    assert_eq!(Opcode::Add.debug_text(), "Op::Add");
    assert_eq!(Opcode::Sub.debug_text(), "Op::Sub");
    assert_eq!(Opcode::Pow.debug_text(), "Op::Pow");
    assert_eq!(Opcode::Le.debug_text(), "Op::Le");
}

#[test]
fn names_print_with_quoted_strings() {
    assert_eq!(Name::Name("math".to_string()).debug_text(), "Name(\"math\")");
    assert_eq!(
        Name::Alias("math".to_string(), "m".to_string()).debug_text(),
        "Alias(\"math\", \"m\")"
    );
    assert_eq!(Name::Name("a\"b\n".to_string()).debug_text(), "Name(\"a\\\"b\\n\")");
}

#[test]
fn names_know_their_source_and_target() {
    let plain = Name::Name("math".to_string());
    let alias = Name::Alias("math".to_string(), "m".to_string());
    assert_eq!(plain.source_name(), "math");
    assert_eq!(plain.target_name(), "math");
    assert_eq!(alias.source_name(), "math");
    assert_eq!(alias.target_name(), "m");
}

#[test]
fn equality_does_not_depend_on_the_side() {
    let samples = vec![
        Value::Boolean(true),
        Value::Integer(2),
        float(2.0),
        float(f32::NAN),
        text("2"),
        Value::List(vec![Value::Integer(2)]),
        Value::List(vec![float(2.0)]),
        Value::List(vec![]),
        Value::Closure(2),
        Value::Native(2),
        Value::Error(ErrorKind::NameError),
        Value::Null,
    ];
    for a in &samples {
        for b in &samples {
            assert_eq!(a.equals(b), b.equals(a), "{:?} {:?}", a, b);
        }
    }
}
