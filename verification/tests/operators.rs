use scripteval::ast::Opcode;
use scripteval::ops::{apply_float, apply_int, binary, int_div, int_pow, ordering, subscript, unary, Applied};
use scripteval::value::{ErrorKind, Value};

fn value(v: Value) -> Applied {
    Applied::Value(v)
}

fn integer(n: i32) -> Applied {
    Applied::Value(Value::Integer(n))
}

fn boolean(b: bool) -> Applied {
    Applied::Value(Value::Boolean(b))
}

fn text(s: &str) -> Value {
    Value::Str(s.to_string())
}

fn bits(x: f32) -> u32 {
    x.to_bits()
}

#[test]
fn integer_sum_difference_product() {
    assert_eq!(apply_int(Opcode::Add, 2, 3), integer(5));
    assert_eq!(apply_int(Opcode::Sub, 2, 3), integer(-1));
    assert_eq!(apply_int(Opcode::Mul, -4, 6), integer(-24));
    assert_eq!(binary(Opcode::Add, &Value::Integer(22), &Value::Integer(20)), integer(42));
}

#[test]
fn integer_arithmetic_wraps_around() {
    assert_eq!(apply_int(Opcode::Add, i32::MAX, 1), integer(i32::MIN));
    assert_eq!(apply_int(Opcode::Sub, i32::MIN, 1), integer(i32::MAX));
    assert_eq!(apply_int(Opcode::Mul, 65536, 65536), integer(0));
    assert_eq!(apply_int(Opcode::Mul, i32::MAX, 2), integer(-2));
}

#[test]
fn integer_division_rounds_towards_zero() {
    assert_eq!(apply_int(Opcode::Div, 7, 2), integer(3));
    assert_eq!(apply_int(Opcode::Div, -7, 2), integer(-3));
    assert_eq!(apply_int(Opcode::Div, 7, -2), integer(-3));
    assert_eq!(apply_int(Opcode::Div, -7, -2), integer(3));
    assert_eq!(apply_int(Opcode::Div, 0, 5), integer(0));
    assert_eq!(int_div(9, 3), Some(3));
}

#[test]
fn least_integer_divided_by_minus_one_wraps() {
    assert_eq!(apply_int(Opcode::Div, i32::MIN, -1), integer(i32::MIN));
    assert_eq!(int_div(i32::MIN, 1), Some(i32::MIN));
    assert_eq!(int_div(i32::MIN, -1), Some(i32::MIN));
}

#[test]
fn division_by_zero_is_an_arithmetic_error() {
    assert_eq!(apply_int(Opcode::Div, 1, 0), Applied::Raise(ErrorKind::ArithmeticError));
    assert_eq!(apply_int(Opcode::Div, 0, 0), Applied::Raise(ErrorKind::ArithmeticError));
    assert_eq!(int_div(1, 0), None);
    assert_eq!(
        binary(Opcode::Div, &Value::Integer(5), &Value::Integer(0)),
        Applied::Raise(ErrorKind::ArithmeticError)
    );
}

#[test]
fn integer_power() {
    assert_eq!(apply_int(Opcode::Pow, 5, 3), integer(125));
    assert_eq!(apply_int(Opcode::Pow, 2, 10), integer(1024));
    assert_eq!(apply_int(Opcode::Pow, -3, 3), integer(-27));
    assert_eq!(apply_int(Opcode::Pow, 7, 0), integer(1));
    assert_eq!(apply_int(Opcode::Pow, 0, 0), integer(1));
    assert_eq!(apply_int(Opcode::Pow, 0, 9), integer(0));
    assert_eq!(int_pow(3, 4), Some(81));
}

#[test]
fn integer_power_wraps_around() {
    assert_eq!(apply_int(Opcode::Pow, 2, 31), integer(i32::MIN));
    assert_eq!(apply_int(Opcode::Pow, 2, 32), integer(0));
    assert_eq!(apply_int(Opcode::Pow, 3, 21), integer(3i32.wrapping_pow(21)));
    assert_eq!(apply_int(Opcode::Pow, -1, i32::MAX), integer(-1));
    assert_eq!(apply_int(Opcode::Pow, 7, 2_000_000_000), integer(7i32.wrapping_pow(2_000_000_000)));
}

#[test]
fn negative_exponent_is_an_arithmetic_error() {
    assert_eq!(apply_int(Opcode::Pow, 2, -1), Applied::Raise(ErrorKind::ArithmeticError));
    assert_eq!(apply_int(Opcode::Pow, 1, i32::MIN), Applied::Raise(ErrorKind::ArithmeticError));
    assert_eq!(int_pow(2, -1), None);
}

#[test]
fn integer_comparisons() {
    assert_eq!(apply_int(Opcode::Lt, 1, 2), boolean(true));
    assert_eq!(apply_int(Opcode::Lt, 2, 2), boolean(false));
    assert_eq!(apply_int(Opcode::Le, 2, 2), boolean(true));
    assert_eq!(apply_int(Opcode::Gt, 3, 2), boolean(true));
    assert_eq!(apply_int(Opcode::Ge, 1, 2), boolean(false));
    assert_eq!(apply_int(Opcode::Eq, 2, 2), boolean(true));
    assert_eq!(apply_int(Opcode::Ne, 2, 2), boolean(false));
}

#[test]
fn ordering_by_operator() {
    assert!(ordering(Opcode::Lt, true, false, false));
    assert!(!ordering(Opcode::Lt, false, true, false));
    assert!(ordering(Opcode::Le, false, true, false));
    assert!(ordering(Opcode::Ge, false, false, true));
    assert!(ordering(Opcode::Ne, false, false, false));
    assert!(!ordering(Opcode::Eq, false, false, false));
}

#[test]
fn division_then_multiplication_reconstructs() {
    let cases: [(i32, i32); 8] = [
        (7, 2),
        (-7, 2),
        (7, -2),
        (-7, -2),
        (i32::MIN, -1),
        (i32::MIN, 3),
        (i32::MAX, -7),
        (0, 9),
    ];
    for (a, b) in cases {
        let q = match apply_int(Opcode::Div, a, b) {
            Applied::Value(Value::Integer(q)) => q,
            other => panic!("{:?}", other),
        };
        let p = match apply_int(Opcode::Mul, q, b) {
            Applied::Value(Value::Integer(p)) => p,
            other => panic!("{:?}", other),
        };
        let r = (a as i64) - (p as i64);
        assert!(r.abs() < (b as i64).abs());
        assert!(r == 0 || (r > 0) == (a > 0));
    }
    assert_eq!(apply_int(Opcode::Mul, 3, 2), integer(6));
    assert_eq!(apply_int(Opcode::Mul, -3, 2), integer(-6));
}

#[test]
fn float_arithmetic_is_asked_of_the_host() {
    assert_eq!(
        apply_float(Opcode::Add, bits(1.5), bits(2.0)),
        Applied::Float(Opcode::Add, bits(1.5), bits(2.0))
    );
    assert_eq!(
        binary(Opcode::Pow, &Value::Float(bits(2.0)), &Value::Float(bits(0.5))),
        Applied::Float(Opcode::Pow, bits(2.0), bits(0.5))
    );
    assert_eq!(
        binary(Opcode::Div, &Value::Float(bits(1.0)), &Value::Float(bits(0.0))),
        Applied::Float(Opcode::Div, bits(1.0), bits(0.0))
    );
}

#[test]
fn integer_is_widened_next_to_a_float() {
    assert_eq!(
        binary(Opcode::Mul, &Value::Integer(3), &Value::Float(bits(0.5))),
        Applied::Float(Opcode::Mul, bits(3.0), bits(0.5))
    );
    assert_eq!(
        binary(Opcode::Sub, &Value::Float(bits(0.5)), &Value::Integer(-7)),
        Applied::Float(Opcode::Sub, bits(0.5), bits(-7.0))
    );
    assert_eq!(
        binary(Opcode::Add, &Value::Integer(16_777_217), &Value::Float(bits(0.0))),
        Applied::Float(Opcode::Add, bits(16_777_216.0), bits(0.0))
    );
}

#[test]
fn float_comparisons_are_decided() {
    assert_eq!(apply_float(Opcode::Lt, bits(1.5), bits(2.0)), boolean(true));
    assert_eq!(apply_float(Opcode::Gt, bits(1.5), bits(2.0)), boolean(false));
    assert_eq!(apply_float(Opcode::Le, bits(2.0), bits(2.0)), boolean(true));
    assert_eq!(apply_float(Opcode::Ge, bits(-1.0), bits(-2.0)), boolean(true));
    assert_eq!(apply_float(Opcode::Lt, bits(f32::NAN), bits(2.0)), boolean(false));
    assert_eq!(apply_float(Opcode::Ge, bits(f32::NAN), bits(2.0)), boolean(false));
    assert_eq!(binary(Opcode::Lt, &Value::Integer(1), &Value::Float(bits(1.5))), boolean(true));
    assert_eq!(binary(Opcode::Ge, &Value::Float(bits(1.5)), &Value::Integer(2)), boolean(false));
}

#[test]
fn equality_operators_never_fail() {
    assert_eq!(binary(Opcode::Eq, &text("a"), &Value::List(vec![])), boolean(false));
    assert_eq!(binary(Opcode::Ne, &text("a"), &Value::List(vec![])), boolean(true));
    assert_eq!(binary(Opcode::Eq, &Value::Integer(2), &Value::Float(bits(2.0))), boolean(true));
    assert_eq!(binary(Opcode::Eq, &Value::Null, &Value::Null), boolean(true));
    assert_eq!(binary(Opcode::Ne, &text("a"), &text("a")), boolean(false));
    assert_eq!(
        binary(Opcode::Eq, &Value::Float(bits(f32::NAN)), &Value::Float(bits(f32::NAN))),
        boolean(false)
    );
}

#[test]
fn strings_are_joined() {
    assert_eq!(binary(Opcode::Add, &text("foo"), &text("bar")), value(text("foobar")));
    assert_eq!(binary(Opcode::Add, &text(""), &text("")), value(text("")));
}

#[test]
fn string_with_anything_else_is_a_type_error() {
    let type_error = Applied::Raise(ErrorKind::TypeError);
    assert_eq!(binary(Opcode::Sub, &text("str"), &Value::Float(bits(36.2))), type_error);
    assert_eq!(binary(Opcode::Add, &text("str"), &Value::Integer(1)), type_error);
    assert_eq!(binary(Opcode::Add, &Value::Integer(1), &text("str")), type_error);
    assert_eq!(binary(Opcode::Mul, &text("ab"), &Value::Integer(3)), type_error);
    assert_eq!(binary(Opcode::Sub, &text("a"), &text("b")), type_error);
    assert_eq!(binary(Opcode::Lt, &text("a"), &text("b")), type_error);
}

#[test]
fn lists_are_joined_into_a_new_list() {
    let left = Value::List(vec![Value::Integer(1), Value::Integer(2)]);
    let right = Value::List(vec![text("x")]);
    let joined = binary(Opcode::Add, &left, &right);
    assert_eq!(
        joined,
        value(Value::List(vec![Value::Integer(1), Value::Integer(2), text("x")]))
    );
    assert_eq!(left, Value::List(vec![Value::Integer(1), Value::Integer(2)]));
    assert_eq!(right, Value::List(vec![text("x")]));
}

#[test]
fn list_with_a_scalar_is_a_type_error() {
    let type_error = Applied::Raise(ErrorKind::TypeError);
    let l = Value::List(vec![Value::Integer(1)]);
    assert_eq!(binary(Opcode::Add, &l, &Value::Integer(22)), type_error);
    assert_eq!(binary(Opcode::Add, &Value::Integer(22), &l), type_error);
    assert_eq!(binary(Opcode::Mul, &l, &l), type_error);
}

#[test]
fn other_operands_are_type_errors() {
    let type_error = Applied::Raise(ErrorKind::TypeError);
    assert_eq!(binary(Opcode::Add, &Value::Boolean(true), &Value::Boolean(false)), type_error);
    assert_eq!(binary(Opcode::Sub, &Value::Null, &Value::Integer(1)), type_error);
    assert_eq!(binary(Opcode::Pow, &Value::Integer(1), &Value::Null), type_error);
    assert_eq!(binary(Opcode::Div, &Value::Native(1), &Value::Closure(0)), type_error);
}

#[test]
fn unary_minus_negates_numbers() {
    assert_eq!(unary(Opcode::Sub, &Value::Integer(5)), integer(-5));
    assert_eq!(unary(Opcode::Sub, &Value::Integer(i32::MIN)), integer(i32::MIN));
    assert_eq!(unary(Opcode::Sub, &Value::Float(bits(1.5))), value(Value::Float(bits(-1.5))));
    assert_eq!(unary(Opcode::Sub, &Value::Float(bits(-0.0))), value(Value::Float(bits(0.0))));
}

#[test]
fn unary_plus_passes_numbers_through() {
    assert_eq!(unary(Opcode::Add, &Value::Integer(5)), integer(5));
    assert_eq!(unary(Opcode::Add, &Value::Float(bits(1.5))), value(Value::Float(bits(1.5))));
}

#[test]
fn unary_on_anything_else_is_a_type_error() {
    let type_error = Applied::Raise(ErrorKind::TypeError);
    assert_eq!(unary(Opcode::Add, &text("Hello world!")), type_error);
    assert_eq!(unary(Opcode::Sub, &text("Hello world!")), type_error);
    assert_eq!(unary(Opcode::Sub, &Value::Boolean(true)), type_error);
    assert_eq!(unary(Opcode::Add, &Value::Boolean(true)), type_error);
    assert_eq!(unary(Opcode::Mul, &Value::Integer(1)), type_error);
    assert_eq!(unary(Opcode::Sub, &Value::Null), type_error);
}

#[test]
fn subscript_reads_an_element() {
    let l = Value::List(vec![Value::Integer(10), text("b"), Value::Null]);
    assert_eq!(subscript(&l, &Value::Integer(0)), integer(10));
    assert_eq!(subscript(&l, &Value::Integer(1)), value(text("b")));
    assert_eq!(subscript(&l, &Value::Integer(2)), value(Value::Null));
}

#[test]
fn subscript_out_of_range_is_an_index_error() {
    let l = Value::List(vec![Value::Integer(10)]);
    assert_eq!(subscript(&l, &Value::Integer(1)), Applied::Raise(ErrorKind::IndexError));
    assert_eq!(subscript(&l, &Value::Integer(-1)), Applied::Raise(ErrorKind::IndexError));
    assert_eq!(
        subscript(&Value::List(vec![]), &Value::Integer(0)),
        Applied::Raise(ErrorKind::IndexError)
    );
}

#[test]
fn subscript_of_the_wrong_type_is_a_type_error() {
    let l = Value::List(vec![Value::Integer(10)]);
    assert_eq!(subscript(&l, &Value::Float(bits(0.0))), Applied::Raise(ErrorKind::TypeError));
    assert_eq!(subscript(&l, &text("0")), Applied::Raise(ErrorKind::TypeError));
    assert_eq!(subscript(&text("abc"), &Value::Integer(0)), Applied::Raise(ErrorKind::TypeError));
    assert_eq!(subscript(&Value::Null, &Value::Integer(0)), Applied::Raise(ErrorKind::TypeError));
}
