//! The operator engine: what a binary operator, a unary operator and a
//! subscript make of values that are already evaluated.
//!
//! Integer arithmetic wraps around in 32 bits. Between two floating-point
//! numbers, or an integer and a floating-point number (the integer is
//! widened first), equality and order are decided here; arithmetic is left
//! to the host, and the engine says which operation on which two bit
//! patterns it needs.

use vstd::prelude::*;
use vstd::arithmetic::power::{
    lemma_pow0,
    lemma_pow1,
    lemma_pow_adds,
    lemma_pow_mod_noop,
    lemma_pow_multiplies,
    pow,
};
use vstd::arithmetic::div_mod::{
    lemma_mod_add_multiples_vanish,
    lemma_mod_sub_multiples_vanish,
    lemma_mul_mod_noop_general,
    lemma_small_mod,
};
use crate::ast::Opcode;
use crate::number::{equal, float_eq, float_from_int, float_lt, float_negated, from_int, less, negated};
use crate::value::{
    dup_values,
    lemma_value_views_concat,
    lemma_value_views_index,
    ErrorKind,
    Value,
    ValueV,
};

verus! {

/// What applying an operator came to.
#[derive(Clone, Debug, PartialEq)]
pub enum Applied {
    /// The operator is defined on the operands, and this is its value.
    Value(Value),
    /// The operator is not defined on the operands.
    Raise(ErrorKind),
    /// The value is that of an arithmetic operator on two floating-point
    /// bit patterns, left and right, which the host computes.
    Float(Opcode, u32, u32),
}

/// The model of an [`Applied`].
pub ghost enum AppliedV {
    Value(ValueV),
    Raise(ErrorKind),
    Float(Opcode, u32, u32),
}

impl View for Applied {
    type V = AppliedV;

    open spec fn view(&self) -> AppliedV {
        match self {
            Applied::Value(v) => AppliedV::Value(v@),
            Applied::Raise(kind) => AppliedV::Raise(*kind),
            Applied::Float(op, a, b) => AppliedV::Float(*op, *a, *b),
        }
    }
}

/// Two to the power 32: the number of 32-bit integers.
pub open spec fn int_range() -> int {
    0x1_0000_0000
}

/// The 32-bit integer that `x` wraps around to: the one that differs from
/// `x` by a multiple of two to the power 32.
pub open spec fn wrap32(x: int) -> i32 {
    let m = x % int_range();
    if m > i32::MAX {
        (m - int_range()) as i32
    } else {
        m as i32
    }
}

/// The quotient of `a` by `b`, rounded towards zero. `b` is not zero.
pub open spec fn trunc_div(a: int, b: int) -> int
    recommends
        b != 0,
{
    if a >= 0 {
        if b > 0 {
            a / b
        } else {
            -(a / (-b))
        }
    } else {
        if b > 0 {
            -((-a) / b)
        } else {
            (-a) / (-b)
        }
    }
}

/// What a comparison operator makes of two operands of which it is known
/// whether the left is below the right, equal to it, or above it.
pub open spec fn ordering_result(op: Opcode, below: bool, same: bool, above: bool) -> bool {
    match op {
        Opcode::Eq => same,
        Opcode::Ne => !same,
        Opcode::Lt => below,
        Opcode::Le => below || same,
        Opcode::Gt => above,
        _ => above || same,
    }
}

/// Whether the operator is one of the five arithmetic ones.
pub open spec fn is_arithmetic(op: Opcode) -> bool {
    op == Opcode::Mul || op == Opcode::Div || op == Opcode::Add || op == Opcode::Sub || op
        == Opcode::Pow
}

/// A binary operator on two integers.
///
/// Sum, difference and product wrap around. The quotient is rounded
/// towards zero and wraps around as well (only the least integer divided
/// by -1 does); a zero divisor is an `ArithmeticError`. A power wraps
/// around; a negative exponent, whose result would be no integer, is an
/// `ArithmeticError`.
pub open spec fn int_binary(op: Opcode, a: i32, b: i32) -> AppliedV {
    match op {
        Opcode::Add => AppliedV::Value(ValueV::Integer(wrap32(a + b))),
        Opcode::Sub => AppliedV::Value(ValueV::Integer(wrap32(a - b))),
        Opcode::Mul => AppliedV::Value(ValueV::Integer(wrap32(a * b))),
        Opcode::Div => if b == 0 {
            AppliedV::Raise(ErrorKind::ArithmeticError)
        } else {
            AppliedV::Value(ValueV::Integer(wrap32(trunc_div(a as int, b as int))))
        },
        Opcode::Pow => if b < 0 {
            AppliedV::Raise(ErrorKind::ArithmeticError)
        } else {
            AppliedV::Value(ValueV::Integer(wrap32(pow(a as int, b as nat))))
        },
        _ => AppliedV::Value(ValueV::Boolean(ordering_result(op, a < b, a == b, a > b))),
    }
}

/// A binary operator on two floating-point bit patterns: a comparison is
/// decided, an arithmetic operator is handed on.
pub open spec fn float_binary(op: Opcode, a: u32, b: u32) -> AppliedV {
    if is_arithmetic(op) {
        AppliedV::Float(op, a, b)
    } else {
        AppliedV::Value(
            ValueV::Boolean(ordering_result(op, float_lt(a, b), float_eq(a, b), float_lt(b, a))),
        )
    }
}

/// A binary operator on two values.
///
/// `Eq` and `Ne` compare any two values and never fail. On two numbers
/// every operator is defined as `int_binary` and `float_binary` say. `Add`
/// also joins two strings, and two lists into a new list. Everything else
/// is a `TypeError`: nothing is turned into a string or appended to a list
/// on the quiet.
pub open spec fn binary_result(op: Opcode, l: ValueV, r: ValueV) -> AppliedV {
    match op {
        Opcode::Eq => AppliedV::Value(ValueV::Boolean(l.equals(r))),
        Opcode::Ne => AppliedV::Value(ValueV::Boolean(!l.equals(r))),
        _ => match (l, r) {
            (ValueV::Integer(a), ValueV::Integer(b)) => int_binary(op, a, b),
            (ValueV::Float(a), ValueV::Float(b)) => float_binary(op, a, b),
            (ValueV::Integer(a), ValueV::Float(b)) => float_binary(op, float_from_int(a), b),
            (ValueV::Float(a), ValueV::Integer(b)) => float_binary(op, a, float_from_int(b)),
            (ValueV::Str(a), ValueV::Str(b)) => if op == Opcode::Add {
                AppliedV::Value(ValueV::Str(a + b))
            } else {
                AppliedV::Raise(ErrorKind::TypeError)
            },
            (ValueV::List(a), ValueV::List(b)) => if op == Opcode::Add {
                AppliedV::Value(ValueV::List(a + b))
            } else {
                AppliedV::Raise(ErrorKind::TypeError)
            },
            _ => AppliedV::Raise(ErrorKind::TypeError),
        },
    }
}

/// A unary operator on a value.
///
/// `Sub` negates a number (the least integer wraps around to itself),
/// `Add` hands a number back as it is. Every other operator, and every
/// other operand, is a `TypeError`.
pub open spec fn unary_result(op: Opcode, v: ValueV) -> AppliedV {
    match (op, v) {
        (Opcode::Sub, ValueV::Integer(n)) => AppliedV::Value(ValueV::Integer(wrap32(-n))),
        (Opcode::Sub, ValueV::Float(bits)) => AppliedV::Value(ValueV::Float(float_negated(bits))),
        (Opcode::Add, ValueV::Integer(n)) => AppliedV::Value(ValueV::Integer(n)),
        (Opcode::Add, ValueV::Float(bits)) => AppliedV::Value(ValueV::Float(bits)),
        _ => AppliedV::Raise(ErrorKind::TypeError),
    }
}

/// The element of `target` at `index`.
///
/// Only a list has elements, and only an integer counts them, from 0: any
/// other target or index is a `TypeError`, and an integer outside the list
/// is an `IndexError`.
pub open spec fn subscript_result(target: ValueV, index: ValueV) -> AppliedV {
    match (target, index) {
        (ValueV::List(l), ValueV::Integer(i)) => if 0 <= i < l.len() {
            AppliedV::Value(l[i as int])
        } else {
            AppliedV::Raise(ErrorKind::IndexError)
        },
        _ => AppliedV::Raise(ErrorKind::TypeError),
    }
}

/// An integer in 32 bits wraps around to itself.
pub proof fn lemma_wrap32_fits(x: int)
    requires
        i32::MIN <= x <= i32::MAX,
    ensures
        wrap32(x) == x,
{
    if x >= 0 {
        lemma_small_mod(x as nat, int_range() as nat);
    } else {
        lemma_mod_add_multiples_vanish(x, int_range());
        lemma_small_mod((int_range() + x) as nat, int_range() as nat);
    }
}

/// A wrapped integer differs from the integer by a multiple of the range.
pub proof fn lemma_wrap32_congruent(x: int)
    ensures
        wrap32(x) as int % int_range() == x % int_range(),
{
    let m = x % int_range();
    if m > i32::MAX {
        lemma_mod_sub_multiples_vanish(m, int_range());
        lemma_small_mod(m as nat, int_range() as nat);
    } else {
        lemma_small_mod(m as nat, int_range() as nat);
    }
}

/// Two integers that differ by a multiple of the range wrap around to the
/// same 32-bit integer.
pub proof fn lemma_wrap32_same(x: int, y: int)
    requires
        x % int_range() == y % int_range(),
    ensures
        wrap32(x) == wrap32(y),
{
}

/// One round of squaring: the invariant that the power loop keeps.
proof fn lemma_pow_round(acc: int, base: int, e: nat, acc2: int, base2: int)
    requires
        e > 0,
        acc2 % int_range() == (if e % 2 == 1 { acc * base } else { acc }) % int_range(),
        base2 % int_range() == (base * base) % int_range(),
    ensures
        (acc2 * pow(base2, e / 2)) % int_range() == (acc * pow(base, e)) % int_range(),
{
    let m = int_range();
    let k = e / 2;
    let sq = base * base;
    // pow(base2, k) is congruent to pow(sq, k), which is pow(base, 2 * k)
    lemma_pow_mod_noop(base2, k, m);
    lemma_pow_mod_noop(sq, k, m);
    assert(pow(base2, k) % m == pow(sq, k) % m);
    lemma_pow1(base);
    lemma_pow_adds(base, 1, 1);
    assert(pow(base, 2) == sq);
    lemma_pow_multiplies(base, 2, k);
    assert(pow(sq, k) == pow(base, 2 * k));
    let inner = if e % 2 == 1 { acc * base } else { acc };
    lemma_mul_mod_noop_general(acc2, pow(base2, k), m);
    lemma_mul_mod_noop_general(inner, pow(sq, k), m);
    assert((acc2 * pow(base2, k)) % m == (inner * pow(sq, k)) % m);
    if e % 2 == 1 {
        assert(e == 2 * k + 1);
        lemma_pow_adds(base, 1, 2 * k);
        assert(pow(base, e) == base * pow(base, 2 * k));
        assert(inner * pow(sq, k) == acc * pow(base, e)) by (nonlinear_arith)
            requires
                inner == acc * base,
                pow(sq, k) == pow(base, 2 * k),
                pow(base, e) == base * pow(base, 2 * k),
        ;
    } else {
        assert(e == 2 * k);
    }
}

/// The power of two integers, wrapped around, and nothing where the
/// exponent is negative.
pub fn int_pow(a: i32, b: i32) -> (r: Option<i32>)
    ensures
        r == (if b < 0 {
            None
        } else {
            Some(wrap32(pow(a as int, b as nat)))
        }),
{
    if b < 0 {
        return None;
    }
    let mut acc: i32 = 1;
    let mut base: i32 = a;
    let mut e: i32 = b;
    proof {
        assert(1 * pow(a as int, b as nat) == pow(a as int, b as nat));
    }
    while e > 0
        invariant
            e >= 0,
            b >= 0,
            (acc * pow(base as int, e as nat)) % int_range() == pow(a as int, b as nat)
                % int_range(),
        decreases e,
    {
        let ghost acc0 = acc;
        let ghost base0 = base;
        let ghost e0 = e;
        if e % 2 == 1 {
            acc = acc.wrapping_mul(base);
            proof {
                lemma_wrap32_congruent(acc0 * base0);
            }
        }
        base = base.wrapping_mul(base);
        proof {
            lemma_wrap32_congruent(base0 * base0);
        }
        e = e / 2;
        proof {
            lemma_pow_round(acc0 as int, base0 as int, e0 as nat, acc as int, base as int);
        }
    }
    proof {
        lemma_pow0(base as int);
        assert(acc * pow(base as int, 0) == acc);
        lemma_wrap32_fits(acc as int);
        lemma_wrap32_same(acc as int, pow(a as int, b as nat));
    }
    Some(acc)
}

/// The quotient of two integers, rounded towards zero and wrapped around,
/// and nothing where the divisor is zero.
pub fn int_div(a: i32, b: i32) -> (r: Option<i32>)
    ensures
        r == (if b == 0 {
            None
        } else {
            Some(wrap32(trunc_div(a as int, b as int)))
        }),
{
    if b == 0 {
        return None;
    }
    match a.checked_div(b) {
        Some(q) => {
            proof {
                lemma_wrap32_fits(q as int);
                assert(q == trunc_div(a as int, b as int)) by (nonlinear_arith)
                    requires
                        b != 0,
                        q == (if a == 0 {
                            0
                        } else if a > 0 && b > 0 {
                            a as int / b as int
                        } else if a < 0 && b < 0 {
                            ((a * -1) / (b * -1))
                        } else if a < 0 {
                            ((a * -1) / b as int) * -1
                        } else {
                            (a as int / (b * -1)) * -1
                        }),
                ;
            }
            Some(q)
        },
        None => {
            proof {
                let t = trunc_div(a as int, b as int);
                assert(t < i32::MIN || t > i32::MAX);
                assert(t == 0x8000_0000) by (nonlinear_arith)
                    requires
                        t == trunc_div(a as int, b as int),
                        t < i32::MIN || t > i32::MAX,
                        i32::MIN <= a <= i32::MAX,
                        i32::MIN <= b <= i32::MAX,
                        b != 0,
                ;
                lemma_mod_sub_multiples_vanish(t, int_range());
                lemma_wrap32_fits(t - int_range());
                lemma_wrap32_same(t, t - int_range());
            }
            Some(i32::MIN)
        },
    }
}

/// What a comparison operator makes of two operands of which it is known
/// whether the left is below the right, equal to it, or above it.
pub fn ordering(op: Opcode, below: bool, same: bool, above: bool) -> (r: bool)
    ensures
        r == ordering_result(op, below, same, above),
{
    match op {
        Opcode::Eq => same,
        Opcode::Ne => !same,
        Opcode::Lt => below,
        Opcode::Le => below || same,
        Opcode::Gt => above,
        _ => above || same,
    }
}

/// Applies a binary operator to two integers.
pub fn apply_int(op: Opcode, a: i32, b: i32) -> (r: Applied)
    ensures
        r@ == int_binary(op, a, b),
{
    match op {
        Opcode::Add => Applied::Value(Value::Integer(a.wrapping_add(b))),
        Opcode::Sub => Applied::Value(Value::Integer(a.wrapping_sub(b))),
        Opcode::Mul => Applied::Value(Value::Integer(a.wrapping_mul(b))),
        Opcode::Div => match int_div(a, b) {
            Some(q) => Applied::Value(Value::Integer(q)),
            None => Applied::Raise(ErrorKind::ArithmeticError),
        },
        Opcode::Pow => match int_pow(a, b) {
            Some(p) => Applied::Value(Value::Integer(p)),
            None => Applied::Raise(ErrorKind::ArithmeticError),
        },
        _ => Applied::Value(Value::Boolean(ordering(op, a < b, a == b, a > b))),
    }
}

/// Applies a binary operator to two floating-point bit patterns.
pub fn apply_float(op: Opcode, a: u32, b: u32) -> (r: Applied)
    ensures
        r@ == float_binary(op, a, b),
{
    match op {
        Opcode::Mul | Opcode::Div | Opcode::Add | Opcode::Sub | Opcode::Pow => Applied::Float(
            op,
            a,
            b,
        ),
        _ => Applied::Value(Value::Boolean(ordering(op, less(a, b), equal(a, b), less(b, a)))),
    }
}

/// Applies a binary operator to two values.
pub fn binary(op: Opcode, l: &Value, r: &Value) -> (out: Applied)
    ensures
        out@ == binary_result(op, l@, r@),
{
    match op {
        Opcode::Eq => Applied::Value(Value::Boolean(l.equals(r))),
        Opcode::Ne => Applied::Value(Value::Boolean(!l.equals(r))),
        _ => match (l, r) {
            (Value::Integer(a), Value::Integer(b)) => apply_int(op, *a, *b),
            (Value::Float(a), Value::Float(b)) => apply_float(op, *a, *b),
            (Value::Integer(a), Value::Float(b)) => apply_float(op, from_int(*a), *b),
            (Value::Float(a), Value::Integer(b)) => apply_float(op, *a, from_int(*b)),
            (Value::Str(a), Value::Str(b)) => match op {
                Opcode::Add => {
                    let joined = a.clone().concat(b.as_str());
                    Applied::Value(Value::Str(joined))
                },
                _ => Applied::Raise(ErrorKind::TypeError),
            },
            (Value::List(a), Value::List(b)) => match op {
                Opcode::Add => {
                    let mut joined = dup_values(a);
                    let mut rest = dup_values(b);
                    proof {
                        lemma_value_views_concat(joined@, rest@);
                    }
                    joined.append(&mut rest);
                    Applied::Value(Value::List(joined))
                },
                _ => Applied::Raise(ErrorKind::TypeError),
            },
            _ => Applied::Raise(ErrorKind::TypeError),
        },
    }
}

/// Applies a unary operator to a value.
pub fn unary(op: Opcode, v: &Value) -> (out: Applied)
    ensures
        out@ == unary_result(op, v@),
{
    match (op, v) {
        (Opcode::Sub, Value::Integer(n)) => {
            let zero: i32 = 0;
            Applied::Value(Value::Integer(zero.wrapping_sub(*n)))
        },
        (Opcode::Sub, Value::Float(bits)) => Applied::Value(Value::Float(negated(*bits))),
        (Opcode::Add, Value::Integer(n)) => Applied::Value(Value::Integer(*n)),
        (Opcode::Add, Value::Float(bits)) => Applied::Value(Value::Float(*bits)),
        _ => Applied::Raise(ErrorKind::TypeError),
    }
}

/// Reads the element of `target` at `index`.
pub fn subscript(target: &Value, index: &Value) -> (out: Applied)
    ensures
        out@ == subscript_result(target@, index@),
{
    match (target, index) {
        (Value::List(l), Value::Integer(i)) => {
            proof {
                lemma_value_views_index(l@);
            }
            if *i >= 0 && (*i as usize) < l.len() {
                Applied::Value(l[*i as usize].dup())
            } else {
                Applied::Raise(ErrorKind::IndexError)
            }
        },
        _ => Applied::Raise(ErrorKind::TypeError),
    }
}

} // verus!
