//! The runtime values of the language, and what holds of each on its own:
//! its model, its truthiness, and equality between two of them.

use vstd::prelude::*;
use crate::number::{equal, float_eq, float_from_int, float_is_zero, from_int, is_zero};

verus! {

/// The kinds of runtime error.
#[derive(Copy, Clone, Debug, PartialEq, Eq, Structural)]
pub enum ErrorKind {
    /// An operator or a coercion met a value of the wrong type.
    TypeError,
    /// A variable was read that no frame binds.
    NameError,
    /// A function was called with the wrong number of arguments.
    ArityError,
    /// A subscript lies outside the list.
    IndexError,
    /// A member could not be resolved.
    AttributeError,
    /// A division by zero, or a power with a negative exponent.
    ArithmeticError,
    /// An import could not be resolved.
    ImportError,
    /// A defect outside the program, such as a parse-error node in the tree.
    /// It is the one kind that no handler catches.
    InvariantViolation,
    /// Function calls nest deeper than the machine's limit.
    StackOverflow,
}

impl ErrorKind {
    /// The name under which programs refer to the kind.
    pub open spec fn name_spec(self) -> Seq<char> {
        match self {
            ErrorKind::TypeError => "TypeError"@,
            ErrorKind::NameError => "NameError"@,
            ErrorKind::ArityError => "ArityError"@,
            ErrorKind::IndexError => "IndexError"@,
            ErrorKind::AttributeError => "AttributeError"@,
            ErrorKind::ArithmeticError => "ArithmeticError"@,
            ErrorKind::ImportError => "ImportError"@,
            ErrorKind::InvariantViolation => "InvariantViolation"@,
            ErrorKind::StackOverflow => "StackOverflow"@,
        }
    }

    /// Whether a `try` statement may handle an error of this kind.
    pub open spec fn catchable(self) -> bool {
        self != ErrorKind::InvariantViolation
    }

    /// The name under which programs refer to the kind.
    pub fn name(self) -> (r: &'static str)
        ensures
            r@ == self.name_spec(),
    {
        match self {
            ErrorKind::TypeError => "TypeError",
            ErrorKind::NameError => "NameError",
            ErrorKind::ArityError => "ArityError",
            ErrorKind::IndexError => "IndexError",
            ErrorKind::AttributeError => "AttributeError",
            ErrorKind::ArithmeticError => "ArithmeticError",
            ErrorKind::ImportError => "ImportError",
            ErrorKind::InvariantViolation => "InvariantViolation",
            ErrorKind::StackOverflow => "StackOverflow",
        }
    }

    /// Whether a `try` statement may handle an error of this kind.
    pub fn is_catchable(self) -> (r: bool)
        ensures
            r == self.catchable(),
    {
        match self {
            ErrorKind::InvariantViolation => false,
            _ => true,
        }
    }
}

/// A runtime value.
#[derive(Debug, PartialEq)]
pub enum Value {
    Boolean(bool),
    Integer(i32),
    /// A 32-bit floating-point number, held as its IEEE-754 bit pattern.
    Float(u32),
    Str(String),
    /// A list; each element is itself a fully evaluated value.
    List(Vec<Value>),
    /// A function of the program, by its number in the machine's table of
    /// closures, which holds its parameters, its body and the frame it
    /// captured.
    Closure(usize),
    /// A function of the host, by the handle the host gave it.
    Native(u64),
    /// The marker of a kind of error: what a handler's filter names, and
    /// what a handler's variable is bound to.
    Error(ErrorKind),
    Null,
}

/// The mathematical model of a [`Value`].
pub ghost enum ValueV {
    Boolean(bool),
    Integer(i32),
    Float(u32),
    Str(Seq<char>),
    List(Seq<ValueV>),
    Closure(usize),
    Native(u64),
    Error(ErrorKind),
    Null,
}

/// The models of a sequence of values, element by element.
pub open spec fn value_views(s: Seq<Value>) -> Seq<ValueV>
    decreases s,
{
    Seq::new(
        s.len(),
        |i: int|
            if 0 <= i < s.len() {
                s[i]@
            } else {
                ValueV::Null
            },
    )
}

impl View for Value {
    type V = ValueV;

    open spec fn view(&self) -> ValueV
        decreases self,
    {
        match self {
            Value::Boolean(b) => ValueV::Boolean(*b),
            Value::Integer(n) => ValueV::Integer(*n),
            Value::Float(bits) => ValueV::Float(*bits),
            Value::Str(s) => ValueV::Str(s@),
            Value::List(l) => ValueV::List(value_views(l@)),
            Value::Closure(id) => ValueV::Closure(*id),
            Value::Native(handle) => ValueV::Native(*handle),
            Value::Error(kind) => ValueV::Error(*kind),
            Value::Null => ValueV::Null,
        }
    }
}

impl ValueV {
    /// Truthiness: what a condition of `if` or `while` makes of the value.
    ///
    /// A boolean is itself; a number is true unless it is zero; a string or
    /// a list is true unless it is empty; null is false; everything else is
    /// true.
    pub open spec fn truthy(self) -> bool {
        match self {
            ValueV::Boolean(b) => b,
            ValueV::Integer(n) => n != 0,
            ValueV::Float(bits) => !float_is_zero(bits),
            ValueV::Str(s) => s.len() > 0,
            ValueV::List(l) => l.len() > 0,
            ValueV::Null => false,
            _ => true,
        }
    }

    /// Equality of two values.
    ///
    /// Two values of the same variant are compared by what they hold:
    /// floating-point numbers numerically, lists element by element,
    /// closures and native functions by identity. An integer and a
    /// floating-point number are compared numerically after the integer is
    /// widened. Two values of any other pair of variants are unequal.
    pub open spec fn equals(self, other: ValueV) -> bool
        decreases self,
    {
        match (self, other) {
            (ValueV::Boolean(a), ValueV::Boolean(b)) => a == b,
            (ValueV::Integer(a), ValueV::Integer(b)) => a == b,
            (ValueV::Float(a), ValueV::Float(b)) => float_eq(a, b),
            (ValueV::Integer(a), ValueV::Float(b)) => float_eq(float_from_int(a), b),
            (ValueV::Float(a), ValueV::Integer(b)) => float_eq(a, float_from_int(b)),
            (ValueV::Str(a), ValueV::Str(b)) => a == b,
            (ValueV::List(a), ValueV::List(b)) => a.len() == b.len() && forall|i: int|
                0 <= i < a.len() ==> (#[trigger] a[i]).equals(b[i]),
            (ValueV::Closure(a), ValueV::Closure(b)) => a == b,
            (ValueV::Native(a), ValueV::Native(b)) => a == b,
            (ValueV::Error(a), ValueV::Error(b)) => a == b,
            (ValueV::Null, ValueV::Null) => true,
            _ => false,
        }
    }
}

/// The models of a sequence are as many as its values, and each is the
/// model of the value at its place.
pub broadcast proof fn lemma_value_views_index(s: Seq<Value>)
    ensures
        (#[trigger] value_views(s)).len() == s.len(),
        forall|i: int| 0 <= i < s.len() ==> (#[trigger] value_views(s)[i]) == s[i]@,
{
}

/// The model of a pushed value is pushed onto the models.
pub proof fn lemma_value_views_push(s: Seq<Value>, v: Value)
    ensures
        value_views(s.push(v)) == value_views(s).push(v@),
{
    assert(value_views(s.push(v)) =~= value_views(s).push(v@));
}

/// The models of a concatenation are the concatenation of the models.
pub proof fn lemma_value_views_concat(a: Seq<Value>, b: Seq<Value>)
    ensures
        value_views(a + b) == value_views(a) + value_views(b),
{
    assert(value_views(a + b) =~= value_views(a) + value_views(b));
}

/// Copies a list of values.
pub fn dup_values(items: &Vec<Value>) -> (out: Vec<Value>)
    ensures
        value_views(out@) == value_views(items@),
    decreases items,
{
    let mut out: Vec<Value> = Vec::new();
    let mut i: usize = 0;
    while i < items.len()
        invariant
            i <= items.len(),
            out@.len() == i,
            forall|j: int| 0 <= j < i ==> out@[j]@ == items@[j]@,
        decreases items.len() - i,
    {
        proof {
            assert(decreases_to!(items => items[i as int]));
        }
        let c = items[i].dup();
        out.push(c);
        i += 1;
    }
    assert(value_views(out@) =~= value_views(items@));
    out
}

impl Value {
    /// A copy of the value.
    pub fn dup(&self) -> (r: Value)
        ensures
            r@ == self@,
        decreases self,
    {
        match self {
            Value::Boolean(b) => Value::Boolean(*b),
            Value::Integer(n) => Value::Integer(*n),
            Value::Float(bits) => Value::Float(*bits),
            Value::Str(s) => Value::Str(s.clone()),
            Value::List(l) => {
                proof {
                    assert(decreases_to!(*self => self->List_0));
                }
                Value::List(dup_values(l))
            },
            Value::Closure(id) => Value::Closure(*id),
            Value::Native(handle) => Value::Native(*handle),
            Value::Error(kind) => Value::Error(*kind),
            Value::Null => Value::Null,
        }
    }

    /// Truthiness of the value.
    pub fn is_truthy(&self) -> (r: bool)
        ensures
            r == self@.truthy(),
    {
        match self {
            Value::Boolean(b) => *b,
            Value::Integer(n) => *n != 0,
            Value::Float(bits) => !is_zero(*bits),
            Value::Str(s) => !s.as_str().is_empty(),
            Value::List(l) => {
                proof {
                    lemma_value_views_index(l@);
                }
                l.len() > 0
            },
            Value::Null => false,
            _ => true,
        }
    }

    /// Equality of two values.
    pub fn equals(&self, other: &Value) -> (r: bool)
        ensures
            r == self@.equals(other@),
        decreases self,
    {
        match (self, other) {
            (Value::Boolean(a), Value::Boolean(b)) => *a == *b,
            (Value::Integer(a), Value::Integer(b)) => *a == *b,
            (Value::Float(a), Value::Float(b)) => equal(*a, *b),
            (Value::Integer(a), Value::Float(b)) => equal(from_int(*a), *b),
            (Value::Float(a), Value::Integer(b)) => equal(*a, from_int(*b)),
            (Value::Str(a), Value::Str(b)) => *a == *b,
            (Value::List(a), Value::List(b)) => {
                proof {
                    assert(decreases_to!(*self => self->List_0));
                }
                lists_equal(a, b)
            },
            (Value::Closure(a), Value::Closure(b)) => *a == *b,
            (Value::Native(a), Value::Native(b)) => *a == *b,
            (Value::Error(a), Value::Error(b)) => *a == *b,
            (Value::Null, Value::Null) => true,
            _ => false,
        }
    }
}

impl Clone for Value {
    fn clone(&self) -> (r: Value)
        ensures
            r@ == self@,
    {
        self.dup()
    }
}

/// Equality of two lists: the same length, and equal element by element.
pub fn lists_equal(a: &Vec<Value>, b: &Vec<Value>) -> (r: bool)
    ensures
        r == ValueV::List(value_views(a@)).equals(ValueV::List(value_views(b@))),
    decreases a,
{
    if a.len() != b.len() {
        return false;
    }
    let mut i: usize = 0;
    while i < a.len()
        invariant
            i <= a.len(),
            a.len() == b.len(),
            forall|j: int| 0 <= j < i ==> (#[trigger] value_views(a@)[j]).equals(value_views(b@)[j]),
        decreases a.len() - i,
    {
        proof {
            assert(decreases_to!(a => a[i as int]));
        }
        if !a[i].equals(&b[i]) {
            assert(!value_views(a@)[i as int].equals(value_views(b@)[i as int]));
            return false;
        }
        i += 1;
    }
    true
}

} // verus!
