//! The state of the evaluator: what it is about to do, what remains to be
//! done afterwards, and the models of both.

use vstd::prelude::*;
use crate::ast::{Catch, Expr, Name, Opcode, Statement};
use crate::value::{value_views, ErrorKind, Value, ValueV};

verus! {

/// How an evaluation or an execution ended.
#[derive(Clone, Debug, PartialEq)]
pub enum Signal {
    /// It completed, with this value (null for a statement).
    Normal(Value),
    /// A `return` is on its way to the enclosing function call, which it
    /// gives this value.
    Returning(Value),
    /// An error of this kind, carrying this value, is on its way to the
    /// nearest handler.
    Raised(ErrorKind, Value),
}

/// The model of a [`Signal`].
pub ghost enum SignalV {
    Normal(ValueV),
    Returning(ValueV),
    Raised(ErrorKind, ValueV),
}

impl View for Signal {
    type V = SignalV;

    open spec fn view(&self) -> SignalV {
        match self {
            Signal::Normal(v) => SignalV::Normal(v@),
            Signal::Returning(v) => SignalV::Returning(v@),
            Signal::Raised(kind, v) => SignalV::Raised(*kind, v@),
        }
    }
}

/// What the evaluator asks of its host.
#[derive(Clone, Debug, PartialEq)]
pub enum Request {
    /// Call the native function with this handle on these arguments.
    Native { handle: u64, args: Vec<Value> },
    /// Resolve the import of the module with this name.
    Import { name: String },
    /// Resolve the member `name` of `target`.
    Attribute { target: Value, name: String },
    /// Compute the arithmetic operator on the two floating-point bit
    /// patterns and answer with the resulting number.
    Float { op: Opcode, left: u32, right: u32 },
}

/// The model of a [`Request`].
pub ghost enum RequestV {
    Native { handle: u64, args: Seq<ValueV> },
    Import { name: Seq<char> },
    Attribute { target: ValueV, name: Seq<char> },
    Float { op: Opcode, left: u32, right: u32 },
}

impl View for Request {
    type V = RequestV;

    open spec fn view(&self) -> RequestV {
        match self {
            Request::Native { handle, args } => RequestV::Native {
                handle: *handle,
                args: value_views(args@),
            },
            Request::Import { name } => RequestV::Import { name: name@ },
            Request::Attribute { target, name } => RequestV::Attribute {
                target: target@,
                name: name@,
            },
            Request::Float { op, left, right } => RequestV::Float {
                op: *op,
                left: *left,
                right: *right,
            },
        }
    }
}

/// The host's answer to a [`Request`]. The evaluator takes the answer as
/// it comes: it is the host that sees to it that a native function, an
/// import, a member or an arithmetic operator has the value it should.
#[derive(Clone, Debug, PartialEq)]
pub enum Reply {
    /// The request succeeded, with this value.
    Value(Value),
    /// The request failed, with an error of this kind that carries this
    /// value. The failure of an import is an `ImportError` and that of a
    /// member an `AttributeError`, whatever kind is given here.
    Raise(ErrorKind, Value),
}

impl Reply {
    /// The signal that the answer turns into.
    pub open spec fn signal(self) -> SignalV {
        match self {
            Reply::Value(v) => SignalV::Normal(v@),
            Reply::Raise(kind, v) => SignalV::Raised(kind, v@),
        }
    }
}

/// Where the evaluator stands.
#[derive(Copy, Clone, Debug, PartialEq, Eq, Structural)]
pub enum Status {
    /// A step leads on.
    Running,
    /// The host is asked for something.
    Waiting,
    /// The program has ended.
    Finished,
}

/// A function of the program: the frame it captured, its parameters and
/// its body.
#[derive(Debug)]
pub struct Closure<'a> {
    pub env: usize,
    pub params: &'a Vec<String>,
    pub body: &'a Vec<Box<Statement>>,
}

/// The model of a [`Closure`].
pub ghost struct ClosureV {
    pub env: usize,
    pub params: Vec<String>,
    pub body: Vec<Box<Statement>>,
}

impl<'a> View for Closure<'a> {
    type V = ClosureV;

    open spec fn view(&self) -> ClosureV {
        ClosureV { env: self.env, params: *self.params, body: *self.body }
    }
}

/// One piece of work that waits for the result of the work above it.
#[derive(Debug)]
pub enum Kont<'a> {
    /// Go on with the statement at `next` of `body`.
    Block { body: &'a Vec<Box<Statement>>, next: usize, env: usize },
    /// Assign the value to `name`.
    Assign { name: &'a String, env: usize },
    /// Choose a branch of an `if` by the value.
    Branch {
        then: &'a Vec<Box<Statement>>,
        otherwise: &'a Option<Vec<Box<Statement>>>,
        env: usize,
    },
    /// Run the body of a `while` once more if the value, its condition, is
    /// true.
    Loop { cond: &'a Expr, body: &'a Vec<Box<Statement>>, env: usize },
    /// Test the condition of a `while` again, its body being done.
    Again { cond: &'a Expr, body: &'a Vec<Box<Statement>>, env: usize },
    /// Start a `for` over the value.
    ForStart { var: &'a String, body: &'a Vec<Box<Statement>>, env: usize },
    /// Go on with the element at `next` of a `for`.
    ForNext {
        var: &'a String,
        list: Vec<Value>,
        next: usize,
        body: &'a Vec<Box<Statement>>,
        env: usize,
    },
    /// Return the value from the enclosing call.
    Ret,
    /// The boundary of a function call: a `return` stops here.
    Call,
    /// The boundary of the body of a `try`: an error stops here if one of
    /// the handlers takes it.
    Try { catches: &'a Vec<Box<Catch>>, env: usize },
    /// Decide by the value, a handler's filter, whether `handler` takes the
    /// error; the handlers from `next` on come after it.
    Filter {
        handler: &'a Catch,
        catches: &'a Vec<Box<Catch>>,
        next: usize,
        env: usize,
        kind: ErrorKind,
        value: Value,
    },
    /// Evaluate the right operand, the value being the left one.
    BinLeft { op: Opcode, right: &'a Expr, env: usize },
    /// Apply the operator, the value being the right operand.
    BinRight { op: Opcode, left: Value },
    /// Apply the unary operator to the value.
    Unary { op: Opcode },
    /// Take the value as the next element of a list literal.
    Elems { items: &'a Vec<Box<Expr>>, done: Vec<Value>, env: usize },
    /// Take the value as the function to call.
    Callee { args: &'a Vec<Box<Expr>>, env: usize },
    /// Take the value as the next argument of a call.
    Args { callee: Value, args: &'a Vec<Box<Expr>>, done: Vec<Value>, env: usize },
    /// Evaluate the index, the value being the target of a subscript.
    SubTarget { index: &'a Expr, env: usize },
    /// Read the element, the value being the index.
    SubIndex { target: Value },
    /// Ask for the member `name` of the value.
    Attr { name: &'a String },
    /// Take the answer of the host as the member of a value: a failure is
    /// an `AttributeError`.
    Member,
    /// Bind the value, the answer of the host, as the name `current` says;
    /// the names from `next` on come after it. A failure is an
    /// `ImportError`.
    Import { current: &'a Name, names: &'a Vec<Box<Name>>, next: usize, env: usize },
}

/// The model of a [`Kont`].
pub ghost enum KontV {
    Block { body: Vec<Box<Statement>>, next: usize, env: usize },
    Assign { name: Seq<char>, env: usize },
    Branch { then: Vec<Box<Statement>>, otherwise: Option<Vec<Box<Statement>>>, env: usize },
    Loop { cond: Expr, body: Vec<Box<Statement>>, env: usize },
    Again { cond: Expr, body: Vec<Box<Statement>>, env: usize },
    ForStart { var: Seq<char>, body: Vec<Box<Statement>>, env: usize },
    ForNext { var: Seq<char>, list: Seq<ValueV>, next: usize, body: Vec<Box<Statement>>, env: usize },
    Ret,
    Call,
    Try { catches: Vec<Box<Catch>>, env: usize },
    Filter {
        handler: Catch,
        catches: Vec<Box<Catch>>,
        next: usize,
        env: usize,
        kind: ErrorKind,
        value: ValueV,
    },
    BinLeft { op: Opcode, right: Expr, env: usize },
    BinRight { op: Opcode, left: ValueV },
    Unary { op: Opcode },
    Elems { items: Vec<Box<Expr>>, done: Seq<ValueV>, env: usize },
    Callee { args: Vec<Box<Expr>>, env: usize },
    Args { callee: ValueV, args: Vec<Box<Expr>>, done: Seq<ValueV>, env: usize },
    SubTarget { index: Expr, env: usize },
    SubIndex { target: ValueV },
    Attr { name: Seq<char> },
    Member,
    Import { current: Name, names: Vec<Box<Name>>, next: usize, env: usize },
}

impl<'a> View for Kont<'a> {
    type V = KontV;

    open spec fn view(&self) -> KontV {
        match *self {
            Kont::Block { body, next, env } => KontV::Block { body: *body, next, env },
            Kont::Assign { name, env } => KontV::Assign { name: name@, env },
            Kont::Branch { then, otherwise, env } => KontV::Branch {
                then: *then,
                otherwise: *otherwise,
                env,
            },
            Kont::Loop { cond, body, env } => KontV::Loop { cond: *cond, body: *body, env },
            Kont::Again { cond, body, env } => KontV::Again { cond: *cond, body: *body, env },
            Kont::ForStart { var, body, env } => KontV::ForStart { var: var@, body: *body, env },
            Kont::ForNext { var, list: items, next, body, env } => KontV::ForNext {
                var: var@,
                list: value_views(items@),
                next,
                body: *body,
                env,
            },
            Kont::Ret => KontV::Ret,
            Kont::Call => KontV::Call,
            Kont::Try { catches, env } => KontV::Try { catches: *catches, env },
            Kont::Filter { handler, catches, next, env, kind, value } => KontV::Filter {
                handler: *handler,
                catches: *catches,
                next,
                env,
                kind,
                value: value@,
            },
            Kont::BinLeft { op, right, env } => KontV::BinLeft { op, right: *right, env },
            Kont::BinRight { op, left } => KontV::BinRight { op, left: left@ },
            Kont::Unary { op } => KontV::Unary { op },
            Kont::Elems { items, done, env } => KontV::Elems {
                items: *items,
                done: value_views(done@),
                env,
            },
            Kont::Callee { args, env } => KontV::Callee { args: *args, env },
            Kont::Args { callee, args, done, env } => KontV::Args {
                callee: callee@,
                args: *args,
                done: value_views(done@),
                env,
            },
            Kont::SubTarget { index, env } => KontV::SubTarget { index: *index, env },
            Kont::SubIndex { target } => KontV::SubIndex { target: target@ },
            Kont::Attr { name } => KontV::Attr { name: name@ },
            Kont::Member => KontV::Member,
            Kont::Import { current: name, names, next, env } => KontV::Import {
                current: *name,
                names: *names,
                next,
                env,
            },
        }
    }
}

impl KontV {
    /// Whether the frame that the work will run in is one of the first `n`.
    pub open spec fn env_ok(self, n: nat) -> bool {
        match self {
            KontV::Block { env, .. } => env < n,
            KontV::Assign { env, .. } => env < n,
            KontV::Branch { env, .. } => env < n,
            KontV::Loop { env, .. } => env < n,
            KontV::Again { env, .. } => env < n,
            KontV::ForStart { env, .. } => env < n,
            KontV::ForNext { env, .. } => env < n,
            KontV::Try { env, .. } => env < n,
            KontV::Filter { env, .. } => env < n,
            KontV::BinLeft { env, .. } => env < n,
            KontV::Elems { env, .. } => env < n,
            KontV::Callee { env, .. } => env < n,
            KontV::Args { env, .. } => env < n,
            KontV::SubTarget { env, .. } => env < n,
            KontV::Import { env, .. } => env < n,
            _ => true,
        }
    }
}

/// The models of a stack of work, bottom first.
pub open spec fn kont_views<'a>(s: Seq<Kont<'a>>) -> Seq<KontV> {
    Seq::new(s.len(), |i: int| s[i]@)
}

/// The models of the closures, in the order they were made.
pub open spec fn closure_views<'a>(s: Seq<Closure<'a>>) -> Seq<ClosureV> {
    Seq::new(s.len(), |i: int| s[i]@)
}

/// What the evaluator is about to do.
#[derive(Debug)]
pub enum Control<'a> {
    /// Evaluate the expression in the frame.
    Eval(&'a Expr, usize),
    /// Execute the statements of the body from the index on, in the frame.
    Exec(&'a Vec<Box<Statement>>, usize, usize),
    /// Hand the signal to the work that waits on top of the stack.
    Deliver(Signal),
    /// Wait for the host's answer to the request.
    Waiting(Request),
}

/// The model of a [`Control`].
pub ghost enum ControlV {
    Eval(Expr, usize),
    Exec(Vec<Box<Statement>>, usize, usize),
    Deliver(SignalV),
    Waiting(RequestV),
}

impl<'a> View for Control<'a> {
    type V = ControlV;

    open spec fn view(&self) -> ControlV {
        match self {
            Control::Eval(e, env) => ControlV::Eval(**e, *env),
            Control::Exec(body, index, env) => ControlV::Exec(**body, *index, *env),
            Control::Deliver(sig) => ControlV::Deliver(sig@),
            Control::Waiting(req) => ControlV::Waiting(req@),
        }
    }
}

impl ControlV {
    /// Whether the frame that the work will run in is one of the first `n`.
    pub open spec fn env_ok(self, n: nat) -> bool {
        match self {
            ControlV::Eval(_, env) => env < n,
            ControlV::Exec(_, _, env) => env < n,
            _ => true,
        }
    }
}

} // verus!
