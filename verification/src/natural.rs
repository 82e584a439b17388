//! The natural semantics of the language: what a whole expression, a
//! whole statement and a whole body come to, stated over the parts they
//! are made of.
//!
//! Where [`crate::semantics`] says what the evaluator does next, this
//! module says what a piece of program amounts to in the end: the
//! [`World`] it leaves behind and the signal it ends with. A body threads
//! the world through its statements and stops at the first that does not
//! complete normally; a `return` ends the enclosing call and becomes its
//! value; an error goes outwards until a handler takes it.
//!
//! What a program comes to depends on its host. Every function here
//! takes the host as a function `host`, which gives the answer to a
//! request by the number of requests that the host has answered before;
//! the world counts them.
//!
//! A piece of program need not end, so every function here takes `fuel`
//! as well: the number of function calls and of rounds of `while` that
//! may still nest. A piece of program comes to nothing where the fuel
//! runs out. [`crate::refinement`] shows that the evaluator, together
//! with the host, arrives at what this module states.

use vstd::prelude::*;
use crate::ast::{Catch, Expr, Statement};
use crate::env::{assign, define, extend, lookup, FrameV};
use crate::ops::{binary_result, subscript_result, unary_result, AppliedV};
use crate::semantics::{bind_params, callable, filter_matches};
use crate::state::{ClosureV, RequestV, SignalV};
use crate::value::{ErrorKind, ValueV};

verus! {

/// What a running program has made: its frames and its closures, with
/// the depth of the function calls in progress and its limit.
pub ghost struct World {
    pub frames: Seq<FrameV>,
    pub closures: Seq<ClosureV>,
    pub depth: usize,
    pub limit: usize,
    /// The number of requests that the host has answered.
    pub asked: nat,
}

/// How a piece of program ended: the world it left, the signal it ended
/// with, and the number of moves that the evaluator and its host make
/// over it (every step of the evaluator and every answer of the host is
/// one move).
pub ghost struct Run {
    pub world: World,
    pub signal: SignalV,
    pub steps: nat,
}

/// How a row of expressions ended: with their values, or with the signal
/// of the first that did not complete normally.
pub ghost struct Row {
    pub world: World,
    pub values: Result<Seq<ValueV>, SignalV>,
    pub steps: nat,
}

/// The signal of an error that the evaluator itself raises.
pub open spec fn raised(kind: ErrorKind) -> SignalV {
    SignalV::Raised(kind, ValueV::Error(kind))
}

/// How an applied operator ends in the world `w` after `steps` moves: with
/// its value or its error, or, where it is left to the host, with the
/// answer of the host one move later.
pub open spec fn applied(
    w: World,
    host: spec_fn(nat, RequestV) -> SignalV,
    a: AppliedV,
    steps: nat,
) -> Option<Run> {
    match a {
        AppliedV::Value(v) => ran(w, SignalV::Normal(v), steps),
        AppliedV::Raise(kind) => ran(w, raised(kind), steps),
        AppliedV::Float(op, left, right) => ran(
            w.asking(),
            w.answer(host, RequestV::Float { op, left, right }),
            steps + 1,
        ),
    }
}

/// What the answer `sig` of the host to a request for an import or for a
/// member comes to: a failure is an error of the kind `kind`, whatever
/// kind the host called it, and carries the value that the host gave it.
pub open spec fn resolved(sig: SignalV, kind: ErrorKind) -> SignalV {
    match sig {
        SignalV::Raised(_, v) => SignalV::Raised(kind, v),
        _ => sig,
    }
}

/// What a function call gives its caller when its body ended with `sig`:
/// the value of a `return`, null where the body ran to its end, and the
/// error where it failed.
pub open spec fn call_result(sig: SignalV) -> SignalV {
    match sig {
        SignalV::Normal(_) => SignalV::Normal(ValueV::Null),
        SignalV::Returning(v) => SignalV::Normal(v),
        SignalV::Raised(kind, v) => SignalV::Raised(kind, v),
    }
}

/// How a call begins.
pub ghost enum Entry {
    /// It fails at once with an error of this kind.
    Fail(ErrorKind),
    /// It is the native function with this handle, which the host runs.
    Host(u64),
    /// The body runs in the frame `child` of the world `world`.
    Enter { world: World, body: Vec<Box<Statement>>, child: usize },
}

impl World {
    /// What the host answers to the request `req` made in this world.
    pub open spec fn answer(
        self,
        host: spec_fn(nat, RequestV) -> SignalV,
        req: RequestV,
    ) -> SignalV {
        host(self.asked, req)
    }

    /// The world after the host has answered one more request.
    pub open spec fn asking(self) -> World {
        World { asked: self.asked + 1, ..self }
    }

    /// The world with other frames.
    pub open spec fn with_frames(self, frames: Seq<FrameV>) -> World {
        World { frames, ..self }
    }

    /// The index of the frame that is made next.
    pub open spec fn fresh(self) -> usize {
        self.frames.len() as usize
    }

    /// The world with a new frame under `env`.
    pub open spec fn grown(self, env: usize) -> World {
        self.with_frames(extend(self.frames, env))
    }

    /// The world with one more closure, which captures `env`.
    pub open spec fn close(
        self,
        params: Vec<String>,
        body: Vec<Box<Statement>>,
        env: usize,
    ) -> World {
        World { closures: self.closures.push(ClosureV { env, params, body }), ..self }
    }

    /// The world with one function call less in progress.
    pub open spec fn leave_call(self) -> World {
        World { depth: if self.depth > 0 { (self.depth - 1) as usize } else { 0 }, ..self }
    }

    /// How a call of `callee` on `args` begins: see
    /// [`crate::semantics::MachineV::invoke`].
    pub open spec fn entry(self, callee: ValueV, args: Seq<ValueV>) -> Entry {
        match callee {
            ValueV::Native(handle) => Entry::Host(handle),
            ValueV::Closure(id) => if id >= self.closures.len() {
                Entry::Fail(ErrorKind::InvariantViolation)
            } else {
                let c = self.closures[id as int];
                if c.params@.len() != args.len() {
                    Entry::Fail(ErrorKind::ArityError)
                } else if self.depth >= self.limit {
                    Entry::Fail(ErrorKind::StackOverflow)
                } else {
                    Entry::Enter {
                        world: World {
                            frames: bind_params(
                                extend(self.frames, c.env),
                                self.fresh() as int,
                                c.params@,
                                args,
                                args.len(),
                            ),
                            depth: (self.depth + 1) as usize,
                            ..self
                        },
                        body: c.body,
                        child: self.fresh(),
                    }
                }
            },
            _ => Entry::Fail(ErrorKind::TypeError),
        }
    }

    /// The world in which a handler runs that was given the error value
    /// `value`: with a new frame under `env`, which binds the handler's
    /// variable, if it has one, to the value.
    pub open spec fn handling(self, handler: Catch, env: usize, value: ValueV) -> World {
        match handler {
            Catch::Catch(Some(n), _, _) => self.with_frames(
                define(extend(self.frames, env), self.fresh() as int, n@, value),
            ),
            Catch::Catch(None, _, _) => self.grown(env),
        }
    }
}

/// A run that ended in `world` with `signal` after `steps` moves.
pub open spec fn ran(world: World, signal: SignalV, steps: nat) -> Option<Run> {
    Some(Run { world, signal, steps })
}

/// The run `r` with `more` moves added.
pub open spec fn later(r: Option<Run>, more: nat) -> Option<Run> {
    match r {
        Some(r) => Some(Run { steps: r.steps + more, ..r }),
        None => None,
    }
}

/// What the expressions of `items` from the one at `k` on come to, from
/// left to right, `done` being the values of those before: all the
/// values, or the signal of the first expression that fails, after which
/// no other is evaluated.
pub open spec fn eval_items(
    w: World,
    env: usize,
    items: Seq<Box<Expr>>,
    k: nat,
    done: Seq<ValueV>,
    host: spec_fn(nat, RequestV) -> SignalV,
    fuel: nat,
) -> Option<Row>
    decreases fuel, items, 0nat, items.len() - k,
{
    if k >= items.len() {
        Some(Row { world: w, values: Ok(done), steps: 0 })
    } else {
        match eval_expr(w, env, *items[k as int], host, fuel) {
            Some(r) => match r.signal {
                SignalV::Normal(v) => match eval_items(
                    r.world,
                    env,
                    items,
                    k + 1,
                    done.push(v),
                    host,
                    fuel,
                ) {
                    Some(rest) => Some(Row { steps: r.steps + 1 + rest.steps, ..rest }),
                    None => None,
                },
                sig => Some(Row { world: r.world, values: Err(sig), steps: r.steps + 1 }),
            },
            None => None,
        }
    }
}

/// What the expression `e` comes to for code that runs in frame `env`.
///
/// A literal is its value; a variable is what the nearest frame binds it
/// to, or a `NameError`; a function literal is a new closure that
/// captures `env`; a parse-error node is an `InvariantViolation`. An
/// operator, a subscript, a list and a call evaluate their parts from left
/// to right; the first part that fails is the failure of the whole, and
/// the parts after it are not evaluated. A call runs the body of the
/// closure in a new frame under the frame that the closure captured, and
/// has the value that the body returns. A call of a native function, a
/// member of a value and arithmetic on floating-point numbers are what
/// the host answers; a member that the host fails to resolve is an
/// `AttributeError`.
pub open spec fn eval_expr(
    w: World,
    env: usize,
    e: Expr,
    host: spec_fn(nat, RequestV) -> SignalV,
    fuel: nat,
) -> Option<Run>
    decreases fuel, e, 0nat, 0nat,
{
    match e {
        Expr::Boolean(b) => ran(w, SignalV::Normal(ValueV::Boolean(b)), 1),
        Expr::Integer(n) => ran(w, SignalV::Normal(ValueV::Integer(n)), 1),
        Expr::Float(bits) => ran(w, SignalV::Normal(ValueV::Float(bits)), 1),
        Expr::Str(s) => ran(w, SignalV::Normal(ValueV::Str(s@)), 1),
        Expr::Null => ran(w, SignalV::Normal(ValueV::Null), 1),
        Expr::Error => ran(w, raised(ErrorKind::InvariantViolation), 1),
        Expr::Variable(name) => match lookup(w.frames, env as int, name@) {
            Some(v) => ran(w, SignalV::Normal(v), 1),
            None => ran(w, raised(ErrorKind::NameError), 1),
        },
        Expr::Function(_, params, body) => ran(
            w.close(*params, body, env),
            SignalV::Normal(ValueV::Closure(w.closures.len() as usize)),
            1,
        ),
        Expr::UnaryOp(op, x) => match eval_expr(w, env, *x, host, fuel) {
            Some(r) => match r.signal {
                SignalV::Normal(v) => applied(r.world, host, unary_result(op, v), r.steps + 2),
                sig => ran(r.world, sig, r.steps + 2),
            },
            None => None,
        },
        Expr::BinaryOp(l, op, r) => match eval_expr(w, env, *l, host, fuel) {
            Some(first) => match first.signal {
                SignalV::Normal(a) => match eval_expr(first.world, env, *r, host, fuel) {
                    Some(second) => match second.signal {
                        SignalV::Normal(b) => applied(
                            second.world,
                            host,
                            binary_result(op, a, b),
                            first.steps + second.steps + 3,
                        ),
                        sig => ran(second.world, sig, first.steps + second.steps + 3),
                    },
                    None => None,
                },
                sig => ran(first.world, sig, first.steps + 2),
            },
            None => None,
        },
        Expr::ItemSubscription(t, i) => match eval_expr(w, env, *t, host, fuel) {
            Some(first) => match first.signal {
                SignalV::Normal(a) => match eval_expr(first.world, env, *i, host, fuel) {
                    Some(second) => match second.signal {
                        SignalV::Normal(b) => applied(
                            second.world,
                            host,
                            subscript_result(a, b),
                            first.steps + second.steps + 3,
                        ),
                        sig => ran(second.world, sig, first.steps + second.steps + 3),
                    },
                    None => None,
                },
                sig => ran(first.world, sig, first.steps + 2),
            },
            None => None,
        },
        Expr::List(items) => match eval_items(w, env, items@, 0, Seq::empty(), host, fuel) {
            Some(row) => match row.values {
                Ok(values) => ran(row.world, SignalV::Normal(ValueV::List(values)), row.steps + 1),
                Err(sig) => ran(row.world, sig, row.steps + 1),
            },
            None => None,
        },
        Expr::FunctionCall(f, args) => match eval_expr(w, env, *f, host, fuel) {
            Some(first) => match first.signal {
                SignalV::Normal(callee) => if !callable(callee) {
                    ran(first.world, raised(ErrorKind::TypeError), first.steps + 2)
                } else {
                    match eval_items(first.world, env, args@, 0, Seq::empty(), host, fuel) {
                        Some(row) => match row.values {
                            Ok(values) => match row.world.entry(callee, values) {
                                Entry::Fail(kind) => ran(
                                    row.world,
                                    raised(kind),
                                    first.steps + row.steps + 2,
                                ),
                                Entry::Host(handle) => ran(
                                    row.world.asking(),
                                    row.world.answer(
                                        host,
                                        RequestV::Native { handle, args: values },
                                    ),
                                    first.steps + row.steps + 3,
                                ),
                                Entry::Enter { world, body, child } => if fuel == 0 {
                                    None
                                } else {
                                    match exec_block(
                                        world,
                                        body,
                                        0,
                                        child,
                                        host,
                                        (fuel - 1) as nat,
                                    ) {
                                        Some(inner) => ran(
                                            inner.world.leave_call(),
                                            call_result(inner.signal),
                                            first.steps + row.steps + inner.steps + 3,
                                        ),
                                        None => None,
                                    }
                                },
                            },
                            Err(sig) => ran(row.world, sig, first.steps + row.steps + 2),
                        },
                        None => None,
                    }
                },
                sig => ran(first.world, sig, first.steps + 2),
            },
            None => None,
        },
        Expr::AttrAccess(t, name) => match eval_expr(w, env, *t, host, fuel) {
            Some(r) => match r.signal {
                SignalV::Normal(v) => ran(
                    r.world.asking(),
                    resolved(
                        r.world.answer(host, RequestV::Attribute { target: v, name: name@ }),
                        ErrorKind::AttributeError,
                    ),
                    r.steps + 4,
                ),
                sig => ran(r.world, sig, r.steps + 2),
            },
            None => None,
        },
    }
}

/// What the statements of `body` from the one at `index` on come to, in
/// frame `env`: each statement runs in the world that the one before it
/// left, and the first that does not complete normally ends the body.
pub open spec fn exec_block(
    w: World,
    body: Vec<Box<Statement>>,
    index: nat,
    env: usize,
    host: spec_fn(nat, RequestV) -> SignalV,
    fuel: nat,
) -> Option<Run>
    decreases fuel, body, 0nat, body@.len() - index,
{
    if index >= body@.len() {
        ran(w, SignalV::Normal(ValueV::Null), 1)
    } else {
        match exec_stmt(w, *body@[index as int], env, host, fuel) {
            Some(r) => match r.signal {
                SignalV::Normal(_) => later(
                    exec_block(r.world, body, index + 1, env, host, fuel),
                    r.steps + 2,
                ),
                sig => ran(r.world, sig, r.steps + 2),
            },
            None => None,
        }
    }
}

/// What the rounds of the `while` statement `s` come to, from the test of
/// its condition on. Every round runs the body in a new frame.
pub open spec fn exec_while(
    w: World,
    s: Statement,
    env: usize,
    host: spec_fn(nat, RequestV) -> SignalV,
    fuel: nat,
) -> Option<Run>
    decreases fuel, s, 1nat, 0nat,
{
    match s {
        Statement::While(c, b) => match eval_expr(w, env, *c, host, fuel) {
            Some(test) => match test.signal {
                SignalV::Normal(v) => if !v.truthy() {
                    ran(test.world, SignalV::Normal(ValueV::Null), test.steps + 1)
                } else if fuel == 0 {
                    None
                } else {
                    match exec_block(test.world.grown(env), b, 0, test.world.fresh(), host, fuel) {
                        Some(round) => match round.signal {
                            SignalV::Normal(_) => later(
                                exec_while(round.world, s, env, host, (fuel - 1) as nat),
                                test.steps + round.steps + 2,
                            ),
                            sig => ran(round.world, sig, test.steps + round.steps + 2),
                        },
                        None => None,
                    }
                },
                sig => ran(test.world, sig, test.steps + 1),
            },
            None => None,
        },
        _ => None,
    }
}

/// What the rounds of the `for` statement `s` over `items` come to, from
/// the element at `k` on. Every round runs the body in a new frame that
/// binds the loop variable to the element.
pub open spec fn exec_for(
    w: World,
    s: Statement,
    items: Seq<ValueV>,
    k: nat,
    env: usize,
    host: spec_fn(nat, RequestV) -> SignalV,
    fuel: nat,
) -> Option<Run>
    decreases fuel, s, 1nat, items.len() - k,
{
    match s {
        Statement::For(var, _, b) => if k < items.len() {
            let bound = w.with_frames(
                define(extend(w.frames, env), w.fresh() as int, var@, items[k as int]),
            );
            match exec_block(bound, b, 0, w.fresh(), host, fuel) {
                Some(round) => match round.signal {
                    SignalV::Normal(_) => later(
                        exec_for(round.world, s, items, k + 1, env, host, fuel),
                        round.steps + 1,
                    ),
                    sig => ran(round.world, sig, round.steps + 1),
                },
                None => None,
            }
        } else {
            ran(w, SignalV::Normal(ValueV::Null), 0)
        },
        _ => None,
    }
}

/// What the handlers of the `try` statement `s` from the one at `index`
/// on make of an error of the kind `kind` that carries `value`: the first
/// handler without a filter, or whose filter matches, runs its body; an
/// error that no handler takes goes on.
pub open spec fn exec_catches(
    w: World,
    s: Statement,
    index: nat,
    env: usize,
    kind: ErrorKind,
    value: ValueV,
    host: spec_fn(nat, RequestV) -> SignalV,
    fuel: nat,
) -> Option<Run>
    decreases fuel, s, 1nat, (if let Statement::Try(_, catches) = s {
        catches@.len() - index
    } else {
        0
    }),
{
    match s {
        Statement::Try(_, catches) => if index < catches@.len() {
            let handler = *catches@[index as int];
            match handler {
                Catch::Catch(_, Some(f), body) => match eval_expr(w, env, *f, host, fuel) {
                    Some(test) => match test.signal {
                        SignalV::Normal(v) => if filter_matches(v, kind, value) {
                            later(
                                exec_block(
                                    test.world.handling(handler, env, value),
                                    body,
                                    0,
                                    test.world.fresh(),
                                    host,
                                    fuel,
                                ),
                                test.steps + 1,
                            )
                        } else {
                            later(
                                exec_catches(
                                    test.world,
                                    s,
                                    index + 1,
                                    env,
                                    kind,
                                    value,
                                    host,
                                    fuel,
                                ),
                                test.steps + 1,
                            )
                        },
                        sig => ran(test.world, sig, test.steps + 1),
                    },
                    None => None,
                },
                Catch::Catch(_, None, body) => exec_block(
                    w.handling(handler, env, value),
                    body,
                    0,
                    w.fresh(),
                    host,
                    fuel,
                ),
            }
        } else {
            ran(w, SignalV::Raised(kind, value), 0)
        },
        _ => None,
    }
}

/// What the import statement `s` comes to from the name at `index` on:
/// the host is asked for each module in turn, and what it answers is
/// bound, in the frame of the statement, under the name or the alias. The
/// first import that fails ends the statement with an `ImportError`.
pub open spec fn exec_imports(
    w: World,
    s: Statement,
    index: nat,
    env: usize,
    host: spec_fn(nat, RequestV) -> SignalV,
    fuel: nat,
) -> Option<Run>
    decreases fuel, s, 1nat, (if let Statement::Import(names) = s {
        names@.len() - index
    } else {
        0
    }),
{
    match s {
        Statement::Import(names) => if index < names@.len() {
            let name = *names@[index as int];
            match w.answer(host, RequestV::Import { name: name.source() }) {
                SignalV::Normal(v) => later(
                    exec_imports(
                        w.asking().with_frames(define(w.frames, env as int, name.target(), v)),
                        s,
                        index + 1,
                        env,
                        host,
                        fuel,
                    ),
                    2,
                ),
                sig => ran(w.asking(), resolved(sig, ErrorKind::ImportError), 2),
            }
        } else {
            ran(w, SignalV::Normal(ValueV::Null), 0)
        },
        _ => None,
    }
}

/// What the statement `s` comes to in frame `env`.
///
/// - An expression statement is evaluated for what it does.
/// - An assignment evaluates its expression and then binds the name as
///   [`assign`] says.
/// - An `if` runs the branch that the truthiness of its condition
///   chooses, in the frame of the statement.
/// - A function declaration binds its name, in the frame of the
///   statement, to a closure that captures that frame.
/// - A `return` ends with the signal that carries its value outwards.
/// - A `while` runs as [`exec_while`] says, a `for` as [`exec_for`] says
///   once its expression has come to a list; anything but a list is a
///   `TypeError`.
/// - A `try` runs its body in a new frame. An error that may be caught
///   is offered to the handlers as [`exec_catches`] says; everything else
///   goes on as it came.
/// - An import binds what the host answers, as [`exec_imports`] says.
///
/// A `for` over a list too long for its elements to be counted comes to
/// nothing.
pub open spec fn exec_stmt(
    w: World,
    s: Statement,
    env: usize,
    host: spec_fn(nat, RequestV) -> SignalV,
    fuel: nat,
) -> Option<Run>
    decreases fuel, s, 2nat, 0nat,
{
    match s {
        Statement::Expression(e) => eval_expr(w, env, *e, host, fuel),
        Statement::If(c, then, otherwise) => match eval_expr(w, env, *c, host, fuel) {
            Some(test) => match test.signal {
                SignalV::Normal(v) => if v.truthy() {
                    later(exec_block(test.world, then, 0, env, host, fuel), test.steps + 1)
                } else {
                    match otherwise {
                        Some(b) => later(
                            exec_block(test.world, b, 0, env, host, fuel),
                            test.steps + 1,
                        ),
                        None => ran(test.world, SignalV::Normal(ValueV::Null), test.steps + 1),
                    }
                },
                sig => ran(test.world, sig, test.steps + 1),
            },
            None => None,
        },
        Statement::Function(name, params, b) => ran(
            w.close(*params, b, env).with_frames(
                define(w.frames, env as int, name@, ValueV::Closure(w.closures.len() as usize)),
            ),
            SignalV::Normal(ValueV::Null),
            0,
        ),
        Statement::Assignment(name, e) => match eval_expr(w, env, *e, host, fuel) {
            Some(r) => match r.signal {
                SignalV::Normal(v) => ran(
                    r.world.with_frames(assign(r.world.frames, env as int, name@, v)),
                    SignalV::Normal(ValueV::Null),
                    r.steps + 1,
                ),
                sig => ran(r.world, sig, r.steps + 1),
            },
            None => None,
        },
        Statement::Return(e) => match eval_expr(w, env, *e, host, fuel) {
            Some(r) => match r.signal {
                SignalV::Normal(v) => ran(r.world, SignalV::Returning(v), r.steps + 1),
                sig => ran(r.world, sig, r.steps + 1),
            },
            None => None,
        },
        Statement::While(_, _) => exec_while(w, s, env, host, fuel),
        Statement::For(_, it, _) => match eval_expr(w, env, *it, host, fuel) {
            Some(r) => match r.signal {
                SignalV::Normal(ValueV::List(items)) => if items.len() > usize::MAX {
                    None
                } else {
                    later(exec_for(r.world, s, items, 0, env, host, fuel), r.steps + 1)
                },
                SignalV::Normal(_) => ran(r.world, raised(ErrorKind::TypeError), r.steps + 1),
                sig => ran(r.world, sig, r.steps + 1),
            },
            None => None,
        },
        Statement::Import(_) => exec_imports(w, s, 0, env, host, fuel),
        Statement::Try(b, _) => match exec_block(w.grown(env), b, 0, w.fresh(), host, fuel) {
            Some(r) => match r.signal {
                SignalV::Normal(_) => ran(r.world, SignalV::Normal(ValueV::Null), r.steps + 1),
                SignalV::Raised(kind, v) => if kind.catchable() {
                    later(exec_catches(r.world, s, 0, env, kind, v, host, fuel), r.steps + 1)
                } else {
                    ran(r.world, r.signal, r.steps + 1)
                },
                sig => ran(r.world, sig, r.steps + 1),
            },
            None => None,
        },
    }
}

} // verus!
