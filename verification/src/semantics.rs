//! The semantics of the language, as one transition of the evaluator's
//! model: [`MachineV::step`] says what every state is followed by.
//!
//! The model holds the frames, the closures made so far, the stack of
//! waiting work, what is to be done next, and the depth of function calls
//! with its limit. A state whose stack is empty and whose control delivers
//! a signal is final: the signal is the program's result. A state that
//! waits for the host is left by [`MachineV::resume`] alone;
//! [`MachineV::advance`] lets a host, given as a function, answer.

use vstd::prelude::*;
use crate::ast::{Catch, Expr, Name, Statement};
use crate::env::{assign, define, extend, lookup, FrameV};
use crate::ops::{binary_result, subscript_result, unary_result, AppliedV};
use crate::state::{ClosureV, ControlV, KontV, RequestV, SignalV};
use crate::value::{ErrorKind, ValueV};

verus! {

/// The model of the evaluator.
pub ghost struct MachineV {
    pub frames: Seq<FrameV>,
    pub closures: Seq<ClosureV>,
    pub konts: Seq<KontV>,
    pub control: ControlV,
    pub depth: usize,
    pub limit: usize,
    /// The number of requests that the host has answered.
    pub asked: nat,
}

/// The frames after the first `n` parameters are bound, in order, to the
/// arguments at their places, in frame `at`.
pub open spec fn bind_params(
    frames: Seq<FrameV>,
    at: int,
    params: Seq<String>,
    args: Seq<ValueV>,
    n: nat,
) -> Seq<FrameV>
    decreases n,
{
    if n == 0 {
        frames
    } else {
        define(
            bind_params(frames, at, params, args, (n - 1) as nat),
            at,
            params[n - 1]@,
            args[n - 1],
        )
    }
}

/// Whether a handler whose filter evaluated to `filter` takes an error of
/// the kind `kind` that carries `value`: the filter equals the marker of
/// the kind, or the value that the error carries.
pub open spec fn filter_matches(filter: ValueV, kind: ErrorKind, value: ValueV) -> bool {
    filter.equals(ValueV::Error(kind)) || filter.equals(value)
}

/// Whether the value can be called.
pub open spec fn callable(v: ValueV) -> bool {
    v is Closure || v is Native
}

/// The frames after the name of an error kind is bound, in the root frame,
/// to the kind's marker, so that the filter of a handler can name it.
pub open spec fn declare_kind(frames: Seq<FrameV>, kind: ErrorKind) -> Seq<FrameV> {
    define(frames, 0, kind.name_spec(), ValueV::Error(kind))
}

/// The frames that a program starts with: the root frame alone, which
/// binds the name of every error kind.
pub open spec fn root_frames() -> Seq<FrameV> {
    let f0 = seq![FrameV { parent: None, vars: Map::empty() }];
    let f1 = declare_kind(f0, ErrorKind::TypeError);
    let f2 = declare_kind(f1, ErrorKind::NameError);
    let f3 = declare_kind(f2, ErrorKind::ArityError);
    let f4 = declare_kind(f3, ErrorKind::IndexError);
    let f5 = declare_kind(f4, ErrorKind::AttributeError);
    let f6 = declare_kind(f5, ErrorKind::ArithmeticError);
    let f7 = declare_kind(f6, ErrorKind::ImportError);
    let f8 = declare_kind(f7, ErrorKind::InvariantViolation);
    declare_kind(f8, ErrorKind::StackOverflow)
}

impl MachineV {
    /// The state in which the program `body` starts: nothing waits, and
    /// the body is about to run from its first statement in the root
    /// frame. Function calls may nest `limit` deep.
    pub open spec fn start(body: Vec<Box<Statement>>, limit: usize) -> MachineV {
        MachineV {
            frames: root_frames(),
            closures: Seq::empty(),
            konts: Seq::empty(),
            control: ControlV::Exec(body, 0, 0),
            depth: 0,
            limit,
            asked: 0,
        }
    }

    /// Whether the state is neither final nor waiting for the host, so
    /// that a step leads on.
    pub open spec fn running(self) -> bool {
        !self.finished() && !self.waiting()
    }

    /// Whether every frame index in the state names a frame.
    pub open spec fn wf(self) -> bool {
        &&& self.frames.len() >= 1
        &&& self.control.env_ok(self.frames.len())
        &&& forall|i: int|
            0 <= i < self.konts.len() ==> (#[trigger] self.konts[i]).env_ok(self.frames.len())
        &&& forall|i: int|
            0 <= i < self.closures.len() ==> (#[trigger] self.closures[i]).env < self.frames.len()
    }

    /// Whether the state is final, and the control's signal the result of
    /// the program: `Normal` where the program ran to its end, `Returning`
    /// where a `return` outside every function ended it, `Raised` where an
    /// error reached the top unhandled.
    pub open spec fn finished(self) -> bool {
        self.konts.len() == 0 && self.control is Deliver
    }

    /// Whether the state waits for the host.
    pub open spec fn waiting(self) -> bool {
        self.control is Waiting
    }

    /// The state with another control.
    pub open spec fn goto(self, control: ControlV) -> MachineV {
        MachineV { control, ..self }
    }

    /// The state with other frames.
    pub open spec fn with_frames(self, frames: Seq<FrameV>) -> MachineV {
        MachineV { frames, ..self }
    }

    /// The state with one more piece of waiting work.
    pub open spec fn push(self, k: KontV) -> MachineV {
        MachineV { konts: self.konts.push(k), ..self }
    }

    /// The state without the top piece of waiting work.
    pub open spec fn pop(self) -> MachineV {
        MachineV { konts: self.konts.drop_last(), ..self }
    }

    /// The state that delivers the signal.
    pub open spec fn deliver(self, sig: SignalV) -> MachineV {
        self.goto(ControlV::Deliver(sig))
    }

    /// The state that delivers the value of an expression.
    pub open spec fn give(self, v: ValueV) -> MachineV {
        self.deliver(SignalV::Normal(v))
    }

    /// The state that delivers the completion of a statement.
    pub open spec fn done(self) -> MachineV {
        self.give(ValueV::Null)
    }

    /// The state that raises an error of the kind, which carries the
    /// kind's marker.
    pub open spec fn raise(self, kind: ErrorKind) -> MachineV {
        self.deliver(SignalV::Raised(kind, ValueV::Error(kind)))
    }

    /// The state after an operator was applied.
    pub open spec fn apply(self, a: AppliedV) -> MachineV {
        match a {
            AppliedV::Value(v) => self.give(v),
            AppliedV::Raise(kind) => self.raise(kind),
            AppliedV::Float(op, left, right) => self.goto(
                ControlV::Waiting(RequestV::Float { op, left, right }),
            ),
        }
    }

    /// The index of the frame that is made next.
    pub open spec fn fresh(self) -> usize {
        self.frames.len() as usize
    }

    /// The state that runs `body` from its start in a new frame under
    /// `env`.
    pub open spec fn enter(self, body: Vec<Box<Statement>>, env: usize) -> MachineV {
        self.with_frames(extend(self.frames, env)).goto(ControlV::Exec(body, 0, self.fresh()))
    }

    /// The state with one more closure, which captures `env`; its number
    /// is the number of closures made before it.
    pub open spec fn close(
        self,
        params: Vec<String>,
        body: Vec<Box<Statement>>,
        env: usize,
    ) -> MachineV {
        MachineV { closures: self.closures.push(ClosureV { env, params, body }), ..self }
    }

    /// One step of evaluating the expression `e` in frame `env`.
    ///
    /// A literal is its value. A variable is what the nearest frame binds
    /// it to, and a `NameError` where none does. A function literal makes
    /// a closure that captures `env`. A parse-error node is an
    /// `InvariantViolation`. Every other expression first evaluates its
    /// leftmost part and leaves the rest as waiting work.
    pub open spec fn eval(self, e: Expr, env: usize) -> MachineV {
        match e {
            Expr::Boolean(b) => self.give(ValueV::Boolean(b)),
            Expr::Integer(n) => self.give(ValueV::Integer(n)),
            Expr::Float(bits) => self.give(ValueV::Float(bits)),
            Expr::Str(s) => self.give(ValueV::Str(s@)),
            Expr::Null => self.give(ValueV::Null),
            Expr::Error => self.raise(ErrorKind::InvariantViolation),
            Expr::Variable(name) => match lookup(self.frames, env as int, name@) {
                Some(v) => self.give(v),
                None => self.raise(ErrorKind::NameError),
            },
            Expr::List(items) => if items@.len() == 0 {
                self.give(ValueV::List(Seq::empty()))
            } else {
                self.push(KontV::Elems { items, done: Seq::empty(), env }).goto(
                    ControlV::Eval(*items@[0], env),
                )
            },
            Expr::BinaryOp(l, op, r) => self.push(KontV::BinLeft { op, right: *r, env }).goto(
                ControlV::Eval(*l, env),
            ),
            Expr::UnaryOp(op, x) => self.push(KontV::Unary { op }).goto(ControlV::Eval(*x, env)),
            Expr::FunctionCall(f, args) => self.push(KontV::Callee { args, env }).goto(
                ControlV::Eval(*f, env),
            ),
            Expr::ItemSubscription(t, i) => self.push(KontV::SubTarget { index: *i, env }).goto(
                ControlV::Eval(*t, env),
            ),
            Expr::AttrAccess(t, name) => self.push(KontV::Attr { name: name@ }).goto(
                ControlV::Eval(*t, env),
            ),
            Expr::Function(_, params, body) => self.close(*params, body, env).give(
                ValueV::Closure(self.closures.len() as usize),
            ),
        }
    }

    /// The state that imports the names from `index` on: it asks the host
    /// for the first of them, and is done where none is left.
    pub open spec fn import(self, names: Vec<Box<Name>>, index: usize, env: usize) -> MachineV {
        if index < names@.len() {
            self.push(
                KontV::Import { current: *names@[index as int], names, next: (index + 1) as usize, env },
            ).goto(ControlV::Waiting(RequestV::Import { name: names@[index as int].source() }))
        } else {
            self.done()
        }
    }

    /// One step of executing `body` from the statement at `index` on, in
    /// frame `env`.
    ///
    /// Past the last statement the body is done. Otherwise the rest of the
    /// body is left as waiting work and the statement at `index` is begun.
    /// A function declaration makes a closure that captures `env` and
    /// binds it in `env` itself, so that the function can call itself. The
    /// body of a `try` runs in a new frame.
    pub open spec fn exec(self, body: Vec<Box<Statement>>, index: usize, env: usize) -> MachineV {
        if index >= body@.len() {
            self.done()
        } else {
            let m = self.push(KontV::Block { body, next: (index + 1) as usize, env });
            match *body@[index as int] {
                Statement::Expression(e) => m.goto(ControlV::Eval(*e, env)),
                Statement::If(c, then, otherwise) => m.push(
                    KontV::Branch { then, otherwise, env },
                ).goto(ControlV::Eval(*c, env)),
                Statement::Function(name, params, b) => m.close(*params, b, env).with_frames(
                    define(
                        self.frames,
                        env as int,
                        name@,
                        ValueV::Closure(self.closures.len() as usize),
                    ),
                ).done(),
                Statement::Assignment(name, e) => m.push(KontV::Assign { name: name@, env }).goto(
                    ControlV::Eval(*e, env),
                ),
                Statement::Return(e) => m.push(KontV::Ret).goto(ControlV::Eval(*e, env)),
                Statement::While(c, b) => m.push(KontV::Loop { cond: *c, body: b, env }).goto(
                    ControlV::Eval(*c, env),
                ),
                Statement::For(var, it, b) => m.push(
                    KontV::ForStart { var: var@, body: b, env },
                ).goto(ControlV::Eval(*it, env)),
                Statement::Import(names) => m.import(names, 0, env),
                Statement::Try(b, catches) => m.push(KontV::Try { catches, env }).enter(b, env),
            }
        }
    }

    /// The state that goes on with a `for` at the element at `next`: the
    /// body runs in a new frame under `env` that binds `var` to the
    /// element; past the last element the statement is done.
    pub open spec fn iterate(
        self,
        var: Seq<char>,
        items: Seq<ValueV>,
        next: usize,
        body: Vec<Box<Statement>>,
        env: usize,
    ) -> MachineV {
        if next < items.len() {
            self.push(
                KontV::ForNext { var, list: items, next: (next + 1) as usize, body, env },
            ).with_frames(
                define(extend(self.frames, env), self.fresh() as int, var, items[next as int]),
            ).goto(ControlV::Exec(body, 0, self.fresh()))
        } else {
            self.done()
        }
    }

    /// The state that runs `handler` on an error that carries `value`: in
    /// a new frame under `env`, which binds the handler's variable, if it
    /// has one, to `value`.
    pub open spec fn run_handler(self, handler: Catch, env: usize, value: ValueV) -> MachineV {
        match handler {
            Catch::Catch(var, _, body) => {
                let frames = extend(self.frames, env);
                let bound = match var {
                    Some(n) => define(frames, self.fresh() as int, n@, value),
                    None => frames,
                };
                self.with_frames(bound).goto(ControlV::Exec(body, 0, self.fresh()))
            },
        }
    }

    /// The state that offers an error to the handlers from `index` on, in
    /// order. A handler without a filter takes it; the filter of another
    /// is evaluated in `env` first. Where no handler is left the error
    /// goes on to the enclosing scope.
    pub open spec fn handle(
        self,
        catches: Vec<Box<Catch>>,
        index: usize,
        env: usize,
        kind: ErrorKind,
        value: ValueV,
    ) -> MachineV {
        if index < catches@.len() {
            let handler = *catches@[index as int];
            match handler {
                Catch::Catch(_, Some(f), _) => self.push(
                    KontV::Filter {
                        handler,
                        catches,
                        next: (index + 1) as usize,
                        env,
                        kind,
                        value,
                    },
                ).goto(ControlV::Eval(*f, env)),
                Catch::Catch(_, None, _) => self.run_handler(handler, env, value),
            }
        } else {
            self.deliver(SignalV::Raised(kind, value))
        }
    }

    /// The state that calls `callee` on the arguments `args`.
    ///
    /// A native function is asked of the host. A closure runs its body in
    /// a new frame under the frame it captured (not under the caller's),
    /// which binds each parameter to its argument; the call is an
    /// `ArityError` where their numbers differ, and a `StackOverflow`
    /// where calls already nest as deep as the limit allows. A closure
    /// that this evaluator did not make is an `InvariantViolation`, and
    /// any other value a `TypeError`.
    pub open spec fn invoke(self, callee: ValueV, args: Seq<ValueV>) -> MachineV {
        match callee {
            ValueV::Native(handle) => self.goto(
                ControlV::Waiting(RequestV::Native { handle, args }),
            ),
            ValueV::Closure(id) => if id >= self.closures.len() {
                self.raise(ErrorKind::InvariantViolation)
            } else {
                let c = self.closures[id as int];
                if c.params@.len() != args.len() {
                    self.raise(ErrorKind::ArityError)
                } else if self.depth >= self.limit {
                    self.raise(ErrorKind::StackOverflow)
                } else {
                    MachineV {
                        frames: bind_params(
                            extend(self.frames, c.env),
                            self.fresh() as int,
                            c.params@,
                            args,
                            args.len(),
                        ),
                        konts: self.konts.push(KontV::Call),
                        control: ControlV::Exec(c.body, 0, self.fresh()),
                        depth: (self.depth + 1) as usize,
                        ..self
                    }
                }
            },
            _ => self.raise(ErrorKind::TypeError),
        }
    }

    /// The state with one function call less in progress.
    pub open spec fn leave_call(self) -> MachineV {
        MachineV { depth: if self.depth > 0 { (self.depth - 1) as usize } else { 0 }, ..self }
    }

    /// What the waiting work `k` makes of the value `v` that the work above
    /// it completed with. `k` is off the stack already.
    ///
    /// - The rest of a body goes on with its next statement, whatever the
    ///   value.
    /// - An assignment binds the value as [`assign`] says.
    /// - An `if` runs the branch that the truthiness of the value chooses,
    ///   in the frame of the statement itself; without an `else` a false
    ///   condition does nothing.
    /// - A `while` runs its body if the value, its condition, is true, in
    ///   a new frame for every round, and tests the condition again when
    ///   the body is done.
    /// - A `for` wants a list, and is a `TypeError` on anything else; its
    ///   body runs once for each element, in order.
    /// - A `return` turns the value into the signal that unwinds to the
    ///   enclosing call. A call whose body ends without one gives null.
    /// - A handler's filter decides, as [`filter_matches`] says, whether
    ///   the handler runs or the next one is tried.
    /// - The operands of a binary operator, the elements of a list, the
    ///   function and the arguments of a call, the target and the index of
    ///   a subscript are evaluated from left to right; when the last is
    ///   there the operation is carried out.
    /// - What is to be called must be a function before any argument is
    ///   evaluated: anything else is a `TypeError`.
    /// - The member of a value is asked of the host, and is what the host
    ///   answers.
    /// - An imported value is bound, in the frame of the statement itself,
    ///   under the name or the alias, and the next name is asked for.
    pub open spec fn receive(self, k: KontV, v: ValueV) -> MachineV {
        match k {
            KontV::Block { body, next, env } => self.goto(ControlV::Exec(body, next, env)),
            KontV::Assign { name, env } => self.with_frames(
                assign(self.frames, env as int, name, v),
            ).done(),
            KontV::Branch { then, otherwise, env } => if v.truthy() {
                self.goto(ControlV::Exec(then, 0, env))
            } else {
                match otherwise {
                    Some(b) => self.goto(ControlV::Exec(b, 0, env)),
                    None => self.done(),
                }
            },
            KontV::Loop { cond, body, env } => if v.truthy() {
                self.push(KontV::Again { cond, body, env }).enter(body, env)
            } else {
                self.done()
            },
            KontV::Again { cond, body, env } => self.push(KontV::Loop { cond, body, env }).goto(
                ControlV::Eval(cond, env),
            ),
            KontV::ForStart { var, body, env } => match v {
                ValueV::List(items) => self.iterate(var, items, 0, body, env),
                _ => self.raise(ErrorKind::TypeError),
            },
            KontV::ForNext { var, list: items, next, body, env } => self.iterate(
                var,
                items,
                next,
                body,
                env,
            ),
            KontV::Ret => self.deliver(SignalV::Returning(v)),
            KontV::Call => self.leave_call().done(),
            KontV::Try { .. } => self.done(),
            KontV::Filter { handler, catches, next, env, kind, value } => if filter_matches(
                v,
                kind,
                value,
            ) {
                self.run_handler(handler, env, value)
            } else {
                self.handle(catches, next, env, kind, value)
            },
            KontV::BinLeft { op, right, env } => self.push(KontV::BinRight { op, left: v }).goto(
                ControlV::Eval(right, env),
            ),
            KontV::BinRight { op, left } => self.apply(binary_result(op, left, v)),
            KontV::Unary { op } => self.apply(unary_result(op, v)),
            KontV::Elems { items, done, env } => if done.len() + 1 >= items@.len() {
                self.give(ValueV::List(done.push(v)))
            } else {
                self.push(KontV::Elems { items, done: done.push(v), env }).goto(
                    ControlV::Eval(*items@[done.len() as int + 1], env),
                )
            },
            KontV::Callee { args, env } => if !callable(v) {
                self.raise(ErrorKind::TypeError)
            } else if args@.len() == 0 {
                self.invoke(v, Seq::empty())
            } else {
                self.push(KontV::Args { callee: v, args, done: Seq::empty(), env }).goto(
                    ControlV::Eval(*args@[0], env),
                )
            },
            KontV::Args { callee, args, done, env } => if done.len() + 1 >= args@.len() {
                self.invoke(callee, done.push(v))
            } else {
                self.push(KontV::Args { callee, args, done: done.push(v), env }).goto(
                    ControlV::Eval(*args@[done.len() as int + 1], env),
                )
            },
            KontV::SubTarget { index, env } => self.push(KontV::SubIndex { target: v }).goto(
                ControlV::Eval(index, env),
            ),
            KontV::SubIndex { target } => self.apply(subscript_result(target, v)),
            KontV::Attr { name } => self.push(KontV::Member).goto(
                ControlV::Waiting(RequestV::Attribute { target: v, name }),
            ),
            KontV::Member => self.give(v),
            KontV::Import { current: name, names, next, env } => self.with_frames(
                define(self.frames, env as int, name.target(), v),
            ).import(names, next, env),
        }
    }

    /// What the waiting work `k` makes of the signal `sig`. `k` is off the
    /// stack already.
    ///
    /// A `return` passes everything but the boundary of a function call,
    /// whose value it becomes. An error passes everything but the boundary
    /// of a `try`, where it is offered to the handlers unless its kind is
    /// the one that cannot be caught; on its way it ends the calls it
    /// leaves. Where the host fails to resolve an import or a member, the
    /// error that it answers with becomes an `ImportError` or an
    /// `AttributeError`, and carries the value that the host gave it.
    pub open spec fn unwind(self, k: KontV, sig: SignalV) -> MachineV {
        match sig {
            SignalV::Normal(v) => self.receive(k, v),
            SignalV::Returning(v) => match k {
                KontV::Call => self.leave_call().give(v),
                _ => self,
            },
            SignalV::Raised(kind, v) => match k {
                KontV::Call => self.leave_call(),
                KontV::Try { catches, env } => if kind.catchable() {
                    self.handle(catches, 0, env, kind, v)
                } else {
                    self
                },
                KontV::Import { .. } => self.deliver(
                    SignalV::Raised(ErrorKind::ImportError, v),
                ),
                KontV::Member => self.deliver(SignalV::Raised(ErrorKind::AttributeError, v)),
                _ => self,
            },
        }
    }

    /// The state that follows this one.
    ///
    /// A final state and a state that waits for the host are followed by
    /// themselves.
    #[verifier::opaque]
    pub open spec fn step(self) -> MachineV {
        match self.control {
            ControlV::Eval(e, env) => self.eval(e, env),
            ControlV::Exec(body, index, env) => self.exec(body, index, env),
            ControlV::Deliver(sig) => if self.konts.len() == 0 {
                self
            } else {
                self.pop().unwind(self.konts.last(), sig)
            },
            ControlV::Waiting(_) => self,
        }
    }

    /// The state after `n` steps.
    pub open spec fn steps(self, n: nat) -> MachineV
        decreases n,
    {
        if n == 0 {
            self
        } else {
            self.step().steps((n - 1) as nat)
        }
    }

    /// A step after `n` steps is `n + 1` steps.
    pub proof fn lemma_steps_extend(self, n: nat)
        ensures
            self.steps(n).step() == self.steps(n + 1),
        decreases n,
    {
        assert(self.steps(n + 1) == self.step().steps(n));
        if n > 0 {
            self.step().lemma_steps_extend((n - 1) as nat);
            assert(self.steps(n) == self.step().steps((n - 1) as nat));
        } else {
            assert(self.step().steps(0) == self.step());
        }
    }

    /// The state after the host answered: the answer is delivered to the
    /// work that waits for it. A state that does not wait for the host is
    /// left as it is.
    pub open spec fn resume(self, sig: SignalV) -> MachineV {
        if self.waiting() {
            MachineV { control: ControlV::Deliver(sig), asked: self.asked + 1, ..self }
        } else {
            self
        }
    }

    /// One move of the evaluator together with its host: where the
    /// evaluator waits, the host answers; where it does not, it makes a
    /// step. `host` gives the answer of the host to a request, by the
    /// number of requests that it has answered before.
    pub open spec fn advance(self, host: spec_fn(nat, RequestV) -> SignalV) -> MachineV {
        match self.control {
            ControlV::Waiting(req) => self.resume(host(self.asked, req)),
            _ => self.step(),
        }
    }

    /// The state after `n` moves of the evaluator together with its host.
    pub open spec fn advances(self, host: spec_fn(nat, RequestV) -> SignalV, n: nat) -> MachineV
        decreases n,
    {
        if n == 0 {
            self
        } else {
            self.advance(host).advances(host, (n - 1) as nat)
        }
    }
}

} // verus!
