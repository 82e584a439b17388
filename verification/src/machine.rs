//! The evaluator: a machine that walks a program one transition at a
//! time and refines the model of [`crate::semantics`].

use vstd::prelude::*;
use crate::ast::{Catch, Expr, Module, Name, Statement};
use crate::env::{assign, define, extend, lemma_assign_len, lookup, Env};
use crate::laws::sound;
use crate::ops::{binary, subscript, unary, Applied};
use crate::semantics::{bind_params, declare_kind, MachineV};
use crate::state::{
    closure_views,
    kont_views,
    Closure,
    Control,
    ControlV,
    Kont,
    Reply,
    Request,
    Signal,
    Status,
};
use crate::value::{
    lemma_value_views_index,
    lemma_value_views_push,
    value_views,
    ErrorKind,
    Value,
};

verus! {

/// The evaluator of one program.
pub struct Machine<'a> {
    env: Env,
    closures: Vec<Closure<'a>>,
    konts: Vec<Kont<'a>>,
    control: Control<'a>,
    depth: usize,
    limit: usize,
    asked: Ghost<nat>,
}

/// The expression at `i`.
fn nth_expr<'a>(items: &'a Vec<Box<Expr>>, i: usize) -> (r: &'a Expr)
    requires
        i < items@.len(),
    ensures
        *r == *items@[i as int],
{
    let b: &'a Box<Expr> = &items[i];
    &**b
}

/// The statement at `i`.
fn nth_statement<'a>(body: &'a Vec<Box<Statement>>, i: usize) -> (r: &'a Statement)
    requires
        i < body@.len(),
    ensures
        *r == *body@[i as int],
{
    let b: &'a Box<Statement> = &body[i];
    &**b
}

/// The handler at `i`.
fn nth_catch<'a>(catches: &'a Vec<Box<Catch>>, i: usize) -> (r: &'a Catch)
    requires
        i < catches@.len(),
    ensures
        *r == *catches@[i as int],
{
    let b: &'a Box<Catch> = &catches[i];
    &**b
}

/// The import name at `i`.
fn nth_name<'a>(names: &'a Vec<Box<Name>>, i: usize) -> (r: &'a Name)
    requires
        i < names@.len(),
    ensures
        *r == *names@[i as int],
{
    let b: &'a Box<Name> = &names[i];
    &**b
}

impl<'a> View for Machine<'a> {
    type V = MachineV;

    closed spec fn view(&self) -> MachineV {
        MachineV {
            frames: self.env@,
            closures: closure_views(self.closures@),
            konts: kont_views(self.konts@),
            control: self.control@,
            depth: self.depth,
            limit: self.limit,
            asked: self.asked@,
        }
    }
}

impl<'a> Machine<'a> {
    /// Whether the machine is sound: its environment is, and every frame
    /// index in its state names a frame.
    pub closed spec fn wf(&self) -> bool {
        self.env.wf() && self@.wf()
    }

    /// A sound machine has a sound model, of which the laws speak.
    pub proof fn lemma_wf_model(&self)
        requires
            self.wf(),
        ensures
            sound(self@),
    {
        self.env.lemma_wf_frames();
    }

    fn push_kont(&mut self, k: Kont<'a>)
        requires
            old(self).wf(),
            k@.env_ok(old(self)@.frames.len()),
        ensures
            final(self).wf(),
            final(self)@ == old(self)@.push(k@),
    {
        self.konts.push(k);
        assert(kont_views(self.konts@) =~= kont_views(old(self).konts@).push(k@));
    }

    fn goto(&mut self, control: Control<'a>)
        requires
            old(self).wf(),
            control@.env_ok(old(self)@.frames.len()),
        ensures
            final(self).wf(),
            final(self)@ == old(self)@.goto(control@),
    {
        self.control = control;
    }

    fn deliver(&mut self, sig: Signal)
        requires
            old(self).wf(),
        ensures
            final(self).wf(),
            final(self)@ == old(self)@.deliver(sig@),
    {
        self.goto(Control::Deliver(sig));
    }

    fn give(&mut self, v: Value)
        requires
            old(self).wf(),
        ensures
            final(self).wf(),
            final(self)@ == old(self)@.give(v@),
    {
        self.goto(Control::Deliver(Signal::Normal(v)));
    }

    fn done(&mut self)
        requires
            old(self).wf(),
        ensures
            final(self).wf(),
            final(self)@ == old(self)@.done(),
    {
        self.give(Value::Null);
    }

    fn raise(&mut self, kind: ErrorKind)
        requires
            old(self).wf(),
        ensures
            final(self).wf(),
            final(self)@ == old(self)@.raise(kind),
    {
        self.goto(Control::Deliver(Signal::Raised(kind, Value::Error(kind))));
    }

    fn apply(&mut self, a: Applied)
        requires
            old(self).wf(),
        ensures
            final(self).wf(),
            final(self)@ == old(self)@.apply(a@),
    {
        match a {
            Applied::Value(v) => self.give(v),
            Applied::Raise(kind) => self.raise(kind),
            Applied::Float(op, left, right) => self.goto(
                Control::Waiting(Request::Float { op, left, right }),
            ),
        }
    }

    /// Makes a new frame under `env`.
    fn grow(&mut self, env: usize) -> (child: usize)
        requires
            old(self).wf(),
            env < old(self)@.frames.len(),
        ensures
            final(self).wf(),
            final(self)@ == old(self)@.with_frames(extend(old(self)@.frames, env)),
            child == old(self)@.fresh(),
            child < final(self)@.frames.len(),
    {
        self.env.push(env)
    }

    /// Binds `name` to `value` in frame `at` itself.
    fn bind(&mut self, at: usize, name: &String, value: Value)
        requires
            old(self).wf(),
            at < old(self)@.frames.len(),
        ensures
            final(self).wf(),
            final(self)@ == old(self)@.with_frames(
                define(old(self)@.frames, at as int, name@, value@),
            ),
    {
        self.env.define(at, name, value);
    }

    /// Assigns `value` to `name` for code running in frame `at`.
    fn store(&mut self, at: usize, name: &String, value: Value)
        requires
            old(self).wf(),
            at < old(self)@.frames.len(),
        ensures
            final(self).wf(),
            final(self)@ == old(self)@.with_frames(
                assign(old(self)@.frames, at as int, name@, value@),
            ),
    {
        let ghost frames = self@.frames;
        proof {
            lemma_assign_len(frames, at as int, name@, value@);
        }
        self.env.assign(at, name, value);
    }

    fn enter(&mut self, body: &'a Vec<Box<Statement>>, env: usize)
        requires
            old(self).wf(),
            env < old(self)@.frames.len(),
        ensures
            final(self).wf(),
            final(self)@ == old(self)@.enter(*body, env),
    {
        let child = self.grow(env);
        self.goto(Control::Exec(body, 0, child));
    }

    fn close(&mut self, params: &'a Vec<String>, body: &'a Vec<Box<Statement>>, env: usize) -> (id:
        usize)
        requires
            old(self).wf(),
            env < old(self)@.frames.len(),
        ensures
            final(self).wf(),
            final(self)@ == old(self)@.close(*params, *body, env),
            id == old(self)@.closures.len(),
    {
        let id = self.closures.len();
        let c = Closure { env, params, body };
        self.closures.push(c);
        assert(closure_views(self.closures@) =~= closure_views(old(self).closures@).push(c@));
        id
    }

    fn eval(&mut self, e: &'a Expr, env: usize)
        requires
            old(self).wf(),
            env < old(self)@.frames.len(),
        ensures
            final(self).wf(),
            final(self)@ == old(self)@.eval(*e, env),
    {
        match e {
            Expr::Boolean(b) => self.give(Value::Boolean(*b)),
            Expr::Integer(n) => self.give(Value::Integer(*n)),
            Expr::Float(bits) => self.give(Value::Float(*bits)),
            Expr::Str(s) => self.give(Value::Str(s.clone())),
            Expr::Null => self.give(Value::Null),
            Expr::Error => self.raise(ErrorKind::InvariantViolation),
            Expr::Variable(name) => match self.env.get(env, name) {
                Some(v) => self.give(v),
                None => self.raise(ErrorKind::NameError),
            },
            Expr::List(items) => {
                if items.len() == 0 {
                    let empty: Vec<Value> = Vec::new();
                    assert(value_views(empty@) =~= Seq::empty());
                    self.give(Value::List(empty));
                } else {
                    let done: Vec<Value> = Vec::new();
                    assert(value_views(done@) =~= Seq::empty());
                    self.push_kont(Kont::Elems { items, done, env });
                    self.goto(Control::Eval(nth_expr(items, 0), env));
                }
            },
            Expr::BinaryOp(l, op, r) => {
                self.push_kont(Kont::BinLeft { op: *op, right: &**r, env });
                self.goto(Control::Eval(&**l, env));
            },
            Expr::UnaryOp(op, x) => {
                self.push_kont(Kont::Unary { op: *op });
                self.goto(Control::Eval(&**x, env));
            },
            Expr::FunctionCall(f, args) => {
                self.push_kont(Kont::Callee { args, env });
                self.goto(Control::Eval(&**f, env));
            },
            Expr::ItemSubscription(t, i) => {
                self.push_kont(Kont::SubTarget { index: &**i, env });
                self.goto(Control::Eval(&**t, env));
            },
            Expr::AttrAccess(t, name) => {
                self.push_kont(Kont::Attr { name });
                self.goto(Control::Eval(&**t, env));
            },
            Expr::Function(_, params, body) => {
                let id = self.close(&**params, body, env);
                self.give(Value::Closure(id));
            },
        }
    }

    fn import(&mut self, names: &'a Vec<Box<Name>>, index: usize, env: usize)
        requires
            old(self).wf(),
            env < old(self)@.frames.len(),
        ensures
            final(self).wf(),
            final(self)@ == old(self)@.import(*names, index, env),
    {
        if index < names.len() {
            let name = nth_name(names, index);
            self.push_kont(Kont::Import { current: name, names, next: index + 1, env });
            self.goto(Control::Waiting(Request::Import { name: name.source_name().clone() }));
        } else {
            self.done();
        }
    }

    fn exec(&mut self, body: &'a Vec<Box<Statement>>, index: usize, env: usize)
        requires
            old(self).wf(),
            env < old(self)@.frames.len(),
        ensures
            final(self).wf(),
            final(self)@ == old(self)@.exec(*body, index, env),
    {
        if index >= body.len() {
            self.done();
            return ;
        }
        self.push_kont(Kont::Block { body, next: index + 1, env });
        match nth_statement(body, index) {
            Statement::Expression(e) => self.goto(Control::Eval(&**e, env)),
            Statement::If(c, then, otherwise) => {
                self.push_kont(Kont::Branch { then, otherwise, env });
                self.goto(Control::Eval(&**c, env));
            },
            Statement::Function(name, params, b) => {
                let id = self.close(&**params, b, env);
                self.bind(env, name, Value::Closure(id));
                self.done();
            },
            Statement::Assignment(name, e) => {
                self.push_kont(Kont::Assign { name, env });
                self.goto(Control::Eval(&**e, env));
            },
            Statement::Return(e) => {
                self.push_kont(Kont::Ret);
                self.goto(Control::Eval(&**e, env));
            },
            Statement::While(c, b) => {
                self.push_kont(Kont::Loop { cond: &**c, body: b, env });
                self.goto(Control::Eval(&**c, env));
            },
            Statement::For(var, it, b) => {
                self.push_kont(Kont::ForStart { var, body: b, env });
                self.goto(Control::Eval(&**it, env));
            },
            Statement::Import(names) => self.import(names, 0, env),
            Statement::Try(b, catches) => {
                self.push_kont(Kont::Try { catches, env });
                self.enter(b, env);
            },
        }
    }

    fn iterate(
        &mut self,
        var: &'a String,
        items: Vec<Value>,
        next: usize,
        body: &'a Vec<Box<Statement>>,
        env: usize,
    )
        requires
            old(self).wf(),
            env < old(self)@.frames.len(),
        ensures
            final(self).wf(),
            final(self)@ == old(self)@.iterate(var@, value_views(items@), next, *body, env),
    {
        proof {
            lemma_value_views_index(items@);
        }
        if next < items.len() {
            let item = items[next].dup();
            self.push_kont(Kont::ForNext { var, list: items, next: next + 1, body, env });
            let child = self.grow(env);
            self.bind(child, var, item);
            self.goto(Control::Exec(body, 0, child));
        } else {
            self.done();
        }
    }

    fn run_handler(&mut self, handler: &'a Catch, env: usize, value: Value)
        requires
            old(self).wf(),
            env < old(self)@.frames.len(),
        ensures
            final(self).wf(),
            final(self)@ == old(self)@.run_handler(*handler, env, value@),
    {
        match handler {
            Catch::Catch(var, _, body) => {
                let child = self.grow(env);
                match var {
                    Some(n) => self.bind(child, n, value),
                    None => {},
                }
                self.goto(Control::Exec(body, 0, child));
            },
        }
    }

    fn handle(
        &mut self,
        catches: &'a Vec<Box<Catch>>,
        index: usize,
        env: usize,
        kind: ErrorKind,
        value: Value,
    )
        requires
            old(self).wf(),
            env < old(self)@.frames.len(),
        ensures
            final(self).wf(),
            final(self)@ == old(self)@.handle(*catches, index, env, kind, value@),
    {
        if index < catches.len() {
            let handler = nth_catch(catches, index);
            match handler {
                Catch::Catch(_, Some(f), _) => {
                    self.push_kont(
                        Kont::Filter { handler, catches, next: index + 1, env, kind, value },
                    );
                    self.goto(Control::Eval(&**f, env));
                },
                Catch::Catch(_, None, _) => self.run_handler(handler, env, value),
            }
        } else {
            self.deliver(Signal::Raised(kind, value));
        }
    }

    fn invoke(&mut self, callee: Value, args: Vec<Value>)
        requires
            old(self).wf(),
        ensures
            final(self).wf(),
            final(self)@ == old(self)@.invoke(callee@, value_views(args@)),
    {
        proof {
            lemma_value_views_index(args@);
        }
        match callee {
            Value::Native(handle) => self.goto(Control::Waiting(Request::Native { handle, args })),
            Value::Closure(id) => {
                if id >= self.closures.len() {
                    self.raise(ErrorKind::InvariantViolation);
                    return ;
                }
                let params: &'a Vec<String> = self.closures[id].params;
                let body: &'a Vec<Box<Statement>> = self.closures[id].body;
                let captured: usize = self.closures[id].env;
                assert(self@.closures[id as int] == self.closures@[id as int]@);
                if params.len() != args.len() {
                    self.raise(ErrorKind::ArityError);
                } else if self.depth >= self.limit {
                    self.raise(ErrorKind::StackOverflow);
                } else {
                    let ghost before = self@;
                    let ghost base = extend(before.frames, captured);
                    let child = self.grow(captured);
                    let mut i: usize = 0;
                    while i < args.len()
                        invariant
                            self.wf(),
                            i <= args@.len(),
                            params@.len() == args@.len(),
                            child < self@.frames.len(),
                            self@ == before.with_frames(
                                bind_params(
                                    base,
                                    child as int,
                                    params@,
                                    value_views(args@),
                                    i as nat,
                                ),
                            ),
                        decreases args.len() - i,
                    {
                        proof {
                            lemma_value_views_index(args@);
                        }
                        self.bind(child, &params[i], args[i].dup());
                        i += 1;
                    }
                    let ghost bound = self@;
                    self.depth = self.depth + 1;
                    assert(self@ == MachineV { depth: (bound.depth + 1) as usize, ..bound });
                    self.push_kont(Kont::Call);
                    self.goto(Control::Exec(body, 0, child));
                }
            },
            _ => self.raise(ErrorKind::TypeError),
        }
    }

    fn leave_call(&mut self)
        requires
            old(self).wf(),
        ensures
            final(self).wf(),
            final(self)@ == old(self)@.leave_call(),
    {
        if self.depth > 0 {
            self.depth = self.depth - 1;
        }
    }

    fn receive(&mut self, k: Kont<'a>, v: Value)
        requires
            old(self).wf(),
            k@.env_ok(old(self)@.frames.len()),
        ensures
            final(self).wf(),
            final(self)@ == old(self)@.receive(k@, v@),
    {
        match k {
            Kont::Block { body, next, env } => self.goto(Control::Exec(body, next, env)),
            Kont::Assign { name, env } => {
                self.store(env, name, v);
                self.done();
            },
            Kont::Branch { then, otherwise, env } => {
                if v.is_truthy() {
                    self.goto(Control::Exec(then, 0, env));
                } else {
                    match otherwise {
                        Some(b) => self.goto(Control::Exec(b, 0, env)),
                        None => self.done(),
                    }
                }
            },
            Kont::Loop { cond, body, env } => {
                if v.is_truthy() {
                    self.push_kont(Kont::Again { cond, body, env });
                    self.enter(body, env);
                } else {
                    self.done();
                }
            },
            Kont::Again { cond, body, env } => {
                self.push_kont(Kont::Loop { cond, body, env });
                self.goto(Control::Eval(cond, env));
            },
            Kont::ForStart { var, body, env } => match v {
                Value::List(items) => self.iterate(var, items, 0, body, env),
                _ => self.raise(ErrorKind::TypeError),
            },
            Kont::ForNext { var, list: items, next, body, env } => self.iterate(
                var,
                items,
                next,
                body,
                env,
            ),
            Kont::Ret => self.deliver(Signal::Returning(v)),
            Kont::Call => {
                self.leave_call();
                self.done();
            },
            Kont::Try { .. } => self.done(),
            Kont::Filter { handler, catches, next, env, kind, value } => {
                if v.equals(&Value::Error(kind)) || v.equals(&value) {
                    self.run_handler(handler, env, value);
                } else {
                    self.handle(catches, next, env, kind, value);
                }
            },
            Kont::BinLeft { op, right, env } => {
                self.push_kont(Kont::BinRight { op, left: v });
                self.goto(Control::Eval(right, env));
            },
            Kont::BinRight { op, left } => self.apply(binary(op, &left, &v)),
            Kont::Unary { op } => self.apply(unary(op, &v)),
            Kont::Elems { items, done, env } => {
                let mut done = done;
                proof {
                    lemma_value_views_index(done@);
                    lemma_value_views_push(done@, v);
                }
                done.push(v);
                if done.len() >= items.len() {
                    self.give(Value::List(done));
                } else {
                    let e = nth_expr(items, done.len());
                    self.push_kont(Kont::Elems { items, done, env });
                    self.goto(Control::Eval(e, env));
                }
            },
            Kont::Callee { args, env } => {
                let is_callable = match v {
                    Value::Closure(_) => true,
                    Value::Native(_) => true,
                    _ => false,
                };
                if !is_callable {
                    self.raise(ErrorKind::TypeError);
                } else if args.len() == 0 {
                    let none: Vec<Value> = Vec::new();
                    assert(value_views(none@) =~= Seq::empty());
                    self.invoke(v, none);
                } else {
                    let done: Vec<Value> = Vec::new();
                    assert(value_views(done@) =~= Seq::empty());
                    self.push_kont(Kont::Args { callee: v, args, done, env });
                    self.goto(Control::Eval(nth_expr(args, 0), env));
                }
            },
            Kont::Args { callee, args, done, env } => {
                let mut done = done;
                proof {
                    lemma_value_views_index(done@);
                    lemma_value_views_push(done@, v);
                }
                done.push(v);
                if done.len() >= args.len() {
                    self.invoke(callee, done);
                } else {
                    let e = nth_expr(args, done.len());
                    self.push_kont(Kont::Args { callee, args, done, env });
                    self.goto(Control::Eval(e, env));
                }
            },
            Kont::SubTarget { index, env } => {
                self.push_kont(Kont::SubIndex { target: v });
                self.goto(Control::Eval(index, env));
            },
            Kont::SubIndex { target } => self.apply(subscript(&target, &v)),
            Kont::Attr { name } => {
                self.push_kont(Kont::Member);
                self.goto(Control::Waiting(Request::Attribute { target: v, name: name.clone() }));
            },
            Kont::Member => self.give(v),
            Kont::Import { current: name, names, next, env } => {
                self.bind(env, name.target_name(), v);
                self.import(names, next, env);
            },
        }
    }

    fn unwind(&mut self, k: Kont<'a>, sig: Signal)
        requires
            old(self).wf(),
            k@.env_ok(old(self)@.frames.len()),
        ensures
            final(self).wf(),
            final(self)@ == old(self)@.deliver(sig@).unwind(k@, sig@),
    {
        match sig {
            Signal::Normal(v) => self.receive(k, v),
            Signal::Returning(v) => match k {
                Kont::Call => {
                    self.leave_call();
                    self.give(v);
                },
                _ => self.deliver(Signal::Returning(v)),
            },
            Signal::Raised(kind, v) => match k {
                Kont::Call => {
                    self.leave_call();
                    self.deliver(Signal::Raised(kind, v));
                },
                Kont::Try { catches, env } => {
                    if kind.is_catchable() {
                        self.handle(catches, 0, env, kind, v);
                    } else {
                        self.deliver(Signal::Raised(kind, v));
                    }
                },
                Kont::Import { .. } => self.deliver(Signal::Raised(ErrorKind::ImportError, v)),
                Kont::Member => self.deliver(Signal::Raised(ErrorKind::AttributeError, v)),
                _ => self.deliver(Signal::Raised(kind, v)),
            },
        }
    }

    /// Takes the signal that the machine delivers out of it.
    fn take_signal(&mut self) -> (sig: Signal)
        requires
            old(self).wf(),
            old(self)@.control is Deliver,
        ensures
            final(self).wf(),
            old(self)@.control == ControlV::Deliver(sig@),
            final(self)@ == old(self)@.done(),
    {
        let mut control = Control::Deliver(Signal::Normal(Value::Null));
        core::mem::swap(&mut self.control, &mut control);
        match control {
            Control::Deliver(sig) => sig,
            _ => Signal::Normal(Value::Null),
        }
    }

    /// Takes the top piece of waiting work off the stack.
    fn pop_kont(&mut self) -> (k: Kont<'a>)
        requires
            old(self).wf(),
            old(self)@.konts.len() > 0,
        ensures
            final(self).wf(),
            k@ == old(self)@.konts.last(),
            k@.env_ok(old(self)@.frames.len()),
            final(self)@ == old(self)@.pop(),
    {
        let popped = self.konts.pop();
        assert(kont_views(self.konts@) =~= kont_views(old(self).konts@).drop_last());
        assert(old(self)@.konts.last() == old(self).konts@.last()@);
        match popped {
            Some(k) => k,
            None => Kont::Ret,
        }
    }

    /// Makes one transition.
    pub fn step(&mut self)
        requires
            old(self).wf(),
        ensures
            final(self).wf(),
            final(self)@ == old(self)@.step(),
    {
        proof {
            reveal(MachineV::step);
        }
        match &self.control {
            Control::Eval(e, env) => {
                let e: &'a Expr = *e;
                let env: usize = *env;
                self.eval(e, env);
            },
            Control::Exec(body, index, env) => {
                let body: &'a Vec<Box<Statement>> = *body;
                let index: usize = *index;
                let env: usize = *env;
                self.exec(body, index, env);
            },
            Control::Deliver(_) => {
                if self.konts.len() > 0 {
                    let sig = self.take_signal();
                    let k = self.pop_kont();
                    self.unwind(k, sig);
                }
            },
            Control::Waiting(_) => {},
        }
    }

    /// A machine that is about to run `module` from its first statement.
    /// Function calls may nest `limit` deep.
    pub fn new(module: &'a Module, limit: usize) -> (r: Machine<'a>)
        ensures
            r.wf(),
            r@ == MachineV::start(module.body, limit),
    {
        let mut env = Env::new();
        declare(&mut env, ErrorKind::TypeError);
        declare(&mut env, ErrorKind::NameError);
        declare(&mut env, ErrorKind::ArityError);
        declare(&mut env, ErrorKind::IndexError);
        declare(&mut env, ErrorKind::AttributeError);
        declare(&mut env, ErrorKind::ArithmeticError);
        declare(&mut env, ErrorKind::ImportError);
        declare(&mut env, ErrorKind::InvariantViolation);
        declare(&mut env, ErrorKind::StackOverflow);
        let r = Machine {
            env,
            closures: Vec::new(),
            konts: Vec::new(),
            control: Control::Exec(&module.body, 0, 0),
            depth: 0,
            limit,
            asked: Ghost(0),
        };
        assert(closure_views(r.closures@) =~= Seq::empty());
        assert(kont_views(r.konts@) =~= Seq::empty());
        r
    }

    /// Binds `name` to `value` in the root frame, which is how the host
    /// makes its native functions known to the program.
    pub fn define_global(&mut self, name: &str, value: Value)
        requires
            old(self).wf(),
        ensures
            final(self).wf(),
            final(self)@ == old(self)@.with_frames(define(old(self)@.frames, 0, name@, value@)),
    {
        let owned = String::from_str(name);
        self.bind(0, &owned, value);
    }

    /// Reads `name` in the root frame.
    pub fn global(&self, name: &str) -> (r: Option<Value>)
        requires
            self.wf(),
        ensures
            match r {
                Some(v) => lookup(self@.frames, 0, name@) == Some(v@),
                None => lookup(self@.frames, 0, name@).is_none(),
            },
    {
        let owned = String::from_str(name);
        self.env.get(0, &owned)
    }

    /// The number of function calls in progress.
    pub fn depth(&self) -> (r: usize)
        ensures
            r == self@.depth,
    {
        self.depth
    }

    /// Where the machine stands.
    pub fn status(&self) -> (r: Status)
        ensures
            (r == Status::Finished) == self@.finished(),
            (r == Status::Waiting) == self@.waiting(),
            (r == Status::Running) == self@.running(),
    {
        match &self.control {
            Control::Waiting(_) => Status::Waiting,
            Control::Deliver(_) => if self.konts.len() == 0 {
                Status::Finished
            } else {
                Status::Running
            },
            _ => Status::Running,
        }
    }

    /// What the machine asks of the host, if it waits for the host.
    pub fn request(&self) -> (r: Option<&Request>)
        ensures
            match r {
                Some(req) => self@.control == ControlV::Waiting(req@),
                None => !self@.waiting(),
            },
    {
        match &self.control {
            Control::Waiting(req) => Some(req),
            _ => None,
        }
    }

    /// How the program ended, if it has ended.
    pub fn result(&self) -> (r: Option<&Signal>)
        ensures
            match r {
                Some(sig) => self@.finished() && self@.control == ControlV::Deliver(sig@),
                None => !self@.finished(),
            },
    {
        match &self.control {
            Control::Deliver(sig) => if self.konts.len() == 0 {
                Some(sig)
            } else {
                None
            },
            _ => None,
        }
    }

    /// Hands the host's answer to the work that waits for it, and says
    /// whether the machine was waiting. A machine that was not is left as
    /// it is.
    pub fn resume(&mut self, reply: Reply) -> (r: bool)
        requires
            old(self).wf(),
        ensures
            final(self).wf(),
            r == old(self)@.waiting(),
            final(self)@ == old(self)@.resume(reply.signal()),
    {
        match &self.control {
            Control::Waiting(_) => {
                match reply {
                    Reply::Value(v) => self.deliver(Signal::Normal(v)),
                    Reply::Raise(kind, v) => self.deliver(Signal::Raised(kind, v)),
                }
                self.asked = Ghost((self.asked@ + 1) as nat);
                true
            },
            _ => false,
        }
    }

    /// Makes transitions until the program has ended, the host is asked
    /// for something, or `budget` transitions are made, and returns their
    /// number. [`crate::refinement::law_run_ends`] says when this ends a
    /// program with what the program comes to.
    pub fn run(&mut self, budget: u64) -> (used: u64)
        requires
            old(self).wf(),
        ensures
            final(self).wf(),
            used <= budget,
            final(self)@ == old(self)@.steps(used as nat),
            forall|k: nat| k < used ==> (#[trigger] old(self)@.steps(k)).running(),
            used < budget ==> !final(self)@.running(),
    {
        let mut used: u64 = 0;
        while used < budget
            invariant
                self.wf(),
                used <= budget,
                self@ == old(self)@.steps(used as nat),
                forall|k: nat| k < used ==> (#[trigger] old(self)@.steps(k)).running(),
            decreases budget - used,
        {
            match self.status() {
                Status::Running => {},
                _ => {
                    return used;
                },
            }
            proof {
                old(self)@.lemma_steps_extend(used as nat);
            }
            self.step();
            used = used + 1;
        }
        used
    }
}

/// Binds the name of an error kind, in the root frame, to the kind's
/// marker.
fn declare(env: &mut Env, kind: ErrorKind)
    requires
        old(env).wf(),
        old(env)@.len() >= 1,
    ensures
        final(env).wf(),
        final(env)@ == declare_kind(old(env)@, kind),
        final(env)@.len() == old(env)@.len(),
{
    let name = String::from_str(kind.name());
    env.define(0, &name, Value::Error(kind));
}

} // verus!
