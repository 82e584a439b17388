//! The evaluator arrives at what the natural semantics states.
//!
//! For every piece of program that [`crate::natural`] gives a meaning,
//! the evaluator, set to that piece with whatever work waiting below it,
//! and answered by the host of the meaning, delivers the signal of the
//! meaning after the moves of the meaning, in the world of the meaning,
//! and with the waiting work untouched.

use vstd::prelude::*;
use crate::ast::{Catch, Expr, Statement};
use crate::env::{define, extend};
use crate::natural::{
    resolved,
    applied,
    exec_imports,
    call_result,
    eval_expr,
    eval_items,
    exec_block,
    exec_catches,
    exec_for,
    exec_stmt,
    exec_while,
    raised,
    Entry,
    Run,
    World,
};
use crate::ops::{binary_result, subscript_result, unary_result, AppliedV};
use crate::semantics::{callable, filter_matches, MachineV};
use crate::state::{ControlV, KontV, RequestV, SignalV};
use crate::value::{ErrorKind, ValueV};

verus! {

/// The world of a state.
pub open spec fn world_of(m: MachineV) -> World {
    World {
        frames: m.frames,
        closures: m.closures,
        depth: m.depth,
        limit: m.limit,
        asked: m.asked,
    }
}

/// The state `m` with the world `w` in place of its own.
pub open spec fn with_world(m: MachineV, w: World) -> MachineV {
    MachineV {
        frames: w.frames,
        closures: w.closures,
        depth: w.depth,
        limit: w.limit,
        asked: w.asked,
        ..m
    }
}

/// Whether the evaluator arrives at the run `r` from `start`: after the
/// moves of `r` it delivers the signal of `r` in the world of `r`, and is
/// otherwise as `m`. Where there is no run, nothing is claimed.
pub open spec fn arrives(
    host: spec_fn(nat, RequestV) -> SignalV,
    start: MachineV,
    m: MachineV,
    r: Option<Run>,
) -> bool {
    match r {
        Some(r) => start.advances(host, r.steps) == with_world(m, r.world).deliver(r.signal),
        None => true,
    }
}

/// Whether the evaluator, set to evaluate `e` in the state `m`, arrives at
/// what `e` comes to.
pub open spec fn expr_law(
    m: MachineV,
    env: usize,
    e: Expr,
    host: spec_fn(nat, RequestV) -> SignalV, fuel: nat,
) -> bool {
    arrives(host, m.goto(ControlV::Eval(e, env)), m, eval_expr(world_of(m), env, e, host, fuel))
}

/// Whether the evaluator, set to execute `body` from `index` on in the
/// state `m`, arrives at what the statements come to.
pub open spec fn block_law(
    m: MachineV,
    body: Vec<Box<Statement>>,
    index: nat,
    env: usize,
    host: spec_fn(nat, RequestV) -> SignalV,
    fuel: nat,
) -> bool {
    arrives(
        host,
        m.goto(ControlV::Exec(body, index as usize, env)),
        m,
        exec_block(world_of(m), body, index, env, host, fuel),
    )
}

/// `a` moves and then `b` moves are `a + b` moves.
pub proof fn lemma_advances_add(
    m: MachineV,
    host: spec_fn(nat, RequestV) -> SignalV,
    a: nat,
    b: nat,
)
    ensures
        m.advances(host, a).advances(host, b) == m.advances(host, a + b),
    decreases a,
{
    if a > 0 {
        lemma_advances_add(m.advance(host), host, (a - 1) as nat, b);
        assert(m.advances(host, a) == m.advance(host).advances(host, (a - 1) as nat));
        assert(m.advances(host, a + b) == m.advance(host).advances(host, (a + b - 1) as nat));
    }
}

/// Where `a` moves lead from `m` to `mid` and `b` moves from `mid` to
/// `end`, `a + b` moves lead from `m` to `end`.
proof fn lemma_then(
    host: spec_fn(nat, RequestV) -> SignalV,
    m: MachineV,
    a: nat,
    mid: MachineV,
    b: nat,
    end: MachineV,
)
    requires
        m.advances(host, a) == mid,
        mid.advances(host, b) == end,
    ensures
        m.advances(host, a + b) == end,
{
    lemma_advances_add(m, host, a, b);
}

/// One move is the move, and no move is no change.
proof fn lemma_one_step(host: spec_fn(nat, RequestV) -> SignalV, m: MachineV)
    ensures
        m.advances(host, 1) == m.advance(host),
        m.advances(host, 0) == m,
{
    assert(m.advance(host).advances(host, 0) == m.advance(host));
}

/// A step that delivers a signal to the work `k` on top of the stack
/// takes `k` off and lets it deal with the signal.
proof fn lemma_deliver_step(
    host: spec_fn(nat, RequestV) -> SignalV,
    m: MachineV,
    k: KontV,
    sig: SignalV,
)
    ensures
        m.push(k).deliver(sig).advance(host) == m.deliver(sig).unwind(k, sig),
{
    reveal(MachineV::step);
    let top = m.push(k).deliver(sig);
    assert(top.konts.last() == k);
    assert(top.konts.drop_last() =~= m.konts);
    assert(top.pop() == m.deliver(sig));
}

/// A vector has no more elements than can be counted.
proof fn lemma_vec_len<T>(v: Vec<T>)
    ensures
        v@.len() <= usize::MAX,
{
    assert(v@.len() == v.len());
}

/// An applied operator arrives at its value or its error at once, and at
/// the answer of the host one move later.
proof fn lemma_applied(
    host: spec_fn(nat, RequestV) -> SignalV,
    start: MachineV,
    n: nat,
    m: MachineV,
    a: AppliedV,
)
    requires
        start.advances(host, n) == m.apply(a),
    ensures
        arrives(host, start, m, applied(world_of(m), host, a, n)),
{
    assert(with_world(m, world_of(m)) == m);
    match a {
        AppliedV::Float(op, left, right) => {
            lemma_one_step(host, m.apply(a));
            lemma_then(host, start, n, m.apply(a), 1, m.apply(a).advance(host));
        },
        _ => {},
    }
}

/// The evaluator, set to evaluate a part `x` while the rest waits as
/// `waiting`, arrives with the signal of `x` and lets `waiting` deal with
/// it.
proof fn lemma_part(
    m: MachineV,
    env: usize,
    x: Expr,
    waiting: KontV,
    host: spec_fn(nat, RequestV) -> SignalV, fuel: nat,
)
    requires
        expr_law(m.push(waiting), env, x, host, fuel),
    ensures
        match eval_expr(world_of(m), env, x, host, fuel) {
            Some(r) => m.push(waiting).goto(ControlV::Eval(x, env)).advances(host, r.steps + 1)
                == with_world(m, r.world).deliver(r.signal).unwind(waiting, r.signal),
            None => true,
        },
{
    match eval_expr(world_of(m), env, x, host, fuel) {
        Some(r) => {
            let begun = m.push(waiting).goto(ControlV::Eval(x, env));
            let there = with_world(m, r.world);
            let arrived = there.push(waiting).deliver(r.signal);
            assert(world_of(m.push(waiting)) == world_of(m));
            assert(with_world(m.push(waiting), r.world).deliver(r.signal) == arrived);
            assert(begun.advances(host, r.steps) == arrived);
            lemma_deliver_step(host, there, waiting, r.signal);
            lemma_one_step(host, arrived);
            lemma_then(host, begun, r.steps, arrived, 1, there.deliver(r.signal).unwind(waiting, r.signal));
        },
        None => {},
    }
}

/// The evaluator, set to execute a body while the rest waits as
/// `waiting`, arrives with the signal of the body and lets `waiting` deal
/// with it.
proof fn lemma_body(
    m: MachineV,
    body: Vec<Box<Statement>>,
    env: usize,
    waiting: KontV,
    host: spec_fn(nat, RequestV) -> SignalV,
    fuel: nat,
)
    requires
        block_law(m.push(waiting), body, 0, env, host, fuel),
    ensures
        match exec_block(world_of(m), body, 0, env, host, fuel) {
            Some(r) => m.push(waiting).goto(ControlV::Exec(body, 0, env)).advances(host, r.steps + 1)
                == with_world(m, r.world).deliver(r.signal).unwind(waiting, r.signal),
            None => true,
        },
{
    match exec_block(world_of(m), body, 0, env, host, fuel) {
        Some(r) => {
            let begun = m.push(waiting).goto(ControlV::Exec(body, 0, env));
            let there = with_world(m, r.world);
            let arrived = there.push(waiting).deliver(r.signal);
            assert(world_of(m.push(waiting)) == world_of(m));
            assert(with_world(m.push(waiting), r.world).deliver(r.signal) == arrived);
            assert(begun.advances(host, r.steps) == arrived);
            lemma_deliver_step(host, there, waiting, r.signal);
            lemma_one_step(host, arrived);
            lemma_then(host, begun, r.steps, arrived, 1, there.deliver(r.signal).unwind(waiting, r.signal));
        },
        None => {},
    }
}

/// A call that begins by entering a body arrives at what the body comes
/// to, turned into the result of the call; a call that fails at once has
/// raised its error already.
proof fn lemma_invoke(
    m: MachineV,
    callee: ValueV,
    args: Seq<ValueV>,
    host: spec_fn(nat, RequestV) -> SignalV, fuel: nat,
)
    requires
        match world_of(m).entry(callee, args) {
            Entry::Enter { world, body, child } => fuel > 0 && block_law(
                with_world(m, world).push(KontV::Call),
                body,
                0,
                child,
                host,
                (fuel - 1) as nat,
            ),
            _ => true,
        },
    ensures
        match world_of(m).entry(callee, args) {
            Entry::Fail(kind) => m.invoke(callee, args) == m.deliver(raised(kind)),
            Entry::Host(handle) => m.invoke(callee, args).advances(host, 1) == with_world(
                m,
                world_of(m).asking(),
            ).deliver(world_of(m).answer(host, RequestV::Native { handle, args })),
            Entry::Enter { world, body, child } => match exec_block(
                world,
                body,
                0,
                child,
                host,
                (fuel - 1) as nat,
            ) {
                Some(inner) => m.invoke(callee, args).advances(host, inner.steps + 1) == with_world(
                    m,
                    inner.world.leave_call(),
                ).deliver(call_result(inner.signal)),
                None => true,
            },
        },
{
    match world_of(m).entry(callee, args) {
        Entry::Enter { world, body, child } => {
            let entered = with_world(m, world);
            assert(m.invoke(callee, args) == entered.push(KontV::Call).goto(
                ControlV::Exec(body, 0, child),
            ));
            assert(world_of(entered) == world);
            lemma_body(entered, body, child, KontV::Call, host, (fuel - 1) as nat);
        },
        Entry::Host(handle) => {
            lemma_one_step(host, m.invoke(callee, args));
        },
        _ => {},
    }
}

/// Whether the evaluator, set to evaluate the expression at `k` of a list
/// literal whose earlier expressions had the values `done`, arrives at
/// the list, or at the signal of the first expression that fails.
pub open spec fn elems_law(
    m: MachineV,
    items: Vec<Box<Expr>>,
    env: usize,
    k: nat,
    done: Seq<ValueV>,
    host: spec_fn(nat, RequestV) -> SignalV,
    fuel: nat,
) -> bool {
    match eval_items(world_of(m), env, items@, k, done, host, fuel) {
        Some(row) => m.push(KontV::Elems { items, done, env }).goto(
            ControlV::Eval(*items@[k as int], env),
        ).advances(host, row.steps) == match row.values {
            Ok(values) => with_world(m, row.world).give(ValueV::List(values)),
            Err(sig) => with_world(m, row.world).deliver(sig),
        },
        None => true,
    }
}

/// Whether the evaluator, set to evaluate the argument at `k` of a call
/// whose earlier arguments had the values `done`, arrives at the call of
/// `callee` on all the values, or at the signal of the first argument
/// that fails.
pub open spec fn args_law(
    m: MachineV,
    callee: ValueV,
    args: Vec<Box<Expr>>,
    env: usize,
    k: nat,
    done: Seq<ValueV>,
    host: spec_fn(nat, RequestV) -> SignalV,
    fuel: nat,
) -> bool {
    match eval_items(world_of(m), env, args@, k, done, host, fuel) {
        Some(row) => m.push(KontV::Args { callee, args, done, env }).goto(
            ControlV::Eval(*args@[k as int], env),
        ).advances(host, row.steps) == match row.values {
            Ok(values) => with_world(m, row.world).invoke(callee, values),
            Err(sig) => with_world(m, row.world).deliver(sig),
        },
        None => true,
    }
}

/// Whether the evaluator, set to execute the statement at `index` of
/// `body`, arrives at what the statement comes to, with the rest of the
/// body waiting on top of the stack.
pub open spec fn stmt_law(
    m: MachineV,
    body: Vec<Box<Statement>>,
    index: nat,
    env: usize,
    host: spec_fn(nat, RequestV) -> SignalV,
    fuel: nat,
) -> bool {
    match exec_stmt(world_of(m), *body@[index as int], env, host, fuel) {
        Some(r) => m.goto(ControlV::Exec(body, index as usize, env)).advances(host, r.steps + 1)
            == with_world(m, r.world).push(
            KontV::Block { body, next: (index + 1) as usize, env },
        ).deliver(r.signal),
        None => true,
    }
}

/// Whether the evaluator, set to test the condition of the `while`
/// statement `s`, arrives at what the rounds of `s` come to.
pub open spec fn while_law(
    m: MachineV,
    s: Statement,
    env: usize,
    host: spec_fn(nat, RequestV) -> SignalV, fuel: nat,
) -> bool {
    match s {
        Statement::While(c, b) => arrives(
            host,
            m.push(KontV::Loop { cond: *c, body: b, env }).goto(ControlV::Eval(*c, env)),
            m,
            exec_while(world_of(m), s, env, host, fuel),
        ),
        _ => true,
    }
}

/// Whether the evaluator, going on with the element at `k` of the `for`
/// statement `s`, arrives at what the rounds of `s` come to.
pub open spec fn for_law(
    m: MachineV,
    s: Statement,
    items: Seq<ValueV>,
    k: nat,
    env: usize,
    host: spec_fn(nat, RequestV) -> SignalV,
    fuel: nat,
) -> bool {
    match s {
        Statement::For(var, _, b) => arrives(
            host,
            m.iterate(var@, items, k as usize, b, env),
            m,
            exec_for(world_of(m), s, items, k, env, host, fuel),
        ),
        _ => true,
    }
}

/// Whether the evaluator, offering an error to the handlers of the `try`
/// statement `s` from the one at `index` on, arrives at what the handlers
/// make of it.
pub open spec fn catches_law(
    m: MachineV,
    s: Statement,
    index: nat,
    env: usize,
    kind: ErrorKind,
    value: ValueV,
    host: spec_fn(nat, RequestV) -> SignalV,
    fuel: nat,
) -> bool {
    match s {
        Statement::Try(_, catches) => arrives(
            host,
            m.handle(catches, index as usize, env, kind, value),
            m,
            exec_catches(world_of(m), s, index, env, kind, value, host, fuel),
        ),
        _ => true,
    }
}

/// The evaluator arrives at what an expression comes to.
pub proof fn law_expr(
    m: MachineV,
    env: usize,
    e: Expr,
    host: spec_fn(nat, RequestV) -> SignalV, fuel: nat,
)
    ensures
        expr_law(m, env, e, host, fuel),
    decreases fuel, e, 1nat, 0nat,
{
    match e {
        Expr::UnaryOp(_, _) => law_unary(m, env, e, host, fuel),
        Expr::BinaryOp(_, _, _) => law_binary(m, env, e, host, fuel),
        Expr::ItemSubscription(_, _) => law_subscript(m, env, e, host, fuel),
        Expr::List(_) => law_list(m, env, e, host, fuel),
        Expr::FunctionCall(_, _) => law_call_expr(m, env, e, host, fuel),
        Expr::AttrAccess(_, _) => law_member(m, env, e, host, fuel),
        _ => {
            let start = m.goto(ControlV::Eval(e, env));
            lemma_one_step(host, start);
            reveal(MachineV::step);
            assert(with_world(m, world_of(m)) == m);
        },
    }
}

/// The evaluator arrives at what a unary operator comes to.
proof fn law_unary(
    m: MachineV,
    env: usize,
    e: Expr,
    host: spec_fn(nat, RequestV) -> SignalV, fuel: nat,
)
    requires
        e is UnaryOp,
    ensures
        expr_law(m, env, e, host, fuel),
    decreases fuel, e, 0nat, 0nat,
{
    let w = world_of(m);
    let start = m.goto(ControlV::Eval(e, env));
    lemma_one_step(host, start);
    assert(with_world(m, w) == m);
    match e {
        Expr::UnaryOp(op, x) => {
            let waiting = KontV::Unary { op };
            let begun = m.push(waiting).goto(ControlV::Eval(*x, env));
            assert(start.advance(host) == begun) by {
                reveal(MachineV::step);
            }
            law_expr(m.push(waiting), env, *x, host, fuel);
            lemma_part(m, env, *x, waiting, host, fuel);
            match eval_expr(w, env, *x, host, fuel) {
                Some(r) => {
                    let m1 = with_world(m, r.world).deliver(r.signal);
                    let taken = m1.unwind(waiting, r.signal);
                    lemma_then(host, start, 1, begun, r.steps + 1, taken);
                    match r.signal {
                        SignalV::Normal(v) => {
                            lemma_applied(host, start, r.steps + 2, m1, unary_result(op, v));
                            assert(world_of(m1) == r.world);
                            assert forall|w2: World, sig: SignalV|
                                with_world(m1, w2).deliver(sig) == with_world(m, w2).deliver(
                                    sig,
                                ) by {}
                        },
                        _ => {},
                    }
                },
                None => {},
            }
        },
        _ => {},
    }
}

/// The evaluator arrives at what a member of a value comes to.
proof fn law_member(
    m: MachineV,
    env: usize,
    e: Expr,
    host: spec_fn(nat, RequestV) -> SignalV, fuel: nat,
)
    requires
        e is AttrAccess,
    ensures
        expr_law(m, env, e, host, fuel),
    decreases fuel, e, 0nat, 0nat,
{
    let w = world_of(m);
    let start = m.goto(ControlV::Eval(e, env));
    lemma_one_step(host, start);
    assert(with_world(m, w) == m);
    match e {
        Expr::AttrAccess(t, name) => {
            let waiting = KontV::Attr { name: name@ };
            let begun = m.push(waiting).goto(ControlV::Eval(*t, env));
            assert(start.advance(host) == begun) by {
                reveal(MachineV::step);
            }
            law_expr(m.push(waiting), env, *t, host, fuel);
            lemma_part(m, env, *t, waiting, host, fuel);
            match eval_expr(w, env, *t, host, fuel) {
                Some(r) => {
                    let m1 = with_world(m, r.world).deliver(r.signal);
                    let taken = m1.unwind(waiting, r.signal);
                    lemma_then(host, start, 1, begun, r.steps + 1, taken);
                    match r.signal {
                        SignalV::Normal(v) => {
                            let asked = with_world(m, r.world.asking());
                            let sig = r.world.answer(
                                host,
                                RequestV::Attribute { target: v, name: name@ },
                            );
                            let answered = asked.push(KontV::Member).deliver(sig);
                            lemma_one_step(host, taken);
                            assert(taken.advance(host) == answered);
                            lemma_then(host, start, r.steps + 2, taken, 1, answered);
                            lemma_deliver_step(host, asked, KontV::Member, sig);
                            lemma_one_step(host, answered);
                            lemma_then(
                                host,
                                start,
                                r.steps + 3,
                                answered,
                                1,
                                asked.deliver(sig).unwind(KontV::Member, sig),
                            );
                        },
                        _ => {},
                    }
                },
                None => {},
            }
        },
        _ => {},
    }
}

/// The evaluator arrives at what a binary operator comes to.
proof fn law_binary(
    m: MachineV,
    env: usize,
    e: Expr,
    host: spec_fn(nat, RequestV) -> SignalV, fuel: nat,
)
    requires
        e is BinaryOp,
    ensures
        expr_law(m, env, e, host, fuel),
    decreases fuel, e, 0nat, 0nat,
{
    let w = world_of(m);
    let start = m.goto(ControlV::Eval(e, env));
    lemma_one_step(host, start);
    assert(with_world(m, w) == m);
    match e {
        Expr::BinaryOp(l, op, r) => {
            let first = KontV::BinLeft { op, right: *r, env };
            let begun = m.push(first).goto(ControlV::Eval(*l, env));
            assert(start.advance(host) == begun) by {
                reveal(MachineV::step);
            }
            law_expr(m.push(first), env, *l, host, fuel);
            lemma_part(m, env, *l, first, host, fuel);
            match eval_expr(w, env, *l, host, fuel) {
                Some(r1) => {
                    let m1 = with_world(m, r1.world);
                    let taken = m1.deliver(r1.signal).unwind(first, r1.signal);
                    lemma_then(host, start, 1, begun, r1.steps + 1, taken);
                    match r1.signal {
                        SignalV::Normal(a) => {
                            let second = KontV::BinRight { op, left: a };
                            assert(taken == m1.push(second).goto(ControlV::Eval(*r, env)));
                            law_expr(m1.push(second), env, *r, host, fuel);
                            lemma_part(m1, env, *r, second, host, fuel);
                            match eval_expr(r1.world, env, *r, host, fuel) {
                                Some(r2) => {
                                    let m2 = with_world(m, r2.world);
                                    assert(with_world(m1, r2.world) == m2);
                                    let last = m2.deliver(r2.signal).unwind(second, r2.signal);
                                    lemma_then(host, start, r1.steps + 2, taken, r2.steps + 1, last);
                                    match r2.signal {
                                        SignalV::Normal(b) => {
                                            lemma_applied(
                                                host,
                                                start,
                                                r1.steps + r2.steps + 3,
                                                m2.deliver(r2.signal),
                                                binary_result(op, a, b),
                                            );
                                            assert(world_of(m2.deliver(r2.signal)) == r2.world);
                                            assert forall|w2: World, sig: SignalV|
                                                with_world(m2.deliver(r2.signal), w2).deliver(sig)
                                                    == with_world(m, w2).deliver(sig) by {}
                                        },
                                        _ => {},
                                    }
                                },
                                None => {},
                            }
                        },
                        _ => {},
                    }
                },
                None => {},
            }
        },
        _ => {},
    }
}

/// The evaluator arrives at what a subscript comes to.
proof fn law_subscript(
    m: MachineV,
    env: usize,
    e: Expr,
    host: spec_fn(nat, RequestV) -> SignalV, fuel: nat,
)
    requires
        e is ItemSubscription,
    ensures
        expr_law(m, env, e, host, fuel),
    decreases fuel, e, 0nat, 0nat,
{
    let w = world_of(m);
    let start = m.goto(ControlV::Eval(e, env));
    lemma_one_step(host, start);
    assert(with_world(m, w) == m);
    match e {
        Expr::ItemSubscription(t, i) => {
            let first = KontV::SubTarget { index: *i, env };
            let begun = m.push(first).goto(ControlV::Eval(*t, env));
            assert(start.advance(host) == begun) by {
                reveal(MachineV::step);
            }
            law_expr(m.push(first), env, *t, host, fuel);
            lemma_part(m, env, *t, first, host, fuel);
            match eval_expr(w, env, *t, host, fuel) {
                Some(r1) => {
                    let m1 = with_world(m, r1.world);
                    let taken = m1.deliver(r1.signal).unwind(first, r1.signal);
                    lemma_then(host, start, 1, begun, r1.steps + 1, taken);
                    match r1.signal {
                        SignalV::Normal(a) => {
                            let second = KontV::SubIndex { target: a };
                            assert(taken == m1.push(second).goto(ControlV::Eval(*i, env)));
                            law_expr(m1.push(second), env, *i, host, fuel);
                            lemma_part(m1, env, *i, second, host, fuel);
                            match eval_expr(r1.world, env, *i, host, fuel) {
                                Some(r2) => {
                                    let m2 = with_world(m, r2.world);
                                    assert(with_world(m1, r2.world) == m2);
                                    let last = m2.deliver(r2.signal).unwind(second, r2.signal);
                                    lemma_then(host, start, r1.steps + 2, taken, r2.steps + 1, last);
                                    match r2.signal {
                                        SignalV::Normal(b) => {
                                            lemma_applied(
                                                host,
                                                start,
                                                r1.steps + r2.steps + 3,
                                                m2.deliver(r2.signal),
                                                subscript_result(a, b),
                                            );
                                            assert(world_of(m2.deliver(r2.signal)) == r2.world);
                                            assert forall|w2: World, sig: SignalV|
                                                with_world(m2.deliver(r2.signal), w2).deliver(sig)
                                                    == with_world(m, w2).deliver(sig) by {}
                                        },
                                        _ => {},
                                    }
                                },
                                None => {},
                            }
                        },
                        _ => {},
                    }
                },
                None => {},
            }
        },
        _ => {},
    }
}

/// The evaluator arrives at what a list literal comes to.
proof fn law_list(
    m: MachineV,
    env: usize,
    e: Expr,
    host: spec_fn(nat, RequestV) -> SignalV, fuel: nat,
)
    requires
        e is List,
    ensures
        expr_law(m, env, e, host, fuel),
    decreases fuel, e, 0nat, 0nat,
{
    let w = world_of(m);
    let start = m.goto(ControlV::Eval(e, env));
    lemma_one_step(host, start);
    assert(with_world(m, w) == m);
    match e {
        Expr::List(items) => {
            if items@.len() == 0 {
                assert(start.advance(host) == m.give(ValueV::List(Seq::empty()))) by {
                reveal(MachineV::step);
            }
            } else {
                let begun = m.push(KontV::Elems { items, done: Seq::empty(), env }).goto(
                    ControlV::Eval(*items@[0], env),
                );
                assert(start.advance(host) == begun) by {
                reveal(MachineV::step);
            }
                law_elems(m, items, env, 0, Seq::empty(), host, fuel);
                match eval_items(w, env, items@, 0, Seq::empty(), host, fuel) {
                    Some(row) => {
                        lemma_then(host, start, 1, begun, row.steps, begun.advances(host, row.steps));
                    },
                    None => {},
                }
            }
        },
        _ => {},
    }
}

/// The evaluator arrives at what a call comes to.
proof fn law_call_expr(
    m: MachineV,
    env: usize,
    e: Expr,
    host: spec_fn(nat, RequestV) -> SignalV, fuel: nat,
)
    requires
        e is FunctionCall,
    ensures
        expr_law(m, env, e, host, fuel),
    decreases fuel, e, 0nat, 0nat,
{
    let w = world_of(m);
    let start = m.goto(ControlV::Eval(e, env));
    lemma_one_step(host, start);
    assert(with_world(m, w) == m);
    match e {
        Expr::FunctionCall(f, args) => {
            let first = KontV::Callee { args, env };
            let begun = m.push(first).goto(ControlV::Eval(*f, env));
            assert(start.advance(host) == begun) by {
                reveal(MachineV::step);
            }
            law_expr(m.push(first), env, *f, host, fuel);
            lemma_part(m, env, *f, first, host, fuel);
            match eval_expr(w, env, *f, host, fuel) {
                Some(r1) => {
                    let m1 = with_world(m, r1.world);
                    let taken = m1.deliver(r1.signal).unwind(first, r1.signal);
                    lemma_then(host, start, 1, begun, r1.steps + 1, taken);
                    match r1.signal {
                        SignalV::Normal(callee) => {
                            if callable(callee) {
                                law_call(m, m1, start, taken, callee, args, env, r1, host, fuel);
                            }
                        },
                        _ => {},
                    }
                },
                None => {},
            }
        },
        _ => {},
    }
}

/// The rest of a call, from the state `taken` in which the function is
/// known: the arguments, and the body of the closure.
proof fn law_call(
    m: MachineV,
    m1: MachineV,
    start: MachineV,
    taken: MachineV,
    callee: ValueV,
    args: Vec<Box<Expr>>,
    env: usize,
    r1: Run,
    host: spec_fn(nat, RequestV) -> SignalV,
    fuel: nat,
)
    requires
        m1 == with_world(m, r1.world),
        start.advances(host, r1.steps + 2) == taken,
        taken == m1.deliver(r1.signal).unwind(KontV::Callee { args, env }, r1.signal),
        r1.signal == SignalV::Normal(callee),
        callable(callee),
    ensures
        match eval_items(r1.world, env, args@, 0, Seq::empty(), host, fuel) {
            Some(row) => match row.values {
                Ok(values) => match row.world.entry(callee, values) {
                    Entry::Fail(kind) => start.advances(host, r1.steps + row.steps + 2) == with_world(
                        m,
                        row.world,
                    ).deliver(raised(kind)),
                    Entry::Host(handle) => start.advances(host, r1.steps + row.steps + 3)
                        == with_world(m, row.world.asking()).deliver(
                        row.world.answer(host, RequestV::Native { handle, args: values }),
                    ),
                    Entry::Enter { world, body, child } => fuel > 0 ==> match exec_block(
                        world,
                        body,
                        0,
                        child,
                        host,
                        (fuel - 1) as nat,
                    ) {
                        Some(inner) => start.advances(host, r1.steps + row.steps + inner.steps + 3)
                            == with_world(m, inner.world.leave_call()).deliver(
                            call_result(inner.signal),
                        ),
                        None => true,
                    },
                },
                Err(sig) => start.advances(host, r1.steps + row.steps + 2) == with_world(
                    m,
                    row.world,
                ).deliver(sig),
            },
            None => true,
        },
    decreases fuel, args, 0nat, 0nat,
{
    match eval_items(r1.world, env, args@, 0, Seq::empty(), host, fuel) {
        Some(row) => {
            let m2 = with_world(m, row.world);
            assert(with_world(m1, row.world) == m2);
            if args@.len() == 0 {
                assert(taken == m1.invoke(callee, Seq::empty()));
            } else {
                assert(taken == m1.push(
                    KontV::Args { callee, args, done: Seq::empty(), env },
                ).goto(ControlV::Eval(*args@[0], env)));
                law_args(m1, callee, args, env, 0, Seq::empty(), host, fuel);
                lemma_then(host, start, r1.steps + 2, taken, row.steps, taken.advances(host, row.steps));
            }
            match row.values {
                Ok(values) => {
                    let calling = m2.invoke(callee, values);
                    assert(start.advances(host, r1.steps + row.steps + 2) == calling) by {
                        if args@.len() == 0 {
                            assert(row.steps == 0);
                            assert(values =~= Seq::empty());
                        }
                    }
                    match row.world.entry(callee, values) {
                        Entry::Enter { world, body, child } => {
                            if fuel > 0 {
                                law_block(
                                    with_world(m2, world).push(KontV::Call),
                                    body,
                                    0,
                                    child,
                                    host,
                                    (fuel - 1) as nat,
                                );
                                lemma_invoke(m2, callee, values, host, fuel);
                                match exec_block(world, body, 0, child, host, (fuel - 1) as nat) {
                                    Some(inner) => {
                                        lemma_then(
                                            host,
                                            start,
                                            r1.steps + row.steps + 2,
                                            calling,
                                            inner.steps + 1,
                                            with_world(m, inner.world.leave_call()).deliver(
                                                call_result(inner.signal),
                                            ),
                                        );
                                    },
                                    None => {},
                                }
                            }
                        },
                        Entry::Host(handle) => {
                            lemma_invoke(m2, callee, values, host, fuel);
                            lemma_then(
                                host,
                                start,
                                r1.steps + row.steps + 2,
                                calling,
                                1,
                                calling.advances(host, 1),
                            );
                        },
                        _ => {
                            lemma_invoke(m2, callee, values, host, fuel);
                        },
                    }
                },
                Err(sig) => {},
            }
        },
        None => {},
    }
}

/// The evaluator arrives at what the elements of a list literal come to.
pub proof fn law_elems(
    m: MachineV,
    items: Vec<Box<Expr>>,
    env: usize,
    k: nat,
    done: Seq<ValueV>,
    host: spec_fn(nat, RequestV) -> SignalV,
    fuel: nat,
)
    requires
        k < items@.len(),
        done.len() == k,
    ensures
        elems_law(m, items, env, k, done, host, fuel),
    decreases fuel, items@, 0nat, items@.len() - k,
{
    let waiting = KontV::Elems { items, done, env };
    let e = *items@[k as int];
    let begun = m.push(waiting).goto(ControlV::Eval(e, env));
    law_expr(m.push(waiting), env, e, host, fuel);
    lemma_part(m, env, e, waiting, host, fuel);
    match eval_expr(world_of(m), env, e, host, fuel) {
        Some(r) => {
            let m1 = with_world(m, r.world);
            let taken = m1.deliver(r.signal).unwind(waiting, r.signal);
            match r.signal {
                SignalV::Normal(v) => {
                    if k + 1 < items@.len() {
                        law_elems(m1, items, env, k + 1, done.push(v), host, fuel);
                        match eval_items(r.world, env, items@, k + 1, done.push(v), host, fuel) {
                            Some(rest) => {
                                assert(with_world(m1, rest.world) == with_world(m, rest.world));
                                lemma_then(
                                    host,
                                    begun,
                                    r.steps + 1,
                                    taken,
                                    rest.steps,
                                    taken.advances(host, rest.steps),
                                );
                            },
                            None => {},
                        }
                    } else {
                        lemma_one_step(host, taken);
                        lemma_then(host, begun, r.steps + 1, taken, 0, taken);
                    }
                },
                _ => {},
            }
        },
        None => {},
    }
}

/// The evaluator arrives at what the arguments of a call come to.
pub proof fn law_args(
    m: MachineV,
    callee: ValueV,
    args: Vec<Box<Expr>>,
    env: usize,
    k: nat,
    done: Seq<ValueV>,
    host: spec_fn(nat, RequestV) -> SignalV,
    fuel: nat,
)
    requires
        k < args@.len(),
        done.len() == k,
    ensures
        args_law(m, callee, args, env, k, done, host, fuel),
    decreases fuel, args@, 0nat, args@.len() - k,
{
    let waiting = KontV::Args { callee, args, done, env };
    let e = *args@[k as int];
    let begun = m.push(waiting).goto(ControlV::Eval(e, env));
    law_expr(m.push(waiting), env, e, host, fuel);
    lemma_part(m, env, e, waiting, host, fuel);
    match eval_expr(world_of(m), env, e, host, fuel) {
        Some(r) => {
            let m1 = with_world(m, r.world);
            let taken = m1.deliver(r.signal).unwind(waiting, r.signal);
            match r.signal {
                SignalV::Normal(v) => {
                    if k + 1 < args@.len() {
                        law_args(m1, callee, args, env, k + 1, done.push(v), host, fuel);
                        match eval_items(r.world, env, args@, k + 1, done.push(v), host, fuel) {
                            Some(rest) => {
                                assert(with_world(m1, rest.world) == with_world(m, rest.world));
                                lemma_then(
                                    host,
                                    begun,
                                    r.steps + 1,
                                    taken,
                                    rest.steps,
                                    taken.advances(host, rest.steps),
                                );
                            },
                            None => {},
                        }
                    } else {
                        lemma_one_step(host, taken);
                        lemma_then(host, begun, r.steps + 1, taken, 0, taken);
                    }
                },
                _ => {},
            }
        },
        None => {},
    }
}

/// The evaluator arrives at what the statements of a body come to.
pub proof fn law_block(
    m: MachineV,
    body: Vec<Box<Statement>>,
    index: nat,
    env: usize,
    host: spec_fn(nat, RequestV) -> SignalV,
    fuel: nat,
)
    requires
        index <= body@.len(),
    ensures
        block_law(m, body, index, env, host, fuel),
    decreases fuel, body, 0nat, body@.len() - index,
{
    let w = world_of(m);
    let start = m.goto(ControlV::Exec(body, index as usize, env));
    lemma_vec_len(body);
    lemma_one_step(host, start);
    assert(with_world(m, w) == m);
    if index >= body@.len() {
        reveal(MachineV::step);
    } else {
        let waiting = KontV::Block { body, next: (index + 1) as usize, env };
        law_stmt(m, body, index, env, host, fuel);
        match exec_stmt(w, *body@[index as int], env, host, fuel) {
            Some(r) => {
                let m1 = with_world(m, r.world);
                let arrived = m1.push(waiting).deliver(r.signal);
                lemma_deliver_step(host, m1, waiting, r.signal);
                lemma_one_step(host, arrived);
                let taken = m1.deliver(r.signal).unwind(waiting, r.signal);
                lemma_then(host, start, r.steps + 1, arrived, 1, taken);
                match r.signal {
                    SignalV::Normal(_) => {
                        law_block(m1, body, index + 1, env, host, fuel);
                        match exec_block(r.world, body, index + 1, env, host, fuel) {
                            Some(rest) => {
                                assert(with_world(m1, rest.world) == with_world(m, rest.world));
                                lemma_then(
                                    host,
                                    start,
                                    r.steps + 2,
                                    taken,
                                    rest.steps,
                                    taken.advances(host, rest.steps),
                                );
                            },
                            None => {},
                        }
                    },
                    _ => {},
                }
            },
            None => {},
        }
    }
}

/// The evaluator arrives at what a statement comes to.
pub proof fn law_stmt(
    m: MachineV,
    body: Vec<Box<Statement>>,
    index: nat,
    env: usize,
    host: spec_fn(nat, RequestV) -> SignalV, fuel: nat,
)
    requires
        index < body@.len(),
    ensures
        stmt_law(m, body, index, env, host, fuel),
    decreases fuel, *body@[index as int], 3nat, 0nat,
{
    match *body@[index as int] {
        Statement::Expression(_) => law_stmt_expression(m, body, index, env, host, fuel),
        Statement::If(_, _, _) => law_stmt_if(m, body, index, env, host, fuel),
        Statement::Assignment(_, _) => law_stmt_assignment(m, body, index, env, host, fuel),
        Statement::Return(_) => law_stmt_return(m, body, index, env, host, fuel),
        Statement::While(_, _) => law_stmt_while(m, body, index, env, host, fuel),
        Statement::For(_, _, _) => law_stmt_for(m, body, index, env, host, fuel),
        Statement::Try(_, _) => law_stmt_try(m, body, index, env, host, fuel),
        Statement::Import(_) => law_stmt_import(m, body, index, env, host, fuel),
        _ => {
            let start = m.goto(ControlV::Exec(body, index as usize, env));
            lemma_vec_len(body);
            lemma_one_step(host, start);
            reveal(MachineV::step);
            assert(with_world(m, world_of(m)) == m);
        },
    }
}

/// The evaluator arrives at what an expression statement comes to.
proof fn law_stmt_expression(
    m: MachineV,
    body: Vec<Box<Statement>>,
    index: nat,
    env: usize,
    host: spec_fn(nat, RequestV) -> SignalV, fuel: nat,
)
    requires
        index < body@.len(),
        *body@[index as int] is Expression,
    ensures
        stmt_law(m, body, index, env, host, fuel),
    decreases fuel, *body@[index as int], 2nat, 0nat,
{
    let w = world_of(m);
    let s = *body@[index as int];
    let start = m.goto(ControlV::Exec(body, index as usize, env));
    let rest = KontV::Block { body, next: (index + 1) as usize, env };
    let mb = m.push(rest);
    lemma_vec_len(body);
    lemma_one_step(host, start);
    assert(with_world(m, w) == m);
    assert(world_of(mb) == w);
    match s {
        Statement::Expression(e) => {
            let begun = mb.goto(ControlV::Eval(*e, env));
            assert(start.advance(host) == begun) by {
                reveal(MachineV::step);
            }
            law_expr(mb, env, *e, host, fuel);
            match eval_expr(w, env, *e, host, fuel) {
                Some(r) => {
                    lemma_then(host, start, 1, begun, r.steps, begun.advances(host, r.steps));
                },
                None => {},
            }
        },
        _ => {},
    }
}

/// The evaluator arrives at what an `if` comes to.
proof fn law_stmt_if(
    m: MachineV,
    body: Vec<Box<Statement>>,
    index: nat,
    env: usize,
    host: spec_fn(nat, RequestV) -> SignalV, fuel: nat,
)
    requires
        index < body@.len(),
        *body@[index as int] is If,
    ensures
        stmt_law(m, body, index, env, host, fuel),
    decreases fuel, *body@[index as int], 2nat, 0nat,
{
    let w = world_of(m);
    let s = *body@[index as int];
    let start = m.goto(ControlV::Exec(body, index as usize, env));
    let rest = KontV::Block { body, next: (index + 1) as usize, env };
    let mb = m.push(rest);
    lemma_vec_len(body);
    lemma_one_step(host, start);
    assert(with_world(m, w) == m);
    assert(world_of(mb) == w);
    match s {
        Statement::If(c, then, otherwise) => {
            let waiting = KontV::Branch { then, otherwise, env };
            let begun = mb.push(waiting).goto(ControlV::Eval(*c, env));
            assert(start.advance(host) == begun) by {
                reveal(MachineV::step);
            }
            law_expr(mb.push(waiting), env, *c, host, fuel);
            lemma_part(mb, env, *c, waiting, host, fuel);
            match eval_expr(w, env, *c, host, fuel) {
                Some(test) => {
                    let m1 = with_world(mb, test.world);
                    let taken = m1.deliver(test.signal).unwind(waiting, test.signal);
                    lemma_then(host, start, 1, begun, test.steps + 1, taken);
                    match test.signal {
                        SignalV::Normal(v) => {
                            let chosen = if v.truthy() {
                                Some(then)
                            } else {
                                otherwise
                            };
                            match chosen {
                                Some(b) => {
                                    assert(taken == m1.goto(ControlV::Exec(b, 0, env)));
                                    law_block(m1, b, 0, env, host, fuel);
                                    match exec_block(test.world, b, 0, env, host, fuel) {
                                        Some(r) => {
                                            assert(with_world(m1, r.world) == with_world(
                                                mb,
                                                r.world,
                                            ));
                                            lemma_then(
                                                host,
                                                start,
                                                test.steps + 2,
                                                taken,
                                                r.steps,
                                                taken.advances(host, r.steps),
                                            );
                                        },
                                        None => {},
                                    }
                                },
                                None => {},
                            }
                        },
                        _ => {},
                    }
                },
                None => {},
            }
        },
        _ => {},
    }
}

/// The evaluator arrives at what an assignment comes to.
proof fn law_stmt_assignment(
    m: MachineV,
    body: Vec<Box<Statement>>,
    index: nat,
    env: usize,
    host: spec_fn(nat, RequestV) -> SignalV, fuel: nat,
)
    requires
        index < body@.len(),
        *body@[index as int] is Assignment,
    ensures
        stmt_law(m, body, index, env, host, fuel),
    decreases fuel, *body@[index as int], 2nat, 0nat,
{
    let w = world_of(m);
    let s = *body@[index as int];
    let start = m.goto(ControlV::Exec(body, index as usize, env));
    let rest = KontV::Block { body, next: (index + 1) as usize, env };
    let mb = m.push(rest);
    lemma_vec_len(body);
    lemma_one_step(host, start);
    assert(with_world(m, w) == m);
    assert(world_of(mb) == w);
    match s {
        Statement::Assignment(name, e) => {
            let waiting = KontV::Assign { name: name@, env };
            let begun = mb.push(waiting).goto(ControlV::Eval(*e, env));
            assert(start.advance(host) == begun) by {
                reveal(MachineV::step);
            }
            law_expr(mb.push(waiting), env, *e, host, fuel);
            lemma_part(mb, env, *e, waiting, host, fuel);
            match eval_expr(w, env, *e, host, fuel) {
                Some(r) => {
                    let m1 = with_world(mb, r.world);
                    let taken = m1.deliver(r.signal).unwind(waiting, r.signal);
                    lemma_then(host, start, 1, begun, r.steps + 1, taken);
                },
                None => {},
            }
        },
        _ => {},
    }
}

/// The evaluator arrives at what a `return` comes to.
proof fn law_stmt_return(
    m: MachineV,
    body: Vec<Box<Statement>>,
    index: nat,
    env: usize,
    host: spec_fn(nat, RequestV) -> SignalV, fuel: nat,
)
    requires
        index < body@.len(),
        *body@[index as int] is Return,
    ensures
        stmt_law(m, body, index, env, host, fuel),
    decreases fuel, *body@[index as int], 2nat, 0nat,
{
    let w = world_of(m);
    let s = *body@[index as int];
    let start = m.goto(ControlV::Exec(body, index as usize, env));
    let rest = KontV::Block { body, next: (index + 1) as usize, env };
    let mb = m.push(rest);
    lemma_vec_len(body);
    lemma_one_step(host, start);
    assert(with_world(m, w) == m);
    assert(world_of(mb) == w);
    match s {
        Statement::Return(e) => {
            let waiting = KontV::Ret;
            let begun = mb.push(waiting).goto(ControlV::Eval(*e, env));
            assert(start.advance(host) == begun) by {
                reveal(MachineV::step);
            }
            law_expr(mb.push(waiting), env, *e, host, fuel);
            lemma_part(mb, env, *e, waiting, host, fuel);
            match eval_expr(w, env, *e, host, fuel) {
                Some(r) => {
                    let m1 = with_world(mb, r.world);
                    let taken = m1.deliver(r.signal).unwind(waiting, r.signal);
                    lemma_then(host, start, 1, begun, r.steps + 1, taken);
                },
                None => {},
            }
        },
        _ => {},
    }
}

/// The evaluator arrives at what a `while` comes to.
proof fn law_stmt_while(
    m: MachineV,
    body: Vec<Box<Statement>>,
    index: nat,
    env: usize,
    host: spec_fn(nat, RequestV) -> SignalV, fuel: nat,
)
    requires
        index < body@.len(),
        *body@[index as int] is While,
    ensures
        stmt_law(m, body, index, env, host, fuel),
    decreases fuel, *body@[index as int], 2nat, 0nat,
{
    let w = world_of(m);
    let s = *body@[index as int];
    let start = m.goto(ControlV::Exec(body, index as usize, env));
    let rest = KontV::Block { body, next: (index + 1) as usize, env };
    let mb = m.push(rest);
    lemma_vec_len(body);
    lemma_one_step(host, start);
    assert(with_world(m, w) == m);
    assert(world_of(mb) == w);
    match s {
        Statement::While(c, b) => {
            let begun = mb.push(KontV::Loop { cond: *c, body: b, env }).goto(
                ControlV::Eval(*c, env),
            );
            assert(start.advance(host) == begun) by {
                reveal(MachineV::step);
            }
            law_while(mb, s, env, host, fuel);
            match exec_while(w, s, env, host, fuel) {
                Some(r) => {
                    lemma_then(host, start, 1, begun, r.steps, begun.advances(host, r.steps));
                },
                None => {},
            }
        },
        _ => {},
    }
}

/// The evaluator arrives at what a `for` comes to.
proof fn law_stmt_for(
    m: MachineV,
    body: Vec<Box<Statement>>,
    index: nat,
    env: usize,
    host: spec_fn(nat, RequestV) -> SignalV, fuel: nat,
)
    requires
        index < body@.len(),
        *body@[index as int] is For,
    ensures
        stmt_law(m, body, index, env, host, fuel),
    decreases fuel, *body@[index as int], 2nat, 0nat,
{
    let w = world_of(m);
    let s = *body@[index as int];
    let start = m.goto(ControlV::Exec(body, index as usize, env));
    let rest = KontV::Block { body, next: (index + 1) as usize, env };
    let mb = m.push(rest);
    lemma_vec_len(body);
    lemma_one_step(host, start);
    assert(with_world(m, w) == m);
    assert(world_of(mb) == w);
    match s {
        Statement::For(var, it, b) => {
            let waiting = KontV::ForStart { var: var@, body: b, env };
            let begun = mb.push(waiting).goto(ControlV::Eval(*it, env));
            assert(start.advance(host) == begun) by {
                reveal(MachineV::step);
            }
            law_expr(mb.push(waiting), env, *it, host, fuel);
            lemma_part(mb, env, *it, waiting, host, fuel);
            match eval_expr(w, env, *it, host, fuel) {
                Some(r) => {
                    let m1 = with_world(mb, r.world);
                    let taken = m1.deliver(r.signal).unwind(waiting, r.signal);
                    lemma_then(host, start, 1, begun, r.steps + 1, taken);
                    match r.signal {
                        SignalV::Normal(ValueV::List(items)) => {
                            if items.len() <= usize::MAX {
                                assert(taken == m1.iterate(var@, items, 0, b, env));
                                law_for(m1, s, items, 0, env, host, fuel);
                                match exec_for(r.world, s, items, 0, env, host, fuel) {
                                    Some(rounds) => {
                                        assert(with_world(m1, rounds.world) == with_world(
                                            mb,
                                            rounds.world,
                                        ));
                                        lemma_then(
                                            host,
                                            start,
                                            r.steps + 2,
                                            taken,
                                            rounds.steps,
                                            taken.advances(host, rounds.steps),
                                        );
                                    },
                                    None => {},
                                }
                            }
                        },
                        _ => {},
                    }
                },
                None => {},
            }
        },
        _ => {},
    }
}

/// The evaluator arrives at what a `try` comes to.
proof fn law_stmt_try(
    m: MachineV,
    body: Vec<Box<Statement>>,
    index: nat,
    env: usize,
    host: spec_fn(nat, RequestV) -> SignalV, fuel: nat,
)
    requires
        index < body@.len(),
        *body@[index as int] is Try,
    ensures
        stmt_law(m, body, index, env, host, fuel),
    decreases fuel, *body@[index as int], 2nat, 0nat,
{
    let w = world_of(m);
    let s = *body@[index as int];
    let start = m.goto(ControlV::Exec(body, index as usize, env));
    let rest = KontV::Block { body, next: (index + 1) as usize, env };
    let mb = m.push(rest);
    lemma_vec_len(body);
    lemma_one_step(host, start);
    assert(with_world(m, w) == m);
    assert(world_of(mb) == w);
    match s {
        Statement::Try(b, catches) => {
            let waiting = KontV::Try { catches, env };
            let grown = with_world(mb, w.grown(env));
            let begun = grown.push(waiting).goto(ControlV::Exec(b, 0, w.fresh()));
            assert(start.advance(host) == begun) by {
                reveal(MachineV::step);
            }
            law_block(grown.push(waiting), b, 0, w.fresh(), host, fuel);
            lemma_body(grown, b, w.fresh(), waiting, host, fuel);
            match exec_block(w.grown(env), b, 0, w.fresh(), host, fuel) {
                Some(r) => {
                    let m1 = with_world(mb, r.world);
                    assert(with_world(grown, r.world) == m1);
                    let taken = m1.deliver(r.signal).unwind(waiting, r.signal);
                    lemma_then(host, start, 1, begun, r.steps + 1, taken);
                    match r.signal {
                        SignalV::Raised(kind, v) => {
                            if kind.catchable() {
                                assert(taken == m1.deliver(r.signal).handle(
                                    catches,
                                    0,
                                    env,
                                    kind,
                                    v,
                                ));
                                law_catches(m1.deliver(r.signal), s, 0, env, kind, v, host, fuel);
                                match exec_catches(r.world, s, 0, env, kind, v, host, fuel) {
                                    Some(handled) => {
                                        assert(with_world(m1.deliver(r.signal), handled.world).deliver(
                                            handled.signal,
                                        ) == with_world(mb, handled.world).deliver(handled.signal));
                                        lemma_then(
                                            host,
                                            start,
                                            r.steps + 2,
                                            taken,
                                            handled.steps,
                                            taken.advances(host, handled.steps),
                                        );
                                    },
                                    None => {},
                                }
                            }
                        },
                        _ => {},
                    }
                },
                None => {},
            }
        },
        _ => {},
    }
}

/// The evaluator arrives at what an import comes to.
proof fn law_stmt_import(
    m: MachineV,
    body: Vec<Box<Statement>>,
    index: nat,
    env: usize,
    host: spec_fn(nat, RequestV) -> SignalV,
    fuel: nat,
)
    requires
        index < body@.len(),
        *body@[index as int] is Import,
    ensures
        stmt_law(m, body, index, env, host, fuel),
    decreases fuel, *body@[index as int], 2nat, 0nat,
{
    let w = world_of(m);
    let s = *body@[index as int];
    let start = m.goto(ControlV::Exec(body, index as usize, env));
    let rest = KontV::Block { body, next: (index + 1) as usize, env };
    let mb = m.push(rest);
    lemma_vec_len(body);
    lemma_one_step(host, start);
    assert(with_world(m, w) == m);
    assert(world_of(mb) == w);
    match s {
        Statement::Import(names) => {
            let begun = mb.import(names, 0, env);
            assert(start.advance(host) == begun) by {
                reveal(MachineV::step);
            }
            law_imports(mb, s, 0, env, host, fuel);
            match exec_imports(w, s, 0, env, host, fuel) {
                Some(r) => {
                    lemma_then(host, start, 1, begun, r.steps, begun.advances(host, r.steps));
                },
                None => {},
            }
        },
        _ => {},
    }
}

/// Whether the evaluator, importing the names of the statement `s` from
/// the one at `index` on, arrives at what the imports come to.
pub open spec fn imports_law(
    m: MachineV,
    s: Statement,
    index: nat,
    env: usize,
    host: spec_fn(nat, RequestV) -> SignalV,
    fuel: nat,
) -> bool {
    match s {
        Statement::Import(names) => arrives(
            host,
            m.import(names, index as usize, env),
            m,
            exec_imports(world_of(m), s, index, env, host, fuel),
        ),
        _ => true,
    }
}

/// The evaluator arrives at what the imports of a statement come to.
pub proof fn law_imports(
    m: MachineV,
    s: Statement,
    index: nat,
    env: usize,
    host: spec_fn(nat, RequestV) -> SignalV,
    fuel: nat,
)
    requires
        index <= (if let Statement::Import(names) = s {
            names@.len()
        } else {
            0
        }),
    ensures
        imports_law(m, s, index, env, host, fuel),
    decreases fuel, s, 1nat, (if let Statement::Import(names) = s {
        names@.len() - index
    } else {
        0
    }),
{
    let w = world_of(m);
    assert(with_world(m, w) == m);
    match s {
        Statement::Import(names) => {
            lemma_vec_len(names);
            let start = m.import(names, index as usize, env);
            lemma_one_step(host, start);
            if index < names@.len() {
                let name = *names@[index as int];
                let waiting = KontV::Import {
                    current: name,
                    names,
                    next: (index + 1) as usize,
                    env,
                };
                let sig = w.answer(host, RequestV::Import { name: name.source() });
                let asked = with_world(m, w.asking());
                let answered = asked.push(waiting).deliver(sig);
                assert(start.advance(host) == answered);
                lemma_deliver_step(host, asked, waiting, sig);
                lemma_one_step(host, answered);
                let taken = asked.deliver(sig).unwind(waiting, sig);
                lemma_then(host, start, 1, answered, 1, taken);
                match sig {
                    SignalV::Normal(v) => {
                        let bound = w.asking().with_frames(
                            define(w.frames, env as int, name.target(), v),
                        );
                        let m1 = with_world(m, bound).deliver(sig);
                        assert(taken == m1.import(names, (index + 1) as usize, env));
                        law_imports(m1, s, index + 1, env, host, fuel);
                        match exec_imports(bound, s, index + 1, env, host, fuel) {
                            Some(r) => {
                                assert(with_world(m1, r.world).deliver(r.signal) == with_world(
                                    m,
                                    r.world,
                                ).deliver(r.signal));
                                lemma_then(
                                    host,
                                    start,
                                    2,
                                    taken,
                                    r.steps,
                                    taken.advances(host, r.steps),
                                );
                            },
                            None => {},
                        }
                    },
                    _ => {},
                }
            }
        },
        _ => {},
    }
}

/// The evaluator arrives at what the rounds of a `while` come to.
pub proof fn law_while(
    m: MachineV,
    s: Statement,
    env: usize,
    host: spec_fn(nat, RequestV) -> SignalV, fuel: nat,
)
    ensures
        while_law(m, s, env, host, fuel),
    decreases fuel, s, 1nat, 0nat,
{
    let w = world_of(m);
    assert(with_world(m, w) == m);
    match s {
        Statement::While(c, b) => {
            let waiting = KontV::Loop { cond: *c, body: b, env };
            let start = m.push(waiting).goto(ControlV::Eval(*c, env));
            law_expr(m.push(waiting), env, *c, host, fuel);
            lemma_part(m, env, *c, waiting, host, fuel);
            match eval_expr(w, env, *c, host, fuel) {
                Some(test) => {
                    let m1 = with_world(m, test.world);
                    let taken = m1.deliver(test.signal).unwind(waiting, test.signal);
                    match test.signal {
                        SignalV::Normal(v) => {
                            if v.truthy() && fuel > 0 {
                                let again = KontV::Again { cond: *c, body: b, env };
                                let child = test.world.fresh();
                                let grown = with_world(m, test.world.grown(env));
                                assert(taken == grown.push(again).goto(
                                    ControlV::Exec(b, 0, child),
                                ));
                                law_block(grown.push(again), b, 0, child, host, fuel);
                                lemma_body(grown, b, child, again, host, fuel);
                                match exec_block(test.world.grown(env), b, 0, child, host, fuel) {
                                    Some(round) => {
                                        let m2 = with_world(m, round.world);
                                        assert(with_world(grown, round.world) == m2);
                                        let back = m2.deliver(round.signal).unwind(
                                            again,
                                            round.signal,
                                        );
                                        lemma_then(
                                            host,
                                            start,
                                            test.steps + 1,
                                            taken,
                                            round.steps + 1,
                                            back,
                                        );
                                        match round.signal {
                                            SignalV::Normal(_) => {
                                                assert(back == m2.push(waiting).goto(
                                                    ControlV::Eval(*c, env),
                                                ));
                                                law_while(m2, s, env, host, (fuel - 1) as nat);
                                                match exec_while(
                                                    round.world,
                                                    s,
                                                    env,
                                                    host,
                                                    (fuel - 1) as nat,
                                                ) {
                                                    Some(more) => {
                                                        assert(with_world(m2, more.world)
                                                            == with_world(m, more.world));
                                                        lemma_then(
                                                            host,
                                                            start,
                                                            test.steps + round.steps + 2,
                                                            back,
                                                            more.steps,
                                                            back.advances(host, more.steps),
                                                        );
                                                    },
                                                    None => {},
                                                }
                                            },
                                            _ => {},
                                        }
                                    },
                                    None => {},
                                }
                            }
                        },
                        _ => {},
                    }
                },
                None => {},
            }
        },
        _ => {},
    }
}

/// The evaluator arrives at what the rounds of a `for` come to.
pub proof fn law_for(
    m: MachineV,
    s: Statement,
    items: Seq<ValueV>,
    k: nat,
    env: usize,
    host: spec_fn(nat, RequestV) -> SignalV,
    fuel: nat,
)
    requires
        k <= items.len() <= usize::MAX,
    ensures
        for_law(m, s, items, k, env, host, fuel),
    decreases fuel, s, 1nat, items.len() - k,
{
    let w = world_of(m);
    assert(with_world(m, w) == m);
    match s {
        Statement::For(var, _, b) => {
            let start = m.iterate(var@, items, k as usize, b, env);
            lemma_one_step(host, start);
            if k < items.len() {
                let waiting = KontV::ForNext {
                    var: var@,
                    list: items,
                    next: (k + 1) as usize,
                    body: b,
                    env,
                };
                let child = w.fresh();
                let bound = w.with_frames(
                    define(
                        extend(w.frames, env),
                        child as int,
                        var@,
                        items[k as int],
                    ),
                );
                let inside = with_world(m, bound);
                assert(start == inside.push(waiting).goto(ControlV::Exec(b, 0, child)));
                law_block(inside.push(waiting), b, 0, child, host, fuel);
                lemma_body(inside, b, child, waiting, host, fuel);
                match exec_block(bound, b, 0, child, host, fuel) {
                    Some(round) => {
                        let m2 = with_world(m, round.world);
                        assert(with_world(inside, round.world) == m2);
                        let back = m2.deliver(round.signal).unwind(waiting, round.signal);
                        match round.signal {
                            SignalV::Normal(_) => {
                                assert(back == m2.iterate(var@, items, (k + 1) as usize, b, env));
                                law_for(m2, s, items, k + 1, env, host, fuel);
                                match exec_for(round.world, s, items, k + 1, env, host, fuel) {
                                    Some(more) => {
                                        assert(with_world(m2, more.world) == with_world(
                                            m,
                                            more.world,
                                        ));
                                        lemma_then(
                                            host,
                                            start,
                                            round.steps + 1,
                                            back,
                                            more.steps,
                                            back.advances(host, more.steps),
                                        );
                                    },
                                    None => {},
                                }
                            },
                            _ => {},
                        }
                    },
                    None => {},
                }
            }
        },
        _ => {},
    }
}

/// The evaluator arrives at what the handlers of a `try` make of an
/// error.
pub proof fn law_catches(
    m: MachineV,
    s: Statement,
    index: nat,
    env: usize,
    kind: ErrorKind,
    value: ValueV,
    host: spec_fn(nat, RequestV) -> SignalV,
    fuel: nat,
)
    requires
        index <= (if let Statement::Try(_, catches) = s {
            catches@.len()
        } else {
            0
        }),
    ensures
        catches_law(m, s, index, env, kind, value, host, fuel),
    decreases fuel, s, 1nat, (if let Statement::Try(_, catches) = s {
        2 * (catches@.len() - index) + 1
    } else {
        0
    }),
{
    match s {
        Statement::Try(_, catches) => {
            lemma_vec_len(catches);
            if index < catches@.len() {
                match *catches@[index as int] {
                    Catch::Catch(_, Some(_), _) => law_catch_filtered(
                        m,
                        s,
                        index,
                        env,
                        kind,
                        value,
                        host,
                        fuel,
                    ),
                    Catch::Catch(_, None, _) => law_catch_open(m, s, index, env, kind, value, host, fuel),
                }
            } else {
                let start = m.handle(catches, index as usize, env, kind, value);
                lemma_one_step(host, start);
                assert(with_world(m, world_of(m)) == m);
            }
        },
        _ => {},
    }
}

/// The evaluator arrives at what a handler with a filter, and the handlers
/// after it, make of an error.
proof fn law_catch_filtered(
    m: MachineV,
    s: Statement,
    index: nat,
    env: usize,
    kind: ErrorKind,
    value: ValueV,
    host: spec_fn(nat, RequestV) -> SignalV,
    fuel: nat,
)
    requires
        index < (if let Statement::Try(_, catches) = s {
            catches@.len()
        } else {
            0
        }),
        s matches Statement::Try(_, catches) && *catches@[index as int] matches Catch::Catch(
            _,
            Some(_),
            _,
        ),
    ensures
        catches_law(m, s, index, env, kind, value, host, fuel),
    decreases fuel, s, 1nat, (if let Statement::Try(_, catches) = s {
        2 * (catches@.len() - index)
    } else {
        0
    }),
{
    let w = world_of(m);
    assert(with_world(m, w) == m);
    match s {
        Statement::Try(_, catches) => {
            lemma_vec_len(catches);
            let start = m.handle(catches, index as usize, env, kind, value);
            lemma_one_step(host, start);
            let handler = *catches@[index as int];
            match handler {
                Catch::Catch(_, Some(f), body) => {
                    let waiting = KontV::Filter {
                        handler,
                        catches,
                        next: (index + 1) as usize,
                        env,
                        kind,
                        value,
                    };
                    assert(start == m.push(waiting).goto(ControlV::Eval(*f, env)));
                    law_expr(m.push(waiting), env, *f, host, fuel);
                    lemma_part(m, env, *f, waiting, host, fuel);
                    match eval_expr(w, env, *f, host, fuel) {
                        Some(test) => {
                            let m1 = with_world(m, test.world);
                            let taken = m1.deliver(test.signal).unwind(waiting, test.signal);
                            match test.signal {
                                SignalV::Normal(v) => {
                                    if filter_matches(v, kind, value) {
                                        let inside = with_world(
                                            m,
                                            test.world.handling(handler, env, value),
                                        );
                                        let child = test.world.fresh();
                                        assert(taken == inside.deliver(test.signal).goto(
                                            ControlV::Exec(body, 0, child),
                                        ));
                                        law_block(
                                            inside.deliver(test.signal),
                                            body,
                                            0,
                                            child,
                                            host,
                                            fuel,
                                        );
                                        match exec_block(
                                            test.world.handling(handler, env, value),
                                            body,
                                            0,
                                            child,
                                            host,
                                            fuel,
                                        ) {
                                            Some(r) => {
                                                assert(with_world(
                                                    inside.deliver(test.signal),
                                                    r.world,
                                                ).deliver(r.signal) == with_world(
                                                    m,
                                                    r.world,
                                                ).deliver(r.signal));
                                                lemma_then(
                                                    host,
                                                    start,
                                                    test.steps + 1,
                                                    taken,
                                                    r.steps,
                                                    taken.advances(host, r.steps),
                                                );
                                            },
                                            None => {},
                                        }
                                    } else {
                                        assert(taken == m1.deliver(test.signal).handle(
                                            catches,
                                            (index + 1) as usize,
                                            env,
                                            kind,
                                            value,
                                        ));
                                        law_catches(
                                            m1.deliver(test.signal),
                                            s,
                                            index + 1,
                                            env,
                                            kind,
                                            value,
                                            host,
                                            fuel,
                                        );
                                        match exec_catches(
                                            test.world,
                                            s,
                                            index + 1,
                                            env,
                                            kind,
                                            value,
                                            host,
                                            fuel,
                                        ) {
                                            Some(r) => {
                                                assert(with_world(
                                                    m1.deliver(test.signal),
                                                    r.world,
                                                ).deliver(r.signal) == with_world(
                                                    m,
                                                    r.world,
                                                ).deliver(r.signal));
                                                lemma_then(
                                                    host,
                                                    start,
                                                    test.steps + 1,
                                                    taken,
                                                    r.steps,
                                                    taken.advances(host, r.steps),
                                                );
                                            },
                                            None => {},
                                        }
                                    }
                                },
                                _ => {},
                            }
                        },
                        None => {},
                    }
                },
                _ => {},
            }
        },
        _ => {},
    }
}

/// The evaluator arrives at what a handler without a filter makes of an
/// error.
proof fn law_catch_open(
    m: MachineV,
    s: Statement,
    index: nat,
    env: usize,
    kind: ErrorKind,
    value: ValueV,
    host: spec_fn(nat, RequestV) -> SignalV,
    fuel: nat,
)
    requires
        index < (if let Statement::Try(_, catches) = s {
            catches@.len()
        } else {
            0
        }),
        s matches Statement::Try(_, catches) && *catches@[index as int] matches Catch::Catch(
            _,
            None,
            _,
        ),
    ensures
        catches_law(m, s, index, env, kind, value, host, fuel),
    decreases fuel, s, 1nat, (if let Statement::Try(_, catches) = s {
        2 * (catches@.len() - index)
    } else {
        0
    }),
{
    let w = world_of(m);
    assert(with_world(m, w) == m);
    match s {
        Statement::Try(_, catches) => {
            lemma_vec_len(catches);
            let start = m.handle(catches, index as usize, env, kind, value);
            lemma_one_step(host, start);
            let handler = *catches@[index as int];
            match handler {
                Catch::Catch(_, None, body) => {
                    let inside = with_world(m, w.handling(handler, env, value));
                    let child = w.fresh();
                    assert(start == inside.goto(ControlV::Exec(body, 0, child)));
                    law_block(inside, body, 0, child, host, fuel);
                },
                _ => {},
            }
        },
        _ => {},
    }
}

/// A state that is final, or that waits for the host, stays as it is
/// however many steps are made.
pub proof fn lemma_rest_stays(m: MachineV, n: nat)
    requires
        !m.running(),
    ensures
        m.steps(n) == m,
    decreases n,
{
    reveal(MachineV::step);
    if n > 0 {
        assert(m.step() == m);
        lemma_rest_stays(m, (n - 1) as nat);
    }
}

/// `a` steps and then `b` steps are `a + b` steps.
pub proof fn lemma_steps_add(m: MachineV, a: nat, b: nat)
    ensures
        m.steps(a).steps(b) == m.steps(a + b),
    decreases a,
{
    if a > 0 {
        lemma_steps_add(m.step(), (a - 1) as nat, b);
        assert(m.steps(a) == m.step().steps((a - 1) as nat));
        assert(m.steps(a + b) == m.step().steps((a + b - 1) as nat));
    }
}

/// The host is asked for more and more: no move takes a request back.
pub proof fn lemma_asked_grows(m: MachineV, host: spec_fn(nat, RequestV) -> SignalV, n: nat)
    ensures
        m.asked <= m.advances(host, n).asked,
    decreases n,
{
    if n > 0 {
        lemma_step_keeps_asked(m);
        lemma_asked_grows(m.advance(host), host, (n - 1) as nat);
    }
}

/// A step asks nothing of the host.
pub proof fn lemma_step_keeps_asked(m: MachineV)
    ensures
        m.step().asked == m.asked,
{
    reveal(MachineV::step);
    match m.control {
        ControlV::Deliver(sig) => {
            if m.konts.len() > 0 {
                let k = m.konts.last();
                let p = m.pop();
                match sig {
                    SignalV::Normal(v) => {
                        assert(p.receive(k, v).asked == m.asked);
                    },
                    _ => {},
                }
            }
        },
        _ => {},
    }
}

/// Where the host was asked nothing on the way, the moves of the
/// evaluator together with its host are the steps of the evaluator alone.
pub proof fn lemma_quiet_moves_are_steps(
    m: MachineV,
    host: spec_fn(nat, RequestV) -> SignalV,
    n: nat,
)
    requires
        m.advances(host, n).asked == m.asked,
        !m.advances(host, n).waiting(),
    ensures
        m.advances(host, n) == m.steps(n),
    decreases n,
{
    if n > 0 {
        let next = m.advance(host);
        lemma_asked_grows(next, host, (n - 1) as nat);
        lemma_step_keeps_asked(m);
        if m.waiting() {
            assert(next.asked == m.asked + 1);
        } else {
            lemma_quiet_moves_are_steps(next, host, (n - 1) as nat);
        }
    }
}

/// A program that comes to something runs to its end. Where the
/// evaluator is about to run the program `body` from its first statement
/// in the root frame, with nothing waiting, it has nothing left to do
/// after the moves that the natural semantics counts, and delivers the
/// signal that the program ends with, in the world that the program
/// leaves.
pub proof fn law_program(
    m: MachineV,
    body: Vec<Box<Statement>>,
    host: spec_fn(nat, RequestV) -> SignalV,
    fuel: nat,
)
    requires
        m.konts.len() == 0,
        m.control == ControlV::Exec(body, 0, 0),
    ensures
        match exec_block(world_of(m), body, 0, 0, host, fuel) {
            Some(r) => {
                let end = m.advances(host, r.steps);
                &&& end.finished()
                &&& end.control == ControlV::Deliver(r.signal)
                &&& world_of(end) == r.world
            },
            None => true,
        },
{
    assert(m.goto(ControlV::Exec(body, 0, 0)) == m);
    law_block(m, body, 0, 0, host, fuel);
}

/// A program that comes to something without asking anything of its
/// host runs to its end by the steps of the evaluator alone.
pub proof fn law_quiet_program(
    m: MachineV,
    body: Vec<Box<Statement>>,
    host: spec_fn(nat, RequestV) -> SignalV,
    fuel: nat,
)
    requires
        m.konts.len() == 0,
        m.control == ControlV::Exec(body, 0, 0),
    ensures
        match exec_block(world_of(m), body, 0, 0, host, fuel) {
            Some(r) => r.world.asked == m.asked ==> {
                let end = m.steps(r.steps);
                &&& end.finished()
                &&& end.control == ControlV::Deliver(r.signal)
                &&& world_of(end) == r.world
            },
            None => true,
        },
{
    law_program(m, body, host, fuel);
    match exec_block(world_of(m), body, 0, 0, host, fuel) {
        Some(r) => {
            if r.world.asked == m.asked {
                lemma_quiet_moves_are_steps(m, host, r.steps);
            }
        },
        None => {},
    }
}

/// A final state stays as it is however many moves are made.
pub proof fn lemma_finished_stays(m: MachineV, host: spec_fn(nat, RequestV) -> SignalV, n: nat)
    requires
        m.finished(),
    ensures
        m.advances(host, n) == m,
    decreases n,
{
    reveal(MachineV::step);
    if n > 0 {
        assert(m.advance(host) == m);
        lemma_finished_stays(m, host, (n - 1) as nat);
    }
}

/// Fuel decides whether a program comes to something, never what it
/// comes to: with any two amounts of fuel that are enough, a program
/// ends with the same signal in the same world.
pub proof fn law_fuel_is_no_matter(
    m: MachineV,
    body: Vec<Box<Statement>>,
    host: spec_fn(nat, RequestV) -> SignalV,
    some: nat,
    more: nat,
)
    requires
        m.konts.len() == 0,
        m.control == ControlV::Exec(body, 0, 0),
    ensures
        match (
            exec_block(world_of(m), body, 0, 0, host, some),
            exec_block(world_of(m), body, 0, 0, host, more),
        ) {
            (Some(a), Some(b)) => a.signal == b.signal && a.world == b.world,
            _ => true,
        },
{
    law_program(m, body, host, some);
    law_program(m, body, host, more);
    match (
        exec_block(world_of(m), body, 0, 0, host, some),
        exec_block(world_of(m), body, 0, 0, host, more),
    ) {
        (Some(a), Some(b)) => {
            if a.steps <= b.steps {
                lemma_finished_stays(m.advances(host, a.steps), host, (b.steps - a.steps) as nat);
                lemma_advances_add(m, host, a.steps, (b.steps - a.steps) as nat);
            } else {
                lemma_finished_stays(m.advances(host, b.steps), host, (a.steps - b.steps) as nat);
                lemma_advances_add(m, host, b.steps, (a.steps - b.steps) as nat);
            }
        },
        _ => {},
    }
}

/// Running the evaluator until it rests ends a program with what the
/// program comes to. Where the evaluator made `used` steps from `start`,
/// all of them from running states, and stopped for lack of budget only
/// after at least as many steps as the program takes, it stopped in the
/// state in which the program has ended.
pub proof fn law_run_ends(start: MachineV, used: nat, budget: nat, steps: nat)
    requires
        !start.steps(steps).running(),
        steps <= budget,
        used <= budget,
        used < budget ==> !start.steps(used).running(),
        forall|k: nat| k < used ==> (#[trigger] start.steps(k)).running(),
    ensures
        start.steps(used) == start.steps(steps),
{
    if used < steps {
        lemma_rest_stays(start.steps(used), (steps - used) as nat);
        lemma_steps_add(start, used, (steps - used) as nat);
    }
}

} // verus!
