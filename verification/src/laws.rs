//! Laws of the language: what holds of the operators, of the
//! environment, of the evaluator and of the natural semantics whatever
//! the program is.

use vstd::prelude::*;
use vstd::arithmetic::div_mod::{
    lemma_div_nonincreasing,
    lemma_div_pos_is_pos,
    lemma_fundamental_div_mod,
    lemma_mod_bound,
    lemma_mod_sub_multiples_vanish,
};
use crate::ast::{Catch, Expr, Opcode, Statement};
use crate::env::{assign, define, extend, frames_wf, holder, lemma_holder_bounds, lookup, FrameV};
use crate::ops::{
    binary_result,
    int_range,
    is_arithmetic,
    lemma_wrap32_fits,
    lemma_wrap32_same,
    trunc_div,
    wrap32,
    AppliedV,
};
use crate::natural::{
    eval_expr,
    exec_block,
    exec_catches,
    exec_stmt,
    later,
    ran,
    Entry,
    Run,
    World,
};
use crate::semantics::{bind_params, filter_matches, MachineV};
use crate::state::{ControlV, KontV, RequestV, SignalV};
use crate::value::{ErrorKind, ValueV};

verus! {

/// The magnitude of an integer.
pub open spec fn magnitude(x: int) -> int {
    if x < 0 {
        -x
    } else {
        x
    }
}

/// The quotient rounded towards zero, times the divisor, differs from the
/// dividend by less than the divisor, and lies on the dividend's side of
/// zero.
proof fn lemma_trunc_div_remainder(a: int, b: int)
    requires
        b != 0,
    ensures
        magnitude(a - trunc_div(a, b) * b) < magnitude(b),
        a >= 0 ==> a - trunc_div(a, b) * b >= 0,
        a <= 0 ==> a - trunc_div(a, b) * b <= 0,
        magnitude(trunc_div(a, b)) <= magnitude(a),
        magnitude(trunc_div(a, b) * b) <= magnitude(a),
        a >= 0 ==> trunc_div(a, b) * b >= 0,
        a <= 0 ==> trunc_div(a, b) * b <= 0,
{
    let x = magnitude(a);
    let d = magnitude(b);
    lemma_fundamental_div_mod(x, d);
    lemma_mod_bound(x, d);
    lemma_div_pos_is_pos(x, d);
    lemma_div_nonincreasing(x, d);
    let q = x / d;
    assert(x == d * q + x % d);
    assert(trunc_div(a, b) == if (a >= 0) == (b > 0) { q } else { -q });
    assert(trunc_div(a, b) * b == if a >= 0 { d * q } else { -(d * q) }) by (nonlinear_arith)
        requires
            trunc_div(a, b) == (if (a >= 0) == (b > 0) { q } else { -q }),
            d == magnitude(b),
            b != 0,
            a < 0 ==> x > 0,
            a >= 0 && x == 0 ==> q == 0,
            x == 0 ==> q == 0,
            0 <= q,
            x == d * q + x % d,
            0 <= x % d < d,
    ;
    assert(d * q >= 0) by (nonlinear_arith)
        requires
            d > 0,
            q >= 0,
    ;
}

/// Dividing and then multiplying by the divisor gives the dividend back
/// but for the remainder that the division dropped: for all integers `a`
/// and `b`, `b` not zero, `(a / b) * b` differs from `a` by less than the
/// magnitude of `b`, and never lies beyond `a` as seen from zero.
pub proof fn law_division_reconstructs(a: i32, b: i32)
    requires
        b != 0,
    ensures
        ({
            let q = wrap32(trunc_div(a as int, b as int));
            let p = wrap32(q * b);
            &&& binary_result(Opcode::Div, ValueV::Integer(a), ValueV::Integer(b))
                == AppliedV::Value(ValueV::Integer(q))
            &&& binary_result(Opcode::Mul, ValueV::Integer(q), ValueV::Integer(b))
                == AppliedV::Value(ValueV::Integer(p))
            &&& magnitude(a - p) < magnitude(b as int)
            &&& a >= 0 ==> 0 <= p <= a
            &&& a <= 0 ==> a <= p <= 0
        }),
{
    let t = trunc_div(a as int, b as int);
    lemma_trunc_div_remainder(a as int, b as int);
    if a == i32::MIN && b == -1 {
        assert(t == 0x8000_0000);
        lemma_mod_sub_multiples_vanish(t, int_range());
        lemma_wrap32_fits(t - int_range());
        lemma_wrap32_same(t, t - int_range());
        let q = wrap32(t);
        assert(q == i32::MIN);
        assert(q * b == 0x8000_0000);
    } else {
        let tb = t * b;
        if t == 0x8000_0000 {
            assert(b == 1 || b == -1) by (nonlinear_arith)
                requires
                    t == 0x8000_0000,
                    tb == t * b,
                    -0x8000_0000 <= tb <= 0x8000_0000,
                    b != 0,
            ;
        }
        assert(i32::MIN <= t <= i32::MAX);
        lemma_wrap32_fits(t);
        lemma_wrap32_fits(t * b);
    }
}

/// A string has no arithmetic with a number: every arithmetic operator
/// between a string and a floating-point number or an integer is a
/// `TypeError`, whichever side the string is on.
pub proof fn law_string_arithmetic_rejected(op: Opcode, s: Seq<char>, n: ValueV)
    requires
        is_arithmetic(op),
        n is Integer || n is Float,
    ensures
        binary_result(op, ValueV::Str(s), n) == AppliedV::Raise(ErrorKind::TypeError),
        binary_result(op, n, ValueV::Str(s)) == AppliedV::Raise(ErrorKind::TypeError),
{
}

/// A list is joined to a list alone: `Add` between a list and a value of
/// any other variant is a `TypeError`.
pub proof fn law_list_plus_scalar_rejected(l: Seq<ValueV>, v: ValueV)
    requires
        !(v is List),
    ensures
        binary_result(Opcode::Add, ValueV::List(l), v) == AppliedV::Raise(ErrorKind::TypeError),
        binary_result(Opcode::Add, v, ValueV::List(l)) == AppliedV::Raise(ErrorKind::TypeError),
{
}

/// Evaluating a variable that no frame on the way to the root binds
/// raises a `NameError`; no value is made up for it, and nothing else
/// changes.
pub proof fn law_unbound_variable_raises(m: MachineV, name: String, env: usize)
    requires
        m.control == ControlV::Eval(Expr::Variable(name), env),
        lookup(m.frames, env as int, name@).is_none(),
    ensures
        m.step() == m.raise(ErrorKind::NameError),
        m.step().frames == m.frames,
        m.step().konts == m.konts,
{
    reveal(MachineV::step);
}

/// Evaluating a variable that a frame on the way to the root binds gives
/// what the nearest such frame binds it to.
pub proof fn law_bound_variable_evaluates(m: MachineV, name: String, env: usize)
    requires
        m.control == ControlV::Eval(Expr::Variable(name), env),
        lookup(m.frames, env as int, name@).is_some(),
    ensures
        m.step() == m.give(lookup(m.frames, env as int, name@).unwrap()),
{
    reveal(MachineV::step);
}

/// A name reads as what was last assigned to it.
pub proof fn law_assign_then_lookup(frames: Seq<FrameV>, at: int, name: Seq<char>, v: ValueV)
    requires
        frames_wf(frames),
        0 <= at < frames.len(),
    ensures
        lookup(assign(frames, at, name, v), at, name) == Some(v),
{
    law_assign_in_place(frames, at, name, v);
}

/// An assignment to a name that a frame on the way to the root binds
/// replaces the binding in that frame, and the name stays bound there; an
/// assignment to a name that none binds makes the binding in the
/// innermost frame. No other frame changes.
pub proof fn law_assign_in_place(frames: Seq<FrameV>, at: int, name: Seq<char>, v: ValueV)
    requires
        frames_wf(frames),
        0 <= at < frames.len(),
    ensures
        ({
            let f = match holder(frames, at, name) {
                Some(f) => f,
                None => at,
            };
            let after = assign(frames, at, name, v);
            &&& 0 <= f < frames.len()
            &&& after.len() == frames.len()
            &&& holder(after, at, name) == Some(f)
            &&& after[f].vars == frames[f].vars.insert(name, v)
            &&& after[f].parent == frames[f].parent
            &&& forall|i: int| 0 <= i < frames.len() && i != f ==> after[i] == frames[i]
        }),
{
    lemma_holder_bounds(frames, at, name);
    let f = match holder(frames, at, name) {
        Some(f) => f,
        None => at,
    };
    let after = define(frames, f, name, v);
    assert(after == assign(frames, at, name, v));
    lemma_holder_reaches(frames, after, at, f, name);
}

/// Where the frames from `at` down to `f` are walked in `before` without
/// finding `name` above `f`, and `after` differs from `before` only in
/// that frame `f` binds `name`, the walk in `after` ends at `f`.
proof fn lemma_holder_reaches(
    before: Seq<FrameV>,
    after: Seq<FrameV>,
    at: int,
    f: int,
    name: Seq<char>,
)
    requires
        frames_wf(before),
        0 <= f <= at < before.len(),
        after.len() == before.len(),
        after[f].vars.contains_key(name),
        after[f].parent == before[f].parent,
        forall|i: int| 0 <= i < before.len() && i != f ==> after[i] == before[i],
        holder(before, at, name) == Some(f) || (holder(before, at, name).is_none() && f == at),
    ensures
        holder(after, at, name) == Some(f),
    decreases at,
{
    if at != f {
        assert(after[at] == before[at]);
        assert(!before[at].vars.contains_key(name));
        match before[at].parent {
            Some(p) => {
                lemma_holder_bounds(before, p as int, name);
                lemma_holder_reaches(before, after, p as int, f, name);
            },
            None => {},
        }
    }
}

/// An assignment to one name leaves every other name as it was, wherever
/// it is read from.
pub proof fn law_assign_keeps_other_names(
    frames: Seq<FrameV>,
    at: int,
    name: Seq<char>,
    v: ValueV,
    from: int,
    other: Seq<char>,
)
    requires
        frames_wf(frames),
        0 <= at < frames.len(),
        other != name,
    ensures
        lookup(assign(frames, at, name, v), from, other) == lookup(frames, from, other),
{
    law_assign_in_place(frames, at, name, v);
    let f = match holder(frames, at, name) {
        Some(f) => f,
        None => at,
    };
    lemma_holder_other(frames, assign(frames, at, name, v), f, name, from, other);
}

/// Where `after` differs from `before` only in what frame `f` binds
/// `name` to, the walk for another name ends where it did.
proof fn lemma_holder_other(
    before: Seq<FrameV>,
    after: Seq<FrameV>,
    f: int,
    name: Seq<char>,
    from: int,
    other: Seq<char>,
)
    requires
        0 <= f < before.len(),
        after.len() == before.len(),
        after[f].parent == before[f].parent,
        exists|v: ValueV| after[f].vars == before[f].vars.insert(name, v),
        forall|i: int| 0 <= i < before.len() && i != f ==> after[i] == before[i],
        other != name,
    ensures
        holder(after, from, other) == holder(before, from, other),
        lookup(after, from, other) == lookup(before, from, other),
    decreases from,
{
    if 0 <= from < before.len() {
        if from != f {
            assert(after[from] == before[from]);
        }
        assert(after[from].vars.contains_key(other) == before[from].vars.contains_key(other));
        if !before[from].vars.contains_key(other) {
            match before[from].parent {
                Some(p) => {
                    if p < from {
                        lemma_holder_other(before, after, f, name, p as int, other);
                    }
                },
                None => {},
            }
        } else {
            assert(after[from].vars[other] == before[from].vars[other]);
        }
    }
}

/// A new frame binds nothing of its own: code that runs in it reads every
/// name as code in its parent does, and code in the frames made before it
/// reads every name as before.
pub proof fn law_new_frame_sees_parent(
    frames: Seq<FrameV>,
    parent: usize,
    from: int,
    name: Seq<char>,
)
    requires
        frames_wf(frames),
        parent < frames.len(),
        0 <= from < frames.len(),
    ensures
        lookup(extend(frames, parent), frames.len() as int, name) == lookup(
            frames,
            parent as int,
            name,
        ),
        lookup(extend(frames, parent), from, name) == lookup(frames, from, name),
{
    let after = extend(frames, parent);
    lemma_holder_extended(frames, parent, from, name);
    lemma_holder_extended(frames, parent, parent as int, name);
    assert(!after[frames.len() as int].vars.contains_key(name));
    lemma_holder_bounds(frames, from, name);
    lemma_holder_bounds(frames, parent as int, name);
}

/// The walk from a frame made before a new one ends where it did.
proof fn lemma_holder_extended(frames: Seq<FrameV>, parent: usize, from: int, name: Seq<char>)
    requires
        frames_wf(frames),
        0 <= from < frames.len(),
    ensures
        holder(extend(frames, parent), from, name) == holder(frames, from, name),
    decreases from,
{
    let after = extend(frames, parent);
    assert(after[from] == frames[from]);
    if !frames[from].vars.contains_key(name) {
        match frames[from].parent {
            Some(p) => {
                lemma_holder_extended(frames, parent, p as int, name);
            },
            None => {},
        }
    }
}

/// A `return` becomes the value of the function call it is in: whatever
/// work waits on top of the stack is dropped until the boundary of a call
/// is on top, and there the value is delivered and the call is over.
pub proof fn law_return_stops_at_call(m: MachineV, v: ValueV)
    requires
        m.control == ControlV::Deliver(SignalV::Returning(v)),
        m.konts.len() > 0,
    ensures
        m.konts.last() is Call ==> m.step() == m.pop().leave_call().give(v),
        !(m.konts.last() is Call) ==> m.step() == m.pop(),
{
    reveal(MachineV::step);
}

/// An error passes every piece of waiting work but the boundary of a
/// `try` and the work that waits for the host to resolve an import or a
/// member; an error that no handler may catch passes the boundary of a
/// `try` as well. It is never dropped: the state after the step still
/// raises it.
pub proof fn law_error_propagates(m: MachineV, kind: ErrorKind, v: ValueV)
    requires
        m.control == ControlV::Deliver(SignalV::Raised(kind, v)),
        m.konts.len() > 0,
        !(m.konts.last() is Try) || !kind.catchable(),
        !(m.konts.last() is Import),
        !(m.konts.last() is Member),
    ensures
        m.step().control == m.control,
        m.step().konts == m.konts.drop_last(),
        m.step().frames == m.frames,
{
    reveal(MachineV::step);
}

/// Equality does not depend on the side a value stands on.
pub proof fn law_equality_symmetric(a: ValueV, b: ValueV)
    ensures
        a.equals(b) == b.equals(a),
    decreases a,
{
    match (a, b) {
        (ValueV::List(x), ValueV::List(y)) => {
            if x.len() == y.len() {
                assert forall|i: int| 0 <= i < x.len() implies (#[trigger] x[i]).equals(y[i])
                    == y[i].equals(x[i]) by {
                    law_equality_symmetric(x[i], y[i]);
                }
                if a.equals(b) {
                    assert forall|i: int| 0 <= i < y.len() implies (#[trigger] y[i]).equals(
                        x[i],
                    ) by {
                        assert(x[i].equals(y[i]));
                    }
                }
                if b.equals(a) {
                    assert forall|i: int| 0 <= i < x.len() implies (#[trigger] x[i]).equals(
                        y[i],
                    ) by {
                        assert(y[i].equals(x[i]));
                    }
                }
            }
        },
        _ => {},
    }
}

/// Whether a state is sound: every frame index in it names a frame, and
/// every parent was made before its child.
pub open spec fn sound(m: MachineV) -> bool {
    m.wf() && frames_wf(m.frames)
}

/// Whether a state is sound and the index of one more frame can still be
/// told.
pub open spec fn roomy(m: MachineV) -> bool {
    sound(m) && m.frames.len() < usize::MAX
}

/// Whether the frames `after` hold the frames `before`, with their
/// parents, and at most one frame more.
pub open spec fn frames_kept(before: Seq<FrameV>, after: Seq<FrameV>) -> bool {
    &&& frames_wf(after)
    &&& before.len() <= after.len() <= before.len() + 1
    &&& forall|i: int| 0 <= i < before.len() ==> (#[trigger] after[i]).parent == before[i].parent
}

/// Whether the state `after` may follow `before`: it names frames that
/// exist, keeps every frame that `before` had under the same parent,
/// keeps every closure that `before` had, and has asked nothing more of
/// the host.
pub open spec fn follows(before: MachineV, after: MachineV) -> bool {
    &&& after.wf()
    &&& frames_kept(before.frames, after.frames)
    &&& after.limit == before.limit
    &&& after.asked == before.asked
    &&& before.closures.len() <= after.closures.len()
    &&& forall|i: int|
        0 <= i < before.closures.len() ==> (#[trigger] after.closures[i]) == before.closures[i]
}

proof fn lemma_define_kept(frames: Seq<FrameV>, at: int, name: Seq<char>, v: ValueV)
    requires
        frames_wf(frames),
        0 <= at < frames.len(),
    ensures
        frames_wf(define(frames, at, name, v)),
        define(frames, at, name, v).len() == frames.len(),
        forall|i: int|
            0 <= i < frames.len() ==> (#[trigger] define(frames, at, name, v)[i]).parent
                == frames[i].parent,
{
    let after = define(frames, at, name, v);
    assert forall|i: int| 0 <= i < after.len() implies match (#[trigger] after[i]).parent {
        Some(p) => p < i,
        None => true,
    } by {
        assert(after[i].parent == frames[i].parent);
    }
}

proof fn lemma_assign_kept(frames: Seq<FrameV>, at: int, name: Seq<char>, v: ValueV)
    requires
        frames_wf(frames),
        0 <= at < frames.len(),
    ensures
        frames_wf(assign(frames, at, name, v)),
        assign(frames, at, name, v).len() == frames.len(),
        forall|i: int|
            0 <= i < frames.len() ==> (#[trigger] assign(frames, at, name, v)[i]).parent
                == frames[i].parent,
{
    lemma_holder_bounds(frames, at, name);
    match holder(frames, at, name) {
        Some(f) => lemma_define_kept(frames, f, name, v),
        None => lemma_define_kept(frames, at, name, v),
    }
}

proof fn lemma_extend_kept(frames: Seq<FrameV>, parent: usize)
    requires
        frames_wf(frames),
        parent < frames.len(),
    ensures
        frames_wf(extend(frames, parent)),
        extend(frames, parent).len() == frames.len() + 1,
        forall|i: int|
            0 <= i < frames.len() ==> (#[trigger] extend(frames, parent)[i]) == frames[i],
{
    let after = extend(frames, parent);
    assert forall|i: int| 0 <= i < after.len() implies match (#[trigger] after[i]).parent {
        Some(p) => p < i,
        None => true,
    } by {
        if i < frames.len() {
            assert(after[i] == frames[i]);
        }
    }
}

proof fn lemma_bind_params_kept(
    frames: Seq<FrameV>,
    at: int,
    params: Seq<String>,
    args: Seq<ValueV>,
    n: nat,
)
    requires
        frames_wf(frames),
        0 <= at < frames.len(),
    ensures
        frames_wf(bind_params(frames, at, params, args, n)),
        bind_params(frames, at, params, args, n).len() == frames.len(),
        forall|i: int|
            0 <= i < frames.len() ==> (#[trigger] bind_params(frames, at, params, args, n)[i]).parent
                == frames[i].parent,
    decreases n,
{
    if n > 0 {
        let inner = bind_params(frames, at, params, args, (n - 1) as nat);
        lemma_bind_params_kept(frames, at, params, args, (n - 1) as nat);
        lemma_define_kept(inner, at, params[n - 1]@, args[n - 1]);
    }
}

/// Evaluating an expression leads from a sound state to one that may
/// follow it.
proof fn lemma_eval_follows(m: MachineV, e: Expr, env: usize)
    requires
        roomy(m),
        env < m.frames.len(),
    ensures
        follows(m, m.eval(e, env)),
{
}

/// Running a handler leads from a sound state to one that may follow it.
proof fn lemma_run_handler_follows(m: MachineV, handler: Catch, env: usize, value: ValueV)
    requires
        roomy(m),
        env < m.frames.len(),
    ensures
        follows(m, m.run_handler(handler, env, value)),
{
    lemma_extend_kept(m.frames, env);
    match handler {
        Catch::Catch(Some(n), _, _) => {
            lemma_define_kept(extend(m.frames, env), m.frames.len() as int, n@, value);
        },
        _ => {},
    }
}

/// Offering an error to the handlers leads from a sound state to one that
/// may follow it.
proof fn lemma_handle_follows(
    m: MachineV,
    catches: Vec<Box<Catch>>,
    index: usize,
    env: usize,
    kind: ErrorKind,
    value: ValueV,
)
    requires
        roomy(m),
        env < m.frames.len(),
    ensures
        follows(m, m.handle(catches, index, env, kind, value)),
{
    if index < catches@.len() {
        lemma_run_handler_follows(m, *catches@[index as int], env, value);
    }
}

/// Going on with a `for` leads from a sound state to one that may follow
/// it.
proof fn lemma_iterate_follows(
    m: MachineV,
    var: Seq<char>,
    items: Seq<ValueV>,
    next: usize,
    body: Vec<Box<Statement>>,
    env: usize,
)
    requires
        roomy(m),
        env < m.frames.len(),
    ensures
        follows(m, m.iterate(var, items, next, body, env)),
{
    if next < items.len() {
        lemma_extend_kept(m.frames, env);
        lemma_define_kept(extend(m.frames, env), m.frames.len() as int, var, items[next as int]);
    }
}

/// Calling a value leads from a sound state to one that may follow it.
proof fn lemma_invoke_follows(m: MachineV, callee: ValueV, args: Seq<ValueV>)
    requires
        roomy(m),
    ensures
        follows(m, m.invoke(callee, args)),
{
    match callee {
        ValueV::Closure(id) => {
            if id < m.closures.len() {
                let c = m.closures[id as int];
                lemma_extend_kept(m.frames, c.env);
                lemma_bind_params_kept(
                    extend(m.frames, c.env),
                    m.frames.len() as int,
                    c.params@,
                    args,
                    args.len(),
                );
            }
        },
        _ => {},
    }
}

/// Executing a statement leads from a sound state to one that may follow
/// it.
proof fn lemma_exec_follows(m: MachineV, body: Vec<Box<Statement>>, index: usize, env: usize)
    requires
        roomy(m),
        env < m.frames.len(),
    ensures
        follows(m, m.exec(body, index, env)),
{
    if index < body@.len() {
        match *body@[index as int] {
            Statement::Function(name, _, _) => {
                lemma_define_kept(
                    m.frames,
                    env as int,
                    name@,
                    ValueV::Closure(m.closures.len() as usize),
                );
            },
            Statement::Try(_, _) => {
                lemma_extend_kept(m.frames, env);
            },
            _ => {},
        }
    }
}

/// Handing a value to waiting work leads from a sound state to one that
/// may follow it.
proof fn lemma_receive_follows(m: MachineV, k: KontV, v: ValueV)
    requires
        roomy(m),
        k.env_ok(m.frames.len()),
    ensures
        follows(m, m.receive(k, v)),
{
    match k {
        KontV::Assign { name, env } => {
            lemma_assign_kept(m.frames, env as int, name, v);
        },
        KontV::Loop { env, .. } => {
            lemma_extend_kept(m.frames, env);
        },
        KontV::ForStart { var, body, env } => {
            match v {
                ValueV::List(items) => lemma_iterate_follows(m, var, items, 0, body, env),
                _ => {},
            }
        },
        KontV::ForNext { var, list: items, next, body, env } => {
            lemma_iterate_follows(m, var, items, next, body, env);
        },
        KontV::Filter { handler, catches, next, env, kind, value } => {
            lemma_run_handler_follows(m, handler, env, value);
            lemma_handle_follows(m, catches, next, env, kind, value);
        },
        KontV::Callee { args, env } => {
            lemma_invoke_follows(m, v, Seq::empty());
        },
        KontV::Args { callee, done, .. } => {
            lemma_invoke_follows(m, callee, done.push(v));
        },
        KontV::Import { current: name, env, .. } => {
            lemma_define_kept(m.frames, env as int, name.target(), v);
        },
        _ => {},
    }
}

/// A step leads from a sound state to a sound state. On the way no frame
/// is lost or moved under another parent, at most one frame is made, and
/// no closure is forgotten.
pub proof fn law_step_keeps_sound(m: MachineV)
    requires
        sound(m),
        m.frames.len() < usize::MAX,
    ensures
        sound(m.step()),
        follows(m, m.step()),
{
    reveal(MachineV::step);
    match m.control {
        ControlV::Eval(e, env) => lemma_eval_follows(m, e, env),
        ControlV::Exec(body, index, env) => lemma_exec_follows(m, body, index, env),
        ControlV::Deliver(sig) => {
            if m.konts.len() > 0 {
                let k = m.konts.last();
                let p = m.pop();
                assert(roomy(p));
                match sig {
                    SignalV::Normal(v) => lemma_receive_follows(p, k, v),
                    SignalV::Raised(kind, v) => {
                        match k {
                            KontV::Try { catches, env } => {
                                lemma_handle_follows(p, catches, 0, env, kind, v);
                            },
                            _ => {},
                        }
                    },
                    _ => {},
                }
            }
        },
        ControlV::Waiting(_) => {},
    }
}

/// Any number of steps leads from a sound state to a sound state, and
/// makes no more frames than steps.
pub proof fn law_steps_keep_sound(m: MachineV, n: nat)
    requires
        sound(m),
        m.frames.len() + n <= usize::MAX,
    ensures
        sound(m.steps(n)),
        m.frames.len() <= m.steps(n).frames.len() <= m.frames.len() + n,
        m.steps(n).limit == m.limit,
    decreases n,
{
    if n > 0 {
        law_step_keeps_sound(m);
        law_steps_keep_sound(m.step(), (n - 1) as nat);
    }
}

/// A handler without a filter takes whatever error is offered to it: its
/// body runs, in a new frame that binds its variable to the value of the
/// error, and what the body comes to is what the handlers come to.
pub proof fn law_open_handler_takes_any_error(
    w: World,
    s: Statement,
    index: nat,
    env: usize,
    kind: ErrorKind,
    value: ValueV,
    host: spec_fn(nat, RequestV) -> SignalV,
    fuel: nat,
)
    requires
        s matches Statement::Try(_, catches) && (index < catches@.len() && *catches@[index as int]
            matches Catch::Catch(_, None, _)),
    ensures
        ({
            let handler = *s->Try_1@[index as int];
            exec_catches(w, s, index, env, kind, value, host, fuel) == exec_block(
                w.handling(handler, env, value),
                handler->Catch_2,
                0,
                w.fresh(),
                host,
                fuel,
            )
        }),
{
}

/// A handler whose filter names the kind of the error takes the error:
/// where the filter is a variable that the frames bind to the marker of
/// the kind, the body of the handler runs, and what it comes to is what
/// the handlers come to.
pub proof fn law_matching_handler_takes_error(
    w: World,
    s: Statement,
    index: nat,
    env: usize,
    kind: ErrorKind,
    value: ValueV,
    name: String,
    host: spec_fn(nat, RequestV) -> SignalV,
    fuel: nat,
)
    requires
        s matches Statement::Try(_, catches) && (index < catches@.len() && (*catches@[index as int]
            matches Catch::Catch(_, Some(f), _) && *f == Expr::Variable(name))),
        lookup(w.frames, env as int, name@) == Some(ValueV::Error(kind)),
    ensures
        ({
            let handler = *s->Try_1@[index as int];
            match exec_block(
                w.handling(handler, env, value),
                handler->Catch_2,
                0,
                w.fresh(),
                host,
                fuel,
            ) {
                Some(r) => exec_catches(w, s, index, env, kind, value, host, fuel) == Some(
                    Run { steps: r.steps + 2, ..r },
                ),
                None => exec_catches(w, s, index, env, kind, value, host, fuel).is_none(),
            }
        }),
{
    let handler = *s->Try_1@[index as int];
    let f = *handler->Catch_1->Some_0;
    assert(eval_expr(w, env, f, host, fuel) == ran(w, SignalV::Normal(ValueV::Error(kind)), 1));
    assert(filter_matches(ValueV::Error(kind), kind, value));
}

/// An error that no handler is left for goes on as it came.
pub proof fn law_unhandled_error_goes_on(
    w: World,
    s: Statement,
    index: nat,
    env: usize,
    kind: ErrorKind,
    value: ValueV,
    host: spec_fn(nat, RequestV) -> SignalV,
    fuel: nat,
)
    requires
        s matches Statement::Try(_, catches) && index >= catches@.len(),
    ensures
        exec_catches(w, s, index, env, kind, value, host, fuel) == ran(
            w,
            SignalV::Raised(kind, value),
            0,
        ),
{
}

/// Scoping is lexical: the body of a closure runs in a new frame whose
/// parent is the frame that the closure captured, whatever frame the call
/// stands in.
pub proof fn law_call_enters_captured_frame(w: World, id: usize, args: Seq<ValueV>)
    requires
        frames_wf(w.frames),
        w.frames.len() <= usize::MAX,
        id < w.closures.len(),
        w.closures[id as int].env < w.frames.len(),
        w.closures[id as int].params@.len() == args.len(),
        w.depth < w.limit,
    ensures
        match w.entry(ValueV::Closure(id), args) {
            Entry::Enter { world, body, child } => {
                &&& body == w.closures[id as int].body
                &&& child == w.frames.len()
                &&& world.frames.len() == w.frames.len() + 1
                &&& world.frames[child as int].parent == Some(w.closures[id as int].env)
                &&& world.depth == w.depth + 1
                &&& world.closures == w.closures
            },
            _ => false,
        },
{
    let c = w.closures[id as int];
    lemma_extend_kept(w.frames, c.env);
    lemma_bind_params_kept(
        extend(w.frames, c.env),
        w.frames.len() as int,
        c.params@,
        args,
        args.len(),
    );
}

/// A statement that does not complete normally ends the body it stands
/// in: the statements after it do not run.
pub proof fn law_block_stops_at_signal(
    w: World,
    body: Vec<Box<Statement>>,
    index: nat,
    env: usize,
    host: spec_fn(nat, RequestV) -> SignalV,
    fuel: nat,
)
    requires
        index < body@.len(),
    ensures
        match exec_stmt(w, *body@[index as int], env, host, fuel) {
            Some(r) => match r.signal {
                SignalV::Normal(_) => exec_block(w, body, index, env, host, fuel) == later(
                    exec_block(r.world, body, index + 1, env, host, fuel),
                    r.steps + 2,
                ),
                sig => exec_block(w, body, index, env, host, fuel) == ran(r.world, sig, r.steps + 2),
            },
            None => exec_block(w, body, index, env, host, fuel).is_none(),
        },
{
}

/// An expression that reads a variable which no frame binds comes to a
/// `NameError`, whatever the host and however much fuel there is, and
/// leaves the world as it was.
pub proof fn law_unbound_variable_is_name_error(
    w: World,
    env: usize,
    name: String,
    host: spec_fn(nat, RequestV) -> SignalV,
    fuel: nat,
)
    requires
        lookup(w.frames, env as int, name@).is_none(),
    ensures
        eval_expr(w, env, Expr::Variable(name), host, fuel) == ran(
            w,
            SignalV::Raised(ErrorKind::NameError, ValueV::Error(ErrorKind::NameError)),
            1,
        ),
{
}

/// An arithmetic operator between a string literal and a number literal
/// comes to a `TypeError`: no value is made up, and the host is not
/// asked.
pub proof fn law_string_with_number_is_type_error(
    w: World,
    env: usize,
    e: Expr,
    host: spec_fn(nat, RequestV) -> SignalV,
    fuel: nat,
)
    requires
        e matches Expr::BinaryOp(l, op, r) && (is_arithmetic(op) && (*l is Str && (*r is Float
            || *r is Integer))),
    ensures
        eval_expr(w, env, e, host, fuel) == ran(
            w,
            SignalV::Raised(ErrorKind::TypeError, ValueV::Error(ErrorKind::TypeError)),
            5,
        ),
{
    let l = *e->BinaryOp_0;
    let r = *e->BinaryOp_2;
    assert(eval_expr(w, env, l, host, fuel) == ran(w, SignalV::Normal(ValueV::Str(l->Str_0@)), 1));
    assert(eval_expr(w, env, r, host, fuel).is_some());
    assert(eval_expr(w, env, r, host, fuel).unwrap().world == w);
    assert(eval_expr(w, env, r, host, fuel).unwrap().steps == 1);
}

/// The expression `a / b * b` on integer literals, `b` not zero, comes to
/// the integer that [`law_division_reconstructs`] speaks of: it differs
/// from `a` by less than the magnitude of `b`.
pub proof fn law_division_reconstructs_in_a_program(
    w: World,
    env: usize,
    e: Expr,
    a: i32,
    b: i32,
    host: spec_fn(nat, RequestV) -> SignalV,
    fuel: nat,
)
    requires
        b != 0,
        e matches Expr::BinaryOp(q, times, r) && (times == Opcode::Mul && (*r == Expr::Integer(b)
            && (*q matches Expr::BinaryOp(l, by, d) && (by == Opcode::Div && (*l == Expr::Integer(a)
            && *d == Expr::Integer(b)))))),
    ensures
        ({
            let p = wrap32(wrap32(trunc_div(a as int, b as int)) * b);
            &&& eval_expr(w, env, e, host, fuel) == ran(
                w,
                SignalV::Normal(ValueV::Integer(p)),
                9,
            )
            &&& magnitude(a - p) < magnitude(b as int)
        }),
{
    law_division_reconstructs(a, b);
    let quotient = *e->BinaryOp_0;
    let right = *e->BinaryOp_2;
    let q = wrap32(trunc_div(a as int, b as int));
    assert(eval_expr(w, env, *quotient->BinaryOp_0, host, fuel) == ran(
        w,
        SignalV::Normal(ValueV::Integer(a)),
        1,
    ));
    assert(eval_expr(w, env, *quotient->BinaryOp_2, host, fuel) == ran(
        w,
        SignalV::Normal(ValueV::Integer(b)),
        1,
    ));
    assert(eval_expr(w, env, quotient, host, fuel) == ran(
        w,
        SignalV::Normal(ValueV::Integer(q)),
        5,
    ));
    assert(eval_expr(w, env, right, host, fuel) == ran(w, SignalV::Normal(ValueV::Integer(b)), 1));
}

} // verus!
